//! What holds of programs: their definitions are read back from their tokens,
//! all of them.
use crate::names::{find, lemma_find_put, put};
use crate::text::has_prefix;
use crate::toylang::lexer::TokenView;
use crate::toylang::parser::{
    empty_program, p_body, p_definition, p_field, p_fields, p_fn, p_generics, p_idents, p_params, p_path, p_path_rest, p_program,
    p_return, p_struct, program_of, reserved_prefix, NamesView, ParseErrorView, ProgramView,
};
use crate::toylang::parser_laws::{block_fits, braced_tokens, lemma_braced, lemma_split, lemma_type_first, lemma_type_read, stand, type_fits, type_tokens};
use crate::toylang::registry::{RegistryView, ToyFieldView, ToyFunctionView, ToyParamView, ToyStructView};
use crate::toylang::typed_ast::SourceTypeView;
use vstd::prelude::*;
use vstd::string::*;

verus! {

broadcast use vstd::seq::group_seq_axioms;

/// What a program is made of.
pub enum Definition {
    /// An import by the parts of its path.
    Import(Seq<Seq<char>>),
    Struct(Seq<char>, ToyStructView),
    Function(Seq<char>, ToyFunctionView),
}

/// Names, each with a comma behind it.
pub open spec fn idents_tokens(names: Seq<Seq<char>>) -> Seq<TokenView>
    decreases names.len(),
{
    if names.len() == 0 {
        Seq::empty()
    } else {
        seq![TokenView::Ident(names[0]), TokenView::Comma] + idents_tokens(names.drop_first())
    }
}

/// Type parameters between angle brackets, or nothing where there are none.
pub open spec fn generics_tokens(names: Seq<Seq<char>>) -> Seq<TokenView> {
    if names.len() == 0 {
        Seq::empty()
    } else {
        seq![TokenView::LAngle] + (idents_tokens(names) + seq![TokenView::RAngle])
    }
}

/// A name with its type, and a comma behind it.
pub open spec fn typed_tokens(name: Seq<char>, t: SourceTypeView) -> Seq<TokenView> {
    seq![TokenView::Ident(name), TokenView::Colon] + (type_tokens(t) + seq![TokenView::Comma])
}

/// The fields of a struct as tokens.
pub open spec fn struct_fields_tokens(fs: Seq<ToyFieldView>) -> Seq<TokenView>
    decreases fs.len(),
{
    if fs.len() == 0 {
        Seq::empty()
    } else {
        typed_tokens(fs[0].name, fs[0].rust_type) + struct_fields_tokens(fs.drop_first())
    }
}

/// The parameters of a function as tokens.
pub open spec fn params_tokens(ps: Seq<ToyParamView>) -> Seq<TokenView>
    decreases ps.len(),
{
    if ps.len() == 0 {
        Seq::empty()
    } else {
        typed_tokens(ps[0].name, ps[0].ty) + params_tokens(ps.drop_first())
    }
}

/// The other parts of a path as tokens.
pub open spec fn path_tokens(parts: Seq<Seq<char>>) -> Seq<TokenView>
    decreases parts.len(),
{
    if parts.len() == 0 {
        Seq::empty()
    } else {
        seq![TokenView::DoubleColon, TokenView::Ident(parts[0])] + path_tokens(parts.drop_first())
    }
}

/// The text of a path that goes on with some parts.
pub open spec fn path_text(path: Seq<char>, parts: Seq<Seq<char>>) -> Seq<char>
    decreases parts.len(),
{
    if parts.len() == 0 {
        path
    } else {
        path_text(path + "::"@ + parts[0], parts.drop_first())
    }
}

/// What a function returns, as tokens.
pub open spec fn return_tokens(t: Option<SourceTypeView>) -> Seq<TokenView> {
    match t {
        None => Seq::empty(),
        Some(t) => seq![TokenView::Arrow] + type_tokens(t),
    }
}

/// The body of a function, as tokens.
pub open spec fn body_tokens(f: ToyFunctionView) -> Seq<TokenView> {
    match f.body {
        None => Seq::empty(),
        Some(b) => braced_tokens(b),
    }
}

/// A function from its parameters on, as tokens.
pub open spec fn signature_tokens(f: ToyFunctionView) -> Seq<TokenView> {
    seq![TokenView::LParen] + (params_tokens(f.params) + (seq![TokenView::RParen] + (return_tokens(
        f.return_ty,
    ) + body_tokens(f))))
}

/// A definition as tokens.
pub open spec fn definition_tokens(d: Definition) -> Seq<TokenView> {
    match d {
        Definition::Import(parts) => seq![TokenView::Ident("use"@), TokenView::Ident(parts[0])]
            + path_tokens(parts.drop_first()),
        Definition::Struct(name, def) => seq![TokenView::Ident("struct"@), TokenView::Ident(name)]
            + (generics_tokens(def.type_params) + (seq![TokenView::LBrace] + (struct_fields_tokens(
            def.fields,
        ) + seq![TokenView::RBrace]))),
        Definition::Function(name, f) => seq![TokenView::Ident("fn"@), TokenView::Ident(name)] + (
        generics_tokens(f.type_params) + signature_tokens(f)),
    }
}

/// Definitions one after the other, as tokens.
pub open spec fn definitions_tokens(ds: Seq<Definition>) -> Seq<TokenView>
    decreases ds.len(),
{
    if ds.len() == 0 {
        Seq::empty()
    } else {
        definition_tokens(ds[0]) + definitions_tokens(ds.drop_first())
    }
}

/// Whether the types of fields can be written.
pub open spec fn fields_fit(fs: Seq<ToyFieldView>, names: NamesView) -> bool {
    forall|i: int| 0 <= i < fs.len() ==> type_fits((#[trigger] fs[i]).rust_type, names)
}

/// Whether the types of parameters can be written.
pub open spec fn params_fit(ps: Seq<ToyParamView>, names: NamesView) -> bool {
    forall|i: int| 0 <= i < ps.len() ==> type_fits((#[trigger] ps[i]).ty, names)
}

/// Whether a definition can be written behind others: its name is not reserved
/// and not taken, and its types and its body can be written.
pub open spec fn definition_fits(d: Definition, done: ProgramView) -> bool {
    match d {
        Definition::Import(parts) => parts.len() > 0,
        Definition::Struct(name, def) => {
            &&& !has_prefix(name, reserved_prefix())
            &&& find(done.structs, name) is None
            &&& fields_fit(
                def.fields,
                NamesView {
                    type_params: def.type_params,
                    struct_names: done.struct_names.push(name),
                },
            )
        },
        Definition::Function(name, f) => {
            let names = NamesView { type_params: f.type_params, struct_names: done.struct_names };
            &&& !has_prefix(name, reserved_prefix())
            &&& find(done.functions, name) is None
            &&& params_fit(f.params, names)
            &&& f.return_ty matches Some(t) ==> type_fits(t, names)
            &&& f.body matches Some(b) ==> block_fits(b, names)
            &&& f.is_export == (name == "main"@)
        },
    }
}

/// A program with one more definition.
pub open spec fn with_definition(done: ProgramView, d: Definition) -> ProgramView {
    match d {
        Definition::Import(parts) => ProgramView {
            imports: done.imports.push(path_text(parts[0], parts.drop_first())),
            ..done
        },
        Definition::Struct(name, def) => ProgramView {
            structs: put(done.structs, name, def),
            struct_names: done.struct_names.push(name),
            ..done
        },
        Definition::Function(name, f) => ProgramView {
            functions: put(done.functions, name, f),
            ..done
        },
    }
}

/// Whether definitions can be written behind others.
pub open spec fn definitions_fit(ds: Seq<Definition>, done: ProgramView) -> bool
    decreases ds.len(),
{
    ds.len() == 0 || definition_fits(ds[0], done) && definitions_fit(
        ds.drop_first(),
        with_definition(done, ds[0]),
    )
}

/// Whether a registry has what a definition says.
pub open spec fn has_definition(r: RegistryView, d: Definition) -> bool {
    match d {
        Definition::Import(parts) => r.imports.contains(path_text(parts[0], parts.drop_first())),
        Definition::Struct(name, def) => find(r.structs, name) == Some(def),
        Definition::Function(name, f) => find(r.functions, name) == Some(f),
    }
}

/// Every definition of a program is in the registry that its tokens give, as
/// it was written: its type parameters, fields, parameters, types and body.
pub proof fn lemma_program_read_back(ds: Seq<Definition>)
    requires
        definitions_fit(ds, empty_program()),
    ensures
        ({
            let ts = definitions_tokens(ds).push(TokenView::Eof);
            &&& program_of(ts) is Ok
            &&& forall|i: int|
                0 <= i < ds.len() ==> has_definition(program_of(ts)->Ok_0, #[trigger] ds[i])
        }),
{
    let ts = definitions_tokens(ds).push(TokenView::Eof);
    assert forall|i: int| 0 <= i < definitions_tokens(ds).len() implies ts[0 + i]
        == #[trigger] definitions_tokens(ds)[i] by {}
    lemma_program(ts, 0, ds, empty_program());
    let p = p_program(ts, 0, empty_program())->Ok_0;
    assert forall|i: int| 0 <= i < ds.len() implies has_definition(
        program_of(ts)->Ok_0,
        #[trigger] ds[i],
    ) by {
        assert(in_program(p, ds[i]));
    }
}

/// Whether a program has what a definition says.
spec fn in_program(p: ProgramView, d: Definition) -> bool {
    match d {
        Definition::Import(parts) => p.imports.contains(path_text(parts[0], parts.drop_first())),
        Definition::Struct(name, def) => find(p.structs, name) == Some(def),
        Definition::Function(name, f) => find(p.functions, name) == Some(f),
    }
}

/// Whether a program has what another one has.
spec fn grown(p: ProgramView, q: ProgramView) -> bool {
    &&& forall|name: Seq<char>|
        find(p.structs, name) is Some ==> #[trigger] find(q.structs, name) == find(p.structs, name)
    &&& forall|name: Seq<char>|
        find(p.functions, name) is Some ==> #[trigger] find(q.functions, name) == find(
            p.functions,
            name,
        )
    &&& forall|path: Seq<char>| p.imports.contains(path) ==> #[trigger] q.imports.contains(path)
}

proof fn lemma_one_more(p: ProgramView, d: Definition)
    requires
        definition_fits(d, p),
    ensures
        grown(p, with_definition(p, d)),
        in_program(with_definition(p, d), d),
{
    let q = with_definition(p, d);
    match d {
        Definition::Import(parts) => {
            let text = path_text(parts[0], parts.drop_first());
            assert(q.imports[q.imports.len() - 1] == text);
            assert forall|path: Seq<char>| p.imports.contains(path) implies
                #[trigger] q.imports.contains(path) by {
                let i = choose|i: int| 0 <= i < p.imports.len() && p.imports[i] == path;
                assert(q.imports[i] == path);
            }
        },
        Definition::Struct(name, def) => {
            lemma_find_put(p.structs, name, def, name);
            assert forall|other: Seq<char>| find(p.structs, other) is Some implies
                #[trigger] find(q.structs, other) == find(p.structs, other) by {
                lemma_find_put(p.structs, name, def, other);
            }
        },
        Definition::Function(name, f) => {
            lemma_find_put(p.functions, name, f, name);
            assert forall|other: Seq<char>| find(p.functions, other) is Some implies
                #[trigger] find(q.functions, other) == find(p.functions, other) by {
                lemma_find_put(p.functions, name, f, other);
            }
        },
    }
}

proof fn lemma_program(ts: Seq<TokenView>, pos: int, ds: Seq<Definition>, done: ProgramView)
    requires
        definitions_fit(ds, done),
        stand(ts, pos, definitions_tokens(ds)),
        ts.len() == pos + definitions_tokens(ds).len() + 1,
        ts.last() is Eof,
    ensures
        p_program(ts, pos, done) is Ok,
        grown(done, p_program(ts, pos, done)->Ok_0),
        forall|i: int|
            0 <= i < ds.len() ==> in_program(p_program(ts, pos, done)->Ok_0, #[trigger] ds[i]),
    decreases ds.len(),
{
    if ds.len() > 0 {
        let d = ds[0];
        let rest = ds.drop_first();
        let w = definition_tokens(d);
        lemma_split(ts, pos, w, definitions_tokens(rest));
        let q = pos + w.len();
        if rest.len() > 0 {
            let v = definition_tokens(rest[0]);
            lemma_split(ts, q, v, definitions_tokens(rest.drop_first()));
            assert(ts[q + 0] == v[0]);
        }
        assert(ts[pos + 0] == w[0]);
        lemma_definition(ts, pos, d, done);
        let next = with_definition(done, d);
        lemma_program(ts, q, rest, next);
        let p = p_program(ts, pos, done)->Ok_0;
        assert(p == p_program(ts, q, next)->Ok_0);
        lemma_one_more(done, d);
        lemma_grown(done, next, p);
        assert forall|i: int| 0 <= i < ds.len() implies in_program(p, #[trigger] ds[i]) by {
            if i > 0 {
                assert(ds[i] == rest[i - 1]);
            } else {
                lemma_in_grown(next, p, d);
            }
        }
    }
}

proof fn lemma_grown(a: ProgramView, b: ProgramView, c: ProgramView)
    requires
        grown(a, b),
        grown(b, c),
    ensures
        grown(a, c),
{
    assert forall|name: Seq<char>| find(a.structs, name) is Some implies #[trigger] find(
        c.structs,
        name,
    ) == find(a.structs, name) by {
        assert(find(b.structs, name) == find(a.structs, name));
    }
    assert forall|name: Seq<char>| find(a.functions, name) is Some implies #[trigger] find(
        c.functions,
        name,
    ) == find(a.functions, name) by {
        assert(find(b.functions, name) == find(a.functions, name));
    }
    assert forall|path: Seq<char>| a.imports.contains(path) implies #[trigger] c.imports.contains(
        path,
    ) by {
        assert(b.imports.contains(path));
    }
}

proof fn lemma_in_grown(p: ProgramView, q: ProgramView, d: Definition)
    requires
        grown(p, q),
        in_program(p, d),
    ensures
        in_program(q, d),
{
}

proof fn lemma_words()
    ensures
        "use"@ != "struct"@,
        "use"@ != "fn"@,
        "struct"@ != "fn"@,
{
    reveal_strlit("use");
    reveal_strlit("struct");
    reveal_strlit("fn");
    assert("use"@.len() == 3 && "struct"@.len() == 6 && "fn"@.len() == 2);
}

/// A definition is read back.
proof fn lemma_definition(ts: Seq<TokenView>, pos: int, d: Definition, done: ProgramView)
    requires
        definition_fits(d, done),
        stand(ts, pos, definition_tokens(d)),
        ts[pos + definition_tokens(d).len()] is Ident || ts[pos + definition_tokens(d).len()] is Eof,
    ensures
        definition_tokens(d).len() > 0,
        p_definition(ts, pos, done) == Ok::<_, ParseErrorView>(
            (with_definition(done, d), pos + definition_tokens(d).len()),
        ),
{
    lemma_words();
    let w = definition_tokens(d);
    assert(ts[pos + 0] == w[0]);
    match d {
        Definition::Import(parts) => {
            let a = seq![TokenView::Ident("use"@), TokenView::Ident(parts[0])];
            lemma_split(ts, pos, a, path_tokens(parts.drop_first()));
            assert(ts[pos + 1] == a[1]);
            lemma_path(ts, pos + 2, parts[0], parts.drop_first());
            assert(p_path(ts, pos + 1) == p_path_rest(ts, pos + 2, parts[0]));
        },
        Definition::Struct(name, def) => {
            lemma_struct(ts, pos, name, def, done.struct_names);
        },
        Definition::Function(name, f) => {
            lemma_function(ts, pos, name, f, done.struct_names);
        },
    }
}

proof fn lemma_path(ts: Seq<TokenView>, pos: int, path: Seq<char>, parts: Seq<Seq<char>>)
    requires
        stand(ts, pos, path_tokens(parts)),
        !(ts[pos + path_tokens(parts).len()] is DoubleColon),
    ensures
        p_path_rest(ts, pos, path) == Ok::<_, ParseErrorView>(
            (path_text(path, parts), pos + path_tokens(parts).len()),
        ),
    decreases parts.len(),
{
    if parts.len() > 0 {
        let a = seq![TokenView::DoubleColon, TokenView::Ident(parts[0])];
        lemma_split(ts, pos, a, path_tokens(parts.drop_first()));
        assert(ts[pos + 0] == a[0]);
        assert(ts[pos + 1] == a[1]);
        lemma_path(ts, pos + 2, path + "::"@ + parts[0], parts.drop_first());
    }
}

proof fn lemma_idents(ts: Seq<TokenView>, pos: int, names: Seq<Seq<char>>)
    requires
        stand(ts, pos, idents_tokens(names)),
        ts[pos + idents_tokens(names).len()] is RAngle,
    ensures
        p_idents(ts, pos) == Ok::<_, ParseErrorView>((names, pos + idents_tokens(names).len())),
    decreases names.len(),
{
    if names.len() == 0 {
        assert(names =~= Seq::empty());
    } else {
        let a = seq![TokenView::Ident(names[0]), TokenView::Comma];
        lemma_split(ts, pos, a, idents_tokens(names.drop_first()));
        assert(ts[pos + 0] == a[0]);
        assert(ts[pos + 1] == a[1]);
        lemma_idents(ts, pos + 2, names.drop_first());
        assert(names =~= seq![names[0]] + names.drop_first());
    }
}

proof fn lemma_generics(ts: Seq<TokenView>, pos: int, names: Seq<Seq<char>>)
    requires
        stand(ts, pos, generics_tokens(names)),
        !(ts[pos + generics_tokens(names).len()] is LAngle),
    ensures
        p_generics(ts, pos) == Ok::<_, ParseErrorView>((names, pos + generics_tokens(names).len())),
{
    if names.len() == 0 {
        assert(names =~= Seq::empty());
    } else {
        let i = idents_tokens(names);
        let r = seq![TokenView::RAngle];
        let l = seq![TokenView::LAngle];
        lemma_split(ts, pos, l, i + r);
        lemma_split(ts, pos + 1, i, r);
        assert(ts[pos + 0] == l[0]);
        assert(ts[pos + 1 + i.len() + 0] == r[0]);
        lemma_idents(ts, pos + 1, names);
    }
}

proof fn lemma_field(
    ts: Seq<TokenView>,
    pos: int,
    name: Seq<char>,
    t: SourceTypeView,
    names: NamesView,
)
    requires
        type_fits(t, names),
        stand(ts, pos, typed_tokens(name, t)),
    ensures
        p_field(ts, pos, names) == Ok::<_, ParseErrorView>(
            (name, t, pos + typed_tokens(name, t).len() - 1),
        ),
        ts[pos] is Ident,
        ts[pos + typed_tokens(name, t).len() - 1] is Comma,
        typed_tokens(name, t).len() > 1,
{
    let a = seq![TokenView::Ident(name), TokenView::Colon];
    let y = type_tokens(t);
    let c = seq![TokenView::Comma];
    lemma_split(ts, pos, a, y + c);
    lemma_split(ts, pos + 2, y, c);
    assert(ts[pos + 0] == a[0]);
    assert(ts[pos + 1] == a[1]);
    assert(ts[pos + 2 + y.len() + 0] == c[0]);
    lemma_type_read(ts, pos + 2, t, names);
}

proof fn lemma_fields(ts: Seq<TokenView>, pos: int, fs: Seq<ToyFieldView>, names: NamesView)
    requires
        fields_fit(fs, names),
        stand(ts, pos, struct_fields_tokens(fs)),
        ts[pos + struct_fields_tokens(fs).len()] is RBrace,
    ensures
        p_fields(ts, pos, names) == Ok::<_, ParseErrorView>(
            (fs, pos + struct_fields_tokens(fs).len()),
        ),
    decreases fs.len(),
{
    if fs.len() == 0 {
        assert(fs =~= Seq::empty());
    } else {
        let f = fs[0];
        let rest = fs.drop_first();
        let a = typed_tokens(f.name, f.rust_type);
        lemma_split(ts, pos, a, struct_fields_tokens(rest));
        assert(type_fits(f.rust_type, names));
        lemma_field(ts, pos, f.name, f.rust_type, names);
        assert forall|i: int| 0 <= i < rest.len() implies type_fits(
            (#[trigger] rest[i]).rust_type,
            names,
        ) by {
            assert(rest[i] == fs[i + 1]);
        }
        lemma_fields(ts, pos + a.len(), rest, names);
        assert(fs =~= seq![ToyFieldView { name: f.name, rust_type: f.rust_type }] + rest);
    }
}

proof fn lemma_params(ts: Seq<TokenView>, pos: int, ps: Seq<ToyParamView>, names: NamesView)
    requires
        params_fit(ps, names),
        stand(ts, pos, params_tokens(ps)),
        ts[pos + params_tokens(ps).len()] is RParen,
    ensures
        p_params(ts, pos, names) == Ok::<_, ParseErrorView>((ps, pos + params_tokens(ps).len())),
    decreases ps.len(),
{
    if ps.len() == 0 {
        assert(ps =~= Seq::empty());
    } else {
        let p = ps[0];
        let rest = ps.drop_first();
        let a = typed_tokens(p.name, p.ty);
        lemma_split(ts, pos, a, params_tokens(rest));
        assert(type_fits(p.ty, names));
        lemma_field(ts, pos, p.name, p.ty, names);
        assert forall|i: int| 0 <= i < rest.len() implies type_fits(
            (#[trigger] rest[i]).ty,
            names,
        ) by {
            assert(rest[i] == ps[i + 1]);
        }
        lemma_params(ts, pos + a.len(), rest, names);
        assert(ps =~= seq![ToyParamView { name: p.name, ty: p.ty }] + rest);
    }
}

proof fn lemma_struct(
    ts: Seq<TokenView>,
    pos: int,
    name: Seq<char>,
    def: ToyStructView,
    struct_names: Seq<Seq<char>>,
)
    requires
        fields_fit(
            def.fields,
            NamesView { type_params: def.type_params, struct_names: struct_names.push(name) },
        ),
        stand(ts, pos, definition_tokens(Definition::Struct(name, def))),
    ensures
        p_struct(ts, pos, struct_names) == Ok::<_, ParseErrorView>(
            (name, def, pos + definition_tokens(Definition::Struct(name, def)).len()),
        ),
{
    let names = NamesView {
        type_params: def.type_params,
        struct_names: struct_names.push(name),
    };
    let a = seq![TokenView::Ident("struct"@), TokenView::Ident(name)];
    let g = generics_tokens(def.type_params);
    let l = seq![TokenView::LBrace];
    let f = struct_fields_tokens(def.fields);
    let r = seq![TokenView::RBrace];
    lemma_split(ts, pos, a, g + (l + (f + r)));
    lemma_split(ts, pos + 2, g, l + (f + r));
    let p = pos + 2 + g.len();
    lemma_split(ts, p, l, f + r);
    lemma_split(ts, p + 1, f, r);
    assert(ts[pos + 1] == a[1]);
    assert(ts[p + 0] == l[0]);
    assert(ts[p + 1 + f.len() + 0] == r[0]);
    lemma_generics(ts, pos + 2, def.type_params);
    lemma_fields(ts, p + 1, def.fields, names);
}

proof fn lemma_function(
    ts: Seq<TokenView>,
    pos: int,
    name: Seq<char>,
    f: ToyFunctionView,
    struct_names: Seq<Seq<char>>,
)
    requires
        ({
            let names = NamesView { type_params: f.type_params, struct_names };
            &&& params_fit(f.params, names)
            &&& f.return_ty matches Some(t) ==> type_fits(t, names)
            &&& f.body matches Some(b) ==> block_fits(b, names)
            &&& f.is_export == (name == "main"@)
        }),
        stand(ts, pos, definition_tokens(Definition::Function(name, f))),
        ts[pos + definition_tokens(Definition::Function(name, f)).len()] is Ident || ts[pos
            + definition_tokens(Definition::Function(name, f)).len()] is Eof,
    ensures
        p_fn(ts, pos, struct_names) == Ok::<_, ParseErrorView>(
            (name, f, pos + definition_tokens(Definition::Function(name, f)).len()),
        ),
{
    let names = NamesView { type_params: f.type_params, struct_names };
    let a = seq![TokenView::Ident("fn"@), TokenView::Ident(name)];
    let g = generics_tokens(f.type_params);
    let l = seq![TokenView::LParen];
    let ps = params_tokens(f.params);
    let r = seq![TokenView::RParen];
    let t = return_tokens(f.return_ty);
    let b = body_tokens(f);
    lemma_split(ts, pos, a, g + (l + (ps + (r + (t + b)))));
    lemma_split(ts, pos + 2, g, l + (ps + (r + (t + b))));
    let p = pos + 2 + g.len();
    lemma_split(ts, p, l, ps + (r + (t + b)));
    lemma_split(ts, p + 1, ps, r + (t + b));
    let q = p + 1 + ps.len();
    lemma_split(ts, q, r, t + b);
    lemma_split(ts, q + 1, t, b);
    let u = q + 1 + t.len();
    assert(ts[pos + 1] == a[1]);
    assert(ts[p + 0] == l[0]);
    assert(ts[q + 0] == r[0]);
    lemma_generics(ts, pos + 2, f.type_params);
    lemma_params(ts, p + 1, f.params, names);
    if f.body is Some {
        assert(b[0] == TokenView::LBrace);
        assert(ts[u + 0] == b[0]);
        lemma_braced(ts, u, f.body->Some_0, names);
    }
    match f.return_ty {
        Some(ty) => {
            let w = seq![TokenView::Arrow];
            lemma_split(ts, q + 1, w, type_tokens(ty));
            assert(ts[q + 1 + 0] == w[0]);
            lemma_type_first(ty, names);
            assert(ts[q + 2 + 0] == type_tokens(ty)[0]);
            lemma_type_read(ts, q + 2, ty, names);
        },
        None => {},
    }
    assert(p_return(ts, q + 1, names) == Ok::<_, ParseErrorView>((f.return_ty, u)));
    assert(p_body(ts, u, names) == Ok::<_, ParseErrorView>((f.body, u + b.len())));
}

} // verus!
