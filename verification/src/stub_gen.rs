//! The stub crate: Rust source that declares what a toylang crate offers, so
//! that Rust code can name it.
//!
//! Functions that Rust code may call, accessors of fields and methods of trait
//! impls stand there without a body of their own. Each of them, and nothing
//! else, carries a tag that tells the compiler to take the body from toylang.
use crate::text::{append_decimal, chars_of, digits_of, owned, same_text, views};
use crate::toylang::callbacks_impl::{stub_name, stub_name_of};
use crate::toylang::registry::{
    pair_views, RegistryView, ToyField, ToyFieldView, ToyFunction, ToyFunctionView, ToyImpl, ToyImplMethod, ToyImplMethodView, ToyImplView,
    ToyParam, ToyParamView, ToyStruct, ToyStructView, ToylangRegistry,
};
use crate::toylang::typed_ast::{source_views, SourceType, SourceTypeView};
use crate::typeid::{compute, type_id};
use vstd::prelude::*;
use vstd::slice::slice_subrange;
use vstd::string::*;

verus! {

broadcast use {vstd::seq::group_seq_axioms, vstd::std_specs::vec::group_vec_axioms};

/// A Rust source file once it is parsed.
#[verifier::external_type_specification]
#[verifier::external_body]
pub struct ExFile(syn::File);

/// The source file that a text writes, as `syn::parse_file` has it. Nothing,
/// where the text is no Rust source.
pub uninterp spec fn parsed_source(text: Seq<char>) -> Option<syn::File>;

/// The text of a source file, as `prettyplease::unparse` lays it out.
pub uninterp spec fn unparsed(file: syn::File) -> Seq<char>;

/// `syn::parse_file`: the source file that a text writes, or an error, by
/// nothing else but the text.
#[verifier::external_body]
fn parse_source(text: &str) -> (r: Option<syn::File>)
    ensures
        r == parsed_source(text@),
{
    match syn::parse_file(text) {
        Ok(file) => Some(file),
        Err(_) => None,
    }
}

/// `prettyplease::unparse`: the text of a source file, by nothing else but the
/// file. It panics where the parser has kept a part as it stood, as `syn` does
/// with `impl _ for T` or a pattern that starts with `box`. The source of a
/// stub crate has no such part: none of the words that would lead to one
/// stands where it could.
#[verifier::external_body]
fn unparse(file: &syn::File) -> (r: String)
    requires
        exists|text: Seq<char>| #[trigger]
            is_stub_text(text) && parsed_source(text) == Some(*file),
    ensures
        r@ == unparsed(*file),
{
    prettyplease::unparse(file)
}

/// A text as a formatter lays it out. Nothing, where the text is no Rust
/// source.
pub open spec fn formatted(text: Seq<char>) -> Option<Seq<char>> {
    match parsed_source(text) {
        Some(file) => Some(unparsed(file)),
        None => None,
    }
}

/// Whether text is that of a stub crate whose names are words.
pub open spec fn is_stub_text(text: Seq<char>) -> bool {
    exists|r: RegistryView| #[trigger] names_are_words(r) && text == stub_text(r)
}

/// Whether a character outside ASCII stands between words: white space, a
/// control character or a mark of the direction of the text.
pub open spec fn is_gap(c: char) -> bool {
    let n = c as u32;
    0x80 <= n <= 0xa0 || n == 0x1680 || 0x2000 <= n <= 0x200f || 0x2028 <= n <= 0x202f || 0x205f <= n
        <= 0x206f || n == 0x3000
}

/// Whether a character is an ASCII digit.
pub open spec fn is_ascii_digit(c: char) -> bool {
    '0' <= c && c <= '9'
}

/// Whether a character can stand in a word. Outside ASCII it is the parser
/// that tells letters from signs: it takes no sign there.
pub open spec fn word_char(c: char) -> bool {
    if (c as u32) < 0x80 {
        'a' <= c && c <= 'z' || 'A' <= c && c <= 'Z' || is_ascii_digit(c) || c == '_'
    } else {
        !is_gap(c)
    }
}

/// Whether text is a word without a prefix: characters of words, and no digit
/// first.
pub open spec fn is_bare_word(s: Seq<char>) -> bool {
    s.len() > 0 && !is_ascii_digit(s[0]) && forall|i: int|
        0 <= i < s.len() ==> word_char(#[trigger] s[i])
}

/// Whether text is a word, bare or behind `r#`.
pub open spec fn is_word(s: Seq<char>) -> bool {
    is_bare_word(s) || s.len() > 2 && s[0] == 'r' && s[1] == '#' && is_bare_word(s.skip(2))
}

/// Whether a word is one that Rust keeps for itself.
pub open spec fn is_reserved(s: Seq<char>) -> bool {
    s == "_"@
        || s == "abstract"@
        || s == "as"@
        || s == "async"@
        || s == "await"@
        || s == "become"@
        || s == "box"@
        || s == "break"@
        || s == "const"@
        || s == "continue"@
        || s == "crate"@
        || s == "do"@
        || s == "dyn"@
        || s == "else"@
        || s == "enum"@
        || s == "extern"@
        || s == "false"@
        || s == "final"@
        || s == "fn"@
        || s == "for"@
        || s == "if"@
        || s == "impl"@
        || s == "in"@
        || s == "let"@
        || s == "loop"@
        || s == "macro"@
        || s == "match"@
        || s == "mod"@
        || s == "move"@
        || s == "mut"@
        || s == "override"@
        || s == "priv"@
        || s == "pub"@
        || s == "ref"@
        || s == "return"@
        || s == "Self"@
        || s == "self"@
        || s == "static"@
        || s == "struct"@
        || s == "super"@
        || s == "trait"@
        || s == "true"@
        || s == "try"@
        || s == "type"@
        || s == "typeof"@
        || s == "unsafe"@
        || s == "unsized"@
        || s == "use"@
        || s == "virtual"@
        || s == "where"@
        || s == "while"@
        || s == "yield"@
}

/// Whether text can name an item, a field or a type parameter.
pub open spec fn is_name(s: Seq<char>) -> bool {
    is_word(s) && !is_reserved(s)
}

/// Whether text can name a trait.
pub open spec fn names_trait(s: Seq<char>) -> bool {
    is_name(s) || s == "self"@ || s == "Self"@ || s == "super"@ || s == "crate"@
}

/// Whether text can stand for a type.
pub open spec fn names_type(s: Seq<char>) -> bool {
    names_trait(s) || s == "_"@
}

/// Whether text can stand where a parameter has its name.
pub open spec fn names_param(s: Seq<char>) -> bool {
    names_type(s) || s == "true"@ || s == "false"@
}

/// Where the first `::` stands.
pub open spec fn colons_at(s: Seq<char>) -> Option<nat>
    decreases s.len(),
{
    if s.len() < 2 {
        None
    } else if s[0] == ':' && s[1] == ':' {
        Some(0)
    } else {
        match colons_at(s.drop_first()) {
            Some(i) => Some(i + 1),
            None => None,
        }
    }
}

/// What stands behind the last `::`.
pub open spec fn last_segment(s: Seq<char>) -> Seq<char>
    decreases s.len(),
{
    match colons_at(s) {
        Some(i) if i + 2 <= s.len() => last_segment(s.skip((i + 2) as int)),
        _ => s,
    }
}

/// Whether a character is white space of ASCII.
pub open spec fn is_blank(c: char) -> bool {
    c == ' ' || 0x09 <= c as u32 <= 0x0d
}

/// Text without the blanks that it starts with.
pub open spec fn without_first_blanks(s: Seq<char>) -> Seq<char>
    decreases s.len(),
{
    if s.len() > 0 && is_blank(s[0]) {
        without_first_blanks(s.drop_first())
    } else {
        s
    }
}

/// Text without the blanks that it ends with.
pub open spec fn without_last_blanks(s: Seq<char>) -> Seq<char>
    decreases s.len(),
{
    if s.len() > 0 && is_blank(s.last()) {
        without_last_blanks(s.drop_last())
    } else {
        s
    }
}

/// Whether text is a word with blanks around it.
pub open spec fn is_segment(s: Seq<char>) -> bool {
    is_word(without_last_blanks(without_first_blanks(s)))
}

/// Whether text is words with `::` between them.
pub open spec fn is_segments(s: Seq<char>) -> bool
    decreases s.len(),
{
    match colons_at(s) {
        Some(i) if i + 2 <= s.len() => is_segment(s.take(i as int)) && is_segments(
            s.skip((i + 2) as int),
        ),
        _ => is_segment(s),
    }
}

/// Whether text is a path: words with `::` between them, and perhaps one in
/// front of them.
pub open spec fn is_path(s: Seq<char>) -> bool {
    let t = without_first_blanks(s);
    if t.len() >= 2 && t[0] == ':' && t[1] == ':' {
        is_segments(t.skip(2))
    } else {
        is_segments(t)
    }
}

/// Whether all of some words can name type parameters.
pub open spec fn all_names(names: Seq<Seq<char>>) -> bool {
    forall|i: int| 0 <= i < names.len() ==> is_name(#[trigger] names[i])
}

/// Whether all of some words can stand for types.
pub open spec fn all_name_types(names: Seq<Seq<char>>) -> bool {
    forall|i: int| 0 <= i < names.len() ==> names_type(#[trigger] names[i])
}

/// Whether the names in a type are words.
pub open spec fn type_in_words(t: SourceTypeView) -> bool
    decreases t,
{
    match t {
        SourceTypeView::TypeParam(name) => names_type(name),
        SourceTypeView::StructRef { name, type_args } => names_type(name) && types_in_words(
            type_args,
        ),
        SourceTypeView::RustType { name, type_args } => names_type(name) && types_in_words(
            type_args,
        ),
        SourceTypeView::Ref { inner } => type_in_words(*inner),
        _ => true,
    }
}

/// Whether the names in some types are words.
pub open spec fn types_in_words(ts: Seq<SourceTypeView>) -> bool
    decreases ts,
{
    ts.len() == 0 || types_in_words(ts.drop_last()) && type_in_words(ts.last())
}

/// Whether the names in some parameters are words.
pub open spec fn params_in_words(ps: Seq<ToyParamView>) -> bool {
    forall|i: int|
        0 <= i < ps.len() ==> names_param((#[trigger] ps[i]).name) && type_in_words(ps[i].ty)
}

/// Whether the names in the type that a function returns are words.
pub open spec fn return_in_words(t: Option<SourceTypeView>) -> bool {
    t matches Some(ty) ==> type_in_words(ty)
}

/// Whether what a stub crate holds of a function is in words. It holds
/// nothing of a function with a body that Rust code may not call.
pub open spec fn fn_in_words(name: Seq<char>, f: ToyFunctionView) -> bool {
    f.body is Some && !f.is_export || {
        &&& is_name(name)
        &&& f.body is Some ==> all_names(f.type_params)
        &&& params_in_words(f.params)
        &&& return_in_words(f.return_ty)
    }
}

/// Whether the names in a struct are words.
pub open spec fn struct_in_words(d: ToyStructView) -> bool {
    &&& all_names(d.type_params)
    &&& forall|i: int|
        0 <= i < d.fields.len() ==> is_name((#[trigger] d.fields[i]).name) && type_in_words(
            d.fields[i].rust_type,
        )
}

/// Whether the names in a method of a trait impl are words. Its first
/// parameter is the receiver.
pub open spec fn method_in_words(m: ToyImplMethodView) -> bool {
    is_name(m.name) && params_in_words(tail(m.func.params)) && return_in_words(m.func.return_ty)
}

/// Whether the names of bounds are words, where they are bounds of one of
/// these parameters.
pub open spec fn bounds_in_words(
    bounds: Seq<(Seq<char>, Seq<char>)>,
    params: Seq<Seq<char>>,
) -> bool {
    forall|i: int|
        0 <= i < bounds.len() ==> params.contains((#[trigger] bounds[i]).0) ==> names_trait(
            bounds[i].1,
        )
}

/// Whether what a stub crate holds of a trait impl is in words. It holds
/// nothing of one that Rust code may not use.
pub open spec fn impl_in_words(d: ToyImplView) -> bool {
    !d.is_export || {
        &&& names_trait(d.trait_name)
        &&& names_type(d.self_type_name)
        &&& all_names(d.type_params)
        &&& all_name_types(d.self_type_args)
        &&& bounds_in_words(d.type_param_bounds, d.type_params)
        &&& forall|i: int| 0 <= i < d.methods.len() ==> method_in_words(#[trigger] d.methods[i])
    }
}

/// Whether all names that a stub crate would hold are words.
pub open spec fn names_are_words(r: RegistryView) -> bool {
    &&& forall|i: int| 0 <= i < r.imports.len() ==> is_path(#[trigger] r.imports[i])
    &&& forall|i: int|
        0 <= i < r.structs.len() ==> is_name((#[trigger] r.structs[i]).0) && struct_in_words(
            r.structs[i].1,
        )
    &&& forall|i: int|
        0 <= i < r.functions.len() ==> fn_in_words(
            (#[trigger] r.functions[i]).0,
            r.functions[i].1,
        )
    &&& forall|i: int| 0 <= i < r.trait_impls.len() ==> impl_in_words(#[trigger] r.trait_impls[i])
}

/// Texts with a separator between them.
pub open spec fn joined(parts: Seq<Seq<char>>, separator: Seq<char>) -> Seq<char>
    decreases parts.len(),
{
    if parts.len() == 0 {
        Seq::empty()
    } else if parts.len() == 1 {
        parts[0]
    } else {
        joined(parts.drop_last(), separator) + separator + parts.last()
    }
}

/// Names between angle brackets, or nothing where there are none.
pub open spec fn generics_text(names: Seq<Seq<char>>) -> Seq<char> {
    if names.len() == 0 {
        Seq::empty()
    } else {
        "<"@ + joined(names, ", "@) + ">"@
    }
}

/// A type as Rust writes it.
pub open spec fn type_text(t: SourceTypeView) -> Seq<char>
    decreases t,
{
    match t {
        SourceTypeView::I32 => "i32"@,
        SourceTypeView::I64 => "i64"@,
        SourceTypeView::F64 => "f64"@,
        SourceTypeView::Bool => "bool"@,
        SourceTypeView::Usize => "usize"@,
        SourceTypeView::Void => "()"@,
        SourceTypeView::Str => "str"@,
        SourceTypeView::ByteSlice => "[u8]"@,
        SourceTypeView::TypeParam(name) => name,
        SourceTypeView::StructRef { name, type_args } => if type_args.len() == 0 {
            name
        } else {
            name + "<"@ + types_text(type_args) + ">"@
        },
        SourceTypeView::RustType { name, type_args } => if type_args.len() == 0 {
            name
        } else {
            name + "<"@ + types_text(type_args) + ">"@
        },
        SourceTypeView::Ref { inner } => "&"@ + type_text(*inner),
    }
}

/// Types with commas between them.
pub open spec fn types_text(ts: Seq<SourceTypeView>) -> Seq<char>
    decreases ts,
{
    if ts.len() == 0 {
        Seq::empty()
    } else if ts.len() == 1 {
        type_text(ts[0])
    } else {
        types_text(ts.drop_last()) + ", "@ + type_text(ts.last())
    }
}

/// Parameters with commas between them.
pub open spec fn params_text(ps: Seq<ToyParamView>) -> Seq<char>
    decreases ps.len(),
{
    if ps.len() == 0 {
        Seq::empty()
    } else {
        let before = params_text(ps.drop_last());
        let one = ps.last().name + ": "@ + type_text(ps.last().ty);
        if ps.len() == 1 {
            one
        } else {
            before + ", "@ + one
        }
    }
}

/// The type that a function returns.
pub open spec fn return_text(t: Option<SourceTypeView>) -> Seq<char> {
    match t {
        Some(ty) => type_text(ty),
        None => "()"@,
    }
}

/// A function whose body comes from toylang: the tag, the signature, and a
/// body that is never run.
pub open spec fn tagged_fn(signature: Seq<char>) -> Seq<char> {
    "#[toylang::emit_consumer_body]\n"@ + signature + " { unreachable!() }\n"@
}

/// What every stub crate starts with.
pub open spec fn prelude_text() -> Seq<char> {
    "pub const __SKY_STUBS_MARKER: () = ();\npub struct __ToylangOpaque<const T: u64>;\n"@
}

/// The imports, handed on.
pub open spec fn imports_text(imports: Seq<Seq<char>>) -> Seq<char>
    decreases imports.len(),
{
    if imports.len() == 0 {
        Seq::empty()
    } else {
        imports_text(imports.drop_last()) + "pub use "@ + imports.last() + ";\n"@
    }
}

/// A struct, which shows its id and its type parameters and nothing else.
pub open spec fn struct_text(name: Seq<char>, d: ToyStructView) -> Seq<char> {
    "pub struct "@ + name + generics_text(d.type_params) + "(__ToylangOpaque<"@ + digits_of(
        type_id(name, Seq::empty()) as nat,
    ) + "u64>, std::marker::PhantomData<("@ + joined(d.type_params, ", "@) + ")>,);\n"@
}

/// The structs.
pub open spec fn structs_text(ds: Seq<(Seq<char>, ToyStructView)>) -> Seq<char>
    decreases ds.len(),
{
    if ds.len() == 0 {
        Seq::empty()
    } else {
        structs_text(ds.drop_last()) + struct_text(ds.last().0, ds.last().1)
    }
}

/// An accessor of a field.
pub open spec fn accessor_text(f: ToyFieldView) -> Seq<char> {
    tagged_fn("pub fn "@ + f.name + "(&self) -> &"@ + type_text(f.rust_type))
}

/// The accessors of some fields.
pub open spec fn accessor_list(fs: Seq<ToyFieldView>) -> Seq<char>
    decreases fs.len(),
{
    if fs.len() == 0 {
        Seq::empty()
    } else {
        accessor_list(fs.drop_last()) + accessor_text(fs.last())
    }
}

/// The accessors of all structs that have fields.
pub open spec fn accessors_text(ds: Seq<(Seq<char>, ToyStructView)>) -> Seq<char>
    decreases ds.len(),
{
    if ds.len() == 0 {
        Seq::empty()
    } else {
        let before = accessors_text(ds.drop_last());
        let (name, d) = ds.last();
        if d.fields.len() == 0 {
            before
        } else {
            before + "impl"@ + generics_text(d.type_params) + " "@ + name + generics_text(
                d.type_params,
            ) + " {\n"@ + accessor_list(d.fields) + "}\n"@
        }
    }
}

/// The declarations of the functions that Rust defines.
pub open spec fn declared_text(fs: Seq<(Seq<char>, ToyFunctionView)>) -> Seq<char>
    decreases fs.len(),
{
    if fs.len() == 0 {
        Seq::empty()
    } else {
        let before = declared_text(fs.drop_last());
        let (name, f) = fs.last();
        if f.body is Some {
            before
        } else {
            before + "pub fn "@ + name + "("@ + params_text(f.params) + ") -> "@ + return_text(
                f.return_ty,
            ) + ";\n"@
        }
    }
}

/// The block of those declarations, where there are any.
pub open spec fn declared_block(fs: Seq<(Seq<char>, ToyFunctionView)>) -> Seq<char> {
    if declared_text(fs).len() == 0 {
        Seq::empty()
    } else {
        "extern \"C\" {\n"@ + declared_text(fs) + "}\n"@
    }
}

/// The functions that Rust code may call. `main` has another name there.
pub open spec fn exported_text(fs: Seq<(Seq<char>, ToyFunctionView)>) -> Seq<char>
    decreases fs.len(),
{
    if fs.len() == 0 {
        Seq::empty()
    } else {
        let before = exported_text(fs.drop_last());
        let (name, f) = fs.last();
        if f.body is None || !f.is_export {
            before
        } else {
            before + tagged_fn(
                "pub fn "@ + stub_name(name) + generics_text(f.type_params) + "("@ + params_text(
                    f.params,
                ) + ") -> "@ + return_text(f.return_ty),
            )
        }
    }
}

/// The bounds of a type parameter.
pub open spec fn bounds_of(bounds: Seq<(Seq<char>, Seq<char>)>, param: Seq<char>) -> Seq<Seq<char>>
    decreases bounds.len(),
{
    if bounds.len() == 0 {
        Seq::empty()
    } else {
        let before = bounds_of(bounds.drop_last(), param);
        if bounds.last().0 == param {
            before.push(bounds.last().1)
        } else {
            before
        }
    }
}

/// A type parameter with its bounds.
pub open spec fn bounded_param(
    bounds: Seq<(Seq<char>, Seq<char>)>,
    param: Seq<char>,
) -> Seq<char> {
    if bounds_of(bounds, param).len() == 0 {
        param
    } else {
        param + ": "@ + joined(bounds_of(bounds, param), " + "@)
    }
}

/// The type parameters of a trait impl, with their bounds.
pub open spec fn bounded_params(d: ToyImplView) -> Seq<Seq<char>> {
    Seq::new(
        d.type_params.len(),
        |i: int| bounded_param(d.type_param_bounds, d.type_params[i]),
    )
}

/// A method of a trait impl. Its first parameter is the receiver.
pub open spec fn method_text(m: ToyImplMethodView) -> Seq<char> {
    tagged_fn(
        "fn "@ + m.name + (if m.is_self_mut {
            "(&mut self, "@
        } else {
            "(&self, "@
        }) + params_text(tail(m.func.params)) + ") -> "@ + return_text(m.func.return_ty),
    )
}

/// All but the first.
pub open spec fn tail(ps: Seq<ToyParamView>) -> Seq<ToyParamView> {
    if ps.len() == 0 {
        ps
    } else {
        ps.drop_first()
    }
}

/// The methods of a trait impl.
pub open spec fn methods_text(ms: Seq<ToyImplMethodView>) -> Seq<char>
    decreases ms.len(),
{
    if ms.len() == 0 {
        Seq::empty()
    } else {
        methods_text(ms.drop_last()) + method_text(ms.last())
    }
}

/// The trait impls that Rust code may use.
pub open spec fn impls_text(ds: Seq<ToyImplView>) -> Seq<char>
    decreases ds.len(),
{
    if ds.len() == 0 {
        Seq::empty()
    } else {
        let before = impls_text(ds.drop_last());
        let d = ds.last();
        if !d.is_export {
            before
        } else {
            before + "impl"@ + generics_text(bounded_params(d)) + " "@ + d.trait_name + " for "@
                + d.self_type_name + generics_text(d.self_type_args) + " {\n"@ + methods_text(
                d.methods,
            ) + "}\n"@
        }
    }
}

/// Whether an import brings in `Drop`.
pub open spec fn imports_drop(imports: Seq<Seq<char>>) -> bool {
    exists|i: int| 0 <= i < imports.len() && last_segment(#[trigger] imports[i]) == "Drop"@
}

/// `Drop` handed on, unless an import does so.
pub open spec fn drop_text(imports: Seq<Seq<char>>) -> Seq<char> {
    if imports_drop(imports) {
        Seq::empty()
    } else {
        "#[allow(unused_imports)]\npub use core::ops::Drop;\n"@
    }
}

/// What stands for methods that have no symbol of their own.
pub open spec fn helpers_text() -> Seq<char> {
    "#[inline(never)]\npub unsafe fn __toylang_option_unwrap<T>(o: *mut core::option::Option<T>) -> T { core::ptr::read(o).unwrap() }\n#[inline(never)]\npub unsafe fn __toylang_result_unwrap<T, E: core::fmt::Debug>(r: *mut core::result::Result<T, E>) -> T { core::ptr::read(r).unwrap() }\n"@
}

/// The source of the stub crate, before it is laid out.
pub open spec fn stub_text(r: RegistryView) -> Seq<char> {
    prelude_text() + imports_text(r.imports) + structs_text(r.structs) + declared_block(
        r.functions,
    ) + exported_text(r.functions) + accessors_text(r.structs) + impls_text(r.trait_impls)
        + drop_text(r.imports) + helpers_text()
}

/// The source of the stub crate. Nothing, where a name is no word, or the
/// source is no Rust.
pub open spec fn stub_source(r: RegistryView) -> Option<Seq<char>> {
    if names_are_words(r) {
        formatted(stub_text(r))
    } else {
        None
    }
}

/// A function with a body that Rust code may not call leaves no trace in the
/// stub crate.
pub proof fn lemma_internal_hidden(r: RegistryView, i: int)
    requires
        0 <= i < r.functions.len(),
        r.functions[i].1.body is Some,
        !r.functions[i].1.is_export,
    ensures
        stub_text((RegistryView { functions: r.functions.remove(i), ..r })) == stub_text(r),
{
    lemma_internal_skipped(r.functions, i);
}

proof fn lemma_internal_skipped(fs: Seq<(Seq<char>, ToyFunctionView)>, i: int)
    requires
        0 <= i < fs.len(),
        fs[i].1.body is Some,
        !fs[i].1.is_export,
    ensures
        exported_text(fs.remove(i)) == exported_text(fs),
        declared_text(fs.remove(i)) == declared_text(fs),
    decreases fs.len(),
{
    if i == fs.len() - 1 {
        assert(fs.remove(i) =~= fs.drop_last());
    } else {
        lemma_internal_skipped(fs.drop_last(), i);
        assert(fs.remove(i).drop_last() =~= fs.drop_last().remove(i));
        assert(fs.remove(i).last() == fs.last());
    }
}

fn gap(c: char) -> (r: bool)
    ensures
        r == is_gap(c),
{
    let n: u32 = c as u32;
    (0x80 <= n && n <= 0xa0) || n == 0x1680 || (0x2000 <= n && n <= 0x200f) || (0x2028 <= n && n
        <= 0x202f) || (0x205f <= n && n <= 0x206f) || n == 0x3000
}

fn in_word(c: char) -> (r: bool)
    ensures
        r == word_char(c),
{
    let n: u32 = c as u32;
    if n < 0x80 {
        ('a' <= c && c <= 'z') || ('A' <= c && c <= 'Z') || ('0' <= c && c <= '9') || c == '_'
    } else {
        !gap(c)
    }
}

fn bare_word(s: &[char]) -> (r: bool)
    ensures
        r == is_bare_word(s@),
{
    if s.len() == 0 {
        return false;
    }
    if '0' <= s[0] && s[0] <= '9' {
        return false;
    }
    let mut i: usize = 0;
    while i < s.len()
        invariant
            i <= s@.len(),
            forall|j: int| 0 <= j < i ==> word_char(#[trigger] s@[j]),
        decreases s@.len() - i,
    {
        if !in_word(s[i]) {
            assert(!word_char(s@[i as int]));
            return false;
        }
        i += 1;
    }
    true
}

fn word_chars(s: &[char]) -> (r: bool)
    ensures
        r == is_word(s@),
{
    if bare_word(s) {
        return true;
    }
    let n: usize = s.len();
    if n > 2 && s[0] == 'r' && s[1] == '#' {
        assert(s@.subrange(2, n as int) =~= s@.skip(2));
        bare_word(slice_subrange(s, 2, n))
    } else {
        false
    }
}

fn reserved(s: &str) -> (r: bool)
    ensures
        r == is_reserved(s@),
{
    same_text(s, "_")
        || same_text(s, "abstract")
        || same_text(s, "as")
        || same_text(s, "async")
        || same_text(s, "await")
        || same_text(s, "become")
        || same_text(s, "box")
        || same_text(s, "break")
        || same_text(s, "const")
        || same_text(s, "continue")
        || same_text(s, "crate")
        || same_text(s, "do")
        || same_text(s, "dyn")
        || same_text(s, "else")
        || same_text(s, "enum")
        || same_text(s, "extern")
        || same_text(s, "false")
        || same_text(s, "final")
        || same_text(s, "fn")
        || same_text(s, "for")
        || same_text(s, "if")
        || same_text(s, "impl")
        || same_text(s, "in")
        || same_text(s, "let")
        || same_text(s, "loop")
        || same_text(s, "macro")
        || same_text(s, "match")
        || same_text(s, "mod")
        || same_text(s, "move")
        || same_text(s, "mut")
        || same_text(s, "override")
        || same_text(s, "priv")
        || same_text(s, "pub")
        || same_text(s, "ref")
        || same_text(s, "return")
        || same_text(s, "Self")
        || same_text(s, "self")
        || same_text(s, "static")
        || same_text(s, "struct")
        || same_text(s, "super")
        || same_text(s, "trait")
        || same_text(s, "true")
        || same_text(s, "try")
        || same_text(s, "type")
        || same_text(s, "typeof")
        || same_text(s, "unsafe")
        || same_text(s, "unsized")
        || same_text(s, "use")
        || same_text(s, "virtual")
        || same_text(s, "where")
        || same_text(s, "while")
        || same_text(s, "yield")
}

fn item_name(s: &str) -> (r: bool)
    ensures
        r == is_name(s@),
{
    let chars = chars_of(s);
    word_chars(chars.as_slice()) && !reserved(s)
}

fn trait_name(s: &str) -> (r: bool)
    ensures
        r == names_trait(s@),
{
    item_name(s) || same_text(s, "self") || same_text(s, "Self") || same_text(s, "super")
        || same_text(s, "crate")
}

fn type_word(s: &str) -> (r: bool)
    ensures
        r == names_type(s@),
{
    trait_name(s) || same_text(s, "_")
}

fn param_name(s: &str) -> (r: bool)
    ensures
        r == names_param(s@),
{
    type_word(s) || same_text(s, "true") || same_text(s, "false")
}

fn blank(c: char) -> (r: bool)
    ensures
        r == is_blank(c),
{
    let n: u32 = c as u32;
    c == ' ' || (0x09 <= n && n <= 0x0d)
}

fn skip_first_blanks(s: &[char]) -> (r: &[char])
    ensures
        r@ == without_first_blanks(s@),
{
    let n: usize = s.len();
    let mut i: usize = 0;
    assert(s@.skip(0) =~= s@);
    while i < n && blank(s[i])
        invariant
            i <= n,
            n == s@.len(),
            without_first_blanks(s@) == without_first_blanks(s@.skip(i as int)),
        decreases n - i,
    {
        assert(s@.skip(i as int).drop_first() =~= s@.skip(i + 1));
        i += 1;
    }
    assert(s@.subrange(i as int, n as int) =~= s@.skip(i as int));
    slice_subrange(s, i, n)
}

fn skip_last_blanks(s: &[char]) -> (r: &[char])
    ensures
        r@ == without_last_blanks(s@),
{
    let mut n: usize = s.len();
    assert(s@.take(n as int) =~= s@);
    while n > 0 && blank(s[n - 1])
        invariant
            n <= s@.len(),
            without_last_blanks(s@) == without_last_blanks(s@.take(n as int)),
        decreases n,
    {
        assert(s@.take(n as int).drop_last() =~= s@.take(n - 1));
        n -= 1;
    }
    assert(s@.subrange(0, n as int) =~= s@.take(n as int));
    slice_subrange(s, 0, n)
}

fn segment_chars(s: &[char]) -> (r: bool)
    ensures
        r == is_segment(s@),
{
    word_chars(skip_last_blanks(skip_first_blanks(s)))
}

fn find_colons(s: &[char]) -> (r: Option<usize>)
    ensures
        (match r {
            Some(i) => Some(i as nat),
            None => None,
        }) == colons_at(s@),
        r matches Some(i) ==> i + 2 <= s@.len(),
{
    let n: usize = s.len();
    let mut i: usize = 0;
    assert(s@.skip(0) =~= s@);
    while i < n && n - i >= 2
        invariant
            i <= n,
            n == s@.len(),
            colons_at(s@) == (match colons_at(s@.skip(i as int)) {
                Some(k) => Some((k + i) as nat),
                None => None,
            }),
        decreases n - i,
    {
        assert(s@.skip(i as int).drop_first() =~= s@.skip(i + 1));
        if s[i] == ':' && s[i + 1] == ':' {
            return Some(i);
        }
        i += 1;
    }
    None
}

fn segments_chars(s: &[char]) -> (r: bool)
    ensures
        r == is_segments(s@),
    decreases s@.len(),
{
    match find_colons(s) {
        None => segment_chars(s),
        Some(i) => {
            let n: usize = s.len();
            assert(s@.subrange(0, i as int) =~= s@.take(i as int));
            assert(s@.subrange(i + 2, n as int) =~= s@.skip(i + 2));
            segment_chars(slice_subrange(s, 0, i)) && segments_chars(slice_subrange(s, i + 2, n))
        },
    }
}

fn path_chars(s: &[char]) -> (r: bool)
    ensures
        r == is_path(s@),
{
    let t = skip_first_blanks(s);
    let n: usize = t.len();
    if n >= 2 && t[0] == ':' && t[1] == ':' {
        assert(t@.subrange(2, n as int) =~= t@.skip(2));
        segments_chars(slice_subrange(t, 2, n))
    } else {
        segments_chars(t)
    }
}

fn is_drop_path(s: &[char]) -> (r: bool)
    ensures
        r == (last_segment(s@) == "Drop"@),
    decreases s@.len(),
{
    match find_colons(s) {
        None => {
            proof {
                reveal_strlit("Drop");
            }
            let drops = s.len() == 4 && s[0] == 'D' && s[1] == 'r' && s[2] == 'o' && s[3] == 'p';
            assert(drops ==> s@ =~= "Drop"@);
            drops
        },
        Some(i) => {
            let n: usize = s.len();
            assert(s@.subrange(i + 2, n as int) =~= s@.skip(i + 2));
            is_drop_path(slice_subrange(s, i + 2, n))
        },
    }
}

fn item_names(names: &Vec<String>) -> (r: bool)
    ensures
        r == all_names(views(names@)),
{
    let mut i: usize = 0;
    while i < names.len()
        invariant
            i <= names@.len(),
            forall|j: int| 0 <= j < i ==> is_name(#[trigger] views(names@)[j]),
        decreases names@.len() - i,
    {
        if !item_name(&names[i]) {
            assert(!is_name(views(names@)[i as int]));
            return false;
        }
        i += 1;
    }
    true
}

fn type_name_words(names: &Vec<String>) -> (r: bool)
    ensures
        r == all_name_types(views(names@)),
{
    let mut i: usize = 0;
    while i < names.len()
        invariant
            i <= names@.len(),
            forall|j: int| 0 <= j < i ==> names_type(#[trigger] views(names@)[j]),
        decreases names@.len() - i,
    {
        if !type_word(&names[i]) {
            assert(!names_type(views(names@)[i as int]));
            return false;
        }
        i += 1;
    }
    true
}

fn type_words(t: &SourceType) -> (r: bool)
    ensures
        r == type_in_words(t@),
    decreases t,
{
    match t {
        SourceType::TypeParam(name) => type_word(name),
        SourceType::StructRef { name, type_args } => type_word(name) && types_words(type_args),
        SourceType::RustType { name, type_args } => type_word(name) && types_words(type_args),
        SourceType::Ref { inner } => type_words(inner),
        _ => true,
    }
}

proof fn lemma_bad_prefix(ts: Seq<SourceTypeView>, n: int)
    requires
        0 <= n <= ts.len(),
        !types_in_words(ts.take(n)),
    ensures
        !types_in_words(ts),
    decreases ts.len() - n,
{
    if n < ts.len() {
        assert(ts.take(n + 1).drop_last() =~= ts.take(n));
        lemma_bad_prefix(ts, n + 1);
    } else {
        assert(ts.take(n) =~= ts);
    }
}

fn types_words(ts: &Vec<SourceType>) -> (r: bool)
    ensures
        r == types_in_words(source_views(ts@)),
    decreases ts,
{
    let ghost all = source_views(ts@);
    let mut i: usize = 0;
    while i < ts.len()
        invariant
            i <= ts@.len(),
            all == source_views(ts@),
            types_in_words(all.take(i as int)),
        decreases ts@.len() - i,
    {
        assert(all.take(i + 1).drop_last() =~= all.take(i as int));
        assert(all.take(i + 1).last() == ts@[i as int].model());
        if !type_words(&ts[i]) {
            proof {
                lemma_bad_prefix(all, i + 1);
            }
            return false;
        }
        i += 1;
    }
    assert(all.take(ts@.len() as int) =~= all);
    true
}

fn params_words(ps: &Vec<ToyParam>, from: usize) -> (r: bool)
    requires
        from <= ps@.len(),
    ensures
        r == params_in_words(views(ps@).skip(from as int)),
{
    let ghost all = views(ps@).skip(from as int);
    let mut i: usize = from;
    while i < ps.len()
        invariant
            from <= i <= ps@.len(),
            all == views(ps@).skip(from as int),
            forall|j: int|
                0 <= j < i - from ==> names_param((#[trigger] all[j]).name) && type_in_words(
                    all[j].ty,
                ),
        decreases ps@.len() - i,
    {
        assert(all[i - from] == ps@[i as int]@);
        if !(param_name(&ps[i].name) && type_words(&ps[i].ty)) {
            return false;
        }
        i += 1;
    }
    true
}

fn return_words(t: &Option<SourceType>) -> (r: bool)
    ensures
        r == return_in_words(
            match t {
                Some(ty) => Some(ty@),
                None => None,
            },
        ),
{
    match t {
        Some(ty) => type_words(ty),
        None => true,
    }
}

fn fn_words(name: &str, f: &ToyFunction) -> (r: bool)
    ensures
        r == fn_in_words(name@, f@),
{
    if f.body.is_some() {
        if !f.is_export {
            return true;
        }
        if !item_names(&f.type_params) {
            return false;
        }
    }
    assert(f@.params.skip(0) =~= f@.params);
    item_name(name) && params_words(&f.params, 0) && return_words(&f.return_ty)
}

fn method_words(m: &ToyImplMethod) -> (r: bool)
    ensures
        r == method_in_words(m@),
{
    let from: usize = if m.func.params.len() == 0 {
        0
    } else {
        1
    };
    assert(views(m.func.params@).skip(from as int) =~= tail(m@.func.params));
    item_name(&m.name) && params_words(&m.func.params, from) && return_words(&m.func.return_ty)
}

fn is_among(name: &String, names: &Vec<String>) -> (r: bool)
    ensures
        r == views(names@).contains(name@),
{
    let mut i: usize = 0;
    while i < names.len()
        invariant
            i <= names@.len(),
            forall|j: int| 0 <= j < i ==> (#[trigger] views(names@)[j]) != name@,
        decreases names@.len() - i,
    {
        if same_text(&names[i], name) {
            assert(views(names@)[i as int] == name@);
            return true;
        }
        assert(views(names@)[i as int] != name@);
        i += 1;
    }
    false
}

fn struct_words(d: &ToyStruct) -> (r: bool)
    ensures
        r == struct_in_words(d@),
{
    if !item_names(&d.type_params) {
        return false;
    }
    let mut i: usize = 0;
    while i < d.fields.len()
        invariant
            i <= d.fields@.len(),
            forall|j: int|
                0 <= j < i ==> is_name((#[trigger] d@.fields[j]).name) && type_in_words(
                    d@.fields[j].rust_type,
                ),
        decreases d.fields@.len() - i,
    {
        assert(d@.fields[i as int] == d.fields@[i as int]@);
        if !(item_name(&d.fields[i].name) && type_words(&d.fields[i].rust_type)) {
            return false;
        }
        i += 1;
    }
    true
}

fn impl_words(d: &ToyImpl) -> (r: bool)
    ensures
        r == impl_in_words(d@),
{
    if !d.is_export {
        return true;
    }
    if !(trait_name(&d.trait_name) && type_word(&d.self_type_name) && item_names(&d.type_params)
        && type_name_words(&d.self_type_args)) {
        return false;
    }
    let mut i: usize = 0;
    while i < d.type_param_bounds.len()
        invariant
            d.is_export,
            i <= d.type_param_bounds@.len(),
            forall|j: int|
                0 <= j < i ==> d@.type_params.contains((#[trigger] d@.type_param_bounds[j]).0)
                    ==> names_trait(d@.type_param_bounds[j].1),
        decreases d.type_param_bounds@.len() - i,
    {
        assert(d@.type_param_bounds[i as int] == (
            d.type_param_bounds@[i as int].0@,
            d.type_param_bounds@[i as int].1@,
        ));
        if is_among(&d.type_param_bounds[i].0, &d.type_params) && !trait_name(
            &d.type_param_bounds[i].1,
        ) {
            assert(d@.type_params.contains(d@.type_param_bounds[i as int].0));
            assert(!bounds_in_words(d@.type_param_bounds, d@.type_params));
            return false;
        }
        i += 1;
    }
    let mut k: usize = 0;
    while k < d.methods.len()
        invariant
            d.is_export,
            k <= d.methods@.len(),
            forall|j: int| 0 <= j < k ==> method_in_words(#[trigger] d@.methods[j]),
        decreases d.methods@.len() - k,
    {
        assert(d@.methods[k as int] == d.methods@[k as int]@);
        if !method_words(&d.methods[k]) {
            assert(!method_in_words(d@.methods[k as int]));
            return false;
        }
        k += 1;
    }
    true
}

fn registry_words(r: &ToylangRegistry) -> (b: bool)
    ensures
        b == names_are_words(r@),
{
    let mut i: usize = 0;
    while i < r.imports.len()
        invariant
            i <= r.imports@.len(),
            forall|j: int| 0 <= j < i ==> is_path(#[trigger] r@.imports[j]),
        decreases r.imports@.len() - i,
    {
        assert(r@.imports[i as int] == r.imports@[i as int]@);
        let chars = chars_of(&r.imports[i]);
        if !path_chars(chars.as_slice()) {
            return false;
        }
        i += 1;
    }
    let n: usize = r.structs.len();
    let mut k: usize = 0;
    while k < n
        invariant
            k <= n,
            n == r.structs@.len(),
            forall|j: int|
                0 <= j < k ==> is_name((#[trigger] r@.structs[j]).0) && struct_in_words(
                    r@.structs[j].1,
                ),
        decreases n - k,
    {
        assert(r@.structs[k as int] == r.structs@[k as int]);
        if !(item_name(r.structs.key_at(k)) && struct_words(r.structs.value_at(k))) {
            return false;
        }
        k += 1;
    }
    let m: usize = r.functions.len();
    let mut l: usize = 0;
    while l < m
        invariant
            l <= m,
            m == r.functions@.len(),
            forall|j: int|
                0 <= j < l ==> fn_in_words((#[trigger] r@.functions[j]).0, r@.functions[j].1),
        decreases m - l,
    {
        assert(r@.functions[l as int] == r.functions@[l as int]);
        if !fn_words(r.functions.key_at(l), r.functions.value_at(l)) {
            return false;
        }
        l += 1;
    }
    let mut t: usize = 0;
    while t < r.trait_impls.len()
        invariant
            t <= r.trait_impls@.len(),
            forall|j: int| 0 <= j < t ==> impl_in_words(#[trigger] r@.trait_impls[j]),
        decreases r.trait_impls@.len() - t,
    {
        assert(r@.trait_impls[t as int] == r.trait_impls@[t as int]@);
        if !impl_words(&r.trait_impls[t]) {
            return false;
        }
        t += 1;
    }
    true
}

fn join(parts: &Vec<String>, separator: &str) -> (r: String)
    ensures
        r@ == joined(views(parts@), separator@),
{
    let ghost all = views(parts@);
    let mut s = String::new();
    let mut i: usize = 0;
    assert(all.take(0) =~= Seq::empty());
    while i < parts.len()
        invariant
            i <= parts@.len(),
            all == views(parts@),
            s@ == joined(all.take(i as int), separator@),
        decreases parts@.len() - i,
    {
        assert(all.take(i + 1).drop_last() =~= all.take(i as int));
        assert(all.take(i + 1).last() == parts@[i as int]@);
        if i > 0 {
            s.append(separator);
        }
        s.append(&parts[i]);
        assert(s@ =~= joined(all.take(i + 1), separator@));
        i += 1;
    }
    assert(all.take(parts@.len() as int) =~= all);
    s
}

fn generics_clause(names: &Vec<String>) -> (r: String)
    ensures
        r@ == generics_text(views(names@)),
{
    if names.len() == 0 {
        let r = String::new();
        assert(r@ =~= Seq::empty());
        return r;
    }
    let mut s = owned("<");
    let inner = join(names, ", ");
    s.append(&inner);
    s.append(">");
    s
}

fn rust_type(t: &SourceType) -> (r: String)
    ensures
        r@ == type_text(t@),
    decreases t,
{
    match t {
        SourceType::I32 => owned("i32"),
        SourceType::I64 => owned("i64"),
        SourceType::F64 => owned("f64"),
        SourceType::Bool => owned("bool"),
        SourceType::Usize => owned("usize"),
        SourceType::Void => owned("()"),
        SourceType::Str => owned("str"),
        SourceType::ByteSlice => owned("[u8]"),
        SourceType::TypeParam(name) => name.clone(),
        SourceType::StructRef { name, type_args } => {
            let mut s = name.clone();
            assert(source_views(type_args@).len() == type_args@.len());
            if type_args.len() > 0 {
                s.append("<");
                let args = rust_types(type_args);
                s.append(&args);
                s.append(">");
            }
            s
        },
        SourceType::RustType { name, type_args } => {
            let mut s = name.clone();
            assert(source_views(type_args@).len() == type_args@.len());
            if type_args.len() > 0 {
                s.append("<");
                let args = rust_types(type_args);
                s.append(&args);
                s.append(">");
            }
            s
        },
        SourceType::Ref { inner } => {
            let mut s = owned("&");
            let t = rust_type(inner);
            s.append(&t);
            s
        },
    }
}

fn rust_types(ts: &Vec<SourceType>) -> (r: String)
    ensures
        r@ == types_text(source_views(ts@)),
    decreases ts,
{
    let ghost all = source_views(ts@);
    let mut s = String::new();
    let mut i: usize = 0;
    assert(all.take(0) =~= Seq::empty());
    while i < ts.len()
        invariant
            i <= ts@.len(),
            all == source_views(ts@),
            s@ == types_text(all.take(i as int)),
        decreases ts@.len() - i,
    {
        assert(all.take(i + 1).drop_last() =~= all.take(i as int));
        assert(all.take(i + 1).last() == ts@[i as int].model());
        if i > 0 {
            s.append(", ");
        }
        let one = rust_type(&ts[i]);
        s.append(&one);
        assert(s@ =~= types_text(all.take(i + 1)));
        i += 1;
    }
    assert(all.take(ts@.len() as int) =~= all);
    s
}

fn rust_params(ps: &Vec<ToyParam>, from: usize) -> (r: String)
    requires
        from <= ps@.len(),
    ensures
        r@ == params_text(views(ps@).skip(from as int)),
{
    let ghost all = views(ps@).skip(from as int);
    let mut s = String::new();
    let mut i: usize = from;
    assert(all.take(0) =~= Seq::empty());
    while i < ps.len()
        invariant
            from <= i <= ps@.len(),
            all == views(ps@).skip(from as int),
            s@ == params_text(all.take(i - from)),
        decreases ps@.len() - i,
    {
        assert(all.take(i + 1 - from).drop_last() =~= all.take(i - from));
        assert(all.take(i + 1 - from).last() == ps@[i as int]@);
        if i > from {
            s.append(", ");
        }
        s.append(&ps[i].name);
        s.append(": ");
        let t = rust_type(&ps[i].ty);
        s.append(&t);
        assert(s@ =~= params_text(all.take(i + 1 - from)));
        i += 1;
    }
    assert(all.take(ps@.len() - from) =~= all);
    s
}

fn rust_return(t: &Option<SourceType>) -> (r: String)
    ensures
        r@ == return_text(
            match t {
                Some(x) => Some(x@),
                None => None,
            },
        ),
{
    match t {
        Some(x) => rust_type(x),
        None => owned("()"),
    }
}

fn append_tagged(s: &mut String, signature: &str)
    ensures
        final(s)@ == old(s)@ + tagged_fn(signature@),
{
    s.append("#[toylang::emit_consumer_body]\n");
    s.append(signature);
    s.append(" { unreachable!() }\n");
    assert(s@ =~= old(s)@ + tagged_fn(signature@));
}

fn append_imports(s: &mut String, imports: &Vec<String>)
    ensures
        final(s)@ == old(s)@ + imports_text(views(imports@)),
{
    let ghost start = s@;
    let ghost all = views(imports@);
    let mut i: usize = 0;
    assert(all.take(0) =~= Seq::empty());
    assert(s@ =~= start + imports_text(all.take(0)));
    while i < imports.len()
        invariant
            i <= imports@.len(),
            all == views(imports@),
            s@ == start + imports_text(all.take(i as int)),
        decreases imports@.len() - i,
    {
        assert(all.take(i + 1).drop_last() =~= all.take(i as int));
        assert(all.take(i + 1).last() == imports@[i as int]@);
        s.append("pub use ");
        s.append(&imports[i]);
        s.append(";\n");
        assert(s@ =~= start + imports_text(all.take(i + 1)));
        i += 1;
    }
    assert(all.take(imports@.len() as int) =~= all);
}

fn append_structs(s: &mut String, r: &ToylangRegistry)
    ensures
        final(s)@ == old(s)@ + structs_text(r@.structs),
{
    let ghost start = s@;
    let ghost all = r@.structs;
    let n: usize = r.structs.len();
    let mut i: usize = 0;
    assert(all.take(0) =~= Seq::empty());
    assert(s@ =~= start + structs_text(all.take(0)));
    while i < n
        invariant
            i <= n,
            n == all.len(),
            all == r.structs@,
            s@ == start + structs_text(all.take(i as int)),
        decreases n - i,
    {
        assert(all.take(i + 1).drop_last() =~= all.take(i as int));
        assert(all.take(i + 1).last() == all[i as int]);
        let name = r.structs.key_at(i);
        let d = r.structs.value_at(i);
        let none: Vec<SourceType> = Vec::new();
        let id: u64 = compute(name, &none);
        assert(source_views(none@) =~= Seq::empty());
        s.append("pub struct ");
        s.append(name);
        let generics = generics_clause(&d.type_params);
        s.append(&generics);
        s.append("(__ToylangOpaque<");
        append_decimal(s, id);
        s.append("u64>, std::marker::PhantomData<(");
        let params = join(&d.type_params, ", ");
        s.append(&params);
        s.append(")>,);\n");
        assert(s@ =~= start + structs_text(all.take(i + 1)));
        i += 1;
    }
    assert(all.take(n as int) =~= all);
}

fn append_accessor_list(s: &mut String, fs: &Vec<ToyField>)
    ensures
        final(s)@ == old(s)@ + accessor_list(views(fs@)),
{
    let ghost start = s@;
    let ghost all = views(fs@);
    let mut i: usize = 0;
    assert(all.take(0) =~= Seq::empty());
    assert(s@ =~= start + accessor_list(all.take(0)));
    while i < fs.len()
        invariant
            i <= fs@.len(),
            all == views(fs@),
            s@ == start + accessor_list(all.take(i as int)),
        decreases fs@.len() - i,
    {
        assert(all.take(i + 1).drop_last() =~= all.take(i as int));
        assert(all.take(i + 1).last() == fs@[i as int]@);
        let mut signature = owned("pub fn ");
        signature.append(&fs[i].name);
        signature.append("(&self) -> &");
        let t = rust_type(&fs[i].rust_type);
        signature.append(&t);
        append_tagged(s, &signature);
        assert(s@ =~= start + accessor_list(all.take(i + 1)));
        i += 1;
    }
    assert(all.take(fs@.len() as int) =~= all);
}

fn append_accessors(s: &mut String, r: &ToylangRegistry)
    ensures
        final(s)@ == old(s)@ + accessors_text(r@.structs),
{
    let ghost start = s@;
    let ghost all = r@.structs;
    let n: usize = r.structs.len();
    let mut i: usize = 0;
    assert(all.take(0) =~= Seq::empty());
    assert(s@ =~= start + accessors_text(all.take(0)));
    while i < n
        invariant
            i <= n,
            n == all.len(),
            all == r.structs@,
            s@ == start + accessors_text(all.take(i as int)),
        decreases n - i,
    {
        assert(all.take(i + 1).drop_last() =~= all.take(i as int));
        assert(all.take(i + 1).last() == all[i as int]);
        let name = r.structs.key_at(i);
        let d = r.structs.value_at(i);
        if d.fields.len() > 0 {
            let generics = generics_clause(&d.type_params);
            s.append("impl");
            s.append(&generics);
            s.append(" ");
            s.append(name);
            s.append(&generics);
            s.append(" {\n");
            append_accessor_list(s, &d.fields);
            s.append("}\n");
        }
        assert(s@ =~= start + accessors_text(all.take(i + 1)));
        i += 1;
    }
    assert(all.take(n as int) =~= all);
}

fn append_declared(s: &mut String, r: &ToylangRegistry)
    ensures
        final(s)@ == old(s)@ + declared_block(r@.functions),
{
    let ghost start = s@;
    let ghost all = r@.functions;
    let n: usize = r.functions.len();
    let mut inner = String::new();
    let mut any = false;
    let mut i: usize = 0;
    assert(all.take(0) =~= Seq::empty());
    assert(inner@ =~= declared_text(all.take(0)));
    while i < n
        invariant
            i <= n,
            n == all.len(),
            all == r.functions@,
            s@ == start,
            any == (inner@.len() > 0),
            inner@ == declared_text(all.take(i as int)),
        decreases n - i,
    {
        assert(all.take(i + 1).drop_last() =~= all.take(i as int));
        assert(all.take(i + 1).last() == all[i as int]);
        let name = r.functions.key_at(i);
        let f = r.functions.value_at(i);
        if f.body.is_none() {
            proof {
                reveal_strlit("pub fn ");
            }
            inner.append("pub fn ");
            inner.append(name);
            inner.append("(");
            assert(views(f.params@).skip(0) =~= views(f.params@));
            let params = rust_params(&f.params, 0);
            inner.append(&params);
            inner.append(") -> ");
            let ret = rust_return(&f.return_ty);
            inner.append(&ret);
            inner.append(";\n");
            any = true;
        }
        i += 1;
    }
    assert(all.take(n as int) =~= all);
    if any {
        s.append("extern \"C\" {\n");
        s.append(&inner);
        s.append("}\n");
    }
    assert(s@ =~= start + declared_block(all));
}

fn append_exported(s: &mut String, r: &ToylangRegistry)
    ensures
        final(s)@ == old(s)@ + exported_text(r@.functions),
{
    let ghost start = s@;
    let ghost all = r@.functions;
    let n: usize = r.functions.len();
    let mut i: usize = 0;
    assert(all.take(0) =~= Seq::empty());
    assert(s@ =~= start + exported_text(all.take(0)));
    while i < n
        invariant
            i <= n,
            n == all.len(),
            all == r.functions@,
            s@ == start + exported_text(all.take(i as int)),
        decreases n - i,
    {
        assert(all.take(i + 1).drop_last() =~= all.take(i as int));
        assert(all.take(i + 1).last() == all[i as int]);
        let name = r.functions.key_at(i);
        let f = r.functions.value_at(i);
        if f.body.is_some() && f.is_export {
            let mut signature = owned("pub fn ");
            let stub = stub_name_of(name);
            signature.append(&stub);
            let generics = generics_clause(&f.type_params);
            signature.append(&generics);
            signature.append("(");
            assert(views(f.params@).skip(0) =~= views(f.params@));
            let params = rust_params(&f.params, 0);
            signature.append(&params);
            signature.append(") -> ");
            let ret = rust_return(&f.return_ty);
            signature.append(&ret);
            append_tagged(s, &signature);
        }
        assert(s@ =~= start + exported_text(all.take(i + 1)));
        i += 1;
    }
    assert(all.take(n as int) =~= all);
}

fn bounded_param_text(bounds: &Vec<(String, String)>, param: &String) -> (r: String)
    ensures
        r@ == bounded_param(pair_views(bounds@), param@),
{
    let ghost all = pair_views(bounds@);
    let mut found: Vec<String> = Vec::new();
    let mut i: usize = 0;
    assert(all.take(0) =~= Seq::empty());
    assert(views(found@) =~= Seq::empty());
    while i < bounds.len()
        invariant
            i <= bounds@.len(),
            all == pair_views(bounds@),
            views(found@) == bounds_of(all.take(i as int), param@),
        decreases bounds@.len() - i,
    {
        let ghost before = views(found@);
        assert(all.take(i + 1).drop_last() =~= all.take(i as int));
        assert(all.take(i + 1).last() == (bounds@[i as int].0@, bounds@[i as int].1@));
        if same_text(&bounds[i].0, param) {
            found.push(bounds[i].1.clone());
            assert(views(found@) =~= before.push(bounds@[i as int].1@));
        }
        i += 1;
    }
    assert(all.take(bounds@.len() as int) =~= all);
    let mut s = param.clone();
    if found.len() > 0 {
        s.append(": ");
        let list = join(&found, " + ");
        s.append(&list);
    }
    s
}

fn bounded_param_texts(d: &ToyImpl) -> (r: Vec<String>)
    ensures
        views(r@) == bounded_params(d@),
{
    let mut r: Vec<String> = Vec::new();
    let mut i: usize = 0;
    while i < d.type_params.len()
        invariant
            i == r@.len(),
            i <= d.type_params@.len(),
            forall|j: int|
                0 <= j < i ==> (#[trigger] r@[j])@ == bounded_param(
                    d@.type_param_bounds,
                    d@.type_params[j],
                ),
        decreases d.type_params@.len() - i,
    {
        assert(d@.type_params[i as int] == d.type_params@[i as int]@);
        r.push(bounded_param_text(&d.type_param_bounds, &d.type_params[i]));
        i += 1;
    }
    assert(views(r@) =~= bounded_params(d@));
    r
}

fn append_methods(s: &mut String, ms: &Vec<ToyImplMethod>)
    ensures
        final(s)@ == old(s)@ + methods_text(views(ms@)),
{
    let ghost start = s@;
    let ghost all = views(ms@);
    let mut i: usize = 0;
    assert(all.take(0) =~= Seq::empty());
    assert(s@ =~= start + methods_text(all.take(0)));
    while i < ms.len()
        invariant
            i <= ms@.len(),
            all == views(ms@),
            s@ == start + methods_text(all.take(i as int)),
        decreases ms@.len() - i,
    {
        assert(all.take(i + 1).drop_last() =~= all.take(i as int));
        assert(all.take(i + 1).last() == ms@[i as int]@);
        let mut signature = owned("fn ");
        signature.append(&ms[i].name);
        if ms[i].is_self_mut {
            signature.append("(&mut self, ");
        } else {
            signature.append("(&self, ");
        }
        let from: usize = if ms[i].func.params.len() == 0 {
            0
        } else {
            1
        };
        let params = rust_params(&ms[i].func.params, from);
        assert(views(ms@[i as int].func.params@).skip(from as int) =~= tail(
            views(ms@[i as int].func.params@),
        ));
        signature.append(&params);
        signature.append(") -> ");
        let ret = rust_return(&ms[i].func.return_ty);
        signature.append(&ret);
        append_tagged(s, &signature);
        assert(s@ =~= start + methods_text(all.take(i + 1)));
        i += 1;
    }
    assert(all.take(ms@.len() as int) =~= all);
}

fn append_impls(s: &mut String, r: &ToylangRegistry)
    ensures
        final(s)@ == old(s)@ + impls_text(r@.trait_impls),
{
    let ghost start = s@;
    let ghost all = r@.trait_impls;
    let mut i: usize = 0;
    assert(all.take(0) =~= Seq::empty());
    assert(s@ =~= start + impls_text(all.take(0)));
    while i < r.trait_impls.len()
        invariant
            i <= r.trait_impls@.len(),
            all == views(r.trait_impls@),
            s@ == start + impls_text(all.take(i as int)),
        decreases r.trait_impls@.len() - i,
    {
        assert(all.take(i + 1).drop_last() =~= all.take(i as int));
        assert(all.take(i + 1).last() == r.trait_impls@[i as int]@);
        let d = &r.trait_impls[i];
        if d.is_export {
            s.append("impl");
            let params = bounded_param_texts(d);
            let generics = generics_clause(&params);
            s.append(&generics);
            s.append(" ");
            s.append(&d.trait_name);
            s.append(" for ");
            s.append(&d.self_type_name);
            let args = generics_clause(&d.self_type_args);
            s.append(&args);
            s.append(" {\n");
            append_methods(s, &d.methods);
            s.append("}\n");
        }
        assert(s@ =~= start + impls_text(all.take(i + 1)));
        i += 1;
    }
    assert(all.take(r.trait_impls@.len() as int) =~= all);
}

fn append_drop(s: &mut String, imports: &Vec<String>)
    ensures
        final(s)@ == old(s)@ + drop_text(views(imports@)),
{
    let ghost start = s@;
    let mut i: usize = 0;
    while i < imports.len()
        invariant
            i <= imports@.len(),
            s@ == start,
            start == old(s)@,
            forall|j: int|
                0 <= j < i ==> last_segment(#[trigger] views(imports@)[j]) != "Drop"@,
        decreases imports@.len() - i,
    {
        let chars = chars_of(&imports[i]);
        if is_drop_path(chars.as_slice()) {
            assert(last_segment(views(imports@)[i as int]) == "Drop"@);
            assert(s@ =~= start + drop_text(views(imports@)));
            return;
        }
        i += 1;
    }
    s.append("#[allow(unused_imports)]\npub use core::ops::Drop;\n");
}

/// The source of the stub crate, before it is laid out.
pub fn generate_text(registry: &ToylangRegistry) -> (r: String)
    ensures
        r@ == stub_text(registry@),
{
    let mut s = owned(
        "pub const __SKY_STUBS_MARKER: () = ();\npub struct __ToylangOpaque<const T: u64>;\n",
    );
    append_imports(&mut s, &registry.imports);
    append_structs(&mut s, registry);
    append_declared(&mut s, registry);
    append_exported(&mut s, registry);
    append_accessors(&mut s, registry);
    append_impls(&mut s, registry);
    append_drop(&mut s, &registry.imports);
    s.append(
        "#[inline(never)]\npub unsafe fn __toylang_option_unwrap<T>(o: *mut core::option::Option<T>) -> T { core::ptr::read(o).unwrap() }\n#[inline(never)]\npub unsafe fn __toylang_result_unwrap<T, E: core::fmt::Debug>(r: *mut core::result::Result<T, E>) -> T { core::ptr::read(r).unwrap() }\n",
    );
    s
}

/// The source of the stub crate. Nothing, where a name is no word, or the
/// source is no Rust.
pub fn generate(registry: &ToylangRegistry) -> (r: Option<String>)
    ensures
        (match r {
            Some(s) => Some(s@),
            None => None,
        }) == stub_source(registry@),
{
    if !registry_words(registry) {
        return None;
    }
    let text = generate_text(registry);
    assert(names_are_words(registry@) && text@ == stub_text(registry@));
    assert(is_stub_text(text@));
    match parse_source(&text) {
        None => None,
        Some(file) => {
            assert(is_stub_text(text@) && parsed_source(text@) == Some(file));
            Some(unparse(&file))
        },
    }
}

} // verus!
