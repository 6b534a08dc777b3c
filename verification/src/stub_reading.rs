//! What a stub crate says of a function can be read back from its text: the
//! name, the parameters and their types in order, and the type it returns.
use crate::stub_gen::{
    accessor_list, accessor_text, accessors_text, all_names, declared_block, declared_text, drop_text, exported_text, fn_in_words,
    generics_text, helpers_text, impl_in_words, impls_text, imports_text, is_bare_word, is_name, is_word, joined, method_in_words,
    method_text, methods_text, names_are_words, names_param, params_in_words, params_text, prelude_text, return_in_words, return_text,
    struct_in_words, structs_text, stub_text, tagged_fn, tail, type_in_words, type_text, types_in_words, types_text, word_char,
};
use crate::toylang::callbacks_impl::stub_name;
use crate::toylang::registry::{RegistryView, ToyFieldView, ToyFunctionView, ToyImplMethodView, ToyImplView, ToyParamView, ToyStructView};
use crate::toylang::typed_ast::SourceTypeView;
use vstd::prelude::*;

verus! {

broadcast use vstd::seq::group_seq_axioms;

/// A type as Rust reads it.
pub enum RustShape {
    /// A name, with what stands between angle brackets behind it.
    Named { name: Seq<char>, args: Seq<RustShape> },
    Ref { inner: Box<RustShape> },
    Unit,
    Bytes,
}

/// What Rust reads for a type of toylang.
pub open spec fn shape(t: SourceTypeView) -> RustShape
    decreases t,
{
    match t {
        SourceTypeView::I32 => word_shape("i32"@),
        SourceTypeView::I64 => word_shape("i64"@),
        SourceTypeView::F64 => word_shape("f64"@),
        SourceTypeView::Bool => word_shape("bool"@),
        SourceTypeView::Usize => word_shape("usize"@),
        SourceTypeView::Void => RustShape::Unit,
        SourceTypeView::Str => word_shape("str"@),
        SourceTypeView::ByteSlice => RustShape::Bytes,
        SourceTypeView::TypeParam(name) => word_shape(name),
        SourceTypeView::StructRef { name, type_args } => RustShape::Named {
            name,
            args: shapes(type_args),
        },
        SourceTypeView::RustType { name, type_args } => RustShape::Named {
            name,
            args: shapes(type_args),
        },
        SourceTypeView::Ref { inner } => RustShape::Ref { inner: Box::new(shape(*inner)) },
    }
}

/// What Rust reads for some types.
pub open spec fn shapes(ts: Seq<SourceTypeView>) -> Seq<RustShape>
    decreases ts,
{
    if ts.len() == 0 {
        Seq::empty()
    } else {
        seq![shape(ts[0])] + shapes(ts.drop_first())
    }
}

/// A name without anything behind it.
pub open spec fn word_shape(name: Seq<char>) -> RustShape {
    RustShape::Named { name, args: Seq::empty() }
}

/// Whether a character can stand in a name of Rust, or between `r` and one.
pub open spec fn in_name(c: char) -> bool {
    word_char(c) || c == '#'
}

/// How long the name is that a text starts with.
pub open spec fn name_length(s: Seq<char>) -> nat
    decreases s.len(),
{
    if s.len() > 0 && in_name(s[0]) {
        name_length(s.drop_first()) + 1
    } else {
        0
    }
}

/// Whether a text starts with these characters.
pub open spec fn starts(s: Seq<char>, w: Seq<char>) -> bool {
    w.len() <= s.len() && s.take(w.len() as int) == w
}

/// Reads the type that a text starts with, and gives the rest.
pub open spec fn read_type(s: Seq<char>) -> Option<(RustShape, Seq<char>)>
    decreases s.len(), 0int,
{
    if s.len() == 0 {
        None
    } else if s[0] == '&' {
        match read_type(s.drop_first()) {
            Some((t, r)) => Some((RustShape::Ref { inner: Box::new(t) }, r)),
            None => None,
        }
    } else if starts(s, seq!['(', ')']) {
        Some((RustShape::Unit, s.skip(2)))
    } else if starts(s, seq!['[', 'u', '8', ']']) {
        Some((RustShape::Bytes, s.skip(4)))
    } else {
        let n = name_length(s);
        let name = s.take(n as int);
        let rest = s.skip(n as int);
        if n == 0 || n > s.len() {
            None
        } else if rest.len() > 0 && rest[0] == '<' {
            match read_types(rest.drop_first()) {
                Some((args, r)) => if starts(r, seq!['>']) {
                    Some((RustShape::Named { name, args }, r.drop_first()))
                } else {
                    None
                },
                None => None,
            }
        } else {
            Some((word_shape(name), rest))
        }
    }
}

/// Reads the types with commas between them that a text starts with.
pub open spec fn read_types(s: Seq<char>) -> Option<(Seq<RustShape>, Seq<char>)>
    decreases s.len(), 1int,
{
    match read_type(s) {
        None => None,
        Some((t, r)) => if starts(r, seq![',', ' ']) && r.len() < s.len() {
            match read_types(r.skip(2)) {
                Some((ts, q)) => Some((seq![t] + ts, q)),
                None => None,
            }
        } else {
            Some((seq![t], r))
        },
    }
}

/// How a function takes the value that it is called on.
pub enum SelfKind {
    Unbound,
    Shared,
    Mutable,
}

/// What Rust reads of a function without its body.
pub struct Header {
    pub name: Seq<char>,
    pub type_params: Seq<Seq<char>>,
    pub receiver: SelfKind,
    pub params: Seq<(Seq<char>, RustShape)>,
    pub ret: RustShape,
}

/// Reads names with commas between them.
pub open spec fn read_names(s: Seq<char>) -> Option<(Seq<Seq<char>>, Seq<char>)>
    decreases s.len(),
{
    let n = name_length(s);
    if n == 0 || n > s.len() {
        None
    } else {
        let name = s.take(n as int);
        let r = s.skip(n as int);
        if starts(r, seq![',', ' ']) {
            match read_names(r.skip(2)) {
                Some((ns, q)) => Some((seq![name] + ns, q)),
                None => None,
            }
        } else {
            Some((seq![name], r))
        }
    }
}

/// Reads type parameters between angle brackets, if there are any.
pub open spec fn read_generics(s: Seq<char>) -> Option<(Seq<Seq<char>>, Seq<char>)> {
    if starts(s, seq!['<']) {
        match read_names(s.drop_first()) {
            Some((ns, r)) => if starts(r, seq!['>']) {
                Some((ns, r.drop_first()))
            } else {
                None
            },
            None => None,
        }
    } else {
        Some((Seq::empty(), s))
    }
}

/// Reads the receiver that a parameter list starts with, if there is one.
pub open spec fn read_receiver(s: Seq<char>) -> (SelfKind, Seq<char>) {
    let (kind, r) = if starts(s, "&self"@) {
        (SelfKind::Shared, s.skip(5))
    } else if starts(s, "&mut self"@) {
        (SelfKind::Mutable, s.skip(9))
    } else {
        (SelfKind::Unbound, s)
    };
    if !(kind is Unbound) && starts(r, seq![',', ' ']) {
        (kind, r.skip(2))
    } else {
        (kind, r)
    }
}

/// Reads parameters with commas between them, up to a closing parenthesis.
pub open spec fn read_params(s: Seq<char>) -> Option<(Seq<(Seq<char>, RustShape)>, Seq<char>)>
    decreases s.len(),
{
    let n = name_length(s);
    if starts(s, seq![')']) {
        Some((Seq::empty(), s))
    } else if n == 0 || n > s.len() || !starts(s.skip(n as int), seq![':', ' ']) {
        None
    } else {
        let name = s.take(n as int);
        match read_type(s.skip(n as int).skip(2)) {
            None => None,
            Some((t, r)) => if starts(r, seq![',', ' ']) && r.len() < s.len() {
                match read_params(r.skip(2)) {
                    Some((ps, q)) => Some((seq![(name, t)] + ps, q)),
                    None => None,
                }
            } else {
                Some((seq![(name, t)], r))
            },
        }
    }
}

/// Reads a function from its name to the type that it returns.
pub open spec fn read_header(s: Seq<char>) -> Option<(Header, Seq<char>)> {
    let n = name_length(s);
    if n == 0 || n > s.len() {
        None
    } else {
        match read_generics(s.skip(n as int)) {
            None => None,
            Some((type_params, r0)) => if !starts(r0, seq!['(']) {
                None
            } else {
                let (receiver, r1) = read_receiver(r0.drop_first());
                match read_params(r1) {
                    None => None,
                    Some((params, r2)) => if !starts(r2, ") -> "@) {
                        None
                    } else {
                        match read_type(r2.skip(5)) {
                            None => None,
                            Some((ret, r)) => Some(
                                (
                                    Header {
                                        name: s.take(n as int),
                                        type_params,
                                        receiver,
                                        params,
                                        ret,
                                    },
                                    r,
                                ),
                            ),
                        }
                    },
                }
            },
        }
    }
}

/// What Rust reads of some parameters.
pub open spec fn param_shapes(ps: Seq<ToyParamView>) -> Seq<(Seq<char>, RustShape)> {
    Seq::new(ps.len(), |i: int| (ps[i].name, shape(ps[i].ty)))
}

/// What Rust reads of a return type.
pub open spec fn return_shape(t: Option<SourceTypeView>) -> RustShape {
    match t {
        Some(ty) => shape(ty),
        None => RustShape::Unit,
    }
}

/// Whether a text does not go on with a type before it.
spec fn ends_type(x: Seq<char>) -> bool {
    x.len() == 0 || !in_name(x[0]) && x[0] != '<'
}

proof fn lemma_starts(w: Seq<char>, x: Seq<char>)
    ensures
        starts(w + x, w),
        (w + x).skip(w.len() as int) == x,
{
    assert((w + x).take(w.len() as int) =~= w);
    assert((w + x).skip(w.len() as int) =~= x);
}

proof fn lemma_name(w: Seq<char>, x: Seq<char>)
    requires
        forall|i: int| 0 <= i < w.len() ==> in_name(#[trigger] w[i]),
        x.len() == 0 || !in_name(x[0]),
    ensures
        name_length(w + x) == w.len(),
        (w + x).take(w.len() as int) == w,
        (w + x).skip(w.len() as int) == x,
    decreases w.len(),
{
    lemma_starts(w, x);
    if w.len() == 0 {
        assert(w + x =~= x);
    } else {
        assert((w + x).drop_first() =~= w.drop_first() + x);
        assert forall|i: int| 0 <= i < w.drop_first().len() implies in_name(
            #[trigger] w.drop_first()[i],
        ) by {
            assert(w.drop_first()[i] == w[i + 1]);
        }
        lemma_name(w.drop_first(), x);
        assert(in_name(w[0]));
    }
}

proof fn lemma_word_chars(w: Seq<char>)
    requires
        is_word(w),
    ensures
        w.len() > 0,
        forall|i: int| 0 <= i < w.len() ==> in_name(#[trigger] w[i]),
{
    if !is_bare_word(w) {
        assert forall|i: int| 0 <= i < w.len() implies in_name(#[trigger] w[i]) by {
            if i >= 2 {
                assert(w.skip(2)[i - 2] == w[i]);
                assert(word_char(w.skip(2)[i - 2]));
            }
        }
    }
}

proof fn lemma_param_chars(w: Seq<char>)
    requires
        names_param(w),
    ensures
        w.len() > 0,
        forall|i: int| 0 <= i < w.len() ==> in_name(#[trigger] w[i]),
{
    reveal_strlit("_");
    reveal_strlit("self");
    reveal_strlit("Self");
    reveal_strlit("super");
    reveal_strlit("crate");
    reveal_strlit("true");
    reveal_strlit("false");
    if is_name(w) {
        lemma_word_chars(w);
    } else {
        assert forall|i: int| 0 <= i < w.len() implies in_name(#[trigger] w[i]) by {
            assert(i == 0 || i == 1 || i == 2 || i == 3 || i == 4);
        }
    }
}

proof fn lemma_built_in_chars()
    ensures
        "i32"@.len() > 0 && forall|i: int| 0 <= i < "i32"@.len() ==> in_name(#[trigger] "i32"@[i]),
        "i64"@.len() > 0 && forall|i: int| 0 <= i < "i64"@.len() ==> in_name(#[trigger] "i64"@[i]),
        "f64"@.len() > 0 && forall|i: int| 0 <= i < "f64"@.len() ==> in_name(#[trigger] "f64"@[i]),
        "bool"@.len() > 0 && forall|i: int|
            0 <= i < "bool"@.len() ==> in_name(#[trigger] "bool"@[i]),
        "usize"@.len() > 0 && forall|i: int|
            0 <= i < "usize"@.len() ==> in_name(#[trigger] "usize"@[i]),
        "str"@.len() > 0 && forall|i: int| 0 <= i < "str"@.len() ==> in_name(#[trigger] "str"@[i]),
{
    reveal_strlit("i32");
    reveal_strlit("i64");
    reveal_strlit("f64");
    reveal_strlit("bool");
    reveal_strlit("usize");
    reveal_strlit("str");
}

proof fn lemma_word_read(w: Seq<char>, x: Seq<char>)
    requires
        w.len() > 0,
        forall|i: int| 0 <= i < w.len() ==> in_name(#[trigger] w[i]),
        ends_type(x),
    ensures
        read_type(w + x) == Some((word_shape(w), x)),
{
    lemma_name(w, x);
    let s = w + x;
    assert(s[0] == w[0]);
    assert(in_name(w[0]));
    assert(!starts(s, seq!['(', ')'])) by {
        if starts(s, seq!['(', ')']) {
            assert(s.take(2)[0] == s[0]);
        }
    }
    assert(!starts(s, seq!['[', 'u', '8', ']'])) by {
        if starts(s, seq!['[', 'u', '8', ']']) {
            assert(s.take(4)[0] == s[0]);
        }
    }
}

/// The text of a type is read back.
pub proof fn lemma_type_read_back(t: SourceTypeView, x: Seq<char>)
    requires
        type_in_words(t),
        x.len() == 0 || !in_name(x[0]) && x[0] != '<',
    ensures
        read_type(type_text(t) + x) == Some((shape(t), x)),
        type_text(t).len() > 0,
    decreases t, 0int,
{
    let s = type_text(t) + x;
    lemma_built_in_chars();
    match t {
        SourceTypeView::I32 => {
            lemma_word_read("i32"@, x);
        },
        SourceTypeView::I64 => {
            lemma_word_read("i64"@, x);
        },
        SourceTypeView::F64 => {
            lemma_word_read("f64"@, x);
        },
        SourceTypeView::Bool => {
            lemma_word_read("bool"@, x);
        },
        SourceTypeView::Usize => {
            lemma_word_read("usize"@, x);
        },
        SourceTypeView::Str => {
            lemma_word_read("str"@, x);
        },
        SourceTypeView::Void => {
            reveal_strlit("()");
            assert("()"@ =~= seq!['(', ')']);
            lemma_starts(seq!['(', ')'], x);
        },
        SourceTypeView::ByteSlice => {
            reveal_strlit("[u8]");
            assert("[u8]"@ =~= seq!['[', 'u', '8', ']']);
            lemma_starts(seq!['[', 'u', '8', ']'], x);
            assert(!starts(s, seq!['(', ')'])) by {
                if starts(s, seq!['(', ')']) {
                    assert(s.take(2)[0] == s[0]);
                }
            }
        },
        SourceTypeView::TypeParam(name) => {
            lemma_param_chars(name);
            lemma_word_read(name, x);
        },
        SourceTypeView::StructRef { name, type_args } => {
            lemma_param_chars(name);
            if type_args.len() == 0 {
                lemma_word_read(name, x);
                assert(shapes(type_args) =~= Seq::empty());
            } else {
                lemma_applied_read(name, type_args, x);
            }
        },
        SourceTypeView::RustType { name, type_args } => {
            lemma_param_chars(name);
            if type_args.len() == 0 {
                lemma_word_read(name, x);
                assert(shapes(type_args) =~= Seq::empty());
            } else {
                lemma_applied_read(name, type_args, x);
            }
        },
        SourceTypeView::Ref { inner } => {
            reveal_strlit("&");
            lemma_type_read_back(*inner, x);
            assert(s.drop_first() =~= type_text(*inner) + x);
            assert(s[0] == '&');
        },
    }
}

proof fn lemma_applied_read(name: Seq<char>, args: Seq<SourceTypeView>, x: Seq<char>)
    requires
        name.len() > 0,
        forall|i: int| 0 <= i < name.len() ==> in_name(#[trigger] name[i]),
        types_in_words(args),
        args.len() > 0,
        x.len() == 0 || !in_name(x[0]) && x[0] != '<',
    ensures
        read_type(name + "<"@ + types_text(args) + ">"@ + x) == Some(
            (RustShape::Named { name, args: shapes(args) }, x),
        ),
    decreases args, 1int,
{
    reveal_strlit("<");
    reveal_strlit(">");
    let s = name + "<"@ + types_text(args) + ">"@ + x;
    let inside = types_text(args) + (">"@ + x);
    let rest = "<"@ + inside;
    assert(s =~= name + rest);
    assert(rest[0] == '<');
    lemma_name(name, rest);
    assert(rest.drop_first() =~= inside);
    assert((">"@ + x)[0] == '>');
    lemma_types_read_back(args, ">"@ + x);
    assert(starts(">"@ + x, seq!['>'])) by {
        assert((">"@ + x).take(1) =~= seq!['>']);
    }
    assert((">"@ + x).drop_first() =~= x);
    assert(s[0] == name[0]);
    assert(in_name(name[0]));
    assert(!starts(s, seq!['(', ')'])) by {
        if starts(s, seq!['(', ')']) {
            assert(s.take(2)[0] == s[0]);
        }
    }
    assert(!starts(s, seq!['[', 'u', '8', ']'])) by {
        if starts(s, seq!['[', 'u', '8', ']']) {
            assert(s.take(4)[0] == s[0]);
        }
    }
}

proof fn lemma_types_front(ts: Seq<SourceTypeView>)
    requires
        ts.len() > 0,
        types_in_words(ts),
    ensures
        types_text(ts) == (if ts.len() == 1 {
            type_text(ts[0])
        } else {
            type_text(ts[0]) + (", "@ + types_text(ts.drop_first()))
        }),
        type_in_words(ts[0]),
        types_in_words(ts.drop_first()),
    decreases ts.len(),
{
    if ts.len() == 1 {
        assert(ts.drop_first() =~= Seq::empty());
    } else {
        let before = ts.drop_last();
        lemma_types_front(before);
        assert(ts.drop_first().drop_last() =~= before.drop_first());
        assert(ts.drop_first().last() == ts.last());
        assert(before[0] == ts[0]);
        if ts.len() == 2 {
            assert(ts.drop_first()[0] == ts[1]);
            assert(types_text(ts) =~= type_text(ts[0]) + (", "@ + types_text(ts.drop_first())));
        } else {
            assert(types_text(ts) =~= type_text(ts[0]) + (", "@ + types_text(ts.drop_first())));
        }
    }
}

proof fn lemma_types_read_back(ts: Seq<SourceTypeView>, x: Seq<char>)
    requires
        types_in_words(ts),
        ts.len() > 0,
        x.len() > 0,
        !in_name(x[0]),
        x[0] != '<',
        x[0] != ',',
    ensures
        read_types(types_text(ts) + x) == Some((shapes(ts), x)),
    decreases ts, 0int,
{
    reveal_strlit(", ");
    lemma_types_front(ts);
    let s = types_text(ts) + x;
    let first = type_text(ts[0]);
    if ts.len() == 1 {
        lemma_type_read_back(ts[0], x);
        assert(!starts(x, seq![',', ' '])) by {
            if starts(x, seq![',', ' ']) {
                assert(x.take(2)[0] == x[0]);
            }
        }
        assert(shapes(ts.drop_first()) =~= Seq::empty());
        assert(shapes(ts) =~= seq![shape(ts[0])]);
    } else {
        let others = types_text(ts.drop_first()) + x;
        let rest = ", "@ + others;
        assert(s =~= first + rest);
        assert(rest[0] == ',');
        lemma_type_read_back(ts[0], rest);
        assert(", "@ =~= seq![',', ' ']);
        lemma_starts(", "@, others);
        lemma_types_read_back(ts.drop_first(), x);
    }
}

proof fn lemma_split3(a: Seq<char>, b: Seq<char>, c: Seq<char>, x: Seq<char>)
    ensures
        a + b + c + x == a + (b + (c + x)),
{
    lemma_assoc(a + b, c, x);
    lemma_assoc(a, b, c + x);
}

/// A name and the start of its parameters, the receiver told apart or not.
proof fn lemma_opened(name: Seq<char>, open: Seq<char>, r: Seq<char>, all: Seq<char>)
    requires
        open + r == all,
    ensures
        name + Seq::<char>::empty() + open + r == name + all,
{
    assert(name + Seq::<char>::empty() =~= name);
    lemma_assoc(name, open, r);
}

#[verifier::spinoff_prover]
#[verifier::rlimit(40)]
proof fn lemma_params_front(ps: Seq<ToyParamView>)
    requires
        ps.len() > 0,
    ensures
        params_text(ps) == (if ps.len() == 1 {
            ps[0].name + ": "@ + type_text(ps[0].ty)
        } else {
            ps[0].name + ": "@ + type_text(ps[0].ty) + (", "@ + params_text(ps.drop_first()))
        }),
    decreases ps.len(),
{
    if ps.len() > 1 {
        let before = ps.drop_last();
        lemma_params_front(before);
        assert(ps.drop_first().drop_last() =~= before.drop_first());
        assert(ps.drop_first().last() == ps.last());
        assert(before[0] == ps[0]);
        let one = ps[0].name + ": "@ + type_text(ps[0].ty);
        let z = ps.last();
        let last = z.name + ": "@ + type_text(z.ty);
        let mid = params_text(before.drop_first());
        if ps.len() == 2 {
            assert(params_text(ps.drop_first()) == last);
            lemma_assoc(one, ", "@, last);
        } else {
            lemma_split3(one, ", "@ + mid, ", "@, last);
            lemma_split3(", "@, mid, ", "@, last);
            lemma_assoc(", "@, mid, ", "@ + last);
            lemma_assoc(mid, ", "@, last);
        }
        assert(params_text(ps) == one + (", "@ + params_text(ps.drop_first())));
    }
}

#[verifier::spinoff_prover]
#[verifier::rlimit(40)]
proof fn lemma_param_read(p: ToyParamView, more: Seq<char>)
    requires
        names_param(p.name),
        type_in_words(p.ty),
        ends_type(more),
    ensures
        ({
            let s = p.name + (": "@ + (type_text(p.ty) + more));
            &&& name_length(s) == p.name.len()
            &&& p.name.len() > 0
            &&& s.take(p.name.len() as int) == p.name
            &&& starts(s.skip(p.name.len() as int), seq![':', ' '])
            &&& read_type(s.skip(p.name.len() as int).skip(2)) == Some((shape(p.ty), more))
            &&& in_name(s[0])
            &&& !starts(s, seq![')'])
            &&& more.len() < s.len()
        }),
{
    reveal_strlit(": ");
    lemma_param_chars(p.name);
    let behind = type_text(p.ty) + more;
    let rest = ": "@ + behind;
    let s = p.name + rest;
    assert(rest[0] == ':');
    lemma_name(p.name, rest);
    assert(": "@ =~= seq![':', ' ']);
    lemma_starts(": "@, behind);
    lemma_type_read_back(p.ty, more);
    assert(s[0] == p.name[0]);
    assert(in_name(p.name[0]));
    if starts(s, seq![')']) {
        assert(s.take(1)[0] == s[0]);
    }
}

/// A parameter with others behind it.
#[verifier::spinoff_prover]
#[verifier::rlimit(40)]
proof fn lemma_param_then(
    p: ToyParamView,
    after: Seq<char>,
    ps: Seq<(Seq<char>, RustShape)>,
    x: Seq<char>,
)
    requires
        names_param(p.name),
        type_in_words(p.ty),
        read_params(after) == Some((ps, x)),
    ensures
        ({
            let s = p.name + (": "@ + (type_text(p.ty) + (", "@ + after)));
            &&& read_params(s) == Some((seq![(p.name, shape(p.ty))] + ps, x))
            &&& in_name(s[0])
        }),
{
    let more = ", "@ + after;
    assert(ends_type(more) && starts(more, seq![',', ' ']) && more.skip(2) == after) by {
        reveal_strlit(", ");
        assert(more[0] == ',');
        assert(", "@ =~= seq![',', ' ']);
        lemma_starts(", "@, after);
    }
    lemma_param_read(p, more);
}

/// A parameter with none behind it.
proof fn lemma_param_last(p: ToyParamView, x: Seq<char>)
    requires
        names_param(p.name),
        type_in_words(p.ty),
        x.len() > 0,
        x[0] == ')',
    ensures
        ({
            let s = p.name + (": "@ + (type_text(p.ty) + x));
            &&& read_params(s) == Some((seq![(p.name, shape(p.ty))], x))
            &&& in_name(s[0])
        }),
{
    assert(!starts(x, seq![',', ' '])) by {
        if starts(x, seq![',', ' ']) {
            assert(x.take(2)[0] == x[0]);
        }
    }
    lemma_param_read(p, x);
}

#[verifier::spinoff_prover]
#[verifier::rlimit(40)]
proof fn lemma_params_read(ps: Seq<ToyParamView>, x: Seq<char>)
    requires
        params_in_words(ps),
        x.len() > 0,
        x[0] == ')',
    ensures
        read_params(params_text(ps) + x) == Some((param_shapes(ps), x)),
        ps.len() > 0 ==> in_name((params_text(ps) + x)[0]),
    decreases ps.len(),
{
    let s = params_text(ps) + x;
    if ps.len() == 0 {
        assert(s =~= x);
        assert(x.take(1) =~= seq![')']);
        assert(param_shapes(ps) =~= Seq::empty());
    } else {
        lemma_params_front(ps);
        let p = ps[0];
        assert(names_param(p.name) && type_in_words(p.ty));
        if ps.len() == 1 {
            lemma_split3(p.name, ": "@, type_text(p.ty), x);
            lemma_param_last(p, x);
            assert(param_shapes(ps) =~= seq![(p.name, shape(p.ty))]);
        } else {
            let others = ps.drop_first();
            assert forall|i: int| 0 <= i < others.len() implies names_param(
                (#[trigger] others[i]).name,
            ) && type_in_words(others[i].ty) by {
                assert(others[i] == ps[i + 1]);
            }
            let after = params_text(others) + x;
            let one = p.name + ": "@ + type_text(p.ty);
            lemma_assoc(one, ", "@ + params_text(others), x);
            lemma_assoc(", "@, params_text(others), x);
            lemma_split3(p.name, ": "@, type_text(p.ty), ", "@ + after);
            lemma_params_read(others, x);
            lemma_param_then(p, after, param_shapes(others), x);
            assert(param_shapes(ps) =~= seq![(p.name, shape(p.ty))] + param_shapes(others));
        }
    }
}

#[verifier::spinoff_prover]
#[verifier::rlimit(40)]
proof fn lemma_joined_front(names: Seq<Seq<char>>, separator: Seq<char>)
    requires
        names.len() > 0,
    ensures
        joined(names, separator) == (if names.len() == 1 {
            names[0]
        } else {
            names[0] + (separator + joined(names.drop_first(), separator))
        }),
    decreases names.len(),
{
    reveal_with_fuel(joined, 2);
    if names.len() > 1 {
        let before = names.drop_last();
        lemma_joined_front(before, separator);
        assert(names.drop_first().drop_last() =~= before.drop_first());
        assert(names.drop_first().last() == names.last());
        assert(joined(names, separator) =~= names[0] + (separator + joined(
            names.drop_first(),
            separator,
        )));
    } else {
        assert(joined(names, separator) =~= names[0]);
    }
}

#[verifier::spinoff_prover]
#[verifier::rlimit(40)]
proof fn lemma_names_read(names: Seq<Seq<char>>, x: Seq<char>)
    requires
        all_names(names),
        names.len() > 0,
        x.len() > 0,
        x[0] == '>',
    ensures
        read_names(joined(names, ", "@) + x) == Some((names, x)),
    decreases names.len(),
{
    reveal_strlit(", ");
    lemma_joined_front(names, ", "@);
    let s = joined(names, ", "@) + x;
    lemma_word_chars(names[0]);
    if names.len() == 1 {
        lemma_name(names[0], x);
        assert(!starts(x, seq![',', ' '])) by {
            if starts(x, seq![',', ' ']) {
                assert(x.take(2)[0] == x[0]);
            }
        }
        assert(names =~= seq![names[0]]);
    } else {
        let others = names.drop_first();
        assert forall|i: int| 0 <= i < others.len() implies is_name(#[trigger] others[i]) by {
            assert(others[i] == names[i + 1]);
        }
        let behind = joined(others, ", "@) + x;
        let rest = ", "@ + behind;
        assert(s =~= names[0] + rest);
        assert(rest[0] == ',');
        lemma_name(names[0], rest);
        assert(", "@ =~= seq![',', ' ']);
        lemma_starts(", "@, behind);
        lemma_names_read(others, x);
        assert(names =~= seq![names[0]] + others);
    }
}

#[verifier::spinoff_prover]
#[verifier::rlimit(40)]
proof fn lemma_generics_read(names: Seq<Seq<char>>, x: Seq<char>)
    requires
        all_names(names),
        x.len() > 0,
        x[0] == '(',
    ensures
        read_generics(generics_text(names) + x) == Some((names, x)),
        !in_name((generics_text(names) + x)[0]),
{
    let s = generics_text(names) + x;
    if names.len() == 0 {
        assert(s =~= x);
        assert(!starts(x, seq!['<'])) by {
            if starts(x, seq!['<']) {
                assert(x.take(1)[0] == x[0]);
            }
        }
        assert(names =~= Seq::empty());
    } else {
        reveal_strlit("<");
        reveal_strlit(">");
        let behind = ">"@ + x;
        let inside = joined(names, ", "@) + behind;
        assert(s =~= "<"@ + inside);
        assert(s[0] == '<');
        assert(s.take(1) =~= seq!['<']);
        assert(s.drop_first() =~= inside);
        lemma_names_read(names, behind);
        assert(behind.take(1) =~= seq!['>']);
        assert(behind.drop_first() =~= x);
    }
}

proof fn lemma_assoc(a: Seq<char>, b: Seq<char>, c: Seq<char>)
    ensures
        (a + b) + c == a + (b + c),
{
    assert((a + b) + c =~= a + (b + c));
}

proof fn lemma_group3(y: Seq<char>, a: Seq<char>, b: Seq<char>, c: Seq<char>)
    ensures
        y + a + b + c == y + (a + b + c),
{
    lemma_assoc(y, a, b);
    lemma_assoc(y, a + b, c);
}

proof fn lemma_group5(
    y: Seq<char>,
    a: Seq<char>,
    b: Seq<char>,
    c: Seq<char>,
    d: Seq<char>,
    e: Seq<char>,
)
    ensures
        y + a + b + c + d + e == y + (a + b + c + d + e),
{
    lemma_group3(y, a, b, c);
    lemma_assoc(y, a + b + c, d);
    lemma_assoc(y, a + b + c + d, e);
}

proof fn lemma_right(
    a: Seq<char>,
    b: Seq<char>,
    c: Seq<char>,
    d: Seq<char>,
    e: Seq<char>,
    f: Seq<char>,
    g: Seq<char>,
)
    ensures
        a + b + c + d + e + f + g == a + (b + (c + (d + (e + (f + g))))),
{
    lemma_assoc(a + b + c + d + e, f, g);
    lemma_assoc(a + b + c + d, e, f + g);
    lemma_assoc(a + b + c, d, e + (f + g));
    lemma_assoc(a + b, c, d + (e + (f + g)));
    lemma_assoc(a, b, c + (d + (e + (f + g))));
}

/// A function among others in a text.
#[verifier::spinoff_prover]
#[verifier::rlimit(40)]
proof fn lemma_frame(
    a: Seq<char>,
    d: Seq<char>,
    p: Seq<char>,
    f: Seq<char>,
    body: Seq<char>,
    foot: Seq<char>,
    b: Seq<char>,
)
    ensures
        a + (d + (p + f) + body + foot) + b == a + d + p + f + body + (foot + b),
{
    assert(a + (d + (p + f) + body + foot) + b =~= a + d + p + f + body + (foot + b));
}

#[verifier::spinoff_prover]
#[verifier::rlimit(40)]
proof fn lemma_tagged_frame(
    a: Seq<char>,
    d: Seq<char>,
    tag: Seq<char>,
    p: Seq<char>,
    f: Seq<char>,
    body: Seq<char>,
    foot: Seq<char>,
    b: Seq<char>,
)
    ensures
        a + (d + (tag + (p + f + body) + foot)) + b == a + d + tag + p + f + body + (foot + b),
{
    assert(a + (d + (tag + (p + f + body) + foot)) + b =~= a + d + tag + p + f + body + (foot
        + b));
}

proof fn lemma_receiver_read(kind: SelfKind, comma: bool, x: Seq<char>)
    requires
        x.len() > 0,
        in_name(x[0]) || x[0] == ')',
        kind is Unbound ==> !comma,
    ensures
        ({
            let r = match kind {
                SelfKind::Unbound => Seq::empty(),
                SelfKind::Shared => "&self"@,
                SelfKind::Mutable => "&mut self"@,
            };
            let c = if comma {
                ", "@
            } else {
                Seq::empty()
            };
            read_receiver(r + c + x) == (kind, x)
        }),
{
    reveal_strlit("&self");
    reveal_strlit("&mut self");
    reveal_strlit(", ");
    let r: Seq<char> = match kind {
        SelfKind::Unbound => Seq::empty(),
        SelfKind::Shared => "&self"@,
        SelfKind::Mutable => "&mut self"@,
    };
    let c: Seq<char> = if comma {
        ", "@
    } else {
        Seq::empty()
    };
    let s = r + c + x;
    let rest = c + x;
    assert(s =~= r + rest);
    lemma_starts(r, rest);
    assert(", "@ =~= seq![',', ' ']);
    if comma {
        lemma_starts(", "@, x);
    } else {
        assert(rest =~= x);
        assert(!starts(x, seq![',', ' '])) by {
            if starts(x, seq![',', ' ']) {
                assert(x.take(2)[0] == x[0]);
            }
        }
    }
    match kind {
        SelfKind::Unbound => {
            assert(s =~= x);
            assert(!starts(s, "&self"@)) by {
                if starts(s, "&self"@) {
                    assert(s.take(5)[0] == s[0]);
                }
            }
            assert(!starts(s, "&mut self"@)) by {
                if starts(s, "&mut self"@) {
                    assert(s.take(9)[0] == s[0]);
                }
            }
        },
        SelfKind::Shared => {},
        SelfKind::Mutable => {
            assert(!starts(s, "&self"@)) by {
                if starts(s, "&self"@) {
                    assert(s.take(5)[1] == s[1]);
                }
            }
        },
    }
}

/// What stands in a header is read back from its text.
#[verifier::spinoff_prover]
#[verifier::rlimit(40)]
proof fn lemma_header_read(
    name: Seq<char>,
    type_params: Seq<Seq<char>>,
    receiver: SelfKind,
    comma: bool,
    params: Seq<ToyParamView>,
    ret: Seq<char>,
    ret_shape: RustShape,
    x: Seq<char>,
)
    requires
        name.len() > 0,
        forall|i: int| 0 <= i < name.len() ==> in_name(#[trigger] name[i]),
        all_names(type_params),
        params_in_words(params),
        read_type(ret + x) == Some((ret_shape, x)),
        receiver is Unbound ==> !comma,
    ensures
        ({
            let r = match receiver {
                SelfKind::Unbound => Seq::empty(),
                SelfKind::Shared => "&self"@,
                SelfKind::Mutable => "&mut self"@,
            };
            let c = if comma {
                ", "@
            } else {
                Seq::empty()
            };
            read_header(
                name + generics_text(type_params) + "("@ + (r + c) + params_text(params)
                    + ") -> "@ + ret + x,
            ) == Some(
                (
                    Header {
                        name,
                        type_params,
                        receiver,
                        params: param_shapes(params),
                        ret: ret_shape,
                    },
                    x,
                ),
            )
        }),
{
    reveal_strlit("(");
    reveal_strlit(") -> ");
    let r: Seq<char> = match receiver {
        SelfKind::Unbound => Seq::empty(),
        SelfKind::Shared => "&self"@,
        SelfKind::Mutable => "&mut self"@,
    };
    let c: Seq<char> = if comma {
        ", "@
    } else {
        Seq::empty()
    };
    let s = name + generics_text(type_params) + "("@ + (r + c) + params_text(params) + ") -> "@
        + ret + x;
    let s4 = ret + x;
    let s3 = ") -> "@ + s4;
    let s2 = params_text(params) + s3;
    let s1 = r + c + s2;
    let s0 = "("@ + s1;
    let g = generics_text(type_params) + s0;
    lemma_right(name, generics_text(type_params), "("@, r + c, params_text(params), ") -> "@, s4);
    lemma_assoc(
        name + generics_text(type_params) + "("@ + (r + c) + params_text(params) + ") -> "@,
        ret,
        x,
    );
    assert(s == name + g);
    assert(s0[0] == '(');
    lemma_generics_read(type_params, s0);
    lemma_name(name, g);
    assert(s0.take(1) =~= seq!['(']);
    assert(s0.drop_first() =~= s1);
    assert(s3[0] == ')');
    lemma_params_read(params, s3);
    if params.len() == 0 {
        assert(s2 =~= s3);
    }
    lemma_receiver_read(receiver, comma, s2);
    lemma_starts(") -> "@, s4);
}

/// What Rust reads of a function that it may call or that it defines.
pub open spec fn fn_header(name: Seq<char>, f: ToyFunctionView) -> Header {
    Header {
        name,
        type_params: if f.body is None {
            Seq::empty()
        } else {
            f.type_params
        },
        receiver: SelfKind::Unbound,
        params: param_shapes(f.params),
        ret: return_shape(f.return_ty),
    }
}

/// What Rust reads of the accessor of a field.
pub open spec fn accessor_header(f: ToyFieldView) -> Header {
    Header {
        name: f.name,
        type_params: Seq::empty(),
        receiver: SelfKind::Shared,
        params: Seq::empty(),
        ret: RustShape::Ref { inner: Box::new(shape(f.rust_type)) },
    }
}

/// What Rust reads of a method of a trait impl. Its first parameter is the
/// receiver.
pub open spec fn method_header(m: ToyImplMethodView) -> Header {
    Header {
        name: m.name,
        type_params: Seq::empty(),
        receiver: if m.is_self_mut {
            SelfKind::Mutable
        } else {
            SelfKind::Shared
        },
        params: param_shapes(tail(m.func.params)),
        ret: return_shape(m.func.return_ty),
    }
}

proof fn lemma_return_read(t: Option<SourceTypeView>, x: Seq<char>)
    requires
        return_in_words(t),
        ends_type(x),
    ensures
        read_type(return_text(t) + x) == Some((return_shape(t), x)),
{
    match t {
        Some(ty) => {
            lemma_type_read_back(ty, x);
        },
        None => {
            lemma_type_read_back(SourceTypeView::Void, x);
        },
    }
}

/// Whether a function stands in a text: its header can be read behind the word
/// `fn`, with these characters behind it.
pub open spec fn states(text: Seq<char>, h: Header, behind: Seq<char>) -> bool {
    exists|p: int| #[trigger] states_at(text, p, h, behind)
}

/// Whether a function stands in a text at `p`.
pub open spec fn states_at(text: Seq<char>, p: int, h: Header, behind: Seq<char>) -> bool {
    &&& 0 <= p <= text.len()
    &&& starts(text.skip(p), "fn "@)
    &&& match read_header(text.skip(p).skip(3)) {
        Some((got, rest)) => got == h && starts(rest, behind),
        None => false,
    }
}

proof fn lemma_states_in(a: Seq<char>, b: Seq<char>, c: Seq<char>, h: Header, behind: Seq<char>)
    requires
        read_header(b + c) matches Some((got, rest)) && got == h && starts(rest, behind),
    ensures
        states(a + "fn "@ + b + c, h, behind),
{
    reveal_strlit("fn ");
    let text = a + "fn "@ + b + c;
    let p = a.len() as int;
    assert(text.skip(p) =~= "fn "@ + (b + c));
    lemma_starts("fn "@, b + c);
    assert(states_at(text, p, h, behind));
}

proof fn lemma_declared_header(name: Seq<char>, f: ToyFunctionView, x: Seq<char>)
    requires
        is_name(name),
        f.body is None,
        params_in_words(f.params),
        return_in_words(f.return_ty),
    ensures
        read_header(
            name + "("@ + params_text(f.params) + ") -> "@ + return_text(f.return_ty) + (";\n"@ + x),
        ) == Some((fn_header(name, f), ";\n"@ + x)),
{
    reveal_strlit(";\n");
    let y = ";\n"@ + x;
    assert(y[0] == ';');
    lemma_word_chars(name);
    lemma_return_read(f.return_ty, y);
    let none = Seq::<Seq<char>>::empty();
    lemma_header_read(
        name,
        none,
        SelfKind::Unbound,
        false,
        f.params,
        return_text(f.return_ty),
        return_shape(f.return_ty),
        y,
    );
    let e = Seq::<char>::empty();
    assert(name + generics_text(none) + "("@ + (e + e) + params_text(f.params) + ") -> "@
        + return_text(f.return_ty) + y =~= name + "("@ + params_text(f.params) + ") -> "@
        + return_text(f.return_ty) + y);
}

#[verifier::spinoff_prover]
#[verifier::rlimit(40)]
proof fn lemma_exported_header(name: Seq<char>, f: ToyFunctionView, x: Seq<char>)
    requires
        name.len() > 0,
        forall|i: int| 0 <= i < name.len() ==> in_name(#[trigger] name[i]),
        f.body is Some,
        all_names(f.type_params),
        params_in_words(f.params),
        return_in_words(f.return_ty),
    ensures
        read_header(
            name + generics_text(f.type_params) + "("@ + params_text(f.params) + ") -> "@
                + return_text(f.return_ty) + (" { unreachable!() }\n"@ + x),
        ) == Some((fn_header(name, f), " { unreachable!() }\n"@ + x)),
{
    reveal_strlit(" { unreachable!() }\n");
    let y = " { unreachable!() }\n"@ + x;
    assert(y[0] == ' ');
    lemma_return_read(f.return_ty, y);
    lemma_header_read(
        name,
        f.type_params,
        SelfKind::Unbound,
        false,
        f.params,
        return_text(f.return_ty),
        return_shape(f.return_ty),
        y,
    );
    let e = Seq::<char>::empty();
    let open = name + generics_text(f.type_params) + "("@;
    assert(e + e =~= e);
    assert(open + e =~= open);
}

#[verifier::spinoff_prover]
#[verifier::rlimit(40)]
proof fn lemma_accessor_header(f: ToyFieldView, x: Seq<char>)
    requires
        is_name(f.name),
        type_in_words(f.rust_type),
    ensures
        read_header(
            f.name + "(&self) -> &"@ + type_text(f.rust_type) + (" { unreachable!() }\n"@ + x),
        ) == Some((accessor_header(f), " { unreachable!() }\n"@ + x)),
{
    reveal_strlit(" { unreachable!() }\n");
    reveal_strlit("(&self) -> &");
    reveal_strlit("(");
    reveal_strlit("&self");
    reveal_strlit(") -> ");
    reveal_strlit("&");
    let y = " { unreachable!() }\n"@ + x;
    assert(y[0] == ' ');
    lemma_word_chars(f.name);
    let t = SourceTypeView::Ref { inner: Box::new(f.rust_type) };
    lemma_type_read_back(t, y);
    let none = Seq::<Seq<char>>::empty();
    let no_params = Seq::<ToyParamView>::empty();
    lemma_header_read(f.name, none, SelfKind::Shared, false, no_params, type_text(t), shape(t), y);
    assert(param_shapes(no_params) =~= Seq::empty());
    let e = Seq::<char>::empty();
    assert("("@ + "&self"@ + ") -> "@ + "&"@ =~= "(&self) -> &"@);
    assert("&self"@ + e =~= "&self"@);
    assert(f.name + e =~= f.name);
    let open = f.name + "("@ + "&self"@;
    assert(open + e =~= open);
    lemma_group3(f.name, "("@, "&self"@, ") -> "@);
    lemma_assoc(open + ") -> "@, "&"@, type_text(f.rust_type));
    lemma_assoc(f.name, "("@ + "&self"@ + ") -> "@, "&"@);
    assert(f.name + generics_text(none) + "("@ + ("&self"@ + e) + params_text(no_params)
        + ") -> "@ + type_text(t) + y == f.name + "(&self) -> &"@ + type_text(f.rust_type) + y);
}

proof fn lemma_receiver_words()
    ensures
        "("@ + ("&mut self"@ + ", "@) == "(&mut self, "@,
        "("@ + ("&self"@ + ", "@) == "(&self, "@,
{
    reveal_strlit("(&self, ");
    reveal_strlit("(&mut self, ");
    reveal_strlit("(");
    reveal_strlit(", ");
    reveal_strlit("&self");
    reveal_strlit("&mut self");
    assert("("@ + ("&mut self"@ + ", "@) =~= "(&mut self, "@);
    assert("("@ + ("&self"@ + ", "@) =~= "(&self, "@);
}

#[verifier::spinoff_prover]
#[verifier::rlimit(40)]
proof fn lemma_method_header(m: ToyImplMethodView, x: Seq<char>)
    requires
        method_in_words(m),
    ensures
        read_header(
            m.name + (if m.is_self_mut {
                "(&mut self, "@
            } else {
                "(&self, "@
            }) + params_text(tail(m.func.params)) + ") -> "@ + return_text(m.func.return_ty) + (
            " { unreachable!() }\n"@ + x),
        ) == Some((method_header(m), " { unreachable!() }\n"@ + x)),
{
    let y = " { unreachable!() }\n"@ + x;
    assert(y.len() > 0 && y[0] == ' ') by {
        reveal_strlit(" { unreachable!() }\n");
    }
    lemma_word_chars(m.name);
    lemma_return_read(m.func.return_ty, y);
    let none = Seq::<Seq<char>>::empty();
    let ps = tail(m.func.params);
    let kind = if m.is_self_mut {
        SelfKind::Mutable
    } else {
        SelfKind::Shared
    };
    lemma_header_read(
        m.name,
        none,
        kind,
        true,
        ps,
        return_text(m.func.return_ty),
        return_shape(m.func.return_ty),
        y,
    );
    lemma_receiver_words();
    if m.is_self_mut {
        lemma_opened(m.name, "("@, "&mut self"@ + ", "@, "(&mut self, "@);
    } else {
        lemma_opened(m.name, "("@, "&self"@ + ", "@, "(&self, "@);
    }
}

proof fn lemma_pub()
    ensures
        "pub fn "@ == seq!['p', 'u', 'b', ' '] + "fn "@,
{
    reveal_strlit("pub fn ");
    reveal_strlit("fn ");
    assert("pub fn "@ =~= seq!['p', 'u', 'b', ' '] + "fn "@);
}

/// The last of some functions, behind the others.
proof fn lemma_declared_piece(fs: Seq<(Seq<char>, ToyFunctionView)>)
    requires
        fs.len() > 0,
    ensures
        declared_text(fs) == declared_text(fs.drop_last()) + (if fs.last().1.body is Some {
            Seq::empty()
        } else {
            declared_piece(fs.last().0, fs.last().1)
        }),
{
    let (name, f) = fs.last();
    let d = declared_text(fs.drop_last());
    let e = Seq::<char>::empty();
    assert(d + e =~= d);
    let y = d + "pub fn "@;
    let body = name + "("@ + params_text(f.params) + ") -> "@ + return_text(f.return_ty);
    lemma_group5(y, name, "("@, params_text(f.params), ") -> "@, return_text(f.return_ty));
    lemma_group5("pub fn "@, name, "("@, params_text(f.params), ") -> "@, return_text(f.return_ty));
    lemma_assoc(d, "pub fn "@, body);
    lemma_assoc(d, "pub fn "@ + body, ";\n"@);
}

#[verifier::spinoff_prover]
#[verifier::rlimit(40)]
proof fn lemma_declared_stated(
    a: Seq<char>,
    fs: Seq<(Seq<char>, ToyFunctionView)>,
    b: Seq<char>,
    i: int,
)
    requires
        0 <= i < fs.len(),
        fs[i].1.body is None,
        forall|k: int| 0 <= k < fs.len() ==> fn_in_words((#[trigger] fs[k]).0, fs[k].1),
    ensures
        states(a + declared_text(fs) + b, fn_header(fs[i].0, fs[i].1), ";\n"@),
    decreases fs.len(),
{
    let before = fs.drop_last();
    let (name, f) = fs[fs.len() - 1];
    let piece = if f.body is Some {
        Seq::empty()
    } else {
        declared_piece(name, f)
    };
    if i < fs.len() - 1 {
        assert forall|k: int| 0 <= k < before.len() implies fn_in_words(
            (#[trigger] before[k]).0,
            before[k].1,
        ) by {
            assert(before[k] == fs[k]);
        }
        assert(before[i] == fs[i]);
        lemma_declared_piece(fs);
        lemma_assoc(a, declared_text(before), piece);
        lemma_assoc(a + declared_text(before), piece, b);
        lemma_declared_stated(a, before, piece + b, i);
    } else {
        lemma_declared_header(name, f, b);
        lemma_starts(";\n"@, b);
        let body = name + "("@ + params_text(f.params) + ") -> "@ + return_text(f.return_ty);
        lemma_states_in(
            a + declared_text(before) + seq!['p', 'u', 'b', ' '],
            body,
            ";\n"@ + b,
            fn_header(name, f),
            ";\n"@,
        );
        lemma_pub();
        let x = declared_text(before) + "pub fn "@;
        lemma_group5(x, name, "("@, params_text(f.params), ") -> "@, return_text(f.return_ty));
        lemma_frame(
            a,
            declared_text(before),
            seq!['p', 'u', 'b', ' '],
            "fn "@,
            body,
            ";\n"@,
            b,
        );
    }
}

/// What stands behind a function whose body comes from toylang.
pub open spec fn stand_in_body() -> Seq<char> {
    " { unreachable!() }\n"@
}

#[verifier::spinoff_prover]
#[verifier::rlimit(40)]
proof fn lemma_exported_stated(
    a: Seq<char>,
    fs: Seq<(Seq<char>, ToyFunctionView)>,
    b: Seq<char>,
    i: int,
)
    requires
        0 <= i < fs.len(),
        fs[i].1.body is Some,
        fs[i].1.is_export,
        forall|k: int| 0 <= k < fs.len() ==> fn_in_words((#[trigger] fs[k]).0, fs[k].1),
    ensures
        states(
            a + exported_text(fs) + b,
            fn_header(stub_name(fs[i].0), fs[i].1),
            stand_in_body(),
        ),
    decreases fs.len(),
{
    let before = fs.drop_last();
    let (name, f) = fs[fs.len() - 1];
    let body = stub_name(name) + generics_text(f.type_params) + "("@ + params_text(f.params)
        + ") -> "@ + return_text(f.return_ty);
    let piece = if f.body is None || !f.is_export {
        Seq::empty()
    } else {
        tagged_fn(
            "pub fn "@ + stub_name(name) + generics_text(f.type_params) + "("@ + params_text(
                f.params,
            ) + ") -> "@ + return_text(f.return_ty),
        )
    };
    let e = Seq::<char>::empty();
    assert(exported_text(before) + e =~= exported_text(before));
    assert(exported_text(fs) == exported_text(before) + piece);
    if i < fs.len() - 1 {
        assert forall|k: int| 0 <= k < before.len() implies fn_in_words(
            (#[trigger] before[k]).0,
            before[k].1,
        ) by {
            assert(before[k] == fs[k]);
        }
        assert(before[i] == fs[i]);
        lemma_exported_stated(a, before, piece + b, i);
        lemma_assoc(a, exported_text(before), piece);
        lemma_assoc(a + exported_text(before), piece, b);
    } else {
        lemma_pub();
        lemma_main_length();
        assert(fn_in_words(name, f));
        lemma_word_chars(name);
        let n = stub_name(name);
        assert forall|k: int| 0 <= k < n.len() implies in_name(#[trigger] n[k]) by {
            if name == "main"@ {
                lemma_main_chars(k);
            }
        }
        lemma_exported_header(n, f, b);
        lemma_starts(stand_in_body(), b);
        let head = a + exported_text(before) + "#[toylang::emit_consumer_body]\n"@ + seq![
            'p',
            'u',
            'b',
            ' ',
        ];
        lemma_states_in(head, body, stand_in_body() + b, fn_header(n, f), stand_in_body());
        let y = "pub fn "@ + n;
        lemma_group3("pub fn "@, n, generics_text(f.type_params), "("@);
        lemma_group3(
            "pub fn "@,
            n + generics_text(f.type_params) + "("@,
            params_text(f.params),
            ") -> "@,
        );
        lemma_assoc(
            "pub fn "@,
            n + generics_text(f.type_params) + "("@ + params_text(f.params) + ") -> "@,
            return_text(f.return_ty),
        );
        lemma_tagged_frame(
            a,
            exported_text(before),
            "#[toylang::emit_consumer_body]\n"@,
            seq!['p', 'u', 'b', ' '],
            "fn "@,
            body,
            stand_in_body(),
            b,
        );
    }
}

proof fn lemma_main_length()
    ensures
        "__toylang_main"@.len() == 14,
{
    reveal_strlit("__toylang_main");
}

proof fn lemma_main_chars(k: int)
    requires
        0 <= k < "__toylang_main"@.len(),
    ensures
        in_name("__toylang_main"@[k]),
{
    reveal_strlit("__toylang_main");
    if k < 7 {
        assert(k == 0 || k == 1 || k == 2 || k == 3 || k == 4 || k == 5 || k == 6);
    } else {
        assert(k == 7 || k == 8 || k == 9 || k == 10 || k == 11 || k == 12 || k == 13);
    }
}

#[verifier::spinoff_prover]
#[verifier::rlimit(40)]
proof fn lemma_fields_stated(a: Seq<char>, fs: Seq<ToyFieldView>, b: Seq<char>, i: int)
    requires
        0 <= i < fs.len(),
        forall|k: int|
            0 <= k < fs.len() ==> is_name((#[trigger] fs[k]).name) && type_in_words(
                fs[k].rust_type,
            ),
    ensures
        states(a + accessor_list(fs) + b, accessor_header(fs[i]), stand_in_body()),
    decreases fs.len(),
{
    let before = fs.drop_last();
    let f = fs[fs.len() - 1];
    let piece = accessor_text(f);
    if i < fs.len() - 1 {
        assert forall|k: int| 0 <= k < before.len() implies is_name((#[trigger] before[k]).name)
            && type_in_words(before[k].rust_type) by {
            assert(before[k] == fs[k]);
        }
        assert(before[i] == fs[i]);
        lemma_fields_stated(a, before, piece + b, i);
        lemma_assoc(a, accessor_list(before), piece);
        lemma_assoc(a + accessor_list(before), piece, b);
    } else {
        lemma_pub();
        let body = f.name + "(&self) -> &"@ + type_text(f.rust_type);
        lemma_accessor_header(f, b);
        lemma_starts(stand_in_body(), b);
        let head = a + accessor_list(before) + "#[toylang::emit_consumer_body]\n"@ + seq![
            'p',
            'u',
            'b',
            ' ',
        ];
        lemma_states_in(head, body, stand_in_body() + b, accessor_header(f), stand_in_body());
        lemma_group3("pub fn "@, f.name, "(&self) -> &"@, type_text(f.rust_type));
        lemma_tagged_frame(
            a,
            accessor_list(before),
            "#[toylang::emit_consumer_body]\n"@,
            seq!['p', 'u', 'b', ' '],
            "fn "@,
            body,
            stand_in_body(),
            b,
        );
    }
}

proof fn lemma_accessors_stated(
    a: Seq<char>,
    ds: Seq<(Seq<char>, ToyStructView)>,
    b: Seq<char>,
    i: int,
    k: int,
)
    requires
        0 <= i < ds.len(),
        0 <= k < ds[i].1.fields.len(),
        forall|j: int| 0 <= j < ds.len() ==> struct_in_words((#[trigger] ds[j]).1),
    ensures
        states(a + accessors_text(ds) + b, accessor_header(ds[i].1.fields[k]), stand_in_body()),
    decreases ds.len(),
{
    let before = ds.drop_last();
    let (name, d) = ds[ds.len() - 1];
    let head = "impl"@ + generics_text(d.type_params) + " "@ + name + generics_text(d.type_params)
        + " {\n"@;
    let piece = if d.fields.len() == 0 {
        Seq::empty()
    } else {
        head + accessor_list(d.fields) + "}\n"@
    };
    assert(accessors_text(ds) =~= accessors_text(before) + piece);
    if i < ds.len() - 1 {
        assert forall|j: int| 0 <= j < before.len() implies struct_in_words(
            (#[trigger] before[j]).1,
        ) by {
            assert(before[j] == ds[j]);
        }
        assert(before[i] == ds[i]);
        lemma_accessors_stated(a, before, piece + b, i, k);
        assert(a + accessors_text(before) + (piece + b) =~= a + accessors_text(ds) + b);
    } else {
        assert(struct_in_words(ds[i].1));
        let start = a + accessors_text(before) + head;
        lemma_fields_stated(start, d.fields, "}\n"@ + b, k);
        assert(start + accessor_list(d.fields) + ("}\n"@ + b) =~= a + accessors_text(ds) + b);
    }
}

#[verifier::spinoff_prover]
#[verifier::rlimit(40)]
proof fn lemma_methods_stated(a: Seq<char>, ms: Seq<ToyImplMethodView>, b: Seq<char>, i: int)
    requires
        0 <= i < ms.len(),
        forall|k: int| 0 <= k < ms.len() ==> method_in_words(#[trigger] ms[k]),
    ensures
        states(a + methods_text(ms) + b, method_header(ms[i]), stand_in_body()),
    decreases ms.len(),
{
    let before = ms.drop_last();
    let m = ms[ms.len() - 1];
    let piece = method_text(m);
    if i < ms.len() - 1 {
        assert forall|k: int| 0 <= k < before.len() implies method_in_words(
            #[trigger] before[k],
        ) by {
            assert(before[k] == ms[k]);
        }
        assert(before[i] == ms[i]);
        lemma_methods_stated(a, before, piece + b, i);
        lemma_assoc(a, methods_text(before), piece);
        lemma_assoc(a + methods_text(before), piece, b);
    } else {
        let receiver = if m.is_self_mut {
            "(&mut self, "@
        } else {
            "(&self, "@
        };
        let body = m.name + receiver + params_text(tail(m.func.params)) + ") -> "@ + return_text(
            m.func.return_ty,
        );
        lemma_method_header(m, b);
        lemma_starts(stand_in_body(), b);
        let head = a + methods_text(before) + "#[toylang::emit_consumer_body]\n"@;
        lemma_states_in(head, body, stand_in_body() + b, method_header(m), stand_in_body());
        lemma_group5(
            "fn "@,
            m.name,
            receiver,
            params_text(tail(m.func.params)),
            ") -> "@,
            return_text(m.func.return_ty),
        );
        let e = Seq::<char>::empty();
        assert(e + "fn "@ =~= "fn "@);
        assert(head + e =~= head);
        lemma_tagged_frame(
            a,
            methods_text(before),
            "#[toylang::emit_consumer_body]\n"@,
            e,
            "fn "@,
            body,
            stand_in_body(),
            b,
        );
    }
}

proof fn lemma_impls_stated(a: Seq<char>, ds: Seq<ToyImplView>, b: Seq<char>, i: int, k: int)
    requires
        0 <= i < ds.len(),
        ds[i].is_export,
        0 <= k < ds[i].methods.len(),
        forall|j: int| 0 <= j < ds.len() ==> impl_in_words(#[trigger] ds[j]),
    ensures
        states(a + impls_text(ds) + b, method_header(ds[i].methods[k]), stand_in_body()),
    decreases ds.len(),
{
    let before = ds.drop_last();
    let d = ds[ds.len() - 1];
    let head = "impl"@ + generics_text(crate::stub_gen::bounded_params(d)) + " "@ + d.trait_name
        + " for "@ + d.self_type_name + generics_text(d.self_type_args) + " {\n"@;
    let piece = if !d.is_export {
        Seq::empty()
    } else {
        head + methods_text(d.methods) + "}\n"@
    };
    assert(impls_text(ds) =~= impls_text(before) + piece);
    if i < ds.len() - 1 {
        assert forall|j: int| 0 <= j < before.len() implies impl_in_words(#[trigger] before[j]) by {
            assert(before[j] == ds[j]);
        }
        assert(before[i] == ds[i]);
        lemma_impls_stated(a, before, piece + b, i, k);
        assert(a + impls_text(before) + (piece + b) =~= a + impls_text(ds) + b);
    } else {
        assert(impl_in_words(ds[i]));
        let start = a + impls_text(before) + head;
        lemma_methods_stated(start, d.methods, "}\n"@ + b, k);
        assert(start + methods_text(d.methods) + ("}\n"@ + b) =~= a + impls_text(ds) + b);
    }
}

/// A stub crate states every function that Rust defines, every function that
/// Rust code may call, the accessor of every field, and every method of a trait
/// impl that Rust code may use: its name, its parameters and their types in
/// order, and the type that it returns can be read from the text.
#[verifier::spinoff_prover]
#[verifier::rlimit(40)]
pub proof fn lemma_functions_stated(r: RegistryView)
    requires
        names_are_words(r),
    ensures
        forall|i: int|
            0 <= i < r.functions.len() && (#[trigger] r.functions[i]).1.body is None ==> states(
                stub_text(r),
                fn_header(r.functions[i].0, r.functions[i].1),
                ";\n"@,
            ),
        forall|i: int|
            0 <= i < r.functions.len() && (#[trigger] r.functions[i]).1.body is Some
                && r.functions[i].1.is_export ==> states(
                stub_text(r),
                fn_header(stub_name(r.functions[i].0), r.functions[i].1),
                stand_in_body(),
            ),
        forall|i: int, k: int|
            0 <= i < r.structs.len() && 0 <= k < r.structs[i].1.fields.len() ==> states(
                stub_text(r),
                accessor_header(#[trigger] r.structs[i].1.fields[k]),
                stand_in_body(),
            ),
        forall|i: int, k: int|
            0 <= i < r.trait_impls.len() && r.trait_impls[i].is_export && 0 <= k
                < r.trait_impls[i].methods.len() ==> states(
                stub_text(r),
                method_header(#[trigger] r.trait_impls[i].methods[k]),
                stand_in_body(),
            ),
{
    let t0 = prelude_text() + imports_text(r.imports) + structs_text(r.structs);
    let d = declared_block(r.functions);
    let e = exported_text(r.functions);
    let c = accessors_text(r.structs);
    let m = impls_text(r.trait_impls);
    let z = drop_text(r.imports) + helpers_text();
    let text = stub_text(r);
    assert forall|i: int|
        0 <= i < r.functions.len() && (#[trigger] r.functions[i]).1.body is None implies states(
        text,
        fn_header(r.functions[i].0, r.functions[i].1),
        ";\n"@,
    ) by {
        let open = "extern \"C\" {\n"@;
        let inside = declared_text(r.functions);
        lemma_declared_stated(t0 + open, r.functions, "}\n"@ + e + c + m + z, i);
        lemma_declared_some(r.functions, i);
        assert(t0 + open + inside + ("}\n"@ + e + c + m + z) =~= text);
    }
    assert forall|i: int|
        0 <= i < r.functions.len() && (#[trigger] r.functions[i]).1.body is Some
            && r.functions[i].1.is_export implies states(
        text,
        fn_header(stub_name(r.functions[i].0), r.functions[i].1),
        stand_in_body(),
    ) by {
        lemma_exported_stated(t0 + d, r.functions, c + m + z, i);
        assert(t0 + d + e + (c + m + z) =~= text);
    }
    assert forall|i: int, k: int|
        0 <= i < r.structs.len() && 0 <= k < r.structs[i].1.fields.len() implies states(
        text,
        accessor_header(#[trigger] r.structs[i].1.fields[k]),
        stand_in_body(),
    ) by {
        lemma_accessors_stated(t0 + d + e, r.structs, m + z, i, k);
        assert(t0 + d + e + c + (m + z) =~= text);
    }
    assert forall|i: int, k: int|
        0 <= i < r.trait_impls.len() && r.trait_impls[i].is_export && 0 <= k
            < r.trait_impls[i].methods.len() implies states(
        text,
        method_header(#[trigger] r.trait_impls[i].methods[k]),
        stand_in_body(),
    ) by {
        lemma_impls_stated(t0 + d + e + c, r.trait_impls, z, i, k);
        assert(t0 + d + e + c + m + z =~= text);
    }
}

proof fn lemma_declared_some(fs: Seq<(Seq<char>, ToyFunctionView)>, i: int)
    requires
        0 <= i < fs.len(),
        fs[i].1.body is None,
    ensures
        declared_text(fs).len() > 0,
    decreases fs.len(),
{
    if i < fs.len() - 1 {
        assert(fs.drop_last()[i] == fs[i]);
        lemma_declared_some(fs.drop_last(), i);
    } else {
        reveal_strlit("pub fn ");
        assert(fs.last() == fs[i]);
    }
}

/// Two texts with the same start and the same end have the same middle.
proof fn lemma_cancel(a: Seq<char>, x: Seq<char>, y: Seq<char>, b: Seq<char>)
    requires
        a + x + b == a + y + b,
    ensures
        x == y,
{
    let s = a + x + b;
    let t = a + y + b;
    let n = a.len() as int;
    assert(s.len() == a.len() + x.len() + b.len());
    assert(t.len() == a.len() + y.len() + b.len());
    assert(s.subrange(n, n + x.len()) =~= x);
    assert(t.subrange(n, n + y.len()) =~= y);
}

/// The text of a function among others, which it stands between.
#[verifier::spinoff_prover]
#[verifier::rlimit(40)]
proof fn lemma_declared_parts(
    fs: Seq<(Seq<char>, ToyFunctionView)>,
    i: int,
    g: ToyFunctionView,
)
    requires
        0 <= i < fs.len(),
        fs[i].1.body is None,
        g.body is None,
    ensures
        exists|a: Seq<char>, b: Seq<char>| #[trigger]
            between(a, declared_piece(fs[i].0, fs[i].1), b) == declared_text(fs) && between(
                a,
                declared_piece(fs[i].0, g),
                b,
            ) == declared_text(fs.update(i, (fs[i].0, g))),
    decreases fs.len(),
{
    let before = fs.drop_last();
    let other = fs.update(i, (fs[i].0, g));
    if i < fs.len() - 1 {
        lemma_declared_parts(before, i, g);
        assert(other.drop_last() =~= before.update(i, (fs[i].0, g)));
        let (a, b) = choose|a: Seq<char>, b: Seq<char>| #[trigger]
            between(a, declared_piece(before[i].0, before[i].1), b) == declared_text(before)
                && between(a, declared_piece(before[i].0, g), b) == declared_text(
                before.update(i, (before[i].0, g)),
            );
        let (name, f) = fs.last();
        let piece = if f.body is Some {
            Seq::empty()
        } else {
            declared_piece(name, f)
        };
        lemma_declared_piece(fs);
        lemma_declared_piece(other);
        lemma_assoc(a + declared_piece(fs[i].0, fs[i].1), b, piece);
        lemma_assoc(a + declared_piece(fs[i].0, g), b, piece);
        assert(other.last() == fs.last());
        assert(declared_text(fs) == between(a, declared_piece(fs[i].0, fs[i].1), b + piece));
        assert(declared_text(other) == between(a, declared_piece(fs[i].0, g), b + piece));
    } else {
        let a = declared_text(before);
        let b = Seq::<char>::empty();
        assert(other.drop_last() =~= before);
        lemma_declared_piece(fs);
        lemma_declared_piece(other);
        assert(a + declared_piece(fs[i].0, fs[i].1) + b =~= a + declared_piece(
            fs[i].0,
            fs[i].1,
        ));
        assert(a + declared_piece(fs[i].0, g) + b =~= a + declared_piece(fs[i].0, g));
        assert(declared_text(fs) == between(a, declared_piece(fs[i].0, fs[i].1), b));
        assert(declared_text(other) == between(a, declared_piece(fs[i].0, g), b));
    }
}

spec fn between(a: Seq<char>, x: Seq<char>, b: Seq<char>) -> Seq<char> {
    a + x + b
}

spec fn declared_piece(name: Seq<char>, f: ToyFunctionView) -> Seq<char> {
    "pub fn "@ + name + "("@ + params_text(f.params) + ") -> "@ + return_text(f.return_ty) + ";\n"@
}

proof fn lemma_piece(name: Seq<char>, f: ToyFunctionView)
    ensures
        declared_piece(name, f) == "pub fn "@ + (name + "("@ + params_text(f.params) + ") -> "@
            + return_text(f.return_ty) + (";\n"@ + Seq::<char>::empty())),
{
    let body = name + "("@ + params_text(f.params) + ") -> "@ + return_text(f.return_ty);
    let e = Seq::<char>::empty();
    assert(";\n"@ + e =~= ";\n"@);
    lemma_group5("pub fn "@, name, "("@, params_text(f.params), ") -> "@, return_text(f.return_ty));
    lemma_assoc("pub fn "@, body, ";\n"@);
}

/// Two functions that Rust defines, and that differ in a parameter or in what
/// they return, are declared by different texts.
#[verifier::spinoff_prover]
#[verifier::rlimit(40)]
pub proof fn lemma_signature_counts(r: RegistryView, i: int, g: ToyFunctionView)
    requires
        0 <= i < r.functions.len(),
        r.functions[i].1.body is None,
        g.body is None,
        fn_in_words(r.functions[i].0, r.functions[i].1),
        fn_in_words(r.functions[i].0, g),
        fn_header(r.functions[i].0, r.functions[i].1) != fn_header(r.functions[i].0, g),
    ensures
        stub_text(r) != stub_text(
            (RegistryView { functions: r.functions.update(i, (r.functions[i].0, g)), ..r }),
        ),
{
    let fs = r.functions;
    let name = fs[i].0;
    let f = fs[i].1;
    let gs = fs.update(i, (name, g));
    let other = RegistryView { functions: gs, ..r };
    lemma_declared_parts(fs, i, g);
    let (a, b) = choose|a: Seq<char>, b: Seq<char>| #[trigger]
        between(a, declared_piece(name, f), b) == declared_text(fs) && between(
            a,
            declared_piece(name, g),
            b,
        ) == declared_text(gs);
    lemma_same_exported(fs, i, g);
    lemma_declared_some(fs, i);
    lemma_declared_some(gs, i);
    let t0 = prelude_text() + imports_text(r.imports) + structs_text(r.structs);
    let open = "extern \"C\" {\n"@;
    let x1 = exported_text(fs);
    let x2 = accessors_text(r.structs);
    let x3 = impls_text(r.trait_impls);
    let x4 = drop_text(r.imports);
    let x5 = helpers_text();
    let z = x1 + (x2 + (x3 + (x4 + x5)));
    let one = declared_block(fs);
    let two = declared_block(gs);
    lemma_right(t0, one, x1, x2, x3, x4, x5);
    lemma_right(t0, two, x1, x2, x3, x4, x5);
    lemma_assoc(t0, one, z);
    lemma_assoc(t0, two, z);
    if stub_text(r) == stub_text(other) {
        lemma_cancel(t0, one, two, z);
        lemma_cancel(open, declared_text(fs), declared_text(gs), "}\n"@);
        lemma_cancel(a, declared_piece(name, f), declared_piece(name, g), b);
        let e = Seq::<char>::empty();
        lemma_declared_header(name, f, e);
        lemma_declared_header(name, g, e);
        let x = name + "("@ + params_text(f.params) + ") -> "@ + return_text(f.return_ty) + (";\n"@
            + e);
        let y = name + "("@ + params_text(g.params) + ") -> "@ + return_text(g.return_ty) + (";\n"@
            + e);
        lemma_piece(name, f);
        lemma_piece(name, g);
        lemma_starts("pub fn "@, x);
        lemma_starts("pub fn "@, y);
        assert(x == y);
    }
}

/// A function that Rust defines has no part in what is exported.
proof fn lemma_same_exported(
    fs: Seq<(Seq<char>, ToyFunctionView)>,
    i: int,
    g: ToyFunctionView,
)
    requires
        0 <= i < fs.len(),
        fs[i].1.body is None,
        g.body is None,
    ensures
        exported_text(fs.update(i, (fs[i].0, g))) == exported_text(fs),
    decreases fs.len(),
{
    let other = fs.update(i, (fs[i].0, g));
    if i < fs.len() - 1 {
        lemma_same_exported(fs.drop_last(), i, g);
        assert(other.drop_last() =~= fs.drop_last().update(i, (fs[i].0, g)));
        assert(other.last() == fs.last());
    } else {
        assert(other.drop_last() =~= fs.drop_last());
    }
}

} // verus!
