//! What holds of the text of every stub crate: the tag stands on the
//! functions whose bodies come from toylang, and on nothing else.
use crate::stub_gen::{
    accessor_list, accessor_text, accessors_text, all_name_types, all_names, bounded_param, bounded_params, bounds_in_words, bounds_of,
    colons_at, declared_block, declared_text, drop_text, exported_text, fn_in_words, generics_text, helpers_text, impl_in_words, impls_text,
    imports_text, is_bare_word, is_name, is_path, is_segment, is_segments, is_word, joined, method_in_words, method_text, methods_text,
    names_are_words, names_param, names_trait, names_type, params_in_words, params_text, prelude_text, return_in_words, return_text,
    struct_in_words, struct_text, structs_text, stub_text, tagged_fn, tail, type_in_words, type_text, types_in_words, types_text,
    without_first_blanks, without_last_blanks, word_char,
};
use crate::text::digits_of;
use crate::toylang::callbacks_impl::stub_name;
use crate::toylang::registry::{RegistryView, ToyFieldView, ToyFunctionView, ToyImplMethodView, ToyImplView, ToyParamView, ToyStructView};
use crate::toylang::typed_ast::SourceTypeView;
use crate::typeid::type_id;
use vstd::prelude::*;

verus! {

broadcast use vstd::seq::group_seq_axioms;

/// The tag of a function whose body comes from toylang.
pub open spec fn tag() -> Seq<char> {
    "#[toylang::emit_consumer_body]"@
}

/// The body of a function whose body comes from toylang.
pub open spec fn stand_in() -> Seq<char> {
    "unreachable!()"@
}

/// Whether a word stands in a text at `p`.
pub open spec fn stands_at(text: Seq<char>, word: Seq<char>, p: int) -> bool {
    0 <= p && p + word.len() <= text.len() && text.subrange(p, p + word.len()) == word
}

/// Whether an attribute starts at `k`, an item ends there or a macro is called.
pub open spec fn is_mark(text: Seq<char>, k: int) -> bool {
    text[k] == '!' || text[k] == '}' || text[k] == '#' && text[k + 1] == '['
}

/// Whether the tag at `q` is that of the function with the body at `p`: no
/// attribute, no end of an item and no other such body stands between them.
pub open spec fn tag_of(text: Seq<char>, q: int, p: int) -> bool {
    &&& stands_at(text, tag(), q)
    &&& stands_at(text, stand_in(), p)
    &&& q + tag().len() <= p
    &&& forall|k: int| q < k < p ==> !#[trigger] is_mark(text, k)
}

/// Whether the function with the body at `p` carries the tag.
pub open spec fn is_tagged(text: Seq<char>, p: int) -> bool {
    exists|q: int| tag_of(text, q, p)
}

/// Whether the tag at `q` is that of a function with such a body.
pub open spec fn is_used(text: Seq<char>, q: int) -> bool {
    exists|p: int| tag_of(text, q, p)
}

/// Whether the tags of a text and the bodies that are never run belong
/// together, each to one.
pub open spec fn tags_match(text: Seq<char>) -> bool {
    &&& forall|p: int| #[trigger]
        stands_at(text, stand_in(), p) ==> is_tagged(text, p)
    &&& forall|q: int| #[trigger]
        stands_at(text, tag(), q) ==> is_used(text, q)
}

/// How often the tag stands among the first `n` places of a text.
pub open spec fn tags_before(text: Seq<char>, n: nat) -> nat
    decreases n,
{
    if n == 0 {
        0
    } else {
        tags_before(text, (n - 1) as nat) + (if stands_at(text, tag(), n - 1) {
            1nat
        } else {
            0
        })
    }
}

/// How often the tag stands in a text.
pub open spec fn tag_count(text: Seq<char>) -> nat {
    tags_before(text, text.len())
}

/// How many fields some structs have.
pub open spec fn field_count(ds: Seq<(Seq<char>, ToyStructView)>) -> nat
    decreases ds.len(),
{
    if ds.len() == 0 {
        0
    } else {
        field_count(ds.drop_last()) + ds.last().1.fields.len()
    }
}

/// How many of some functions have a body and may be called by Rust code.
pub open spec fn exported_count(fs: Seq<(Seq<char>, ToyFunctionView)>) -> nat
    decreases fs.len(),
{
    if fs.len() == 0 {
        0
    } else {
        exported_count(fs.drop_last()) + (if fs.last().1.body is Some && fs.last().1.is_export {
            1nat
        } else {
            0
        })
    }
}

/// How many methods the trait impls have that Rust code may use.
pub open spec fn method_count(ds: Seq<ToyImplView>) -> nat
    decreases ds.len(),
{
    if ds.len() == 0 {
        0
    } else {
        method_count(ds.drop_last()) + (if ds.last().is_export {
            ds.last().methods.len()
        } else {
            0
        })
    }
}

/// In a stub crate, every function with a body that is never run carries the
/// tag, and the tag stands on nothing else. There is one for each field of a
/// struct, for each function with a body that Rust code may call, and for each
/// method of a trait impl that Rust code may use. The crate itself does not
/// register the tool that the tag belongs to.
pub proof fn lemma_tags_match(r: RegistryView)
    requires
        names_are_words(r),
    ensures
        tags_match(stub_text(r)),
        tag_count(stub_text(r)) == field_count(r.structs) + exported_count(r.functions)
            + method_count(r.trait_impls),
        forall|p: int| !#[trigger] stands_at(stub_text(r), "#![register_tool(toylang)]"@, p),
{
    lemma_prelude();
    lemma_imports(r.imports);
    lemma_structs(r.structs);
    lemma_declared_block(r.functions);
    lemma_exported(r.functions);
    lemma_accessors(r.structs);
    lemma_impls(r.trait_impls);
    lemma_drop(r.imports);
    lemma_helpers();
    let t1 = prelude_text() + imports_text(r.imports);
    lemma_join(prelude_text(), imports_text(r.imports));
    let t2 = t1 + structs_text(r.structs);
    lemma_join(t1, structs_text(r.structs));
    let t3 = t2 + declared_block(r.functions);
    lemma_join(t2, declared_block(r.functions));
    let t4 = t3 + exported_text(r.functions);
    lemma_join(t3, exported_text(r.functions));
    let t5 = t4 + accessors_text(r.structs);
    lemma_join(t4, accessors_text(r.structs));
    let t6 = t5 + impls_text(r.trait_impls);
    lemma_join(t5, impls_text(r.trait_impls));
    let t7 = t6 + drop_text(r.imports);
    lemma_join(t6, drop_text(r.imports));
    lemma_join(t7, helpers_text());
    let text = stub_text(r);
    assert(settled(text));
    assert forall|p: int| #[trigger] stands_at(text, stand_in(), p) implies is_tagged(text, p) by {
        lemma_bang_in(text, p);
        assert(text[p + 11] == '!');
        assert(is_tagged(text, p + 11 - 11));
    }
    let register = "#![register_tool(toylang)]"@;
    reveal_strlit("#![register_tool(toylang)]");
    assert forall|p: int| !#[trigger] stands_at(text, register, p) by {
        if stands_at(text, register, p) {
            assert(text.subrange(p, p + register.len())[0] == text[p]);
            assert(text.subrange(p, p + register.len())[1] == text[p + 1]);
            assert(text[p + 1] == '!');
            assert(is_tagged(text, p + 1 - 11));
            reveal_strlit("unreachable!()");
            lemma_tag_length();
            assert(stands_at(text, stand_in(), p - 10));
            assert(text.subrange(p - 10, p + 4)[10] == text[p]);
        }
    }
}

/// Whether tags and bodies belong together wherever a text is put.
spec fn settled(text: Seq<char>) -> bool {
    &&& forall|b: int| 0 <= b < text.len() && #[trigger] text[b] == '!' ==> is_tagged(text, b - 11)
    &&& forall|q: int| #[trigger] stands_at(text, tag(), q) ==> is_used(text, q)
    &&& forall|q: int|
        0 <= q < text.len() && #[trigger] text[q] == '#' ==> q + 1 < text.len() && (text[q + 1]
            == '[' ==> q + 30 <= text.len())
}

/// Whether a text is settled and holds `n` tags.
spec fn counted(text: Seq<char>, n: nat) -> bool {
    settled(text) && tag_count(text) == n
}

/// Whether a character starts no attribute, ends no item and calls no macro.
spec fn quiet_char(c: char) -> bool {
    c != '!' && c != '#' && c != '}'
}

/// Whether a text starts no attribute, ends no item and calls no macro.
spec fn quiet(text: Seq<char>) -> bool {
    forall|k: int|
        0 <= k < text.len() ==> #[trigger] text[k] != '!' && text[k] != '}' && (text[k] == '#'
            ==> k + 1 < text.len() && text[k + 1] != '[')
}

/// Whether a text has quiet characters from `i` on.
spec fn quiet_from(text: Seq<char>, i: int) -> bool
    decreases text.len() - i,
{
    i >= text.len() || i < 0 || quiet_char(text[i]) && quiet_from(text, i + 1)
}

proof fn lemma_quiet_from(text: Seq<char>, i: int)
    requires
        0 <= i,
        quiet_from(text, i),
    ensures
        forall|k: int| i <= k < text.len() ==> quiet_char(#[trigger] text[k]),
    decreases text.len() - i,
{
    if i < text.len() {
        lemma_quiet_from(text, i + 1);
    }
}

proof fn lemma_tag_length()
    ensures
        tag().len() == 30,
        tag()[0] == '#',
        tag()[1] == '[',
        tag()[2] == 't',
        stand_in().len() == 14,
        stand_in()[11] == '!',
{
    reveal_strlit("#[toylang::emit_consumer_body]");
    reveal_strlit("unreachable!()");
}

proof fn lemma_bang_in(text: Seq<char>, p: int)
    requires
        stands_at(text, stand_in(), p),
    ensures
        0 <= p,
        p + 14 <= text.len(),
        text[p + 11] == '!',
{
    lemma_tag_length();
    assert(text.subrange(p, p + 14)[11] == text[p + 11]);
}

proof fn lemma_hash_in(text: Seq<char>, q: int)
    requires
        stands_at(text, tag(), q),
    ensures
        0 <= q,
        q + 30 <= text.len(),
        text[q] == '#',
        text[q + 1] == '[',
        text[q + 2] == 't',
{
    lemma_tag_length();
    assert(text.subrange(q, q + 30)[0] == text[q]);
    assert(text.subrange(q, q + 30)[1] == text[q + 1]);
    assert(text.subrange(q, q + 30)[2] == text[q + 2]);
}

proof fn lemma_no_tags(text: Seq<char>, n: nat)
    requires
        forall|q: int| !#[trigger] stands_at(text, tag(), q),
    ensures
        tags_before(text, n) == 0,
    decreases n,
{
    if n > 0 {
        lemma_no_tags(text, (n - 1) as nat);
    }
}

proof fn lemma_quiet_settled(text: Seq<char>)
    requires
        quiet(text),
    ensures
        counted(text, 0),
{
    assert forall|q: int| !#[trigger] stands_at(text, tag(), q) by {
        if stands_at(text, tag(), q) {
            lemma_hash_in(text, q);
        }
    }
    lemma_no_tags(text, text.len());
}

proof fn lemma_tag_of_shifted(text: Seq<char>, whole: Seq<char>, at: int, q: int, p: int)
    requires
        0 <= at,
        at + text.len() <= whole.len(),
        whole.subrange(at, at + text.len()) == text,
        tag_of(text, q, p),
    ensures
        tag_of(whole, q + at, p + at),
{
    lemma_tag_length();
    assert(whole.subrange(q + at, q + at + 30) =~= text.subrange(q, q + 30)) by {
        assert forall|k: int| 0 <= k < 30 implies #[trigger] whole.subrange(q + at, q + at + 30)[k]
            == text.subrange(q, q + 30)[k] by {
            assert(whole.subrange(at, at + text.len())[q + k] == whole[at + (q + k)]);
        }
    }
    assert(whole.subrange(p + at, p + at + 14) =~= text.subrange(p, p + 14)) by {
        assert forall|k: int| 0 <= k < 14 implies #[trigger] whole.subrange(p + at, p + at + 14)[k]
            == text.subrange(p, p + 14)[k] by {
            assert(whole.subrange(at, at + text.len())[p + k] == whole[at + (p + k)]);
        }
    }
    assert forall|k: int| q + at < k < p + at implies !#[trigger] is_mark(whole, k) by {
        assert(whole.subrange(at, at + text.len())[k - at] == whole[k]);
        assert(whole.subrange(at, at + text.len())[k - at + 1] == whole[k + 1]);
        assert(!is_mark(text, k - at));
    }
}

proof fn lemma_shifted(text: Seq<char>, whole: Seq<char>, at: int, p: int)
    requires
        0 <= at,
        at + text.len() <= whole.len(),
        whole.subrange(at, at + text.len()) == text,
        is_tagged(text, p),
    ensures
        is_tagged(whole, p + at),
{
    let q = choose|q: int| tag_of(text, q, p);
    lemma_tag_of_shifted(text, whole, at, q, p);
}

proof fn lemma_used_shifted(text: Seq<char>, whole: Seq<char>, at: int, q: int)
    requires
        0 <= at,
        0 <= q,
        q + 30 <= text.len(),
        at + text.len() <= whole.len(),
        whole.subrange(at, at + text.len()) == text,
        stands_at(whole, tag(), q + at),
        stands_at(text, tag(), q) ==> is_used(text, q),
    ensures
        is_used(whole, q + at),
{
    lemma_tag_length();
    assert(text.subrange(q, q + 30) =~= whole.subrange(q + at, q + at + 30));
    let p = choose|p: int| tag_of(text, q, p);
    lemma_tag_of_shifted(text, whole, at, q, p);
}

/// Where the tag stands in two texts put together: where it stands in one of
/// them.
proof fn lemma_stands_in_first(a: Seq<char>, b: Seq<char>, q: int)
    requires
        settled(a),
        0 <= q < a.len(),
    ensures
        stands_at(a + b, tag(), q) == stands_at(a, tag(), q),
{
    let t = a + b;
    lemma_tag_length();
    if stands_at(t, tag(), q) {
        lemma_hash_in(t, q);
        assert(a[q] == '#');
        assert(a[q + 1] == t[q + 1]);
        assert(a.subrange(q, q + 30) =~= t.subrange(q, q + 30));
    }
    if stands_at(a, tag(), q) {
        assert(a.subrange(q, q + 30) =~= t.subrange(q, q + 30));
    }
}

proof fn lemma_stands_in_second(a: Seq<char>, b: Seq<char>, q: int)
    requires
        0 <= q,
    ensures
        stands_at(a + b, tag(), q + a.len()) == stands_at(b, tag(), q),
{
    lemma_tag_length();
    let t = a + b;
    if q + 30 <= b.len() {
        assert(b.subrange(q, q + 30) =~= t.subrange(q + a.len(), q + a.len() + 30));
    }
}

proof fn lemma_count_first(a: Seq<char>, b: Seq<char>, n: nat)
    requires
        settled(a),
        n <= a.len(),
    ensures
        tags_before(a + b, n) == tags_before(a, n),
    decreases n,
{
    if n > 0 {
        lemma_count_first(a, b, (n - 1) as nat);
        lemma_stands_in_first(a, b, n - 1);
    }
}

proof fn lemma_count_both(a: Seq<char>, b: Seq<char>, n: nat)
    requires
        settled(a),
        n <= b.len(),
    ensures
        tags_before(a + b, a.len() + n) == tag_count(a) + tags_before(b, n),
    decreases n,
{
    if n == 0 {
        lemma_count_first(a, b, a.len());
    } else {
        lemma_count_both(a, b, (n - 1) as nat);
        lemma_stands_in_second(a, b, n - 1);
        assert(a.len() + n - 1 == n - 1 + a.len());
    }
}

proof fn lemma_join(a: Seq<char>, b: Seq<char>)
    requires
        settled(a),
        settled(b),
    ensures
        counted(a + b, tag_count(a) + tag_count(b)),
{
    let t = a + b;
    let n = a.len() as int;
    lemma_count_both(a, b, b.len());
    assert(t.subrange(0, n) =~= a);
    assert(t.subrange(n, n + b.len()) =~= b);
    assert forall|x: int| 0 <= x < t.len() && #[trigger] t[x] == '!' implies is_tagged(
        t,
        x - 11,
    ) by {
        if x < n {
            assert(a[x] == '!');
            lemma_shifted(a, t, 0, x - 11);
        } else {
            assert(b[x - n] == '!');
            lemma_shifted(b, t, n, x - n - 11);
        }
    }
    assert forall|q: int| 0 <= q < t.len() && #[trigger] t[q] == '#' implies q + 1 < t.len() && (
    t[q + 1] == '[' ==> q + 30 <= t.len()) by {
        if q < n {
            assert(a[q] == '#');
            assert(a[q + 1] == t[q + 1]);
        } else {
            assert(b[q - n] == '#');
            assert(b[q - n + 1] == t[q + 1]);
        }
    }
    assert forall|q: int| #[trigger] stands_at(t, tag(), q) implies is_used(t, q) by {
        lemma_hash_in(t, q);
        if q < n {
            assert(a[q] == '#');
            assert(a[q + 1] == t[q + 1]);
            lemma_used_shifted(a, t, 0, q);
        } else {
            assert(b[q - n] == '#');
            assert(b[q - n + 1] == t[q + 1]);
            lemma_used_shifted(b, t, n, q - n);
        }
    }
}

proof fn lemma_tagged(signature: Seq<char>)
    requires
        quiet(signature),
    ensures
        counted(tagged_fn(signature), 1),
{
    let text = tagged_fn(signature);
    let head = "#[toylang::emit_consumer_body]\n"@;
    let foot = " { unreachable!() }\n"@;
    let n = (head.len() + signature.len()) as int;
    lemma_tag_length();
    reveal_strlit("#[toylang::emit_consumer_body]\n");
    reveal_strlit("#[toylang::emit_consumer_body]");
    reveal_strlit(" { unreachable!() }\n");
    reveal_strlit("unreachable!()");
    assert(head.len() == 31);
    assert(foot.len() == 20);
    assert(text.subrange(0, 30) =~= tag());
    assert(text.subrange(n + 3, n + 17) =~= stand_in()) by {
        assert(foot.subrange(3, 17) =~= stand_in());
        assert forall|k: int| 0 <= k < 14 implies #[trigger] text.subrange(n + 3, n + 17)[k]
            == foot.subrange(3, 17)[k] by {}
    }
    reveal_with_fuel(quiet_from, 32);
    assert(quiet_from(head, 1));
    lemma_quiet_from(head, 1);
    assert forall|k: int| 0 < k < n + 3 implies !#[trigger] is_mark(text, k) by {
        if k < 31 {
            assert(quiet_char(head[k]));
        } else if k < n {
            assert(text[k] == signature[k - 31]);
            if text[k] == '#' {
                assert(text[k + 1] == signature[k - 31 + 1]);
            }
        } else {
            assert(text[k] == foot[k - n]);
        }
    }
    assert(tag_of(text, 0, n + 3));
    assert forall|b: int| 0 <= b < text.len() && #[trigger] text[b] == '!' implies is_tagged(
        text,
        b - 11,
    ) by {
        if b < n + 3 {
            assert(b == 0 || !is_mark(text, b));
            assert(text[0] == '#');
        } else {
            let k = b - n;
            assert(text[b] == foot[k]);
            lemma_foot(k);
            assert(b - 11 == n + 3);
        }
    }
    assert forall|q: int| #[trigger] stands_at(text, tag(), q) implies q == 0 by {
        lemma_hash_in(text, q);
        lemma_hash_first(signature, q);
    }
    assert(stands_at(text, tag(), 0));
    assert forall|q: int| 0 <= q < text.len() && #[trigger] text[q] == '#' implies q + 1
        < text.len() && (text[q + 1] == '[' ==> q + 30 <= text.len()) by {
        lemma_hash_first(signature, q);
    }
    lemma_one_tag(text, text.len());
}

/// A text with one tag, at its start.
proof fn lemma_one_tag(text: Seq<char>, n: nat)
    requires
        stands_at(text, tag(), 0),
        forall|q: int| #[trigger] stands_at(text, tag(), q) ==> q == 0,
        n > 0,
    ensures
        tags_before(text, n) == 1,
    decreases n,
{
    if n > 1 {
        lemma_one_tag(text, (n - 1) as nat);
    } else {
        assert(tags_before(text, 0) == 0);
    }
}

/// The only `!` of what ends a tagged function, which holds no `#`.
proof fn lemma_foot(k: int)
    requires
        0 <= k < " { unreachable!() }\n"@.len(),
    ensures
        " { unreachable!() }\n"@[k] == '!' ==> k == 14,
        " { unreachable!() }\n"@[k] != '#',
{
    reveal_strlit(" { unreachable!() }\n");
    let foot = " { unreachable!() }\n"@;
    if k < 5 {
        assert(k == 0 || k == 1 || k == 2 || k == 3 || k == 4);
    } else if k < 10 {
        assert(k == 5 || k == 6 || k == 7 || k == 8 || k == 9);
    } else if k < 15 {
        assert(k == 10 || k == 11 || k == 12 || k == 13 || k == 14);
    } else {
        assert(k == 15 || k == 16 || k == 17 || k == 18 || k == 19);
    }
}

proof fn lemma_hash_first(signature: Seq<char>, q: int)
    requires
        quiet(signature),
        0 <= q < tagged_fn(signature).len(),
        tagged_fn(signature)[q] == '#',
    ensures
        tagged_fn(signature).len() >= 51,
        q + 1 < tagged_fn(signature).len(),
        tagged_fn(signature)[q + 1] == '[' ==> q == 0,
{
    let text = tagged_fn(signature);
    let head = "#[toylang::emit_consumer_body]\n"@;
    reveal_strlit("#[toylang::emit_consumer_body]\n");
    reveal_strlit(" { unreachable!() }\n");
    let n = (head.len() + signature.len()) as int;
    reveal_with_fuel(quiet_from, 32);
    assert(quiet_from(head, 1));
    lemma_quiet_from(head, 1);
    if q < 31 {
        assert(q == 0 || quiet_char(head[q]));
    } else if q < n {
        assert(text[q] == signature[q - 31]);
        assert(text[q + 1] == signature[q - 31 + 1]);
    } else {
        lemma_foot(q - n);
        assert(text[q] == " { unreachable!() }\n"@[q - n]);
    }
}

/// The pieces that a stub crate is written with are quiet.
proof fn lemma_pieces()
    ensures
        quiet("<"@),
        quiet(", "@),
        quiet(">"@),
        quiet("i32"@),
        quiet("i64"@),
        quiet("f64"@),
        quiet("bool"@),
        quiet("usize"@),
        quiet("()"@),
        quiet("str"@),
        quiet("[u8]"@),
        quiet("&"@),
        quiet(": "@),
        quiet("pub use "@),
        quiet(";\n"@),
        quiet("pub struct "@),
        quiet("(__ToylangOpaque<"@),
        quiet("u64>, std::marker::PhantomData<("@),
        quiet(")>,);\n"@),
        quiet("pub fn "@),
        quiet("(&self) -> &"@),
        quiet("impl"@),
        quiet(" "@),
        quiet(" {\n"@),
        quiet("("@),
        quiet(") -> "@),
        quiet("extern \"C\" {\n"@),
        quiet(" + "@),
        quiet("fn "@),
        quiet("(&mut self, "@),
        quiet("(&self, "@),
        quiet(" for "@),
        quiet("__toylang_main"@),
        quiet("::"@),
        quiet("_"@),
        quiet("self"@),
        quiet("Self"@),
        quiet("super"@),
        quiet("crate"@),
        quiet("true"@),
        quiet("false"@),
{
    reveal_with_fuel(quiet_from, 34);
    reveal_strlit("<");
    lemma_quiet_from("<"@, 0);
    reveal_strlit(", ");
    lemma_quiet_from(", "@, 0);
    reveal_strlit(">");
    lemma_quiet_from(">"@, 0);
    reveal_strlit("i32");
    lemma_quiet_from("i32"@, 0);
    reveal_strlit("i64");
    lemma_quiet_from("i64"@, 0);
    reveal_strlit("f64");
    lemma_quiet_from("f64"@, 0);
    reveal_strlit("bool");
    lemma_quiet_from("bool"@, 0);
    reveal_strlit("usize");
    lemma_quiet_from("usize"@, 0);
    reveal_strlit("()");
    lemma_quiet_from("()"@, 0);
    reveal_strlit("str");
    lemma_quiet_from("str"@, 0);
    reveal_strlit("[u8]");
    lemma_quiet_from("[u8]"@, 0);
    reveal_strlit("&");
    lemma_quiet_from("&"@, 0);
    reveal_strlit(": ");
    lemma_quiet_from(": "@, 0);
    reveal_strlit("pub use ");
    lemma_quiet_from("pub use "@, 0);
    reveal_strlit(";\n");
    lemma_quiet_from(";\n"@, 0);
    reveal_strlit("pub struct ");
    lemma_quiet_from("pub struct "@, 0);
    reveal_strlit("(__ToylangOpaque<");
    lemma_quiet_from("(__ToylangOpaque<"@, 0);
    reveal_strlit("u64>, std::marker::PhantomData<(");
    lemma_quiet_from("u64>, std::marker::PhantomData<("@, 0);
    reveal_strlit(")>,);\n");
    lemma_quiet_from(")>,);\n"@, 0);
    reveal_strlit("pub fn ");
    lemma_quiet_from("pub fn "@, 0);
    reveal_strlit("(&self) -> &");
    lemma_quiet_from("(&self) -> &"@, 0);
    reveal_strlit("impl");
    lemma_quiet_from("impl"@, 0);
    reveal_strlit(" ");
    lemma_quiet_from(" "@, 0);
    reveal_strlit(" {\n");
    lemma_quiet_from(" {\n"@, 0);
    reveal_strlit("(");
    lemma_quiet_from("("@, 0);
    reveal_strlit(") -> ");
    lemma_quiet_from(") -> "@, 0);
    reveal_strlit("extern \"C\" {\n");
    lemma_quiet_from("extern \"C\" {\n"@, 0);
    reveal_strlit(" + ");
    lemma_quiet_from(" + "@, 0);
    reveal_strlit("fn ");
    lemma_quiet_from("fn "@, 0);
    reveal_strlit("(&mut self, ");
    lemma_quiet_from("(&mut self, "@, 0);
    reveal_strlit("(&self, ");
    lemma_quiet_from("(&self, "@, 0);
    reveal_strlit(" for ");
    lemma_quiet_from(" for "@, 0);
    reveal_strlit("__toylang_main");
    lemma_quiet_from("__toylang_main"@, 0);
    reveal_strlit("::");
    lemma_quiet_from("::"@, 0);
    reveal_strlit("_");
    lemma_quiet_from("_"@, 0);
    reveal_strlit("self");
    lemma_quiet_from("self"@, 0);
    reveal_strlit("Self");
    lemma_quiet_from("Self"@, 0);
    reveal_strlit("super");
    lemma_quiet_from("super"@, 0);
    reveal_strlit("crate");
    lemma_quiet_from("crate"@, 0);
    reveal_strlit("true");
    lemma_quiet_from("true"@, 0);
    reveal_strlit("false");
    lemma_quiet_from("false"@, 0);
}

proof fn lemma_two(a: Seq<char>, b: Seq<char>)
    requires
        quiet(a),
        quiet(b),
    ensures
        quiet(a + b),
{
    let t = a + b;
    assert forall|k: int| 0 <= k < t.len() implies #[trigger] t[k] != '!' && t[k] != '}' && (t[k]
        == '#' ==> k + 1 < t.len() && t[k + 1] != '[') by {
        if k < a.len() {
            assert(t[k] == a[k]);
            if a[k] == '#' {
                assert(t[k + 1] == a[k + 1]);
            }
        } else {
            let i = k - a.len();
            assert(t[k] == b[i]);
            if b[i] == '#' {
                assert(t[k + 1] == b[i + 1]);
            }
        }
    }
}

proof fn lemma_word(s: Seq<char>)
    requires
        is_word(s),
    ensures
        quiet(s),
{
    if is_bare_word(s) {
        assert forall|k: int| 0 <= k < s.len() implies quiet_char(#[trigger] s[k]) by {
            assert(word_char(s[k]));
        }
    } else {
        let bare = s.skip(2);
        assert forall|k: int| 0 <= k < s.len() implies #[trigger] s[k] != '!' && s[k] != '}' && (
        s[k] == '#' ==> k + 1 < s.len() && s[k + 1] != '[') by {
            if k >= 2 {
                assert(bare[k - 2] == s[k]);
                assert(word_char(bare[k - 2]));
            } else if k == 1 {
                assert(bare[0] == s[2]);
                assert(word_char(bare[0]));
            }
        }
    }
}

proof fn lemma_trait_name(s: Seq<char>)
    requires
        names_trait(s),
    ensures
        quiet(s),
{
    lemma_pieces();
    if is_name(s) {
        lemma_word(s);
    }
}

proof fn lemma_type_name(s: Seq<char>)
    requires
        names_type(s),
    ensures
        quiet(s),
{
    lemma_pieces();
    if names_trait(s) {
        lemma_trait_name(s);
    }
}

proof fn lemma_param_name(s: Seq<char>)
    requires
        names_param(s),
    ensures
        quiet(s),
{
    lemma_pieces();
    if names_type(s) {
        lemma_type_name(s);
    }
}

proof fn lemma_joined(parts: Seq<Seq<char>>, separator: Seq<char>)
    requires
        quiet(separator),
        forall|i: int| 0 <= i < parts.len() ==> quiet(#[trigger] parts[i]),
    ensures
        quiet(joined(parts, separator)),
    decreases parts.len(),
{
    if parts.len() > 0 {
        let before = parts.drop_last();
        assert forall|i: int| 0 <= i < before.len() implies quiet(#[trigger] before[i]) by {
            assert(before[i] == parts[i]);
        }
        lemma_joined(before, separator);
        assert(quiet(parts[parts.len() - 1]));
        lemma_two(joined(before, separator), separator);
        lemma_two(joined(before, separator) + separator, parts.last());
    }
}

proof fn lemma_generics(names: Seq<Seq<char>>)
    requires
        forall|i: int| 0 <= i < names.len() ==> quiet(#[trigger] names[i]),
    ensures
        quiet(joined(names, ", "@)),
        quiet(generics_text(names)),
{
    lemma_pieces();
    lemma_joined(names, ", "@);
    lemma_two("<"@, joined(names, ", "@));
    lemma_two("<"@ + joined(names, ", "@), ">"@);
}

proof fn lemma_names(names: Seq<Seq<char>>)
    requires
        all_names(names),
    ensures
        quiet(joined(names, ", "@)),
        quiet(generics_text(names)),
{
    assert forall|i: int| 0 <= i < names.len() implies quiet(#[trigger] names[i]) by {
        lemma_word(names[i]);
    }
    lemma_generics(names);
}

proof fn lemma_type_names(names: Seq<Seq<char>>)
    requires
        all_name_types(names),
    ensures
        quiet(generics_text(names)),
{
    assert forall|i: int| 0 <= i < names.len() implies quiet(#[trigger] names[i]) by {
        lemma_type_name(names[i]);
    }
    lemma_generics(names);
}

proof fn lemma_type(t: SourceTypeView)
    requires
        type_in_words(t),
    ensures
        quiet(type_text(t)),
    decreases t,
{
    lemma_pieces();
    match t {
        SourceTypeView::TypeParam(name) => {
            lemma_type_name(name);
        },
        SourceTypeView::StructRef { name, type_args } => {
            lemma_type_name(name);
            lemma_types(type_args);
            lemma_two(name, "<"@);
            lemma_two(name + "<"@, types_text(type_args));
            lemma_two(name + "<"@ + types_text(type_args), ">"@);
        },
        SourceTypeView::RustType { name, type_args } => {
            lemma_type_name(name);
            lemma_types(type_args);
            lemma_two(name, "<"@);
            lemma_two(name + "<"@, types_text(type_args));
            lemma_two(name + "<"@ + types_text(type_args), ">"@);
        },
        SourceTypeView::Ref { inner } => {
            lemma_type(*inner);
            lemma_two("&"@, type_text(*inner));
        },
        _ => {},
    }
}

proof fn lemma_types(ts: Seq<SourceTypeView>)
    requires
        types_in_words(ts),
    ensures
        quiet(types_text(ts)),
    decreases ts,
{
    if ts.len() > 0 {
        lemma_pieces();
        lemma_types(ts.drop_last());
        lemma_type(ts.last());
        lemma_two(types_text(ts.drop_last()), ", "@);
        lemma_two(types_text(ts.drop_last()) + ", "@, type_text(ts.last()));
    }
}

proof fn lemma_params(ps: Seq<ToyParamView>)
    requires
        params_in_words(ps),
    ensures
        quiet(params_text(ps)),
    decreases ps.len(),
{
    if ps.len() > 0 {
        lemma_pieces();
        let before = ps.drop_last();
        assert forall|i: int| 0 <= i < before.len() implies names_param(
            (#[trigger] before[i]).name,
        ) && type_in_words(before[i].ty) by {
            assert(before[i] == ps[i]);
        }
        lemma_params(before);
        let p = ps[ps.len() - 1];
        lemma_param_name(p.name);
        lemma_type(p.ty);
        lemma_two(p.name, ": "@);
        lemma_two(p.name + ": "@, type_text(p.ty));
        lemma_two(params_text(before), ", "@);
        lemma_two(params_text(before) + ", "@, p.name + ": "@ + type_text(p.ty));
    }
}

proof fn lemma_return(t: Option<SourceTypeView>)
    requires
        return_in_words(t),
    ensures
        quiet(return_text(t)),
{
    lemma_pieces();
    match t {
        Some(ty) => {
            lemma_type(ty);
        },
        None => {},
    }
}

proof fn lemma_first_blanks(s: Seq<char>)
    requires
        quiet(without_first_blanks(s)),
    ensures
        quiet(s),
    decreases s.len(),
{
    if without_first_blanks(s) != s {
        lemma_first_blanks(s.drop_first());
        assert(quiet(seq![s[0]]));
        lemma_two(seq![s[0]], s.drop_first());
        assert(seq![s[0]] + s.drop_first() =~= s);
    }
}

proof fn lemma_last_blanks(s: Seq<char>)
    requires
        quiet(without_last_blanks(s)),
    ensures
        quiet(s),
    decreases s.len(),
{
    if without_last_blanks(s) != s {
        lemma_last_blanks(s.drop_last());
        assert(quiet(seq![s.last()]));
        lemma_two(s.drop_last(), seq![s.last()]);
        assert(s.drop_last() + seq![s.last()] =~= s);
    }
}

proof fn lemma_segment(s: Seq<char>)
    requires
        is_segment(s),
    ensures
        quiet(s),
{
    lemma_word(without_last_blanks(without_first_blanks(s)));
    lemma_last_blanks(without_first_blanks(s));
    lemma_first_blanks(s);
}

proof fn lemma_segments(s: Seq<char>)
    requires
        is_segments(s),
    ensures
        quiet(s),
    decreases s.len(),
{
    match colons_at(s) {
        Some(i) if i + 2 <= s.len() => {
            let a = s.take(i as int);
            let b = s.skip((i + 2) as int);
            lemma_segment(a);
            lemma_segments(b);
            lemma_colons(s);
            lemma_behind_colons(b);
            assert(a + (seq![':', ':'] + b) =~= s);
            lemma_two(a, seq![':', ':'] + b);
        },
        _ => {
            lemma_segment(s);
        },
    }
}

proof fn lemma_behind_colons(s: Seq<char>)
    requires
        quiet(s),
    ensures
        quiet(seq![':', ':'] + s),
{
    assert(quiet(seq![':', ':']));
    lemma_two(seq![':', ':'], s);
}

proof fn lemma_path(s: Seq<char>)
    requires
        is_path(s),
    ensures
        quiet(s),
{
    let t = without_first_blanks(s);
    if t.len() >= 2 && t[0] == ':' && t[1] == ':' {
        lemma_segments(t.skip(2));
        lemma_behind_colons(t.skip(2));
        assert(seq![':', ':'] + t.skip(2) =~= t);
    } else {
        lemma_segments(t);
    }
    lemma_first_blanks(s);
}

/// What stands where the first `::` was found.
proof fn lemma_colons(s: Seq<char>)
    requires
        colons_at(s) is Some,
    ensures
        colons_at(s)->Some_0 + 2 <= s.len(),
        s[colons_at(s)->Some_0 as int] == ':',
        s[colons_at(s)->Some_0 as int + 1] == ':',
    decreases s.len(),
{
    if s.len() >= 2 && !(s[0] == ':' && s[1] == ':') {
        lemma_colons(s.drop_first());
        let i = colons_at(s.drop_first())->Some_0 as int;
        assert(s.drop_first()[i] == s[i + 1]);
        assert(s.drop_first()[i + 1] == s[i + 2]);
    }
}

proof fn lemma_imports(imports: Seq<Seq<char>>)
    requires
        forall|i: int| 0 <= i < imports.len() ==> is_path(#[trigger] imports[i]),
    ensures
        counted(imports_text(imports), 0),
    decreases imports.len(),
{
    if imports.len() == 0 {
        lemma_quiet_settled(imports_text(imports));
    } else {
        lemma_pieces();
        let before = imports.drop_last();
        assert forall|i: int| 0 <= i < before.len() implies is_path(#[trigger] before[i]) by {
            assert(before[i] == imports[i]);
        }
        lemma_imports(before);
        lemma_path(imports[imports.len() - 1]);
        lemma_quiet_settled("pub use "@);
        lemma_quiet_settled(imports.last());
        lemma_quiet_settled(";\n"@);
        lemma_join(imports_text(before), "pub use "@);
        lemma_join(imports_text(before) + "pub use "@, imports.last());
        lemma_join(imports_text(before) + "pub use "@ + imports.last(), ";\n"@);
    }
}

proof fn lemma_digits(n: nat)
    ensures
        quiet(digits_of(n)),
        forall|k: int| 0 <= k < digits_of(n).len() ==> quiet_char(#[trigger] digits_of(n)[k]),
    decreases n,
{
    if n >= 10 {
        lemma_digits(n / 10);
        let before = digits_of(n / 10);
        assert forall|k: int| 0 <= k < digits_of(n).len() implies quiet_char(
            #[trigger] digits_of(n)[k],
        ) by {
            if k < before.len() {
                assert(quiet_char(before[k]));
            }
        }
    }
}

proof fn lemma_struct(name: Seq<char>, d: ToyStructView)
    requires
        is_name(name),
        struct_in_words(d),
    ensures
        quiet(struct_text(name, d)),
{
    lemma_pieces();
    lemma_word(name);
    lemma_names(d.type_params);
    let id = digits_of(type_id(name, Seq::empty()) as nat);
    lemma_digits(type_id(name, Seq::empty()) as nat);
    let t1 = "pub struct "@ + name;
    lemma_two("pub struct "@, name);
    let t2 = t1 + generics_text(d.type_params);
    lemma_two(t1, generics_text(d.type_params));
    let t3 = t2 + "(__ToylangOpaque<"@;
    lemma_two(t2, "(__ToylangOpaque<"@);
    let t4 = t3 + id;
    lemma_two(t3, id);
    let t5 = t4 + "u64>, std::marker::PhantomData<("@;
    lemma_two(t4, "u64>, std::marker::PhantomData<("@);
    let t6 = t5 + joined(d.type_params, ", "@);
    lemma_two(t5, joined(d.type_params, ", "@));
    lemma_two(t6, ")>,);\n"@);
}

proof fn lemma_structs(ds: Seq<(Seq<char>, ToyStructView)>)
    requires
        forall|i: int|
            0 <= i < ds.len() ==> is_name((#[trigger] ds[i]).0) && struct_in_words(ds[i].1),
    ensures
        counted(structs_text(ds), 0),
    decreases ds.len(),
{
    if ds.len() == 0 {
        lemma_quiet_settled(structs_text(ds));
    } else {
        let before = ds.drop_last();
        assert forall|i: int| 0 <= i < before.len() implies is_name((#[trigger] before[i]).0)
            && struct_in_words(before[i].1) by {
            assert(before[i] == ds[i]);
        }
        lemma_structs(before);
        let d = ds[ds.len() - 1];
        lemma_struct(d.0, d.1);
        lemma_quiet_settled(struct_text(d.0, d.1));
        lemma_join(structs_text(before), struct_text(d.0, d.1));
    }
}

proof fn lemma_accessor(f: ToyFieldView)
    requires
        is_name(f.name),
        type_in_words(f.rust_type),
    ensures
        counted(accessor_text(f), 1),
{
    lemma_pieces();
    lemma_word(f.name);
    lemma_type(f.rust_type);
    lemma_two("pub fn "@, f.name);
    lemma_two("pub fn "@ + f.name, "(&self) -> &"@);
    lemma_two("pub fn "@ + f.name + "(&self) -> &"@, type_text(f.rust_type));
    lemma_tagged("pub fn "@ + f.name + "(&self) -> &"@ + type_text(f.rust_type));
}

proof fn lemma_accessor_list(fs: Seq<ToyFieldView>)
    requires
        forall|i: int|
            0 <= i < fs.len() ==> is_name((#[trigger] fs[i]).name) && type_in_words(
                fs[i].rust_type,
            ),
    ensures
        counted(accessor_list(fs), fs.len()),
    decreases fs.len(),
{
    if fs.len() == 0 {
        lemma_quiet_settled(accessor_list(fs));
    } else {
        let before = fs.drop_last();
        assert forall|i: int| 0 <= i < before.len() implies is_name((#[trigger] before[i]).name)
            && type_in_words(before[i].rust_type) by {
            assert(before[i] == fs[i]);
        }
        lemma_accessor_list(before);
        lemma_accessor(fs[fs.len() - 1]);
        lemma_join(accessor_list(before), accessor_text(fs.last()));
    }
}

/// What ends an impl.
proof fn lemma_end()
    ensures
        counted("}\n"@, 0),
{
    reveal_strlit("}\n");
    let text = "}\n"@;
    assert forall|b: int| 0 <= b < text.len() implies #[trigger] text[b] != '!' && text[b] != '#' by {
        assert(b == 0 || b == 1);
    }
    assert forall|q: int| !#[trigger] stands_at(text, tag(), q) by {
        if stands_at(text, tag(), q) {
            lemma_hash_in(text, q);
        }
    }
    lemma_no_tags(text, text.len());
}

proof fn lemma_accessors(ds: Seq<(Seq<char>, ToyStructView)>)
    requires
        forall|i: int|
            0 <= i < ds.len() ==> is_name((#[trigger] ds[i]).0) && struct_in_words(ds[i].1),
    ensures
        counted(accessors_text(ds), field_count(ds)),
    decreases ds.len(),
{
    if ds.len() == 0 {
        lemma_quiet_settled(accessors_text(ds));
    } else {
        let before = ds.drop_last();
        assert forall|i: int| 0 <= i < before.len() implies is_name((#[trigger] before[i]).0)
            && struct_in_words(before[i].1) by {
            assert(before[i] == ds[i]);
        }
        lemma_accessors(before);
        let (name, d) = ds[ds.len() - 1];
        assert(ds.last() == (name, d));
        lemma_pieces();
        lemma_word(name);
        lemma_names(d.type_params);
        let g = generics_text(d.type_params);
        lemma_quiet_settled("impl"@);
        lemma_quiet_settled(g);
        lemma_quiet_settled(" "@);
        lemma_quiet_settled(name);
        lemma_quiet_settled(" {\n"@);
        lemma_accessor_list(d.fields);
        lemma_end();
        let t0 = accessors_text(before);
        let t1 = t0 + "impl"@;
        lemma_join(t0, "impl"@);
        let t2 = t1 + g;
        lemma_join(t1, g);
        let t3 = t2 + " "@;
        lemma_join(t2, " "@);
        let t4 = t3 + name;
        lemma_join(t3, name);
        let t5 = t4 + g;
        lemma_join(t4, g);
        let t6 = t5 + " {\n"@;
        lemma_join(t5, " {\n"@);
        let t7 = t6 + accessor_list(d.fields);
        lemma_join(t6, accessor_list(d.fields));
        lemma_join(t7, "}\n"@);
    }
}

proof fn lemma_declared(fs: Seq<(Seq<char>, ToyFunctionView)>)
    requires
        forall|i: int| 0 <= i < fs.len() ==> fn_in_words((#[trigger] fs[i]).0, fs[i].1),
    ensures
        quiet(declared_text(fs)),
    decreases fs.len(),
{
    if fs.len() > 0 {
        let before = fs.drop_last();
        assert forall|i: int| 0 <= i < before.len() implies fn_in_words(
            (#[trigger] before[i]).0,
            before[i].1,
        ) by {
            assert(before[i] == fs[i]);
        }
        lemma_declared(before);
        let (name, f) = fs[fs.len() - 1];
        assert(fs.last() == (name, f));
        if f.body is None {
            lemma_pieces();
            lemma_word(name);
            lemma_params(f.params);
            lemma_return(f.return_ty);
            let t0 = declared_text(before);
            let t1 = t0 + "pub fn "@;
            lemma_two(t0, "pub fn "@);
            let t2 = t1 + name;
            lemma_two(t1, name);
            let t3 = t2 + "("@;
            lemma_two(t2, "("@);
            let t4 = t3 + params_text(f.params);
            lemma_two(t3, params_text(f.params));
            let t5 = t4 + ") -> "@;
            lemma_two(t4, ") -> "@);
            let t6 = t5 + return_text(f.return_ty);
            lemma_two(t5, return_text(f.return_ty));
            lemma_two(t6, ";\n"@);
        }
    }
}

proof fn lemma_declared_block(fs: Seq<(Seq<char>, ToyFunctionView)>)
    requires
        forall|i: int| 0 <= i < fs.len() ==> fn_in_words((#[trigger] fs[i]).0, fs[i].1),
    ensures
        counted(declared_block(fs), 0),
{
    if declared_text(fs).len() == 0 {
        lemma_quiet_settled(declared_block(fs));
    } else {
        lemma_pieces();
        lemma_declared(fs);
        lemma_end();
        lemma_two("extern \"C\" {\n"@, declared_text(fs));
        lemma_quiet_settled("extern \"C\" {\n"@ + declared_text(fs));
        lemma_join("extern \"C\" {\n"@ + declared_text(fs), "}\n"@);
    }
}

proof fn lemma_exported(fs: Seq<(Seq<char>, ToyFunctionView)>)
    requires
        forall|i: int| 0 <= i < fs.len() ==> fn_in_words((#[trigger] fs[i]).0, fs[i].1),
    ensures
        counted(exported_text(fs), exported_count(fs)),
    decreases fs.len(),
{
    if fs.len() == 0 {
        lemma_quiet_settled(exported_text(fs));
    } else {
        let before = fs.drop_last();
        assert forall|i: int| 0 <= i < before.len() implies fn_in_words(
            (#[trigger] before[i]).0,
            before[i].1,
        ) by {
            assert(before[i] == fs[i]);
        }
        lemma_exported(before);
        let (name, f) = fs[fs.len() - 1];
        assert(fs.last() == (name, f));
        if f.body is Some && f.is_export {
            lemma_pieces();
            lemma_word(name);
            lemma_names(f.type_params);
            lemma_params(f.params);
            lemma_return(f.return_ty);
            let t1 = "pub fn "@ + stub_name(name);
            lemma_two("pub fn "@, stub_name(name));
            let t2 = t1 + generics_text(f.type_params);
            lemma_two(t1, generics_text(f.type_params));
            let t3 = t2 + "("@;
            lemma_two(t2, "("@);
            let t4 = t3 + params_text(f.params);
            lemma_two(t3, params_text(f.params));
            let t5 = t4 + ") -> "@;
            lemma_two(t4, ") -> "@);
            let t6 = t5 + return_text(f.return_ty);
            lemma_two(t5, return_text(f.return_ty));
            lemma_tagged(t6);
            lemma_join(exported_text(before), tagged_fn(t6));
        }
    }
}

proof fn lemma_bounds(
    bounds: Seq<(Seq<char>, Seq<char>)>,
    params: Seq<Seq<char>>,
    param: Seq<char>,
)
    requires
        bounds_in_words(bounds, params),
        params.contains(param),
    ensures
        forall|i: int|
            0 <= i < bounds_of(bounds, param).len() ==> quiet(
                #[trigger] bounds_of(bounds, param)[i],
            ),
    decreases bounds.len(),
{
    if bounds.len() > 0 {
        let before = bounds.drop_last();
        assert forall|i: int| 0 <= i < before.len() && params.contains(
            (#[trigger] before[i]).0,
        ) implies names_trait(before[i].1) by {
            assert(before[i] == bounds[i]);
        }
        lemma_bounds(before, params, param);
        let b = bounds[bounds.len() - 1];
        if b.0 == param {
            lemma_trait_name(b.1);
        }
        let all = bounds_of(bounds, param);
        assert forall|i: int| 0 <= i < all.len() implies quiet(#[trigger] all[i]) by {
            if i < bounds_of(before, param).len() {
                assert(all[i] == bounds_of(before, param)[i]);
            }
        }
    }
}

proof fn lemma_bounded(d: ToyImplView)
    requires
        impl_in_words(d),
        d.is_export,
    ensures
        quiet(generics_text(bounded_params(d))),
{
    lemma_pieces();
    let ps = bounded_params(d);
    assert forall|i: int| 0 <= i < ps.len() implies quiet(#[trigger] ps[i]) by {
        let param = d.type_params[i];
        let bs = bounds_of(d.type_param_bounds, param);
        lemma_word(param);
        lemma_bounds(d.type_param_bounds, d.type_params, param);
        lemma_joined(bs, " + "@);
        lemma_two(param, ": "@);
        lemma_two(param + ": "@, joined(bs, " + "@));
        assert(ps[i] == bounded_param(d.type_param_bounds, param));
    }
    lemma_generics(ps);
}

proof fn lemma_method(m: ToyImplMethodView)
    requires
        method_in_words(m),
    ensures
        counted(method_text(m), 1),
{
    lemma_pieces();
    lemma_word(m.name);
    let ps = tail(m.func.params);
    lemma_params(ps);
    lemma_return(m.func.return_ty);
    let receiver = if m.is_self_mut {
        "(&mut self, "@
    } else {
        "(&self, "@
    };
    let t1 = "fn "@ + m.name;
    lemma_two("fn "@, m.name);
    let t2 = t1 + receiver;
    lemma_two(t1, receiver);
    let t3 = t2 + params_text(ps);
    lemma_two(t2, params_text(ps));
    let t4 = t3 + ") -> "@;
    lemma_two(t3, ") -> "@);
    let t5 = t4 + return_text(m.func.return_ty);
    lemma_two(t4, return_text(m.func.return_ty));
    lemma_tagged(t5);
}

proof fn lemma_methods(ms: Seq<ToyImplMethodView>)
    requires
        forall|i: int| 0 <= i < ms.len() ==> method_in_words(#[trigger] ms[i]),
    ensures
        counted(methods_text(ms), ms.len()),
    decreases ms.len(),
{
    if ms.len() == 0 {
        lemma_quiet_settled(methods_text(ms));
    } else {
        let before = ms.drop_last();
        assert forall|i: int| 0 <= i < before.len() implies method_in_words(#[trigger] before[i]) by {
            assert(before[i] == ms[i]);
        }
        lemma_methods(before);
        lemma_method(ms[ms.len() - 1]);
        lemma_join(methods_text(before), method_text(ms.last()));
    }
}

proof fn lemma_impls(ds: Seq<ToyImplView>)
    requires
        forall|i: int| 0 <= i < ds.len() ==> impl_in_words(#[trigger] ds[i]),
    ensures
        counted(impls_text(ds), method_count(ds)),
    decreases ds.len(),
{
    if ds.len() == 0 {
        lemma_quiet_settled(impls_text(ds));
    } else {
        let before = ds.drop_last();
        assert forall|i: int| 0 <= i < before.len() implies impl_in_words(#[trigger] before[i]) by {
            assert(before[i] == ds[i]);
        }
        lemma_impls(before);
        let d = ds[ds.len() - 1];
        assert(ds.last() == d);
        if d.is_export {
            lemma_pieces();
            lemma_bounded(d);
            lemma_trait_name(d.trait_name);
            lemma_type_name(d.self_type_name);
            lemma_type_names(d.self_type_args);
            lemma_methods(d.methods);
            lemma_end();
            let g = generics_text(bounded_params(d));
            let a = generics_text(d.self_type_args);
            lemma_quiet_settled("impl"@);
            lemma_quiet_settled(g);
            lemma_quiet_settled(" "@);
            lemma_quiet_settled(d.trait_name);
            lemma_quiet_settled(" for "@);
            lemma_quiet_settled(d.self_type_name);
            lemma_quiet_settled(a);
            lemma_quiet_settled(" {\n"@);
            let t0 = impls_text(before);
            let t1 = t0 + "impl"@;
            lemma_join(t0, "impl"@);
            let t2 = t1 + g;
            lemma_join(t1, g);
            let t3 = t2 + " "@;
            lemma_join(t2, " "@);
            let t4 = t3 + d.trait_name;
            lemma_join(t3, d.trait_name);
            let t5 = t4 + " for "@;
            lemma_join(t4, " for "@);
            let t6 = t5 + d.self_type_name;
            lemma_join(t5, d.self_type_name);
            let t7 = t6 + a;
            lemma_join(t6, a);
            let t8 = t7 + " {\n"@;
            lemma_join(t7, " {\n"@);
            let t9 = t8 + methods_text(d.methods);
            lemma_join(t8, methods_text(d.methods));
            lemma_join(t9, "}\n"@);
        }
    }
}

proof fn lemma_prelude()
    ensures
        counted(prelude_text(), 0),
{
    reveal_strlit(
        "pub const __SKY_STUBS_MARKER: () = ();\npub struct __ToylangOpaque<const T: u64>;\n",
    );
    reveal_with_fuel(quiet_from, 90);
    lemma_quiet_from(prelude_text(), 0);
    lemma_quiet_settled(prelude_text());
}

/// Whether a text has no `!` from `i` on, and no `#` but those of other
/// attributes.
spec fn untagged_from(text: Seq<char>, i: int) -> bool
    decreases text.len() - i,
{
    i >= text.len() || i < 0 || {
        &&& text[i] != '!'
        &&& text[i] == '#' ==> i + 30 <= text.len() && text[i + 2] != 't'
        &&& untagged_from(text, i + 1)
    }
}

proof fn lemma_untagged_from(text: Seq<char>, i: int)
    requires
        0 <= i,
        untagged_from(text, i),
    ensures
        forall|k: int|
            i <= k < text.len() ==> #[trigger] text[k] != '!' && (text[k] == '#' ==> k + 30
                <= text.len() && text[k + 2] != 't'),
    decreases text.len() - i,
{
    if i < text.len() {
        lemma_untagged_from(text, i + 1);
    }
}

proof fn lemma_untagged(text: Seq<char>)
    requires
        untagged_from(text, 0),
    ensures
        counted(text, 0),
{
    lemma_untagged_from(text, 0);
    assert forall|q: int| !#[trigger] stands_at(text, tag(), q) by {
        if stands_at(text, tag(), q) {
            lemma_hash_in(text, q);
        }
    }
    lemma_no_tags(text, text.len());
}

proof fn lemma_drop(imports: Seq<Seq<char>>)
    ensures
        counted(drop_text(imports), 0),
{
    reveal_strlit("#[allow(unused_imports)]\npub use core::ops::Drop;\n");
    let text = "#[allow(unused_imports)]\npub use core::ops::Drop;\n"@;
    reveal_with_fuel(untagged_from, 30);
    assert(untagged_from(text, 40));
    assert(untagged_from(text, 20));
    lemma_untagged(text);
    lemma_quiet_settled(Seq::empty());
}

#[verifier::spinoff_prover]
proof fn lemma_helpers()
    ensures
        counted(helpers_text(), 0),
{
    reveal_strlit(
        "#[inline(never)]\npub unsafe fn __toylang_option_unwrap<T>(o: *mut core::option::Option<T>) -> T { core::ptr::read(o).unwrap() }\n#[inline(never)]\npub unsafe fn __toylang_result_unwrap<T, E: core::fmt::Debug>(r: *mut core::result::Result<T, E>) -> T { core::ptr::read(r).unwrap() }\n",
    );
    let text = helpers_text();
    reveal_with_fuel(untagged_from, 60);
    assert(untagged_from(text, 230));
    assert(untagged_from(text, 180));
    assert(untagged_from(text, 130));
    assert(untagged_from(text, 80));
    assert(untagged_from(text, 40));
    lemma_untagged(text);
}

} // verus!
