//! What holds of validation: all that is wrong is reported, and nothing else.
use crate::text::{lemma_text_lt_irreflexive, lemma_text_lt_total, lemma_text_lt_transitive, text_lt};
use crate::toylang::answers::RustAnswersView;
use crate::toylang::callbacks_impl::{effective, stub_name};
use crate::toylang::registry::{DiscoveredView, RegistryView, ToyFieldView, ToyFunctionView, ToyImplMethodView, ToyImplView, ToyStructView};
use crate::toylang::type_resolve::{TypeResolveErrorView, Typing};
use crate::toylang::typed_ast::SourceTypeView;
use crate::toylang::validate::{
    args_key, body_error, declared_errors, discovery_precedes, field_errors, function_errors, impl_errors, insert_discovery, method_errors,
    name_errors, rust_type_names, rust_type_names_all, sorted_discoveries, struct_errors, stub_errors, type_errors, validation_errors,
    RustcFactsView, ValidationErrorView,
};
use vstd::prelude::*;

verus! {

broadcast use {vstd::seq::group_seq_axioms, vstd::seq_lib::group_seq_properties};

/// Whether a type mentions a Rust type: it is the type, or an argument of a
/// type or what a reference refers to mentions it.
pub open spec fn mentions(t: SourceTypeView, rust_name: Seq<char>) -> bool
    decreases t,
{
    match t {
        SourceTypeView::RustType { name, type_args } => name == rust_name || any_mentions(
            type_args,
            rust_name,
        ),
        SourceTypeView::StructRef { name, type_args } => any_mentions(type_args, rust_name),
        SourceTypeView::Ref { inner } => mentions(*inner, rust_name),
        _ => false,
    }
}

/// Whether one of some types mentions a Rust type.
pub open spec fn any_mentions(ts: Seq<SourceTypeView>, rust_name: Seq<char>) -> bool
    decreases ts,
{
    ts.len() > 0 && (any_mentions(ts.drop_last(), rust_name) || mentions(ts.last(), rust_name))
}

/// Whether a struct has a field of that name whose type mentions a Rust type.
pub open spec fn field_mentions(
    fields: Seq<ToyFieldView>,
    field: Seq<char>,
    rust_name: Seq<char>,
) -> bool {
    exists|j: int|
        0 <= j < fields.len() && (#[trigger] fields[j]).name == field && mentions(
            fields[j].rust_type,
            rust_name,
        )
}

/// Whether a method of that name has a body with that error.
pub open spec fn method_wrong(
    ms: Seq<ToyImplMethodView>,
    method: Seq<char>,
    error: TypeResolveErrorView,
    cx: Typing,
) -> bool {
    exists|j: int|
        0 <= j < ms.len() && (#[trigger] ms[j]).name == method && body_error(""@, ms[j].func, cx)
            == Some(error)
}

/// Whether an error is one of a crate: something is wrong in the way that the
/// error says.
pub open spec fn is_wrong(
    e: ValidationErrorView,
    local: RegistryView,
    facts: RustcFactsView,
    cx: Typing,
) -> bool {
    match e {
        ValidationErrorView::StructNotFound { name } => exists|i: int|
            0 <= i < local.structs.len() && (#[trigger] local.structs[i]).0 == name
                && !facts.structs.contains(name),
        ValidationErrorView::NoStub { name, expected } => exists|i: int|
            0 <= i < local.functions.len() && {
                let (n, f) = #[trigger] local.functions[i];
                &&& n == name
                &&& f.body is Some
                &&& f.is_export
                &&& expected == (if name == "main"@ {
                    "__toylang_main"@
                } else {
                    name
                })
                &&& !facts.stub_fns.contains(expected)
            },
        ValidationErrorView::RustTypeNotFound { struct_name, field, rust_name } => {
            &&& !facts.rust_types.contains(rust_name)
            &&& exists|i: int|
                0 <= i < local.structs.len() && (#[trigger] local.structs[i]).0 == struct_name
                    && field_mentions(local.structs[i].1.fields, field, rust_name)
        },
        ValidationErrorView::DeclaredNotFound { name } => exists|i: int|
            0 <= i < local.functions.len() && (#[trigger] local.functions[i]).0 == name
                && local.functions[i].1.body is None && !facts.declared_fns.contains(name),
        ValidationErrorView::Function { name, error } => exists|i: int|
            0 <= i < local.functions.len() && (#[trigger] local.functions[i]).0 == name
                && body_error(name, local.functions[i].1, cx) == Some(error),
        ValidationErrorView::Method { trait_name, self_type, method, error } => exists|i: int|
            0 <= i < local.trait_impls.len() && (#[trigger] local.trait_impls[i]).trait_name
                == trait_name && local.trait_impls[i].self_type_name == self_type && method_wrong(
                local.trait_impls[i].methods,
                method,
                error,
                cx,
            ),
    }
}

/// An error is reported if and only if it is one of the crate.
#[verifier::spinoff_prover]
#[verifier::rlimit(40)]
pub proof fn lemma_reported(
    e: ValidationErrorView,
    local: RegistryView,
    upstreams: Seq<(Seq<char>, RegistryView)>,
    answers: RustAnswersView,
    facts: RustcFactsView,
)
    ensures
        validation_errors(local, upstreams, answers, facts).contains(e) <==> is_wrong(
            e,
            local,
            facts,
            Typing { registry: effective(local, upstreams), answers },
        ),
{
    let cx = Typing { registry: effective(local, upstreams), answers };
    let a = struct_errors(local.structs, facts);
    let b = stub_errors(local.functions, facts);
    let c = type_errors(local.structs, facts);
    let d = declared_errors(local.functions, facts);
    let f = function_errors(local.functions, cx);
    let g = impl_errors(local.trait_impls, cx);
    lemma_in_two(a, b, e);
    lemma_in_two(a + b, c, e);
    lemma_in_two(a + b + c, d, e);
    lemma_in_two(a + b + c + d, f, e);
    lemma_in_two(a + b + c + d + f, g, e);
    lemma_structs(e, local.structs, facts);
    lemma_stubs(e, local.functions, facts);
    lemma_types(e, local.structs, facts);
    lemma_declared(e, local.functions, facts);
    lemma_functions(e, local.functions, cx);
    lemma_impls(e, local.trait_impls, cx);
}

/// A crate has no errors if and only if nothing in it is wrong.
pub proof fn lemma_valid(
    local: RegistryView,
    upstreams: Seq<(Seq<char>, RegistryView)>,
    answers: RustAnswersView,
    facts: RustcFactsView,
)
    ensures
        validation_errors(local, upstreams, answers, facts).len() == 0 <==> forall|
            e: ValidationErrorView,
        |
            !#[trigger] is_wrong(
                e,
                local,
                facts,
                Typing { registry: effective(local, upstreams), answers },
            ),
{
    let all = validation_errors(local, upstreams, answers, facts);
    let cx = Typing { registry: effective(local, upstreams), answers };
    if all.len() == 0 {
        assert forall|e: ValidationErrorView| !#[trigger] is_wrong(e, local, facts, cx) by {
            lemma_reported(e, local, upstreams, answers, facts);
        }
    } else {
        lemma_reported(all[0], local, upstreams, answers, facts);
        assert(all.contains(all[0]));
    }
}

proof fn lemma_in_two(a: Seq<ValidationErrorView>, b: Seq<ValidationErrorView>, e: ValidationErrorView)
    ensures
        (a + b).contains(e) <==> a.contains(e) || b.contains(e),
{
    if a.contains(e) {
        let i = choose|i: int| 0 <= i < a.len() && a[i] == e;
        assert((a + b)[i] == e);
    }
    if b.contains(e) {
        let i = choose|i: int| 0 <= i < b.len() && b[i] == e;
        assert((a + b)[a.len() + i] == e);
    }
    if (a + b).contains(e) {
        let i = choose|i: int| 0 <= i < (a + b).len() && (a + b)[i] == e;
        if i < a.len() {
            assert(a[i] == e);
        } else {
            assert(b[i - a.len()] == e);
        }
    }
}

proof fn lemma_in_push(a: Seq<ValidationErrorView>, x: ValidationErrorView, e: ValidationErrorView)
    ensures
        a.push(x).contains(e) <==> a.contains(e) || e == x,
{
    lemma_in_two(a, seq![x], e);
    assert(a.push(x) =~= a + seq![x]);
    if e == x {
        assert(seq![x][0] == e);
    }
}

proof fn lemma_structs(
    e: ValidationErrorView,
    structs: Seq<(Seq<char>, ToyStructView)>,
    facts: RustcFactsView,
)
    ensures
        struct_errors(structs, facts).contains(e) <==> (e matches ValidationErrorView::StructNotFound {
            name,
        } && exists|i: int|
            0 <= i < structs.len() && (#[trigger] structs[i]).0 == name && !facts.structs.contains(
                name,
            )),
    decreases structs.len(),
{
    if structs.len() > 0 {
        let before = structs.drop_last();
        let n = structs.len() - 1;
        lemma_structs(e, before, facts);
        let x = ValidationErrorView::StructNotFound { name: structs.last().0 };
        lemma_in_push(struct_errors(before, facts), x, e);
        assert(structs[n] == structs.last());
        assert(forall|i: int| 0 <= i < n ==> before[i] == #[trigger] structs[i]);
        if let ValidationErrorView::StructNotFound { name } = e {
            if before.len() > 0 && exists|i: int|
                0 <= i < before.len() && (#[trigger] before[i]).0 == name
                    && !facts.structs.contains(name) {
                let i = choose|i: int|
                    0 <= i < before.len() && (#[trigger] before[i]).0 == name
                        && !facts.structs.contains(name);
                assert(structs[i].0 == name);
            }
        }
    }
}

proof fn lemma_stubs(
    e: ValidationErrorView,
    fs: Seq<(Seq<char>, ToyFunctionView)>,
    facts: RustcFactsView,
)
    ensures
        stub_errors(fs, facts).contains(e) <==> (e matches ValidationErrorView::NoStub {
            name,
            expected,
        } && exists|i: int|
            0 <= i < fs.len() && {
                let (n, f) = #[trigger] fs[i];
                &&& n == name
                &&& f.body is Some
                &&& f.is_export
                &&& expected == (if name == "main"@ {
                    "__toylang_main"@
                } else {
                    name
                })
                &&& !facts.stub_fns.contains(expected)
            }),
    decreases fs.len(),
{
    if fs.len() > 0 {
        let before = fs.drop_last();
        let n = fs.len() - 1;
        lemma_stubs(e, before, facts);
        let x = ValidationErrorView::NoStub {
            name: fs.last().0,
            expected: stub_name(fs.last().0),
        };
        lemma_in_push(stub_errors(before, facts), x, e);
        assert(fs[n] == fs.last());
        assert(forall|i: int| 0 <= i < n ==> before[i] == #[trigger] fs[i]);
        assert(forall|i: int| 0 <= i < n ==> #[trigger] before[i] == fs[i]);
    }
}

proof fn lemma_declared(
    e: ValidationErrorView,
    fs: Seq<(Seq<char>, ToyFunctionView)>,
    facts: RustcFactsView,
)
    ensures
        declared_errors(fs, facts).contains(e) <==> (e matches ValidationErrorView::DeclaredNotFound {
            name,
        } && exists|i: int|
            0 <= i < fs.len() && (#[trigger] fs[i]).0 == name && fs[i].1.body is None
                && !facts.declared_fns.contains(name)),
    decreases fs.len(),
{
    if fs.len() > 0 {
        let before = fs.drop_last();
        let n = fs.len() - 1;
        lemma_declared(e, before, facts);
        let x = ValidationErrorView::DeclaredNotFound { name: fs.last().0 };
        lemma_in_push(declared_errors(before, facts), x, e);
        assert(fs[n] == fs.last());
        assert(forall|i: int| 0 <= i < n ==> before[i] == #[trigger] fs[i]);
        assert(forall|i: int| 0 <= i < n ==> #[trigger] before[i] == fs[i]);
    }
}

proof fn lemma_functions(e: ValidationErrorView, fs: Seq<(Seq<char>, ToyFunctionView)>, cx: Typing)
    ensures
        function_errors(fs, cx).contains(e) <==> (e matches ValidationErrorView::Function {
            name,
            error,
        } && exists|i: int|
            0 <= i < fs.len() && (#[trigger] fs[i]).0 == name && body_error(name, fs[i].1, cx)
                == Some(error)),
    decreases fs.len(),
{
    if fs.len() > 0 {
        let before = fs.drop_last();
        let n = fs.len() - 1;
        lemma_functions(e, before, cx);
        if let Some(error) = body_error(fs.last().0, fs.last().1, cx) {
            let x = ValidationErrorView::Function { name: fs.last().0, error };
            lemma_in_push(function_errors(before, cx), x, e);
        }
        assert(fs[n] == fs.last());
        assert(forall|i: int| 0 <= i < n ==> before[i] == #[trigger] fs[i]);
        assert(forall|i: int| 0 <= i < n ==> #[trigger] before[i] == fs[i]);
    }
}

proof fn lemma_methods(
    e: ValidationErrorView,
    imp: ToyImplView,
    ms: Seq<ToyImplMethodView>,
    cx: Typing,
)
    ensures
        method_errors(imp, ms, cx).contains(e) <==> (e matches ValidationErrorView::Method {
            trait_name,
            self_type,
            method,
            error,
        } && trait_name == imp.trait_name && self_type == imp.self_type_name && method_wrong(
            ms,
            method,
            error,
            cx,
        )),
    decreases ms.len(),
{
    if ms.len() > 0 {
        let before = ms.drop_last();
        let n = ms.len() - 1;
        lemma_methods(e, imp, before, cx);
        if let Some(error) = body_error(""@, ms.last().func, cx) {
            let x = ValidationErrorView::Method {
                trait_name: imp.trait_name,
                self_type: imp.self_type_name,
                method: ms.last().name,
                error,
            };
            lemma_in_push(method_errors(imp, before, cx), x, e);
        }
        assert(ms[n] == ms.last());
        assert(forall|i: int| 0 <= i < n ==> before[i] == #[trigger] ms[i]);
        assert(forall|i: int| 0 <= i < n ==> #[trigger] before[i] == ms[i]);
    }
}

proof fn lemma_impls(e: ValidationErrorView, imps: Seq<ToyImplView>, cx: Typing)
    ensures
        impl_errors(imps, cx).contains(e) <==> (e matches ValidationErrorView::Method {
            trait_name,
            self_type,
            method,
            error,
        } && exists|i: int|
            0 <= i < imps.len() && (#[trigger] imps[i]).trait_name == trait_name
                && imps[i].self_type_name == self_type && method_wrong(
                imps[i].methods,
                method,
                error,
                cx,
            )),
    decreases imps.len(),
{
    if imps.len() > 0 {
        let before = imps.drop_last();
        let n = imps.len() - 1;
        lemma_impls(e, before, cx);
        lemma_methods(e, imps.last(), imps.last().methods, cx);
        lemma_in_two(
            impl_errors(before, cx),
            method_errors(imps.last(), imps.last().methods, cx),
            e,
        );
        assert(imps[n] == imps.last());
        assert(forall|i: int| 0 <= i < n ==> before[i] == #[trigger] imps[i]);
        assert(forall|i: int| 0 <= i < n ==> #[trigger] before[i] == imps[i]);
    }
}

proof fn lemma_mentioned(t: SourceTypeView, rust_name: Seq<char>)
    ensures
        rust_type_names(t).contains(rust_name) <==> mentions(t, rust_name),
    decreases t, 0int,
{
    match t {
        SourceTypeView::RustType { name, type_args } => {
            lemma_all_mentioned(type_args, rust_name);
            let all = seq![name] + rust_type_names_all(type_args);
            lemma_names_in(seq![name], rust_type_names_all(type_args), rust_name);
            assert(seq![name].contains(rust_name) <==> name == rust_name) by {
                assert(seq![name][0] == name);
            }
        },
        SourceTypeView::StructRef { name, type_args } => {
            lemma_all_mentioned(type_args, rust_name);
        },
        SourceTypeView::Ref { inner } => {
            lemma_mentioned(*inner, rust_name);
        },
        _ => {},
    }
}

proof fn lemma_all_mentioned(ts: Seq<SourceTypeView>, rust_name: Seq<char>)
    ensures
        rust_type_names_all(ts).contains(rust_name) <==> any_mentions(ts, rust_name),
    decreases ts, 1int,
{
    if ts.len() > 0 {
        let before = ts.drop_last();
        lemma_all_mentioned(before, rust_name);
        lemma_mentioned(ts.last(), rust_name);
        lemma_names_in(rust_type_names_all(before), rust_type_names(ts.last()), rust_name);
    }
}

proof fn lemma_names_in(a: Seq<Seq<char>>, b: Seq<Seq<char>>, e: Seq<char>)
    ensures
        (a + b).contains(e) <==> a.contains(e) || b.contains(e),
{
    if a.contains(e) {
        let i = choose|i: int| 0 <= i < a.len() && a[i] == e;
        assert((a + b)[i] == e);
    }
    if b.contains(e) {
        let i = choose|i: int| 0 <= i < b.len() && b[i] == e;
        assert((a + b)[a.len() + i] == e);
    }
    if (a + b).contains(e) {
        let i = choose|i: int| 0 <= i < (a + b).len() && (a + b)[i] == e;
        if i < a.len() {
            assert(a[i] == e);
        } else {
            assert(b[i - a.len()] == e);
        }
    }
}

proof fn lemma_names(
    e: ValidationErrorView,
    sn: Seq<char>,
    fd: Seq<char>,
    names: Seq<Seq<char>>,
    facts: RustcFactsView,
)
    ensures
        name_errors(sn, fd, names, facts).contains(e) <==> (
        e matches ValidationErrorView::RustTypeNotFound { struct_name, field, rust_name }
            && struct_name == sn && field == fd && names.contains(rust_name)
            && !facts.rust_types.contains(rust_name)),
    decreases names.len(),
{
    if names.len() > 0 {
        let before = names.drop_last();
        lemma_names(e, sn, fd, before, facts);
        let x = ValidationErrorView::RustTypeNotFound {
            struct_name: sn,
            field: fd,
            rust_name: names.last(),
        };
        lemma_in_push(name_errors(sn, fd, before, facts), x, e);
        if let ValidationErrorView::RustTypeNotFound { struct_name, field, rust_name } = e {
            lemma_names_in(before, seq![names.last()], rust_name);
            assert(before + seq![names.last()] =~= names);
            assert(seq![names.last()].contains(rust_name) <==> names.last() == rust_name) by {
                assert(seq![names.last()][0] == names.last());
            }
        }
    }
}

proof fn lemma_struct_fields(
    e: ValidationErrorView,
    sn: Seq<char>,
    fields: Seq<ToyFieldView>,
    facts: RustcFactsView,
)
    ensures
        field_errors(sn, fields, facts).contains(e) <==> (
        e matches ValidationErrorView::RustTypeNotFound { struct_name, field, rust_name }
            && struct_name == sn && !facts.rust_types.contains(rust_name) && field_mentions(
            fields,
            field,
            rust_name,
        )),
    decreases fields.len(),
{
    if fields.len() > 0 {
        let before = fields.drop_last();
        let n = fields.len() - 1;
        let last = fields.last();
        lemma_struct_fields(e, sn, before, facts);
        lemma_names(e, sn, last.name, rust_type_names(last.rust_type), facts);
        lemma_in_two(
            field_errors(sn, before, facts),
            name_errors(sn, last.name, rust_type_names(last.rust_type), facts),
            e,
        );
        assert(fields[n] == last);
        assert(forall|i: int| 0 <= i < n ==> before[i] == #[trigger] fields[i]);
        assert(forall|i: int| 0 <= i < n ==> #[trigger] before[i] == fields[i]);
        if let ValidationErrorView::RustTypeNotFound { struct_name, field, rust_name } = e {
            lemma_mentioned(last.rust_type, rust_name);
        }
    }
}

proof fn lemma_types(
    e: ValidationErrorView,
    structs: Seq<(Seq<char>, ToyStructView)>,
    facts: RustcFactsView,
)
    ensures
        type_errors(structs, facts).contains(e) <==> (
        e matches ValidationErrorView::RustTypeNotFound { struct_name, field, rust_name }
            && !facts.rust_types.contains(rust_name) && exists|i: int|
            0 <= i < structs.len() && (#[trigger] structs[i]).0 == struct_name && field_mentions(
                structs[i].1.fields,
                field,
                rust_name,
            )),
    decreases structs.len(),
{
    if structs.len() > 0 {
        let before = structs.drop_last();
        let n = structs.len() - 1;
        let (sn, def) = structs.last();
        lemma_types(e, before, facts);
        lemma_struct_fields(e, sn, def.fields, facts);
        lemma_in_two(type_errors(before, facts), field_errors(sn, def.fields, facts), e);
        assert(structs[n] == structs.last());
        assert(forall|i: int| 0 <= i < n ==> before[i] == #[trigger] structs[i]);
        assert(forall|i: int| 0 <= i < n ==> #[trigger] before[i] == structs[i]);
    }
}

/// Instances that are put in order are in order, and are the same instances.
pub proof fn lemma_discoveries_sorted(ds: Seq<DiscoveredView>)
    ensures
        sorted_discoveries(ds).to_multiset() == ds.to_multiset(),
        forall|i: int, j: int|
            0 <= i < j < ds.len() ==> !discovery_precedes(
                #[trigger] sorted_discoveries(ds)[j],
                #[trigger] sorted_discoveries(ds)[i],
            ),
        sorted_discoveries(ds).len() == ds.len(),
    decreases ds.len(),
{
    if ds.len() > 0 {
        let before = ds.drop_last();
        lemma_discoveries_sorted(before);
        lemma_inserted(sorted_discoveries(before), ds.last());
        assert(before.push(ds.last()) =~= ds);
        assert(ds.to_multiset() =~= before.to_multiset().insert(ds.last())) by {
            before.to_multiset_ensures();
        }
    }
}

spec fn in_order(ds: Seq<DiscoveredView>) -> bool {
    forall|i: int, j: int|
        0 <= i < j < ds.len() ==> !discovery_precedes(#[trigger] ds[j], #[trigger] ds[i])
}

proof fn lemma_inserted(ds: Seq<DiscoveredView>, d: DiscoveredView)
    requires
        in_order(ds),
    ensures
        in_order(insert_discovery(ds, d)),
        insert_discovery(ds, d).to_multiset() == ds.to_multiset().insert(d),
        insert_discovery(ds, d).len() == ds.len() + 1,
        forall|i: int|
            0 <= i < insert_discovery(ds, d).len() ==> #[trigger] insert_discovery(ds, d)[i] == d
                || ds.contains(insert_discovery(ds, d)[i]),
    decreases ds.len(),
{
    let out = insert_discovery(ds, d);
    if ds.len() > 0 && discovery_precedes(d, ds.last()) {
        let before = ds.drop_last();
        let x = ds.last();
        assert(in_order(before)) by {
            assert forall|i: int, j: int| 0 <= i < j < before.len() implies !discovery_precedes(
                #[trigger] before[j],
                #[trigger] before[i],
            ) by {
                assert(before[i] == ds[i] && before[j] == ds[j]);
            }
        }
        lemma_inserted(before, d);
        let mid = insert_discovery(before, d);
        mid.to_multiset_ensures();
        before.to_multiset_ensures();
        assert(before.push(x) =~= ds);
        assert(out.to_multiset() =~= ds.to_multiset().insert(d));
        assert forall|i: int, j: int| 0 <= i < j < out.len() implies !discovery_precedes(
            #[trigger] out[j],
            #[trigger] out[i],
        ) by {
            if j < mid.len() {
                assert(out[i] == mid[i] && out[j] == mid[j]);
            } else {
                assert(out[j] == x && out[i] == mid[i]);
                if mid[i] == d {
                    lemma_asymmetric(d, x);
                } else {
                    let k = choose|k: int| 0 <= k < before.len() && before[k] == mid[i];
                    assert(ds[k] == mid[i] && ds[ds.len() - 1] == x);
                }
            }
        }
        assert forall|i: int| 0 <= i < out.len() implies #[trigger] out[i] == d || ds.contains(
            out[i],
        ) by {
            if i < mid.len() {
                assert(out[i] == mid[i]);
                if mid[i] != d {
                    let k = choose|k: int| 0 <= k < before.len() && before[k] == mid[i];
                    assert(ds[k] == mid[i]);
                }
            } else {
                assert(ds[ds.len() - 1] == x);
            }
        }
    } else {
        ds.to_multiset_ensures();
        assert forall|i: int, j: int| 0 <= i < j < out.len() implies !discovery_precedes(
            #[trigger] out[j],
            #[trigger] out[i],
        ) by {
            if j < ds.len() {
                assert(out[i] == ds[i] && out[j] == ds[j]);
            } else {
                assert(out[j] == d && out[i] == ds[i]);
                let x = ds.last();
                if i < ds.len() - 1 {
                    assert(!discovery_precedes(ds[ds.len() - 1], ds[i]));
                    lemma_not_before(d, x, ds[i]);
                }
            }
        }
        assert forall|i: int| 0 <= i < out.len() implies #[trigger] out[i] == d || ds.contains(
            out[i],
        ) by {
            if i < ds.len() {
                assert(out[i] == ds[i]);
            }
        }
    }
}

proof fn lemma_asymmetric(a: DiscoveredView, b: DiscoveredView)
    requires
        discovery_precedes(a, b),
    ensures
        !discovery_precedes(b, a),
{
    lemma_texts_apart(a.self_type_name, b.self_type_name);
    lemma_texts_apart(args_key(a.concrete_args), args_key(b.concrete_args));
    lemma_texts_apart(a.trait_name, b.trait_name);
    lemma_texts_apart(a.method_name, b.method_name);
}

proof fn lemma_texts_apart(a: Seq<char>, b: Seq<char>)
    ensures
        !(text_lt(a, b) && text_lt(b, a)),
        a != b ==> text_lt(a, b) || text_lt(b, a),
        !text_lt(a, a),
{
    lemma_text_lt_irreflexive(a);
    lemma_text_lt_total(a, b);
    if text_lt(a, b) && text_lt(b, a) {
        lemma_text_lt_transitive(a, b, a);
    }
}

/// What does not precede something that does not precede a third does not
/// precede the third.
proof fn lemma_not_before(a: DiscoveredView, b: DiscoveredView, c: DiscoveredView)
    requires
        !discovery_precedes(a, b),
        !discovery_precedes(b, c),
    ensures
        !discovery_precedes(a, c),
{
    lemma_texts_in_row(a.self_type_name, b.self_type_name, c.self_type_name);
    lemma_texts_in_row(
        args_key(a.concrete_args),
        args_key(b.concrete_args),
        args_key(c.concrete_args),
    );
    lemma_texts_in_row(a.trait_name, b.trait_name, c.trait_name);
    lemma_texts_in_row(a.method_name, b.method_name, c.method_name);
}

proof fn lemma_texts_in_row(a: Seq<char>, b: Seq<char>, c: Seq<char>)
    ensures
        text_lt(c, b) && text_lt(b, a) ==> text_lt(c, a),
        !(text_lt(a, c) && text_lt(c, a)),
        !text_lt(a, a),
        a != b ==> text_lt(a, b) || text_lt(b, a),
        b != c ==> text_lt(b, c) || text_lt(c, b),
{
    lemma_texts_apart(a, b);
    lemma_texts_apart(b, c);
    lemma_texts_apart(a, c);
    if text_lt(c, b) && text_lt(b, a) {
        lemma_text_lt_transitive(c, b, a);
    }
}

} // verus!
