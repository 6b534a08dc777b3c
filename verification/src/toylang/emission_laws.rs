//! What holds of all that is emitted: whatever an emitted function calls is
//! emitted too, and so is every function that a crate exports.
use crate::toylang::answers::RustAnswersView;
use crate::toylang::callbacks_impl::{
    effective, instantiated_fn, internal_symbol, is_foreign, no_bound, stash_calls, stash_fn, typing, EmissionView, InstanceView, WalkView,
};
use crate::names::find;
use crate::toylang::deps::{calls_in_block, FnCallView};
use crate::toylang::deps_laws::{is_call, lemma_calls_found, occurs, occurs_in_block, occurs_in_stmts};
use crate::toylang::registry::{RegistryView, ToyFunctionView, ToyImplMethodView, ToyImplView, ToyStructView};
use crate::toylang::roots::{
    accessor_instance, drained, emit_accessors, emit_functions, emit_impls, emit_methods, emit_root, emitted_once, export_instance,
    discovered_instance, lemma_populate_emits_once, method_instance, populated, StubFactsView, StubSymbolView,
};
use crate::toylang::registry::DiscoveredView;
use crate::toylang::type_resolve::{param_scope, type_expr, type_fn_body, type_stmts};
use crate::toylang::typed_ast::ResolvedTypeView;
use vstd::prelude::*;

verus! {

broadcast use vstd::seq::group_seq_axioms;

/// Whether the function that a call names is found under one of some symbols,
/// unless the call is one of a function that the crate does not have to emit:
/// one of the Rust side, or one that another crate has emitted.
pub open spec fn reached(c: FnCallView, symbols: Seq<Seq<char>>, w: WalkView) -> bool {
    is_foreign(c, w) || symbols.contains(internal_symbol(c.name, c.type_args))
}

/// Whether everything that the body of a function calls is found under one of
/// some symbols.
pub open spec fn calls_reached(f: ToyFunctionView, symbols: Seq<Seq<char>>, w: WalkView) -> bool {
    match f.body {
        None => true,
        Some(body) => match type_fn_body(f, body, typing(w)) {
            Err(_) => true,
            Ok(b) => forall|c: FnCallView|
                #[trigger] occurs_in_block(is_call(c), b) ==> reached(c, symbols, w),
        },
    }
}

/// Whether whatever an emitted function calls is emitted.
pub open spec fn is_closed(st: EmissionView, w: WalkView) -> bool {
    forall|i: int|
        0 <= i < st.instances.len() ==> calls_reached(
            (#[trigger] st.instances[i]).resolved_func,
            st.walked,
            w,
        )
}

/// Whether an emission has what another had, in the same places, and only
/// functions with all that they call besides.
spec fn extends(st: EmissionView, after: EmissionView, w: WalkView) -> bool {
    &&& st.instances.len() <= after.instances.len()
    &&& after.instances.take(st.instances.len() as int) == st.instances
    &&& forall|x: Seq<char>| #[trigger] st.walked.contains(x) ==> after.walked.contains(x)
    &&& forall|i: int|
        st.instances.len() <= i < after.instances.len() ==> calls_reached(
            (#[trigger] after.instances[i]).resolved_func,
            after.walked,
            w,
        )
}

proof fn lemma_reached_stays(
    f: ToyFunctionView,
    symbols: Seq<Seq<char>>,
    more: Seq<Seq<char>>,
    w: WalkView,
)
    requires
        calls_reached(f, symbols, w),
        forall|x: Seq<char>| #[trigger] symbols.contains(x) ==> more.contains(x),
    ensures
        calls_reached(f, more, w),
{
    if let Some(body) = f.body {
        if let Ok(b) = type_fn_body(f, body, typing(w)) {
            assert forall|c: FnCallView| #[trigger] occurs_in_block(is_call(c), b) implies reached(
                c,
                more,
                w,
            ) by {
                assert(reached(c, symbols, w));
            }
        }
    }
}

proof fn lemma_extends_same(st: EmissionView, w: WalkView)
    ensures
        extends(st, st, w),
{
    assert(st.instances.take(st.instances.len() as int) =~= st.instances);
}

proof fn lemma_extends_trans(a: EmissionView, b: EmissionView, c: EmissionView, w: WalkView)
    requires
        extends(a, b, w),
        extends(b, c, w),
    ensures
        extends(a, c, w),
{
    assert(c.instances.take(a.instances.len() as int) =~= b.instances.take(
        a.instances.len() as int,
    ));
    assert forall|i: int| a.instances.len() <= i < c.instances.len() implies calls_reached(
        (#[trigger] c.instances[i]).resolved_func,
        c.walked,
        w,
    ) by {
        if i < b.instances.len() {
            assert(c.instances.take(b.instances.len() as int)[i] == c.instances[i]);
            assert(b.instances[i] == c.instances[i]);
            lemma_reached_stays(b.instances[i].resolved_func, b.walked, c.walked, w);
        }
    }
}

/// One more function, with all that it calls in the end.
proof fn lemma_extends_push(
    st: EmissionView,
    inst: InstanceView,
    after: EmissionView,
    w: WalkView,
)
    requires
        extends(
            EmissionView {
                instances: st.instances.push(inst),
                walked: st.walked.push(inst.extern_symbol),
            },
            after,
            w,
        ),
        calls_reached(inst.resolved_func, after.walked, w),
    ensures
        extends(st, after, w),
        after.walked.contains(inst.extern_symbol),
{
    let next = EmissionView {
        instances: st.instances.push(inst),
        walked: st.walked.push(inst.extern_symbol),
    };
    let n = st.instances.len() as int;
    assert(after.instances.take(n) =~= after.instances.take(n + 1).take(n));
    assert(next.instances.take(n) =~= st.instances);
    assert(after.instances.take(n + 1)[n] == after.instances[n]);
    assert forall|x: Seq<char>| #[trigger] st.walked.contains(x) implies after.walked.contains(
        x,
    ) by {
        let k = choose|k: int| 0 <= k < st.walked.len() && st.walked[k] == x;
        assert(next.walked[k] == x);
        assert(next.walked.contains(x));
    }
    assert(next.walked[st.walked.len() as int] == inst.extern_symbol);
    assert(next.walked.contains(inst.extern_symbol));
}

proof fn lemma_stash_fn(
    f: ToyFunctionView,
    name: Seq<char>,
    st: EmissionView,
    w: WalkView,
    depth: nat,
)
    requires
        f.body is Some,
    ensures
        stash_fn(f, name, st, w, depth) matches Ok(after) ==> extends(st, after, w)
            && calls_reached(f, after.walked, w),
    decreases depth, 1int, 0nat,
{
    if let Ok(b) = type_fn_body(f, f.body->0, typing(w)) {
        let calls = calls_in_block(b);
        lemma_stash_calls(calls, st, w, depth);
        if let Ok(after) = stash_calls(calls, st, w, depth) {
            assert forall|c: FnCallView| #[trigger] occurs_in_block(is_call(c), b) implies reached(
                c,
                after.walked,
                w,
            ) by {
                lemma_calls_found(b, c);
                let i = choose|i: int| 0 <= i < calls.len() && calls[i] == c;
                assert(reached(calls[i], after.walked, w));
            }
        }
    }
}

proof fn lemma_stash_calls(calls: Seq<FnCallView>, st: EmissionView, w: WalkView, depth: nat)
    ensures
        stash_calls(calls, st, w, depth) matches Ok(after) ==> extends(st, after, w) && forall|i: int|
            0 <= i < calls.len() ==> reached(#[trigger] calls[i], after.walked, w),
    decreases depth, 0int, calls.len(),
{
    lemma_extends_same(st, w);
    if calls.len() > 0 {
        let call = calls[0];
        let rest = calls.drop_first();
        let symbol = internal_symbol(call.name, call.type_args);
        if is_foreign(call, w) || st.walked.contains(symbol) {
            lemma_stash_calls(rest, st, w, depth);
            if let Ok(after) = stash_calls(rest, st, w, depth) {
                lemma_first_and_rest(calls, after.walked, w);
            }
        } else if depth > 0 {
            let callee = instantiated_fn(
                find(w.effective.functions, call.name)->0,
                call.type_args,
            );
            let inst = InstanceView {
                extern_symbol: symbol,
                internal_symbol: symbol,
                resolved_func: callee,
                stub_def_id: None,
                instance_args: call.type_args,
            };
            let next = EmissionView {
                instances: st.instances.push(inst),
                walked: st.walked.push(symbol),
            };
            lemma_stash_fn(callee, call.name, next, w, (depth - 1) as nat);
            if let Ok(middle) = stash_fn(callee, call.name, next, w, (depth - 1) as nat) {
                lemma_extends_push(st, inst, middle, w);
                lemma_stash_calls(rest, middle, w, depth);
                if let Ok(after) = stash_calls(rest, middle, w, depth) {
                    lemma_extends_trans(st, middle, after, w);
                    lemma_first_and_rest(calls, after.walked, w);
                }
            }
        }
    }
}

proof fn lemma_first_and_rest(calls: Seq<FnCallView>, symbols: Seq<Seq<char>>, w: WalkView)
    requires
        calls.len() > 0,
        reached(calls[0], symbols, w),
        forall|i: int|
            0 <= i < calls.drop_first().len() ==> reached(
                #[trigger] calls.drop_first()[i],
                symbols,
                w,
            ),
    ensures
        forall|i: int| 0 <= i < calls.len() ==> reached(#[trigger] calls[i], symbols, w),
{
    assert forall|i: int| 0 <= i < calls.len() implies reached(#[trigger] calls[i], symbols, w) by {
        if i > 0 {
            assert(calls.drop_first()[i - 1] == calls[i]);
        }
    }
}

proof fn lemma_root(inst: InstanceView, name: Seq<char>, walked: bool, st: EmissionView, w: WalkView)
    requires
        walked || calls_reached(inst.resolved_func, Seq::empty(), w),
    ensures
        emit_root(inst, name, walked, st, w) matches Ok(after) ==> extends(st, after, w)
            && after.walked.contains(inst.extern_symbol),
{
    lemma_extends_same(st, w);
    if !st.walked.contains(inst.extern_symbol) {
        let next = EmissionView {
            instances: st.instances.push(inst),
            walked: st.walked.push(inst.extern_symbol),
        };
        lemma_extends_same(next, w);
        if walked && inst.resolved_func.body is Some {
            lemma_stash_fn(inst.resolved_func, name, next, w, no_bound());
        } else {
            if inst.resolved_func.body is Some {
                assert forall|x: Seq<char>| #[trigger] Seq::<Seq<char>>::empty().contains(x) implies next.walked.contains(x) by {}
                lemma_reached_stays(inst.resolved_func, Seq::empty(), next.walked, w);
            }
        }
        if let Ok(after) = emit_root(inst, name, walked, st, w) {
            lemma_extends_push(st, inst, after, w);
        }
    }
}

proof fn lemma_functions(
    fs: Seq<(Seq<char>, ToyFunctionView)>,
    facts: StubFactsView,
    st: EmissionView,
    w: WalkView,
)
    ensures
        emit_functions(fs, facts, st, w) matches Ok(after) ==> extends(st, after, w) && forall|i: int|
            0 <= i < fs.len() && (#[trigger] fs[i]).1.is_export && fs[i].1.body is Some
                && fs[i].1.type_params.len() == 0 ==> after.walked.contains(
                export_instance(fs[i].0, fs[i].1, facts).extern_symbol,
            ),
    decreases fs.len(),
{
    lemma_extends_same(st, w);
    if fs.len() > 0 {
        let inst = export_instance(fs[0].0, fs[0].1, facts);
        let rest = fs.drop_first();
        lemma_root(inst, fs[0].0, true, st, w);
        let first = if crate::toylang::roots::is_root(fs[0].1) {
            emit_root(inst, fs[0].0, true, st, w)
        } else {
            Ok(st)
        };
        if let Ok(next) = first {
            lemma_functions(rest, facts, next, w);
            if let Ok(after) = emit_functions(rest, facts, next, w) {
                lemma_extends_trans(st, next, after, w);
                assert forall|i: int|
                    0 <= i < fs.len() && (#[trigger] fs[i]).1.is_export && fs[i].1.body is Some
                        && fs[i].1.type_params.len() == 0 implies after.walked.contains(
                    export_instance(fs[i].0, fs[i].1, facts).extern_symbol,
                ) by {
                    if i > 0 {
                        assert(rest[i - 1] == fs[i]);
                    }
                }
            }
        }
    }
}

/// An accessor calls nothing.
proof fn lemma_accessor(
    pair: (Seq<char>, Seq<char>),
    structs: Seq<(Seq<char>, ToyStructView)>,
    facts: StubFactsView,
    w: WalkView,
)
    ensures
        accessor_instance(pair, structs, facts) matches Some(inst) ==> calls_reached(
            inst.resolved_func,
            Seq::empty(),
            w,
        ),
{
    if let Some(inst) = accessor_instance(pair, structs, facts) {
        let f = inst.resolved_func;
        let body = f.body->0;
        if let Ok(b) = type_fn_body(f, body, typing(w)) {
            let e = b.ret->0;
            let cx = typing(w);
            let void = ResolvedTypeView::Void;
            let scope = param_scope(f.params, Seq::empty(), cx)->Ok_0;
            assert(body.stmts.len() == 0);
            assert(type_stmts(body.stmts, scope, cx)->Ok_0.1 == scope);
            let access = *body.ret->0->Ref_0;
            assert(access is FieldAccess);
            let object = *access->FieldAccess_receiver;
            assert(object is Var);
            assert(type_expr(object, void, scope, cx) is Ok);
            assert(type_expr(access, void, scope, cx) is Ok);
            assert(e.kind is Ref);
            let inner = *e.kind->Ref_0;
            assert(inner.kind is FieldAccess);
            let receiver = *inner.kind->FieldAccess_receiver;
            assert(receiver.kind is Var);
            assert forall|c: FnCallView| #[trigger] occurs_in_block(is_call(c), b) implies reached(
                c,
                Seq::empty(),
                w,
            ) by {
                let p = is_call(c);
                assert(!occurs(p, receiver));
                assert(!occurs(p, inner));
                assert(!occurs(p, e));
                assert(!occurs_in_stmts(p, b.stmts));
            }
        }
    }
}

proof fn lemma_accessors(
    pairs: Seq<(Seq<char>, Seq<char>)>,
    structs: Seq<(Seq<char>, ToyStructView)>,
    facts: StubFactsView,
    st: EmissionView,
    w: WalkView,
)
    ensures
        emit_accessors(pairs, structs, facts, st, w) matches Ok(after) ==> extends(st, after, w),
    decreases pairs.len(),
{
    lemma_extends_same(st, w);
    if pairs.len() > 0 {
        lemma_accessor(pairs[0], structs, facts, w);
        let first = match accessor_instance(pairs[0], structs, facts) {
            None => Ok(st),
            Some(inst) => emit_root(inst, pairs[0].1, false, st, w),
        };
        if let Some(inst) = accessor_instance(pairs[0], structs, facts) {
            lemma_root(inst, pairs[0].1, false, st, w);
        }
        if let Ok(next) = first {
            lemma_accessors(pairs.drop_first(), structs, facts, next, w);
            if let Ok(after) = emit_accessors(pairs.drop_first(), structs, facts, next, w) {
                lemma_extends_trans(st, next, after, w);
            }
        }
    }
}

proof fn lemma_methods(
    imp: ToyImplView,
    ms: Seq<ToyImplMethodView>,
    facts: StubFactsView,
    st: EmissionView,
    w: WalkView,
)
    ensures
        emit_methods(imp, ms, facts, st, w) matches Ok(after) ==> extends(st, after, w),
    decreases ms.len(),
{
    lemma_extends_same(st, w);
    if ms.len() > 0 {
        let first = match method_instance(imp, ms[0], facts) {
            None => Ok(st),
            Some(inst) => emit_root(inst, ms[0].name, true, st, w),
        };
        if let Some(inst) = method_instance(imp, ms[0], facts) {
            lemma_root(inst, ms[0].name, true, st, w);
        }
        if let Ok(next) = first {
            lemma_methods(imp, ms.drop_first(), facts, next, w);
            if let Ok(after) = emit_methods(imp, ms.drop_first(), facts, next, w) {
                lemma_extends_trans(st, next, after, w);
            }
        }
    }
}

proof fn lemma_impls(imps: Seq<ToyImplView>, facts: StubFactsView, st: EmissionView, w: WalkView)
    ensures
        emit_impls(imps, facts, st, w) matches Ok(after) ==> extends(st, after, w),
    decreases imps.len(),
{
    lemma_extends_same(st, w);
    if imps.len() > 0 {
        lemma_methods(imps[0], imps[0].methods, facts, st, w);
        if let Ok(next) = emit_methods(imps[0], imps[0].methods, facts, st, w) {
            lemma_impls(imps.drop_first(), facts, next, w);
            if let Ok(after) = emit_impls(imps.drop_first(), facts, next, w) {
                lemma_extends_trans(st, next, after, w);
            }
        }
    }
}

proof fn lemma_stays_closed(st: EmissionView, after: EmissionView, w: WalkView)
    requires
        is_closed(st, w),
        extends(st, after, w),
    ensures
        is_closed(after, w),
{
    assert forall|i: int| 0 <= i < after.instances.len() implies calls_reached(
        (#[trigger] after.instances[i]).resolved_func,
        after.walked,
        w,
    ) by {
        if i < st.instances.len() {
            assert(after.instances.take(st.instances.len() as int)[i] == after.instances[i]);
            assert(st.instances[i] == after.instances[i]);
            lemma_reached_stays(st.instances[i].resolved_func, st.walked, after.walked, w);
        }
    }
}

/// Whether a function is emitted under a symbol.
pub open spec fn is_emitted(st: EmissionView, symbol: Seq<char>) -> bool {
    exists|i: int|
        0 <= i < st.instances.len() && (#[trigger] st.instances[i]).extern_symbol == symbol
}

/// A crate emits every function that it exports and that is not generic, and
/// whatever toylang function an emitted function calls, wherever in its body
/// the call stands.
pub proof fn lemma_callees_emitted(
    local: RegistryView,
    upstreams: Seq<(Seq<char>, RegistryView)>,
    answers: RustAnswersView,
    facts: StubFactsView,
    st: EmissionView,
)
    requires
        emitted_once(st),
        is_closed(
            st,
            WalkView { effective: effective(local, upstreams), local, answers },
        ),
    ensures
        populated(local, upstreams, answers, facts, false, st) matches Ok(after) ==> {
            &&& is_closed(
                after,
                WalkView { effective: effective(local, upstreams), local, answers },
            )
            &&& forall|symbol: Seq<char>| #[trigger]
                after.walked.contains(symbol) ==> is_emitted(after, symbol)
            &&& forall|i: int|
                0 <= i < local.functions.len() && (#[trigger] local.functions[i]).1.is_export
                    && local.functions[i].1.body is Some && local.functions[i].1.type_params.len()
                    == 0 ==> is_emitted(
                    after,
                    export_instance(
                        local.functions[i].0,
                        local.functions[i].1,
                        facts,
                    ).extern_symbol,
                )
        },
{
    let w = WalkView { effective: effective(local, upstreams), local, answers };
    lemma_functions(local.functions, facts, st, w);
    if let Ok(s1) = emit_functions(local.functions, facts, st, w) {
        lemma_accessors(local.accessor_pairs, local.structs, facts, s1, w);
        if let Ok(s2) = emit_accessors(local.accessor_pairs, local.structs, facts, s1, w) {
            lemma_impls(local.trait_impls, facts, s2, w);
            if let Ok(after) = emit_impls(local.trait_impls, facts, s2, w) {
                lemma_extends_trans(s1, s2, after, w);
                lemma_extends_trans(st, s1, after, w);
                lemma_stays_closed(st, after, w);
                lemma_populate_emits_once(local, upstreams, answers, facts, false, st);
                assert forall|symbol: Seq<char>| #[trigger]
                    after.walked.contains(symbol) implies is_emitted(after, symbol) by {
                    let k = choose|k: int| 0 <= k < after.walked.len() && after.walked[k] == symbol;
                    assert(after.instances[k].extern_symbol == symbol);
                }
            }
        }
    }
}

/// The same of the instances that were seen in use.
pub proof fn lemma_seen_callees_emitted(
    ds: Seq<DiscoveredView>,
    stubs: Seq<Option<StubSymbolView>>,
    local: RegistryView,
    upstreams: Seq<(Seq<char>, RegistryView)>,
    st: EmissionView,
    w: WalkView,
)
    requires
        is_closed(st, w),
    ensures
        drained(ds, stubs, local, upstreams, st, w) matches Ok(after) ==> is_closed(after, w),
    decreases ds.len(),
{
    if ds.len() > 0 {
        lemma_extends_same(st, w);
        let first = match discovered_instance(ds[0], stubs[0], local, upstreams) {
            None => Ok(st),
            Some(inst) => emit_root(inst, ds[0].method_name, true, st, w),
        };
        if let Some(inst) = discovered_instance(ds[0], stubs[0], local, upstreams) {
            lemma_root(inst, ds[0].method_name, true, st, w);
        }
        if let Ok(next) = first {
            lemma_stays_closed(st, next, w);
            lemma_seen_callees_emitted(
                ds.drop_first(),
                stubs.drop_first(),
                local,
                upstreams,
                next,
                w,
            );
        }
    }
}

} // verus!
