//! What holds of all generated code: whatever an instruction works on is
//! there before it.
use crate::llvm_gen::abi::{ask_abi, ask_layout, llvm_type, llvm_types, AbiParamView, AbiReturnView, AbiView};
use crate::llvm_gen::code::{declare, lemma_declared_found, emit, enter, find_decl, next, to_ptr, to_value, CodeView, DeclView, InstView, LoweredView, OperandView, SlotView};
use crate::llvm_gen::functions::{
    bind_params, block_type, extern_wrapper, finish, forward_param, forward_params, internal_function, param_types, return_reread,
    return_result, start, typing_of, wrapper_body, wrapper_room, FnCodeView, ModuleView,
};
use crate::llvm_gen::lower::{
    abi_decl, coerce_int, field_place, finish_fn_call, finish_method_call, internal_decl, internal_return, internal_sret, lower_arg,
    lower_args, lower_binary, lower_block, lower_bytes, lower_expr, lower_field_access, lower_fn_call, lower_if, lower_internal_call,
    lower_lit_fields, lower_method_call, lower_opt, lower_ref, lower_rust_fn_call, lower_static_call, lower_stmt, lower_stmts,
    lower_struct_lit, lower_values, lower_while, receiver_ops, receiver_ptr, reread_as_pair, return_room, split_pair, struct_behind,
    types_of, use_method, use_methods, write_back, LowerCx,
};
use crate::llvm_gen::types::LlvmTypeView;
use crate::llvm_gen::{filled, with_bodies, with_wrappers, FnItemView};
use crate::names::{find, lemma_find_some, put};
use crate::toylang::answers::ask_trait;
use crate::toylang::callbacks_impl::{internal_symbol, RustDepView};
use crate::toylang::deps::{rust_deps_in_block, RustMethodDepView};
use crate::toylang::registry::{ToyFieldView, ToyFunctionView, ToyParamView};
use crate::toylang::type_resolve::{field_index, return_type, rust_receiver, type_fn_body};
use crate::toylang::typed_ast::{ResolvedTypeView, TypedBlockView, TypedExprKindView, TypedExprView, TypedStmtView};
use vstd::prelude::*;
use vstd::utf8::encode_utf8;

verus! {

broadcast use vstd::seq::group_seq_axioms;

/// Whether an operand is there where `n` instructions come before, in a
/// function of `p` parameters.
pub open spec fn is_there(o: OperandView, n: nat, p: nat) -> bool {
    match o {
        OperandView::Reg(i) => i < n,
        OperandView::Param(i) => i < p,
        _ => true,
    }
}

/// Whether a basic block is appended by one of the first `n` instructions.
pub open spec fn is_block(insts: Seq<InstView>, b: nat, n: nat) -> bool {
    b < n && b < insts.len() && insts[b as int] is Block
}

/// Whether all that the instruction at `j` works on is there before it.
pub open spec fn inst_ok(insts: Seq<InstView>, j: nat, p: nat) -> bool {
    match insts[j as int] {
        InstView::Alloca { .. } | InstView::Bytes { .. } | InstView::Block => true,
        InstView::Load { ty, ptr } => is_there(ptr, j, p),
        InstView::Store { ptr, value } => is_there(ptr, j, p) && is_there(value, j, p),
        InstView::FieldPtr { ty, ptr, field } => is_there(ptr, j, p),
        InstView::Pair { first_ty, second_ty, first, second } => is_there(first, j, p) && is_there(
            second,
            j,
            p,
        ),
        InstView::Extract { value, field } => is_there(value, j, p),
        InstView::IntOp { op, left, right } => is_there(left, j, p) && is_there(right, j, p),
        InstView::FloatOp { op, left, right } => is_there(left, j, p) && is_there(right, j, p),
        InstView::Truncate { value, bits } => is_there(value, j, p),
        InstView::SignExtend { value, bits } => is_there(value, j, p),
        InstView::Copy { dest, source, align, extent } => is_there(dest, j, p) && is_there(
            source,
            j,
            p,
        ),
        InstView::Call { symbol, args } => all_there(args, j, p),
        InstView::Enter { block } => is_block(insts, block, j),
        InstView::Jump { block } => is_block(insts, block, j),
        InstView::Branch { cond, then_block, else_block } => is_there(cond, j, p) && is_block(
            insts,
            then_block,
            j,
        ) && is_block(insts, else_block, j),
        InstView::Phi { ty, first, first_block, second, second_block } => is_there(first, j, p)
            && is_there(second, j, p) && is_block(insts, first_block, j) && is_block(
            insts,
            second_block,
            j,
        ),
        InstView::Return { value } => value matches Some(v) ==> is_there(v, j, p),
    }
}

/// Whether some operands are there.
pub open spec fn all_there(os: Seq<OperandView>, n: nat, p: nat) -> bool {
    forall|i: int| 0 <= i < os.len() ==> is_there(#[trigger] os[i], n, p)
}

/// Whether all that the instructions of a function of `p` parameters work on
/// is there before them.
pub open spec fn insts_ok(insts: Seq<InstView>, p: nat) -> bool {
    forall|j: int| 0 <= j < insts.len() ==> #[trigger] inst_ok(insts, j as nat, p)
}

/// Whether code is in order: its instructions, the places of its variables,
/// and the block that it is in.
pub open spec fn code_ok(s: CodeView, p: nat) -> bool {
    &&& insts_ok(s.insts, p)
    &&& forall|i: int|
        0 <= i < s.vars.len() ==> is_there((#[trigger] s.vars[i]).1.ptr, s.insts.len(), p)
    &&& is_block(s.insts, s.block, s.insts.len())
    &&& calls_declared(s.insts, s.decls)
}

/// Whether every function that is called is declared.
pub open spec fn calls_declared(insts: Seq<InstView>, decls: Seq<DeclView>) -> bool {
    forall|j: int|
        0 <= j < insts.len() ==> (#[trigger] insts[j] matches InstView::Call { symbol, args } ==> find_decl(
            decls,
            symbol,
        ) is Some)
}

/// Whether what was declared is declared still.
pub open spec fn keeps(decls: Seq<DeclView>, later: Seq<DeclView>) -> bool {
    forall|symbol: Seq<char>|
        find_decl(decls, symbol) is Some ==> #[trigger] find_decl(later, symbol) == find_decl(
            decls,
            symbol,
        )
}

/// Whether code has grown from other code, and is in order.
pub open spec fn grown(s: CodeView, s1: CodeView, p: nat) -> bool {
    &&& code_ok(s1, p)
    &&& s.insts.len() <= s1.insts.len()
    &&& s1.insts.take(s.insts.len() as int) == s.insts
    &&& keeps(s.decls, s1.decls)
}

/// Whether the result of lowering is there.
pub open spec fn lowered_ok(l: LoweredView, s: CodeView, p: nat) -> bool {
    match l {
        LoweredView::Value(v, _) => is_there(v, s.insts.len(), p),
        LoweredView::Ptr(v, _) => is_there(v, s.insts.len(), p),
    }
}

proof fn lemma_prefix_ok(insts: Seq<InstView>, longer: Seq<InstView>, j: nat, p: nat)
    requires
        j < insts.len() <= longer.len(),
        longer.take(insts.len() as int) == insts,
        inst_ok(insts, j, p),
    ensures
        inst_ok(longer, j, p),
{
    assert(longer[j as int] == longer.take(insts.len() as int)[j as int]);
    assert forall|b: nat| is_block(insts, b, j) implies is_block(longer, b, j) by {
        assert(longer[b as int] == longer.take(insts.len() as int)[b as int]);
    }
}

proof fn lemma_grown_refl(s: CodeView, p: nat)
    requires
        code_ok(s, p),
    ensures
        grown(s, s, p),
{
    assert(s.insts.take(s.insts.len() as int) =~= s.insts);
}

proof fn lemma_grown_trans(a: CodeView, b: CodeView, c: CodeView, p: nat)
    requires
        grown(a, b, p),
        grown(b, c, p),
    ensures
        grown(a, c, p),
{
    assert(c.insts.take(a.insts.len() as int) =~= c.insts.take(b.insts.len() as int).take(
        a.insts.len() as int,
    ));
}

proof fn lemma_grown_block(a: CodeView, b: CodeView, block: nat, n: nat, p: nat)
    requires
        grown(a, b, p),
        is_block(a.insts, block, n),
    ensures
        is_block(b.insts, block, n),
        is_block(b.insts, block, b.insts.len()),
{
    assert(b.insts.take(a.insts.len() as int)[block as int] == b.insts[block as int]);
}

proof fn lemma_emit(s: CodeView, inst: InstView, p: nat)
    requires
        code_ok(s, p),
        inst_ok(s.insts.push(inst), s.insts.len(), p),
        inst matches InstView::Call { symbol, args } ==> find_decl(s.decls, symbol) is Some,
    ensures
        grown(s, emit(s, inst), p),
        is_there(next(s), emit(s, inst).insts.len(), p),
        emit(s, inst).insts.len() == s.insts.len() + 1,
        inst is Block ==> is_block(emit(s, inst).insts, s.insts.len(), s.insts.len() + 1),
{
    let s1 = emit(s, inst);
    assert(s1.insts.take(s.insts.len() as int) =~= s.insts);
    assert forall|j: int| 0 <= j < s1.insts.len() implies #[trigger] inst_ok(
        s1.insts,
        j as nat,
        p,
    ) by {
        if j < s.insts.len() {
            assert(inst_ok(s.insts, j as nat, p));
            lemma_prefix_ok(s.insts, s1.insts, j as nat, p);
        }
    }
    assert forall|i: int| 0 <= i < s1.vars.len() implies is_there(
        (#[trigger] s1.vars[i]).1.ptr,
        s1.insts.len(),
        p,
    ) by {
        assert(is_there(s.vars[i].1.ptr, s.insts.len(), p));
    }
    assert(s1.insts[s.block as int] == s.insts[s.block as int]);
}

proof fn lemma_enter(s: CodeView, block: nat, p: nat)
    requires
        code_ok(s, p),
        is_block(s.insts, block, s.insts.len()),
    ensures
        grown(s, enter(s, block), p),
{
    let inst = InstView::Enter { block };
    assert(s.insts.push(inst)[block as int] == s.insts[block as int]);
    lemma_emit(s, inst, p);
    assert(enter(s, block).insts == emit(s, inst).insts);
}

proof fn lemma_set_vars(s: CodeView, vars: Seq<(Seq<char>, SlotView)>, p: nat)
    requires
        code_ok(s, p),
        forall|i: int|
            0 <= i < vars.len() ==> is_there((#[trigger] vars[i]).1.ptr, s.insts.len(), p),
    ensures
        grown(s, CodeView { vars, ..s }, p),
{
    lemma_grown_refl(s, p);
}

proof fn lemma_vars_stay(s: CodeView, s1: CodeView, p: nat)
    requires
        code_ok(s, p),
        grown(s, s1, p),
    ensures
        forall|i: int|
            0 <= i < s.vars.len() ==> is_there((#[trigger] s.vars[i]).1.ptr, s1.insts.len(), p),
{
}

proof fn lemma_put_there(
    vars: Seq<(Seq<char>, SlotView)>,
    name: Seq<char>,
    slot: SlotView,
    n: nat,
    p: nat,
)
    requires
        forall|i: int| 0 <= i < vars.len() ==> is_there((#[trigger] vars[i]).1.ptr, n, p),
        is_there(slot.ptr, n, p),
    ensures
        forall|i: int|
            0 <= i < put(vars, name, slot).len() ==> is_there(
                (#[trigger] put(vars, name, slot)[i]).1.ptr,
                n,
                p,
            ),
    decreases vars.len(),
{
    let after = put(vars, name, slot);
    if vars.len() > 0 && vars[0].0 != name && !crate::text::text_lt(name, vars[0].0) {
        let rest = vars.drop_first();
        assert forall|i: int| 0 <= i < rest.len() implies is_there(
            (#[trigger] rest[i]).1.ptr,
            n,
            p,
        ) by {
            assert(rest[i] == vars[i + 1]);
        }
        lemma_put_there(rest, name, slot, n, p);
        assert forall|i: int| 0 <= i < after.len() implies is_there(
            (#[trigger] after[i]).1.ptr,
            n,
            p,
        ) by {
            if i > 0 {
                assert(after[i] == put(rest, name, slot)[i - 1]);
            } else {
                assert(after[0] == vars[0]);
            }
        }
    } else {
        assert forall|i: int| 0 <= i < after.len() implies is_there(
            (#[trigger] after[i]).1.ptr,
            n,
            p,
        ) by {
            if i > 0 {
                if vars.len() > 0 && vars[0].0 == name {
                    assert(after[i] == vars[i]);
                } else {
                    assert(after[i] == vars[i - 1]);
                }
            }
        }
    }
}

proof fn lemma_to_value(l: LoweredView, s: CodeView, p: nat)
    requires
        code_ok(s, p),
        lowered_ok(l, s, p),
    ensures
        grown(s, to_value(l, s).2, p),
        is_there(to_value(l, s).0, to_value(l, s).2.insts.len(), p),
{
    lemma_grown_refl(s, p);
    match l {
        LoweredView::Ptr(ptr, ty) => {
            lemma_emit(s, InstView::Load { ty, ptr }, p);
        },
        _ => {},
    }
}

proof fn lemma_to_ptr(l: LoweredView, ty: LlvmTypeView, s: CodeView, p: nat)
    requires
        code_ok(s, p),
        lowered_ok(l, s, p),
    ensures
        grown(s, to_ptr(l, ty, s).1, p),
        is_there(to_ptr(l, ty, s).0, to_ptr(l, ty, s).1.insts.len(), p),
{
    lemma_grown_refl(s, p);
    match l {
        LoweredView::Value(value, _) => {
            let s1 = emit(s, InstView::Alloca { ty, align: None });
            lemma_emit(s, InstView::Alloca { ty, align: None }, p);
            let store = InstView::Store { ptr: next(s), value };
            lemma_emit(s1, store, p);
            lemma_grown_trans(s, s1, emit(s1, store), p);
        },
        _ => {},
    }
}

proof fn lemma_coerce(v: OperandView, t: LlvmTypeView, target: LlvmTypeView, s: CodeView, p: nat)
    requires
        code_ok(s, p),
        is_there(v, s.insts.len(), p),
    ensures
        grown(s, coerce_int(v, t, target, s).1, p),
        is_there(
            coerce_int(v, t, target, s).0,
            coerce_int(v, t, target, s).1.insts.len(),
            p,
        ),
{
    lemma_grown_refl(s, p);
    match (t, target) {
        (LlvmTypeView::Int { bits: from }, LlvmTypeView::Int { bits: to }) => {
            if from > to {
                lemma_emit(s, InstView::Truncate { value: v, bits: to }, p);
            } else if from < to {
                lemma_emit(s, InstView::SignExtend { value: v, bits: to }, p);
            }
        },
        _ => {},
    }
}

proof fn lemma_split_pair(v: OperandView, s: CodeView, p: nat)
    requires
        code_ok(s, p),
        is_there(v, s.insts.len(), p),
    ensures
        grown(s, split_pair(v, s).1, p),
        all_there(split_pair(v, s).0, split_pair(v, s).1.insts.len(), p),
{
    let a = InstView::Extract { value: v, field: 0 };
    let b = InstView::Extract { value: v, field: 1 };
    lemma_emit(s, a, p);
    let s1 = emit(s, a);
    lemma_emit(s1, b, p);
    lemma_grown_trans(s, s1, emit(s1, b), p);
}

proof fn lemma_reread(
    l: LoweredView,
    from: LlvmTypeView,
    pair: LlvmTypeView,
    cx: LowerCx,
    s: CodeView,
    p: nat,
)
    requires
        code_ok(s, p),
        lowered_ok(l, s, p),
        reread_as_pair(l, from, pair, cx, s) is Ok,
    ensures
        ({
            let (v, s1) = reread_as_pair(l, from, pair, cx, s)->Ok_0;
            grown(s, s1, p) && is_there(v, s1.insts.len(), p)
        }),
{
    let (v, s4) = reread_as_pair(l, from, pair, cx, s)->Ok_0;
    let room = s4.insts[s.insts.len() as int];
    let sizes = (
        crate::llvm_gen::types::size_bytes(from, cx.facts.pointer_align as u64),
        crate::llvm_gen::types::size_bytes(pair, cx.facts.pointer_align as u64),
    );
    let from_size = sizes.0->Some_0;
    let pair_size = sizes.1->Some_0;
    let ty = if pair_size >= from_size {
        pair
    } else {
        from
    };
    let alloca = InstView::Alloca { ty, align: None };
    lemma_emit(s, alloca, p);
    let s1 = emit(s, alloca);
    assert(lowered_ok(l, s1, p));
    lemma_to_ptr(l, from, s1, p);
    let (source, s2) = to_ptr(l, from, s1);
    lemma_grown_trans(s, s1, s2, p);
    let copy = InstView::Copy {
        dest: next(s),
        source,
        align: cx.facts.pointer_align,
        extent: crate::llvm_gen::code::ExtentView::Bytes(
            (if from_size <= pair_size {
                from_size
            } else {
                pair_size
            }) as u64,
        ),
    };
    lemma_emit(s2, copy, p);
    let s3 = emit(s2, copy);
    lemma_grown_trans(s, s2, s3, p);
    let load = InstView::Load { ty: pair, ptr: next(s) };
    lemma_emit(s3, load, p);
    lemma_grown_trans(s, s3, emit(s3, load), p);
}

proof fn lemma_arg(e: TypedExprView, a: AbiParamView, cx: LowerCx, s: CodeView, p: nat)
    requires
        code_ok(s, p),
        lower_arg(e, a, cx, s) is Ok,
    ensures
        ({
            let (ops, s1) = lower_arg(e, a, cx, s)->Ok_0;
            grown(s, s1, p) && all_there(ops, s1.insts.len(), p)
        }),
    decreases e, 3int,
{
    lemma_expr(e, cx, s, p);
    let (l, s1) = lower_expr(e, cx, s)->Ok_0;
    match a {
        AbiParamView::Indirect => {
            let t = llvm_type(e.ty, cx.facts)->Ok_0;
            lemma_to_ptr(l, t, s1, p);
            lemma_grown_trans(s, s1, to_ptr(l, t, s1).1, p);
        },
        AbiParamView::Pair(x, y) => {
            let t = llvm_type(e.ty, cx.facts)->Ok_0;
            let pair = LlvmTypeView::Struct { fields: seq![x, y] };
            if t == pair {
                lemma_to_value(l, s1, p);
                let (v, vt, s2) = to_value(l, s1);
                lemma_grown_trans(s, s1, s2, p);
                lemma_split_pair(v, s2, p);
                lemma_grown_trans(s, s2, split_pair(v, s2).1, p);
            } else {
                lemma_reread(l, t, pair, cx, s1, p);
                let (v, s2) = reread_as_pair(l, t, pair, cx, s1)->Ok_0;
                lemma_grown_trans(s, s1, s2, p);
                lemma_split_pair(v, s2, p);
                lemma_grown_trans(s, s2, split_pair(v, s2).1, p);
            }
        },
        AbiParamView::Direct(target) => {
            let t = llvm_type(e.ty, cx.facts)->Ok_0;
            if t != target && t is Struct {
                lemma_to_ptr(l, t, s1, p);
                let (ptr, s2) = to_ptr(l, t, s1);
                lemma_grown_trans(s, s1, s2, p);
                let load = InstView::Load { ty: target, ptr };
                lemma_emit(s2, load, p);
                lemma_grown_trans(s, s2, emit(s2, load), p);
            } else {
                lemma_to_value(l, s1, p);
                let (v, vt, s2) = to_value(l, s1);
                lemma_grown_trans(s, s1, s2, p);
                lemma_coerce(v, vt, target, s2, p);
                lemma_grown_trans(s, s2, coerce_int(v, vt, target, s2).1, p);
            }
        },
        AbiParamView::Ignore => {},
    }
}

proof fn lemma_args(
    args: Seq<TypedExprView>,
    params: Seq<AbiParamView>,
    symbol: Seq<char>,
    cx: LowerCx,
    s: CodeView,
    p: nat,
)
    requires
        code_ok(s, p),
        lower_args(args, params, symbol, cx, s) is Ok,
    ensures
        ({
            let (ops, s1) = lower_args(args, params, symbol, cx, s)->Ok_0;
            grown(s, s1, p) && all_there(ops, s1.insts.len(), p)
        }),
    decreases args, 0int,
{
    if args.len() == 0 {
        lemma_grown_refl(s, p);
    } else {
        lemma_arg(args[0], params[0], cx, s, p);
        let (first, s1) = lower_arg(args[0], params[0], cx, s)->Ok_0;
        lemma_args(args.drop_first(), params.drop_first(), symbol, cx, s1, p);
        let (rest, s2) = lower_args(
            args.drop_first(),
            params.drop_first(),
            symbol,
            cx,
            s1,
        )->Ok_0;
        lemma_grown_trans(s, s1, s2, p);
        lemma_joined_there(first, rest, s1.insts.len(), s2.insts.len(), p);
    }
}

proof fn lemma_joined_there(
    a: Seq<OperandView>,
    b: Seq<OperandView>,
    n: nat,
    m: nat,
    p: nat,
)
    requires
        all_there(a, n, p),
        all_there(b, m, p),
        n <= m,
    ensures
        all_there(a + b, m, p),
{
    assert forall|i: int| 0 <= i < (a + b).len() implies is_there(
        #[trigger] (a + b)[i],
        m,
        p,
    ) by {
        if i < a.len() {
            assert((a + b)[i] == a[i]);
        } else {
            assert((a + b)[i] == b[i - a.len()]);
        }
    }
}

proof fn lemma_values(args: Seq<TypedExprView>, cx: LowerCx, s: CodeView, p: nat)
    requires
        code_ok(s, p),
        lower_values(args, cx, s) is Ok,
    ensures
        ({
            let (ops, s1) = lower_values(args, cx, s)->Ok_0;
            grown(s, s1, p) && all_there(ops, s1.insts.len(), p)
        }),
    decreases args, 0int,
{
    if args.len() == 0 {
        lemma_grown_refl(s, p);
    } else {
        lemma_expr(args[0], cx, s, p);
        let (l, s1) = lower_expr(args[0], cx, s)->Ok_0;
        lemma_to_value(l, s1, p);
        let (v, _, s2) = to_value(l, s1);
        lemma_grown_trans(s, s1, s2, p);
        lemma_values(args.drop_first(), cx, s2, p);
        let (rest, s3) = lower_values(args.drop_first(), cx, s2)->Ok_0;
        lemma_grown_trans(s, s2, s3, p);
        lemma_joined_there(seq![v], rest, s2.insts.len(), s3.insts.len(), p);
    }
}

proof fn lemma_return_room(ret: AbiReturnView, ty: ResolvedTypeView, cx: LowerCx, s: CodeView, p: nat)
    requires
        code_ok(s, p),
        return_room(ret, ty, cx, s) is Ok,
    ensures
        ({
            let (ops, s1) = return_room(ret, ty, cx, s)->Ok_0;
            grown(s, s1, p) && all_there(ops, s1.insts.len(), p)
        }),
{
    lemma_grown_refl(s, p);
    if ret is Indirect {
        let (size, align) = ask_layout(cx.facts, ty)->Ok_0;
        lemma_emit(
            s,
            InstView::Alloca { ty: crate::llvm_gen::abi::byte_array(size), align: Some(align) },
            p,
        );
    }
}

proof fn lemma_finish_method(
    abi: AbiView,
    ops: Seq<OperandView>,
    ty: ResolvedTypeView,
    cx: LowerCx,
    s: CodeView,
    p: nat,
)
    requires
        code_ok(s, p),
        all_there(ops, s.insts.len(), p),
        finish_method_call(abi, ops, ty, cx, s) is Ok,
    ensures
        ({
            let (l, s1) = finish_method_call(abi, ops, ty, cx, s)->Ok_0;
            grown(s, s1, p) && lowered_ok(l, s1, p)
        }),
{
    let args = if abi.takes_location {
        ops.push(OperandView::Null)
    } else {
        ops
    };
    assert(all_there(args, s.insts.len(), p));
    let call = InstView::Call { symbol: abi.symbol, args };
    lemma_emit(s, call, p);
}

proof fn lemma_finish_fn(
    abi: AbiView,
    ops: Seq<OperandView>,
    ty: ResolvedTypeView,
    cx: LowerCx,
    s: CodeView,
    p: nat,
)
    requires
        code_ok(s, p),
        all_there(ops, s.insts.len(), p),
        find_decl(s.decls, abi.symbol) is Some,
        finish_fn_call(abi, ops, ty, cx, s) is Ok,
    ensures
        ({
            let (l, s1) = finish_fn_call(abi, ops, ty, cx, s)->Ok_0;
            grown(s, s1, p) && lowered_ok(l, s1, p)
        }),
{
    let call = InstView::Call { symbol: abi.symbol, args: ops };
    lemma_emit(s, call, p);
    let s1 = emit(s, call);
    if !(abi.ret is Indirect && ops.len() > 0) {
        match find_decl(s.decls, abi.symbol) {
            None => {},
            Some(decl) => match decl.ret {
                None => {},
                Some(rt) => {
                    let t = llvm_type(ty, cx.facts)->Ok_0;
                    if rt != t {
                        let alloca = InstView::Alloca { ty: rt, align: None };
                        lemma_emit(s1, alloca, p);
                        let s2 = emit(s1, alloca);
                        let store = InstView::Store { ptr: next(s1), value: next(s) };
                        lemma_emit(s2, store, p);
                        lemma_grown_trans(s, s1, s2, p);
                        lemma_grown_trans(s, s2, emit(s2, store), p);
                    }
                },
            },
        }
    }
}

proof fn lemma_receiver_ptr(l: LoweredView, ty: ResolvedTypeView, s: CodeView, p: nat)
    requires
        code_ok(s, p),
        lowered_ok(l, s, p),
        receiver_ptr(l, ty, s) is Ok,
    ensures
        ({
            let (v, _, s1) = receiver_ptr(l, ty, s)->Ok_0;
            grown(s, s1, p) && is_there(v, s1.insts.len(), p)
        }),
{
    lemma_grown_refl(s, p);
    if ty is Ref {
        lemma_to_value(l, s, p);
    }
}

proof fn lemma_receiver_ops(
    recv: TypedExprView,
    ptr: OperandView,
    ptr_ty: LlvmTypeView,
    params: Seq<AbiParamView>,
    symbol: Seq<char>,
    cx: LowerCx,
    s: CodeView,
    p: nat,
)
    requires
        code_ok(s, p),
        is_there(ptr, s.insts.len(), p),
        receiver_ops(recv, ptr, ptr_ty, params, symbol, cx, s) is Ok,
    ensures
        ({
            let (ops, s1) = receiver_ops(recv, ptr, ptr_ty, params, symbol, cx, s)->Ok_0;
            grown(s, s1, p) && all_there(ops, s1.insts.len(), p)
        }),
    decreases recv, 4int,
{
    lemma_grown_refl(s, p);
    if params[0] is Pair {
        lemma_arg(recv, params[0], cx, s, p);
    }
}

proof fn lemma_field_place(
    l: LoweredView,
    ty: ResolvedTypeView,
    field: Seq<char>,
    cx: LowerCx,
    s: CodeView,
    p: nat,
)
    requires
        code_ok(s, p),
        lowered_ok(l, s, p),
        field_place(l, ty, field, cx, s) is Ok,
    ensures
        ({
            let (v, s1) = field_place(l, ty, field, cx, s)->Ok_0;
            grown(s, s1, p) && is_there(v, s1.insts.len(), p)
        }),
{
    let (name, field_types, referred) = struct_behind(ty)->Some_0;
    let fields = llvm_types(field_types, cx.facts)->Ok_0;
    let def = find(cx.registry.structs, name)->Some_0;
    let i = field_index(def.fields, field)->Some_0;
    let st = LlvmTypeView::Struct { fields };
    if referred {
        lemma_to_ptr(l, LlvmTypeView::Ptr, s, p);
        let (slot, s1) = to_ptr(l, LlvmTypeView::Ptr, s);
        let load = InstView::Load { ty: LlvmTypeView::Ptr, ptr: slot };
        lemma_emit(s1, load, p);
        let s2 = emit(s1, load);
        lemma_grown_trans(s, s1, s2, p);
        let gep = InstView::FieldPtr { ty: st, ptr: next(s1), field: i };
        lemma_emit(s2, gep, p);
        lemma_grown_trans(s, s2, emit(s2, gep), p);
    } else {
        lemma_to_ptr(l, st, s, p);
        let (ptr, s2) = to_ptr(l, st, s);
        let gep = InstView::FieldPtr { ty: st, ptr, field: i };
        lemma_emit(s2, gep, p);
        lemma_grown_trans(s, s2, emit(s2, gep), p);
    }
}

proof fn lemma_bytes(bytes: Seq<u8>, s: CodeView, p: nat)
    requires
        code_ok(s, p),
    ensures
        grown(s, lower_bytes(bytes, s).1, p),
        lowered_ok(lower_bytes(bytes, s).0, lower_bytes(bytes, s).1, p),
{
    let first = InstView::Bytes { bytes };
    lemma_emit(s, first, p);
    let s1 = emit(s, first);
    let pair = InstView::Pair {
        first_ty: LlvmTypeView::Ptr,
        second_ty: LlvmTypeView::Int { bits: 64 },
        first: next(s),
        second: OperandView::Int { bits: 64, value: bytes.len() as i64 },
    };
    lemma_emit(s1, pair, p);
    lemma_grown_trans(s, s1, emit(s1, pair), p);
}

/// What an expression is lowered to is in order.
proof fn lemma_expr(e: TypedExprView, cx: LowerCx, s: CodeView, p: nat)
    requires
        code_ok(s, p),
        lower_expr(e, cx, s) is Ok,
    ensures
        ({
            let (l, s1) = lower_expr(e, cx, s)->Ok_0;
            grown(s, s1, p) && lowered_ok(l, s1, p)
        }),
    decreases e, 2int,
{
    lemma_grown_refl(s, p);
    match e.kind {
        TypedExprKindView::IntLit(_) | TypedExprKindView::BoolLit(_) => {},
        TypedExprKindView::Var(name) => {
            let i = lemma_find_some(s.vars, name);
            assert(is_there(s.vars[i].1.ptr, s.insts.len(), p));
        },
        TypedExprKindView::StringLit(text) => {
            lemma_bytes(encode_utf8(text), s, p);
        },
        TypedExprKindView::ByteStringLit(bytes) => {
            lemma_bytes(bytes, s, p);
        },
        TypedExprKindView::BinaryOp { .. } => {
            lemma_binary(e.kind, cx, s, p);
        },
        TypedExprKindView::StructLit { .. } => {
            lemma_struct_lit(e.kind, e.ty, cx, s, p);
        },
        TypedExprKindView::FnCall { .. } => {
            lemma_fn_call(e.kind, e.ty, cx, s, p);
        },
        TypedExprKindView::StaticCall { .. } => {
            lemma_static_call(e.kind, e.ty, cx, s, p);
        },
        TypedExprKindView::MethodCall { .. } => {
            lemma_method_call(e.kind, e.ty, cx, s, p);
        },
        TypedExprKindView::FieldAccess { .. } => {
            lemma_field_access(e.kind, e.ty, cx, s, p);
        },
        TypedExprKindView::If { .. } => {
            lemma_if(e.kind, cx, s, p);
        },
        TypedExprKindView::Ref(_) => {
            lemma_ref(e.kind, cx, s, p);
        },
    }
}

proof fn lemma_binary(k: TypedExprKindView, cx: LowerCx, s: CodeView, p: nat)
    requires
        k is BinaryOp,
        code_ok(s, p),
        lower_binary(k, cx, s) is Ok,
    ensures
        ({
            let (l, s1) = lower_binary(k, cx, s)->Ok_0;
            grown(s, s1, p) && lowered_ok(l, s1, p)
        }),
    decreases k, 0int,
{
    match k {
        TypedExprKindView::BinaryOp { op, left, right } => {
            lemma_expr(*left, cx, s, p);
            let (l, s1) = lower_expr(*left, cx, s)->Ok_0;
            lemma_to_value(l, s1, p);
            let (a, at, s2) = to_value(l, s1);
            lemma_grown_trans(s, s1, s2, p);
            lemma_expr(*right, cx, s2, p);
            let (r, s3) = lower_expr(*right, cx, s2)->Ok_0;
            lemma_grown_trans(s, s2, s3, p);
            lemma_to_value(r, s3, p);
            let (b, bt, s4) = to_value(r, s3);
            lemma_grown_trans(s, s3, s4, p);
            if at is Int && bt is Int {
                let inst = InstView::IntOp { op, left: a, right: b };
                lemma_emit(s4, inst, p);
                lemma_grown_trans(s, s4, emit(s4, inst), p);
            } else {
                let inst = InstView::FloatOp { op, left: a, right: b };
                lemma_emit(s4, inst, p);
                lemma_grown_trans(s, s4, emit(s4, inst), p);
            }
        },
        _ => {},
    }
}

proof fn lemma_struct_lit(
    k: TypedExprKindView,
    ty: ResolvedTypeView,
    cx: LowerCx,
    s: CodeView,
    p: nat,
)
    requires
        k is StructLit,
        code_ok(s, p),
        lower_struct_lit(k, ty, cx, s) is Ok,
    ensures
        ({
            let (l, s1) = lower_struct_lit(k, ty, cx, s)->Ok_0;
            grown(s, s1, p) && lowered_ok(l, s1, p)
        }),
    decreases k, 0int,
{
    match k {
        TypedExprKindView::StructLit { name, fields } => match ty {
            ResolvedTypeView::Struct { name: _, type_args: _, field_types } => {
                let types = llvm_types(field_types, cx.facts)->Ok_0;
                let st = LlvmTypeView::Struct { fields: types };
                let def = find(cx.registry.structs, name)->Some_0;
                let alloca = InstView::Alloca { ty: st, align: None };
                lemma_emit(s, alloca, p);
                let s1 = emit(s, alloca);
                lemma_lit_fields(fields, name, def.fields, types, next(s), cx, s1, p);
                let s2 = lower_lit_fields(
                    fields,
                    name,
                    def.fields,
                    types,
                    next(s),
                    cx,
                    s1,
                )->Ok_0;
                lemma_grown_trans(s, s1, s2, p);
            },
            _ => {},
        },
        _ => {},
    }
}

proof fn lemma_lit_fields(
    fields: Seq<(Seq<char>, TypedExprView)>,
    name: Seq<char>,
    defs: Seq<ToyFieldView>,
    types: Seq<LlvmTypeView>,
    base: OperandView,
    cx: LowerCx,
    s: CodeView,
    p: nat,
)
    requires
        code_ok(s, p),
        is_there(base, s.insts.len(), p),
        lower_lit_fields(fields, name, defs, types, base, cx, s) is Ok,
    ensures
        grown(s, lower_lit_fields(fields, name, defs, types, base, cx, s)->Ok_0, p),
    decreases fields, 0int,
{
    if fields.len() == 0 {
        lemma_grown_refl(s, p);
    } else {
        let (field, e) = fields[0];
        let i = field_index(defs, field)->Some_0;
        let gep = InstView::FieldPtr {
            ty: LlvmTypeView::Struct { fields: types },
            ptr: base,
            field: i,
        };
        lemma_emit(s, gep, p);
        let s1 = emit(s, gep);
        lemma_expr(e, cx, s1, p);
        let (l, s2) = lower_expr(e, cx, s1)->Ok_0;
        lemma_grown_trans(s, s1, s2, p);
        let t = llvm_type(e.ty, cx.facts)->Ok_0;
        let s4 = if e.ty is Struct || e.ty is RustType {
            lemma_to_ptr(l, t, s2, p);
            let (source, s3) = to_ptr(l, t, s2);
            lemma_grown_trans(s, s2, s3, p);
            let copy = InstView::Copy {
                dest: next(s),
                source,
                align: 8,
                extent: crate::llvm_gen::code::ExtentView::SizeOf(t),
            };
            lemma_emit(s3, copy, p);
            lemma_grown_trans(s, s3, emit(s3, copy), p);
            emit(s3, copy)
        } else {
            lemma_to_value(l, s2, p);
            let (value, _, s3) = to_value(l, s2);
            lemma_grown_trans(s, s2, s3, p);
            let store = InstView::Store { ptr: next(s), value };
            lemma_emit(s3, store, p);
            lemma_grown_trans(s, s3, emit(s3, store), p);
            emit(s3, store)
        };
        lemma_lit_fields(fields.drop_first(), name, defs, types, base, cx, s4, p);
        let s5 = lower_lit_fields(fields.drop_first(), name, defs, types, base, cx, s4)->Ok_0;
        lemma_grown_trans(s, s4, s5, p);
    }
}

/// A declaration keeps what was declared, and is found.
pub proof fn lemma_declare_keeps(decls: Seq<DeclView>, decl: DeclView)
    ensures
        keeps(decls, declare(decls, decl)),
        find_decl(declare(decls, decl), decl.symbol) is Some,
{
    assert forall|symbol: Seq<char>| find_decl(decls, symbol) is Some implies #[trigger] find_decl(
        declare(decls, decl),
        symbol,
    ) == find_decl(decls, symbol) by {
        lemma_declared_found(decls, decl, symbol);
    }
    lemma_declared_found(decls, decl, decl.symbol);
}

proof fn lemma_other_tables(s: CodeView, s1: CodeView, p: nat)
    requires
        code_ok(s, p),
        keeps(s.decls, s1.decls),
        s1.insts == s.insts,
        s1.vars == s.vars,
        s1.block == s.block,
    ensures
        grown(s, s1, p),
{
    lemma_grown_refl(s, p);
}

proof fn lemma_fn_call(
    k: TypedExprKindView,
    ty: ResolvedTypeView,
    cx: LowerCx,
    s: CodeView,
    p: nat,
)
    requires
        k is FnCall,
        code_ok(s, p),
        lower_fn_call(k, ty, cx, s) is Ok,
    ensures
        ({
            let (l, s1) = lower_fn_call(k, ty, cx, s)->Ok_0;
            grown(s, s1, p) && lowered_ok(l, s1, p)
        }),
    decreases k, 1int,
{
    match k {
        TypedExprKindView::FnCall { name, type_args, args } => match find(
            cx.registry.functions,
            name,
        ) {
            None => {
                lemma_rust_fn_call(k, RustDepView::FreeFn { name, type_args }, ty, cx, s, p);
            },
            Some(f) => {
                if f.body is None {
                    lemma_rust_fn_call(k, RustDepView::Declared { name }, ty, cx, s, p);
                } else {
                    lemma_internal_call(k, ty, cx, s, p);
                }
            },
        },
        _ => {},
    }
}

proof fn lemma_rust_fn_call(
    k: TypedExprKindView,
    dep: RustDepView,
    ty: ResolvedTypeView,
    cx: LowerCx,
    s: CodeView,
    p: nat,
)
    requires
        k is FnCall,
        code_ok(s, p),
        lower_rust_fn_call(k, dep, ty, cx, s) is Ok,
    ensures
        ({
            let (l, s1) = lower_rust_fn_call(k, dep, ty, cx, s)->Ok_0;
            grown(s, s1, p) && lowered_ok(l, s1, p)
        }),
    decreases k, 0int,
{
    match k {
        TypedExprKindView::FnCall { name, type_args, args } => {
            let abi = ask_abi(cx.facts, dep)->Ok_0;
            let s1 = CodeView {
                decls: declare(s.decls, abi_decl(abi)),
                rust_symbols: s.rust_symbols.push(abi.symbol),
                ..s
            };
            lemma_declare_keeps(s.decls, abi_decl(abi));
            lemma_other_tables(s, s1, p);
            lemma_return_room(abi.ret, ty, cx, s1, p);
            let (room, s2) = return_room(abi.ret, ty, cx, s1)->Ok_0;
            lemma_grown_trans(s, s1, s2, p);
            lemma_args(args, abi.params, abi.symbol, cx, s2, p);
            let (ops, s3) = lower_args(args, abi.params, abi.symbol, cx, s2)->Ok_0;
            lemma_grown_trans(s, s2, s3, p);
            lemma_joined_there(room, ops, s2.insts.len(), s3.insts.len(), p);
            lemma_finish_fn(abi, room + ops, ty, cx, s3, p);
            lemma_grown_trans(s, s3, finish_fn_call(abi, room + ops, ty, cx, s3)->Ok_0.1, p);
        },
        _ => {},
    }
}

proof fn lemma_internal_call(
    k: TypedExprKindView,
    ty: ResolvedTypeView,
    cx: LowerCx,
    s: CodeView,
    p: nat,
)
    requires
        k is FnCall,
        code_ok(s, p),
        lower_internal_call(k, ty, cx, s) is Ok,
    ensures
        ({
            let (l, s1) = lower_internal_call(k, ty, cx, s)->Ok_0;
            grown(s, s1, p) && lowered_ok(l, s1, p)
        }),
    decreases k, 0int,
{
    match k {
        TypedExprKindView::FnCall { name, type_args, args } => {
            let symbol = internal_symbol(name, type_args);
            let arg_types = llvm_types(types_of(args), cx.facts)->Ok_0;
            let ret = internal_return(ty, cx)->Ok_0;
            let s1 = CodeView {
                decls: declare(
                    s.decls,
                    internal_decl(symbol, arg_types, ty, ret),
                ),
                ..s
            };
            lemma_declare_keeps(s.decls, internal_decl(symbol, arg_types, ty, ret));
            lemma_other_tables(s, s1, p);
            if internal_sret(ty) {
                let t = llvm_type(ty, cx.facts)->Ok_0;
                let alloca = InstView::Alloca { ty: t, align: None };
                lemma_emit(s1, alloca, p);
                let room = emit(s1, alloca);
                lemma_grown_trans(s, s1, room, p);
                lemma_values(args, cx, room, p);
                let (ops, s2) = lower_values(args, cx, room)->Ok_0;
                lemma_grown_trans(s, room, s2, p);
                lemma_joined_there(seq![next(s1)], ops, room.insts.len(), s2.insts.len(), p);
                let call = InstView::Call { symbol, args: seq![next(s1)] + ops };
                lemma_emit(s2, call, p);
                lemma_grown_trans(s, s2, emit(s2, call), p);
            } else {
                lemma_values(args, cx, s1, p);
                let (ops, s2) = lower_values(args, cx, s1)->Ok_0;
                lemma_grown_trans(s, s1, s2, p);
                let call = InstView::Call { symbol, args: ops };
                lemma_emit(s2, call, p);
                lemma_grown_trans(s, s2, emit(s2, call), p);
            }
        },
        _ => {},
    }
}

proof fn lemma_use_method(d: RustMethodDepView, cx: LowerCx, s: CodeView, p: nat)
    requires
        code_ok(s, p),
        use_method(d, cx, s) is Ok,
    ensures
        grown(s, use_method(d, cx, s)->Ok_0.1, p),
{
    lemma_declare_keeps(s.decls, abi_decl(use_method(d, cx, s)->Ok_0.0));
    lemma_other_tables(s, use_method(d, cx, s)->Ok_0.1, p);
}

proof fn lemma_static_call(
    k: TypedExprKindView,
    ty: ResolvedTypeView,
    cx: LowerCx,
    s: CodeView,
    p: nat,
)
    requires
        k is StaticCall,
        code_ok(s, p),
        lower_static_call(k, ty, cx, s) is Ok,
    ensures
        ({
            let (l, s1) = lower_static_call(k, ty, cx, s)->Ok_0;
            grown(s, s1, p) && lowered_ok(l, s1, p)
        }),
    decreases k, 0int,
{
    match k {
        TypedExprKindView::StaticCall { ty: owner, method, type_args, args } => {
            let d = RustMethodDepView {
                owner,
                method_name: method,
                type_args,
                receiver_ty: if args.len() == 0 {
                    None
                } else {
                    Some(args[0].ty)
                },
            };
            lemma_use_method(d, cx, s, p);
            let (abi, s1) = use_method(d, cx, s)->Ok_0;
            if args.len() > 0 && ask_trait(cx.answers, owner) == Ok::<
                bool,
                crate::toylang::type_resolve::TypeResolveErrorView,
            >(true) {
                let recv = args[0];
                lemma_expr(recv, cx, s1, p);
                let (l, s2) = lower_expr(recv, cx, s1)->Ok_0;
                lemma_grown_trans(s, s1, s2, p);
                lemma_receiver_ptr(l, recv.ty, s2, p);
                let (ptr, ptr_ty, s3) = receiver_ptr(l, recv.ty, s2)->Ok_0;
                lemma_grown_trans(s, s2, s3, p);
                lemma_return_room(abi.ret, ty, cx, s3, p);
                let (room, s4) = return_room(abi.ret, ty, cx, s3)->Ok_0;
                lemma_grown_trans(s, s3, s4, p);
                lemma_receiver_ops(recv, ptr, ptr_ty, abi.params, abi.symbol, cx, s4, p);
                let (first, s5) = receiver_ops(
                    recv,
                    ptr,
                    ptr_ty,
                    abi.params,
                    abi.symbol,
                    cx,
                    s4,
                )->Ok_0;
                lemma_grown_trans(s, s4, s5, p);
                lemma_args(args.drop_first(), abi.params.drop_first(), abi.symbol, cx, s5, p);
                let (ops, s6) = lower_args(
                    args.drop_first(),
                    abi.params.drop_first(),
                    abi.symbol,
                    cx,
                    s5,
                )->Ok_0;
                lemma_grown_trans(s, s5, s6, p);
                lemma_joined_there(room, first, s4.insts.len(), s5.insts.len(), p);
                lemma_joined_there(room + first, ops, s5.insts.len(), s6.insts.len(), p);
                lemma_finish_method(abi, room + first + ops, ty, cx, s6, p);
                lemma_grown_trans(
                    s,
                    s6,
                    finish_method_call(abi, room + first + ops, ty, cx, s6)->Ok_0.1,
                    p,
                );
            } else {
                lemma_return_room(abi.ret, ty, cx, s1, p);
                let (room, s2) = return_room(abi.ret, ty, cx, s1)->Ok_0;
                lemma_grown_trans(s, s1, s2, p);
                lemma_args(args, abi.params, abi.symbol, cx, s2, p);
                let (ops, s3) = lower_args(args, abi.params, abi.symbol, cx, s2)->Ok_0;
                lemma_grown_trans(s, s2, s3, p);
                lemma_joined_there(room, ops, s2.insts.len(), s3.insts.len(), p);
                lemma_finish_method(abi, room + ops, ty, cx, s3, p);
                lemma_grown_trans(
                    s,
                    s3,
                    finish_method_call(abi, room + ops, ty, cx, s3)->Ok_0.1,
                    p,
                );
            }
        },
        _ => {},
    }
}

proof fn lemma_method_call(
    k: TypedExprKindView,
    ty: ResolvedTypeView,
    cx: LowerCx,
    s: CodeView,
    p: nat,
)
    requires
        k is MethodCall,
        code_ok(s, p),
        lower_method_call(k, ty, cx, s) is Ok,
    ensures
        ({
            let (l, s1) = lower_method_call(k, ty, cx, s)->Ok_0;
            grown(s, s1, p) && lowered_ok(l, s1, p)
        }),
    decreases k, 0int,
{
    match k {
        TypedExprKindView::MethodCall { receiver, method, args } => {
            let recv = *receiver;
            lemma_expr(recv, cx, s, p);
            let (l, s1) = lower_expr(recv, cx, s)->Ok_0;
            lemma_receiver_ptr(l, recv.ty, s1, p);
            let (ptr, ptr_ty, s2) = receiver_ptr(l, recv.ty, s1)->Ok_0;
            lemma_grown_trans(s, s1, s2, p);
            let (owner, type_args) = rust_receiver(recv.ty)->Some_0;
            let d = RustMethodDepView { owner, method_name: method, type_args, receiver_ty: None };
            lemma_use_method(d, cx, s2, p);
            let (abi, s3) = use_method(d, cx, s2)->Ok_0;
            lemma_grown_trans(s, s2, s3, p);
            lemma_return_room(abi.ret, ty, cx, s3, p);
            let (room, s4) = return_room(abi.ret, ty, cx, s3)->Ok_0;
            lemma_grown_trans(s, s3, s4, p);
            lemma_receiver_ops(recv, ptr, ptr_ty, abi.params, abi.symbol, cx, s4, p);
            let (first, s5) = receiver_ops(
                recv,
                ptr,
                ptr_ty,
                abi.params,
                abi.symbol,
                cx,
                s4,
            )->Ok_0;
            lemma_grown_trans(s, s4, s5, p);
            lemma_args(args, abi.params.drop_first(), abi.symbol, cx, s5, p);
            let (ops, s6) = lower_args(
                args,
                abi.params.drop_first(),
                abi.symbol,
                cx,
                s5,
            )->Ok_0;
            lemma_grown_trans(s, s5, s6, p);
            lemma_joined_there(room, first, s4.insts.len(), s5.insts.len(), p);
            lemma_joined_there(room + first, ops, s5.insts.len(), s6.insts.len(), p);
            lemma_finish_method(abi, room + first + ops, ty, cx, s6, p);
            lemma_grown_trans(
                s,
                s6,
                finish_method_call(abi, room + first + ops, ty, cx, s6)->Ok_0.1,
                p,
            );
        },
        _ => {},
    }
}

proof fn lemma_field_access(
    k: TypedExprKindView,
    ty: ResolvedTypeView,
    cx: LowerCx,
    s: CodeView,
    p: nat,
)
    requires
        k is FieldAccess,
        code_ok(s, p),
        lower_field_access(k, ty, cx, s) is Ok,
    ensures
        ({
            let (l, s1) = lower_field_access(k, ty, cx, s)->Ok_0;
            grown(s, s1, p) && lowered_ok(l, s1, p)
        }),
    decreases k, 0int,
{
    match k {
        TypedExprKindView::FieldAccess { receiver, field } => {
            lemma_expr(*receiver, cx, s, p);
            let (l, s1) = lower_expr(*receiver, cx, s)->Ok_0;
            lemma_field_place(l, receiver.ty, field, cx, s1, p);
            let (ptr, s2) = field_place(l, receiver.ty, field, cx, s1)->Ok_0;
            lemma_grown_trans(s, s1, s2, p);
            let t = llvm_type(ty, cx.facts)->Ok_0;
            if !(ty is Struct || ty is RustType) {
                let load = InstView::Load { ty: t, ptr };
                lemma_emit(s2, load, p);
                lemma_grown_trans(s, s2, emit(s2, load), p);
            }
        },
        _ => {},
    }
}

proof fn lemma_ref(k: TypedExprKindView, cx: LowerCx, s: CodeView, p: nat)
    requires
        k is Ref,
        code_ok(s, p),
        lower_ref(k, cx, s) is Ok,
    ensures
        ({
            let (l, s1) = lower_ref(k, cx, s)->Ok_0;
            grown(s, s1, p) && lowered_ok(l, s1, p)
        }),
    decreases k, 0int,
{
    match k {
        TypedExprKindView::Ref(inner) => match inner.kind {
            TypedExprKindView::FieldAccess { receiver, field } if struct_behind(
                receiver.ty,
            ) is Some => {
                lemma_expr(*receiver, cx, s, p);
                let (l, s1) = lower_expr(*receiver, cx, s)->Ok_0;
                lemma_field_place(l, receiver.ty, field, cx, s1, p);
                let (ptr, s2) = field_place(l, receiver.ty, field, cx, s1)->Ok_0;
                lemma_grown_trans(s, s1, s2, p);
            },
            _ => {
                lemma_expr(*inner, cx, s, p);
                let (l, s1) = lower_expr(*inner, cx, s)->Ok_0;
                let t = llvm_type(inner.ty, cx.facts)->Ok_0;
                lemma_to_ptr(l, t, s1, p);
                lemma_grown_trans(s, s1, to_ptr(l, t, s1).1, p);
            },
        },
        _ => {},
    }
}

proof fn lemma_opt(e: Option<Box<TypedExprView>>, cx: LowerCx, s: CodeView, p: nat)
    requires
        code_ok(s, p),
        lower_opt(e, cx, s) is Ok,
    ensures
        ({
            let (v, s1) = lower_opt(e, cx, s)->Ok_0;
            &&& grown(s, s1, p)
            &&& v matches Some((o, _)) ==> is_there(o, s1.insts.len(), p)
        }),
    decreases e, 0int,
{
    lemma_grown_refl(s, p);
    match e {
        None => {},
        Some(x) => {
            lemma_expr(*x, cx, s, p);
            let (l, s1) = lower_expr(*x, cx, s)->Ok_0;
            lemma_to_value(l, s1, p);
            lemma_grown_trans(s, s1, to_value(l, s1).2, p);
        },
    }
}

proof fn lemma_three_blocks(s: CodeView, p: nat)
    requires
        code_ok(s, p),
    ensures
        ({
            let n = s.insts.len();
            let s3 = emit(
                emit(emit(s, InstView::Block), InstView::Block),
                InstView::Block,
            );
            &&& grown(s, s3, p)
            &&& s3.insts.len() == n + 3
            &&& is_block(s3.insts, n, n + 3)
            &&& is_block(s3.insts, n + 1, n + 3)
            &&& is_block(s3.insts, n + 2, n + 3)
        }),
{
    let s1 = emit(s, InstView::Block);
    let s2 = emit(s1, InstView::Block);
    let s3 = emit(s2, InstView::Block);
    lemma_emit(s, InstView::Block, p);
    lemma_emit(s1, InstView::Block, p);
    lemma_emit(s2, InstView::Block, p);
    lemma_grown_trans(s, s1, s2, p);
    lemma_grown_trans(s, s2, s3, p);
}

proof fn lemma_branch(s: CodeView, cond: OperandView, a: nat, b: nat, p: nat)
    requires
        code_ok(s, p),
        is_there(cond, s.insts.len(), p),
        is_block(s.insts, a, s.insts.len()),
        is_block(s.insts, b, s.insts.len()),
    ensures
        grown(s, emit(s, InstView::Branch { cond, then_block: a, else_block: b }), p),
{
    let inst = InstView::Branch { cond, then_block: a, else_block: b };
    assert(s.insts.push(inst)[a as int] == s.insts[a as int]);
    assert(s.insts.push(inst)[b as int] == s.insts[b as int]);
    lemma_emit(s, inst, p);
}

proof fn lemma_jump(s: CodeView, block: nat, p: nat)
    requires
        code_ok(s, p),
        is_block(s.insts, block, s.insts.len()),
    ensures
        grown(s, emit(s, InstView::Jump { block }), p),
{
    let inst = InstView::Jump { block };
    assert(s.insts.push(inst)[block as int] == s.insts[block as int]);
    lemma_emit(s, inst, p);
}

#[verifier::rlimit(40)]
proof fn lemma_if(k: TypedExprKindView, cx: LowerCx, s: CodeView, p: nat)
    requires
        k is If,
        code_ok(s, p),
        lower_if(k, cx, s) is Ok,
    ensures
        ({
            let (l, s1) = lower_if(k, cx, s)->Ok_0;
            grown(s, s1, p) && lowered_ok(l, s1, p)
        }),
    decreases k, 0int,
{
    match k {
        TypedExprKindView::If { cond, then_stmts, then_expr, else_stmts, else_expr } => {
            lemma_expr(*cond, cx, s, p);
            let (c, s1) = lower_expr(*cond, cx, s)->Ok_0;
            lemma_to_value(c, s1, p);
            let (cond_value, _, s2) = to_value(c, s1);
            lemma_grown_trans(s, s1, s2, p);
            let then_block = s2.insts.len();
            let else_block = then_block + 1;
            let merge_block = then_block + 2;
            lemma_three_blocks(s2, p);
            let s3 = emit(
                emit(emit(s2, InstView::Block), InstView::Block),
                InstView::Block,
            );
            lemma_grown_trans(s, s2, s3, p);
            let other = if else_stmts.len() == 0 && else_expr is None {
                merge_block
            } else {
                else_block
            };
            lemma_branch(s3, cond_value, then_block, other, p);
            let s4 = emit(
                s3,
                InstView::Branch { cond: cond_value, then_block, else_block: other },
            );
            lemma_grown_trans(s, s3, s4, p);
            lemma_grown_block(s3, s4, then_block, s3.insts.len(), p);
            lemma_enter(s4, then_block, p);
            let t0 = enter(s4, then_block);
            lemma_grown_trans(s3, s4, t0, p);
            lemma_stmts(then_stmts, cx, t0, p);
            let s5 = lower_stmts(then_stmts, cx, t0)->Ok_0;
            lemma_grown_trans(s3, t0, s5, p);
            lemma_opt(then_expr, cx, s5, p);
            let (then_value, s6) = lower_opt(then_expr, cx, s5)->Ok_0;
            lemma_grown_trans(s3, s5, s6, p);
            lemma_grown_block(s3, s6, merge_block, s3.insts.len(), p);
            lemma_jump(s6, merge_block, p);
            let j1 = emit(s6, InstView::Jump { block: merge_block });
            lemma_grown_trans(s3, s6, j1, p);
            lemma_grown_block(s3, j1, else_block, s3.insts.len(), p);
            lemma_enter(j1, else_block, p);
            let e0 = enter(j1, else_block);
            lemma_grown_trans(s3, j1, e0, p);
            lemma_grown_trans(s2, s3, e0, p);
            lemma_vars_stay(s2, e0, p);
            lemma_set_vars(e0, s2.vars, p);
            let s7 = CodeView { vars: s2.vars, ..e0 };
            lemma_grown_trans(s3, e0, s7, p);
            lemma_stmts(else_stmts, cx, s7, p);
            let s8 = lower_stmts(else_stmts, cx, s7)->Ok_0;
            lemma_grown_trans(s3, s7, s8, p);
            lemma_opt(else_expr, cx, s8, p);
            let (else_value, s9) = lower_opt(else_expr, cx, s8)->Ok_0;
            lemma_grown_trans(s3, s8, s9, p);
            lemma_grown_block(s3, s9, merge_block, s3.insts.len(), p);
            lemma_jump(s9, merge_block, p);
            let j2 = emit(s9, InstView::Jump { block: merge_block });
            lemma_grown_trans(s3, s9, j2, p);
            lemma_grown_block(s3, j2, merge_block, s3.insts.len(), p);
            lemma_enter(j2, merge_block, p);
            let m0 = enter(j2, merge_block);
            lemma_grown_trans(s3, j2, m0, p);
            lemma_grown_trans(s2, s3, m0, p);
            lemma_vars_stay(s2, m0, p);
            lemma_set_vars(m0, s2.vars, p);
            let s10 = CodeView { vars: s2.vars, ..m0 };
            lemma_grown_trans(s3, m0, s10, p);
            lemma_grown_trans(s, s3, s10, p);
            match (then_value, else_value) {
                (Some((a, t)), Some((b, _))) => {
                    let phi = InstView::Phi {
                        ty: t,
                        first: a,
                        first_block: s6.block,
                        second: b,
                        second_block: s9.block,
                    };
                    lemma_grown_trans(s6, j1, e0, p);
                    lemma_grown_trans(s6, e0, s7, p);
                    lemma_grown_trans(s6, s7, s8, p);
                    lemma_grown_trans(s6, s8, s9, p);
                    lemma_grown_trans(s9, j2, m0, p);
                    lemma_grown_trans(s9, m0, s10, p);
                    lemma_grown_trans(s6, s9, s10, p);
                    lemma_grown_block(s6, s10, s6.block, s6.insts.len(), p);
                    lemma_grown_block(s9, s10, s9.block, s9.insts.len(), p);
                    assert(s10.insts.push(phi)[s6.block as int] == s10.insts[s6.block as int]);
                    assert(s10.insts.push(phi)[s9.block as int] == s10.insts[s9.block as int]);
                    lemma_emit(s10, phi, p);
                    lemma_grown_trans(s, s10, emit(s10, phi), p);
                },
                _ => {},
            }
        },
        _ => {},
    }
}

proof fn lemma_stmts(stmts: Seq<TypedStmtView>, cx: LowerCx, s: CodeView, p: nat)
    requires
        code_ok(s, p),
        lower_stmts(stmts, cx, s) is Ok,
    ensures
        grown(s, lower_stmts(stmts, cx, s)->Ok_0, p),
    decreases stmts, 0int,
{
    if stmts.len() == 0 {
        lemma_grown_refl(s, p);
    } else {
        lemma_stmt(stmts[0], cx, s, p);
        let s1 = lower_stmt(stmts[0], cx, s)->Ok_0;
        lemma_stmts(stmts.drop_first(), cx, s1, p);
        lemma_grown_trans(s, s1, lower_stmts(stmts.drop_first(), cx, s1)->Ok_0, p);
    }
}

proof fn lemma_write_back(before: Seq<(Seq<char>, SlotView)>, s: CodeView, p: nat)
    requires
        code_ok(s, p),
        forall|i: int|
            0 <= i < before.len() ==> is_there((#[trigger] before[i]).1.ptr, s.insts.len(), p),
    ensures
        grown(s, write_back(before, s), p),
    decreases before.len(),
{
    lemma_grown_refl(s, p);
    if before.len() > 0 {
        let (name, slot) = before[0];
        assert(is_there(before[0].1.ptr, s.insts.len(), p));
        let rest = before.drop_first();
        match find(s.vars, name) {
            Some(new) if new.ptr != slot.ptr => {
                let i = lemma_find_some(s.vars, name);
                assert(is_there(s.vars[i].1.ptr, s.insts.len(), p));
                let load = InstView::Load { ty: slot.ty, ptr: new.ptr };
                lemma_emit(s, load, p);
                let s1 = emit(s, load);
                let store = InstView::Store { ptr: slot.ptr, value: next(s) };
                lemma_emit(s1, store, p);
                let s2 = emit(s1, store);
                lemma_grown_trans(s, s1, s2, p);
                assert forall|k: int| 0 <= k < rest.len() implies is_there(
                    (#[trigger] rest[k]).1.ptr,
                    s2.insts.len(),
                    p,
                ) by {
                    assert(rest[k] == before[k + 1]);
                }
                lemma_write_back(rest, s2, p);
                lemma_grown_trans(s, s2, write_back(rest, s2), p);
            },
            _ => {
                assert forall|k: int| 0 <= k < rest.len() implies is_there(
                    (#[trigger] rest[k]).1.ptr,
                    s.insts.len(),
                    p,
                ) by {
                    assert(rest[k] == before[k + 1]);
                }
                lemma_write_back(rest, s, p);
            },
        }
    }
}

proof fn lemma_stmt(stmt: TypedStmtView, cx: LowerCx, s: CodeView, p: nat)
    requires
        code_ok(s, p),
        lower_stmt(stmt, cx, s) is Ok,
    ensures
        grown(s, lower_stmt(stmt, cx, s)->Ok_0, p),
    decreases stmt, 1int,
{
    match stmt {
        TypedStmtView::Let { name, expr } => {
            lemma_expr(expr, cx, s, p);
            let (l, s1) = lower_expr(expr, cx, s)->Ok_0;
            match l {
                LoweredView::Ptr(ptr, ty) => {
                    lemma_put_there(s1.vars, name, SlotView { ptr, ty }, s1.insts.len(), p);
                    let vars = put(s1.vars, name, SlotView { ptr, ty });
                    lemma_set_vars(s1, vars, p);
                    lemma_grown_trans(s, s1, CodeView { vars, ..s1 }, p);
                },
                LoweredView::Value(value, ty) => {
                    lemma_to_ptr(l, ty, s1, p);
                    let s2 = to_ptr(l, ty, s1).1;
                    lemma_grown_trans(s, s1, s2, p);
                    let slot = SlotView { ptr: next(s1), ty };
                    lemma_put_there(s2.vars, name, slot, s2.insts.len(), p);
                    let vars = put(s2.vars, name, slot);
                    lemma_set_vars(s2, vars, p);
                    lemma_grown_trans(s, s2, CodeView { vars, ..s2 }, p);
                },
            }
        },
        TypedStmtView::ExprStmt(expr) => {
            lemma_expr(expr, cx, s, p);
        },
        TypedStmtView::Assign { name, expr } => {
            let i = lemma_find_some(s.vars, name);
            assert(is_there(s.vars[i].1.ptr, s.insts.len(), p));
            let slot = find(s.vars, name)->Some_0;
            lemma_expr(expr, cx, s, p);
            let (l, s1) = lower_expr(expr, cx, s)->Ok_0;
            lemma_to_value(l, s1, p);
            let (value, _, s2) = to_value(l, s1);
            lemma_grown_trans(s, s1, s2, p);
            let store = InstView::Store { ptr: slot.ptr, value };
            lemma_emit(s2, store, p);
            lemma_grown_trans(s, s2, emit(s2, store), p);
        },
        TypedStmtView::While { .. } => {
            lemma_while(stmt, cx, s, p);
        },
    }
}

proof fn lemma_while(stmt: TypedStmtView, cx: LowerCx, s: CodeView, p: nat)
    requires
        stmt is While,
        code_ok(s, p),
        lower_while(stmt, cx, s) is Ok,
    ensures
        grown(s, lower_while(stmt, cx, s)->Ok_0, p),
    decreases stmt, 0int,
{
    match stmt {
        TypedStmtView::While { cond, body } => {
            let header = s.insts.len();
            let body_block = header + 1;
            let exit = header + 2;
            lemma_three_blocks(s, p);
            let s1 = emit(emit(emit(s, InstView::Block), InstView::Block), InstView::Block);
            lemma_jump(s1, header, p);
            let j = emit(s1, InstView::Jump { block: header });
            lemma_grown_block(s1, j, header, s1.insts.len(), p);
            lemma_enter(j, header, p);
            let s2 = enter(j, header);
            lemma_grown_trans(s1, j, s2, p);
            lemma_expr(cond, cx, s2, p);
            let (c, s3) = lower_expr(cond, cx, s2)->Ok_0;
            lemma_grown_trans(s1, s2, s3, p);
            lemma_to_value(c, s3, p);
            let (cond_value, _, s4) = to_value(c, s3);
            lemma_grown_trans(s1, s3, s4, p);
            lemma_grown_block(s1, s4, body_block, s1.insts.len(), p);
            lemma_grown_block(s1, s4, exit, s1.insts.len(), p);
            lemma_branch(s4, cond_value, body_block, exit, p);
            let b = emit(
                s4,
                InstView::Branch { cond: cond_value, then_block: body_block, else_block: exit },
            );
            lemma_grown_trans(s1, s4, b, p);
            lemma_grown_block(s1, b, body_block, s1.insts.len(), p);
            lemma_enter(b, body_block, p);
            let s5 = enter(b, body_block);
            lemma_grown_trans(s1, b, s5, p);
            lemma_block(body, cx, s5, p);
            let (_, s6) = lower_block(body, cx, s5)->Ok_0;
            lemma_grown_trans(s1, s5, s6, p);
            lemma_grown_trans(s, s1, s6, p);
            lemma_vars_stay(s, s6, p);
            lemma_write_back(s.vars, s6, p);
            let w = write_back(s.vars, s6);
            lemma_grown_trans(s1, s6, w, p);
            lemma_grown_block(s1, w, header, s1.insts.len(), p);
            lemma_jump(w, header, p);
            let s7 = emit(w, InstView::Jump { block: header });
            lemma_grown_trans(s1, w, s7, p);
            lemma_grown_block(s1, s7, exit, s1.insts.len(), p);
            lemma_enter(s7, exit, p);
            let x = enter(s7, exit);
            lemma_grown_trans(s1, s7, x, p);
            lemma_grown_trans(s, s1, x, p);
            lemma_vars_stay(s, x, p);
            lemma_set_vars(x, s.vars, p);
            lemma_grown_trans(s, x, CodeView { vars: s.vars, ..x }, p);
        },
        _ => {},
    }
}

proof fn lemma_block(b: TypedBlockView, cx: LowerCx, s: CodeView, p: nat)
    requires
        code_ok(s, p),
        lower_block(b, cx, s) is Ok,
    ensures
        ({
            let (r, s1) = lower_block(b, cx, s)->Ok_0;
            &&& grown(s, s1, p)
            &&& r matches Some(l) ==> lowered_ok(l, s1, p)
        }),
    decreases b, 0int,
{
    lemma_stmts(b.stmts, cx, s, p);
    let s1 = lower_stmts(b.stmts, cx, s)->Ok_0;
    match b.ret {
        None => {},
        Some(e) => {
            lemma_expr(e, cx, s1, p);
            lemma_grown_trans(s, s1, lower_expr(e, cx, s1)->Ok_0.1, p);
        },
    }
}

proof fn lemma_start(m: ModuleView, p: nat)
    ensures
        code_ok(start(m), p),
{
    let s = start(m);
    assert(s.insts[0] is Block);
    assert forall|j: int| 0 <= j < s.insts.len() implies #[trigger] inst_ok(
        s.insts,
        j as nat,
        p,
    ) by {
        if j == 1 {
            assert(s.insts[1] == (InstView::Enter { block: 0 }));
        }
    }
}

proof fn lemma_use_methods(ds: Seq<RustMethodDepView>, cx: LowerCx, s: CodeView, p: nat)
    requires
        code_ok(s, p),
        use_methods(ds, cx, s) is Ok,
    ensures
        grown(s, use_methods(ds, cx, s)->Ok_0, p),
    decreases ds.len(),
{
    if ds.len() == 0 {
        lemma_grown_refl(s, p);
    } else {
        lemma_use_method(ds[0], cx, s, p);
        let s1 = use_method(ds[0], cx, s)->Ok_0.1;
        lemma_use_methods(ds.drop_first(), cx, s1, p);
        lemma_grown_trans(s, s1, use_methods(ds.drop_first(), cx, s1)->Ok_0, p);
    }
}

proof fn lemma_bind_params(
    ps: Seq<ToyParamView>,
    at: nat,
    types: Seq<LlvmTypeView>,
    symbol: Seq<char>,
    s: CodeView,
)
    requires
        code_ok(s, types.len()),
        bind_params(ps, at, types, symbol, s) is Ok,
    ensures
        grown(s, bind_params(ps, at, types, symbol, s)->Ok_0, types.len()),
    decreases ps.len(),
{
    let p = types.len();
    lemma_grown_refl(s, p);
    if ps.len() > 0 {
        let ty = types[at as int];
        let alloca = InstView::Alloca { ty, align: None };
        lemma_emit(s, alloca, p);
        let s0 = emit(s, alloca);
        let store = InstView::Store { ptr: next(s), value: OperandView::Param(at) };
        lemma_emit(s0, store, p);
        let s1 = emit(s0, store);
        lemma_grown_trans(s, s0, s1, p);
        let slot = SlotView { ptr: next(s), ty };
        lemma_put_there(s1.vars, ps[0].name, slot, s1.insts.len(), p);
        let vars = put(s1.vars, ps[0].name, slot);
        lemma_set_vars(s1, vars, p);
        let s2 = CodeView { vars, ..s1 };
        lemma_grown_trans(s, s1, s2, p);
        lemma_bind_params(ps.drop_first(), at + 1, types, symbol, s2);
        lemma_grown_trans(
            s,
            s2,
            bind_params(ps.drop_first(), at + 1, types, symbol, s2)->Ok_0,
            p,
        );
    }
}

proof fn lemma_return_result(
    result: Option<LoweredView>,
    ty: ResolvedTypeView,
    cx: LowerCx,
    s: CodeView,
    p: nat,
)
    requires
        code_ok(s, p),
        result matches Some(l) ==> lowered_ok(l, s, p),
        internal_sret(ty) ==> p > 0,
        return_result(result, ty, cx, s) is Ok,
    ensures
        code_ok(return_result(result, ty, cx, s)->Ok_0, p),
{
    match result {
        None => {
            lemma_emit(s, InstView::Return { value: None }, p);
        },
        Some(l) => {
            if internal_sret(ty) {
                let t = llvm_type(ty, cx.facts)->Ok_0;
                lemma_to_ptr(l, t, s, p);
                let (source, s1) = to_ptr(l, t, s);
                let copy = InstView::Copy {
                    dest: OperandView::Param(0),
                    source,
                    align: cx.facts.pointer_align,
                    extent: crate::llvm_gen::code::ExtentView::SizeOf(t),
                };
                lemma_emit(s1, copy, p);
                lemma_emit(emit(s1, copy), InstView::Return { value: None }, p);
            } else if ty is Void {
                lemma_emit(s, InstView::Return { value: None }, p);
            } else {
                lemma_to_value(l, s, p);
                let (value, _, s1) = to_value(l, s);
                lemma_emit(s1, InstView::Return { value: Some(value) }, p);
            }
        },
    }
}

/// How many parameters the function of a symbol has.
pub open spec fn param_count(m: ModuleView, symbol: Seq<char>) -> nat {
    match find_decl(m.decls, symbol) {
        Some(decl) => decl.params.len(),
        None => 0,
    }
}

/// The body of a function is in order: each instruction works on results that
/// come before it, on parameters that the function has, and on blocks that
/// have been appended. Every function that it calls is declared.
pub proof fn lemma_body_in_order(f: ToyFunctionView, symbol: Seq<char>, cx: LowerCx, m: ModuleView)
    requires
        internal_function(f, symbol, cx, m) is Ok,
    ensures
        ({
            let after = internal_function(f, symbol, cx, m)->Ok_0;
            &&& insts_ok(after.functions.last().insts, param_count(after, symbol))
            &&& calls_declared(after.functions.last().insts, after.decls)
            &&& after.functions.len() == m.functions.len() + 1
            &&& after.functions.drop_last() == m.functions
            &&& after.functions.last().symbol == symbol
            &&& find_decl(after.decls, symbol) is Some
            &&& keeps(m.decls, after.decls)
        }),
{
    let b = type_fn_body(f, f.body->Some_0, typing_of(cx))->Ok_0;
    let s0 = start(m);
    let s1 = use_methods(rust_deps_in_block(b), cx, s0)->Ok_0;
    let types = param_types(f.params, cx)->Ok_0;
    let ret = internal_return(block_type(b), cx)->Ok_0;
    let decls = declare(
        s1.decls,
        internal_decl(symbol, types, block_type(b), ret),
    );
    let decl = find_decl(decls, symbol)->Some_0;
    let p = decl.params.len();
    lemma_start(m, p);
    lemma_use_methods(rust_deps_in_block(b), cx, s0, p);
    let s1b = CodeView { decls, ..s1 };
    lemma_declare_keeps(s1.decls, internal_decl(symbol, types, block_type(b), ret));
    lemma_other_tables(s1, s1b, p);
    let at: nat = if internal_sret(block_type(b)) {
        1
    } else {
        0
    };
    lemma_bind_params(f.params, at, decl.params, symbol, s1b);
    let s2 = bind_params(f.params, at, decl.params, symbol, s1b)->Ok_0;
    lemma_block(b, cx, s2, p);
    let (result, s3) = lower_block(b, cx, s2)->Ok_0;
    lemma_return_result(result, block_type(b), cx, s3, p);
    let s4 = return_result(result, block_type(b), cx, s3)->Ok_0;
    let after = internal_function(f, symbol, cx, m)->Ok_0;
    assert(after == finish(symbol, None, s4, m));
    assert(after.functions.last().insts == s4.insts);
    lemma_grown_trans(s1b, s2, s3, p);
    assert(find_decl(s3.decls, symbol) == find_decl(decls, symbol));
    assert(s4.decls == s3.decls);
    assert(after.functions.drop_last() =~= m.functions);
    lemma_grown_trans(s0, s1, s1b, p);
    lemma_grown_trans(s0, s1b, s3, p);
}

proof fn lemma_forward_param(
    a: AbiParamView,
    internal: LlvmTypeView,
    at: nat,
    count: nat,
    symbol: Seq<char>,
    s: CodeView,
)
    requires
        code_ok(s, count),
        forward_param(a, internal, at, count, symbol, s) is Ok,
    ensures
        ({
            let (v, taken, s1) = forward_param(a, internal, at, count, symbol, s)->Ok_0;
            &&& grown(s, s1, count)
            &&& v matches Some(o) ==> is_there(o, s1.insts.len(), count)
        }),
{
    lemma_grown_refl(s, count);
    let param = OperandView::Param(at);
    match a {
        AbiParamView::Ignore => {},
        AbiParamView::Direct(t) => {
            if t != internal {
                let alloca = InstView::Alloca { ty: t, align: None };
                lemma_emit(s, alloca, count);
                let s0 = emit(s, alloca);
                let store = InstView::Store { ptr: next(s), value: param };
                lemma_emit(s0, store, count);
                let s1 = emit(s0, store);
                lemma_grown_trans(s, s0, s1, count);
                let load = InstView::Load { ty: internal, ptr: next(s) };
                lemma_emit(s1, load, count);
                lemma_grown_trans(s, s1, emit(s1, load), count);
            }
        },
        AbiParamView::Pair(x, y) => {
            lemma_emit(
                s,
                InstView::Pair {
                    first_ty: x,
                    second_ty: y,
                    first: param,
                    second: OperandView::Param(at + 1),
                },
                count,
            );
        },
        AbiParamView::Indirect => {
            lemma_emit(s, InstView::Load { ty: internal, ptr: param }, count);
        },
    }
}

proof fn lemma_forward_params(
    ps: Seq<AbiParamView>,
    internal: Seq<LlvmTypeView>,
    at: nat,
    count: nat,
    symbol: Seq<char>,
    s: CodeView,
)
    requires
        code_ok(s, count),
        forward_params(ps, internal, at, count, symbol, s) is Ok,
    ensures
        ({
            let (ops, end, s1) = forward_params(ps, internal, at, count, symbol, s)->Ok_0;
            grown(s, s1, count) && all_there(ops, s1.insts.len(), count)
        }),
    decreases ps.len(),
{
    lemma_grown_refl(s, count);
    if ps.len() > 0 {
        lemma_forward_param(ps[0], internal[0], at, count, symbol, s);
        let (first, taken, s1) = forward_param(
            ps[0],
            internal[0],
            at,
            count,
            symbol,
            s,
        )->Ok_0;
        lemma_forward_params(
            ps.drop_first(),
            internal.drop_first(),
            at + taken,
            count,
            symbol,
            s1,
        );
        let (rest, end, s2) = forward_params(
            ps.drop_first(),
            internal.drop_first(),
            at + taken,
            count,
            symbol,
            s1,
        )->Ok_0;
        lemma_grown_trans(s, s1, s2, count);
        match first {
            Some(v) => {
                lemma_joined_there(seq![v], rest, s1.insts.len(), s2.insts.len(), count);
            },
            None => {},
        }
    }
}

proof fn lemma_return_reread(
    source: OperandView,
    from: LlvmTypeView,
    to: LlvmTypeView,
    cx: LowerCx,
    s: CodeView,
    p: nat,
)
    requires
        code_ok(s, p),
        is_there(source, s.insts.len(), p),
        return_reread(source, from, to, cx, s) is Ok,
    ensures
        code_ok(return_reread(source, from, to, cx, s)->Ok_0, p),
{
    let from_size = crate::llvm_gen::types::size_bytes(
        from,
        cx.facts.pointer_align as u64,
    )->Some_0;
    let to_size = crate::llvm_gen::types::size_bytes(to, cx.facts.pointer_align as u64)->Some_0;
    let alloca = InstView::Alloca { ty: to, align: None };
    lemma_emit(s, alloca, p);
    let s1 = emit(s, alloca);
    let copy = InstView::Copy {
        dest: next(s),
        source,
        align: cx.facts.pointer_align,
        extent: crate::llvm_gen::code::ExtentView::Bytes(
            (if from_size <= to_size {
                from_size
            } else {
                to_size
            }) as u64,
        ),
    };
    lemma_emit(s1, copy, p);
    let s2 = emit(s1, copy);
    let load = InstView::Load { ty: to, ptr: next(s) };
    lemma_emit(s2, load, p);
    let s3 = emit(s2, load);
    lemma_emit(s3, InstView::Return { value: Some(next(s2)) }, p);
}

/// The wrapper of a function is in order: it takes exactly the parameters that
/// its declaration has, and each instruction works on results that come before
/// it and on those parameters.
pub proof fn lemma_wrapper_in_order(
    ret: ResolvedTypeView,
    abi: AbiView,
    direct: Option<LlvmTypeView>,
    internal: Seq<LlvmTypeView>,
    decl: DeclView,
    callee: DeclView,
    cx: LowerCx,
    m: ModuleView,
)
    requires
        find_decl(m.decls, callee.symbol) is Some,
        wrapper_body(ret, abi, direct, internal, decl, callee, cx, m) is Ok,
    ensures
        ({
            let after = wrapper_body(ret, abi, direct, internal, decl, callee, cx, m)->Ok_0;
            &&& insts_ok(after.functions.last().insts, decl.params.len())
            &&& calls_declared(after.functions.last().insts, m.decls)
            &&& after.functions.len() == m.functions.len() + 1
            &&& after.functions.drop_last() == m.functions
            &&& after.functions.last().symbol == decl.symbol
            &&& after.decls == m.decls
        }),
{
    let after = wrapper_body(ret, abi, direct, internal, decl, callee, cx, m)->Ok_0;
    assert(after.functions.drop_last() =~= m.functions);
    let p = decl.params.len();
    let s0 = start(m);
    lemma_start(m, p);
    lemma_grown_refl(s0, p);
    let (room, s1) = wrapper_room(ret, abi.ret, cx, s0)->Ok_0;
    if internal_sret(ret) && !(abi.ret is Indirect) {
        let t = llvm_type(ret, cx.facts)->Ok_0;
        lemma_emit(s0, InstView::Alloca { ty: t, align: None }, p);
    }
    let at: nat = if abi.ret is Indirect {
        1
    } else {
        0
    };
    lemma_forward_params(abi.params, internal, at, p, decl.symbol, s1);
    lemma_forward_end(abi.params, internal, at, p, decl.symbol, s1);
    let (ops, end, s2) = forward_params(abi.params, internal, at, p, decl.symbol, s1)->Ok_0;
    let args = match room {
        Some(r) => seq![r] + ops,
        None => ops,
    };
    match room {
        Some(r) => {
            assert(is_there(r, s1.insts.len(), p));
            lemma_joined_there(seq![r], ops, s1.insts.len(), s2.insts.len(), p);
        },
        None => {},
    }
    let call = InstView::Call { symbol: callee.symbol, args };
    lemma_emit(s2, call, p);
    let s3 = emit(s2, call);
    if ret is Void || abi.ret is Indirect {
        lemma_emit(s3, InstView::Return { value: None }, p);
    } else if internal_sret(ret) {
        lemma_return_reread(
            room->Some_0,
            llvm_type(ret, cx.facts)->Ok_0,
            direct->Some_0,
            cx,
            s3,
            p,
        );
    } else {
        match callee.ret {
            None => {
                lemma_emit(s3, InstView::Return { value: None }, p);
            },
            Some(t) => {
                lemma_coerce(next(s2), t, direct->Some_0, s3, p);
                let (value, s4) = coerce_int(next(s2), t, direct->Some_0, s3);
                lemma_emit(s4, InstView::Return { value: Some(value) }, p);
            },
        }
    }
}

proof fn lemma_forward_end(
    ps: Seq<AbiParamView>,
    internal: Seq<LlvmTypeView>,
    at: nat,
    count: nat,
    symbol: Seq<char>,
    s: CodeView,
)
    requires
        forward_params(ps, internal, at, count, symbol, s) is Ok,
    ensures
        at <= forward_params(ps, internal, at, count, symbol, s)->Ok_0.1,
        forward_params(ps, internal, at, count, symbol, s)->Ok_0.2.decls == s.decls,
    decreases ps.len(),
{
    if ps.len() > 0 {
        let (first, taken, s1) = forward_param(
            ps[0],
            internal[0],
            at,
            count,
            symbol,
            s,
        )->Ok_0;
        lemma_forward_end(
            ps.drop_first(),
            internal.drop_first(),
            at + taken,
            count,
            symbol,
            s1,
        );
    }
}

/// Whether the functions of a module are in order.
pub open spec fn module_ok(m: ModuleView) -> bool {
    forall|i: int|
        0 <= i < m.functions.len() ==> function_ok(#[trigger] m.functions[i], m)
}

/// Whether a function of a module is declared and in order.
pub open spec fn function_ok(f: FnCodeView, m: ModuleView) -> bool {
    &&& find_decl(m.decls, f.symbol) is Some
    &&& insts_ok(f.insts, param_count(m, f.symbol))
    &&& calls_declared(f.insts, m.decls)
}

proof fn lemma_one_more(m: ModuleView, after: ModuleView)
    requires
        module_ok(m),
        after.functions.len() == m.functions.len() + 1,
        after.functions.drop_last() == m.functions,
        keeps(m.decls, after.decls),
        function_ok(after.functions.last(), after),
    ensures
        module_ok(after),
{
    assert forall|i: int| 0 <= i < after.functions.len() implies function_ok(
        #[trigger] after.functions[i],
        after,
    ) by {
        if i < m.functions.len() {
            assert(after.functions[i] == after.functions.drop_last()[i]);
            let f = m.functions[i];
            assert(function_ok(f, m));
            assert(find_decl(after.decls, f.symbol) == find_decl(m.decls, f.symbol));
            assert forall|j: int| 0 <= j < f.insts.len() implies (#[trigger] f.insts[j] matches InstView::Call {
                symbol,
                args,
            } ==> find_decl(after.decls, symbol) is Some) by {
                match f.insts[j] {
                    InstView::Call { symbol, args } => {
                        assert(find_decl(m.decls, symbol) is Some);
                        assert(find_decl(after.decls, symbol) == find_decl(m.decls, symbol));
                    },
                    _ => {},
                }
            }
        }
    }
}

proof fn lemma_bodies_ok(items: Seq<FnItemView>, cx: LowerCx, m: ModuleView)
    requires
        module_ok(m),
        with_bodies(items, cx, m) is Ok,
    ensures
        module_ok(with_bodies(items, cx, m)->Ok_0),
    decreases items.len(),
{
    if items.len() > 0 {
        let f = items[0].resolved_func;
        let symbol = items[0].internal_symbol;
        lemma_body_in_order(f, symbol, cx, m);
        let m1 = internal_function(f, symbol, cx, m)->Ok_0;
        lemma_one_more(m, m1);
        lemma_bodies_ok(items.drop_first(), cx, m1);
    }
}

proof fn lemma_wrapper_ok(
    f: ToyFunctionView,
    abi: AbiView,
    symbol: Seq<char>,
    inner: Seq<char>,
    cx: LowerCx,
    m: ModuleView,
)
    requires
        module_ok(m),
        extern_wrapper(f, abi, symbol, inner, cx, m) is Ok,
    ensures
        module_ok(extern_wrapper(f, abi, symbol, inner, cx, m)->Ok_0),
{
    let ret = return_type(f, typing_of(cx))->Ok_0;
    let internal = param_types(f.params, cx)->Ok_0;
    let direct = crate::llvm_gen::functions::wrapper_return(ret, abi.ret, cx)->Ok_0;
    let decl = DeclView {
        symbol,
        params: crate::llvm_gen::abi::signature(abi.ret is Indirect, abi.params),
        ret: direct,
        sret: None,
    };
    let decls = declare(m.decls, decl);
    lemma_declare_keeps(m.decls, decl);
    let own = find_decl(decls, symbol)->Some_0;
    let callee = find_decl(decls, inner)->Some_0;
    lemma_found_symbol(decls, symbol);
    lemma_found_symbol(decls, inner);
    let m1 = ModuleView { decls, ..m };
    lemma_wrapper_in_order(ret, abi, direct, internal, own, callee, cx, m1);
    let after = wrapper_body(ret, abi, direct, internal, own, callee, cx, m1)->Ok_0;
    lemma_one_more(m, after);
}

proof fn lemma_found_symbol(decls: Seq<DeclView>, symbol: Seq<char>)
    ensures
        find_decl(decls, symbol) matches Some(d) ==> d.symbol == symbol,
    decreases decls.len(),
{
    if decls.len() > 0 {
        lemma_found_symbol(decls.drop_first(), symbol);
    }
}

proof fn lemma_wrappers_ok(items: Seq<FnItemView>, cx: LowerCx, m: ModuleView)
    requires
        module_ok(m),
        with_wrappers(items, cx, m) is Ok,
    ensures
        module_ok(with_wrappers(items, cx, m)->Ok_0),
    decreases items.len(),
{
    if items.len() > 0 {
        if !items[0].wrapped {
            lemma_wrappers_ok(items.drop_first(), cx, m);
        } else {
            let abi = crate::llvm_gen::abi::ask_wrapper(
                cx.facts,
                items[0].extern_symbol,
            )->Ok_0;
            lemma_wrapper_ok(
                items[0].resolved_func,
                abi,
                items[0].extern_symbol,
                items[0].internal_symbol,
                cx,
                m,
            );
            let m1 = extern_wrapper(
                items[0].resolved_func,
                abi,
                items[0].extern_symbol,
                items[0].internal_symbol,
                cx,
                m,
            )->Ok_0;
            lemma_wrappers_ok(items.drop_first(), cx, m1);
        }
    }
}

/// All code of a filled module is in order: every function is declared and so
/// is every function that it calls, and each of its instructions works on
/// results that come before it, on parameters that the function has, and on
/// blocks that have been appended.
pub proof fn lemma_filled_in_order(items: Seq<FnItemView>, cx: LowerCx)
    requires
        filled(items, cx) is Ok,
    ensures
        module_ok(filled(items, cx)->Ok_0),
{
    let m = crate::llvm_gen::empty_module();
    assert(module_ok(m));
    lemma_bodies_ok(items, cx, m);
    lemma_wrappers_ok(items, cx, with_bodies(items, cx, m)->Ok_0);
}

} // verus!
