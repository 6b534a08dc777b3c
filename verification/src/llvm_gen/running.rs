//! What running generated code does: what the lowered expressions and
//! statements mean.
use crate::llvm_gen::abi::{llvm_type, llvm_types, LowerStopView};

use crate::llvm_gen::code::{declare, emit, enter, find_decl, next, to_ptr, to_value, CodeView, DeclView, InstView, LoweredView, OperandView, SlotView};
use crate::llvm_gen::lower::{
    field_place, internal_decl, internal_return, internal_sret, lower_block, lower_expr, lower_fn_call, lower_if, lower_internal_call, lower_lit_fields, lower_opt,
    lower_stmt, lower_stmts, lower_values, lower_while, no_value, types_of, use_method, use_methods, write_back, LowerCx,
};
use crate::llvm_gen::functions::{bind_params, block_type, internal_function, param_types, return_result, start, typing_of, ModuleView};
use crate::llvm_gen::laws::lemma_declare_keeps;
use crate::llvm_gen::machine::{
    blank, give, go, is_entry, lemma_onward, lemma_stays, lemma_step_on, operand, operands, pass, reaches, step, truth, Linked, Machine, Program, Word,
};
use crate::llvm_gen::types::LlvmTypeView;
use crate::names::{find, lemma_find_put, put};
use crate::text::text_lt;
use crate::toylang::meaning::{
    begin, bind, called, fill, part, typed_fields, eval_block, operate, place_of, read, restore, round, typed_all, typed_block, typed_eval, typed_exec, typed_exec_all,
    typed_opt, typed_value, value_of, Callee, Outcome, Place, State, Value, World,
};
use crate::toylang::callbacks_impl::internal_symbol;
use crate::toylang::deps::{rust_deps_in_block, RustMethodDepView};
use crate::toylang::registry::{ToyFieldView, ToyFunctionView, ToyParamView, ToyStructView};
use crate::toylang::type_resolve::{field_index, type_fn_body};
use crate::toylang::typing_laws::{lemma_checked_block, lemma_typing_keeps_body, unchecked};
use crate::toylang::typed_ast::{demote_all, ResolvedTypeView, TypedBlockView, TypedExprKindView, TypedExprView, TypedStmtView};
use vstd::prelude::*;

verus! {

broadcast use vstd::seq::group_seq_axioms;

/// Whether an expression works on numbers and truth values, variables,
/// references, structs of these, and functions of toylang alone, which return
/// no structs.
pub open spec fn plain(cx: LowerCx, e: TypedExprView) -> bool
    decreases e,
{
    match e.kind {
        TypedExprKindView::IntLit(_) => true,
        TypedExprKindView::BoolLit(_) => true,
        TypedExprKindView::Var(_) => true,
        TypedExprKindView::BinaryOp { op, left, right } => plain(cx, *left) && plain(cx, *right),
        TypedExprKindView::Ref(inner) => plain(cx, *inner) && !(inner.kind is FieldAccess),
        TypedExprKindView::StructLit { name, fields } => {
            &&& e.ty matches ResolvedTypeView::Struct { name: _, type_args: _, field_types }
                && find(cx.registry.structs, name) matches Some(def) && def.fields.len()
                == field_types.len()
            &&& plain_fields(cx, fields)
        },
        TypedExprKindView::FieldAccess { receiver, field } => {
            &&& receiver.kind is Var || receiver.kind is StructLit
            &&& receiver.ty is Struct
            &&& !is_large(e.ty)
            &&& plain(cx, *receiver)
        },
        TypedExprKindView::If { cond, then_stmts, then_expr, else_stmts, else_expr } => {
            &&& plain(cx, *cond)
            &&& plain_stmts(cx, then_stmts)
            &&& plain_opt(cx, then_expr)
            &&& plain_stmts(cx, else_stmts)
            &&& plain_opt(cx, else_expr)
        },
        TypedExprKindView::FnCall { name, type_args, args } => {
            &&& find(cx.registry.functions, name) matches Some(f) && f.body is Some
            &&& !internal_sret(e.ty)
            &&& plain_all(cx, args)
        },
        _ => false,
    }
}

/// Whether values of the type are handed on by their place.
pub open spec fn is_large(t: ResolvedTypeView) -> bool {
    t is Struct || t is RustType
}

/// Whether fields are plain, and no structs themselves.
pub open spec fn plain_fields(cx: LowerCx, fields: Seq<(Seq<char>, TypedExprView)>) -> bool
    decreases fields,
{
    if fields.len() == 0 {
        true
    } else {
        plain(cx, fields[0].1) && !is_large(fields[0].1.ty) && plain_fields(
            cx,
            fields.drop_first(),
        )
    }
}

/// Whether expressions are plain.
pub open spec fn plain_all(cx: LowerCx, es: Seq<TypedExprView>) -> bool
    decreases es,
{
    if es.len() == 0 {
        true
    } else {
        plain(cx, es[0]) && plain_all(cx, es.drop_first())
    }
}

/// Whether an expression that may be missing is plain.
pub open spec fn plain_opt(cx: LowerCx, e: Option<Box<TypedExprView>>) -> bool
    decreases e,
{
    match e {
        None => true,
        Some(e) => plain(cx, *e),
    }
}

/// Whether a statement is made of plain expressions.
pub open spec fn plain_stmt(cx: LowerCx, s: TypedStmtView) -> bool
    decreases s,
{
    match s {
        TypedStmtView::Let { name, expr } => plain(cx, expr),
        TypedStmtView::ExprStmt(expr) => plain(cx, expr),
        TypedStmtView::Assign { name, expr } => plain(cx, expr),
        TypedStmtView::While { cond, body } => plain(cx, cond) && plain_block(cx, body),
    }
}

/// Whether statements are made of plain expressions.
pub open spec fn plain_stmts(cx: LowerCx, ss: Seq<TypedStmtView>) -> bool
    decreases ss,
{
    if ss.len() == 0 {
        true
    } else {
        plain_stmt(cx, ss[0]) && plain_stmts(cx, ss.drop_first())
    }
}

/// Whether a block is made of plain expressions.
pub open spec fn plain_block(cx: LowerCx, b: TypedBlockView) -> bool
    decreases b,
{
    plain_stmts(cx, b.stmts) && match b.ret {
        None => true,
        Some(e) => plain(cx, e),
    }
}

/// Whether the instructions are the first of some code.
pub open spec fn begins(insts: Seq<InstView>, code: Seq<InstView>) -> bool {
    &&& insts.len() <= code.len()
    &&& forall|i: int| 0 <= i < insts.len() ==> code[i] == #[trigger] insts[i]
}

/// Whether code goes on only in blocks that it has.
pub open spec fn settled(s: CodeView) -> bool {
    &&& s.block < s.insts.len()
    &&& forall|i: int|
        0 <= i < s.insts.len() ==> (#[trigger] s.insts[i] matches InstView::Enter { block }
            ==> block < s.insts.len())
}

/// Whether code is other code and more, which goes on only in its own blocks.
pub open spec fn extends(s: CodeView, s1: CodeView) -> bool {
    &&& begins(s.insts, s1.insts)
    &&& forall|i: int|
        s.insts.len() <= i < s1.insts.len() ==> (#[trigger] s1.insts[i] matches InstView::Enter {
            block,
        } ==> s.insts.len() <= block)
    &&& s1.block == s.block || s.insts.len() <= s1.block
    &&& settled(s) ==> settled(s1)
    &&& crate::llvm_gen::laws::keeps(s.decls, s1.decls)
}

/// Whether code is the first of a whole function's.
pub open spec fn within(s: CodeView, code: Program) -> bool {
    &&& begins(s.insts, code.insts)
    &&& crate::llvm_gen::laws::keeps(s.decls, code.decls)
}

/// Whether code has not yet gone on in a block.
pub open spec fn fresh(s: CodeView, b: nat) -> bool {
    forall|i: int| 0 <= i < s.insts.len() ==> #[trigger] s.insts[i] != (InstView::Enter { block: b })
}

proof fn lemma_begins(a: Seq<InstView>, b: Seq<InstView>, c: Seq<InstView>)
    requires
        begins(a, b),
        begins(b, c),
    ensures
        begins(a, c),
{
    assert forall|i: int| 0 <= i < a.len() implies c[i] == #[trigger] a[i] by {
        assert(b[i] == a[i]);
        assert(c[i] == b[i]);
    }
}

proof fn lemma_declared_still(a: Seq<DeclView>, b: Seq<DeclView>, c: Seq<DeclView>)
    requires
        crate::llvm_gen::laws::keeps(a, b),
        crate::llvm_gen::laws::keeps(b, c),
    ensures
        crate::llvm_gen::laws::keeps(a, c),
{
    assert forall|symbol: Seq<char>| find_decl(a, symbol) is Some implies #[trigger] find_decl(
        c,
        symbol,
    ) == find_decl(a, symbol) by {
        assert(find_decl(b, symbol) == find_decl(a, symbol));
    }
}

proof fn lemma_within(s: CodeView, s1: CodeView, code: Program)
    requires
        extends(s, s1),
        within(s1, code),
    ensures
        within(s, code),
{
    lemma_begins(s.insts, s1.insts, code.insts);
    lemma_declared_still(s.decls, s1.decls, code.decls);
}

proof fn lemma_extends_refl(s: CodeView)
    ensures
        extends(s, s),
{
}

proof fn lemma_extends(a: CodeView, b: CodeView, c: CodeView)
    requires
        extends(a, b),
        extends(b, c),
    ensures
        extends(a, c),
{
    lemma_begins(a.insts, b.insts, c.insts);
    lemma_declared_still(a.decls, b.decls, c.decls);
    assert forall|i: int| a.insts.len() <= i < c.insts.len() implies (
    #[trigger] c.insts[i] matches InstView::Enter { block } ==> a.insts.len() <= block) by {
        if i < b.insts.len() {
            assert(c.insts[i] == b.insts[i]);
        }
    }
}

proof fn lemma_emit(s: CodeView, inst: InstView)
    requires
        !(inst is Enter),
    ensures
        extends(s, emit(s, inst)),
{
    let s1 = emit(s, inst);
    assert forall|i: int| 0 <= i < s.insts.len() implies s1.insts[i] == #[trigger] s.insts[i] by {}
}

proof fn lemma_enter(s: CodeView, s1: CodeView, b: nat)
    requires
        extends(s, s1),
        s.insts.len() <= b < s1.insts.len(),
    ensures
        extends(s, enter(s1, b)),
{
    let s2 = enter(s1, b);
    assert forall|i: int| 0 <= i < s1.insts.len() implies s2.insts[i] == #[trigger] s1.insts[i] by {}
    lemma_begins(s.insts, s1.insts, s2.insts);
    assert forall|i: int| s.insts.len() <= i < s2.insts.len() implies (
    #[trigger] s2.insts[i] matches InstView::Enter { block } ==> s.insts.len() <= block) by {
        if i < s1.insts.len() {
            assert(s2.insts[i] == s1.insts[i]);
        }
    }
    if settled(s) {
        assert forall|i: int| 0 <= i < s2.insts.len() implies (
        #[trigger] s2.insts[i] matches InstView::Enter { block } ==> block < s2.insts.len()) by {
            if i < s1.insts.len() {
                assert(s2.insts[i] == s1.insts[i]);
            }
        }
    }
}

proof fn lemma_to_value(l: LoweredView, s: CodeView)
    ensures
        extends(s, to_value(l, s).2),
        to_value(l, s).2.vars == s.vars,
{
    lemma_extends_refl(s);
    if let LoweredView::Ptr(ptr, ty) = l {
        lemma_emit(s, InstView::Load { ty, ptr });
    }
}

proof fn lemma_to_ptr(l: LoweredView, ty: LlvmTypeView, s: CodeView)
    ensures
        extends(s, to_ptr(l, ty, s).1),
        to_ptr(l, ty, s).1.vars == s.vars,
{
    lemma_extends_refl(s);
    if let LoweredView::Value(value, _) = l {
        let s1 = emit(s, InstView::Alloca { ty, align: None });
        lemma_emit(s, InstView::Alloca { ty, align: None });
        lemma_emit(s1, InstView::Store { ptr: next(s), value });
        lemma_extends(s, s1, emit(s1, InstView::Store { ptr: next(s), value }));
    }
}

/// An expression extends the code and keeps the variables.
proof fn lemma_expr(e: TypedExprView, cx: LowerCx, s: CodeView)
    requires
        plain(cx, e),
        lower_expr(e, cx, s) is Ok,
    ensures
        extends(s, lower_expr(e, cx, s)->Ok_0.1),
        lower_expr(e, cx, s)->Ok_0.1.vars == s.vars,
    decreases e, 2int,
{
    lemma_extends_refl(s);
    match e.kind {
        TypedExprKindView::BinaryOp { op, left, right } => {
            let (l, s1) = lower_expr(*left, cx, s)->Ok_0;
            lemma_expr(*left, cx, s);
            let (a, _, s2) = to_value(l, s1);
            lemma_to_value(l, s1);
            let (r, s3) = lower_expr(*right, cx, s2)->Ok_0;
            lemma_expr(*right, cx, s2);
            let (b, _, s4) = to_value(r, s3);
            lemma_to_value(r, s3);
            lemma_emit(s4, InstView::IntOp { op, left: a, right: b });
            lemma_emit(s4, InstView::FloatOp { op, left: a, right: b });
            lemma_extends(s, s1, s2);
            lemma_extends(s, s2, s3);
            lemma_extends(s, s3, s4);
            lemma_extends(s, s4, lower_expr(e, cx, s)->Ok_0.1);
        },
        TypedExprKindView::Ref(inner) => {
            reveal_with_fuel(plain, 2);
            let (l, s1) = lower_expr(*inner, cx, s)->Ok_0;
            lemma_expr(*inner, cx, s);
            let t = llvm_type(inner.ty, cx.facts)->Ok_0;
            lemma_to_ptr(l, t, s1);
            lemma_extends(s, s1, to_ptr(l, t, s1).1);
        },
        TypedExprKindView::If { .. } => {
            lemma_if(e.kind, cx, s);
        },
        TypedExprKindView::StructLit { name, fields } => {
            let ty = lit_type(e, cx);
            let alloca = InstView::Alloca { ty, align: None };
            lemma_emit(s, alloca);
            let def = find(cx.registry.structs, name)->Some_0;
            let types = lit_types(e, cx);
            let s1 = emit(s, alloca);
            lemma_lit(fields, name, def.fields, types, next(s), cx, s1);
            lemma_extends(
                s,
                s1,
                lower_lit_fields(fields, name, def.fields, types, next(s), cx, s1)->Ok_0,
            );
        },
        TypedExprKindView::FieldAccess { receiver, field } => {
            let (l, s1) = lower_expr(*receiver, cx, s)->Ok_0;
            lemma_expr(*receiver, cx, s);
            lemma_place_like(*receiver, cx, s);
            let (ptr, s2) = field_place(l, receiver.ty, field, cx, s1)->Ok_0;
            lemma_emit(s1, s2.insts.last());
            assert(s2 == emit(s1, s2.insts.last()));
            let t = llvm_type(e.ty, cx.facts)->Ok_0;
            lemma_emit(s2, InstView::Load { ty: t, ptr });
            lemma_extends(s, s1, s2);
            lemma_extends(s, s2, emit(s2, InstView::Load { ty: t, ptr }));
        },
        TypedExprKindView::FnCall { name, type_args, args } => {
            let s1 = call_start(e, cx, s);
            lemma_call_start(e, cx, s);
            let (ops, s2) = lower_values(args, cx, s1)->Ok_0;
            lemma_values(args, cx, s1);
            let inst = InstView::Call { symbol: internal_symbol(name, type_args), args: ops };
            lemma_emit(s2, inst);
            lemma_extends(s, s1, s2);
            lemma_extends(s, s2, emit(s2, inst));
        },
        _ => {},
    }
}

/// The types of the fields of a struct literal.
spec fn lit_types(e: TypedExprView, cx: LowerCx) -> Seq<LlvmTypeView> {
    match e.ty {
        ResolvedTypeView::Struct { name, type_args, field_types } => llvm_types(
            field_types,
            cx.facts,
        )->Ok_0,
        _ => arbitrary(),
    }
}

/// The type of a struct literal.
spec fn lit_type(e: TypedExprView, cx: LowerCx) -> LlvmTypeView {
    LlvmTypeView::Struct { fields: lit_types(e, cx) }
}

/// A variable and a struct literal are lowered to a place.
proof fn lemma_place_like(e: TypedExprView, cx: LowerCx, s: CodeView)
    requires
        e.kind is Var || e.kind is StructLit,
        lower_expr(e, cx, s) is Ok,
    ensures
        lower_expr(e, cx, s)->Ok_0.0 is Ptr,
{
}

proof fn lemma_lit(
    fields: Seq<(Seq<char>, TypedExprView)>,
    name: Seq<char>,
    defs: Seq<ToyFieldView>,
    types: Seq<LlvmTypeView>,
    base: OperandView,
    cx: LowerCx,
    s: CodeView,
)
    requires
        plain_fields(cx, fields),
        lower_lit_fields(fields, name, defs, types, base, cx, s) is Ok,
    ensures
        extends(s, lower_lit_fields(fields, name, defs, types, base, cx, s)->Ok_0),
        lower_lit_fields(fields, name, defs, types, base, cx, s)->Ok_0.vars == s.vars,
    decreases fields, 3int,
{
    lemma_extends_refl(s);
    if fields.len() > 0 {
        let (field, e) = fields[0];
        let i = field_index(defs, field)->Some_0;
        let point = InstView::FieldPtr {
            ty: LlvmTypeView::Struct { fields: types },
            ptr: base,
            field: i,
        };
        let s1 = emit(s, point);
        lemma_emit(s, point);
        let (l, s2) = lower_expr(e, cx, s1)->Ok_0;
        lemma_expr(e, cx, s1);
        let (value, _, s3) = to_value(l, s2);
        lemma_to_value(l, s2);
        let store = InstView::Store { ptr: next(s), value };
        let s4 = emit(s3, store);
        lemma_emit(s3, store);
        lemma_lit(fields.drop_first(), name, defs, types, base, cx, s4);
        lemma_extends(s, s1, s2);
        lemma_extends(s, s2, s3);
        lemma_extends(s, s3, s4);
        lemma_extends(s, s4, lower_lit_fields(fields, name, defs, types, base, cx, s)->Ok_0);
    }
}

/// The code once the function that is called is declared.
spec fn call_start(e: TypedExprView, cx: LowerCx, s: CodeView) -> CodeView {
    match e.kind {
        TypedExprKindView::FnCall { name, type_args, args } => CodeView {
            decls: declare(
                s.decls,
                internal_decl(
                    internal_symbol(name, type_args),
                    llvm_types(types_of(args), cx.facts)->Ok_0,
                    e.ty,
                    internal_return(e.ty, cx)->Ok_0,
                ),
            ),
            ..s
        },
        _ => s,
    }
}

proof fn lemma_call_start(e: TypedExprView, cx: LowerCx, s: CodeView)
    requires
        plain(cx, e),
        e.kind is FnCall,
        lower_expr(e, cx, s) is Ok,
    ensures
        ({
            let s1 = call_start(e, cx, s);
            let (name, type_args, args) = match e.kind {
                TypedExprKindView::FnCall { name, type_args, args } => (name, type_args, args),
                _ => arbitrary(),
            };
            let symbol = internal_symbol(name, type_args);
            let (ops, s2) = lower_values(args, cx, s1)->Ok_0;
            let (l, s3) = lower_expr(e, cx, s)->Ok_0;
            &&& extends(s, s1)
            &&& find_decl(s1.decls, symbol) is Some
            &&& lower_values(args, cx, s1) is Ok
            &&& s3 == emit(s2, InstView::Call { symbol, args: ops })
            &&& l == match find_decl(s2.decls, symbol) {
                None => no_value(),
                Some(decl) => match decl.ret {
                    None => no_value(),
                    Some(t) => LoweredView::Value(next(s2), t),
                },
            }
        }),
{
    if let TypedExprKindView::FnCall { name, type_args, args } = e.kind {
        let decl = internal_decl(
            internal_symbol(name, type_args),
            llvm_types(types_of(args), cx.facts)->Ok_0,
            e.ty,
            internal_return(e.ty, cx)->Ok_0,
        );
        lemma_declare_keeps(s.decls, decl);
        assert(lower_expr(e, cx, s) == lower_fn_call(e.kind, e.ty, cx, s));
        assert(lower_fn_call(e.kind, e.ty, cx, s) == lower_internal_call(e.kind, e.ty, cx, s));
    }
}

proof fn lemma_values(args: Seq<TypedExprView>, cx: LowerCx, s: CodeView)
    requires
        plain_all(cx, args),
        lower_values(args, cx, s) is Ok,
    ensures
        extends(s, lower_values(args, cx, s)->Ok_0.1),
        lower_values(args, cx, s)->Ok_0.1.vars == s.vars,
    decreases args, 3int,
{
    lemma_extends_refl(s);
    if args.len() > 0 {
        let (l, s1) = lower_expr(args[0], cx, s)->Ok_0;
        lemma_expr(args[0], cx, s);
        let (_, _, s2) = to_value(l, s1);
        lemma_to_value(l, s1);
        lemma_extends(s, s1, s2);
        lemma_values(args.drop_first(), cx, s2);
        lemma_extends(s, s2, lower_values(args, cx, s)->Ok_0.1);
    }
}

proof fn lemma_opt(e: Option<Box<TypedExprView>>, cx: LowerCx, s: CodeView)
    requires
        plain_opt(cx, e),
        lower_opt(e, cx, s) is Ok,
    ensures
        extends(s, lower_opt(e, cx, s)->Ok_0.1),
        lower_opt(e, cx, s)->Ok_0.1.vars == s.vars,
    decreases e, 3int,
{
    lemma_extends_refl(s);
    if let Some(x) = e {
        let (l, s1) = lower_expr(*x, cx, s)->Ok_0;
        lemma_expr(*x, cx, s);
        lemma_to_value(l, s1);
        lemma_extends(s, s1, to_value(l, s1).2);
    }
}

/// The code before a conditional's branches.
pub open spec fn if_head(
    cond: OperandView,
    no_else: bool,
    s: CodeView,
) -> CodeView {
    let then_block = s.insts.len();
    emit(
        emit(emit(emit(s, InstView::Block), InstView::Block), InstView::Block),
        InstView::Branch {
            cond,
            then_block,
            else_block: if no_else {
                then_block + 2
            } else {
                then_block + 1
            },
        },
    )
}

proof fn lemma_three(s: CodeView, last: InstView)
    requires
        !(last is Enter),
    ensures
        ({
            let s3 = emit(emit(emit(s, InstView::Block), InstView::Block), InstView::Block);
            let s4 = emit(s3, last);
            let n = s.insts.len() as int;
            &&& extends(s, s3)
            &&& extends(s, s4)
            &&& s4.insts.len() == n + 4
            &&& s4.vars == s.vars
            &&& s4.insts[n] is Block
            &&& s4.insts[n + 1] is Block
            &&& s4.insts[n + 2] is Block
            &&& s4.insts[n + 3] == last
        }),
{
    let a = emit(s, InstView::Block);
    let b = emit(a, InstView::Block);
    let c = emit(b, InstView::Block);
    lemma_emit(s, InstView::Block);
    lemma_emit(a, InstView::Block);
    lemma_emit(b, InstView::Block);
    lemma_emit(c, last);
    lemma_extends(s, a, b);
    lemma_extends(s, b, c);
    lemma_extends(s, c, emit(c, last));
}

#[verifier::spinoff_prover]
#[verifier::rlimit(40)]
proof fn lemma_if(k: TypedExprKindView, cx: LowerCx, s: CodeView)
    requires
        k is If,
        plain(cx, TypedExprView { kind: k, ty: crate::toylang::typed_ast::ResolvedTypeView::Void }),
        lower_if(k, cx, s) is Ok,
    ensures
        extends(s, lower_if(k, cx, s)->Ok_0.1),
        lower_if(k, cx, s)->Ok_0.1.vars == s.vars,
    decreases k, 1int,
{
    if let TypedExprKindView::If { cond, then_stmts, then_expr, else_stmts, else_expr } = k {
        let (c, s1) = lower_expr(*cond, cx, s)->Ok_0;
        lemma_expr(*cond, cx, s);
        let (cond_value, _, s2) = to_value(c, s1);
        lemma_to_value(c, s1);
        lemma_extends(s, s1, s2);
        let s4 = if_head(cond_value, else_stmts.len() == 0 && else_expr is None, s2);
        lemma_three(s2, s4.insts.last());
        lemma_extends(s, s2, s4);
        let b = s2.insts.len();
        let e1 = enter(s4, b);
        lemma_enter(s, s4, b);
        let s5 = lower_stmts(then_stmts, cx, e1)->Ok_0;
        lemma_stmts(then_stmts, cx, e1);
        lemma_extends(s, e1, s5);
        let (then_value, s6) = lower_opt(then_expr, cx, s5)->Ok_0;
        lemma_opt(then_expr, cx, s5);
        lemma_extends(s, s5, s6);
        let j1 = emit(s6, InstView::Jump { block: b + 2 });
        lemma_emit(s6, InstView::Jump { block: b + 2 });
        lemma_extends(s, s6, j1);
        lemma_enter(s, j1, b + 1);
        let s7 = CodeView { vars: s2.vars, ..enter(j1, b + 1) };
        assert(extends(s, s7));
        let s8 = lower_stmts(else_stmts, cx, s7)->Ok_0;
        lemma_stmts(else_stmts, cx, s7);
        lemma_extends(s, s7, s8);
        let (else_value, s9) = lower_opt(else_expr, cx, s8)->Ok_0;
        lemma_opt(else_expr, cx, s8);
        lemma_extends(s, s8, s9);
        let j2 = emit(s9, InstView::Jump { block: b + 2 });
        lemma_emit(s9, InstView::Jump { block: b + 2 });
        lemma_extends(s, s9, j2);
        lemma_enter(s, j2, b + 2);
        let s10 = CodeView { vars: s2.vars, ..enter(j2, b + 2) };
        assert(extends(s, s10));
        match (then_value, else_value) {
            (Some((x, t)), Some((y, _))) => {
                let phi = InstView::Phi {
                    ty: t,
                    first: x,
                    first_block: s6.block,
                    second: y,
                    second_block: s9.block,
                };
                lemma_emit(s10, phi);
                lemma_extends(s, s10, emit(s10, phi));
                assert(lower_if(k, cx, s)->Ok_0.1 == emit(s10, phi));
            },
            _ => {
                assert(lower_if(k, cx, s)->Ok_0.1 == s10);
            },
        }
    }
}

proof fn lemma_stmts(stmts: Seq<TypedStmtView>, cx: LowerCx, s: CodeView)
    requires
        plain_stmts(cx, stmts),
        lower_stmts(stmts, cx, s) is Ok,
    ensures
        extends(s, lower_stmts(stmts, cx, s)->Ok_0),
    decreases stmts, 2int,
{
    lemma_extends_refl(s);
    if stmts.len() > 0 {
        let s1 = lower_stmt(stmts[0], cx, s)->Ok_0;
        lemma_stmt(stmts[0], cx, s);
        lemma_stmts(stmts.drop_first(), cx, s1);
        lemma_extends(s, s1, lower_stmts(stmts, cx, s)->Ok_0);
    }
}

proof fn lemma_write_back(before: Seq<(Seq<char>, SlotView)>, s: CodeView)
    ensures
        extends(s, write_back(before, s)),
        write_back(before, s).vars == s.vars,
        write_back(before, s).block == s.block,
    decreases before.len(),
{
    lemma_extends_refl(s);
    if before.len() > 0 {
        let (name, slot) = before[0];
        match find(s.vars, name) {
            Some(new) if new.ptr != slot.ptr => {
                let load = InstView::Load { ty: slot.ty, ptr: new.ptr };
                let s1 = emit(s, load);
                let store = InstView::Store { ptr: slot.ptr, value: next(s) };
                lemma_emit(s, load);
                lemma_emit(s1, store);
                lemma_extends(s, s1, emit(s1, store));
                lemma_write_back(before.drop_first(), emit(s1, store));
                lemma_extends(s, emit(s1, store), write_back(before, s));
            },
            _ => {
                lemma_write_back(before.drop_first(), s);
            },
        }
    }
}

proof fn lemma_stmt(stmt: TypedStmtView, cx: LowerCx, s: CodeView)
    requires
        plain_stmt(cx, stmt),
        lower_stmt(stmt, cx, s) is Ok,
    ensures
        extends(s, lower_stmt(stmt, cx, s)->Ok_0),
    decreases stmt, 2int,
{
    match stmt {
        TypedStmtView::Let { name, expr } => {
            let (l, s1) = lower_expr(expr, cx, s)->Ok_0;
            lemma_expr(expr, cx, s);
            if let LoweredView::Value(value, ty) = l {
                lemma_to_ptr(l, ty, s1);
                lemma_extends(s, s1, to_ptr(l, ty, s1).1);
            }
        },
        TypedStmtView::ExprStmt(expr) => {
            lemma_expr(expr, cx, s);
        },
        TypedStmtView::Assign { name, expr } => {
            let slot = find(s.vars, name)->Some_0;
            let (l, s1) = lower_expr(expr, cx, s)->Ok_0;
            lemma_expr(expr, cx, s);
            let (value, _, s2) = to_value(l, s1);
            lemma_to_value(l, s1);
            lemma_extends(s, s1, s2);
            lemma_emit(s2, InstView::Store { ptr: slot.ptr, value });
            lemma_extends(s, s2, emit(s2, InstView::Store { ptr: slot.ptr, value }));
        },
        TypedStmtView::While { cond, body } => {
            lemma_while(stmt, cx, s);
        },
    }
}

#[verifier::spinoff_prover]
#[verifier::rlimit(40)]
proof fn lemma_while(stmt: TypedStmtView, cx: LowerCx, s: CodeView)
    requires
        stmt is While,
        plain_stmt(cx, stmt),
        lower_while(stmt, cx, s) is Ok,
    ensures
        extends(s, lower_while(stmt, cx, s)->Ok_0),
    decreases stmt, 1int,
{
    if let TypedStmtView::While { cond, body } = stmt {
        let b = s.insts.len();
        let jump = InstView::Jump { block: b };
        let s1 = emit(emit(emit(s, InstView::Block), InstView::Block), InstView::Block);
        lemma_three(s, jump);
        let j1 = emit(s1, jump);
        lemma_enter(s, j1, b);
        let s2 = enter(j1, b);
        let (c, s3) = lower_expr(cond, cx, s2)->Ok_0;
        lemma_expr(cond, cx, s2);
        lemma_extends(s, s2, s3);
        let (cond_value, _, s4) = to_value(c, s3);
        lemma_to_value(c, s3);
        lemma_extends(s, s3, s4);
        let branch = InstView::Branch {
            cond: cond_value,
            then_block: b + 1,
            else_block: b + 2,
        };
        let j2 = emit(s4, branch);
        lemma_emit(s4, branch);
        lemma_extends(s, s4, j2);
        lemma_enter(s, j2, b + 1);
        let s5 = enter(j2, b + 1);
        let (_, s6) = lower_block(body, cx, s5)->Ok_0;
        lemma_block(body, cx, s5);
        lemma_extends(s, s5, s6);
        let back = write_back(s.vars, s6);
        lemma_write_back(s.vars, s6);
        lemma_extends(s, s6, back);
        let s7 = emit(back, jump);
        lemma_emit(back, jump);
        lemma_extends(s, back, s7);
        lemma_enter(s, s7, b + 2);
    }
}

proof fn lemma_block(b: TypedBlockView, cx: LowerCx, s: CodeView)
    requires
        plain_block(cx, b),
        lower_block(b, cx, s) is Ok,
    ensures
        extends(s, lower_block(b, cx, s)->Ok_0.1),
    decreases b, 3int,
{
    let s1 = lower_stmts(b.stmts, cx, s)->Ok_0;
    lemma_stmts(b.stmts, cx, s);
    if let Some(e) = b.ret {
        lemma_expr(e, cx, s1);
        lemma_extends(s, s1, lower_block(b, cx, s)->Ok_0.1);
    }
}

/// What stands for a value in registers and cells.
pub open spec fn word(d: Seq<(Seq<char>, ToyStructView)>, v: Value) -> Word
    decreases v,
{
    match v {
        Value::Unit => Word::Int(0),
        Value::Int(n) => Word::Int(n),
        Value::Bool(b) => Word::Int(truth(b)),
        Value::Ref(p) => address(p),
        Value::Record { name, fields } => match find(d, name) {
            None => Word::Unknown,
            Some(def) => Word::Struct(
                Seq::new(
                    def.fields.len(),
                    |i: int|
                        {
                            let k = field_at(fields, def.fields[i].name);
                            if k < fields.len() && field_index(def.fields, def.fields[i].name)
                                == Some(i as nat) {
                                word(d, fields[k as int].1)
                            } else {
                                Word::Unknown
                            }
                        },
                ),
            ),
        },
        _ => Word::Unknown,
    }
}

/// Where a name stands among some fields, or how many they are.
pub open spec fn field_at(fields: Seq<(Seq<char>, Value)>, name: Seq<char>) -> nat
    decreases fields.len(),
{
    if fields.len() == 0 {
        0
    } else if fields[0].0 == name {
        0
    } else {
        field_at(fields.drop_first(), name) + 1
    }
}

/// The address of a place that is a whole cell.
pub open spec fn address(p: Place) -> Word {
    if p.path.len() == 0 {
        Word::Ptr(p.base)
    } else {
        Word::Unknown
    }
}

/// What stands for some values.
pub open spec fn words(d: Seq<(Seq<char>, ToyStructView)>, vs: Seq<Value>) -> Seq<Word> {
    Seq::new(vs.len(), |i: int| word(d, vs[i]))
}

/// Whether an operand holds a word, and is the result of one of the first `n`
/// instructions if it is one of an instruction.
pub open spec fn holds(o: OperandView, w: Word, n: nat, m: Machine) -> bool {
    &&& below(o, n)
    &&& operand(o, m) == Some(w)
}

/// Whether an operand does not go by instructions from the `n`th on.
pub open spec fn below(o: OperandView, n: nat) -> bool {
    match o {
        OperandView::Reg(i) => i < n,
        _ => true,
    }
}

/// Whether what does not go by instructions from the `n`th on has stayed.
pub open spec fn keeps(m: Machine, m1: Machine, n: nat) -> bool {
    forall|o: OperandView| below(o, n) ==> #[trigger] operand(o, m1) == operand(o, m)
}

/// Whether the variables are where the code has them.
pub open spec fn placed(
    places: Seq<(Seq<char>, Place)>,
    slots: Seq<(Seq<char>, SlotView)>,
    n: nat,
    m: Machine,
) -> bool {
    &&& places.len() == slots.len()
    &&& forall|i: int|
        0 <= i < places.len() ==> {
            &&& (#[trigger] places[i]).0 == slots[i].0
            &&& places[i].1.path.len() == 0
            &&& places[i].1.base < m.memory.len()
            &&& holds(slots[i].1.ptr, Word::Ptr(places[i].1.base), n, m)
        }
}

/// Whether a machine is in the state that a program is in, behind the code
/// that was generated so far.
pub open spec fn agrees(d: Seq<(Seq<char>, ToyStructView)>, st: State, s: CodeView, m: Machine) -> bool {
    &&& m.at == s.insts.len()
    &&& m.block == s.block
    &&& m.memory == words(d, st.memory)
    &&& m.outside == st.outside
    &&& placed(st.vars, s.vars, s.insts.len(), m)
}

/// Whether what an expression came to is what it was lowered to.
pub open spec fn shows(d: Seq<(Seq<char>, ToyStructView)>, l: LoweredView, o: Outcome, n: nat, m: Machine) -> bool {
    match (l, o) {
        (LoweredView::Value(x, _), Outcome::Value(v)) => holds(x, word(d, v), n, m),
        (LoweredView::Ptr(x, _), Outcome::Place(p)) => {
            &&& p.path.len() == 0
            &&& p.base < m.memory.len()
            &&& holds(x, Word::Ptr(p.base), n, m)
        },
        _ => false,
    }
}

proof fn lemma_keeps_refl(m: Machine, n: nat)
    ensures
        keeps(m, m, n),
{
}

proof fn lemma_keeps(a: Machine, b: Machine, c: Machine, n: nat, k: nat)
    requires
        keeps(a, b, n),
        keeps(b, c, k),
        n <= k,
    ensures
        keeps(a, c, n),
{
    assert forall|o: OperandView| below(o, n) implies #[trigger] operand(o, c) == operand(o, a) by {
        assert(below(o, k));
        assert(operand(o, b) == operand(o, a));
    }
}

/// A machine that has run on has its variables still.
proof fn lemma_placed_still(
    places: Seq<(Seq<char>, Place)>,
    slots: Seq<(Seq<char>, SlotView)>,
    n: nat,
    k: nat,
    m: Machine,
    m1: Machine,
)
    requires
        placed(places, slots, n, m),
        keeps(m, m1, n),
        n <= k,
        m.memory.len() <= m1.memory.len(),
    ensures
        placed(places, slots, k, m1),
{
    assert forall|i: int| 0 <= i < places.len() implies {
        &&& (#[trigger] places[i]).0 == slots[i].0
        &&& places[i].1.path.len() == 0
        &&& places[i].1.base < m1.memory.len()
        &&& holds(slots[i].1.ptr, Word::Ptr(places[i].1.base), k, m1)
    } by {
        assert(holds(slots[i].1.ptr, Word::Ptr(places[i].1.base), n, m));
        assert(operand(slots[i].1.ptr, m1) == operand(slots[i].1.ptr, m));
    }
}

proof fn lemma_placed_found(
    places: Seq<(Seq<char>, Place)>,
    slots: Seq<(Seq<char>, SlotView)>,
    n: nat,
    m: Machine,
    name: Seq<char>,
)
    requires
        placed(places, slots, n, m),
    ensures
        find(places, name) is Some == find(slots, name) is Some,
        find(places, name) matches Some(p) ==> {
            &&& p.path.len() == 0
            &&& p.base < m.memory.len()
            &&& holds(find(slots, name)->Some_0.ptr, Word::Ptr(p.base), n, m)
        },
    decreases places.len(),
{
    if places.len() > 0 {
        assert(places[0].0 == slots[0].0);
        assert(holds(slots[0].1.ptr, Word::Ptr(places[0].1.base), n, m));
        let ps = places.drop_first();
        let ss = slots.drop_first();
        assert forall|i: int| 0 <= i < ps.len() implies {
            &&& (#[trigger] ps[i]).0 == ss[i].0
            &&& ps[i].1.path.len() == 0
            &&& ps[i].1.base < m.memory.len()
            &&& holds(ss[i].1.ptr, Word::Ptr(ps[i].1.base), n, m)
        } by {
            assert(ps[i] == places[i + 1]);
            assert(ss[i] == slots[i + 1]);
        }
        lemma_placed_found(ps, ss, n, m, name);
    }
}

proof fn lemma_placed_put(
    places: Seq<(Seq<char>, Place)>,
    slots: Seq<(Seq<char>, SlotView)>,
    n: nat,
    m: Machine,
    name: Seq<char>,
    p: Place,
    slot: SlotView,
)
    requires
        placed(places, slots, n, m),
        p.path.len() == 0,
        p.base < m.memory.len(),
        holds(slot.ptr, Word::Ptr(p.base), n, m),
    ensures
        placed(put(places, name, p), put(slots, name, slot), n, m),
    decreases places.len(),
{
    let out = put(places, name, p);
    let outs = put(slots, name, slot);
    if places.len() > 0 {
        assert(places[0].0 == slots[0].0);
        let ps = places.drop_first();
        let ss = slots.drop_first();
        assert forall|i: int| 0 <= i < ps.len() implies {
            &&& (#[trigger] ps[i]).0 == ss[i].0
            &&& ps[i].1.path.len() == 0
            &&& ps[i].1.base < m.memory.len()
            &&& holds(ss[i].1.ptr, Word::Ptr(ps[i].1.base), n, m)
        } by {
            assert(ps[i] == places[i + 1]);
            assert(ss[i] == slots[i + 1]);
        }
        lemma_placed_put(ps, ss, n, m, name, p, slot);
        assert forall|i: int| 0 <= i < out.len() implies {
            &&& (#[trigger] out[i]).0 == outs[i].0
            &&& out[i].1.path.len() == 0
            &&& out[i].1.base < m.memory.len()
            &&& holds(outs[i].1.ptr, Word::Ptr(out[i].1.base), n, m)
        } by {
            if places[0].0 == name {
                if i > 0 {
                    assert(out[i] == places[i]);
                    assert(outs[i] == slots[i]);
                }
            } else if text_lt(name, places[0].0) {
                if i > 0 {
                    assert(out[i] == places[i - 1]);
                    assert(outs[i] == slots[i - 1]);
                }
            } else {
                if i > 0 {
                    assert(out[i] == put(ps, name, p)[i - 1]);
                    assert(outs[i] == put(ss, name, slot)[i - 1]);
                } else {
                    assert(out[0] == places[0]);
                    assert(outs[0] == slots[0]);
                }
            }
        }
    }
}

/// A register that is given by an instruction from the `n`th on.
proof fn lemma_given(m: Machine, w: Word, n: nat)
    requires
        n <= m.at,
    ensures
        keeps(m, give(w, m), n),
        holds(OperandView::Reg(m.at), w, m.at + 1, give(w, m)),
{
}

proof fn lemma_words_push(d: Seq<(Seq<char>, ToyStructView)>, vs: Seq<Value>, v: Value)
    ensures
        words(d, vs.push(v)) == words(d, vs).push(word(d, v)),
{
    assert(words(d, vs.push(v)) =~= words(d, vs).push(word(d, v)));
}

proof fn lemma_words_update(d: Seq<(Seq<char>, ToyStructView)>, vs: Seq<Value>, i: int, v: Value)
    requires
        0 <= i < vs.len(),
    ensures
        words(d, vs.update(i, v)) == words(d, vs).update(i, word(d, v)),
{
    assert(words(d, vs.update(i, v)) =~= words(d, vs).update(i, word(d, v)));
}

proof fn lemma_inst(s: CodeView, inst: InstView, code: Program)
    requires
        within(emit(s, inst), code),
    ensures
        s.insts.len() < code.insts.len(),
        code.insts[s.insts.len() as int] == inst,
        within(s, code),
{
    let s1 = emit(s, inst);
    assert(code.insts[s.insts.len() as int] == s1.insts[s.insts.len() as int]);
    lemma_emit_begins(s, inst);
    lemma_begins(s.insts, s1.insts, code.insts);
}

proof fn lemma_emit_begins(s: CodeView, inst: InstView)
    ensures
        begins(s.insts, emit(s, inst).insts),
{
    let s1 = emit(s, inst);
    assert forall|i: int| 0 <= i < s.insts.len() implies s1.insts[i] == #[trigger] s.insts[i] by {}
}

/// What an expression came to is still there when the machine has run on.
proof fn lemma_shows_still(d: Seq<(Seq<char>, ToyStructView)>, l: LoweredView, o: Outcome, n: nat, k: nat, m: Machine, m1: Machine)
    requires
        shows(d, l, o, n, m),
        keeps(m, m1, n),
        n <= k,
        m.memory.len() <= m1.memory.len(),
    ensures
        shows(d, l, o, k, m1),
{
    match l {
        LoweredView::Value(x, _) => {
            assert(operand(x, m1) == operand(x, m));
        },
        LoweredView::Ptr(x, _) => {
            assert(operand(x, m1) == operand(x, m));
        },
    }
}

/// The machine loads the value of what an expression came to.
proof fn run_to_value(
    l: LoweredView,
    o: Outcome,
    s: CodeView,
    code: Program,
    st: State,
    m: Machine,
    k: Linked,
) -> (m1: Machine)
    requires
        agrees(code.structs, st, s, m),
        shows(code.structs, l, o, s.insts.len(), m),
        value_of(o, st) is Some,
        within(to_value(l, s).2, code),
    ensures
        reaches(code, m, m1, k),
        agrees(code.structs, st, to_value(l, s).2, m1),
        holds(
            to_value(l, s).0,
            word(code.structs, value_of(o, st)->Some_0),
            to_value(l, s).2.insts.len(),
            m1,
        ),
        keeps(m, m1, s.insts.len()),
{
    match (l, o) {
        (LoweredView::Ptr(x, ty), Outcome::Place(p)) => {
            lemma_inst(s, InstView::Load { ty, ptr: x }, code);
            let v = value_of(o, st)->Some_0;
            assert(p.path.len() == 0);
            assert(v == st.memory[p.base as int]);
            assert(m.memory[p.base as int] == word(code.structs, v));
            let m1 = give(word(code.structs, v), m);
            lemma_stays(code, m, k);
            lemma_step_on(code, m, m, k);
            assert(step(code, m, k) == Some(m1));
            lemma_given(m, word(code.structs, v), s.insts.len());
            lemma_placed_still(st.vars, s.vars, s.insts.len(), s.insts.len() + 1, m, m1);
            m1
        },
        _ => {
            lemma_stays(code, m, k);
            m
        },
    }
}

/// The machine puts what an expression came to in a place.
proof fn run_to_ptr(
    l: LoweredView,
    o: Outcome,
    ty: LlvmTypeView,
    s: CodeView,
    code: Program,
    st: State,
    m: Machine,
    k: Linked,
) -> (m1: Machine)
    requires
        agrees(code.structs, st, s, m),
        shows(code.structs, l, o, s.insts.len(), m),
        within(to_ptr(l, ty, s).1, code),
    ensures
        reaches(code, m, m1, k),
        agrees(code.structs, place_of(o, st).1, to_ptr(l, ty, s).1, m1),
        place_of(o, st).0.path.len() == 0,
        place_of(o, st).0.base < m1.memory.len(),
        holds(
            to_ptr(l, ty, s).0,
            Word::Ptr(place_of(o, st).0.base),
            to_ptr(l, ty, s).1.insts.len(),
            m1,
        ),
        keeps(m, m1, s.insts.len()),
        m.memory.len() <= m1.memory.len(),
{
    lemma_stays(code, m, k);
    match (l, o) {
        (LoweredView::Value(x, _), Outcome::Value(v)) => {
            let n = s.insts.len();
            let alloca = InstView::Alloca { ty, align: None };
            let s1 = emit(s, alloca);
            let store = InstView::Store { ptr: next(s), value: x };
            lemma_inst(s1, store, code);
            lemma_inst(s, alloca, code);
            let a = m.memory.len();
            let m1 = Machine { memory: m.memory.push(blank(ty)), ..give(Word::Ptr(a), m) };
            assert(step(code, m, k) == Some(m1));
            lemma_step_on(code, m, m, k);
            lemma_given(m, Word::Ptr(a), n);
            assert forall|q: OperandView| below(q, n) implies #[trigger] operand(q, m1) == operand(
                q,
                m,
            ) by {
                assert(operand(q, give(Word::Ptr(a), m)) == operand(q, m));
            }
            assert(operand(x, m1) == operand(x, m));
            assert(operand(next(s), m1) == Some(Word::Ptr(a)));
            let m2 = Machine { memory: m1.memory.update(a as int, word(code.structs, v)), ..pass(m1) };
            assert(step(code, m1, k) == Some(m2));
            lemma_step_on(code, m, m1, k);
            lemma_words_push(code.structs, st.memory, v);
            assert(m2.memory =~= m.memory.push(word(code.structs, v)));
            assert forall|q: OperandView| below(q, n) implies #[trigger] operand(q, m2) == operand(
                q,
                m,
            ) by {
                assert(operand(q, m1) == operand(q, m));
            }
            lemma_placed_still(st.vars, s.vars, n, n + 2, m, m2);
            m2
        },
        _ => { m },
    }
}

/// Whether the functions of a module do what the functions of toylang do: they
/// give the same for the same, and nothing where nothing is declared.
pub open spec fn linked(d: Seq<(Seq<char>, ToyStructView)>, w: World, k: Linked, decls: Seq<DeclView>) -> bool {
    forall|
        name: Seq<char>,
        type_args: Seq<ResolvedTypeView>,
        args: Seq<Value>,
        memory: Seq<Value>,
        outside: int,
    |
        (#[trigger] (w.calls)(
            Callee::Function { name, type_args: demote_all(type_args) },
            args,
            memory,
            outside,
        )) matches Some((v, after, rest)) ==> {
            let symbol = internal_symbol(name, type_args);
            &&& k(symbol, words(d, args), words(d, memory), outside) == Some(
                (word(d, v), words(d, after), rest),
            )
            &&& memory.len() <= after.len()
            &&& find_decl(decls, symbol) matches Some(d) ==> d.ret is None ==> v is Unit
        }
}

/// Whether operands hold some values.
pub open spec fn hold_all(d: Seq<(Seq<char>, ToyStructView)>, os: Seq<OperandView>, vs: Seq<Value>, n: nat, m: Machine) -> bool {
    &&& os.len() == vs.len()
    &&& forall|i: int| 0 <= i < os.len() ==> holds(#[trigger] os[i], word(d, vs[i]), n, m)
}

proof fn lemma_operands(d: Seq<(Seq<char>, ToyStructView)>, os: Seq<OperandView>, vs: Seq<Value>, n: nat, m: Machine)
    requires
        hold_all(d, os, vs, n, m),
    ensures
        operands(os, m) == Some(words(d, vs)),
    decreases os.len(),
{
    if os.len() == 0 {
        assert(words(d, vs) =~= Seq::empty());
    } else {
        assert(holds(os[0], word(d, vs[0]), n, m));
        let rest = os.drop_first();
        let vals = vs.drop_first();
        assert forall|i: int| 0 <= i < rest.len() implies holds(
            #[trigger] rest[i],
            word(d, vals[i]),
            n,
            m,
        ) by {
            assert(rest[i] == os[i + 1]);
        }
        lemma_operands(d, rest, vals, n, m);
        assert(seq![word(d, vs[0])] + words(d, vals) =~= words(d, vs));
    }
}

/// Whether code does without arithmetic on floats.
pub open spec fn no_floats(code: Program) -> bool {
    forall|i: int| 0 <= i < code.insts.len() ==> !(#[trigger] code.insts[i] is FloatOp)
}

proof fn lemma_go(code: Program, b: nat, i: nat, m: Machine)
    requires
        is_entry(code, b, i),
    ensures
        go(code, b, m) == Some(Machine { at: i + 1, block: b, came: m.block, ..m }),
{
    let j = choose|j: nat| is_entry(code, b, j);
    assert(is_entry(code, b, j));
    if i < j {
        assert(code.insts[i as int] == (InstView::Enter { block: b }));
    }
    if j < i {
        assert(code.insts[j as int] == (InstView::Enter { block: b }));
    }
}

proof fn lemma_entry(s: CodeView, b: nat, code: Program)
    requires
        fresh(s, b),
        within(enter(s, b), code),
    ensures
        is_entry(code, b, s.insts.len()),
        within(s, code),
{
    let inst = InstView::Enter { block: b };
    assert(enter(s, b).insts == emit(s, inst).insts);
    lemma_inst(s, inst, code);
    assert forall|j: int| 0 <= j < s.insts.len() implies #[trigger] code.insts[j] != inst by {
        assert(code.insts[j] == s.insts[j]);
    }
}

proof fn lemma_fresh_emit(s: CodeView, inst: InstView, b: nat)
    requires
        fresh(s, b),
        inst != (InstView::Enter { block: b }),
    ensures
        fresh(emit(s, inst), b),
{
    let s1 = emit(s, inst);
    assert forall|i: int| 0 <= i < s1.insts.len() implies #[trigger] s1.insts[i] != (
    InstView::Enter { block: b }) by {
        if i < s.insts.len() {
            assert(s1.insts[i] == s.insts[i]);
        }
    }
}

proof fn lemma_fresh_settled(s: CodeView, b: nat)
    requires
        settled(s),
        s.insts.len() <= b,
    ensures
        fresh(s, b),
{
}

proof fn lemma_fresh_extends(s: CodeView, s1: CodeView, b: nat)
    requires
        fresh(s, b),
        extends(s, s1),
        b < s.insts.len(),
    ensures
        fresh(s1, b),
{
    assert forall|i: int| 0 <= i < s1.insts.len() implies #[trigger] s1.insts[i] != (
    InstView::Enter { block: b }) by {
        if i < s.insts.len() {
            assert(s1.insts[i] == s.insts[i]);
        }
    }
}

/// Three blocks are appended, and none of them has been entered.
proof fn lemma_fresh_three(s: CodeView, last: InstView, b: nat)
    requires
        settled(s),
        s.insts.len() <= b,
        !(last is Enter),
    ensures
        fresh(
            emit(
                emit(emit(emit(s, InstView::Block), InstView::Block), InstView::Block),
                last,
            ),
            b,
        ),
{
    let x = emit(s, InstView::Block);
    let y = emit(x, InstView::Block);
    lemma_fresh_settled(s, b);
    lemma_fresh_emit(s, InstView::Block, b);
    lemma_fresh_emit(x, InstView::Block, b);
    lemma_fresh_emit(y, InstView::Block, b);
    lemma_fresh_emit(emit(y, InstView::Block), last, b);
}

/// A machine that agrees with the code at one point agrees with it three
/// blocks further.
proof fn run_three(
    s: CodeView,
    last: InstView,
    code: Program,
    st: State,
    m: Machine,
    k: Linked,
) -> (m1: Machine)
    requires
        agrees(code.structs, st, s, m),
        !(last is Enter),
        within(
            emit(
                emit(emit(emit(s, InstView::Block), InstView::Block), InstView::Block),
                last,
            ),
            code,
        ),
    ensures
        reaches(code, m, m1, k),
        m1 == (Machine { at: m.at + 3, ..m }),
        code.insts.len() > m1.at,
        code.insts[m1.at as int] == last,
{
    let x = emit(s, InstView::Block);
    let y = emit(x, InstView::Block);
    let z = emit(y, InstView::Block);
    lemma_inst(z, last, code);
    lemma_inst(y, InstView::Block, code);
    lemma_inst(x, InstView::Block, code);
    lemma_inst(s, InstView::Block, code);
    lemma_stays(code, m, k);
    lemma_step_on(code, m, m, k);
    lemma_step_on(code, m, pass(m), k);
    lemma_step_on(code, m, pass(pass(m)), k);
    pass(pass(pass(m)))
}

/// A machine that has gone to a block has what it had.
proof fn lemma_gone(d: Seq<(Seq<char>, ToyStructView)>, st: State, s: CodeView, s1: CodeView, m: Machine, m1: Machine)
    requires
        agrees(d, st, s, m),
        m1.regs == m.regs,
        m1.params == m.params,
        m1.memory == m.memory,
        m1.outside == m.outside,
        m1.at == s1.insts.len(),
        m1.block == s1.block,
        s1.vars == s.vars,
        s.insts.len() <= s1.insts.len(),
    ensures
        agrees(d, st, s1, m1),
        keeps(m, m1, s.insts.len()),
{
    assert forall|o: OperandView| below(o, s.insts.len()) implies #[trigger] operand(o, m1)
        == operand(o, m) by {}
    lemma_placed_still(st.vars, s.vars, s.insts.len(), s1.insts.len(), m, m1);
}

/// Running the code of a plain expression does what the expression means: the
/// machine comes to the end of the code, with the same state, and holds there
/// what the expression comes to.
pub proof fn run_expr(
    e: TypedExprView,
    cx: LowerCx,
    s: CodeView,
    code: Program,
    st: State,
    m: Machine,
    fuel: nat,
    w: World,
    k: Linked,
) -> (m1: Machine)
    requires
        plain(cx, e),
        settled(s),
        lower_expr(e, cx, s) is Ok,
        within(lower_expr(e, cx, s)->Ok_0.1, code),
        no_floats(code),
        code.structs == cx.registry.structs,
        w.checked,
        linked(code.structs, w, k, code.decls),
        agrees(code.structs, st, s, m),
        typed_eval(e, st, fuel, w) is Some,
    ensures
        ({
            let (l, s1) = lower_expr(e, cx, s)->Ok_0;
            let (o, after) = typed_eval(e, st, fuel, w)->Some_0;
            &&& reaches(code, m, m1, k)
            &&& agrees(code.structs, after, s1, m1)
            &&& shows(code.structs, l, o, s1.insts.len(), m1)
            &&& keeps(m, m1, s.insts.len())
            &&& m.memory.len() <= m1.memory.len()
            &&& after.vars == st.vars
        }),
    decreases fuel, e, 2int,
{
    lemma_stays(code, m, k);
    match e.kind {
        TypedExprKindView::Var(name) => {
            lemma_placed_found(st.vars, s.vars, s.insts.len(), m, name);
            m
        },
        TypedExprKindView::BinaryOp { op, left, right } => {
            run_binary(e, cx, s, code, st, m, fuel, w, k)
        },
        TypedExprKindView::Ref(inner) => {
            reveal_with_fuel(plain, 2);
            let (l, s1) = lower_expr(*inner, cx, s)->Ok_0;
            lemma_expr(*inner, cx, s);
            let t = llvm_type(inner.ty, cx.facts)->Ok_0;
            let (_, s2) = to_ptr(l, t, s1);
            lemma_to_ptr(l, t, s1);
            lemma_within(s1, s2, code);
            let (o, st1) = typed_eval(*inner, st, fuel, w)->Some_0;
            let m1 = run_expr(*inner, cx, s, code, st, m, fuel, w, k);
            let m2 = run_to_ptr(l, o, t, s1, code, st1, m1, k);
            lemma_onward(code, m, m1, m2, k);
            lemma_keeps(m, m1, m2, s.insts.len(), s1.insts.len());
            m2
        },
        TypedExprKindView::If { cond, then_stmts, then_expr, else_stmts, else_expr } => {
            run_if(e, cx, s, code, st, m, fuel, w, k)
        },
        TypedExprKindView::FnCall { name, type_args, args } => {
            run_call(e, cx, s, code, st, m, fuel, w, k)
        },
        TypedExprKindView::StructLit { name, fields } => {
            run_struct(e, cx, s, code, st, m, fuel, w, k)
        },
        TypedExprKindView::FieldAccess { receiver, field } => {
            run_field(e, cx, s, code, st, m, fuel, w, k)
        },
        _ => m,
    }
}

/// The value of a plain expression.
proof fn run_value(
    e: TypedExprView,
    cx: LowerCx,
    s: CodeView,
    code: Program,
    st: State,
    m: Machine,
    fuel: nat,
    w: World,
    k: Linked,
) -> (m1: Machine)
    requires
        plain(cx, e),
        settled(s),
        lower_expr(e, cx, s) is Ok,
        within(
            to_value(lower_expr(e, cx, s)->Ok_0.0, lower_expr(e, cx, s)->Ok_0.1).2,
            code,
        ),
        no_floats(code),
        code.structs == cx.registry.structs,
        w.checked,
        linked(code.structs, w, k, code.decls),
        agrees(code.structs, st, s, m),
        typed_value(e, st, fuel, w) is Some,
    ensures
        ({
            let (l, s1) = lower_expr(e, cx, s)->Ok_0;
            let (x, _, s2) = to_value(l, s1);
            let (v, after) = typed_value(e, st, fuel, w)->Some_0;
            &&& reaches(code, m, m1, k)
            &&& agrees(code.structs, after, s2, m1)
            &&& holds(x, word(code.structs, v), s2.insts.len(), m1)
            &&& keeps(m, m1, s.insts.len())
            &&& m.memory.len() <= m1.memory.len()
            &&& after.vars == st.vars
            &&& extends(s, s2)
            &&& s2.vars == s.vars
        }),
    decreases fuel, e, 3int,
{
    let (l, s1) = lower_expr(e, cx, s)->Ok_0;
    let (_, _, s2) = to_value(l, s1);
    lemma_expr(e, cx, s);
    lemma_to_value(l, s1);
    lemma_extends(s, s1, s2);
    lemma_within(s1, s2, code);
    let (o, st1) = typed_eval(e, st, fuel, w)->Some_0;
    let m1 = run_expr(e, cx, s, code, st, m, fuel, w, k);
    let m2 = run_to_value(l, o, s1, code, st1, m1, k);
    lemma_onward(code, m, m1, m2, k);
    lemma_keeps(m, m1, m2, s.insts.len(), s1.insts.len());
    m2
}

/// The values of plain expressions, one after the other.
proof fn run_values(
    args: Seq<TypedExprView>,
    cx: LowerCx,
    s: CodeView,
    code: Program,
    st: State,
    m: Machine,
    fuel: nat,
    w: World,
    k: Linked,
) -> (m1: Machine)
    requires
        plain_all(cx, args),
        settled(s),
        lower_values(args, cx, s) is Ok,
        within(lower_values(args, cx, s)->Ok_0.1, code),
        no_floats(code),
        code.structs == cx.registry.structs,
        w.checked,
        linked(code.structs, w, k, code.decls),
        agrees(code.structs, st, s, m),
        typed_all(args, st, fuel, w) is Some,
    ensures
        ({
            let (ops, s1) = lower_values(args, cx, s)->Ok_0;
            let (vs, after) = typed_all(args, st, fuel, w)->Some_0;
            &&& reaches(code, m, m1, k)
            &&& agrees(code.structs, after, s1, m1)
            &&& hold_all(code.structs, ops, vs, s1.insts.len(), m1)
            &&& keeps(m, m1, s.insts.len())
            &&& m.memory.len() <= m1.memory.len()
            &&& after.vars == st.vars
        }),
    decreases fuel, args, 4int,
{
    lemma_stays(code, m, k);
    if args.len() == 0 {
        m
    } else {
        let rest = args.drop_first();
        let (l, s1) = lower_expr(args[0], cx, s)->Ok_0;
        let (x, _, s2) = to_value(l, s1);
        lemma_expr(args[0], cx, s);
        lemma_to_value(l, s1);
        lemma_extends(s, s1, s2);
        let (xs, s3) = lower_values(rest, cx, s2)->Ok_0;
        lemma_values(rest, cx, s2);
        lemma_within(s2, s3, code);
        let (v, st1) = typed_value(args[0], st, fuel, w)->Some_0;
        let (vs, st2) = typed_all(rest, st1, fuel, w)->Some_0;
        let m1 = run_value(args[0], cx, s, code, st, m, fuel, w, k);
        let m2 = run_values(rest, cx, s2, code, st1, m1, fuel, w, k);
        lemma_onward(code, m, m1, m2, k);
        lemma_keeps(m, m1, m2, s.insts.len(), s2.insts.len());
        assert(operand(x, m2) == operand(x, m1));
        let os = seq![x] + xs;
        let all = seq![v] + vs;
        assert forall|i: int| 0 <= i < os.len() implies holds(
            #[trigger] os[i],
            word(code.structs, all[i]),
            s3.insts.len(),
            m2,
        ) by {
            if i > 0 {
                assert(os[i] == xs[i - 1]);
                assert(all[i] == vs[i - 1]);
            }
        }
        m2
    }
}

/// A call of a function of toylang: it gets the values of its arguments.
proof fn run_call(
    e: TypedExprView,
    cx: LowerCx,
    s: CodeView,
    code: Program,
    st: State,
    m: Machine,
    fuel: nat,
    w: World,
    k: Linked,
) -> (m1: Machine)
    requires
        e.kind is FnCall,
        plain(cx, e),
        settled(s),
        lower_expr(e, cx, s) is Ok,
        within(lower_expr(e, cx, s)->Ok_0.1, code),
        no_floats(code),
        code.structs == cx.registry.structs,
        w.checked,
        linked(code.structs, w, k, code.decls),
        agrees(code.structs, st, s, m),
        typed_eval(e, st, fuel, w) is Some,
    ensures
        ({
            let (l, s1) = lower_expr(e, cx, s)->Ok_0;
            let (o, after) = typed_eval(e, st, fuel, w)->Some_0;
            &&& reaches(code, m, m1, k)
            &&& agrees(code.structs, after, s1, m1)
            &&& shows(code.structs, l, o, s1.insts.len(), m1)
            &&& keeps(m, m1, s.insts.len())
            &&& m.memory.len() <= m1.memory.len()
            &&& after.vars == st.vars
        }),
    decreases fuel, e, 1int,
{
    if let TypedExprKindView::FnCall { name, type_args, args } = e.kind {
        let s1 = call_start(e, cx, s);
        lemma_call_start(e, cx, s);
        let (ops, s2) = lower_values(args, cx, s1)->Ok_0;
        lemma_values(args, cx, s1);
        let symbol = internal_symbol(name, type_args);
        let inst = InstView::Call { symbol, args: ops };
        lemma_inst(s2, inst, code);
        lemma_keeps_refl(m, s.insts.len());
        lemma_placed_still(st.vars, s.vars, s.insts.len(), s1.insts.len(), m, m);
        assert(agrees(code.structs, st, s1, m));
        let (vs, st1) = typed_all(args, st, fuel, w)->Some_0;
        let m1 = run_values(args, cx, s1, code, st, m, fuel, w, k);
        lemma_operands(code.structs, ops, vs, s2.insts.len(), m1);
        let callee = Callee::Function { name, type_args: demote_all(type_args) };
        let (v, memory, rest) = (w.calls)(callee, vs, st1.memory, st1.outside)->Some_0;
        let m2 = Machine { memory: words(code.structs, memory), outside: rest, ..give(word(code.structs, v), m1) };
        assert(step(code, m1, k) == Some(m2));
        lemma_step_on(code, m, m1, k);
        let n = s2.insts.len();
        lemma_given(m1, word(code.structs, v), n);
        lemma_same_regs(give(word(code.structs, v), m1), m2, n + 1);
        lemma_keeps(m1, give(word(code.structs, v), m1), m2, n, n + 1);
        lemma_keeps(m, m1, m2, s.insts.len(), n);
        lemma_placed_still(st1.vars, s2.vars, n, n + 1, m1, m2);
        assert(find_decl(s2.decls, symbol) == find_decl(s1.decls, symbol));
        assert(find_decl(code.decls, symbol) == find_decl(s2.decls, symbol));
        m2
    } else {
        m
    }
}

proof fn lemma_field_at(fields: Seq<(Seq<char>, Value)>, name: Seq<char>)
    ensures
        find(fields, name) == (if field_at(fields, name) < fields.len() {
            Some(fields[field_at(fields, name) as int].1)
        } else {
            None
        }),
        field_at(fields, name) <= fields.len(),
    decreases fields.len(),
{
    if fields.len() > 0 && fields[0].0 != name {
        lemma_field_at(fields.drop_first(), name);
    }
}

proof fn lemma_field_index(defs: Seq<ToyFieldView>, name: Seq<char>)
    ensures
        field_index(defs, name) matches Some(i) ==> i < defs.len() && defs[i as int].name == name,
    decreases defs.len(),
{
    if defs.len() > 0 && defs[0].name != name {
        lemma_field_index(defs.drop_first(), name);
    }
}

/// The word of a struct holds the words of its fields, each where the
/// definition of the struct has the field.
proof fn lemma_struct_word(
    d: Seq<(Seq<char>, ToyStructView)>,
    name: Seq<char>,
    fields: Seq<(Seq<char>, Value)>,
    field: Seq<char>,
)
    requires
        find(d, name) is Some,
        field_index(find(d, name)->Some_0.fields, field) is Some,
        find(fields, field) is Some,
    ensures
        ({
            let i = field_index(find(d, name)->Some_0.fields, field)->Some_0;
            word(d, Value::Record { name, fields }) matches Word::Struct(ws) && i < ws.len()
                && ws[i as int] == word(d, find(fields, field)->Some_0)
        }),
{
    lemma_field_index(find(d, name)->Some_0.fields, field);
    lemma_field_at(fields, field);
}

/// A struct with another field differs there, and nowhere else.
proof fn lemma_struct_filled(
    d: Seq<(Seq<char>, ToyStructView)>,
    name: Seq<char>,
    fields: Seq<(Seq<char>, Value)>,
    field: Seq<char>,
    v: Value,
)
    requires
        find(d, name) is Some,
        field_index(find(d, name)->Some_0.fields, field) is Some,
    ensures
        ({
            let i = field_index(find(d, name)->Some_0.fields, field)->Some_0;
            word(d, Value::Record { name, fields }) matches Word::Struct(ws) && i < ws.len()
                && word(d, Value::Record { name, fields: put(fields, field, v) }) == Word::Struct(
                ws.update(i as int, word(d, v)),
            )
        }),
{
    let def = find(d, name)->Some_0;
    let i = field_index(def.fields, field)->Some_0;
    lemma_field_index(def.fields, field);
    let after = put(fields, field, v);
    let ws = word(d, Value::Record { name, fields })->Struct_0;
    let new = word(d, Value::Record { name, fields: after })->Struct_0;
    assert forall|j: int| 0 <= j < def.fields.len() implies new[j] == ws.update(
        i as int,
        word(d, v),
    )[j] by {
        let n = def.fields[j].name;
        lemma_field_at(fields, n);
        lemma_field_at(after, n);
        lemma_find_put(fields, field, v, n);
    }
    assert(new =~= ws.update(i as int, word(d, v)));
}

proof fn lemma_types_len(ts: Seq<ResolvedTypeView>, cx: LowerCx)
    ensures
        llvm_types(ts, cx.facts) matches Ok(types) ==> types.len() == ts.len(),
    decreases ts.len(),
{
    if ts.len() > 0 {
        lemma_types_len(ts.drop_first(), cx);
    }
}

/// A struct literal: its fields hold the values of their expressions.
#[verifier::spinoff_prover]
#[verifier::rlimit(40)]
proof fn run_struct(
    e: TypedExprView,
    cx: LowerCx,
    s: CodeView,
    code: Program,
    st: State,
    m: Machine,
    fuel: nat,
    w: World,
    k: Linked,
) -> (m1: Machine)
    requires
        e.kind is StructLit,
        plain(cx, e),
        settled(s),
        lower_expr(e, cx, s) is Ok,
        within(lower_expr(e, cx, s)->Ok_0.1, code),
        no_floats(code),
        code.structs == cx.registry.structs,
        w.checked,
        linked(code.structs, w, k, code.decls),
        agrees(code.structs, st, s, m),
        typed_eval(e, st, fuel, w) is Some,
    ensures
        ({
            let (l, s1) = lower_expr(e, cx, s)->Ok_0;
            let (o, after) = typed_eval(e, st, fuel, w)->Some_0;
            &&& reaches(code, m, m1, k)
            &&& agrees(code.structs, after, s1, m1)
            &&& shows(code.structs, l, o, s1.insts.len(), m1)
            &&& keeps(m, m1, s.insts.len())
            &&& m.memory.len() <= m1.memory.len()
            &&& after.vars == st.vars
        }),
    decreases fuel, e, 1int,
{
    if let TypedExprKindView::StructLit { name, fields } = e.kind {
        let d = code.structs;
        let ty = lit_type(e, cx);
        let types = lit_types(e, cx);
        let def = find(d, name)->Some_0;
        let alloca = InstView::Alloca { ty, align: None };
        let s1 = emit(s, alloca);
        let s2 = lower_lit_fields(fields, name, def.fields, types, next(s), cx, s1)->Ok_0;
        assert(lower_expr(e, cx, s) == Ok::<_, LowerStopView>(
            (LoweredView::Ptr(next(s), ty), s2),
        ));
        lemma_emit(s, alloca);
        lemma_lit(fields, name, def.fields, types, next(s), cx, s1);
        lemma_within(s1, s2, code);
        lemma_inst(s, alloca, code);
        let n = s.insts.len();
        let a = m.memory.len();
        let m1 = Machine { memory: m.memory.push(blank(ty)), ..give(Word::Ptr(a), m) };
        lemma_stays(code, m, k);
        assert(step(code, m, k) == Some(m1));
        lemma_step_on(code, m, m, k);
        lemma_given(m, Word::Ptr(a), n);
        lemma_same_regs(give(Word::Ptr(a), m), m1, n + 1);
        lemma_keeps(m, give(Word::Ptr(a), m), m1, n, n + 1);
        let st1 = begin(name, st);
        let empty = Value::Record { name, fields: Seq::empty() };
        lemma_words_push(d, st.memory, empty);
        if let ResolvedTypeView::Struct { name: _, type_args: _, field_types } = e.ty {
            lemma_types_len(field_types, cx);
        }
        assert(word(d, empty)->Struct_0 =~= blank(ty)->Struct_0);
        assert(word(d, empty) == blank(ty));
        lemma_placed_still(st.vars, s.vars, n, n + 1, m, m1);
        assert(operand(next(s), m1) == Some(Word::Ptr(a)));
        let m2 = run_lit(
            fields,
            name,
            types,
            next(s),
            a,
            cx,
            s1,
            code,
            st1,
            m1,
            fuel,
            w,
            k,
        );
        lemma_onward(code, m, m1, m2, k);
        lemma_keeps(m, m1, m2, n, n + 1);
        assert(operand(next(s), m2) == operand(next(s), m1));
        m2
    } else {
        m
    }
}

/// The fields of a struct literal, one after the other.
#[verifier::spinoff_prover]
#[verifier::rlimit(60)]
proof fn run_lit(
    fields: Seq<(Seq<char>, TypedExprView)>,
    name: Seq<char>,
    types: Seq<LlvmTypeView>,
    base: OperandView,
    a: nat,
    cx: LowerCx,
    s: CodeView,
    code: Program,
    st: State,
    m: Machine,
    fuel: nat,
    w: World,
    k: Linked,
) -> (m1: Machine)
    requires
        plain_fields(cx, fields),
        settled(s),
        find(code.structs, name) is Some,
        lower_lit_fields(
            fields,
            name,
            find(code.structs, name)->Some_0.fields,
            types,
            base,
            cx,
            s,
        ) is Ok,
        within(
            lower_lit_fields(
                fields,
                name,
                find(code.structs, name)->Some_0.fields,
                types,
                base,
                cx,
                s,
            )->Ok_0,
            code,
        ),
        no_floats(code),
        code.structs == cx.registry.structs,
        w.checked,
        linked(code.structs, w, k, code.decls),
        agrees(code.structs, st, s, m),
        holds(base, Word::Ptr(a), s.insts.len(), m),
        typed_fields(fields, name, a, st, fuel, w) is Some,
    ensures
        ({
            let s1 = lower_lit_fields(
                fields,
                name,
                find(code.structs, name)->Some_0.fields,
                types,
                base,
                cx,
                s,
            )->Ok_0;
            let after = typed_fields(fields, name, a, st, fuel, w)->Some_0;
            &&& reaches(code, m, m1, k)
            &&& agrees(code.structs, after, s1, m1)
            &&& keeps(m, m1, s.insts.len())
            &&& m.memory.len() <= m1.memory.len()
            &&& after.vars == st.vars
        }),
    decreases fuel, fields, 4int,
{
    lemma_stays(code, m, k);
    if fields.len() == 0 {
        m
    } else {
        let d = code.structs;
        let defs = find(d, name)->Some_0.fields;
        let (field, e) = fields[0];
        let rest = fields.drop_first();
        let i = field_index(defs, field)->Some_0;
        let n = s.insts.len();
        let point = InstView::FieldPtr {
            ty: LlvmTypeView::Struct { fields: types },
            ptr: base,
            field: i,
        };
        let s1 = emit(s, point);
        lemma_emit(s, point);
        let (l, s2) = lower_expr(e, cx, s1)->Ok_0;
        lemma_expr(e, cx, s1);
        let (x, _, s3) = to_value(l, s2);
        lemma_to_value(l, s2);
        lemma_extends(s1, s2, s3);
        let store_inst = InstView::Store { ptr: next(s), value: x };
        let s4 = emit(s3, store_inst);
        lemma_emit(s3, store_inst);
        lemma_lit(rest, name, defs, types, base, cx, s4);
        let end = lower_lit_fields(rest, name, defs, types, base, cx, s4)->Ok_0;
        lemma_within(s4, end, code);
        lemma_inst(s3, store_inst, code);
        lemma_within(s1, s3, code);
        lemma_inst(s, point, code);
        let at = Word::Field(a, i);
        let m1 = give(at, m);
        assert(step(code, m, k) == Some(m1));
        lemma_step_on(code, m, m, k);
        lemma_given(m, at, n);
        lemma_placed_still(st.vars, s.vars, n, n + 1, m, m1);
        let (v, st1) = typed_value(e, st, fuel, w)->Some_0;
        let m2 = run_value(e, cx, s1, code, st, m1, fuel, w, k);
        lemma_onward(code, m, m1, m2, k);
        lemma_keeps(m, m1, m2, n, n + 1);
        assert(operand(next(s), m2) == operand(next(s), m1));
        let st2 = fill(name, a, field, v, st1)->Some_0;
        let own = st1.memory[a as int]->fields;
        assert(st1.memory[a as int] == (Value::Record { name, fields: own }));
        lemma_struct_filled(d, name, own, field, v);
        lemma_words_update(
            d,
            st1.memory,
            a as int,
            Value::Record { name, fields: put(own, field, v) },
        );
        assert(m2.memory[a as int] == word(d, st1.memory[a as int]));
        let m3 = Machine { memory: words(d, st2.memory), ..pass(m2) };
        assert(step(code, m2, k) == Some(m3));
        lemma_step_on(code, m, m2, k);
        let c = s3.insts.len();
        lemma_same_regs(m2, m3, c);
        lemma_keeps(m, m2, m3, n, c);
        lemma_placed_still(st1.vars, s3.vars, c, c + 1, m2, m3);
        assert(operand(base, m3) == operand(base, m));
        let m4 = run_lit(rest, name, types, base, a, cx, s4, code, st2, m3, fuel, w, k);
        lemma_onward(code, m, m3, m4, k);
        lemma_keeps(m, m3, m4, n, c + 1);
        m4
    }
}

/// The access to a field of a struct: what was stored there is loaded.
#[verifier::spinoff_prover]
#[verifier::rlimit(60)]
proof fn run_field(
    e: TypedExprView,
    cx: LowerCx,
    s: CodeView,
    code: Program,
    st: State,
    m: Machine,
    fuel: nat,
    w: World,
    k: Linked,
) -> (m1: Machine)
    requires
        e.kind is FieldAccess,
        plain(cx, e),
        settled(s),
        lower_expr(e, cx, s) is Ok,
        within(lower_expr(e, cx, s)->Ok_0.1, code),
        no_floats(code),
        code.structs == cx.registry.structs,
        w.checked,
        linked(code.structs, w, k, code.decls),
        agrees(code.structs, st, s, m),
        typed_eval(e, st, fuel, w) is Some,
    ensures
        ({
            let (l, s1) = lower_expr(e, cx, s)->Ok_0;
            let (o, after) = typed_eval(e, st, fuel, w)->Some_0;
            &&& reaches(code, m, m1, k)
            &&& agrees(code.structs, after, s1, m1)
            &&& shows(code.structs, l, o, s1.insts.len(), m1)
            &&& keeps(m, m1, s.insts.len())
            &&& m.memory.len() <= m1.memory.len()
            &&& after.vars == st.vars
        }),
    decreases fuel, e, 1int,
{
    if let TypedExprKindView::FieldAccess { receiver, field } = e.kind {
        let d = code.structs;
        let (l, s1) = lower_expr(*receiver, cx, s)->Ok_0;
        lemma_expr(*receiver, cx, s);
        lemma_place_like(*receiver, cx, s);
        let (ptr, s2) = field_place(l, receiver.ty, field, cx, s1)->Ok_0;
        let point = s2.insts.last();
        assert(s2 == emit(s1, point));
        let t = llvm_type(e.ty, cx.facts)->Ok_0;
        let load_inst = InstView::Load { ty: t, ptr };
        let s3 = emit(s2, load_inst);
        assert(lower_expr(e, cx, s) == Ok::<_, LowerStopView>(
            (LoweredView::Value(next(s2), t), s3),
        ));
        lemma_inst(s2, load_inst, code);
        lemma_inst(s1, point, code);
        let (o, st1) = typed_eval(*receiver, st, fuel, w)->Some_0;
        let m1 = run_expr(*receiver, cx, s, code, st, m, fuel, w, k);
        let p = o->Place_0;
        let n = s1.insts.len();
        let name = receiver.ty->Struct_name;
        let own = st1.memory[p.base as int]->fields;
        assert(st1.memory[p.base as int] == (Value::Record { name, fields: own }));
        let def = find(d, name)->Some_0;
        let i = field_index(def.fields, field)->Some_0;
        assert(point matches InstView::FieldPtr { ty, ptr: x, field: j } && j == i && x
            == l->Ptr_0);
        let q = Place { base: p.base, path: p.path.push(field) };
        reveal_with_fuel(part, 2);
        assert(q.path[0] == field);
        assert(q.path.drop_first().len() == 0);
        assert(read(st1.memory, q) == find(own, field));
        let v = find(own, field)->Some_0;
        lemma_struct_word(d, name, own, field);
        assert(m1.memory[p.base as int] == word(d, st1.memory[p.base as int]));
        let at = Word::Field(p.base, i);
        let m2 = give(at, m1);
        assert(step(code, m1, k) == Some(m2));
        lemma_step_on(code, m, m1, k);
        lemma_given(m1, at, n);
        lemma_keeps(m, m1, m2, s.insts.len(), n);
        let m3 = give(word(d, v), m2);
        assert(step(code, m2, k) == Some(m3));
        lemma_step_on(code, m, m2, k);
        lemma_given(m2, word(d, v), n + 1);
        lemma_keeps(m1, m2, m3, n, n + 1);
        lemma_keeps(m, m1, m3, s.insts.len(), n);
        lemma_placed_still(st1.vars, s1.vars, n, n + 2, m1, m3);
        m3
    } else {
        m
    }
}

proof fn run_binary(
    e: TypedExprView,
    cx: LowerCx,
    s: CodeView,
    code: Program,
    st: State,
    m: Machine,
    fuel: nat,
    w: World,
    k: Linked,
) -> (m1: Machine)
    requires
        e.kind is BinaryOp,
        plain(cx, e),
        settled(s),
        lower_expr(e, cx, s) is Ok,
        within(lower_expr(e, cx, s)->Ok_0.1, code),
        no_floats(code),
        code.structs == cx.registry.structs,
        w.checked,
        linked(code.structs, w, k, code.decls),
        agrees(code.structs, st, s, m),
        typed_eval(e, st, fuel, w) is Some,
    ensures
        ({
            let (l, s1) = lower_expr(e, cx, s)->Ok_0;
            let (o, after) = typed_eval(e, st, fuel, w)->Some_0;
            &&& reaches(code, m, m1, k)
            &&& agrees(code.structs, after, s1, m1)
            &&& shows(code.structs, l, o, s1.insts.len(), m1)
            &&& keeps(m, m1, s.insts.len())
            &&& m.memory.len() <= m1.memory.len()
            &&& after.vars == st.vars
        }),
    decreases fuel, e, 1int,
{
    if let TypedExprKindView::BinaryOp { op, left, right } = e.kind {
        let (l, s1) = lower_expr(*left, cx, s)->Ok_0;
        let (a, at, s2) = to_value(l, s1);
        lemma_expr(*left, cx, s);
        lemma_to_value(l, s1);
        lemma_extends(s, s1, s2);
        let (r, s3) = lower_expr(*right, cx, s2)->Ok_0;
        let (b, bt, s4) = to_value(r, s3);
        lemma_expr(*right, cx, s2);
        lemma_to_value(r, s3);
        lemma_extends(s2, s3, s4);
        let s5 = lower_expr(e, cx, s)->Ok_0.1;
        let inst = s5.insts.last();
        assert(s5 == emit(s4, inst));
        lemma_inst(s4, inst, code);
        assert(!(inst is FloatOp));
        assert(inst == (InstView::IntOp { op, left: a, right: b }));
        lemma_within(s2, s4, code);
        let (x, st1) = typed_value(*left, st, fuel, w)->Some_0;
        let (y, st2) = typed_value(*right, st1, fuel, w)->Some_0;
        let m1 = run_value(*left, cx, s, code, st, m, fuel, w, k);
        let m2 = run_value(*right, cx, s2, code, st1, m1, fuel, w, k);
        lemma_onward(code, m, m1, m2, k);
        lemma_keeps(m, m1, m2, s.insts.len(), s2.insts.len());
        assert(operand(a, m2) == operand(a, m1));
        let v = operate(op, x, y)->Some_0;
        let m3 = give(word(code.structs, v), m2);
        assert(step(code, m2, k) == Some(m3));
        lemma_step_on(code, m, m2, k);
        lemma_given(m2, word(code.structs, v), s4.insts.len());
        lemma_keeps(m, m2, m3, s.insts.len(), s4.insts.len());
        lemma_placed_still(st2.vars, s4.vars, s4.insts.len(), s5.insts.len(), m2, m3);
        m3
    } else {
        m
    }
}

/// The code of a conditional, part by part: up to the branch, at the start
/// and at the end of either branch, and where they meet.
struct IfCode {
    test: CodeView,
    head: CodeView,
    then_start: CodeView,
    then_end: CodeView,
    else_start: CodeView,
    else_end: CodeView,
    meet: CodeView,
}

spec fn if_code(k: TypedExprKindView, cx: LowerCx, s: CodeView) -> IfCode {
    match k {
        TypedExprKindView::If { cond, then_stmts, then_expr, else_stmts, else_expr } => {
            let (c, s1) = lower_expr(*cond, cx, s)->Ok_0;
            let (x, _, test) = to_value(c, s1);
            let b = test.insts.len();
            let head = if_head(x, else_stmts.len() == 0 && else_expr is None, test);
            let then_start = enter(head, b);
            let s5 = lower_stmts(then_stmts, cx, then_start)->Ok_0;
            let then_end = lower_opt(then_expr, cx, s5)->Ok_0.1;
            let else_start = CodeView {
                vars: test.vars,
                ..enter(emit(then_end, InstView::Jump { block: b + 2 }), b + 1)
            };
            let s8 = lower_stmts(else_stmts, cx, else_start)->Ok_0;
            let else_end = lower_opt(else_expr, cx, s8)->Ok_0.1;
            let meet = CodeView {
                vars: test.vars,
                ..enter(emit(else_end, InstView::Jump { block: b + 2 }), b + 2)
            };
            IfCode { test, head, then_start, then_end, else_start, else_end, meet }
        },
        _ => arbitrary(),
    }
}

/// Where the parts of a conditional are in the code.
#[verifier::spinoff_prover]
#[verifier::rlimit(60)]
proof fn lemma_if_code(
    k: TypedExprKindView,
    cx: LowerCx,
    s: CodeView,
    code: Program,
)
    requires
        k is If,
        plain(cx, TypedExprView { kind: k, ty: crate::toylang::typed_ast::ResolvedTypeView::Void }),
        settled(s),
        lower_if(k, cx, s) is Ok,
        within(lower_if(k, cx, s)->Ok_0.1, code),
    ensures
        ({
            let c = if_code(k, cx, s);
            let b = c.test.insts.len();
            let jump = InstView::Jump { block: b + 2 };
            &&& within(c.test, code)
            &&& within(c.head, code)
            &&& within(c.then_end, code)
            &&& within(c.else_end, code)
            &&& within(c.meet, code)
            &&& settled(c.then_start)
            &&& settled(c.else_start)
            &&& c.test.vars == s.vars
            &&& c.then_start.vars == s.vars
            &&& c.else_start.vars == s.vars
            &&& c.meet.vars == s.vars
            &&& s.insts.len() <= b
            &&& c.head.insts.len() == b + 4
            &&& c.then_start.insts.len() == b + 5
            &&& c.then_start.insts.len() <= c.then_end.insts.len()
            &&& c.else_start.insts.len() == c.then_end.insts.len() + 2
            &&& c.else_start.insts.len() <= c.else_end.insts.len()
            &&& c.meet.insts.len() == c.else_end.insts.len() + 2
            &&& c.then_end.insts.len() < code.insts.len()
            &&& c.else_end.insts.len() < code.insts.len()
            &&& code.insts[c.then_end.insts.len() as int] == jump
            &&& code.insts[c.else_end.insts.len() as int] == jump
            &&& is_entry(code, b, (b + 4) as nat)
            &&& is_entry(code, b + 1, (c.then_end.insts.len() + 1) as nat)
            &&& is_entry(code, b + 2, (c.else_end.insts.len() + 1) as nat)
            &&& c.then_end.block != c.else_end.block
            &&& c.meet.block == b + 2
        }),
{
    if let TypedExprKindView::If { cond, then_stmts, then_expr, else_stmts, else_expr } = k {
        let parts = if_code(k, cx, s);
        let (c, s1) = lower_expr(*cond, cx, s)->Ok_0;
        lemma_expr(*cond, cx, s);
        let (x, _, test) = to_value(c, s1);
        lemma_to_value(c, s1);
        lemma_extends(s, s1, test);
        let b = test.insts.len();
        let head = parts.head;
        let last = head.insts.last();
        lemma_three(test, last);
        lemma_fresh_three(test, last, b);
        lemma_fresh_three(test, last, b + 1);
        lemma_fresh_three(test, last, b + 2);
        lemma_enter(test, head, b);
        let e1 = parts.then_start;
        assert(e1.insts == emit(head, InstView::Enter { block: b }).insts);
        lemma_fresh_emit(head, InstView::Enter { block: b }, b + 1);
        lemma_fresh_emit(head, InstView::Enter { block: b }, b + 2);
        let s5 = lower_stmts(then_stmts, cx, e1)->Ok_0;
        lemma_stmts(then_stmts, cx, e1);
        let s6 = parts.then_end;
        lemma_opt(then_expr, cx, s5);
        lemma_extends(e1, s5, s6);
        lemma_fresh_extends(e1, s6, b + 1);
        lemma_fresh_extends(e1, s6, b + 2);
        let jump = InstView::Jump { block: b + 2 };
        let j1 = emit(s6, jump);
        lemma_emit(s6, jump);
        lemma_fresh_emit(s6, jump, b + 1);
        lemma_fresh_emit(s6, jump, b + 2);
        lemma_extends(test, e1, s6);
        lemma_extends(test, s6, j1);
        lemma_enter(test, j1, b + 1);
        let s7 = parts.else_start;
        assert(s7.insts == emit(j1, InstView::Enter { block: b + 1 }).insts);
        lemma_fresh_emit(j1, InstView::Enter { block: b + 1 }, b + 2);
        assert(fresh(s7, b + 2));
        let s8 = lower_stmts(else_stmts, cx, s7)->Ok_0;
        lemma_stmts(else_stmts, cx, s7);
        let s9 = parts.else_end;
        lemma_opt(else_expr, cx, s8);
        lemma_extends(s7, s8, s9);
        lemma_fresh_extends(s7, s9, b + 2);
        let j2 = emit(s9, jump);
        lemma_fresh_emit(s9, jump, b + 2);
        let s10 = parts.meet;
        lemma_meets(k, cx, s, code);
        assert(s10.insts == enter(j2, b + 2).insts);
        lemma_entry(j2, b + 2, code);
        lemma_inst(s9, jump, code);
        lemma_within(s7, s9, code);
        assert(s7.insts == enter(j1, b + 1).insts);
        lemma_entry(j1, b + 1, code);
        lemma_inst(s6, jump, code);
        lemma_within(e1, s6, code);
        lemma_entry(head, b, code);
        lemma_within(test, head, code);
    }
}

/// The value of a conditional stands behind the block where its branches meet.
proof fn lemma_meets(k: TypedExprKindView, cx: LowerCx, s: CodeView, code: Program)
    requires
        k is If,
        lower_if(k, cx, s) is Ok,
        within(lower_if(k, cx, s)->Ok_0.1, code),
    ensures
        within(if_code(k, cx, s).meet, code),
        ({
            let c = if_code(k, cx, s);
            let (l, s1) = lower_if(k, cx, s)->Ok_0;
            if let TypedExprKindView::If {
                cond,
                then_stmts,
                then_expr,
                else_stmts,
                else_expr,
            } = k {
                let then_value = lower_opt(
                    then_expr,
                    cx,
                    lower_stmts(then_stmts, cx, c.then_start)->Ok_0,
                )->Ok_0.0;
                let else_value = lower_opt(
                    else_expr,
                    cx,
                    lower_stmts(else_stmts, cx, c.else_start)->Ok_0,
                )->Ok_0.0;
                match (then_value, else_value) {
                    (Some((x, t)), Some((y, _))) => {
                        let phi = InstView::Phi {
                            ty: t,
                            first: x,
                            first_block: c.then_end.block,
                            second: y,
                            second_block: c.else_end.block,
                        };
                        &&& l == LoweredView::Value(next(c.meet), t)
                        &&& s1 == emit(c.meet, phi)
                        &&& c.meet.insts.len() < code.insts.len()
                        &&& code.insts[c.meet.insts.len() as int] == phi
                    },
                    _ => l == no_value() && s1 == c.meet,
                }
            } else {
                true
            }
        }),
{
    let c = if_code(k, cx, s);
    let (l, s1) = lower_if(k, cx, s)->Ok_0;
    if s1 != c.meet {
        lemma_inst(c.meet, s1.insts.last(), code);
    }
}

/// Both branches of a conditional lead to where they meet, with the value of
/// the branch that the condition says.
#[verifier::spinoff_prover]
#[verifier::rlimit(80)]
proof fn run_if(
    e: TypedExprView,
    cx: LowerCx,
    s: CodeView,
    code: Program,
    st: State,
    m: Machine,
    fuel: nat,
    w: World,
    k: Linked,
) -> (m1: Machine)
    requires
        e.kind is If,
        plain(cx, e),
        settled(s),
        lower_expr(e, cx, s) is Ok,
        within(lower_expr(e, cx, s)->Ok_0.1, code),
        no_floats(code),
        code.structs == cx.registry.structs,
        w.checked,
        linked(code.structs, w, k, code.decls),
        agrees(code.structs, st, s, m),
        typed_eval(e, st, fuel, w) is Some,
    ensures
        ({
            let (l, s1) = lower_expr(e, cx, s)->Ok_0;
            let (o, after) = typed_eval(e, st, fuel, w)->Some_0;
            &&& reaches(code, m, m1, k)
            &&& agrees(code.structs, after, s1, m1)
            &&& shows(code.structs, l, o, s1.insts.len(), m1)
            &&& keeps(m, m1, s.insts.len())
            &&& m.memory.len() <= m1.memory.len()
            &&& after.vars == st.vars
        }),
    decreases fuel, e, 1int,
{
    if let TypedExprKindView::If { cond, then_stmts, then_expr, else_stmts, else_expr } = e.kind {
        lemma_if_code(e.kind, cx, s, code);
        lemma_meets(e.kind, cx, s, code);
        let c = if_code(e.kind, cx, s);
        let b = c.test.insts.len();
        let n = s.insts.len();
        let no_else = else_stmts.len() == 0 && else_expr is None;
        let (t, st1) = typed_value(*cond, st, fuel, w)->Some_0;
        let m1 = run_value(*cond, cx, s, code, st, m, fuel, w, k);
        let m2 = run_three(c.test, c.head.insts.last(), code, st1, m1, k);
        lemma_onward(code, m, m1, m2, k);
        let (l0, s0) = lower_expr(*cond, cx, s)->Ok_0;
        let x = to_value(l0, s0).0;
        lemma_same_regs(m1, m2, b);
        assert(operand(x, m2) == operand(x, m1));
        lemma_go(code, b, (b + 4) as nat, m2);
        lemma_go(code, b + 1, (c.then_end.insts.len() + 1) as nat, m2);
        lemma_go(code, b + 2, (c.else_end.insts.len() + 1) as nat, m2);
        lemma_step_on(code, m, m2, k);
        let m3 = step(code, m2, k)->Some_0;
        lemma_same_regs(m1, m3, b);
        lemma_keeps(m, m1, m3, n, b);
        if t->Bool_0 {
            lemma_gone(code.structs, st1, c.test, c.then_start, m1, m3);
            let s5 = lower_stmts(then_stmts, cx, c.then_start)->Ok_0;
            lemma_stmts(then_stmts, cx, c.then_start);
            lemma_opt(then_expr, cx, s5);
            lemma_within(s5, c.then_end, code);
            let st2 = typed_exec_all(then_stmts, st1, fuel, w)->Some_0;
            let m4 = run_stmts(then_stmts, cx, c.then_start, code, st1, m3, fuel, w, k);
            let m5 = run_opt(then_expr, cx, s5, code, st2, m4, fuel, w, k);
            let (v, st3) = typed_opt(then_expr, st2, fuel, w)->Some_0;
            lemma_onward(code, m, m3, m4, k);
            lemma_onward(code, m, m4, m5, k);
            lemma_keeps(m1, m3, m4, b, c.then_start.insts.len());
            lemma_keeps(m1, m4, m5, b, s5.insts.len());
            lemma_keeps(m, m1, m5, n, b);
            let y = lower_opt(then_expr, cx, s5)->Ok_0.0;
            run_meet(
                e,
                cx,
                s,
                code,
                st1,
                st3,
                m,
                m1,
                m5,
                k,
                true,
                v,
                y,
            )
        } else if no_else {
            lemma_gone(code.structs, st1, c.test, c.meet, m1, m3);
            assert(typed_exec_all(else_stmts, st1, fuel, w) == Some(st1));
            assert(typed_opt(else_expr, st1, fuel, w) == Some((None::<Value>, st1)));
            let s8 = lower_stmts(else_stmts, cx, c.else_start)->Ok_0;
            assert(lower_opt(else_expr, cx, s8)->Ok_0.0 is None);
            m3
        } else {
            lemma_gone(code.structs, st1, c.test, c.else_start, m1, m3);
            let s8 = lower_stmts(else_stmts, cx, c.else_start)->Ok_0;
            lemma_stmts(else_stmts, cx, c.else_start);
            lemma_opt(else_expr, cx, s8);
            lemma_within(s8, c.else_end, code);
            let st2 = typed_exec_all(else_stmts, st1, fuel, w)->Some_0;
            let m4 = run_stmts(else_stmts, cx, c.else_start, code, st1, m3, fuel, w, k);
            let m5 = run_opt(else_expr, cx, s8, code, st2, m4, fuel, w, k);
            let (v, st3) = typed_opt(else_expr, st2, fuel, w)->Some_0;
            lemma_onward(code, m, m3, m4, k);
            lemma_onward(code, m, m4, m5, k);
            lemma_keeps(m1, m3, m4, b, c.else_start.insts.len());
            lemma_keeps(m1, m4, m5, b, s8.insts.len());
            lemma_keeps(m, m1, m5, n, b);
            let y = lower_opt(else_expr, cx, s8)->Ok_0.0;
            run_meet(
                e,
                cx,
                s,
                code,
                st1,
                st3,
                m,
                m1,
                m5,
                k,
                false,
                v,
                y,
            )
        }
    } else {
        m
    }
}

/// From the end of a branch to where the branches meet. Here `m1` is the
/// machine at the branch, and `m5` the one at its end.
#[verifier::spinoff_prover]
#[verifier::rlimit(60)]
proof fn run_meet(
    e: TypedExprView,
    cx: LowerCx,
    s: CodeView,
    code: Program,
    st1: State,
    st3: State,
    m: Machine,
    m1: Machine,
    m5: Machine,
    k: Linked,
    first: bool,
    v: Option<Value>,
    y: Option<(OperandView, LlvmTypeView)>,
) -> (m7: Machine)
    requires
        e.kind is If,
        plain(cx, e),
        settled(s),
        lower_expr(e, cx, s) is Ok,
        within(lower_expr(e, cx, s)->Ok_0.1, code),
        reaches(code, m, m5, k),
        agrees(code.structs, st1, if_code(e.kind, cx, s).test, m1),
        ({
            let c = if_code(e.kind, cx, s);
            let end = if first {
                c.then_end
            } else {
                c.else_end
            };
            let values = match e.kind {
                TypedExprKindView::If { cond, then_stmts, then_expr, else_stmts, else_expr } => (
                    lower_opt(then_expr, cx, lower_stmts(then_stmts, cx, c.then_start)->Ok_0)->Ok_0.0,
                    lower_opt(else_expr, cx, lower_stmts(else_stmts, cx, c.else_start)->Ok_0)->Ok_0.0,
                ),
                _ => arbitrary(),
            };
            &&& agrees(code.structs, st3, end, m5)
            &&& y == if first {
                values.0
            } else {
                values.1
            }
            &&& (y is Some) == (v is Some)
            &&& y matches Some(p) ==> holds(p.0, word(code.structs, v->Some_0), end.insts.len(), m5)
        }),
        keeps(m1, m5, if_code(e.kind, cx, s).test.insts.len()),
        keeps(m, m5, s.insts.len()),
        m.memory.len() <= m1.memory.len() <= m5.memory.len(),
    ensures
        ({
            let (l, s1) = lower_expr(e, cx, s)->Ok_0;
            let both = match e.kind {
                TypedExprKindView::If { cond, then_stmts, then_expr, else_stmts, else_expr } =>
                    then_expr is Some && else_expr is Some,
                _ => false,
            };
            let value = match v {
                Some(x) if both => x,
                _ => Value::Unit,
            };
            &&& reaches(code, m, m7, k)
            &&& agrees(code.structs, State { vars: st1.vars, ..st3 }, s1, m7)
            &&& shows(code.structs, l, Outcome::Value(value), s1.insts.len(), m7)
            &&& keeps(m, m7, s.insts.len())
            &&& m.memory.len() <= m7.memory.len()
        }),
{
    lemma_if_code(e.kind, cx, s, code);
    lemma_meets(e.kind, cx, s, code);
    let c = if_code(e.kind, cx, s);
    let b = c.test.insts.len();
    let n = s.insts.len();
    let (l, s1) = lower_expr(e, cx, s)->Ok_0;
    lemma_go(code, b + 2, (c.else_end.insts.len() + 1) as nat, m5);
    lemma_step_on(code, m, m5, k);
    let m6 = step(code, m5, k)->Some_0;
    lemma_same_regs(m5, m6, m5.at);
    lemma_keeps(m1, m5, m6, b, m5.at);
    lemma_keeps(m, m5, m6, n, m5.at);
    let st4 = State { vars: st1.vars, ..st3 };
    lemma_placed_still(st1.vars, c.test.vars, b, c.meet.insts.len(), m1, m6);
    assert(agrees(code.structs, st4, c.meet, m6));
    if s1 == c.meet {
        m6
    } else {
        let x = v->Some_0;
        assert(operand(y->Some_0.0, m6) == operand(y->Some_0.0, m5));
        let m7 = give(word(code.structs, x), m6);
        assert(step(code, m6, k) == Some(m7));
        lemma_step_on(code, m, m6, k);
        lemma_given(m6, word(code.structs, x), c.meet.insts.len());
        lemma_keeps(m, m6, m7, n, c.meet.insts.len());
        lemma_placed_still(st1.vars, c.meet.vars, c.meet.insts.len(), s1.insts.len(), m6, m7);
        m7
    }
}

/// Running the code of plain statements does what they mean.
pub proof fn run_stmts(
    stmts: Seq<TypedStmtView>,
    cx: LowerCx,
    s: CodeView,
    code: Program,
    st: State,
    m: Machine,
    fuel: nat,
    w: World,
    k: Linked,
) -> (m1: Machine)
    requires
        plain_stmts(cx, stmts),
        settled(s),
        lower_stmts(stmts, cx, s) is Ok,
        within(lower_stmts(stmts, cx, s)->Ok_0, code),
        no_floats(code),
        code.structs == cx.registry.structs,
        w.checked,
        linked(code.structs, w, k, code.decls),
        agrees(code.structs, st, s, m),
        typed_exec_all(stmts, st, fuel, w) is Some,
    ensures
        reaches(code, m, m1, k),
        agrees(code.structs, 
            typed_exec_all(stmts, st, fuel, w)->Some_0,
            lower_stmts(stmts, cx, s)->Ok_0,
            m1,
        ),
        keeps(m, m1, s.insts.len()),
        m.memory.len() <= m1.memory.len(),
    decreases fuel, stmts, 2int,
{
    lemma_stays(code, m, k);
    if stmts.len() == 0 {
        m
    } else {
        let rest = stmts.drop_first();
        let s1 = lower_stmt(stmts[0], cx, s)->Ok_0;
        lemma_stmt(stmts[0], cx, s);
        lemma_stmts(rest, cx, s1);
        lemma_within(s1, lower_stmts(rest, cx, s1)->Ok_0, code);
        let st1 = typed_exec(stmts[0], st, fuel, w)->Some_0;
        let m1 = run_stmt(stmts[0], cx, s, code, st, m, fuel, w, k);
        let m2 = run_stmts(rest, cx, s1, code, st1, m1, fuel, w, k);
        lemma_onward(code, m, m1, m2, k);
        lemma_keeps(m, m1, m2, s.insts.len(), s1.insts.len());
        m2
    }
}

proof fn run_opt(
    e: Option<Box<TypedExprView>>,
    cx: LowerCx,
    s: CodeView,
    code: Program,
    st: State,
    m: Machine,
    fuel: nat,
    w: World,
    k: Linked,
) -> (m1: Machine)
    requires
        plain_opt(cx, e),
        settled(s),
        lower_opt(e, cx, s) is Ok,
        within(lower_opt(e, cx, s)->Ok_0.1, code),
        no_floats(code),
        code.structs == cx.registry.structs,
        w.checked,
        linked(code.structs, w, k, code.decls),
        agrees(code.structs, st, s, m),
        typed_opt(e, st, fuel, w) is Some,
    ensures
        ({
            let (x, s1) = lower_opt(e, cx, s)->Ok_0;
            let (v, after) = typed_opt(e, st, fuel, w)->Some_0;
            &&& reaches(code, m, m1, k)
            &&& agrees(code.structs, after, s1, m1)
            &&& (x is Some) == (e is Some)
            &&& (v is Some) == (e is Some)
            &&& x matches Some(p) ==> holds(p.0, word(code.structs, v->Some_0), s1.insts.len(), m1)
            &&& keeps(m, m1, s.insts.len())
            &&& m.memory.len() <= m1.memory.len()
        }),
    decreases fuel, e, 4int,
{
    lemma_stays(code, m, k);
    match e {
        None => m,
        Some(x) => run_value(*x, cx, s, code, st, m, fuel, w, k),
    }
}

/// Running the code of a plain statement does what the statement means.
pub proof fn run_stmt(
    stmt: TypedStmtView,
    cx: LowerCx,
    s: CodeView,
    code: Program,
    st: State,
    m: Machine,
    fuel: nat,
    w: World,
    k: Linked,
) -> (m1: Machine)
    requires
        plain_stmt(cx, stmt),
        settled(s),
        lower_stmt(stmt, cx, s) is Ok,
        within(lower_stmt(stmt, cx, s)->Ok_0, code),
        no_floats(code),
        code.structs == cx.registry.structs,
        w.checked,
        linked(code.structs, w, k, code.decls),
        agrees(code.structs, st, s, m),
        typed_exec(stmt, st, fuel, w) is Some,
    ensures
        reaches(code, m, m1, k),
        agrees(code.structs, typed_exec(stmt, st, fuel, w)->Some_0, lower_stmt(stmt, cx, s)->Ok_0, m1),
        keeps(m, m1, s.insts.len()),
        m.memory.len() <= m1.memory.len(),
    decreases fuel, stmt, 2int,
{
    match stmt {
        TypedStmtView::Let { name, expr } => {
            let (l, s1) = lower_expr(expr, cx, s)->Ok_0;
            let (o, st1) = typed_eval(expr, st, fuel, w)->Some_0;
            let ty = match l {
                LoweredView::Value(_, ty) => ty,
                LoweredView::Ptr(_, ty) => ty,
            };
            let (ptr, s2) = to_ptr(l, ty, s1);
            lemma_to_ptr(l, ty, s1);
            lemma_within(s1, s2, code);
            let m1 = run_expr(expr, cx, s, code, st, m, fuel, w, k);
            let m2 = run_to_ptr(l, o, ty, s1, code, st1, m1, k);
            lemma_onward(code, m, m1, m2, k);
            lemma_expr(expr, cx, s);
            lemma_keeps(m, m1, m2, s.insts.len(), s1.insts.len());
            let (p, st2) = place_of(o, st1);
            lemma_placed_put(
                st2.vars,
                s2.vars,
                s2.insts.len(),
                m2,
                name,
                p,
                SlotView { ptr, ty },
            );
            m2
        },
        TypedStmtView::ExprStmt(expr) => {
            run_expr(expr, cx, s, code, st, m, fuel, w, k)
        },
        TypedStmtView::Assign { name, expr } => {
            let slot = find(s.vars, name)->Some_0;
            let p = find(st.vars, name)->Some_0;
            lemma_placed_found(st.vars, s.vars, s.insts.len(), m, name);
            let (l, s1) = lower_expr(expr, cx, s)->Ok_0;
            let (x, _, s2) = to_value(l, s1);
            let store = InstView::Store { ptr: slot.ptr, value: x };
            lemma_inst(s2, store, code);
            let (v, st1) = typed_value(expr, st, fuel, w)->Some_0;
            let m1 = run_value(expr, cx, s, code, st, m, fuel, w, k);
            assert(operand(slot.ptr, m1) == operand(slot.ptr, m));
            let m2 = Machine { memory: m1.memory.update(p.base as int, word(code.structs, v)), ..pass(m1) };
            assert(step(code, m1, k) == Some(m2));
            lemma_step_on(code, m, m1, k);
            lemma_words_update(code.structs, st1.memory, p.base as int, v);
            lemma_same_regs(m1, m2, s2.insts.len());
            lemma_keeps(m, m1, m2, s.insts.len(), s2.insts.len());
            lemma_placed_still(st1.vars, s2.vars, s2.insts.len(), s2.insts.len() + 1, m1, m2);
            m2
        },
        TypedStmtView::While { cond, body } => {
            run_while(stmt, cx, s, code, st, m, fuel, w, k)
        },
    }
}

proof fn lemma_same_regs(m: Machine, m1: Machine, n: nat)
    requires
        m1.regs == m.regs,
        m1.params == m.params,
    ensures
        keeps(m, m1, n),
{
    assert forall|o: OperandView| below(o, n) implies #[trigger] operand(o, m1) == operand(o, m) by {}
}

/// Running the code that writes back variables that were rebound.
#[verifier::spinoff_prover]
#[verifier::rlimit(40)]
proof fn run_back(
    slots: Seq<(Seq<char>, SlotView)>,
    places: Seq<(Seq<char>, Place)>,
    s: CodeView,
    code: Program,
    st: State,
    m: Machine,
    k: Linked,
) -> (m1: Machine)
    requires
        placed(places, slots, s.insts.len(), m),
        agrees(code.structs, st, s, m),
        within(write_back(slots, s), code),
        restore(places, st.vars, st.memory) is Some,
    ensures
        reaches(code, m, m1, k),
        agrees(code.structs, 
            State { memory: restore(places, st.vars, st.memory)->Some_0, ..st },
            write_back(slots, s),
            m1,
        ),
        keeps(m, m1, s.insts.len()),
        m1.memory.len() == m.memory.len(),
    decreases slots.len(),
{
    lemma_stays(code, m, k);
    if slots.len() == 0 {
        m
    } else {
        let (name, slot) = slots[0];
        let (_, old_place) = places[0];
        assert(places[0].0 == slots[0].0);
        assert(holds(slot.ptr, Word::Ptr(old_place.base), s.insts.len(), m));
        lemma_placed_found(st.vars, s.vars, s.insts.len(), m, name);
        let n = s.insts.len();
        match find(s.vars, name) {
            Some(new) if new.ptr != slot.ptr => {
                let p = find(st.vars, name)->Some_0;
                let load = InstView::Load { ty: slot.ty, ptr: new.ptr };
                let s1 = emit(s, load);
                let store = InstView::Store { ptr: slot.ptr, value: next(s) };
                let s2 = emit(s1, store);
                lemma_write_back(slots.drop_first(), s2);
                lemma_within(s2, write_back(slots, s), code);
                lemma_inst(s1, store, code);
                lemma_inst(s, load, code);
                let v = st.memory[p.base as int];
                assert(read(st.memory, p) == Some(v));
                let m1 = give(word(code.structs, v), m);
                assert(step(code, m, k) == Some(m1));
                lemma_step_on(code, m, m, k);
                lemma_given(m, word(code.structs, v), n);
                assert(operand(slot.ptr, m1) == operand(slot.ptr, m));
                let m2 = Machine {
                    memory: m1.memory.update(old_place.base as int, word(code.structs, v)),
                    ..pass(m1)
                };
                assert(step(code, m1, k) == Some(m2));
                lemma_step_on(code, m, m1, k);
                lemma_same_regs(m1, m2, n);
                lemma_keeps(m, m1, m2, n, n);
                lemma_words_update(code.structs, st.memory, old_place.base as int, v);
                let st2 = State { memory: st.memory.update(old_place.base as int, v), ..st };
                lemma_placed_still(st.vars, s.vars, n, n + 2, m, m2);
                if p == old_place {
                    assert(st2.memory =~= st.memory);
                }
                lemma_placed_rest(places, slots, n, n + 2, m, m2);
                assert(agrees(code.structs, st2, s2, m2));
                let m3 = run_back(
                    slots.drop_first(),
                    places.drop_first(),
                    s2,
                    code,
                    st2,
                    m2,
                    k,
                );
                lemma_onward(code, m, m2, m3, k);
                lemma_keeps(m, m2, m3, n, n + 2);
                m3
            },
            _ => {
                if let Some(p) = find(st.vars, name) {
                    assert(p.base == old_place.base);
                    assert(p.path =~= old_place.path);
                }
                lemma_keeps_refl(m, n);
                lemma_placed_rest(places, slots, n, n, m, m);
                run_back(slots.drop_first(), places.drop_first(), s, code, st, m, k)
            },
        }
    }
}

proof fn lemma_placed_rest(
    places: Seq<(Seq<char>, Place)>,
    slots: Seq<(Seq<char>, SlotView)>,
    n: nat,
    k: nat,
    m: Machine,
    m1: Machine,
)
    requires
        placed(places, slots, n, m),
        keeps(m, m1, n),
        n <= k,
        m.memory.len() <= m1.memory.len(),
        places.len() > 0,
    ensures
        placed(places.drop_first(), slots.drop_first(), k, m1),
{
    lemma_placed_still(places, slots, n, k, m, m1);
    let ps = places.drop_first();
    let ss = slots.drop_first();
    assert forall|i: int| 0 <= i < ps.len() implies {
        &&& (#[trigger] ps[i]).0 == ss[i].0
        &&& ps[i].1.path.len() == 0
        &&& ps[i].1.base < m1.memory.len()
        &&& holds(ss[i].1.ptr, Word::Ptr(ps[i].1.base), k, m1)
    } by {
        assert(ps[i] == places[i + 1]);
        assert(ss[i] == slots[i + 1]);
    }
}

/// The code of a loop up to its condition.
spec fn loop_head(s: CodeView) -> CodeView {
    let b = s.insts.len();
    enter(
        emit(
            emit(emit(emit(s, InstView::Block), InstView::Block), InstView::Block),
            InstView::Jump { block: b },
        ),
        b,
    )
}

/// The condition of a loop and the code up to its test.
spec fn loop_test(cond: TypedExprView, cx: LowerCx, s: CodeView) -> (OperandView, CodeView) {
    let (c, s3) = lower_expr(cond, cx, loop_head(s))->Ok_0;
    let (x, _, s4) = to_value(c, s3);
    (x, s4)
}

/// Where a loop goes from its test: into the body, or behind the loop.
spec fn loop_branch(cond: TypedExprView, cx: LowerCx, s: CodeView) -> InstView {
    let b = s.insts.len();
    InstView::Branch { cond: loop_test(cond, cx, s).0, then_block: b + 1, else_block: b + 2 }
}

/// The code of a loop up to its body.
spec fn loop_body(cond: TypedExprView, cx: LowerCx, s: CodeView) -> CodeView {
    enter(emit(loop_test(cond, cx, s).1, loop_branch(cond, cx, s)), s.insts.len() + 1)
}

/// The code of a loop up to the jump back.
spec fn loop_back(cond: TypedExprView, body: TypedBlockView, cx: LowerCx, s: CodeView) -> CodeView {
    write_back(s.vars, lower_block(body, cx, loop_body(cond, cx, s))->Ok_0.1)
}

/// Where the parts of a loop are in the code.
#[verifier::spinoff_prover]
#[verifier::rlimit(60)]
proof fn lemma_loop(
    cond: TypedExprView,
    body: TypedBlockView,
    cx: LowerCx,
    s: CodeView,
    code: Program,
)
    requires
        plain(cx, cond),
        plain_block(cx, body),
        settled(s),
        lower_while(TypedStmtView::While { cond, body }, cx, s) is Ok,
        within(lower_while(TypedStmtView::While { cond, body }, cx, s)->Ok_0, code),
    ensures
        ({
            let b = s.insts.len();
            let head = loop_head(s);
            let (x, test) = loop_test(cond, cx, s);
            let start = loop_body(cond, cx, s);
            let end = lower_block(body, cx, start)->Ok_0.1;
            let back = loop_back(cond, body, cx, s);
            let last = lower_while(TypedStmtView::While { cond, body }, cx, s)->Ok_0;
            let jump = InstView::Jump { block: b };
            &&& lower_expr(cond, cx, head) is Ok
            &&& lower_block(body, cx, start) is Ok
            &&& settled(head)
            &&& settled(start)
            &&& head.insts.len() == b + 5
            &&& head.vars == s.vars
            &&& test.vars == s.vars
            &&& head.insts.len() <= test.insts.len()
            &&& start.insts.len() == test.insts.len() + 2
            &&& start.insts.len() <= end.insts.len() <= back.insts.len()
            &&& last.insts.len() == back.insts.len() + 2
            &&& last.vars == s.vars
            &&& last.block == b + 2
            &&& end.block == back.block
            &&& within(
                emit(
                    emit(emit(emit(s, InstView::Block), InstView::Block), InstView::Block),
                    jump,
                ),
                code,
            )
            &&& within(test, code)
            &&& within(end, code)
            &&& within(back, code)
            &&& test.insts.len() < code.insts.len()
            &&& code.insts[test.insts.len() as int] == loop_branch(cond, cx, s)
            &&& back.insts.len() < code.insts.len()
            &&& code.insts[back.insts.len() as int] == jump
            &&& is_entry(code, b, (b + 4) as nat)
            &&& is_entry(code, b + 1, (test.insts.len() + 1) as nat)
            &&& is_entry(code, b + 2, (back.insts.len() + 1) as nat)
        }),
{
    let b = s.insts.len();
    let jump = InstView::Jump { block: b };
    let j1 = emit(
        emit(emit(emit(s, InstView::Block), InstView::Block), InstView::Block),
        jump,
    );
    lemma_three(s, jump);
    lemma_fresh_three(s, jump, b);
    lemma_fresh_three(s, jump, b + 1);
    lemma_fresh_three(s, jump, b + 2);
    lemma_enter(s, j1, b);
    let head = loop_head(s);
    lemma_fresh_emit(j1, InstView::Enter { block: b }, b + 1);
    lemma_fresh_emit(j1, InstView::Enter { block: b }, b + 2);
    assert(head.insts == emit(j1, InstView::Enter { block: b }).insts);
    let (c, s3) = lower_expr(cond, cx, head)->Ok_0;
    lemma_expr(cond, cx, head);
    let (x, test) = loop_test(cond, cx, s);
    lemma_to_value(c, s3);
    lemma_extends(head, s3, test);
    lemma_fresh_extends(head, test, b + 1);
    lemma_fresh_extends(head, test, b + 2);
    let branch = loop_branch(cond, cx, s);
    let j2 = emit(test, branch);
    lemma_emit(test, branch);
    lemma_fresh_emit(test, branch, b + 1);
    lemma_fresh_emit(test, branch, b + 2);
    lemma_extends(head, test, j2);
    lemma_extends(s, head, j2);
    lemma_enter(s, j2, b + 1);
    let start = loop_body(cond, cx, s);
    lemma_fresh_emit(j2, InstView::Enter { block: b + 1 }, b + 2);
    assert(start.insts == emit(j2, InstView::Enter { block: b + 1 }).insts);
    let end = lower_block(body, cx, start)->Ok_0.1;
    lemma_block(body, cx, start);
    let back = loop_back(cond, body, cx, s);
    lemma_write_back(s.vars, end);
    lemma_extends(start, end, back);
    lemma_fresh_extends(start, back, b + 2);
    let j3 = emit(back, jump);
    lemma_fresh_emit(back, jump, b + 2);
    let last = lower_while(TypedStmtView::While { cond, body }, cx, s)->Ok_0;
    assert(last.insts == enter(j3, b + 2).insts);
    lemma_entry(j3, b + 2, code);
    lemma_inst(back, jump, code);
    lemma_within(end, back, code);
    lemma_within(start, end, code);
    lemma_entry(j2, b + 1, code);
    lemma_inst(test, branch, code);
    lemma_within(head, test, code);
    lemma_entry(j1, b, code);
}

#[verifier::spinoff_prover]
#[verifier::rlimit(40)]
proof fn run_while(
    stmt: TypedStmtView,
    cx: LowerCx,
    s: CodeView,
    code: Program,
    st: State,
    m: Machine,
    fuel: nat,
    w: World,
    k: Linked,
) -> (m1: Machine)
    requires
        stmt is While,
        plain_stmt(cx, stmt),
        settled(s),
        lower_stmt(stmt, cx, s) is Ok,
        within(lower_stmt(stmt, cx, s)->Ok_0, code),
        no_floats(code),
        code.structs == cx.registry.structs,
        w.checked,
        linked(code.structs, w, k, code.decls),
        agrees(code.structs, st, s, m),
        typed_exec(stmt, st, fuel, w) is Some,
    ensures
        reaches(code, m, m1, k),
        agrees(code.structs, typed_exec(stmt, st, fuel, w)->Some_0, lower_stmt(stmt, cx, s)->Ok_0, m1),
        keeps(m, m1, s.insts.len()),
        m.memory.len() <= m1.memory.len(),
    decreases fuel, stmt, 1int,
{
    if let TypedStmtView::While { cond, body } = stmt {
        let b = s.insts.len();
        lemma_loop(cond, body, cx, s, code);
        let m1 = run_three(s, InstView::Jump { block: b }, code, st, m, k);
        lemma_go(code, b, (b + 4) as nat, m1);
        lemma_step_on(code, m, m1, k);
        let m2 = step(code, m1, k)->Some_0;
        let head = loop_head(s);
        lemma_gone(code.structs, st, s, head, m, m2);
        let m3 = run_loop(stmt, cx, s, code, st, m2, fuel, w, k);
        lemma_onward(code, m, m2, m3, k);
        lemma_keeps(m, m2, m3, b, head.insts.len());
        m3
    } else {
        m
    }
}

/// From the head of a loop on: into the body where the condition is true, and
/// behind the loop where it is false.
#[verifier::spinoff_prover]
#[verifier::rlimit(60)]
proof fn run_loop(
    stmt: TypedStmtView,
    cx: LowerCx,
    s: CodeView,
    code: Program,
    st: State,
    m: Machine,
    fuel: nat,
    w: World,
    k: Linked,
) -> (m1: Machine)
    requires
        stmt is While,
        plain_stmt(cx, stmt),
        settled(s),
        lower_stmt(stmt, cx, s) is Ok,
        within(lower_stmt(stmt, cx, s)->Ok_0, code),
        no_floats(code),
        code.structs == cx.registry.structs,
        w.checked,
        linked(code.structs, w, k, code.decls),
        agrees(code.structs, st, loop_head(s), m),
        typed_exec(stmt, st, fuel, w) is Some,
    ensures
        reaches(code, m, m1, k),
        agrees(code.structs, typed_exec(stmt, st, fuel, w)->Some_0, lower_stmt(stmt, cx, s)->Ok_0, m1),
        keeps(m, m1, loop_head(s).insts.len()),
        m.memory.len() <= m1.memory.len(),
    decreases fuel, stmt, 0int,
{
    if let TypedStmtView::While { cond, body } = stmt {
        let b = s.insts.len();
        lemma_loop(cond, body, cx, s, code);
        let head = loop_head(s);
        let n = head.insts.len();
        let (x, test) = loop_test(cond, cx, s);
        let (v, st1) = typed_value(cond, st, fuel, w)->Some_0;
        let m1 = run_value(cond, cx, head, code, st, m, fuel, w, k);
        let t = v->Bool_0;
        assert(operand(x, m1) == Some(Word::Int(truth(t))));
        lemma_step_on_branch(code, m, m1, k, cond, cx, s, t, body);
        let m2 = step(code, m1, k)->Some_0;
        if t {
            let start = loop_body(cond, cx, s);
            lemma_gone(code.structs, st1, test, start, m1, m2);
            lemma_keeps(m, m1, m2, n, test.insts.len());
            let end = lower_block(body, cx, start)->Ok_0.1;
            let (_, st2) = typed_block(body, st1, fuel, w)->Some_0;
            let m3 = run_block(body, cx, start, code, st1, m2, fuel, w, k);
            lemma_onward(code, m, m2, m3, k);
            lemma_keeps(m, m2, m3, n, start.insts.len());
            lemma_placed_still(st.vars, s.vars, n, end.insts.len(), m, m3);
            let m4 = run_back(s.vars, st.vars, end, code, st2, m3, k);
            lemma_onward(code, m, m3, m4, k);
            lemma_keeps(m, m3, m4, n, end.insts.len());
            let back = loop_back(cond, body, cx, s);
            lemma_go(code, b, (b + 4) as nat, m4);
            lemma_step_on(code, m, m4, k);
            let m5 = step(code, m4, k)->Some_0;
            let st3 = round(st, st2)->Some_0;
            lemma_same_regs(m4, m5, n);
            lemma_keeps(m, m4, m5, n, n);
            lemma_placed_still(st.vars, s.vars, n, n, m, m5);
            assert(agrees(code.structs, st3, head, m5));
            let m6 = run_loop(stmt, cx, s, code, st3, m5, (fuel - 1) as nat, w, k);
            lemma_onward(code, m, m5, m6, k);
            lemma_keeps(m, m5, m6, n, n);
            m6
        } else {
            let last = lower_stmt(stmt, cx, s)->Ok_0;
            lemma_gone(code.structs, st1, test, last, m1, m2);
            lemma_keeps(m, m1, m2, n, test.insts.len());
            m2
        }
    } else {
        m
    }
}

/// The test of a loop: where its condition is true the machine goes to the
/// body, where it is false behind the loop.
proof fn lemma_step_on_branch(
    code: Program,
    m: Machine,
    m1: Machine,
    k: Linked,
    cond: TypedExprView,
    cx: LowerCx,
    s: CodeView,
    t: bool,
    body: TypedBlockView,
)
    requires
        reaches(code, m, m1, k),
        m1.at == loop_test(cond, cx, s).1.insts.len(),
        m1.at < code.insts.len(),
        code.insts[m1.at as int] == loop_branch(cond, cx, s),
        operand(loop_test(cond, cx, s).0, m1) == Some(Word::Int(truth(t))),
        is_entry(code, s.insts.len() + 1, (m1.at + 1) as nat),
        is_entry(
            code,
            s.insts.len() + 2,
            (loop_back(cond, body, cx, s).insts.len() + 1) as nat,
        ),
    ensures
        step(code, m1, k) == Some(
            if t {
                Machine { at: m1.at + 2, block: s.insts.len() + 1, came: m1.block, ..m1 }
            } else {
                Machine {
                    at: loop_back(cond, body, cx, s).insts.len() + 2,
                    block: s.insts.len() + 2,
                    came: m1.block,
                    ..m1
                }
            },
        ),
        reaches(code, m, step(code, m1, k)->Some_0, k),
{
    lemma_go(code, s.insts.len() + 1, (m1.at + 1) as nat, m1);
    lemma_go(
        code,
        s.insts.len() + 2,
        (loop_back(cond, body, cx, s).insts.len() + 1) as nat,
        m1,
    );
    lemma_step_on(code, m, m1, k);
}

/// Running the code of a plain block does what the block means.
pub proof fn run_block(
    b: TypedBlockView,
    cx: LowerCx,
    s: CodeView,
    code: Program,
    st: State,
    m: Machine,
    fuel: nat,
    w: World,
    k: Linked,
) -> (m1: Machine)
    requires
        plain_block(cx, b),
        settled(s),
        lower_block(b, cx, s) is Ok,
        within(lower_block(b, cx, s)->Ok_0.1, code),
        no_floats(code),
        code.structs == cx.registry.structs,
        w.checked,
        linked(code.structs, w, k, code.decls),
        agrees(code.structs, st, s, m),
        typed_block(b, st, fuel, w) is Some,
    ensures
        ({
            let (l, s1) = lower_block(b, cx, s)->Ok_0;
            let (o, after) = typed_block(b, st, fuel, w)->Some_0;
            &&& reaches(code, m, m1, k)
            &&& agrees(code.structs, after, s1, m1)
            &&& (l is Some) == (o is Some)
            &&& l matches Some(x) ==> shows(code.structs, x, o->Some_0, s1.insts.len(), m1)
            &&& keeps(m, m1, s.insts.len())
            &&& m.memory.len() <= m1.memory.len()
        }),
    decreases fuel, b, 3int,
{
    let s1 = lower_stmts(b.stmts, cx, s)->Ok_0;
    lemma_stmts(b.stmts, cx, s);
    let st1 = typed_exec_all(b.stmts, st, fuel, w)->Some_0;
    match b.ret {
        None => run_stmts(b.stmts, cx, s, code, st, m, fuel, w, k),
        Some(e) => {
            lemma_expr(e, cx, s1);
            lemma_within(s1, lower_expr(e, cx, s1)->Ok_0.1, code);
            let m1 = run_stmts(b.stmts, cx, s, code, st, m, fuel, w, k);
            let m2 = run_expr(e, cx, s1, code, st1, m1, fuel, w, k);
            lemma_onward(code, m, m1, m2, k);
            lemma_keeps(m, m1, m2, s.insts.len(), s1.insts.len());
            m2
        },
    }
}

/// What the machine returns, if it is about to.
pub open spec fn returned(code: Program, m: Machine) -> Option<Option<Word>> {
    if m.at < code.insts.len() {
        match code.insts[m.at as int] {
            InstView::Return { value: None } => Some(None),
            InstView::Return { value: Some(x) } => match operand(x, m) {
                Some(v) => Some(Some(v)),
                None => None,
            },
            _ => None,
        }
    } else {
        None
    }
}

/// A machine at the start of a function.
pub open spec fn at_start(d: Seq<(Seq<char>, ToyStructView)>, args: Seq<Value>, memory: Seq<Value>, outside: int) -> Machine {
    Machine {
        at: 2,
        block: 0,
        came: 0,
        regs: Map::empty(),
        params: words(d, args),
        memory: words(d, memory),
        outside,
    }
}

/// The parameters of a function get places of their own.
proof fn run_params(
    ps: Seq<ToyParamView>,
    at: nat,
    types: Seq<LlvmTypeView>,
    symbol: Seq<char>,
    s: CodeView,
    code: Program,
    args: Seq<Value>,
    st: State,
    m: Machine,
    k: Linked,
) -> (m1: Machine)
    requires
        bind_params(ps, at, types, symbol, s) is Ok,
        within(bind_params(ps, at, types, symbol, s)->Ok_0, code),
        settled(s),
        agrees(code.structs, st, s, m),
        at + ps.len() == args.len(),
        forall|i: int|
            0 <= i < args.len() ==> operand(OperandView::Param(i as nat), m) == Some(
                word(code.structs, #[trigger] args[i]),
            ),
    ensures
        reaches(code, m, m1, k),
        agrees(code.structs, called(ps, args, at, st), bind_params(ps, at, types, symbol, s)->Ok_0, m1),
        settled(bind_params(ps, at, types, symbol, s)->Ok_0),
    decreases ps.len(),
{
    lemma_stays(code, m, k);
    if ps.len() == 0 {
        m
    } else {
        let ty = types[at as int];
        let v = args[at as int];
        let l = LoweredView::Value(OperandView::Param(at), ty);
        let o = Outcome::Value(v);
        let (ptr, s1) = to_ptr(l, ty, s);
        lemma_to_ptr(l, ty, s);
        let s2 = CodeView { vars: put(s1.vars, ps[0].name, SlotView { ptr, ty }), ..s1 };
        let (p, st1) = place_of(o, st);
        lemma_params(ps.drop_first(), at + 1, types, symbol, s2);
        lemma_within(s2, bind_params(ps, at, types, symbol, s)->Ok_0, code);
        assert(operand(OperandView::Param(at), m) == Some(word(code.structs, v)));
        let m1 = run_to_ptr(l, o, ty, s, code, st, m, k);
        lemma_placed_put(
            st1.vars,
            s1.vars,
            s1.insts.len(),
            m1,
            ps[0].name,
            p,
            SlotView { ptr, ty },
        );
        assert forall|i: int| 0 <= i < args.len() implies operand(OperandView::Param(i as nat), m1)
            == Some(word(code.structs, #[trigger] args[i])) by {
            assert(below(OperandView::Param(i as nat), s.insts.len()));
            assert(operand(OperandView::Param(i as nat), m1) == operand(
                OperandView::Param(i as nat),
                m,
            ));
        }
        let m2 = run_params(
            ps.drop_first(),
            at + 1,
            types,
            symbol,
            s2,
            code,
            args,
            bind(ps[0].name, o, st),
            m1,
            k,
        );
        lemma_onward(code, m, m1, m2, k);
        m2
    }
}

proof fn lemma_params(
    ps: Seq<ToyParamView>,
    at: nat,
    types: Seq<LlvmTypeView>,
    symbol: Seq<char>,
    s: CodeView,
)
    requires
        bind_params(ps, at, types, symbol, s) is Ok,
    ensures
        extends(s, bind_params(ps, at, types, symbol, s)->Ok_0),
    decreases ps.len(),
{
    lemma_extends_refl(s);
    if ps.len() > 0 {
        let ty = types[at as int];
        let l = LoweredView::Value(OperandView::Param(at), ty);
        let (ptr, s1) = to_ptr(l, ty, s);
        lemma_to_ptr(l, ty, s);
        let s2 = CodeView { vars: put(s1.vars, ps[0].name, SlotView { ptr, ty }), ..s1 };
        lemma_params(ps.drop_first(), at + 1, types, symbol, s2);
        lemma_extends(s, s2, bind_params(ps, at, types, symbol, s)->Ok_0);
    }
}

proof fn lemma_methods_only(ds: Seq<RustMethodDepView>, cx: LowerCx, s: CodeView)
    requires
        use_methods(ds, cx, s) is Ok,
    ensures
        use_methods(ds, cx, s)->Ok_0.insts == s.insts,
        use_methods(ds, cx, s)->Ok_0.vars == s.vars,
        use_methods(ds, cx, s)->Ok_0.block == s.block,
    decreases ds.len(),
{
    if ds.len() > 0 {
        let (_, s1) = use_method(ds[0], cx, s)->Ok_0;
        lemma_methods_only(ds.drop_first(), cx, s1);
    }
}

/// Calling a function whose body is plain does what the body means as it is
/// written: from its first block on, with the arguments in its parameters, the
/// machine comes to a return of the value that the body comes to in the state
/// in which each parameter names its argument, and leaves the memory as the
/// body does.
#[verifier::spinoff_prover]
#[verifier::rlimit(60)]
pub proof fn lemma_function_does(
    f: ToyFunctionView,
    symbol: Seq<char>,
    cx: LowerCx,
    md: ModuleView,
    args: Seq<Value>,
    memory: Seq<Value>,
    outside: int,
    fuel: nat,
    w: World,
    k: Linked,
)
    requires
        internal_function(f, symbol, cx, md) is Ok,
        f.body is Some,
        args.len() == f.params.len(),
        ({
            let b = type_fn_body(f, f.body->Some_0, typing_of(cx))->Ok_0;
            let after = internal_function(f, symbol, cx, md)->Ok_0;
            let code = Program {
                insts: after.functions.last().insts,
                decls: after.decls,
                structs: cx.registry.structs,
            };
            let begin = called(
                f.params,
                args,
                0,
                State { vars: Seq::empty(), memory, outside },
            );
            &&& plain_block(cx, b)
            &&& !internal_sret(block_type(b))
            &&& no_floats(code)
            &&& linked(code.structs, w, k, code.decls)
            &&& w.checked
            &&& typed_block(b, begin, fuel, w) matches Some((o, end)) && (o matches Some(x)
                ==> value_of(x, end) is Some)
        }),
    ensures
        ({
            let b = type_fn_body(f, f.body->Some_0, typing_of(cx))->Ok_0;
            let after = internal_function(f, symbol, cx, md)->Ok_0;
            let code = Program {
                insts: after.functions.last().insts,
                decls: after.decls,
                structs: cx.registry.structs,
            };
            let begin = called(
                f.params,
                args,
                0,
                State { vars: Seq::empty(), memory, outside },
            );
            let (o, end) = typed_block(b, begin, fuel, w)->Some_0;
            &&& eval_block(f.body->Some_0, begin, fuel, unchecked(w)) == Some((o, end))
            &&& exists|m1: Machine|
                {
                    &&& #[trigger] reaches(code, at_start(cx.registry.structs, args, memory, outside), m1, k)
                    &&& m1.memory == words(cx.registry.structs, end.memory)
                    &&& m1.outside == end.outside
                    &&& returned(code, m1) == Some(
                        if o is None || block_type(b) is Void {
                            None
                        } else {
                            Some(word(cx.registry.structs, value_of(o->Some_0, end)->Some_0))
                        },
                    )
                }
        }),
{
    let body = f.body->Some_0;
    let b = type_fn_body(f, body, typing_of(cx))->Ok_0;
    let after = internal_function(f, symbol, cx, md)->Ok_0;
    let code = Program {
                insts: after.functions.last().insts,
                decls: after.decls,
                structs: cx.registry.structs,
            };
    let st0 = State { vars: Seq::empty(), memory, outside };
    let begin = called(f.params, args, 0, st0);
    lemma_checked_block(b, begin, fuel, w);
    lemma_typing_keeps_body(f, body, typing_of(cx), begin, fuel, unchecked(w));
    let (o, end) = typed_block(b, begin, fuel, w)->Some_0;
    let s0 = start(md);
    let s1 = use_methods(rust_deps_in_block(b), cx, s0)->Ok_0;
    lemma_methods_only(rust_deps_in_block(b), cx, s0);
    let types = param_types(f.params, cx)->Ok_0;
    let ret = internal_return(block_type(b), cx)->Ok_0;
    let decls = declare(s1.decls, internal_decl(symbol, types, block_type(b), ret));
    let decl = find_decl(decls, symbol)->Some_0;
    let s1b = CodeView { decls, ..s1 };
    let s2 = bind_params(f.params, 0, decl.params, symbol, s1b)->Ok_0;
    let (result, s3) = lower_block(b, cx, s2)->Ok_0;
    let s4 = return_result(result, block_type(b), cx, s3)->Ok_0;
    assert(after.functions.last().insts == s4.insts);
    lemma_settled_start(md);
    assert(settled(s1b));
    lemma_params(f.params, 0, decl.params, symbol, s1b);
    lemma_block(b, cx, s2);
    assert(within(s4, code));
    let m0 = at_start(cx.registry.structs, args, memory, outside);
    assert(agrees(cx.registry.structs, st0, s1b, m0));
    assert forall|i: int| 0 <= i < args.len() implies operand(OperandView::Param(i as nat), m0)
        == Some(word(cx.registry.structs, #[trigger] args[i])) by {
        assert(words(cx.registry.structs, args)[i] == word(cx.registry.structs, args[i]));
    }
    if result is None || block_type(b) is Void {
        let inst = InstView::Return { value: None };
        lemma_inst(s3, inst, code);
        lemma_within(s2, s3, code);
        let m1 = run_params(
            f.params,
            0,
            decl.params,
            symbol,
            s1b,
            code,
            args,
            st0,
            m0,
            k,
        );
        let m2 = run_block(b, cx, s2, code, begin, m1, fuel, w, k);
        lemma_onward(code, m0, m1, m2, k);
        assert(returned(code, m2) == Some(None::<Word>));
    } else {
        let l = result->Some_0;
        let (x, _, s5) = to_value(l, s3);
        lemma_to_value(l, s3);
        lemma_inst(s5, InstView::Return { value: Some(x) }, code);
        lemma_within(s3, s5, code);
        lemma_within(s2, s3, code);
        let m1 = run_params(
            f.params,
            0,
            decl.params,
            symbol,
            s1b,
            code,
            args,
            st0,
            m0,
            k,
        );
        let m2 = run_block(b, cx, s2, code, begin, m1, fuel, w, k);
        lemma_onward(code, m0, m1, m2, k);
        let m3 = run_to_value(l, o->Some_0, s3, code, end, m2, k);
        lemma_onward(code, m0, m2, m3, k);
        assert(returned(code, m3) == Some(Some(word(cx.registry.structs, value_of(o->Some_0, end)->Some_0))));
    }
}

proof fn lemma_settled_start(md: ModuleView)
    ensures
        settled(start(md)),
{
    let s = start(md);
    assert forall|i: int| 0 <= i < s.insts.len() implies (
    #[trigger] s.insts[i] matches InstView::Enter { block } ==> block < s.insts.len()) by {
        if i == 0 {
            assert(s.insts[0] is Block);
        }
    }
}

} // verus!
