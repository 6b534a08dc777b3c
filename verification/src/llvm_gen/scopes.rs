//! What holds of variables between typing and lowering: a variable that a
//! typed body uses is there when the body is lowered.
use crate::llvm_gen::abi::{ask_abi, llvm_type, llvm_types, AbiParamView, CodeFactsView, LowerStopView};
use crate::llvm_gen::code::{declare, emit, enter, find_decl, next, to_ptr, to_value, CodeView, InstView, LoweredView, OperandView, SlotView};
use crate::llvm_gen::functions::{bind_params, block_type, internal_function, param_types, start, typing_of, ModuleView};
use crate::llvm_gen::lower::{
    abi_decl, field_place, internal_decl, internal_return, internal_sret, lower_arg, lower_args, lower_block, lower_expr, lower_fn_call,
    lower_if, lower_internal_call, lower_lit_fields, lower_method_call, lower_opt, lower_rust_fn_call, lower_static_call, lower_stmt,
    lower_stmts, lower_values, lower_while, receiver_ops, receiver_ptr, return_room, struct_behind, types_of, use_method, use_methods,
    LowerCx,
};
use crate::llvm_gen::types::LlvmTypeView;
use crate::names::{find, lemma_find_put, put};
use crate::toylang::answers::ask_trait;
use crate::toylang::ast::{BlockView, ExprView, StmtView};
use crate::toylang::callbacks_impl::{internal_symbol, RustDepView};
use crate::toylang::deps::{rust_deps_in_block, RustMethodDepView};
use crate::toylang::registry::{ToyFieldView, ToyFunctionView, ToyParamView};
use crate::toylang::type_resolve::{
    call_signature, field_index, if_expr, param_scope, return_type, rust_receiver, static_call, type_block, type_call_args, type_expr,
    type_exprs, type_fields, type_fn_body, type_stmt, type_stmts, ScopeView, TypeResolveErrorView, Typing,
};
use crate::oracle::{resolve, resolve_all};
use crate::toylang::typed_ast::{ResolvedTypeView, TypedBlockView, TypedExprKindView, TypedExprView, TypedStmtView};
use vstd::prelude::*;

verus! {

broadcast use vstd::seq::group_seq_axioms;

/// Some names.
pub type Names = Set<Seq<char>>;

/// The name that a statement binds for those behind it.
pub open spec fn binds(s: TypedStmtView) -> Names {
    match s {
        TypedStmtView::Let { name, expr } => Set::empty().insert(name),
        _ => Set::empty(),
    }
}

/// The names that some statements bind for those behind them.
pub open spec fn all_bind(ss: Seq<TypedStmtView>) -> Names
    decreases ss,
{
    if ss.len() == 0 {
        Set::empty()
    } else {
        binds(ss[0]).union(all_bind(ss.drop_first()))
    }
}

/// The names that a statement binds in the body of a loop.
pub open spec fn binds_in_loop(s: TypedStmtView) -> Names
    decreases s,
{
    match s {
        TypedStmtView::While { cond, body } => all_bind(body.stmts).union(
            all_bind_in_loops(body.stmts),
        ),
        _ => Set::empty(),
    }
}

/// The names that some statements bind in the bodies of loops.
pub open spec fn all_bind_in_loops(ss: Seq<TypedStmtView>) -> Names
    decreases ss,
{
    if ss.len() == 0 {
        Set::empty()
    } else {
        binds_in_loop(ss[0]).union(all_bind_in_loops(ss.drop_first()))
    }
}

/// Whether a name may be used where `bound` are bound, and `ended` were bound
/// in loops that have ended.
pub open spec fn may_use(name: Seq<char>, bound: Names, ended: Names) -> bool {
    bound.contains(name) || !ended.contains(name)
}

/// Whether an expression uses no variable of a loop that has ended.
pub open spec fn no_ended(e: TypedExprView, bound: Names, ended: Names) -> bool
    decreases e,
{
    match e.kind {
        TypedExprKindView::Var(name) => may_use(name, bound, ended),
        TypedExprKindView::StructLit { name, fields } => fields_no_ended(fields, bound, ended),
        TypedExprKindView::FnCall { name, type_args, args } => all_no_ended(args, bound, ended),
        TypedExprKindView::BinaryOp { op, left, right } => no_ended(*left, bound, ended)
            && no_ended(*right, bound, ended),
        TypedExprKindView::StaticCall { ty, method, type_args, args } => all_no_ended(
            args,
            bound,
            ended,
        ),
        TypedExprKindView::MethodCall { receiver, method, args } => no_ended(
            *receiver,
            bound,
            ended,
        ) && all_no_ended(args, bound, ended),
        TypedExprKindView::FieldAccess { receiver, field } => no_ended(*receiver, bound, ended),
        TypedExprKindView::If { cond, then_stmts, then_expr, else_stmts, else_expr } => {
            &&& no_ended(*cond, bound, ended)
            &&& stmts_no_ended(then_stmts, bound, ended)
            &&& then_expr matches Some(x) ==> no_ended(
                *x,
                bound.union(all_bind(then_stmts)),
                ended.union(all_bind_in_loops(then_stmts)),
            )
            &&& stmts_no_ended(else_stmts, bound, ended)
            &&& else_expr matches Some(x) ==> no_ended(
                *x,
                bound.union(all_bind(else_stmts)),
                ended.union(all_bind_in_loops(else_stmts)),
            )
        },
        TypedExprKindView::Ref(inner) => no_ended(*inner, bound, ended),
        _ => true,
    }
}

/// Whether some expressions use no variable of a loop that has ended.
pub open spec fn all_no_ended(es: Seq<TypedExprView>, bound: Names, ended: Names) -> bool
    decreases es,
{
    es.len() == 0 || no_ended(es[0], bound, ended) && all_no_ended(es.drop_first(), bound, ended)
}

/// Whether the fields of a literal use no variable of a loop that has ended.
pub open spec fn fields_no_ended(
    fs: Seq<(Seq<char>, TypedExprView)>,
    bound: Names,
    ended: Names,
) -> bool
    decreases fs,
{
    fs.len() == 0 || no_ended(fs[0].1, bound, ended) && fields_no_ended(
        fs.drop_first(),
        bound,
        ended,
    )
}

/// Whether a statement uses no variable of a loop that has ended.
pub open spec fn stmt_no_ended(s: TypedStmtView, bound: Names, ended: Names) -> bool
    decreases s,
{
    match s {
        TypedStmtView::Let { name, expr } => no_ended(expr, bound, ended),
        TypedStmtView::ExprStmt(expr) => no_ended(expr, bound, ended),
        TypedStmtView::While { cond, body } => no_ended(cond, bound, ended) && block_no_ended(
            body,
            bound,
            ended,
        ),
        TypedStmtView::Assign { name, expr } => may_use(name, bound, ended) && no_ended(
            expr,
            bound,
            ended,
        ),
    }
}

/// Whether some statements use no variable of a loop that has ended.
pub open spec fn stmts_no_ended(ss: Seq<TypedStmtView>, bound: Names, ended: Names) -> bool
    decreases ss,
{
    ss.len() == 0 || stmt_no_ended(ss[0], bound, ended) && stmts_no_ended(
        ss.drop_first(),
        bound.union(binds(ss[0])),
        ended.union(binds_in_loop(ss[0])),
    )
}

/// Whether a block uses no variable of a loop that has ended.
pub open spec fn block_no_ended(b: TypedBlockView, bound: Names, ended: Names) -> bool
    decreases b,
{
    &&& stmts_no_ended(b.stmts, bound, ended)
    &&& b.ret matches Some(e) ==> no_ended(
        e,
        bound.union(all_bind(b.stmts)),
        ended.union(all_bind_in_loops(b.stmts)),
    )
}

/// The names of some parameters.
pub open spec fn param_names(ps: Seq<ToyParamView>) -> Names
    decreases ps.len(),
{
    if ps.len() == 0 {
        Set::empty()
    } else {
        Set::empty().insert(ps[0].name).union(param_names(ps.drop_first()))
    }
}

/// Whether a function uses no variable of the body of a loop behind the loop.
/// Typing lets it do so.
pub open spec fn loops_end(f: ToyFunctionView, cx: LowerCx) -> bool {
    match f.body {
        None => true,
        Some(body) => match type_fn_body(f, body, typing_of(cx)) {
            Err(_) => true,
            Ok(b) => block_no_ended(b, param_names(f.params), Set::empty()),
        },
    }
}

/// Lowering finds every variable: one that is not bound is found out by
/// typing. The one exception is a variable of the body of a loop that is used
/// behind the loop.
pub proof fn lemma_variables_found(
    f: ToyFunctionView,
    symbol: Seq<char>,
    cx: LowerCx,
    m: ModuleView,
)
    requires
        loops_end(f, cx),
    ensures
        !(internal_function(f, symbol, cx, m) matches Err(
            LowerStopView::VariableNotInScope { name },
        )),
{
    if let Some(body) = f.body {
        if let Ok(b) = type_fn_body(f, body, typing_of(cx)) {
            let names = param_names(f.params);
            let tcx = typing_of(cx);
            let scope = param_scope(f.params, Seq::empty(), tcx)->Ok_0;
            assert(covered(Seq::<(Seq<char>, ResolvedTypeView)>::empty(), Set::empty(), Set::empty()));
            lemma_param_scope(f.params, Seq::empty(), Set::empty(), tcx);
            assert(Set::empty().union(names) =~= names);
            let ret = return_type(f, tcx)->Ok_0;
            lemma_typed_block(body, ret, scope, tcx, names, Set::empty());
            lemma_methods(rust_deps_in_block(b), cx, start(m));
            if let Ok(s1) = use_methods(rust_deps_in_block(b), cx, start(m)) {
                lemma_param_types(f.params, cx);
                lemma_type_stop(block_type(b), cx.facts);
                if let Ok(types) = param_types(f.params, cx) {
                    if let Ok(rt) = internal_return(block_type(b), cx) {
                        let decls = declare(s1.decls, internal_decl(symbol, types, block_type(b), rt));
                        if let Some(decl) = find_decl(decls, symbol) {
                            let at: nat = if internal_sret(block_type(b)) {
                                1
                            } else {
                                0
                            };
                            let s2 = CodeView { decls, ..s1 };
                            lemma_bound(f.params, at, decl.params, symbol, s2, Set::empty());
                            if let Ok(s3) = bind_params(f.params, at, decl.params, symbol, s2) {
                                lemma_block(b, cx, s3, names);
                            }
                        }
                    }
                }
            }
        }
    }
}

/// Whether every name of a scope is bound, or was bound in a loop that has
/// ended.
spec fn covered(scope: ScopeView, bound: Names, ended: Names) -> bool {
    forall|x: Seq<char>| #[trigger]
        find(scope, x) is Some ==> bound.contains(x) || ended.contains(x)
}

proof fn lemma_covered_put(
    scope: ScopeView,
    name: Seq<char>,
    ty: ResolvedTypeView,
    bound: Names,
    ended: Names,
)
    requires
        covered(scope, bound, ended),
    ensures
        covered(put(scope, name, ty), bound.union(Set::empty().insert(name)), ended),
{
    let out = put(scope, name, ty);
    assert forall|x: Seq<char>| #[trigger] find(out, x) is Some implies bound.union(
        Set::empty().insert(name),
    ).contains(x) || ended.contains(x) by {
        lemma_find_put(scope, name, ty, x);
        if x != name {
            assert(find(scope, x) is Some);
        }
    }
}

proof fn lemma_param_scope(ps: Seq<ToyParamView>, scope: ScopeView, bound: Names, cx: Typing)
    requires
        covered(scope, bound, Set::empty()),
        param_scope(ps, scope, cx) is Ok,
    ensures
        covered(param_scope(ps, scope, cx)->Ok_0, bound.union(param_names(ps)), Set::empty()),
    decreases ps.len(),
{
    if ps.len() == 0 {
        assert(bound.union(param_names(ps)) =~= bound);
    } else {
        let ty = resolve(ps[0].ty, cx.registry.structs)->Ok_0;
        let one = bound.union(Set::empty().insert(ps[0].name));
        lemma_covered_put(scope, ps[0].name, ty, bound, Set::empty());
        lemma_param_scope(ps.drop_first(), put(scope, ps[0].name, ty), one, cx);
        assert(one.union(param_names(ps.drop_first())) =~= bound.union(param_names(ps)));
    }
}

/// What typing has found, and uses no variable of a loop that has ended, uses
/// only what is bound.
#[verifier::spinoff_prover]
#[verifier::rlimit(60)]
proof fn lemma_typed_expr(
    e: ExprView,
    expected: ResolvedTypeView,
    scope: ScopeView,
    cx: Typing,
    bound: Names,
    ended: Names,
)
    requires
        type_expr(e, expected, scope, cx) is Ok,
        covered(scope, bound, ended),
        no_ended(type_expr(e, expected, scope, cx)->Ok_0, bound, ended),
    ensures
        no_ended(type_expr(e, expected, scope, cx)->Ok_0, bound, Set::full()),
    decreases e, 1int,
{
    let void = ResolvedTypeView::Void;
    match e {
        ExprView::Var(name) => {
            assert(find(scope, name) is Some);
        },
        ExprView::StructLit { name, type_args, fields } => {
            let ty = type_expr(e, expected, scope, cx)->Ok_0.ty;
            match ty {
                ResolvedTypeView::Struct { name: _, type_args: _, field_types } => {
                    let def = find(cx.registry.structs, name)->Some_0;
                    lemma_typed_fields(
                        fields,
                        name,
                        def.fields,
                        field_types,
                        scope,
                        cx,
                        bound,
                        ended,
                    );
                },
                _ => {},
            }
        },
        ExprView::FnCall { name, type_args, args } => {
            let sig = call_signature(name, type_args, cx)->Ok_0;
            lemma_typed_args(args, 0, name, sig.params, scope, cx, bound, ended);
        },
        ExprView::BinaryOp { op, left, right } => {
            lemma_typed_expr(*left, void, scope, cx, bound, ended);
            let l = type_expr(*left, void, scope, cx)->Ok_0;
            lemma_typed_expr(*right, l.ty, scope, cx, bound, ended);
        },
        ExprView::StaticCall { ty, method, type_args, args } => {
            let resolved = resolve_all(type_args, cx.registry.structs)->Ok_0;
            let typed = type_exprs(args, scope, cx)->Ok_0;
            assert(static_call(ty, method, type_args, resolved, typed, cx) is Ok);
            lemma_typed_exprs(args, scope, cx, bound, ended);
        },
        ExprView::FieldAccess { receiver, field } => {
            lemma_typed_expr(*receiver, void, scope, cx, bound, ended);
        },
        ExprView::MethodCall { receiver, method, args } => {
            lemma_typed_expr(*receiver, void, scope, cx, bound, ended);
            lemma_typed_exprs(args, scope, cx, bound, ended);
        },
        ExprView::UnaryNeg(inner) => {
            let r = type_expr(*inner, expected, scope, cx)->Ok_0;
            let zero = TypedExprView { kind: TypedExprKindView::IntLit(0), ty: r.ty };
            assert(no_ended(zero, bound, Set::full()));
            lemma_typed_expr(*inner, expected, scope, cx, bound, ended);
        },
        ExprView::Ref(inner) => {
            lemma_typed_expr(*inner, void, scope, cx, bound, ended);
        },
        ExprView::If { cond, then_body, else_body } => {
            lemma_typed_if(e, expected, scope, cx, bound, ended);
        },
        _ => {},
    }
}

proof fn lemma_typed_if(
    e: ExprView,
    expected: ResolvedTypeView,
    scope: ScopeView,
    cx: Typing,
    bound: Names,
    ended: Names,
)
    requires
        e is If,
        type_expr(e, expected, scope, cx) is Ok,
        covered(scope, bound, ended),
        no_ended(type_expr(e, expected, scope, cx)->Ok_0, bound, ended),
    ensures
        no_ended(type_expr(e, expected, scope, cx)->Ok_0, bound, Set::full()),
    decreases e, 0int,
{
    let void = ResolvedTypeView::Void;
    let full: Names = Set::full();
    if let ExprView::If { cond, then_body, else_body } = e {
        let c = type_expr(*cond, void, scope, cx)->Ok_0;
        let (then_block, _) = type_block(*then_body, void, scope, cx)->Ok_0;
        assert(full.union(all_bind_in_loops(then_block.stmts)) =~= full);
        match else_body {
            None => {
                let else_block = TypedBlockView { stmts: Seq::empty(), ret: None };
                lemma_if_parts(c, then_block, else_block, bound, ended);
                assert(block_no_ended(else_block, bound, full));
                lemma_typed_expr(*cond, void, scope, cx, bound, ended);
                lemma_typed_block(*then_body, void, scope, cx, bound, ended);
                lemma_if_whole(c, then_block, else_block, bound);
            },
            Some(b) => {
                let (else_block, _) = type_block(*b, void, scope, cx)->Ok_0;
                lemma_if_parts(c, then_block, else_block, bound, ended);
                lemma_typed_expr(*cond, void, scope, cx, bound, ended);
                lemma_typed_block(*then_body, void, scope, cx, bound, ended);
                lemma_typed_block(*b, void, scope, cx, bound, ended);
                lemma_if_whole(c, then_block, else_block, bound);
            },
        }
    }
}

proof fn lemma_if_parts(
    cond: TypedExprView,
    then_block: TypedBlockView,
    else_block: TypedBlockView,
    bound: Names,
    ended: Names,
)
    requires
        if_expr(cond, then_block, else_block) is Ok,
        no_ended(if_expr(cond, then_block, else_block)->Ok_0, bound, ended),
    ensures
        no_ended(cond, bound, ended),
        block_no_ended(then_block, bound, ended),
        block_no_ended(else_block, bound, ended),
{
}

proof fn lemma_if_whole(
    cond: TypedExprView,
    then_block: TypedBlockView,
    else_block: TypedBlockView,
    bound: Names,
)
    requires
        if_expr(cond, then_block, else_block) is Ok,
        no_ended(cond, bound, Set::full()),
        block_no_ended(then_block, bound, Set::full()),
        block_no_ended(else_block, bound, Set::full()),
    ensures
        no_ended(if_expr(cond, then_block, else_block)->Ok_0, bound, Set::full()),
{
}

proof fn lemma_typed_exprs(
    es: Seq<ExprView>,
    scope: ScopeView,
    cx: Typing,
    bound: Names,
    ended: Names,
)
    requires
        type_exprs(es, scope, cx) is Ok,
        covered(scope, bound, ended),
        all_no_ended(type_exprs(es, scope, cx)->Ok_0, bound, ended),
    ensures
        all_no_ended(type_exprs(es, scope, cx)->Ok_0, bound, Set::full()),
    decreases es, 0int,
{
    if es.len() > 0 {
        let first = type_expr(es[0], ResolvedTypeView::Void, scope, cx)->Ok_0;
        let rest = type_exprs(es.drop_first(), scope, cx)->Ok_0;
        assert((seq![first] + rest).drop_first() =~= rest);
        lemma_typed_expr(es[0], ResolvedTypeView::Void, scope, cx, bound, ended);
        lemma_typed_exprs(es.drop_first(), scope, cx, bound, ended);
    }
}

proof fn lemma_typed_args(
    args: Seq<ExprView>,
    i: nat,
    func_name: Seq<char>,
    params: Seq<Result<ResolvedTypeView, TypeResolveErrorView>>,
    scope: ScopeView,
    cx: Typing,
    bound: Names,
    ended: Names,
)
    requires
        type_call_args(args, i, func_name, params, scope, cx) is Ok,
        covered(scope, bound, ended),
        all_no_ended(type_call_args(args, i, func_name, params, scope, cx)->Ok_0, bound, ended),
    ensures
        all_no_ended(
            type_call_args(args, i, func_name, params, scope, cx)->Ok_0,
            bound,
            Set::full(),
        ),
    decreases args, 0int,
{
    if args.len() > 0 {
        let want: ResolvedTypeView = if i < params.len() {
            params[i as int]->Ok_0
        } else {
            ResolvedTypeView::Void
        };
        let first = type_expr(args[0], want, scope, cx)->Ok_0;
        let rest = type_call_args(args.drop_first(), i + 1, func_name, params, scope, cx)->Ok_0;
        assert((seq![first] + rest).drop_first() =~= rest);
        lemma_typed_expr(args[0], want, scope, cx, bound, ended);
        lemma_typed_args(
            args.drop_first(),
            i + 1,
            func_name,
            params,
            scope,
            cx,
            bound,
            ended,
        );
    }
}

proof fn lemma_typed_fields(
    fields: Seq<(Seq<char>, ExprView)>,
    name: Seq<char>,
    def: Seq<ToyFieldView>,
    field_types: Seq<ResolvedTypeView>,
    scope: ScopeView,
    cx: Typing,
    bound: Names,
    ended: Names,
)
    requires
        type_fields(fields, name, def, field_types, scope, cx) is Ok,
        covered(scope, bound, ended),
        fields_no_ended(
            type_fields(fields, name, def, field_types, scope, cx)->Ok_0,
            bound,
            ended,
        ),
    ensures
        fields_no_ended(
            type_fields(fields, name, def, field_types, scope, cx)->Ok_0,
            bound,
            Set::full(),
        ),
    decreases fields, 0int,
{
    if fields.len() > 0 {
        let k = field_index(def, fields[0].0)->Some_0;
        let first = type_expr(fields[0].1, field_types[k as int], scope, cx)->Ok_0;
        let rest = type_fields(fields.drop_first(), name, def, field_types, scope, cx)->Ok_0;
        assert((seq![(fields[0].0, first)] + rest).drop_first() =~= rest);
        lemma_typed_expr(fields[0].1, field_types[k as int], scope, cx, bound, ended);
        lemma_typed_fields(
            fields.drop_first(),
            name,
            def,
            field_types,
            scope,
            cx,
            bound,
            ended,
        );
    }
}

proof fn lemma_typed_stmt(
    s: StmtView,
    scope: ScopeView,
    cx: Typing,
    bound: Names,
    ended: Names,
)
    requires
        type_stmt(s, scope, cx) is Ok,
        covered(scope, bound, ended),
        stmt_no_ended(type_stmt(s, scope, cx)->Ok_0.0, bound, ended),
    ensures
        stmt_no_ended(type_stmt(s, scope, cx)->Ok_0.0, bound, Set::full()),
        covered(
            type_stmt(s, scope, cx)->Ok_0.1,
            bound.union(binds(type_stmt(s, scope, cx)->Ok_0.0)),
            ended.union(binds_in_loop(type_stmt(s, scope, cx)->Ok_0.0)),
        ),
    decreases s, 0int,
{
    let void = ResolvedTypeView::Void;
    let none: Names = Set::empty();
    assert(bound.union(none) =~= bound);
    assert(ended.union(none) =~= ended);
    match s {
        StmtView::Let { name, expr } => {
            lemma_typed_expr(expr, void, scope, cx, bound, ended);
            let t = type_expr(expr, void, scope, cx)->Ok_0;
            lemma_covered_put(scope, name, t.ty, bound, ended);
        },
        StmtView::ExprStmt(expr) => {
            lemma_typed_expr(expr, void, scope, cx, bound, ended);
        },
        StmtView::While { cond, body } => {
            lemma_typed_expr(cond, void, scope, cx, bound, ended);
            lemma_typed_block(*body, void, scope, cx, bound, ended);
            let (b, after) = type_block(*body, void, scope, cx)->Ok_0;
            let inner = bound.union(all_bind(b.stmts));
            let left = ended.union(all_bind_in_loops(b.stmts));
            let (typed, _) = type_stmt(s, scope, cx)->Ok_0;
            assert forall|x: Seq<char>| #[trigger] find(after, x) is Some implies bound.contains(x)
                || ended.union(binds_in_loop(typed)).contains(x) by {
                assert(inner.contains(x) || left.contains(x));
            }
        },
        StmtView::Assign { name, expr } => {
            assert(find(scope, name) is Some);
            let ty = find(scope, name)->Some_0;
            lemma_typed_expr(expr, ty, scope, cx, bound, ended);
        },
    }
}

proof fn lemma_typed_stmts(
    ss: Seq<StmtView>,
    scope: ScopeView,
    cx: Typing,
    bound: Names,
    ended: Names,
)
    requires
        type_stmts(ss, scope, cx) is Ok,
        covered(scope, bound, ended),
        stmts_no_ended(type_stmts(ss, scope, cx)->Ok_0.0, bound, ended),
    ensures
        stmts_no_ended(type_stmts(ss, scope, cx)->Ok_0.0, bound, Set::full()),
        covered(
            type_stmts(ss, scope, cx)->Ok_0.1,
            bound.union(all_bind(type_stmts(ss, scope, cx)->Ok_0.0)),
            ended.union(all_bind_in_loops(type_stmts(ss, scope, cx)->Ok_0.0)),
        ),
    decreases ss, 0int,
{
    let (typed, last) = type_stmts(ss, scope, cx)->Ok_0;
    if ss.len() == 0 {
        assert(bound.union(all_bind(typed)) =~= bound);
        assert(ended.union(all_bind_in_loops(typed)) =~= ended);
    } else {
        let (first, next) = type_stmt(ss[0], scope, cx)->Ok_0;
        let (rest, _) = type_stmts(ss.drop_first(), next, cx)->Ok_0;
        assert(typed.drop_first() =~= rest);
        assert(typed[0] == first);
        lemma_typed_stmt(ss[0], scope, cx, bound, ended);
        let b1 = bound.union(binds(first));
        let e1 = ended.union(binds_in_loop(first));
        lemma_typed_stmts(ss.drop_first(), next, cx, b1, e1);
        let full: Names = Set::full();
        assert(full.union(binds_in_loop(first)) =~= full);
        assert(b1.union(all_bind(rest)) =~= bound.union(all_bind(typed)));
        assert(e1.union(all_bind_in_loops(rest)) =~= ended.union(all_bind_in_loops(typed)));
    }
}

proof fn lemma_typed_block(
    b: BlockView,
    expected: ResolvedTypeView,
    scope: ScopeView,
    cx: Typing,
    bound: Names,
    ended: Names,
)
    requires
        type_block(b, expected, scope, cx) is Ok,
        covered(scope, bound, ended),
        block_no_ended(type_block(b, expected, scope, cx)->Ok_0.0, bound, ended),
    ensures
        block_no_ended(type_block(b, expected, scope, cx)->Ok_0.0, bound, Set::full()),
        covered(
            type_block(b, expected, scope, cx)->Ok_0.1,
            bound.union(all_bind(type_block(b, expected, scope, cx)->Ok_0.0.stmts)),
            ended.union(all_bind_in_loops(type_block(b, expected, scope, cx)->Ok_0.0.stmts)),
        ),
    decreases b, 0int,
{
    lemma_typed_stmts(b.stmts, scope, cx, bound, ended);
    let (stmts, after) = type_stmts(b.stmts, scope, cx)->Ok_0;
    let full: Names = Set::full();
    assert(full.union(all_bind_in_loops(stmts)) =~= full);
    match b.ret {
        None => {},
        Some(e) => {
            lemma_typed_expr(
                e,
                expected,
                after,
                cx,
                bound.union(all_bind(stmts)),
                ended.union(all_bind_in_loops(stmts)),
            );
        },
    }
}

/// Whether all names have a place.
spec fn holds(bound: Names, vars: Seq<(Seq<char>, SlotView)>) -> bool {
    forall|x: Seq<char>| #[trigger] bound.contains(x) ==> find(vars, x) is Some
}

/// Whether it is not for a variable that lowering stopped.
spec fn other_stop(e: LowerStopView) -> bool {
    !(e is VariableNotInScope)
}

/// Whether lowering left the variables as they were, or stopped for something
/// else.
spec fn fine<T>(r: Result<(T, CodeView), LowerStopView>, s: CodeView) -> bool {
    match r {
        Ok((_, s1)) => s1.vars == s.vars,
        Err(e) => other_stop(e),
    }
}

proof fn lemma_holds_put(
    bound: Names,
    vars: Seq<(Seq<char>, SlotView)>,
    name: Seq<char>,
    slot: SlotView,
)
    requires
        holds(bound, vars),
    ensures
        holds(bound.union(Set::empty().insert(name)), put(vars, name, slot)),
{
    let more = bound.union(Set::empty().insert(name));
    assert forall|x: Seq<char>| #[trigger] more.contains(x) implies find(
        put(vars, name, slot),
        x,
    ) is Some by {
        lemma_find_put(vars, name, slot, x);
        if x != name {
            assert(bound.contains(x));
        }
    }
}

proof fn lemma_type_stop(t: ResolvedTypeView, facts: CodeFactsView)
    ensures
        llvm_type(t, facts) matches Err(e) ==> other_stop(e),
    decreases t,
{
    match t {
        ResolvedTypeView::Struct { name, type_args, field_types } => {
            lemma_types_stop(field_types, facts);
        },
        _ => {},
    }
}

proof fn lemma_types_stop(ts: Seq<ResolvedTypeView>, facts: CodeFactsView)
    ensures
        llvm_types(ts, facts) matches Err(e) ==> other_stop(e),
    decreases ts,
{
    if ts.len() > 0 {
        lemma_type_stop(ts[0], facts);
        lemma_types_stop(ts.drop_first(), facts);
    }
}

proof fn lemma_param_types(ps: Seq<ToyParamView>, cx: LowerCx)
    ensures
        param_types(ps, cx) matches Err(e) ==> other_stop(e),
    decreases ps.len(),
{
    if ps.len() > 0 {
        if let Ok(ty) = resolve(ps[0].ty, cx.registry.structs) {
            lemma_type_stop(ty, cx.facts);
        }
        lemma_param_types(ps.drop_first(), cx);
    }
}

proof fn lemma_methods(ds: Seq<RustMethodDepView>, cx: LowerCx, s: CodeView)
    ensures
        match use_methods(ds, cx, s) {
            Ok(s1) => s1.vars == s.vars,
            Err(e) => other_stop(e),
        },
    decreases ds.len(),
{
    if ds.len() > 0 {
        if let Ok((_, s1)) = use_method(ds[0], cx, s) {
            lemma_methods(ds.drop_first(), cx, s1);
        }
    }
}

proof fn lemma_bound(
    ps: Seq<ToyParamView>,
    at: nat,
    types: Seq<LlvmTypeView>,
    symbol: Seq<char>,
    s: CodeView,
    bound: Names,
)
    requires
        holds(bound, s.vars),
    ensures
        match bind_params(ps, at, types, symbol, s) {
            Ok(s1) => holds(bound.union(param_names(ps)), s1.vars),
            Err(e) => other_stop(e),
        },
    decreases ps.len(),
{
    if ps.len() == 0 {
        assert(bound.union(param_names(ps)) =~= bound);
    } else if at < types.len() {
        let ty = types[at as int];
        let slot = SlotView { ptr: next(s), ty };
        let s1 = emit(
            emit(s, InstView::Alloca { ty, align: None }),
            InstView::Store { ptr: next(s), value: OperandView::Param(at) },
        );
        lemma_holds_put(bound, s.vars, ps[0].name, slot);
        let one = bound.union(Set::empty().insert(ps[0].name));
        lemma_bound(
            ps.drop_first(),
            at + 1,
            types,
            symbol,
            CodeView { vars: put(s1.vars, ps[0].name, slot), ..s1 },
            one,
        );
        assert(one.union(param_names(ps.drop_first())) =~= bound.union(param_names(ps)));
    }
}

/// What uses only what is bound is lowered without a search in vain.
proof fn lemma_expr(e: TypedExprView, cx: LowerCx, s: CodeView, bound: Names)
    requires
        no_ended(e, bound, Set::full()),
        holds(bound, s.vars),
    ensures
        fine(lower_expr(e, cx, s), s),
    decreases e, 2int,
{
    lemma_type_stop(e.ty, cx.facts);
    match e.kind {
        TypedExprKindView::Var(name) => {
            assert(bound.contains(name));
        },
        TypedExprKindView::BinaryOp { op, left, right } => {
            lemma_expr(*left, cx, s, bound);
            if let Ok((l, s1)) = lower_expr(*left, cx, s) {
                let (_, _, s2) = to_value(l, s1);
                lemma_expr(*right, cx, s2, bound);
            }
        },
        TypedExprKindView::StructLit { name, fields } => {
            if let ResolvedTypeView::Struct { name: _, type_args: _, field_types } = e.ty {
                lemma_types_stop(field_types, cx.facts);
                if let Ok(types) = llvm_types(field_types, cx.facts) {
                    if let Some(def) = find(cx.registry.structs, name) {
                        let st = LlvmTypeView::Struct { fields: types };
                        lemma_lit_fields(
                            fields,
                            name,
                            def.fields,
                            types,
                            next(s),
                            cx,
                            emit(s, InstView::Alloca { ty: st, align: None }),
                            bound,
                        );
                    }
                }
            }
        },
        TypedExprKindView::FnCall { name, type_args, args } => {
            lemma_fn_call(e.kind, e.ty, cx, s, bound);
        },
        TypedExprKindView::StaticCall { ty, method, type_args, args } => {
            lemma_static_call(e.kind, e.ty, cx, s, bound);
        },
        TypedExprKindView::MethodCall { receiver, method, args } => {
            lemma_expr(*receiver, cx, s, bound);
            lemma_method_call(e.kind, e.ty, cx, s, bound);
        },
        TypedExprKindView::FieldAccess { receiver, field } => {
            lemma_expr(*receiver, cx, s, bound);
            if let Ok((l, s1)) = lower_expr(*receiver, cx, s) {
                lemma_field_place(l, receiver.ty, field, cx, s1);
            }
        },
        TypedExprKindView::If { cond, then_stmts, then_expr, else_stmts, else_expr } => {
            let full: Names = Set::full();
            assert(full.union(all_bind_in_loops(then_stmts)) =~= full);
            assert(full.union(all_bind_in_loops(else_stmts)) =~= full);
            lemma_if(e.kind, cx, s, bound);
        },
        TypedExprKindView::Ref(inner) => {
            reveal_with_fuel(no_ended, 2);
            lemma_type_stop(inner.ty, cx.facts);
            lemma_expr(*inner, cx, s, bound);
            if let TypedExprKindView::FieldAccess { receiver, field } = inner.kind {
                lemma_expr(*receiver, cx, s, bound);
                if let Ok((l, s1)) = lower_expr(*receiver, cx, s) {
                    lemma_field_place(l, receiver.ty, field, cx, s1);
                }
            }
        },
        _ => {},
    }
}

proof fn lemma_field_place(
    l: LoweredView,
    ty: ResolvedTypeView,
    field: Seq<char>,
    cx: LowerCx,
    s: CodeView,
)
    ensures
        fine(field_place(l, ty, field, cx, s), s),
{
    if let Some((name, field_types, _)) = struct_behind(ty) {
        lemma_types_stop(field_types, cx.facts);
    }
}

proof fn lemma_lit_fields(
    fields: Seq<(Seq<char>, TypedExprView)>,
    name: Seq<char>,
    defs: Seq<ToyFieldView>,
    types: Seq<LlvmTypeView>,
    base: OperandView,
    cx: LowerCx,
    s: CodeView,
    bound: Names,
)
    requires
        fields_no_ended(fields, bound, Set::full()),
        holds(bound, s.vars),
    ensures
        match lower_lit_fields(fields, name, defs, types, base, cx, s) {
            Ok(s1) => s1.vars == s.vars,
            Err(e) => other_stop(e),
        },
    decreases fields, 0int,
{
    if fields.len() > 0 {
        let (field, e) = fields[0];
        lemma_type_stop(e.ty, cx.facts);
        if let Some(i) = field_index(defs, field) {
            let s1 = emit(
                s,
                InstView::FieldPtr {
                    ty: LlvmTypeView::Struct { fields: types },
                    ptr: base,
                    field: i,
                },
            );
            lemma_expr(e, cx, s1, bound);
            if let Ok((l, s2)) = lower_expr(e, cx, s1) {
                if let Ok(t) = llvm_type(e.ty, cx.facts) {
                    let s4 = if e.ty is Struct || e.ty is RustType {
                        let (source, s3) = to_ptr(l, t, s2);
                        emit(
                            s3,
                            InstView::Copy {
                                dest: next(s),
                                source,
                                align: 8,
                                extent: crate::llvm_gen::code::ExtentView::SizeOf(t),
                            },
                        )
                    } else {
                        let (value, _, s3) = to_value(l, s2);
                        emit(s3, InstView::Store { ptr: next(s), value })
                    };
                    lemma_lit_fields(fields.drop_first(), name, defs, types, base, cx, s4, bound);
                }
            }
        }
    }
}

proof fn lemma_arg(e: TypedExprView, p: AbiParamView, cx: LowerCx, s: CodeView, bound: Names)
    requires
        no_ended(e, bound, Set::full()),
        holds(bound, s.vars),
    ensures
        fine(lower_arg(e, p, cx, s), s),
    decreases e, 3int,
{
    lemma_expr(e, cx, s, bound);
    lemma_type_stop(e.ty, cx.facts);
}

proof fn lemma_args(
    args: Seq<TypedExprView>,
    params: Seq<AbiParamView>,
    symbol: Seq<char>,
    cx: LowerCx,
    s: CodeView,
    bound: Names,
)
    requires
        all_no_ended(args, bound, Set::full()),
        holds(bound, s.vars),
    ensures
        fine(lower_args(args, params, symbol, cx, s), s),
    decreases args, 0int,
{
    if args.len() > 0 && params.len() > 0 {
        lemma_arg(args[0], params[0], cx, s, bound);
        if let Ok((first, s1)) = lower_arg(args[0], params[0], cx, s) {
            lemma_args(args.drop_first(), params.drop_first(), symbol, cx, s1, bound);
        }
    }
}

proof fn lemma_values(args: Seq<TypedExprView>, cx: LowerCx, s: CodeView, bound: Names)
    requires
        all_no_ended(args, bound, Set::full()),
        holds(bound, s.vars),
    ensures
        fine(lower_values(args, cx, s), s),
    decreases args, 0int,
{
    if args.len() > 0 {
        lemma_expr(args[0], cx, s, bound);
        if let Ok((l, s1)) = lower_expr(args[0], cx, s) {
            let (_, _, s2) = to_value(l, s1);
            lemma_values(args.drop_first(), cx, s2, bound);
        }
    }
}

proof fn lemma_fn_call(
    k: TypedExprKindView,
    ty: ResolvedTypeView,
    cx: LowerCx,
    s: CodeView,
    bound: Names,
)
    requires
        k is FnCall,
        all_no_ended(k->FnCall_args, bound, Set::full()),
        holds(bound, s.vars),
    ensures
        fine(lower_fn_call(k, ty, cx, s), s),
    decreases k, 1int,
{
    if let TypedExprKindView::FnCall { name, type_args, args } = k {
        match find(cx.registry.functions, name) {
            None => {
                lemma_rust_fn_call(
                    k,
                    RustDepView::FreeFn { name, type_args },
                    ty,
                    cx,
                    s,
                    bound,
                );
            },
            Some(f) => if f.body is None {
                lemma_rust_fn_call(k, RustDepView::Declared { name }, ty, cx, s, bound);
            } else {
                lemma_internal_call(k, ty, cx, s, bound);
            },
        }
    }
}

proof fn lemma_rust_fn_call(
    k: TypedExprKindView,
    dep: RustDepView,
    ty: ResolvedTypeView,
    cx: LowerCx,
    s: CodeView,
    bound: Names,
)
    requires
        k is FnCall,
        all_no_ended(k->FnCall_args, bound, Set::full()),
        holds(bound, s.vars),
    ensures
        fine(lower_rust_fn_call(k, dep, ty, cx, s), s),
    decreases k, 0int,
{
    lemma_type_stop(ty, cx.facts);
    if let TypedExprKindView::FnCall { name, type_args, args } = k {
        if let Ok(abi) = ask_abi(cx.facts, dep) {
            let s1 = CodeView {
                decls: declare(s.decls, abi_decl(abi)),
                rust_symbols: s.rust_symbols.push(abi.symbol),
                ..s
            };
            if let Ok((room, s2)) = return_room(abi.ret, ty, cx, s1) {
                lemma_args(args, abi.params, abi.symbol, cx, s2, bound);
            }
        }
    }
}

proof fn lemma_internal_call(
    k: TypedExprKindView,
    ty: ResolvedTypeView,
    cx: LowerCx,
    s: CodeView,
    bound: Names,
)
    requires
        k is FnCall,
        all_no_ended(k->FnCall_args, bound, Set::full()),
        holds(bound, s.vars),
    ensures
        fine(lower_internal_call(k, ty, cx, s), s),
    decreases k, 0int,
{
    lemma_type_stop(ty, cx.facts);
    if let TypedExprKindView::FnCall { name, type_args, args } = k {
        let symbol = internal_symbol(name, type_args);
        lemma_types_stop(types_of(args), cx.facts);
        if let Ok(arg_types) = llvm_types(types_of(args), cx.facts) {
            if let Ok(ret) = internal_return(ty, cx) {
                let s1 = CodeView {
                    decls: declare(s.decls, internal_decl(symbol, arg_types, ty, ret)),
                    ..s
                };
                if internal_sret(ty) {
                    if let Ok(t) = llvm_type(ty, cx.facts) {
                        lemma_values(
                            args,
                            cx,
                            emit(s1, InstView::Alloca { ty: t, align: None }),
                            bound,
                        );
                    }
                } else {
                    lemma_values(args, cx, s1, bound);
                }
            }
        }
    }
}

proof fn lemma_receiver_ops(
    recv: TypedExprView,
    ptr: OperandView,
    ptr_ty: LlvmTypeView,
    params: Seq<AbiParamView>,
    symbol: Seq<char>,
    cx: LowerCx,
    s: CodeView,
    bound: Names,
)
    requires
        no_ended(recv, bound, Set::full()),
        holds(bound, s.vars),
    ensures
        fine(receiver_ops(recv, ptr, ptr_ty, params, symbol, cx, s), s),
    decreases recv, 4int,
{
    if params.len() > 0 && params[0] is Pair {
        lemma_arg(recv, params[0], cx, s, bound);
    }
}

proof fn lemma_static_call(
    k: TypedExprKindView,
    ty: ResolvedTypeView,
    cx: LowerCx,
    s: CodeView,
    bound: Names,
)
    requires
        k is StaticCall,
        all_no_ended(k->StaticCall_args, bound, Set::full()),
        holds(bound, s.vars),
    ensures
        fine(lower_static_call(k, ty, cx, s), s),
    decreases k, 0int,
{
    if let TypedExprKindView::StaticCall { ty: owner, method, type_args, args } = k {
        let d = RustMethodDepView {
            owner,
            method_name: method,
            type_args,
            receiver_ty: if args.len() == 0 {
                None
            } else {
                Some(args[0].ty)
            },
        };
        if let Ok((abi, s1)) = use_method(d, cx, s) {
            assert(s1.vars == s.vars);
            if args.len() > 0 && ask_trait(cx.answers, owner) == Ok::<bool, TypeResolveErrorView>(
                true,
            ) {
                let recv = args[0];
                lemma_expr(recv, cx, s1, bound);
                if let Ok((l, s2)) = lower_expr(recv, cx, s1) {
                    if let Ok((ptr, ptr_ty, s3)) = receiver_ptr(l, recv.ty, s2) {
                        if let Ok((room, s4)) = return_room(abi.ret, ty, cx, s3) {
                            lemma_receiver_ops(
                                recv,
                                ptr,
                                ptr_ty,
                                abi.params,
                                abi.symbol,
                                cx,
                                s4,
                                bound,
                            );
                            if let Ok((first, s5)) = receiver_ops(
                                recv,
                                ptr,
                                ptr_ty,
                                abi.params,
                                abi.symbol,
                                cx,
                                s4,
                            ) {
                                lemma_args(
                                    args.drop_first(),
                                    abi.params.drop_first(),
                                    abi.symbol,
                                    cx,
                                    s5,
                                    bound,
                                );
                            }
                        }
                    }
                }
            } else {
                if let Ok((room, s2)) = return_room(abi.ret, ty, cx, s1) {
                    lemma_args(args, abi.params, abi.symbol, cx, s2, bound);
                }
            }
        }
    }
}

proof fn lemma_method_call(
    k: TypedExprKindView,
    ty: ResolvedTypeView,
    cx: LowerCx,
    s: CodeView,
    bound: Names,
)
    requires
        k is MethodCall,
        no_ended(*k->MethodCall_receiver, bound, Set::full()),
        all_no_ended(k->MethodCall_args, bound, Set::full()),
        holds(bound, s.vars),
    ensures
        fine(lower_method_call(k, ty, cx, s), s),
    decreases k, 0int,
{
    if let TypedExprKindView::MethodCall { receiver, method, args } = k {
        lemma_expr(*receiver, cx, s, bound);
        if let Ok((l, s1)) = lower_expr(*receiver, cx, s) {
            if let Ok((ptr, ptr_ty, s2)) = receiver_ptr(l, receiver.ty, s1) {
                if let Some((owner, type_args)) = rust_receiver(receiver.ty) {
                    let d = RustMethodDepView {
                        owner,
                        method_name: method,
                        type_args,
                        receiver_ty: None,
                    };
                    if let Ok((abi, s3)) = use_method(d, cx, s2) {
                        if let Ok((room, s4)) = return_room(abi.ret, ty, cx, s3) {
                            lemma_receiver_ops(
                                *receiver,
                                ptr,
                                ptr_ty,
                                abi.params,
                                abi.symbol,
                                cx,
                                s4,
                                bound,
                            );
                            if let Ok((first, s5)) = receiver_ops(
                                *receiver,
                                ptr,
                                ptr_ty,
                                abi.params,
                                abi.symbol,
                                cx,
                                s4,
                            ) {
                                lemma_args(
                                    args,
                                    abi.params.drop_first(),
                                    abi.symbol,
                                    cx,
                                    s5,
                                    bound,
                                );
                            }
                        }
                    }
                }
            }
        }
    }
}

proof fn lemma_opt(e: Option<Box<TypedExprView>>, cx: LowerCx, s: CodeView, bound: Names)
    requires
        e matches Some(x) ==> no_ended(*x, bound, Set::full()),
        holds(bound, s.vars),
    ensures
        fine(lower_opt(e, cx, s), s),
    decreases e, 0int,
{
    if let Some(x) = e {
        lemma_expr(*x, cx, s, bound);
    }
}

proof fn lemma_if(k: TypedExprKindView, cx: LowerCx, s: CodeView, bound: Names)
    requires
        k is If,
        no_ended(*k->If_cond, bound, Set::full()),
        stmts_no_ended(k->If_then_stmts, bound, Set::full()),
        k->If_then_expr matches Some(x) ==> no_ended(
            *x,
            bound.union(all_bind(k->If_then_stmts)),
            Set::full(),
        ),
        stmts_no_ended(k->If_else_stmts, bound, Set::full()),
        k->If_else_expr matches Some(x) ==> no_ended(
            *x,
            bound.union(all_bind(k->If_else_stmts)),
            Set::full(),
        ),
        holds(bound, s.vars),
    ensures
        fine(lower_if(k, cx, s), s),
    decreases k, 0int,
{
    if let TypedExprKindView::If { cond, then_stmts, then_expr, else_stmts, else_expr } = k {
        lemma_expr(*cond, cx, s, bound);
        if let Ok((c, s1)) = lower_expr(*cond, cx, s) {
            let (cond_value, cond_ty, s2) = to_value(c, s1);
            let then_block = s2.insts.len();
            let else_block = then_block + 1;
            let merge_block = then_block + 2;
            let s3 = emit(emit(emit(s2, InstView::Block), InstView::Block), InstView::Block);
            let s4 = emit(
                s3,
                InstView::Branch {
                    cond: cond_value,
                    then_block,
                    else_block: if else_stmts.len() == 0 && else_expr is None {
                        merge_block
                    } else {
                        else_block
                    },
                },
            );
            lemma_stmts(then_stmts, cx, enter(s4, then_block), bound);
            if let Ok(s5) = lower_stmts(then_stmts, cx, enter(s4, then_block)) {
                lemma_opt(then_expr, cx, s5, bound.union(all_bind(then_stmts)));
                if let Ok((then_value, s6)) = lower_opt(then_expr, cx, s5) {
                    let s7 = CodeView {
                        vars: s2.vars,
                        ..enter(emit(s6, InstView::Jump { block: merge_block }), else_block)
                    };
                    lemma_stmts(else_stmts, cx, s7, bound);
                    if let Ok(s8) = lower_stmts(else_stmts, cx, s7) {
                        lemma_opt(else_expr, cx, s8, bound.union(all_bind(else_stmts)));
                    }
                }
            }
        }
    }
}

proof fn lemma_stmts(stmts: Seq<TypedStmtView>, cx: LowerCx, s: CodeView, bound: Names)
    requires
        stmts_no_ended(stmts, bound, Set::full()),
        holds(bound, s.vars),
    ensures
        match lower_stmts(stmts, cx, s) {
            Ok(s1) => holds(bound.union(all_bind(stmts)), s1.vars),
            Err(e) => other_stop(e),
        },
    decreases stmts, 0int,
{
    if stmts.len() == 0 {
        assert(bound.union(all_bind(stmts)) =~= bound);
    } else {
        lemma_stmt(stmts[0], cx, s, bound);
        if let Ok(s1) = lower_stmt(stmts[0], cx, s) {
            let more = bound.union(binds(stmts[0]));
            let full: Names = Set::full();
            assert(full.union(binds_in_loop(stmts[0])) =~= full);
            lemma_stmts(stmts.drop_first(), cx, s1, more);
            assert(more.union(all_bind(stmts.drop_first())) =~= bound.union(all_bind(stmts)));
        }
    }
}

proof fn lemma_stmt(stmt: TypedStmtView, cx: LowerCx, s: CodeView, bound: Names)
    requires
        stmt_no_ended(stmt, bound, Set::full()),
        holds(bound, s.vars),
    ensures
        match lower_stmt(stmt, cx, s) {
            Ok(s1) => holds(bound.union(binds(stmt)), s1.vars),
            Err(e) => other_stop(e),
        },
    decreases stmt, 1int,
{
    let none: Names = Set::empty();
    assert(bound.union(none) =~= bound);
    match stmt {
        TypedStmtView::Let { name, expr } => {
            lemma_expr(expr, cx, s, bound);
            if let Ok((l, s1)) = lower_expr(expr, cx, s) {
                match l {
                    LoweredView::Ptr(ptr, ty) => {
                        lemma_holds_put(bound, s.vars, name, SlotView { ptr, ty });
                    },
                    LoweredView::Value(value, ty) => {
                        lemma_holds_put(bound, s.vars, name, SlotView { ptr: next(s1), ty });
                    },
                }
            }
        },
        TypedStmtView::ExprStmt(expr) => {
            lemma_expr(expr, cx, s, bound);
        },
        TypedStmtView::Assign { name, expr } => {
            assert(bound.contains(name));
            lemma_expr(expr, cx, s, bound);
        },
        TypedStmtView::While { .. } => {
            lemma_while(stmt, cx, s, bound);
        },
    }
}

proof fn lemma_while(stmt: TypedStmtView, cx: LowerCx, s: CodeView, bound: Names)
    requires
        stmt is While,
        stmt_no_ended(stmt, bound, Set::full()),
        holds(bound, s.vars),
    ensures
        match lower_while(stmt, cx, s) {
            Ok(s1) => s1.vars == s.vars,
            Err(e) => other_stop(e),
        },
    decreases stmt, 0int,
{
    if let TypedStmtView::While { cond, body } = stmt {
        let header_block = s.insts.len();
        let body_block = header_block + 1;
        let exit_block = header_block + 2;
        let s1 = emit(emit(emit(s, InstView::Block), InstView::Block), InstView::Block);
        let s2 = enter(emit(s1, InstView::Jump { block: header_block }), header_block);
        lemma_expr(cond, cx, s2, bound);
        if let Ok((c, s3)) = lower_expr(cond, cx, s2) {
            let (cond_value, cond_ty, s4) = to_value(c, s3);
            let s5 = enter(
                emit(
                    s4,
                    InstView::Branch {
                        cond: cond_value,
                        then_block: body_block,
                        else_block: exit_block,
                    },
                ),
                body_block,
            );
            lemma_block(body, cx, s5, bound);
        }
    }
}

proof fn lemma_block(b: TypedBlockView, cx: LowerCx, s: CodeView, bound: Names)
    requires
        block_no_ended(b, bound, Set::full()),
        holds(bound, s.vars),
    ensures
        lower_block(b, cx, s) matches Err(e) ==> other_stop(e),
    decreases b, 0int,
{
    lemma_stmts(b.stmts, cx, s, bound);
    if let Ok(s1) = lower_stmts(b.stmts, cx, s) {
        let full: Names = Set::full();
        assert(full.union(all_bind_in_loops(b.stmts)) =~= full);
        if let Some(e) = b.ret {
            lemma_expr(e, cx, s1, bound.union(all_bind(b.stmts)));
        }
    }
}

} // verus!
