//! What holds of typing: it keeps the meaning.
use crate::names::find;
use crate::oracle::{lemma_demote_resolve_all, nesting_bound};
use crate::toylang::ast::{BinOp, BlockView, ExprView, StmtView};
use crate::toylang::meaning::{
    begin, eval, eval_all, eval_block, eval_branch, eval_fields, eval_value, exec, exec_all, fill, round, typed_all, typed_block,
    typed_eval, typed_exec, typed_exec_all, typed_fields, typed_opt, typed_value, Outcome, State, Value, World,
};
use crate::toylang::registry::{ToyFieldView, ToyFunctionView};
use crate::toylang::type_resolve::{
    call_signature, if_expr, param_scope, return_type, type_block, type_call_args, type_expr, type_exprs, type_fields, type_fn_body,
    type_stmt, type_stmts, ScopeView, TypeResolveErrorView, Typing,
};
use crate::toylang::typed_ast::{ResolvedTypeView, TypedBlockView, TypedExprKindView, TypedExprView, TypedStmtView};
use vstd::prelude::*;

verus! {

broadcast use vstd::seq::group_seq_axioms;

/// An expression means the same as it is written and as it is typed, whatever
/// type is wanted of it and whatever functions do: it comes to the same in
/// every state, and leaves the same state behind.
pub proof fn lemma_typing_keeps_meaning(
    e: ExprView,
    expected: ResolvedTypeView,
    scope: ScopeView,
    cx: Typing,
    st: State,
    fuel: nat,
    w: World,
)
    requires
        !w.checked,
        type_expr(e, expected, scope, cx) is Ok,
    ensures
        typed_eval(type_expr(e, expected, scope, cx)->Ok_0, st, fuel, w) == eval(e, st, fuel, w),
        typed_value(type_expr(e, expected, scope, cx)->Ok_0, st, fuel, w) == eval_value(
            e,
            st,
            fuel,
            w,
        ),
{
    lemma_expr(e, expected, scope, cx, st, fuel, w);
}

/// The typed form of a negated expression comes to minus the number that the
/// typed form of the expression comes to, and to nothing where that comes to
/// no number.
pub proof fn lemma_negation(
    e: ExprView,
    expected: ResolvedTypeView,
    scope: ScopeView,
    cx: Typing,
    st: State,
    fuel: nat,
    w: World,
)
    requires
        !w.checked,
        type_expr(ExprView::UnaryNeg(Box::new(e)), expected, scope, cx) is Ok,
    ensures
        type_expr(e, expected, scope, cx) is Ok,
        typed_value(
            type_expr(ExprView::UnaryNeg(Box::new(e)), expected, scope, cx)->Ok_0,
            st,
            fuel,
            w,
        ) == (match typed_value(type_expr(e, expected, scope, cx)->Ok_0, st, fuel, w) {
            Some((Value::Int(n), after)) => Some((Value::Int(-n), after)),
            _ => None,
        }),
{
    let neg = ExprView::UnaryNeg(Box::new(e));
    lemma_expr(e, expected, scope, cx, st, fuel, w);
    lemma_expr(neg, expected, scope, cx, st, fuel, w);
    assert(eval_value(neg, st, fuel, w) == match eval_value(e, st, fuel, w) {
        Some((Value::Int(n), after)) => Some((Value::Int(-n), after)),
        _ => None,
    });
}

/// A statement does the same as it is written and as it is typed.
pub proof fn lemma_typing_keeps_effect(
    s: StmtView,
    scope: ScopeView,
    cx: Typing,
    st: State,
    fuel: nat,
    w: World,
)
    requires
        !w.checked,
        type_stmt(s, scope, cx) is Ok,
    ensures
        typed_exec(type_stmt(s, scope, cx)->Ok_0.0, st, fuel, w) == exec(s, st, fuel, w),
{
    lemma_stmt(s, scope, cx, st, fuel, w);
}

/// The body of a function comes to the same as it is written and as it is
/// typed.
pub proof fn lemma_typing_keeps_body(
    func: ToyFunctionView,
    body: BlockView,
    cx: Typing,
    st: State,
    fuel: nat,
    w: World,
)
    requires
        !w.checked,
        type_fn_body(func, body, cx) is Ok,
    ensures
        typed_block(type_fn_body(func, body, cx)->Ok_0, st, fuel, w) == eval_block(
            body,
            st,
            fuel,
            w,
        ),
{
    let ret = return_type(func, cx)->Ok_0;
    let scope = param_scope(func.params, Seq::empty(), cx)->Ok_0;
    lemma_block(body, ret, scope, cx, st, fuel, w);
}

#[verifier::spinoff_prover]
#[verifier::rlimit(60)]
proof fn lemma_expr(
    e: ExprView,
    expected: ResolvedTypeView,
    scope: ScopeView,
    cx: Typing,
    st: State,
    fuel: nat,
    w: World,
)
    requires
        !w.checked,
        type_expr(e, expected, scope, cx) is Ok,
    ensures
        typed_eval(type_expr(e, expected, scope, cx)->Ok_0, st, fuel, w) == eval(e, st, fuel, w),
        typed_value(type_expr(e, expected, scope, cx)->Ok_0, st, fuel, w) == eval_value(
            e,
            st,
            fuel,
            w,
        ),
    decreases fuel, e, 0int,
{
    let t = type_expr(e, expected, scope, cx)->Ok_0;
    let void = ResolvedTypeView::Void;
    match e {
        ExprView::UnaryNeg(inner) => {
            lemma_expr(*inner, expected, scope, cx, st, fuel, w);
            let r = type_expr(*inner, expected, scope, cx)->Ok_0;
            lemma_minus(r, st, fuel, w);
        },
        ExprView::BinaryOp { op, left, right } => {
            let l = type_expr(*left, void, scope, cx)->Ok_0;
            lemma_expr(*left, void, scope, cx, st, fuel, w);
            if let Some((_, s1)) = eval_value(*left, st, fuel, w) {
                lemma_expr(*right, l.ty, scope, cx, s1, fuel, w);
            }
        },
        ExprView::Ref(inner) => {
            lemma_expr(*inner, void, scope, cx, st, fuel, w);
        },
        ExprView::FieldAccess { receiver, field } => {
            lemma_expr(*receiver, void, scope, cx, st, fuel, w);
        },
        ExprView::StructLit { name, type_args, fields } => {
            if let TypedExprKindView::StructLit { name: _, fields: typed } = t.kind {
                if let ResolvedTypeView::Struct { name: _, type_args: _, field_types } = t.ty {
                    let def = find(cx.registry.structs, name)->Some_0;
                    lemma_fields(
                        fields,
                        name,
                        def.fields,
                        field_types,
                        scope,
                        cx,
                        st.memory.len(),
                        begin(name, st),
                        fuel,
                        w,
                    );
                }
            }
        },
        ExprView::FnCall { name, type_args, args } => {
            let sig = call_signature(name, type_args, cx)->Ok_0;
            lemma_demote_resolve_all(
                type_args,
                cx.registry.structs,
                nesting_bound(cx.registry.structs),
            );
            lemma_call_args(args, 0, name, sig.params, scope, cx, st, fuel, w);
        },
        ExprView::StaticCall { ty, method, type_args, args } => {
            lemma_demote_resolve_all(
                type_args,
                cx.registry.structs,
                nesting_bound(cx.registry.structs),
            );
            lemma_exprs(args, scope, cx, st, fuel, w);
        },
        ExprView::MethodCall { receiver, method, args } => {
            lemma_expr(*receiver, void, scope, cx, st, fuel, w);
            if let Some((_, s1)) = eval_value(*receiver, st, fuel, w) {
                lemma_exprs(args, scope, cx, s1, fuel, w);
            }
        },
        ExprView::If { cond, then_body, else_body } => {
            let c = type_expr(*cond, void, scope, cx)->Ok_0;
            lemma_expr(*cond, void, scope, cx, st, fuel, w);
            let (then_block, _) = type_block(*then_body, void, scope, cx)->Ok_0;
            let none = TypedBlockView { stmts: Seq::empty(), ret: None };
            let else_block = match else_body {
                None => none,
                Some(b) => type_block(*b, void, scope, cx)->Ok_0.0,
            };
            lemma_if_parts(c, then_block, else_block);
            assert(if_expr(c, then_block, else_block) == Ok::<_, TypeResolveErrorView>(t));
            if let Some((Value::Bool(b), s1)) = eval_value(*cond, st, fuel, w) {
                lemma_branch(*then_body, scope, cx, s1, fuel, w);
                match else_body {
                    Some(x) => {
                        lemma_branch(*x, scope, cx, s1, fuel, w);
                    },
                    None => {
                        assert(typed_exec_all(none.stmts, s1, fuel, w) == Some(s1));
                        assert(typed_opt(None, s1, fuel, w) == Some((None::<Value>, s1)));
                    },
                }
            }
        },
        _ => {},
    }
}

/// What is taken from zero comes to minus its number.
proof fn lemma_minus(r: TypedExprView, st: State, fuel: nat, w: World)
    ensures
        typed_eval(
            TypedExprView {
                kind: TypedExprKindView::BinaryOp {
                    op: BinOp::Sub,
                    left: Box::new(TypedExprView { kind: TypedExprKindView::IntLit(0), ty: r.ty }),
                    right: Box::new(r),
                },
                ty: r.ty,
            },
            st,
            fuel,
            w,
        ) == (match typed_value(r, st, fuel, w) {
            Some((Value::Int(n), after)) => Some((Outcome::Value(Value::Int(-n)), after)),
            _ => None,
        }),
{
    let zero = TypedExprView { kind: TypedExprKindView::IntLit(0), ty: r.ty };
    assert(typed_eval(zero, st, fuel, w) == Some((Outcome::Value(Value::Int(0)), st)));
    assert(typed_value(zero, st, fuel, w) == Some((Value::Int(0), st)));
    if let Some((v, s1)) = typed_value(r, st, fuel, w) {
        if let Value::Int(n) = v {
            assert(0 - n == -n);
        }
    }
}

proof fn lemma_if_parts(c: TypedExprView, then_block: TypedBlockView, else_block: TypedBlockView)
    requires
        if_expr(c, then_block, else_block) is Ok,
    ensures
        if_expr(c, then_block, else_block)->Ok_0.kind == (TypedExprKindView::If {
            cond: Box::new(c),
            then_stmts: then_block.stmts,
            then_expr: match then_block.ret {
                Some(e) => Some(Box::new(e)),
                None => None,
            },
            else_stmts: else_block.stmts,
            else_expr: match else_block.ret {
                Some(e) => Some(Box::new(e)),
                None => None,
            },
        }),
{
}

proof fn lemma_branch(b: BlockView, scope: ScopeView, cx: Typing, st: State, fuel: nat, w: World)
    requires
        !w.checked,
        type_block(b, ResolvedTypeView::Void, scope, cx) is Ok,
    ensures
        ({
            let t = type_block(b, ResolvedTypeView::Void, scope, cx)->Ok_0.0;
            &&& (t.ret is Some) == (b.ret is Some)
            &&& eval_branch(b, st, fuel, w) == match typed_exec_all(t.stmts, st, fuel, w) {
                None => None,
                Some(s1) => typed_opt(
                    match t.ret {
                        Some(e) => Some(Box::new(e)),
                        None => None,
                    },
                    s1,
                    fuel,
                    w,
                ),
            }
        }),
    decreases fuel, b, 3int,
{
    lemma_stmts(b.stmts, scope, cx, st, fuel, w);
    let (stmts, after) = type_stmts(b.stmts, scope, cx)->Ok_0;
    if let Some(s1) = exec_all(b.stmts, st, fuel, w) {
        if let Some(e) = b.ret {
            lemma_expr(e, ResolvedTypeView::Void, after, cx, s1, fuel, w);
        }
    }
}

proof fn lemma_exprs(
    es: Seq<ExprView>,
    scope: ScopeView,
    cx: Typing,
    st: State,
    fuel: nat,
    w: World,
)
    requires
        !w.checked,
        type_exprs(es, scope, cx) is Ok,
    ensures
        typed_all(type_exprs(es, scope, cx)->Ok_0, st, fuel, w) == eval_all(es, st, fuel, w),
    decreases fuel, es, 2int,
{
    if es.len() > 0 {
        let first = type_expr(es[0], ResolvedTypeView::Void, scope, cx)->Ok_0;
        let rest = type_exprs(es.drop_first(), scope, cx)->Ok_0;
        assert((seq![first] + rest).drop_first() =~= rest);
        lemma_expr(es[0], ResolvedTypeView::Void, scope, cx, st, fuel, w);
        if let Some((_, s1)) = eval_value(es[0], st, fuel, w) {
            lemma_exprs(es.drop_first(), scope, cx, s1, fuel, w);
        }
    }
}

proof fn lemma_call_args(
    args: Seq<ExprView>,
    i: nat,
    func_name: Seq<char>,
    params: Seq<Result<ResolvedTypeView, TypeResolveErrorView>>,
    scope: ScopeView,
    cx: Typing,
    st: State,
    fuel: nat,
    w: World,
)
    requires
        !w.checked,
        type_call_args(args, i, func_name, params, scope, cx) is Ok,
    ensures
        typed_all(
            type_call_args(args, i, func_name, params, scope, cx)->Ok_0,
            st,
            fuel,
            w,
        ) == eval_all(args, st, fuel, w),
    decreases fuel, args, 2int,
{
    if args.len() > 0 {
        let want = if i < params.len() {
            params[i as int]
        } else {
            Ok(ResolvedTypeView::Void)
        };
        let first = type_expr(args[0], want->Ok_0, scope, cx)->Ok_0;
        let rest = type_call_args(args.drop_first(), i + 1, func_name, params, scope, cx)->Ok_0;
        assert((seq![first] + rest).drop_first() =~= rest);
        lemma_expr(args[0], want->Ok_0, scope, cx, st, fuel, w);
        if let Some((_, s1)) = eval_value(args[0], st, fuel, w) {
            lemma_call_args(args.drop_first(), i + 1, func_name, params, scope, cx, s1, fuel, w);
        }
    }
}

proof fn lemma_fields(
    fields: Seq<(Seq<char>, ExprView)>,
    name: Seq<char>,
    def: Seq<ToyFieldView>,
    field_types: Seq<ResolvedTypeView>,
    scope: ScopeView,
    cx: Typing,
    base: nat,
    st: State,
    fuel: nat,
    w: World,
)
    requires
        !w.checked,
        type_fields(fields, name, def, field_types, scope, cx) is Ok,
    ensures
        typed_fields(
            type_fields(fields, name, def, field_types, scope, cx)->Ok_0,
            name,
            base,
            st,
            fuel,
            w,
        ) == eval_fields(fields, name, base, st, fuel, w),
    decreases fuel, fields, 2int,
{
    if fields.len() > 0 {
        let k = crate::toylang::type_resolve::field_index(def, fields[0].0)->Some_0;
        let first = type_expr(fields[0].1, field_types[k as int], scope, cx)->Ok_0;
        let rest = type_fields(fields.drop_first(), name, def, field_types, scope, cx)->Ok_0;
        assert((seq![(fields[0].0, first)] + rest).drop_first() =~= rest);
        lemma_expr(fields[0].1, field_types[k as int], scope, cx, st, fuel, w);
        if let Some((v, s1)) = eval_value(fields[0].1, st, fuel, w) {
            if let Some(s2) = fill(name, base, fields[0].0, v, s1) {
                lemma_fields(
                    fields.drop_first(),
                    name,
                    def,
                    field_types,
                    scope,
                    cx,
                    base,
                    s2,
                    fuel,
                    w,
                );
            }
        }
    }
}

proof fn lemma_stmt(s: StmtView, scope: ScopeView, cx: Typing, st: State, fuel: nat, w: World)
    requires
        !w.checked,
        type_stmt(s, scope, cx) is Ok,
    ensures
        typed_exec(type_stmt(s, scope, cx)->Ok_0.0, st, fuel, w) == exec(s, st, fuel, w),
    decreases fuel, s, 0int,
{
    let void = ResolvedTypeView::Void;
    match s {
        StmtView::Let { name, expr } => {
            lemma_expr(expr, void, scope, cx, st, fuel, w);
        },
        StmtView::ExprStmt(expr) => {
            lemma_expr(expr, void, scope, cx, st, fuel, w);
        },
        StmtView::While { cond, body } => {
            if fuel > 0 {
                lemma_expr(cond, void, scope, cx, st, fuel, w);
                if let Some((Value::Bool(b), s1)) = eval_value(cond, st, fuel, w) {
                    if b {
                        lemma_block(*body, void, scope, cx, s1, fuel, w);
                        if let Some((_, s2)) = eval_block(*body, s1, fuel, w) {
                            if let Some(s3) = round(st, s2) {
                                lemma_stmt(s, scope, cx, s3, (fuel - 1) as nat, w);
                            }
                        }
                    }
                }
            }
        },
        StmtView::Assign { name, expr } => {
            let ty = find(scope, name)->Some_0;
            lemma_expr(expr, ty, scope, cx, st, fuel, w);
        },
    }
}

proof fn lemma_stmts(
    ss: Seq<StmtView>,
    scope: ScopeView,
    cx: Typing,
    st: State,
    fuel: nat,
    w: World,
)
    requires
        !w.checked,
        type_stmts(ss, scope, cx) is Ok,
    ensures
        typed_exec_all(type_stmts(ss, scope, cx)->Ok_0.0, st, fuel, w) == exec_all(
            ss,
            st,
            fuel,
            w,
        ),
    decreases fuel, ss, 2int,
{
    if ss.len() > 0 {
        let (typed, last) = type_stmts(ss, scope, cx)->Ok_0;
        let (first, next) = type_stmt(ss[0], scope, cx)->Ok_0;
        let (rest, _) = type_stmts(ss.drop_first(), next, cx)->Ok_0;
        assert(typed.drop_first() =~= rest);
        assert(typed[0] == first);
        lemma_stmt(ss[0], scope, cx, st, fuel, w);
        if let Some(s1) = exec(ss[0], st, fuel, w) {
            lemma_stmts(ss.drop_first(), next, cx, s1, fuel, w);
        }
    }
}

proof fn lemma_block(
    b: BlockView,
    expected: ResolvedTypeView,
    scope: ScopeView,
    cx: Typing,
    st: State,
    fuel: nat,
    w: World,
)
    requires
        !w.checked,
        type_block(b, expected, scope, cx) is Ok,
    ensures
        typed_block(type_block(b, expected, scope, cx)->Ok_0.0, st, fuel, w) == eval_block(
            b,
            st,
            fuel,
            w,
        ),
    decreases fuel, b, 3int,
{
    lemma_stmts(b.stmts, scope, cx, st, fuel, w);
    let (stmts, after) = type_stmts(b.stmts, scope, cx)->Ok_0;
    if let Some(s1) = exec_all(b.stmts, st, fuel, w) {
        if let Some(e) = b.ret {
            lemma_expr(e, expected, after, cx, s1, fuel, w);
        }
    }
}

/// The world in which nothing is checked.
pub open spec fn unchecked(w: World) -> World {
    World { checked: false, ..w }
}

/// What comes to something where it is checked comes to the same where it is
/// not.
pub proof fn lemma_checked(e: TypedExprView, st: State, fuel: nat, w: World)
    requires
        typed_eval(e, st, fuel, w) is Some,
    ensures
        typed_eval(e, st, fuel, unchecked(w)) == typed_eval(e, st, fuel, w),
    decreases fuel, e, 0int,
{
    match e.kind {
        TypedExprKindView::BinaryOp { op, left, right } => {
            lemma_checked_value(*left, st, fuel, w);
            let (_, s1) = typed_value(*left, st, fuel, w)->Some_0;
            lemma_checked_value(*right, s1, fuel, w);
        },
        TypedExprKindView::Ref(inner) => {
            lemma_checked(*inner, st, fuel, w);
        },
        TypedExprKindView::FieldAccess { receiver, field } => {
            lemma_checked(*receiver, st, fuel, w);
        },
        TypedExprKindView::StructLit { name, fields } => {
            lemma_checked_fields(fields, name, st.memory.len(), begin(name, st), fuel, w);
        },
        TypedExprKindView::FnCall { name, type_args, args } => {
            lemma_checked_all(args, st, fuel, w);
        },
        TypedExprKindView::StaticCall { ty, method, type_args, args } => {
            lemma_checked_all(args, st, fuel, w);
        },
        TypedExprKindView::MethodCall { receiver, method, args } => {
            lemma_checked_value(*receiver, st, fuel, w);
            let (_, s1) = typed_value(*receiver, st, fuel, w)->Some_0;
            lemma_checked_all(args, s1, fuel, w);
        },
        TypedExprKindView::If { cond, then_stmts, then_expr, else_stmts, else_expr } => {
            lemma_checked_value(*cond, st, fuel, w);
            let (t, s1) = typed_value(*cond, st, fuel, w)->Some_0;
            if t->Bool_0 {
                lemma_checked_stmts(then_stmts, s1, fuel, w);
                let s2 = typed_exec_all(then_stmts, s1, fuel, w)->Some_0;
                lemma_checked_opt(then_expr, s2, fuel, w);
            } else {
                lemma_checked_stmts(else_stmts, s1, fuel, w);
                let s2 = typed_exec_all(else_stmts, s1, fuel, w)->Some_0;
                lemma_checked_opt(else_expr, s2, fuel, w);
            }
        },
        _ => {},
    }
}

proof fn lemma_checked_value(e: TypedExprView, st: State, fuel: nat, w: World)
    requires
        typed_value(e, st, fuel, w) is Some,
    ensures
        typed_value(e, st, fuel, unchecked(w)) == typed_value(e, st, fuel, w),
    decreases fuel, e, 1int,
{
    lemma_checked(e, st, fuel, w);
}

proof fn lemma_checked_opt(e: Option<Box<TypedExprView>>, st: State, fuel: nat, w: World)
    requires
        typed_opt(e, st, fuel, w) is Some,
    ensures
        typed_opt(e, st, fuel, unchecked(w)) == typed_opt(e, st, fuel, w),
    decreases fuel, e, 2int,
{
    if let Some(x) = e {
        lemma_checked_value(*x, st, fuel, w);
    }
}

proof fn lemma_checked_all(es: Seq<TypedExprView>, st: State, fuel: nat, w: World)
    requires
        typed_all(es, st, fuel, w) is Some,
    ensures
        typed_all(es, st, fuel, unchecked(w)) == typed_all(es, st, fuel, w),
    decreases fuel, es, 2int,
{
    if es.len() > 0 {
        lemma_checked_value(es[0], st, fuel, w);
        let (_, s1) = typed_value(es[0], st, fuel, w)->Some_0;
        lemma_checked_all(es.drop_first(), s1, fuel, w);
    }
}

proof fn lemma_checked_fields(
    fields: Seq<(Seq<char>, TypedExprView)>,
    owner: Seq<char>,
    base: nat,
    st: State,
    fuel: nat,
    w: World,
)
    requires
        typed_fields(fields, owner, base, st, fuel, w) is Some,
    ensures
        typed_fields(fields, owner, base, st, fuel, unchecked(w)) == typed_fields(
            fields,
            owner,
            base,
            st,
            fuel,
            w,
        ),
    decreases fuel, fields, 2int,
{
    if fields.len() > 0 {
        lemma_checked_value(fields[0].1, st, fuel, w);
        let (v, s1) = typed_value(fields[0].1, st, fuel, w)->Some_0;
        let s2 = fill(owner, base, fields[0].0, v, s1)->Some_0;
        lemma_checked_fields(fields.drop_first(), owner, base, s2, fuel, w);
    }
}

proof fn lemma_checked_stmt(s: TypedStmtView, st: State, fuel: nat, w: World)
    requires
        typed_exec(s, st, fuel, w) is Some,
    ensures
        typed_exec(s, st, fuel, unchecked(w)) == typed_exec(s, st, fuel, w),
    decreases fuel, s, 0int,
{
    match s {
        TypedStmtView::Let { name, expr } => {
            lemma_checked(expr, st, fuel, w);
        },
        TypedStmtView::ExprStmt(expr) => {
            lemma_checked(expr, st, fuel, w);
        },
        TypedStmtView::Assign { name, expr } => {
            lemma_checked_value(expr, st, fuel, w);
        },
        TypedStmtView::While { cond, body } => {
            lemma_checked_value(cond, st, fuel, w);
            let (t, s1) = typed_value(cond, st, fuel, w)->Some_0;
            if t->Bool_0 {
                lemma_checked_block(body, s1, fuel, w);
                let (_, s2) = typed_block(body, s1, fuel, w)->Some_0;
                let s3 = round(st, s2)->Some_0;
                lemma_checked_stmt(s, s3, (fuel - 1) as nat, w);
            }
        },
    }
}

proof fn lemma_checked_stmts(ss: Seq<TypedStmtView>, st: State, fuel: nat, w: World)
    requires
        typed_exec_all(ss, st, fuel, w) is Some,
    ensures
        typed_exec_all(ss, st, fuel, unchecked(w)) == typed_exec_all(ss, st, fuel, w),
    decreases fuel, ss, 2int,
{
    if ss.len() > 0 {
        lemma_checked_stmt(ss[0], st, fuel, w);
        let s1 = typed_exec(ss[0], st, fuel, w)->Some_0;
        lemma_checked_stmts(ss.drop_first(), s1, fuel, w);
    }
}

/// The same for a block.
pub proof fn lemma_checked_block(b: TypedBlockView, st: State, fuel: nat, w: World)
    requires
        typed_block(b, st, fuel, w) is Some,
    ensures
        typed_block(b, st, fuel, unchecked(w)) == typed_block(b, st, fuel, w),
    decreases fuel, b, 3int,
{
    lemma_checked_stmts(b.stmts, st, fuel, w);
    let s1 = typed_exec_all(b.stmts, st, fuel, w)->Some_0;
    if let Some(e) = b.ret {
        lemma_checked(e, s1, fuel, w);
    }
}

} // verus!
