//! What holds of the calls that are found in a typed body: they are those that
//! stand in it, wherever they stand.
use crate::toylang::deps::{
    calls_in_block, calls_in_expr, calls_in_exprs, calls_in_fields, calls_in_opt, calls_in_stmt, calls_in_stmts, rust_deps_in_block,
    rust_deps_in_expr, rust_deps_in_exprs, rust_deps_in_fields, rust_deps_in_opt, rust_deps_in_stmt, rust_deps_in_stmts, rust_type_of,
    FnCallView, RustMethodDepView,
};
use crate::toylang::typed_ast::{ResolvedTypeView, TypedBlockView, TypedExprKindView, TypedExprView, TypedStmtView};
use vstd::prelude::*;

verus! {

broadcast use vstd::seq::group_seq_axioms;

/// A property of expressions.
pub type Property = spec_fn(TypedExprView) -> bool;

/// Whether an expression has a property, or a part of it has: an operand, an
/// argument, a receiver, the value of a field, a condition, or whatever stands
/// in a branch, be it a statement or the value at the end.
pub open spec fn occurs(p: Property, e: TypedExprView) -> bool
    decreases e,
{
    p(e) || match e.kind {
        TypedExprKindView::FnCall { name, type_args, args } => occurs_in_any(p, args),
        TypedExprKindView::StaticCall { ty, method, type_args, args } => occurs_in_any(p, args),
        TypedExprKindView::StructLit { name, fields } => occurs_in_fields(p, fields),
        TypedExprKindView::MethodCall { receiver, method, args } => occurs(p, *receiver)
            || occurs_in_any(p, args),
        TypedExprKindView::FieldAccess { receiver, field } => occurs(p, *receiver),
        TypedExprKindView::BinaryOp { op, left, right } => occurs(p, *left) || occurs(p, *right),
        TypedExprKindView::If { cond, then_stmts, then_expr, else_stmts, else_expr } => {
            ||| occurs(p, *cond)
            ||| occurs_in_stmts(p, then_stmts)
            ||| then_expr matches Some(x) && occurs(p, *x)
            ||| occurs_in_stmts(p, else_stmts)
            ||| else_expr matches Some(x) && occurs(p, *x)
        },
        TypedExprKindView::Ref(inner) => occurs(p, *inner),
        _ => false,
    }
}

/// Whether an expression with a property stands in one of some expressions.
pub open spec fn occurs_in_any(p: Property, es: Seq<TypedExprView>) -> bool
    decreases es,
{
    exists|i: int| 0 <= i < es.len() && occurs(p, #[trigger] es[i])
}

/// Whether an expression with a property stands in one of some fields.
pub open spec fn occurs_in_fields(p: Property, fs: Seq<(Seq<char>, TypedExprView)>) -> bool
    decreases fs,
{
    exists|i: int| 0 <= i < fs.len() && occurs(p, (#[trigger] fs[i]).1)
}

/// Whether an expression with a property stands in a statement.
pub open spec fn occurs_in_stmt(p: Property, s: TypedStmtView) -> bool
    decreases s,
{
    match s {
        TypedStmtView::Let { name, expr } => occurs(p, expr),
        TypedStmtView::ExprStmt(expr) => occurs(p, expr),
        TypedStmtView::While { cond, body } => occurs(p, cond) || occurs_in_block(p, body),
        TypedStmtView::Assign { name, expr } => occurs(p, expr),
    }
}

/// Whether an expression with a property stands in one of some statements.
pub open spec fn occurs_in_stmts(p: Property, ss: Seq<TypedStmtView>) -> bool
    decreases ss,
{
    exists|i: int| 0 <= i < ss.len() && occurs_in_stmt(p, #[trigger] ss[i])
}

/// Whether an expression with a property stands in a block.
pub open spec fn occurs_in_block(p: Property, b: TypedBlockView) -> bool
    decreases b,
{
    occurs_in_stmts(p, b.stmts) || (b.ret matches Some(e) && occurs(p, e))
}

/// Whether an expression is a call by this name, with these type arguments.
pub open spec fn is_call(call: FnCallView) -> Property {
    |e: TypedExprView|
        e.kind matches TypedExprKindView::FnCall { name, type_args, args } && name == call.name
            && type_args == call.type_args
}

/// Whether a value of a type is, or refers to, one of a Rust type.
pub open spec fn is_of_rust_type(
    ty: ResolvedTypeView,
    owner: Seq<char>,
    args: Seq<ResolvedTypeView>,
) -> bool {
    let rust = ResolvedTypeView::RustType { name: owner, type_args: args };
    ty == rust || ty == (ResolvedTypeView::Ref { inner: Box::new(rust) })
}

/// Whether an expression uses a method of the Rust side: on a receiver of a
/// Rust type, or by path, when the type of the first argument counts too.
pub open spec fn is_use(d: RustMethodDepView) -> Property {
    |e: TypedExprView|
        match e.kind {
            TypedExprKindView::MethodCall { receiver, method, args } => d.method_name == method
                && d.receiver_ty is None && is_of_rust_type(receiver.ty, d.owner, d.type_args),
            TypedExprKindView::StaticCall { ty, method, type_args, args } => {
                &&& d.owner == ty
                &&& d.method_name == method
                &&& d.type_args == type_args
                &&& args.len() == 0 ==> d.receiver_ty is None
                &&& args.len() > 0 ==> d.receiver_ty == Some(args[0].ty)
            },
            _ => false,
        }
}

proof fn lemma_in_sum<T>(a: Seq<T>, b: Seq<T>, x: T)
    ensures
        (a + b).contains(x) <==> a.contains(x) || b.contains(x),
{
    let s = a + b;
    if a.contains(x) {
        let i = choose|i: int| 0 <= i < a.len() && a[i] == x;
        assert(s[i] == x);
    }
    if b.contains(x) {
        let i = choose|i: int| 0 <= i < b.len() && b[i] == x;
        assert(s[i + a.len()] == x);
    }
    if s.contains(x) {
        let i = choose|i: int| 0 <= i < s.len() && s[i] == x;
        if i < a.len() {
            assert(a[i] == x);
        } else {
            assert(b[i - a.len()] == x);
        }
    }
}

proof fn lemma_in_one<T>(y: T, x: T)
    ensures
        seq![y].contains(x) <==> x == y,
{
    assert(seq![y][0] == y);
}

proof fn lemma_call_in_expr(e: TypedExprView, c: FnCallView)
    ensures
        calls_in_expr(e).contains(c) <==> occurs(is_call(c), e),
    decreases e, 1int,
{
    let p = is_call(c);
    match e.kind {
        TypedExprKindView::FnCall { name, type_args, args } => {
            lemma_call_in_exprs(args, c);
            let own = FnCallView { name, type_args };
            lemma_in_sum(seq![own], calls_in_exprs(args), c);
            lemma_in_one(own, c);
        },
        TypedExprKindView::StructLit { name, fields } => {
            lemma_call_in_fields(fields, c);
        },
        TypedExprKindView::MethodCall { receiver, method, args } => {
            lemma_call_in_expr(*receiver, c);
            lemma_call_in_exprs(args, c);
            lemma_in_sum(calls_in_expr(*receiver), calls_in_exprs(args), c);
        },
        TypedExprKindView::FieldAccess { receiver, field } => {
            lemma_call_in_expr(*receiver, c);
        },
        TypedExprKindView::BinaryOp { op, left, right } => {
            lemma_call_in_expr(*left, c);
            lemma_call_in_expr(*right, c);
            lemma_in_sum(calls_in_expr(*left), calls_in_expr(*right), c);
        },
        TypedExprKindView::StaticCall { ty, method, type_args, args } => {
            lemma_call_in_exprs(args, c);
        },
        TypedExprKindView::If { cond, then_stmts, then_expr, else_stmts, else_expr } => {
            lemma_call_in_expr(*cond, c);
            lemma_call_in_stmts(then_stmts, c);
            lemma_call_in_stmts(else_stmts, c);
            if let Some(x) = then_expr {
                lemma_call_in_expr(*x, c);
            }
            if let Some(x) = else_expr {
                lemma_call_in_expr(*x, c);
            }
            let a = calls_in_expr(*cond);
            let b = a + calls_in_stmts(then_stmts);
            let g = b + calls_in_opt(then_expr);
            let f = g + calls_in_stmts(else_stmts);
            lemma_in_sum(a, calls_in_stmts(then_stmts), c);
            lemma_in_sum(b, calls_in_opt(then_expr), c);
            lemma_in_sum(g, calls_in_stmts(else_stmts), c);
            lemma_in_sum(f, calls_in_opt(else_expr), c);
        },
        TypedExprKindView::Ref(inner) => {
            lemma_call_in_expr(*inner, c);
        },
        _ => {},
    }
}

proof fn lemma_call_in_exprs(s: Seq<TypedExprView>, c: FnCallView)
    ensures
        calls_in_exprs(s).contains(c) <==> occurs_in_any(is_call(c), s),
    decreases s, 0int,
{
    let p = is_call(c);
    if s.len() > 0 {
        let before = s.drop_last();
        lemma_call_in_exprs(before, c);
        lemma_call_in_expr(s.last(), c);
        lemma_in_sum(calls_in_exprs(before), calls_in_expr(s.last()), c);
        assert(s[s.len() - 1] == s.last());
        if occurs_in_any(p, before) {
            let i = choose|i: int| 0 <= i < before.len() && occurs(p, #[trigger] before[i]);
            assert(s[i] == before[i]);
        }
        if occurs_in_any(p, s) {
            let i = choose|i: int| 0 <= i < s.len() && occurs(p, #[trigger] s[i]);
            if i < before.len() {
                assert(before[i] == s[i]);
            }
        }
    }
}

proof fn lemma_call_in_fields(s: Seq<(Seq<char>, TypedExprView)>, c: FnCallView)
    ensures
        calls_in_fields(s).contains(c) <==> occurs_in_fields(is_call(c), s),
    decreases s, 0int,
{
    let p = is_call(c);
    if s.len() > 0 {
        let before = s.drop_last();
        lemma_call_in_fields(before, c);
        lemma_call_in_expr(s.last().1, c);
        lemma_in_sum(calls_in_fields(before), calls_in_expr(s.last().1), c);
        assert(s[s.len() - 1] == s.last());
        if occurs_in_fields(p, before) {
            let i = choose|i: int| 0 <= i < before.len() && occurs(p, (#[trigger] before[i]).1);
            assert(s[i] == before[i]);
        }
        if occurs_in_fields(p, s) {
            let i = choose|i: int| 0 <= i < s.len() && occurs(p, (#[trigger] s[i]).1);
            if i < before.len() {
                assert(before[i] == s[i]);
            }
        }
    }
}

proof fn lemma_call_in_stmt(s: TypedStmtView, c: FnCallView)
    ensures
        calls_in_stmt(s).contains(c) <==> occurs_in_stmt(is_call(c), s),
    decreases s, 0int,
{
    match s {
        TypedStmtView::Let { name, expr } => {
            lemma_call_in_expr(expr, c);
        },
        TypedStmtView::ExprStmt(expr) => {
            lemma_call_in_expr(expr, c);
        },
        TypedStmtView::While { cond, body } => {
            lemma_call_in_expr(cond, c);
            lemma_call_in_block(body, c);
            lemma_in_sum(calls_in_expr(cond), calls_in_block(body), c);
        },
        TypedStmtView::Assign { name, expr } => {
            lemma_call_in_expr(expr, c);
        },
    }
}

proof fn lemma_call_in_stmts(s: Seq<TypedStmtView>, c: FnCallView)
    ensures
        calls_in_stmts(s).contains(c) <==> occurs_in_stmts(is_call(c), s),
    decreases s, 0int,
{
    let p = is_call(c);
    if s.len() > 0 {
        let before = s.drop_last();
        lemma_call_in_stmts(before, c);
        lemma_call_in_stmt(s.last(), c);
        lemma_in_sum(calls_in_stmts(before), calls_in_stmt(s.last()), c);
        assert(s[s.len() - 1] == s.last());
        if occurs_in_stmts(p, before) {
            let i = choose|i: int| 0 <= i < before.len() && occurs_in_stmt(p, #[trigger] before[i]);
            assert(s[i] == before[i]);
        }
        if occurs_in_stmts(p, s) {
            let i = choose|i: int| 0 <= i < s.len() && occurs_in_stmt(p, #[trigger] s[i]);
            if i < before.len() {
                assert(before[i] == s[i]);
            }
        }
    }
}

proof fn lemma_call_in_block(b: TypedBlockView, c: FnCallView)
    ensures
        calls_in_block(b).contains(c) <==> occurs_in_block(is_call(c), b),
    decreases b, 0int,
{
    lemma_call_in_stmts(b.stmts, c);
    if let Some(e) = b.ret {
        lemma_call_in_expr(e, c);
        lemma_in_sum(calls_in_stmts(b.stmts), calls_in_expr(e), c);
    }
}

proof fn lemma_use_in_expr(e: TypedExprView, d: RustMethodDepView)
    ensures
        rust_deps_in_expr(e).contains(d) <==> occurs(is_use(d), e),
    decreases e, 1int,
{
    let p = is_use(d);
    match e.kind {
        TypedExprKindView::FnCall { name, type_args, args } => {
            lemma_use_in_exprs(args, d);
        },
        TypedExprKindView::StructLit { name, fields } => {
            lemma_use_in_fields(fields, d);
        },
        TypedExprKindView::MethodCall { receiver, method, args } => {
            lemma_use_in_expr(*receiver, d);
            lemma_use_in_exprs(args, d);
            let own = match rust_type_of(receiver.ty) {
                Some((owner, type_args)) => seq![
                    RustMethodDepView { owner, method_name: method, type_args, receiver_ty: None },
                ],
                None => Seq::empty(),
            };
            lemma_in_sum(own, rust_deps_in_expr(*receiver), d);
            lemma_in_sum(own + rust_deps_in_expr(*receiver), rust_deps_in_exprs(args), d);
            if let Some((owner, type_args)) = rust_type_of(receiver.ty) {
                lemma_in_one(
                    RustMethodDepView { owner, method_name: method, type_args, receiver_ty: None },
                    d,
                );
            }
        },
        TypedExprKindView::FieldAccess { receiver, field } => {
            lemma_use_in_expr(*receiver, d);
        },
        TypedExprKindView::BinaryOp { op, left, right } => {
            lemma_use_in_expr(*left, d);
            lemma_use_in_expr(*right, d);
            lemma_in_sum(rust_deps_in_expr(*left), rust_deps_in_expr(*right), d);
        },
        TypedExprKindView::StaticCall { ty, method, type_args, args } => {
            lemma_use_in_exprs(args, d);
            let own = RustMethodDepView {
                owner: ty,
                method_name: method,
                type_args,
                receiver_ty: if args.len() == 0 {
                    None
                } else {
                    Some(args[0].ty)
                },
            };
            lemma_in_sum(seq![own], rust_deps_in_exprs(args), d);
            lemma_in_one(own, d);
        },
        TypedExprKindView::If { cond, then_stmts, then_expr, else_stmts, else_expr } => {
            lemma_use_in_expr(*cond, d);
            lemma_use_in_stmts(then_stmts, d);
            lemma_use_in_stmts(else_stmts, d);
            if let Some(x) = then_expr {
                lemma_use_in_expr(*x, d);
            }
            if let Some(x) = else_expr {
                lemma_use_in_expr(*x, d);
            }
            let a = rust_deps_in_expr(*cond);
            let b = a + rust_deps_in_stmts(then_stmts);
            let g = b + rust_deps_in_opt(then_expr);
            let f = g + rust_deps_in_stmts(else_stmts);
            lemma_in_sum(a, rust_deps_in_stmts(then_stmts), d);
            lemma_in_sum(b, rust_deps_in_opt(then_expr), d);
            lemma_in_sum(g, rust_deps_in_stmts(else_stmts), d);
            lemma_in_sum(f, rust_deps_in_opt(else_expr), d);
        },
        TypedExprKindView::Ref(inner) => {
            lemma_use_in_expr(*inner, d);
        },
        _ => {},
    }
}

proof fn lemma_use_in_exprs(s: Seq<TypedExprView>, d: RustMethodDepView)
    ensures
        rust_deps_in_exprs(s).contains(d) <==> occurs_in_any(is_use(d), s),
    decreases s, 0int,
{
    let p = is_use(d);
    if s.len() > 0 {
        let before = s.drop_last();
        lemma_use_in_exprs(before, d);
        lemma_use_in_expr(s.last(), d);
        lemma_in_sum(rust_deps_in_exprs(before), rust_deps_in_expr(s.last()), d);
        assert(s[s.len() - 1] == s.last());
        if occurs_in_any(p, before) {
            let i = choose|i: int| 0 <= i < before.len() && occurs(p, #[trigger] before[i]);
            assert(s[i] == before[i]);
        }
        if occurs_in_any(p, s) {
            let i = choose|i: int| 0 <= i < s.len() && occurs(p, #[trigger] s[i]);
            if i < before.len() {
                assert(before[i] == s[i]);
            }
        }
    }
}

proof fn lemma_use_in_fields(s: Seq<(Seq<char>, TypedExprView)>, d: RustMethodDepView)
    ensures
        rust_deps_in_fields(s).contains(d) <==> occurs_in_fields(is_use(d), s),
    decreases s, 0int,
{
    let p = is_use(d);
    if s.len() > 0 {
        let before = s.drop_last();
        lemma_use_in_fields(before, d);
        lemma_use_in_expr(s.last().1, d);
        lemma_in_sum(rust_deps_in_fields(before), rust_deps_in_expr(s.last().1), d);
        assert(s[s.len() - 1] == s.last());
        if occurs_in_fields(p, before) {
            let i = choose|i: int| 0 <= i < before.len() && occurs(p, (#[trigger] before[i]).1);
            assert(s[i] == before[i]);
        }
        if occurs_in_fields(p, s) {
            let i = choose|i: int| 0 <= i < s.len() && occurs(p, (#[trigger] s[i]).1);
            if i < before.len() {
                assert(before[i] == s[i]);
            }
        }
    }
}

proof fn lemma_use_in_stmt(s: TypedStmtView, d: RustMethodDepView)
    ensures
        rust_deps_in_stmt(s).contains(d) <==> occurs_in_stmt(is_use(d), s),
    decreases s, 0int,
{
    match s {
        TypedStmtView::Let { name, expr } => {
            lemma_use_in_expr(expr, d);
        },
        TypedStmtView::ExprStmt(expr) => {
            lemma_use_in_expr(expr, d);
        },
        TypedStmtView::While { cond, body } => {
            lemma_use_in_expr(cond, d);
            lemma_use_in_block(body, d);
            lemma_in_sum(rust_deps_in_expr(cond), rust_deps_in_block(body), d);
        },
        TypedStmtView::Assign { name, expr } => {
            lemma_use_in_expr(expr, d);
        },
    }
}

proof fn lemma_use_in_stmts(s: Seq<TypedStmtView>, d: RustMethodDepView)
    ensures
        rust_deps_in_stmts(s).contains(d) <==> occurs_in_stmts(is_use(d), s),
    decreases s, 0int,
{
    let p = is_use(d);
    if s.len() > 0 {
        let before = s.drop_last();
        lemma_use_in_stmts(before, d);
        lemma_use_in_stmt(s.last(), d);
        lemma_in_sum(rust_deps_in_stmts(before), rust_deps_in_stmt(s.last()), d);
        assert(s[s.len() - 1] == s.last());
        if occurs_in_stmts(p, before) {
            let i = choose|i: int| 0 <= i < before.len() && occurs_in_stmt(p, #[trigger] before[i]);
            assert(s[i] == before[i]);
        }
        if occurs_in_stmts(p, s) {
            let i = choose|i: int| 0 <= i < s.len() && occurs_in_stmt(p, #[trigger] s[i]);
            if i < before.len() {
                assert(before[i] == s[i]);
            }
        }
    }
}

proof fn lemma_use_in_block(b: TypedBlockView, d: RustMethodDepView)
    ensures
        rust_deps_in_block(b).contains(d) <==> occurs_in_block(is_use(d), b),
    decreases b, 0int,
{
    lemma_use_in_stmts(b.stmts, d);
    if let Some(e) = b.ret {
        lemma_use_in_expr(e, d);
        lemma_in_sum(rust_deps_in_stmts(b.stmts), rust_deps_in_expr(e), d);
    }
}

/// A call is found in a body if and only if it stands there.
pub proof fn lemma_calls_found(b: TypedBlockView, c: FnCallView)
    ensures
        calls_in_block(b).contains(c) <==> occurs_in_block(is_call(c), b),
{
    lemma_call_in_block(b, c);
}

/// A use of a method of the Rust side is found in a body if and only if it
/// stands there.
pub proof fn lemma_uses_found(b: TypedBlockView, d: RustMethodDepView)
    ensures
        rust_deps_in_block(b).contains(d) <==> occurs_in_block(is_use(d), b),
{
    lemma_use_in_block(b, d);
}

} // verus!
