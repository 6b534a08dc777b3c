//! What holds of replacing type parameters.
use crate::names::{bind_all, find, lemma_bind_all_increases, lemma_find_put};
use crate::toylang::ast::{BlockView, ExprView, StmtView};
use crate::toylang::callbacks_impl::{instantiated_fn, substitute_params};
use crate::toylang::registry::ToyFunctionView;
use crate::toylang::substitute::{
    binds, binds_all, binds_block, binds_expr, binds_exprs, binds_kind, binds_stmt, binds_stmts, substitute, substitute_all,
    substitute_all_source, substitute_block, substitute_expr, substitute_exprs, substitute_fields, substitute_source, substitute_stmt,
    substitute_stmts, substitute_typed_block, substitute_typed_expr, substitute_typed_exprs, substitute_typed_fields,
    substitute_typed_kind, substitute_typed_stmt, substitute_typed_stmts,
};
use crate::toylang::typed_ast::{
    any_mention_type_param, demote, demote_all, mentions_type_param, ResolvedTypeView, SourceTypeView, TypedBlockView, TypedExprKindView,
    TypedExprView, TypedStmtView,
};
use vstd::prelude::*;

verus! {

broadcast use vstd::seq::group_seq_axioms;

/// Replacing nothing leaves a type as it is.
pub proof fn lemma_nothing_in_source(t: SourceTypeView)
    ensures
        substitute_source(t, Seq::empty()) == t,
    decreases t,
{
    match t {
        SourceTypeView::StructRef { name, type_args } => {
            lemma_nothing_in_sources(type_args);
        },
        SourceTypeView::RustType { name, type_args } => {
            lemma_nothing_in_sources(type_args);
        },
        SourceTypeView::Ref { inner } => {
            lemma_nothing_in_source(*inner);
        },
        _ => {},
    }
}

proof fn lemma_nothing_in_sources(ts: Seq<SourceTypeView>)
    ensures
        substitute_all_source(ts, Seq::empty()) == ts,
    decreases ts,
{
    assert forall|i: int| 0 <= i < ts.len() implies substitute_source(
        #[trigger] ts[i],
        Seq::empty(),
    ) == ts[i] by {
        lemma_nothing_in_source(ts[i]);
    }
    assert(substitute_all_source(ts, Seq::empty()) =~= ts);
}

proof fn lemma_nothing_in_expr(e: ExprView)
    ensures
        substitute_expr(e, Seq::empty()) == e,
    decreases e,
{
    match e {
        ExprView::IntLit(n, ty) => {
            lemma_nothing_in_source(ty);
        },
        ExprView::StructLit { name, type_args, fields } => {
            lemma_nothing_in_sources(type_args);
            assert forall|i: int| 0 <= i < fields.len() implies substitute_expr(
                (#[trigger] fields[i]).1,
                Seq::empty(),
            ) == fields[i].1 by {
                lemma_nothing_in_expr(fields[i].1);
            }
            assert(substitute_fields(fields, Seq::empty()) =~= fields);
        },
        ExprView::FnCall { name, type_args, args } => {
            lemma_nothing_in_sources(type_args);
            lemma_nothing_in_exprs(args);
        },
        ExprView::StaticCall { ty, method, type_args, args } => {
            lemma_nothing_in_sources(type_args);
            lemma_nothing_in_exprs(args);
        },
        ExprView::MethodCall { receiver, method, args } => {
            lemma_nothing_in_expr(*receiver);
            lemma_nothing_in_exprs(args);
        },
        ExprView::FieldAccess { receiver, field } => {
            lemma_nothing_in_expr(*receiver);
        },
        ExprView::BinaryOp { op, left, right } => {
            lemma_nothing_in_expr(*left);
            lemma_nothing_in_expr(*right);
        },
        ExprView::If { cond, then_body, else_body } => {
            lemma_nothing_in_expr(*cond);
            lemma_nothing_in_block(*then_body);
            match else_body {
                Some(b) => {
                    lemma_nothing_in_block(*b);
                },
                None => {},
            }
        },
        ExprView::UnaryNeg(inner) => {
            lemma_nothing_in_expr(*inner);
        },
        ExprView::Ref(inner) => {
            lemma_nothing_in_expr(*inner);
        },
        _ => {},
    }
}

proof fn lemma_nothing_in_exprs(s: Seq<ExprView>)
    ensures
        substitute_exprs(s, Seq::empty()) == s,
    decreases s,
{
    assert forall|i: int| 0 <= i < s.len() implies substitute_expr(
        #[trigger] s[i],
        Seq::empty(),
    ) == s[i] by {
        lemma_nothing_in_expr(s[i]);
    }
    assert(substitute_exprs(s, Seq::empty()) =~= s);
}

proof fn lemma_nothing_in_stmt(s: StmtView)
    ensures
        substitute_stmt(s, Seq::empty()) == s,
    decreases s,
{
    match s {
        StmtView::Let { name, expr } => {
            lemma_nothing_in_expr(expr);
        },
        StmtView::ExprStmt(expr) => {
            lemma_nothing_in_expr(expr);
        },
        StmtView::While { cond, body } => {
            lemma_nothing_in_expr(cond);
            lemma_nothing_in_block(*body);
        },
        StmtView::Assign { name, expr } => {
            lemma_nothing_in_expr(expr);
        },
    }
}

/// Replacing nothing leaves a body as it is.
pub proof fn lemma_nothing_in_block(b: BlockView)
    ensures
        substitute_block(b, Seq::empty()) == b,
    decreases b,
{
    assert forall|i: int| 0 <= i < b.stmts.len() implies substitute_stmt(
        #[trigger] b.stmts[i],
        Seq::empty(),
    ) == b.stmts[i] by {
        lemma_nothing_in_stmt(b.stmts[i]);
    }
    assert(substitute_stmts(b.stmts, Seq::empty()) =~= b.stmts);
    match b.ret {
        Some(e) => {
            lemma_nothing_in_expr(e);
        },
        None => {},
    }
}

/// A function without type parameters is its own instance.
pub proof fn lemma_plain_instance(f: ToyFunctionView)
    requires
        f.type_params.len() == 0,
    ensures
        instantiated_fn(f, Seq::empty()) == f,
{
    let none = bind_all(f.type_params, Seq::<ResolvedTypeView>::empty());
    assert(none =~= Seq::empty());
    assert forall|i: int| 0 <= i < f.params.len() implies substitute_source(
        (#[trigger] f.params[i]).ty,
        none,
    ) == f.params[i].ty by {
        lemma_nothing_in_source(f.params[i].ty);
    }
    assert(substitute_params(f.params, none) =~= f.params);
    match f.return_ty {
        Some(t) => {
            lemma_nothing_in_source(t);
        },
        None => {},
    }
    match f.body {
        Some(b) => {
            lemma_nothing_in_block(b);
        },
        None => {},
    }
    assert(f.type_params =~= Seq::empty());
}

/// To replace in a type and then drop the types of its fields is to drop them
/// and then replace.
pub proof fn lemma_demote_substitute(
    t: ResolvedTypeView,
    subst: Seq<(Seq<char>, ResolvedTypeView)>,
)
    ensures
        demote(substitute(t, subst)) == substitute_source(demote(t), subst),
    decreases t,
{
    match t {
        ResolvedTypeView::Struct { name, type_args, field_types } => {
            lemma_demote_substitute_all(type_args, subst);
        },
        ResolvedTypeView::RustType { name, type_args } => {
            lemma_demote_substitute_all(type_args, subst);
        },
        ResolvedTypeView::Ref { inner } => {
            lemma_demote_substitute(*inner, subst);
        },
        _ => {},
    }
}

proof fn lemma_demote_substitute_all(
    ts: Seq<ResolvedTypeView>,
    subst: Seq<(Seq<char>, ResolvedTypeView)>,
)
    ensures
        demote_all(substitute_all(ts, subst)) == substitute_all_source(demote_all(ts), subst),
    decreases ts,
{
    assert forall|i: int| 0 <= i < ts.len() implies demote(substitute(#[trigger] ts[i], subst))
        == substitute_source(demote(ts[i]), subst) by {
        lemma_demote_substitute(ts[i], subst);
    }
    assert(demote_all(substitute_all(ts, subst)) =~= substitute_all_source(demote_all(ts), subst));
}

/// Whether every type parameter of a type is one of the names.
pub open spec fn only_params(t: SourceTypeView, names: Seq<Seq<char>>) -> bool
    decreases t,
{
    match t {
        SourceTypeView::TypeParam(p) => names.contains(p),
        SourceTypeView::StructRef { name, type_args } => all_only_params(type_args, names),
        SourceTypeView::RustType { name, type_args } => all_only_params(type_args, names),
        SourceTypeView::Ref { inner } => only_params(*inner, names),
        _ => true,
    }
}

/// The same for several types.
pub open spec fn all_only_params(ts: Seq<SourceTypeView>, names: Seq<Seq<char>>) -> bool
    decreases ts,
{
    forall|i: int| 0 <= i < ts.len() ==> only_params(#[trigger] ts[i], names)
}

/// Whether no type parameter occurs in the types.
pub open spec fn all_concrete(ts: Seq<ResolvedTypeView>) -> bool {
    forall|i: int| 0 <= i < ts.len() ==> !mentions_type_param(demote(#[trigger] ts[i]))
}

proof fn lemma_bound_concrete(
    names: Seq<Seq<char>>,
    values: Seq<ResolvedTypeView>,
    p: Seq<char>,
)
    requires
        names.contains(p),
        names.len() <= values.len(),
        all_concrete(values),
    ensures
        find(bind_all(names, values), p) matches Some(r) && !mentions_type_param(demote(r)),
    decreases names.len(),
{
    let before = names.drop_last();
    let entries = bind_all(before, values);
    lemma_bind_all_increases(before, values);
    lemma_find_put(entries, names.last(), values[names.len() - 1], p);
    if p != names.last() {
        let k = choose|k: int| 0 <= k < names.len() && names[k] == p;
        assert(before[k] == p);
        lemma_bound_concrete(before, values, p);
    }
}

proof fn lemma_concrete(
    t: SourceTypeView,
    names: Seq<Seq<char>>,
    values: Seq<ResolvedTypeView>,
)
    requires
        only_params(t, names),
        names.len() <= values.len(),
        all_concrete(values),
    ensures
        !mentions_type_param(substitute_source(t, bind_all(names, values))),
    decreases t,
{
    match t {
        SourceTypeView::TypeParam(p) => {
            lemma_bound_concrete(names, values, p);
        },
        SourceTypeView::StructRef { name, type_args } => {
            lemma_all_concrete(type_args, names, values);
        },
        SourceTypeView::RustType { name, type_args } => {
            lemma_all_concrete(type_args, names, values);
        },
        SourceTypeView::Ref { inner } => {
            lemma_concrete(*inner, names, values);
        },
        _ => {},
    }
}

proof fn lemma_all_concrete(
    ts: Seq<SourceTypeView>,
    names: Seq<Seq<char>>,
    values: Seq<ResolvedTypeView>,
)
    requires
        all_only_params(ts, names),
        names.len() <= values.len(),
        all_concrete(values),
    ensures
        !any_mention_type_param(substitute_all_source(ts, bind_all(names, values))),
    decreases ts,
{
    let subst = bind_all(names, values);
    assert forall|i: int| 0 <= i < ts.len() implies !mentions_type_param(
        #[trigger] substitute_all_source(ts, subst)[i],
    ) by {
        assert(only_params(ts[i], names));
        lemma_concrete(ts[i], names, values);
    }
}

/// The signature of an instance holds no type parameter, where the function
/// uses only its own and each of them is given a type without any.
pub proof fn lemma_instance_concrete(f: ToyFunctionView, args: Seq<ResolvedTypeView>)
    requires
        f.type_params.len() <= args.len(),
        all_concrete(args),
        forall|i: int| 0 <= i < f.params.len() ==> only_params((#[trigger] f.params[i]).ty, f.type_params),
        f.return_ty matches Some(t) ==> only_params(t, f.type_params),
    ensures
        instantiated_fn(f, args).type_params.len() == 0,
        forall|i: int|
            0 <= i < instantiated_fn(f, args).params.len() ==> !mentions_type_param(
                (#[trigger] instantiated_fn(f, args).params[i]).ty,
            ),
        instantiated_fn(f, args).return_ty matches Some(t) ==> !mentions_type_param(t),
{
    assert forall|i: int| 0 <= i < instantiated_fn(f, args).params.len() implies !mentions_type_param(
        (#[trigger] instantiated_fn(f, args).params[i]).ty,
    ) by {
        lemma_concrete(f.params[i].ty, f.type_params, args);
    }
    match f.return_ty {
        Some(t) => {
            lemma_concrete(t, f.type_params, args);
        },
        None => {},
    }
}

/// The types in an expression, in the order in which they stand.
pub open spec fn types_in_expr(e: ExprView) -> Seq<SourceTypeView>
    decreases e,
{
    match e {
        ExprView::IntLit(n, ty) => seq![ty],
        ExprView::StructLit { name, type_args, fields } => type_args + types_in_fields(fields),
        ExprView::FnCall { name, type_args, args } => type_args + types_in_exprs(args),
        ExprView::StaticCall { ty, method, type_args, args } => type_args + types_in_exprs(args),
        ExprView::MethodCall { receiver, method, args } => types_in_expr(*receiver)
            + types_in_exprs(args),
        ExprView::FieldAccess { receiver, field } => types_in_expr(*receiver),
        ExprView::BinaryOp { op, left, right } => types_in_expr(*left) + types_in_expr(*right),
        ExprView::If { cond, then_body, else_body } => types_in_expr(*cond) + types_in_block(
            *then_body,
        ) + (match else_body {
            Some(b) => types_in_block(*b),
            None => Seq::empty(),
        }),
        ExprView::UnaryNeg(inner) => types_in_expr(*inner),
        ExprView::Ref(inner) => types_in_expr(*inner),
        ExprView::BoolLit(_) | ExprView::StringLit(_) | ExprView::ByteStringLit(_) | ExprView::Var(
            _,
        ) => Seq::empty(),
    }
}

/// The types in some expressions.
pub open spec fn types_in_exprs(s: Seq<ExprView>) -> Seq<SourceTypeView>
    decreases s,
{
    if s.len() == 0 {
        Seq::empty()
    } else {
        types_in_exprs(s.drop_last()) + types_in_expr(s.last())
    }
}

/// The types in the fields of a struct literal.
pub open spec fn types_in_fields(s: Seq<(Seq<char>, ExprView)>) -> Seq<SourceTypeView>
    decreases s,
{
    if s.len() == 0 {
        Seq::empty()
    } else {
        types_in_fields(s.drop_last()) + types_in_expr(s.last().1)
    }
}

/// The types in a statement.
pub open spec fn types_in_stmt(s: StmtView) -> Seq<SourceTypeView>
    decreases s,
{
    match s {
        StmtView::Let { name, expr } => types_in_expr(expr),
        StmtView::ExprStmt(expr) => types_in_expr(expr),
        StmtView::While { cond, body } => types_in_expr(cond) + types_in_block(*body),
        StmtView::Assign { name, expr } => types_in_expr(expr),
    }
}

/// The types in some statements.
pub open spec fn types_in_stmts(s: Seq<StmtView>) -> Seq<SourceTypeView>
    decreases s,
{
    if s.len() == 0 {
        Seq::empty()
    } else {
        types_in_stmts(s.drop_last()) + types_in_stmt(s.last())
    }
}

/// The types in a body.
pub open spec fn types_in_block(b: BlockView) -> Seq<SourceTypeView>
    decreases b,
{
    match b.ret {
        Some(e) => types_in_stmts(b.stmts) + types_in_expr(e),
        None => types_in_stmts(b.stmts),
    }
}

proof fn lemma_split(
    a: Seq<SourceTypeView>,
    b: Seq<SourceTypeView>,
    subst: Seq<(Seq<char>, ResolvedTypeView)>,
)
    ensures
        substitute_all_source(a + b, subst) == substitute_all_source(a, subst)
            + substitute_all_source(b, subst),
{
    assert(substitute_all_source(a + b, subst) =~= substitute_all_source(a, subst)
        + substitute_all_source(b, subst));
}

proof fn lemma_types_in_expr(e: ExprView, subst: Seq<(Seq<char>, ResolvedTypeView)>)
    ensures
        types_in_expr(substitute_expr(e, subst)) == substitute_all_source(types_in_expr(e), subst),
    decreases e,
{
    match e {
        ExprView::IntLit(n, ty) => {
            assert(seq![substitute_source(ty, subst)] =~= substitute_all_source(seq![ty], subst));
        },
        ExprView::StructLit { name, type_args, fields } => {
            lemma_types_in_fields(fields, subst);
            lemma_split(type_args, types_in_fields(fields), subst);
        },
        ExprView::FnCall { name, type_args, args } => {
            lemma_types_in_exprs(args, subst);
            lemma_split(type_args, types_in_exprs(args), subst);
        },
        ExprView::StaticCall { ty, method, type_args, args } => {
            lemma_types_in_exprs(args, subst);
            lemma_split(type_args, types_in_exprs(args), subst);
        },
        ExprView::MethodCall { receiver, method, args } => {
            lemma_types_in_expr(*receiver, subst);
            lemma_types_in_exprs(args, subst);
            lemma_split(types_in_expr(*receiver), types_in_exprs(args), subst);
        },
        ExprView::FieldAccess { receiver, field } => {
            lemma_types_in_expr(*receiver, subst);
        },
        ExprView::BinaryOp { op, left, right } => {
            lemma_types_in_expr(*left, subst);
            lemma_types_in_expr(*right, subst);
            lemma_split(types_in_expr(*left), types_in_expr(*right), subst);
        },
        ExprView::If { cond, then_body, else_body } => {
            lemma_types_in_expr(*cond, subst);
            lemma_types_in_block(*then_body, subst);
            let a = types_in_expr(*cond);
            let b = types_in_block(*then_body);
            lemma_split(a, b, subst);
            match else_body {
                Some(x) => {
                    lemma_types_in_block(*x, subst);
                    lemma_split(a + b, types_in_block(*x), subst);
                },
                None => {
                    lemma_split(a + b, Seq::empty(), subst);
                    assert(substitute_all_source(Seq::empty(), subst) =~= Seq::empty());
                },
            }
        },
        ExprView::UnaryNeg(inner) => {
            lemma_types_in_expr(*inner, subst);
        },
        ExprView::Ref(inner) => {
            lemma_types_in_expr(*inner, subst);
        },
        _ => {
            assert(substitute_all_source(Seq::empty(), subst) =~= Seq::empty());
        },
    }
}

proof fn lemma_types_in_exprs(s: Seq<ExprView>, subst: Seq<(Seq<char>, ResolvedTypeView)>)
    ensures
        types_in_exprs(substitute_exprs(s, subst)) == substitute_all_source(
            types_in_exprs(s),
            subst,
        ),
    decreases s,
{
    if s.len() == 0 {
        assert(substitute_all_source(Seq::empty(), subst) =~= Seq::empty());
    } else {
        let out = substitute_exprs(s, subst);
        assert(out.drop_last() =~= substitute_exprs(s.drop_last(), subst));
        assert(out.last() == substitute_expr(s.last(), subst));
        lemma_types_in_exprs(s.drop_last(), subst);
        lemma_types_in_expr(s.last(), subst);
        lemma_split(types_in_exprs(s.drop_last()), types_in_expr(s.last()), subst);
    }
}

proof fn lemma_types_in_fields(
    s: Seq<(Seq<char>, ExprView)>,
    subst: Seq<(Seq<char>, ResolvedTypeView)>,
)
    ensures
        types_in_fields(substitute_fields(s, subst)) == substitute_all_source(
            types_in_fields(s),
            subst,
        ),
    decreases s,
{
    if s.len() == 0 {
        assert(substitute_all_source(Seq::empty(), subst) =~= Seq::empty());
    } else {
        let out = substitute_fields(s, subst);
        assert(out.drop_last() =~= substitute_fields(s.drop_last(), subst));
        assert(out.last().1 == substitute_expr(s.last().1, subst));
        lemma_types_in_fields(s.drop_last(), subst);
        lemma_types_in_expr(s.last().1, subst);
        lemma_split(types_in_fields(s.drop_last()), types_in_expr(s.last().1), subst);
    }
}

proof fn lemma_types_in_stmt(s: StmtView, subst: Seq<(Seq<char>, ResolvedTypeView)>)
    ensures
        types_in_stmt(substitute_stmt(s, subst)) == substitute_all_source(types_in_stmt(s), subst),
    decreases s,
{
    match s {
        StmtView::Let { name, expr } => {
            lemma_types_in_expr(expr, subst);
        },
        StmtView::ExprStmt(expr) => {
            lemma_types_in_expr(expr, subst);
        },
        StmtView::While { cond, body } => {
            lemma_types_in_expr(cond, subst);
            lemma_types_in_block(*body, subst);
            lemma_split(types_in_expr(cond), types_in_block(*body), subst);
        },
        StmtView::Assign { name, expr } => {
            lemma_types_in_expr(expr, subst);
        },
    }
}

proof fn lemma_types_in_stmts(s: Seq<StmtView>, subst: Seq<(Seq<char>, ResolvedTypeView)>)
    ensures
        types_in_stmts(substitute_stmts(s, subst)) == substitute_all_source(
            types_in_stmts(s),
            subst,
        ),
    decreases s,
{
    if s.len() == 0 {
        assert(substitute_all_source(Seq::empty(), subst) =~= Seq::empty());
    } else {
        let out = substitute_stmts(s, subst);
        assert(out.drop_last() =~= substitute_stmts(s.drop_last(), subst));
        assert(out.last() == substitute_stmt(s.last(), subst));
        lemma_types_in_stmts(s.drop_last(), subst);
        lemma_types_in_stmt(s.last(), subst);
        lemma_split(types_in_stmts(s.drop_last()), types_in_stmt(s.last()), subst);
    }
}

proof fn lemma_types_in_block(b: BlockView, subst: Seq<(Seq<char>, ResolvedTypeView)>)
    ensures
        types_in_block(substitute_block(b, subst)) == substitute_all_source(
            types_in_block(b),
            subst,
        ),
    decreases b,
{
    lemma_types_in_stmts(b.stmts, subst);
    match b.ret {
        Some(e) => {
            lemma_types_in_expr(e, subst);
            lemma_split(types_in_stmts(b.stmts), types_in_expr(e), subst);
        },
        None => {},
    }
}

/// The body of an instance holds no type parameter, where it uses only those
/// of the function and each of them is given a type without any.
pub proof fn lemma_instance_body_concrete(
    f: ToyFunctionView,
    body: BlockView,
    args: Seq<ResolvedTypeView>,
)
    requires
        f.body == Some(body),
        f.type_params.len() <= args.len(),
        all_concrete(args),
        all_only_params(types_in_block(body), f.type_params),
    ensures
        instantiated_fn(f, args).body matches Some(b) && !any_mention_type_param(
            types_in_block(b),
        ),
{
    let subst = bind_all(f.type_params, args);
    lemma_types_in_block(body, subst);
    lemma_all_concrete(types_in_block(body), f.type_params, args);
}

proof fn lemma_plain_type(t: ResolvedTypeView, subst: Seq<(Seq<char>, ResolvedTypeView)>)
    requires
        binds(Seq::empty(), t),
    ensures
        substitute(t, subst) == t,
    decreases t,
{
    match t {
        ResolvedTypeView::Struct { name, type_args, field_types } => {
            lemma_plain_types(type_args, subst);
            lemma_plain_types(field_types, subst);
        },
        ResolvedTypeView::RustType { name, type_args } => {
            lemma_plain_types(type_args, subst);
        },
        ResolvedTypeView::Ref { inner } => {
            lemma_plain_type(*inner, subst);
        },
        _ => {},
    }
}

proof fn lemma_plain_types(
    ts: Seq<ResolvedTypeView>,
    subst: Seq<(Seq<char>, ResolvedTypeView)>,
)
    requires
        binds_all(Seq::empty(), ts),
    ensures
        substitute_all(ts, subst) == ts,
    decreases ts,
{
    assert forall|i: int| 0 <= i < ts.len() implies substitute(#[trigger] ts[i], subst)
        == ts[i] by {
        lemma_plain_type(ts[i], subst);
    }
    assert(substitute_all(ts, subst) =~= ts);
}

proof fn lemma_plain_expr(e: TypedExprView, subst: Seq<(Seq<char>, ResolvedTypeView)>)
    requires
        binds_expr(Seq::empty(), e),
    ensures
        substitute_typed_expr(e, subst) == e,
    decreases e, 1int,
{
    lemma_plain_type(e.ty, subst);
    lemma_plain_kind(e.kind, subst);
}

proof fn lemma_plain_kind(k: TypedExprKindView, subst: Seq<(Seq<char>, ResolvedTypeView)>)
    requires
        binds_kind(Seq::empty(), k),
    ensures
        substitute_typed_kind(k, subst) == k,
    decreases k, 0int,
{
    match k {
        TypedExprKindView::StructLit { name, fields } => {
            assert forall|i: int| 0 <= i < fields.len() implies substitute_typed_expr(
                (#[trigger] fields[i]).1,
                subst,
            ) == fields[i].1 by {
                lemma_plain_expr(fields[i].1, subst);
            }
            assert(substitute_typed_fields(fields, subst) =~= fields);
        },
        TypedExprKindView::FnCall { name, type_args, args } => {
            lemma_plain_types(type_args, subst);
            lemma_plain_exprs(args, subst);
        },
        TypedExprKindView::StaticCall { ty, method, type_args, args } => {
            lemma_plain_types(type_args, subst);
            lemma_plain_exprs(args, subst);
        },
        TypedExprKindView::MethodCall { receiver, method, args } => {
            lemma_plain_expr(*receiver, subst);
            lemma_plain_exprs(args, subst);
        },
        TypedExprKindView::FieldAccess { receiver, field } => {
            lemma_plain_expr(*receiver, subst);
        },
        TypedExprKindView::BinaryOp { op, left, right } => {
            lemma_plain_expr(*left, subst);
            lemma_plain_expr(*right, subst);
        },
        TypedExprKindView::If { cond, then_stmts, then_expr, else_stmts, else_expr } => {
            lemma_plain_expr(*cond, subst);
            lemma_plain_stmts(then_stmts, subst);
            lemma_plain_stmts(else_stmts, subst);
            if let Some(x) = then_expr {
                lemma_plain_expr(*x, subst);
            }
            if let Some(x) = else_expr {
                lemma_plain_expr(*x, subst);
            }
        },
        TypedExprKindView::Ref(inner) => {
            lemma_plain_expr(*inner, subst);
        },
        _ => {},
    }
}

proof fn lemma_plain_exprs(s: Seq<TypedExprView>, subst: Seq<(Seq<char>, ResolvedTypeView)>)
    requires
        binds_exprs(Seq::empty(), s),
    ensures
        substitute_typed_exprs(s, subst) == s,
    decreases s, 0int,
{
    assert forall|i: int| 0 <= i < s.len() implies substitute_typed_expr(#[trigger] s[i], subst)
        == s[i] by {
        lemma_plain_expr(s[i], subst);
    }
    assert(substitute_typed_exprs(s, subst) =~= s);
}

proof fn lemma_plain_stmt(s: TypedStmtView, subst: Seq<(Seq<char>, ResolvedTypeView)>)
    requires
        binds_stmt(Seq::empty(), s),
    ensures
        substitute_typed_stmt(s, subst) == s,
    decreases s, 0int,
{
    match s {
        TypedStmtView::Let { name, expr } => {
            lemma_plain_expr(expr, subst);
        },
        TypedStmtView::ExprStmt(expr) => {
            lemma_plain_expr(expr, subst);
        },
        TypedStmtView::While { cond, body } => {
            lemma_plain_expr(cond, subst);
            lemma_plain_body(body, subst);
        },
        TypedStmtView::Assign { name, expr } => {
            lemma_plain_expr(expr, subst);
        },
    }
}

proof fn lemma_plain_stmts(s: Seq<TypedStmtView>, subst: Seq<(Seq<char>, ResolvedTypeView)>)
    requires
        binds_stmts(Seq::empty(), s),
    ensures
        substitute_typed_stmts(s, subst) == s,
    decreases s, 0int,
{
    assert forall|i: int| 0 <= i < s.len() implies substitute_typed_stmt(#[trigger] s[i], subst)
        == s[i] by {
        lemma_plain_stmt(s[i], subst);
    }
    assert(substitute_typed_stmts(s, subst) =~= s);
}

/// Whether no type parameter occurs in a typed body: all that do are bound by
/// nothing at all.
pub open spec fn has_no_type_param(b: TypedBlockView) -> bool {
    binds_block(Seq::empty(), b)
}

/// A typed body in which no type parameter occurs stays as it is, whatever is
/// to be replaced.
pub proof fn lemma_plain_body(b: TypedBlockView, subst: Seq<(Seq<char>, ResolvedTypeView)>)
    requires
        has_no_type_param(b),
    ensures
        substitute_typed_block(b, subst) == b,
    decreases b, 0int,
{
    lemma_plain_stmts(b.stmts, subst);
    if let Some(e) = b.ret {
        lemma_plain_expr(e, subst);
    }
}

} // verus!
