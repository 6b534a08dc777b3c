//! Replacing type parameters by types, in types and in bodies.
use crate::names::{find, NameMap};
use crate::text::Duplicate;
use crate::toylang::ast::{
    clone_bytes, expr_views, field_views, stmt_views, Block, BlockView, Expr, ExprView, Stmt, StmtView,
};
use crate::toylang::registry::ToylangRegistry;
use crate::toylang::typed_ast::{
    demote, resolved_views, source_views, typed_expr_views, typed_field_views, typed_stmt_views, ResolvedType, ResolvedTypeView, SourceType,
    SourceTypeView, TypedBlock, TypedBlockView, TypedExpr, TypedExprKind, TypedExprKindView, TypedExprView, TypedStmt, TypedStmtView,
};
use vstd::prelude::*;

verus! {

broadcast use {vstd::seq::group_seq_axioms, vstd::std_specs::vec::group_vec_axioms};

/// A source type in which the type parameters that `subst` binds are replaced
/// by what they are bound to.
pub open spec fn substitute_source(
    t: SourceTypeView,
    subst: Seq<(Seq<char>, ResolvedTypeView)>,
) -> SourceTypeView
    decreases t,
{
    match t {
        SourceTypeView::TypeParam(p) => match find(subst, p) {
            Some(r) => demote(r),
            None => t,
        },
        SourceTypeView::StructRef { name, type_args } => SourceTypeView::StructRef {
            name,
            type_args: substitute_all_source(type_args, subst),
        },
        SourceTypeView::RustType { name, type_args } => SourceTypeView::RustType {
            name,
            type_args: substitute_all_source(type_args, subst),
        },
        SourceTypeView::Ref { inner } => SourceTypeView::Ref {
            inner: Box::new(substitute_source(*inner, subst)),
        },
        _ => t,
    }
}

/// The same for several types.
pub open spec fn substitute_all_source(
    ts: Seq<SourceTypeView>,
    subst: Seq<(Seq<char>, ResolvedTypeView)>,
) -> Seq<SourceTypeView>
    decreases ts,
{
    Seq::new(
        ts.len(),
        |i: int|
            if 0 <= i < ts.len() {
                substitute_source(ts[i], subst)
            } else {
                arbitrary()
            },
    )
}

/// Replaces the type parameters that `subst` binds by what they are bound to.
pub fn substitute_source_type(t: &SourceType, subst: &NameMap<ResolvedType>) -> (r: SourceType)
    ensures
        r@ == substitute_source(t@, subst@),
    decreases t,
{
    match t {
        SourceType::TypeParam(p) => match subst.get(p) {
            Some(bound) => bound.to_source_type(),
            None => SourceType::TypeParam(p.clone()),
        },
        SourceType::StructRef { name, type_args } => SourceType::StructRef {
            name: name.clone(),
            type_args: substitute_source_types(type_args, subst),
        },
        SourceType::RustType { name, type_args } => SourceType::RustType {
            name: name.clone(),
            type_args: substitute_source_types(type_args, subst),
        },
        SourceType::Ref { inner } => SourceType::Ref {
            inner: Box::new(substitute_source_type(inner, subst)),
        },
        _ => t.duplicate(),
    }
}

/// The same for several types.
pub fn substitute_source_types(ts: &Vec<SourceType>, subst: &NameMap<ResolvedType>) -> (r: Vec<SourceType>)
    ensures
        source_views(r@) == substitute_all_source(source_views(ts@), subst@),
    decreases ts,
{
    let mut r: Vec<SourceType> = Vec::new();
    let mut i: usize = 0;
    while i < ts.len()
        invariant
            i == r@.len(),
            i <= ts@.len(),
            forall|j: int|
                0 <= j < i ==> (#[trigger] r@[j]).model() == substitute_source(ts@[j].model(), subst@),
        decreases ts@.len() - i,
    {
        r.push(substitute_source_type(&ts[i], subst));
        i += 1;
    }
    assert(source_views(r@) =~= substitute_all_source(source_views(ts@), subst@));
    r
}

/// Whether `subst` binds every type parameter of a type.
pub open spec fn binds(subst: Seq<(Seq<char>, ResolvedTypeView)>, t: ResolvedTypeView) -> bool
    decreases t,
{
    match t {
        ResolvedTypeView::TypeParam(p) => find(subst, p) is Some,
        ResolvedTypeView::Struct { name, type_args, field_types } => binds_all(subst, type_args)
            && binds_all(subst, field_types),
        ResolvedTypeView::RustType { name, type_args } => binds_all(subst, type_args),
        ResolvedTypeView::Ref { inner } => binds(subst, *inner),
        _ => true,
    }
}

/// Whether `subst` binds every type parameter of some types.
pub open spec fn binds_all(
    subst: Seq<(Seq<char>, ResolvedTypeView)>,
    ts: Seq<ResolvedTypeView>,
) -> bool
    decreases ts,
{
    forall|i: int| 0 <= i < ts.len() ==> binds(subst, #[trigger] ts[i])
}

/// A type in which the type parameters are replaced by what `subst` binds
/// them to.
pub open spec fn substitute(
    t: ResolvedTypeView,
    subst: Seq<(Seq<char>, ResolvedTypeView)>,
) -> ResolvedTypeView
    decreases t,
{
    match t {
        ResolvedTypeView::TypeParam(p) => match find(subst, p) {
            Some(r) => r,
            None => t,
        },
        ResolvedTypeView::Struct { name, type_args, field_types } => ResolvedTypeView::Struct {
            name,
            type_args: substitute_all(type_args, subst),
            field_types: substitute_all(field_types, subst),
        },
        ResolvedTypeView::RustType { name, type_args } => ResolvedTypeView::RustType {
            name,
            type_args: substitute_all(type_args, subst),
        },
        ResolvedTypeView::Ref { inner } => ResolvedTypeView::Ref {
            inner: Box::new(substitute(*inner, subst)),
        },
        _ => t,
    }
}

/// The same for several types.
pub open spec fn substitute_all(
    ts: Seq<ResolvedTypeView>,
    subst: Seq<(Seq<char>, ResolvedTypeView)>,
) -> Seq<ResolvedTypeView>
    decreases ts,
{
    Seq::new(
        ts.len(),
        |i: int|
            if 0 <= i < ts.len() {
                substitute(ts[i], subst)
            } else {
                arbitrary()
            },
    )
}

/// Replaces the type parameters of a type by what `subst` binds them to.
pub fn substitute_type_params(ty: &ResolvedType, subst: &NameMap<ResolvedType>) -> (r: ResolvedType)
    requires
        binds(subst@, ty@),
    ensures
        r@ == substitute(ty@, subst@),
    decreases ty,
{
    match ty {
        ResolvedType::TypeParam(p) => match subst.get(p) {
            Some(bound) => bound.duplicate(),
            None => ty.duplicate(),
        },
        ResolvedType::Struct { name, type_args, field_types } => ResolvedType::Struct {
            name: name.clone(),
            type_args: substitute_all_type_params(type_args, subst),
            field_types: substitute_all_type_params(field_types, subst),
        },
        ResolvedType::RustType { name, type_args } => ResolvedType::RustType {
            name: name.clone(),
            type_args: substitute_all_type_params(type_args, subst),
        },
        ResolvedType::Ref { inner } => ResolvedType::Ref {
            inner: Box::new(substitute_type_params(inner, subst)),
        },
        _ => ty.duplicate(),
    }
}

fn substitute_all_type_params(ts: &Vec<ResolvedType>, subst: &NameMap<ResolvedType>) -> (r: Vec<
    ResolvedType,
>)
    requires
        binds_all(subst@, resolved_views(ts@)),
    ensures
        resolved_views(r@) == substitute_all(resolved_views(ts@), subst@),
    decreases ts,
{
    let mut r: Vec<ResolvedType> = Vec::new();
    let mut i: usize = 0;
    while i < ts.len()
        invariant
            i == r@.len(),
            i <= ts@.len(),
            binds_all(subst@, resolved_views(ts@)),
            forall|j: int|
                0 <= j < i ==> (#[trigger] r@[j]).model() == substitute(ts@[j].model(), subst@),
        decreases ts@.len() - i,
    {
        assert(binds(subst@, resolved_views(ts@)[i as int]));
        r.push(substitute_type_params(&ts[i], subst));
        i += 1;
    }
    assert(resolved_views(r@) =~= substitute_all(resolved_views(ts@), subst@));
    r
}

/// An expression in which the type parameters that `subst` binds are replaced
/// in every type.
pub open spec fn substitute_expr(e: ExprView, subst: Seq<(Seq<char>, ResolvedTypeView)>) -> ExprView
    decreases e,
{
    match e {
        ExprView::IntLit(n, ty) => ExprView::IntLit(n, substitute_source(ty, subst)),
        ExprView::StructLit { name, type_args, fields } => ExprView::StructLit {
            name,
            type_args: substitute_all_source(type_args, subst),
            fields: substitute_fields(fields, subst),
        },
        ExprView::FnCall { name, type_args, args } => ExprView::FnCall {
            name,
            type_args: substitute_all_source(type_args, subst),
            args: substitute_exprs(args, subst),
        },
        ExprView::StaticCall { ty, method, type_args, args } => ExprView::StaticCall {
            ty,
            method,
            type_args: substitute_all_source(type_args, subst),
            args: substitute_exprs(args, subst),
        },
        ExprView::MethodCall { receiver, method, args } => ExprView::MethodCall {
            receiver: Box::new(substitute_expr(*receiver, subst)),
            method,
            args: substitute_exprs(args, subst),
        },
        ExprView::FieldAccess { receiver, field } => ExprView::FieldAccess {
            receiver: Box::new(substitute_expr(*receiver, subst)),
            field,
        },
        ExprView::BinaryOp { op, left, right } => ExprView::BinaryOp {
            op,
            left: Box::new(substitute_expr(*left, subst)),
            right: Box::new(substitute_expr(*right, subst)),
        },
        ExprView::If { cond, then_body, else_body } => ExprView::If {
            cond: Box::new(substitute_expr(*cond, subst)),
            then_body: Box::new(substitute_block(*then_body, subst)),
            else_body: match else_body {
                Some(b) => Some(Box::new(substitute_block(*b, subst))),
                None => None,
            },
        },
        ExprView::UnaryNeg(inner) => ExprView::UnaryNeg(Box::new(substitute_expr(*inner, subst))),
        ExprView::Ref(inner) => ExprView::Ref(Box::new(substitute_expr(*inner, subst))),
        ExprView::BoolLit(_) | ExprView::StringLit(_) | ExprView::ByteStringLit(_) | ExprView::Var(
            _,
        ) => e,
    }
}

/// The same for several expressions.
pub open spec fn substitute_exprs(
    s: Seq<ExprView>,
    subst: Seq<(Seq<char>, ResolvedTypeView)>,
) -> Seq<ExprView>
    decreases s,
{
    Seq::new(
        s.len(),
        |i: int|
            if 0 <= i < s.len() {
                substitute_expr(s[i], subst)
            } else {
                arbitrary()
            },
    )
}

/// The same for the fields of a struct literal.
pub open spec fn substitute_fields(
    s: Seq<(Seq<char>, ExprView)>,
    subst: Seq<(Seq<char>, ResolvedTypeView)>,
) -> Seq<(Seq<char>, ExprView)>
    decreases s,
{
    Seq::new(
        s.len(),
        |i: int|
            if 0 <= i < s.len() {
                (s[i].0, substitute_expr(s[i].1, subst))
            } else {
                arbitrary()
            },
    )
}

/// The same for a statement.
pub open spec fn substitute_stmt(s: StmtView, subst: Seq<(Seq<char>, ResolvedTypeView)>) -> StmtView
    decreases s,
{
    match s {
        StmtView::Let { name, expr } => StmtView::Let { name, expr: substitute_expr(expr, subst) },
        StmtView::ExprStmt(expr) => StmtView::ExprStmt(substitute_expr(expr, subst)),
        StmtView::While { cond, body } => StmtView::While {
            cond: substitute_expr(cond, subst),
            body: Box::new(substitute_block(*body, subst)),
        },
        StmtView::Assign { name, expr } => StmtView::Assign {
            name,
            expr: substitute_expr(expr, subst),
        },
    }
}

/// The same for several statements.
pub open spec fn substitute_stmts(
    s: Seq<StmtView>,
    subst: Seq<(Seq<char>, ResolvedTypeView)>,
) -> Seq<StmtView>
    decreases s,
{
    Seq::new(
        s.len(),
        |i: int|
            if 0 <= i < s.len() {
                substitute_stmt(s[i], subst)
            } else {
                arbitrary()
            },
    )
}

/// The same for a block.
pub open spec fn substitute_block(
    b: BlockView,
    subst: Seq<(Seq<char>, ResolvedTypeView)>,
) -> BlockView
    decreases b,
{
    BlockView {
        stmts: substitute_stmts(b.stmts, subst),
        ret: match b.ret {
            Some(e) => Some(substitute_expr(e, subst)),
            None => None,
        },
    }
}

/// Replaces the type parameters that `subst` binds in every type of a body.
pub fn substitute_type_params_in_body(body: &Block, subst: &NameMap<ResolvedType>) -> (r: Block)
    ensures
        r@ == substitute_block(body@, subst@),
    decreases body,
{
    Block {
        stmts: subst_stmts(&body.stmts, subst),
        ret: match &body.ret {
            Some(e) => Some(subst_expr(e, subst)),
            None => None,
        },
    }
}

fn subst_expr(e: &Expr, subst: &NameMap<ResolvedType>) -> (r: Expr)
    ensures
        r@ == substitute_expr(e@, subst@),
    decreases e,
{
    match e {
        Expr::IntLit(n, ty) => Expr::IntLit(*n, substitute_source_type(ty, subst)),
        Expr::BoolLit(b) => Expr::BoolLit(*b),
        Expr::StringLit(s) => Expr::StringLit(s.clone()),
        Expr::ByteStringLit(b) => Expr::ByteStringLit(clone_bytes(b)),
        Expr::Var(name) => Expr::Var(name.clone()),
        Expr::StructLit { name, type_args, fields } => Expr::StructLit {
            name: name.clone(),
            type_args: substitute_source_types(type_args, subst),
            fields: subst_fields(fields, subst),
        },
        Expr::FnCall { name, type_args, args } => Expr::FnCall {
            name: name.clone(),
            type_args: substitute_source_types(type_args, subst),
            args: subst_exprs(args, subst),
        },
        Expr::StaticCall { ty, method, type_args, args } => Expr::StaticCall {
            ty: ty.clone(),
            method: method.clone(),
            type_args: substitute_source_types(type_args, subst),
            args: subst_exprs(args, subst),
        },
        Expr::MethodCall { receiver, method, args } => Expr::MethodCall {
            receiver: Box::new(subst_expr(receiver, subst)),
            method: method.clone(),
            args: subst_exprs(args, subst),
        },
        Expr::FieldAccess { receiver, field } => Expr::FieldAccess {
            receiver: Box::new(subst_expr(receiver, subst)),
            field: field.clone(),
        },
        Expr::BinaryOp { op, left, right } => Expr::BinaryOp {
            op: *op,
            left: Box::new(subst_expr(left, subst)),
            right: Box::new(subst_expr(right, subst)),
        },
        Expr::If { cond, then_body, else_body } => Expr::If {
            cond: Box::new(subst_expr(cond, subst)),
            then_body: Box::new(substitute_type_params_in_body(then_body, subst)),
            else_body: match else_body {
                Some(b) => Some(Box::new(substitute_type_params_in_body(b, subst))),
                None => None,
            },
        },
        Expr::UnaryNeg(inner) => Expr::UnaryNeg(Box::new(subst_expr(inner, subst))),
        Expr::Ref(inner) => Expr::Ref(Box::new(subst_expr(inner, subst))),
    }
}

fn subst_exprs(v: &Vec<Expr>, subst: &NameMap<ResolvedType>) -> (r: Vec<Expr>)
    ensures
        expr_views(r@) == substitute_exprs(expr_views(v@), subst@),
    decreases v,
{
    let mut r: Vec<Expr> = Vec::new();
    let mut i: usize = 0;
    while i < v.len()
        invariant
            i == r@.len(),
            i <= v@.len(),
            forall|j: int|
                0 <= j < i ==> (#[trigger] r@[j]).model() == substitute_expr(v@[j].model(), subst@),
        decreases v@.len() - i,
    {
        r.push(subst_expr(&v[i], subst));
        i += 1;
    }
    assert(expr_views(r@) =~= substitute_exprs(expr_views(v@), subst@));
    r
}

fn subst_fields(v: &Vec<(String, Expr)>, subst: &NameMap<ResolvedType>) -> (r: Vec<(String, Expr)>)
    ensures
        field_views(r@) == substitute_fields(field_views(v@), subst@),
    decreases v,
{
    let mut r: Vec<(String, Expr)> = Vec::new();
    let mut i: usize = 0;
    while i < v.len()
        invariant
            i == r@.len(),
            i <= v@.len(),
            forall|j: int|
                0 <= j < i ==> (#[trigger] r@[j]).0@ == v@[j].0@ && r@[j].1.model()
                    == substitute_expr(v@[j].1.model(), subst@),
        decreases v@.len() - i,
    {
        r.push((v[i].0.clone(), subst_expr(&v[i].1, subst)));
        i += 1;
    }
    assert(field_views(r@) =~= substitute_fields(field_views(v@), subst@));
    r
}

fn subst_stmt(s: &Stmt, subst: &NameMap<ResolvedType>) -> (r: Stmt)
    ensures
        r@ == substitute_stmt(s@, subst@),
    decreases s,
{
    match s {
        Stmt::Let { name, expr } => Stmt::Let { name: name.clone(), expr: subst_expr(expr, subst) },
        Stmt::ExprStmt(expr) => Stmt::ExprStmt(subst_expr(expr, subst)),
        Stmt::While { cond, body } => Stmt::While {
            cond: subst_expr(cond, subst),
            body: Box::new(substitute_type_params_in_body(body, subst)),
        },
        Stmt::Assign { name, expr } => Stmt::Assign {
            name: name.clone(),
            expr: subst_expr(expr, subst),
        },
    }
}

fn subst_stmts(v: &Vec<Stmt>, subst: &NameMap<ResolvedType>) -> (r: Vec<Stmt>)
    ensures
        stmt_views(r@) == substitute_stmts(stmt_views(v@), subst@),
    decreases v,
{
    let mut r: Vec<Stmt> = Vec::new();
    let mut i: usize = 0;
    while i < v.len()
        invariant
            i == r@.len(),
            i <= v@.len(),
            forall|j: int|
                0 <= j < i ==> (#[trigger] r@[j]).model() == substitute_stmt(v@[j].model(), subst@),
        decreases v@.len() - i,
    {
        r.push(subst_stmt(&v[i], subst));
        i += 1;
    }
    assert(stmt_views(r@) =~= substitute_stmts(stmt_views(v@), subst@));
    r
}

/// Whether `subst` binds every type parameter of a typed expression.
pub open spec fn binds_expr(subst: Seq<(Seq<char>, ResolvedTypeView)>, e: TypedExprView) -> bool
    decreases e,
{
    binds(subst, e.ty) && binds_kind(subst, e.kind)
}

/// The same for the form of an expression.
pub open spec fn binds_kind(subst: Seq<(Seq<char>, ResolvedTypeView)>, k: TypedExprKindView) -> bool
    decreases k,
{
    match k {
        TypedExprKindView::StructLit { name, fields } => forall|i: int|
            0 <= i < fields.len() ==> binds_expr(subst, (#[trigger] fields[i]).1),
        TypedExprKindView::FnCall { name, type_args, args } => binds_all(subst, type_args)
            && binds_exprs(subst, args),
        TypedExprKindView::StaticCall { ty, method, type_args, args } => binds_all(subst, type_args)
            && binds_exprs(subst, args),
        TypedExprKindView::MethodCall { receiver, method, args } => binds_expr(subst, *receiver)
            && binds_exprs(subst, args),
        TypedExprKindView::FieldAccess { receiver, field } => binds_expr(subst, *receiver),
        TypedExprKindView::BinaryOp { op, left, right } => binds_expr(subst, *left) && binds_expr(
            subst,
            *right,
        ),
        TypedExprKindView::If { cond, then_stmts, then_expr, else_stmts, else_expr } => {
            &&& binds_expr(subst, *cond)
            &&& binds_stmts(subst, then_stmts)
            &&& match then_expr {
                Some(e) => binds_expr(subst, *e),
                None => true,
            }
            &&& binds_stmts(subst, else_stmts)
            &&& match else_expr {
                Some(e) => binds_expr(subst, *e),
                None => true,
            }
        },
        TypedExprKindView::Ref(inner) => binds_expr(subst, *inner),
        TypedExprKindView::IntLit(_) | TypedExprKindView::BoolLit(_) | TypedExprKindView::Var(_)
        | TypedExprKindView::StringLit(_) | TypedExprKindView::ByteStringLit(_) => true,
    }
}

/// The same for several expressions.
pub open spec fn binds_exprs(
    subst: Seq<(Seq<char>, ResolvedTypeView)>,
    s: Seq<TypedExprView>,
) -> bool
    decreases s,
{
    forall|i: int| 0 <= i < s.len() ==> binds_expr(subst, #[trigger] s[i])
}

/// The same for a statement.
pub open spec fn binds_stmt(subst: Seq<(Seq<char>, ResolvedTypeView)>, s: TypedStmtView) -> bool
    decreases s,
{
    match s {
        TypedStmtView::Let { name, expr } => binds_expr(subst, expr),
        TypedStmtView::ExprStmt(expr) => binds_expr(subst, expr),
        TypedStmtView::While { cond, body } => binds_expr(subst, cond) && binds_block(subst, body),
        TypedStmtView::Assign { name, expr } => binds_expr(subst, expr),
    }
}

/// The same for several statements.
pub open spec fn binds_stmts(
    subst: Seq<(Seq<char>, ResolvedTypeView)>,
    s: Seq<TypedStmtView>,
) -> bool
    decreases s,
{
    forall|i: int| 0 <= i < s.len() ==> binds_stmt(subst, #[trigger] s[i])
}

/// The same for a block.
pub open spec fn binds_block(subst: Seq<(Seq<char>, ResolvedTypeView)>, b: TypedBlockView) -> bool
    decreases b,
{
    binds_stmts(subst, b.stmts) && match b.ret {
        Some(e) => binds_expr(subst, e),
        None => true,
    }
}

/// A typed expression in which the type parameters are replaced in every type.
pub open spec fn substitute_typed_expr(
    e: TypedExprView,
    subst: Seq<(Seq<char>, ResolvedTypeView)>,
) -> TypedExprView
    decreases e,
{
    TypedExprView { kind: substitute_typed_kind(e.kind, subst), ty: substitute(e.ty, subst) }
}

/// The same for the form of an expression.
pub open spec fn substitute_typed_kind(
    k: TypedExprKindView,
    subst: Seq<(Seq<char>, ResolvedTypeView)>,
) -> TypedExprKindView
    decreases k,
{
    match k {
        TypedExprKindView::StructLit { name, fields } => TypedExprKindView::StructLit {
            name,
            fields: substitute_typed_fields(fields, subst),
        },
        TypedExprKindView::FnCall { name, type_args, args } => TypedExprKindView::FnCall {
            name,
            type_args: substitute_all(type_args, subst),
            args: substitute_typed_exprs(args, subst),
        },
        TypedExprKindView::StaticCall { ty, method, type_args, args } =>
            TypedExprKindView::StaticCall {
            ty,
            method,
            type_args: substitute_all(type_args, subst),
            args: substitute_typed_exprs(args, subst),
        },
        TypedExprKindView::MethodCall { receiver, method, args } => TypedExprKindView::MethodCall {
            receiver: Box::new(substitute_typed_expr(*receiver, subst)),
            method,
            args: substitute_typed_exprs(args, subst),
        },
        TypedExprKindView::FieldAccess { receiver, field } => TypedExprKindView::FieldAccess {
            receiver: Box::new(substitute_typed_expr(*receiver, subst)),
            field,
        },
        TypedExprKindView::BinaryOp { op, left, right } => TypedExprKindView::BinaryOp {
            op,
            left: Box::new(substitute_typed_expr(*left, subst)),
            right: Box::new(substitute_typed_expr(*right, subst)),
        },
        TypedExprKindView::If { cond, then_stmts, then_expr, else_stmts, else_expr } =>
            TypedExprKindView::If {
            cond: Box::new(substitute_typed_expr(*cond, subst)),
            then_stmts: substitute_typed_stmts(then_stmts, subst),
            then_expr: match then_expr {
                Some(e) => Some(Box::new(substitute_typed_expr(*e, subst))),
                None => None,
            },
            else_stmts: substitute_typed_stmts(else_stmts, subst),
            else_expr: match else_expr {
                Some(e) => Some(Box::new(substitute_typed_expr(*e, subst))),
                None => None,
            },
        },
        TypedExprKindView::Ref(inner) => TypedExprKindView::Ref(
            Box::new(substitute_typed_expr(*inner, subst)),
        ),
        TypedExprKindView::IntLit(_) | TypedExprKindView::BoolLit(_) | TypedExprKindView::Var(_)
        | TypedExprKindView::StringLit(_) | TypedExprKindView::ByteStringLit(_) => k,
    }
}

/// The same for several expressions.
pub open spec fn substitute_typed_exprs(
    s: Seq<TypedExprView>,
    subst: Seq<(Seq<char>, ResolvedTypeView)>,
) -> Seq<TypedExprView>
    decreases s,
{
    Seq::new(
        s.len(),
        |i: int|
            if 0 <= i < s.len() {
                substitute_typed_expr(s[i], subst)
            } else {
                arbitrary()
            },
    )
}

/// The same for the fields of a struct literal.
pub open spec fn substitute_typed_fields(
    s: Seq<(Seq<char>, TypedExprView)>,
    subst: Seq<(Seq<char>, ResolvedTypeView)>,
) -> Seq<(Seq<char>, TypedExprView)>
    decreases s,
{
    Seq::new(
        s.len(),
        |i: int|
            if 0 <= i < s.len() {
                (s[i].0, substitute_typed_expr(s[i].1, subst))
            } else {
                arbitrary()
            },
    )
}

/// The same for a statement.
pub open spec fn substitute_typed_stmt(
    s: TypedStmtView,
    subst: Seq<(Seq<char>, ResolvedTypeView)>,
) -> TypedStmtView
    decreases s,
{
    match s {
        TypedStmtView::Let { name, expr } => TypedStmtView::Let {
            name,
            expr: substitute_typed_expr(expr, subst),
        },
        TypedStmtView::ExprStmt(expr) => TypedStmtView::ExprStmt(
            substitute_typed_expr(expr, subst),
        ),
        TypedStmtView::While { cond, body } => TypedStmtView::While {
            cond: substitute_typed_expr(cond, subst),
            body: substitute_typed_block(body, subst),
        },
        TypedStmtView::Assign { name, expr } => TypedStmtView::Assign {
            name,
            expr: substitute_typed_expr(expr, subst),
        },
    }
}

/// The same for several statements.
pub open spec fn substitute_typed_stmts(
    s: Seq<TypedStmtView>,
    subst: Seq<(Seq<char>, ResolvedTypeView)>,
) -> Seq<TypedStmtView>
    decreases s,
{
    Seq::new(
        s.len(),
        |i: int|
            if 0 <= i < s.len() {
                substitute_typed_stmt(s[i], subst)
            } else {
                arbitrary()
            },
    )
}

/// The same for a block.
pub open spec fn substitute_typed_block(
    b: TypedBlockView,
    subst: Seq<(Seq<char>, ResolvedTypeView)>,
) -> TypedBlockView
    decreases b,
{
    TypedBlockView {
        stmts: substitute_typed_stmts(b.stmts, subst),
        ret: match b.ret {
            Some(e) => Some(substitute_typed_expr(e, subst)),
            None => None,
        },
    }
}

/// Replaces the type parameters in every type of a typed body.
pub fn substitute_in_typed_body(
    body: &TypedBlock,
    subst: &NameMap<ResolvedType>,
    _registry: &ToylangRegistry,
) -> (r: TypedBlock)
    requires
        binds_block(subst@, body@),
    ensures
        r@ == substitute_typed_block(body@, subst@),
{
    subst_typed_block(body, subst)
}

fn subst_typed_block(body: &TypedBlock, subst: &NameMap<ResolvedType>) -> (r: TypedBlock)
    requires
        binds_block(subst@, body@),
    ensures
        r@ == substitute_typed_block(body@, subst@),
    decreases body,
{
    TypedBlock {
        stmts: subst_typed_stmts(&body.stmts, subst),
        ret: match &body.ret {
            Some(e) => Some(subst_typed_expr(e, subst)),
            None => None,
        },
    }
}

fn subst_typed_expr(e: &TypedExpr, subst: &NameMap<ResolvedType>) -> (r: TypedExpr)
    requires
        binds_expr(subst@, e@),
    ensures
        r@ == substitute_typed_expr(e@, subst@),
    decreases e,
{
    TypedExpr {
        kind: subst_typed_kind(&e.kind, subst),
        ty: substitute_type_params(&e.ty, subst),
    }
}

fn subst_typed_kind(k: &TypedExprKind, subst: &NameMap<ResolvedType>) -> (r: TypedExprKind)
    requires
        binds_kind(subst@, k@),
    ensures
        r@ == substitute_typed_kind(k@, subst@),
    decreases k,
{
    match k {
        TypedExprKind::IntLit(n) => TypedExprKind::IntLit(*n),
        TypedExprKind::BoolLit(b) => TypedExprKind::BoolLit(*b),
        TypedExprKind::StringLit(s) => TypedExprKind::StringLit(s.clone()),
        TypedExprKind::ByteStringLit(b) => TypedExprKind::ByteStringLit(clone_bytes(b)),
        TypedExprKind::Var(name) => TypedExprKind::Var(name.clone()),
        TypedExprKind::StructLit { name, fields } => TypedExprKind::StructLit {
            name: name.clone(),
            fields: subst_typed_fields(fields, subst),
        },
        TypedExprKind::FnCall { name, type_args, args } => TypedExprKind::FnCall {
            name: name.clone(),
            type_args: substitute_all_type_params(type_args, subst),
            args: subst_typed_exprs(args, subst),
        },
        TypedExprKind::StaticCall { ty, method, type_args, args } => TypedExprKind::StaticCall {
            ty: ty.clone(),
            method: method.clone(),
            type_args: substitute_all_type_params(type_args, subst),
            args: subst_typed_exprs(args, subst),
        },
        TypedExprKind::MethodCall { receiver, method, args } => TypedExprKind::MethodCall {
            receiver: Box::new(subst_typed_expr(receiver, subst)),
            method: method.clone(),
            args: subst_typed_exprs(args, subst),
        },
        TypedExprKind::FieldAccess { receiver, field } => TypedExprKind::FieldAccess {
            receiver: Box::new(subst_typed_expr(receiver, subst)),
            field: field.clone(),
        },
        TypedExprKind::BinaryOp { op, left, right } => TypedExprKind::BinaryOp {
            op: *op,
            left: Box::new(subst_typed_expr(left, subst)),
            right: Box::new(subst_typed_expr(right, subst)),
        },
        TypedExprKind::If { cond, then_stmts, then_expr, else_stmts, else_expr } =>
            TypedExprKind::If {
            cond: Box::new(subst_typed_expr(cond, subst)),
            then_stmts: subst_typed_stmts(then_stmts, subst),
            then_expr: match then_expr {
                Some(e) => Some(Box::new(subst_typed_expr(e, subst))),
                None => None,
            },
            else_stmts: subst_typed_stmts(else_stmts, subst),
            else_expr: match else_expr {
                Some(e) => Some(Box::new(subst_typed_expr(e, subst))),
                None => None,
            },
        },
        TypedExprKind::Ref(inner) => TypedExprKind::Ref(Box::new(subst_typed_expr(inner, subst))),
    }
}

fn subst_typed_exprs(v: &Vec<TypedExpr>, subst: &NameMap<ResolvedType>) -> (r: Vec<TypedExpr>)
    requires
        binds_exprs(subst@, typed_expr_views(v@)),
    ensures
        typed_expr_views(r@) == substitute_typed_exprs(typed_expr_views(v@), subst@),
    decreases v,
{
    let mut r: Vec<TypedExpr> = Vec::new();
    let mut i: usize = 0;
    while i < v.len()
        invariant
            i == r@.len(),
            i <= v@.len(),
            binds_exprs(subst@, typed_expr_views(v@)),
            forall|j: int|
                0 <= j < i ==> (#[trigger] r@[j]).model() == substitute_typed_expr(
                    v@[j].model(),
                    subst@,
                ),
        decreases v@.len() - i,
    {
        assert(binds_expr(subst@, typed_expr_views(v@)[i as int]));
        r.push(subst_typed_expr(&v[i], subst));
        i += 1;
    }
    assert(typed_expr_views(r@) =~= substitute_typed_exprs(typed_expr_views(v@), subst@));
    r
}

fn subst_typed_fields(v: &Vec<(String, TypedExpr)>, subst: &NameMap<ResolvedType>) -> (r: Vec<
    (String, TypedExpr),
>)
    requires
        forall|i: int|
            0 <= i < v@.len() ==> binds_expr(subst@, (#[trigger] typed_field_views(v@)[i]).1),
    ensures
        typed_field_views(r@) == substitute_typed_fields(typed_field_views(v@), subst@),
    decreases v,
{
    let mut r: Vec<(String, TypedExpr)> = Vec::new();
    let mut i: usize = 0;
    while i < v.len()
        invariant
            i == r@.len(),
            i <= v@.len(),
            forall|j: int|
                0 <= j < v@.len() ==> binds_expr(subst@, (#[trigger] typed_field_views(v@)[j]).1),
            forall|j: int|
                0 <= j < i ==> (#[trigger] r@[j]).0@ == v@[j].0@ && r@[j].1.model()
                    == substitute_typed_expr(v@[j].1.model(), subst@),
        decreases v@.len() - i,
    {
        assert(binds_expr(subst@, typed_field_views(v@)[i as int].1));
        r.push((v[i].0.clone(), subst_typed_expr(&v[i].1, subst)));
        i += 1;
    }
    assert(typed_field_views(r@) =~= substitute_typed_fields(typed_field_views(v@), subst@));
    r
}

fn subst_typed_stmt(s: &TypedStmt, subst: &NameMap<ResolvedType>) -> (r: TypedStmt)
    requires
        binds_stmt(subst@, s@),
    ensures
        r@ == substitute_typed_stmt(s@, subst@),
    decreases s,
{
    match s {
        TypedStmt::Let { name, expr } => TypedStmt::Let {
            name: name.clone(),
            expr: subst_typed_expr(expr, subst),
        },
        TypedStmt::ExprStmt(expr) => TypedStmt::ExprStmt(subst_typed_expr(expr, subst)),
        TypedStmt::While { cond, body } => TypedStmt::While {
            cond: subst_typed_expr(cond, subst),
            body: subst_typed_block(body, subst),
        },
        TypedStmt::Assign { name, expr } => TypedStmt::Assign {
            name: name.clone(),
            expr: subst_typed_expr(expr, subst),
        },
    }
}

fn subst_typed_stmts(v: &Vec<TypedStmt>, subst: &NameMap<ResolvedType>) -> (r: Vec<TypedStmt>)
    requires
        binds_stmts(subst@, typed_stmt_views(v@)),
    ensures
        typed_stmt_views(r@) == substitute_typed_stmts(typed_stmt_views(v@), subst@),
    decreases v,
{
    let mut r: Vec<TypedStmt> = Vec::new();
    let mut i: usize = 0;
    while i < v.len()
        invariant
            i == r@.len(),
            i <= v@.len(),
            binds_stmts(subst@, typed_stmt_views(v@)),
            forall|j: int|
                0 <= j < i ==> (#[trigger] r@[j]).model() == substitute_typed_stmt(
                    v@[j].model(),
                    subst@,
                ),
        decreases v@.len() - i,
    {
        assert(binds_stmt(subst@, typed_stmt_views(v@)[i as int]));
        r.push(subst_typed_stmt(&v[i], subst));
        i += 1;
    }
    assert(typed_stmt_views(r@) =~= substitute_typed_stmts(typed_stmt_views(v@), subst@));
    r
}

} // verus!
