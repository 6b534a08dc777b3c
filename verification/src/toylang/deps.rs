//! What a typed body calls: functions of toylang, and methods of the Rust side.
use crate::text::{views, Duplicate};
use crate::toylang::typed_ast::{
    clone_resolved_types, resolved_views, typed_expr_views, typed_field_views, typed_stmt_views, ResolvedType, ResolvedTypeView, TypedBlock,
    TypedBlockView, TypedExpr, TypedExprKind, TypedExprKindView, TypedExprView, TypedStmt, TypedStmtView,
};
use vstd::prelude::*;

verus! {

broadcast use {vstd::seq::group_seq_axioms, vstd::std_specs::vec::group_vec_axioms};

/// A call of a function by name.
#[derive(Debug, PartialEq)]
pub struct FnCall {
    pub name: String,
    pub type_args: Vec<ResolvedType>,
}

/// A use of a method of the Rust side.
#[derive(Debug, PartialEq)]
pub struct RustMethodDep {
    /// The type or trait of the method.
    pub owner: String,
    pub method_name: String,
    pub type_args: Vec<ResolvedType>,
    /// The type of the first argument of a call by path, which is the
    /// receiver where `owner` is a trait.
    pub receiver_ty: Option<ResolvedType>,
}

/// What a [`FnCall`] says.
pub struct FnCallView {
    pub name: Seq<char>,
    pub type_args: Seq<ResolvedTypeView>,
}

/// What a [`RustMethodDep`] says.
pub struct RustMethodDepView {
    pub owner: Seq<char>,
    pub method_name: Seq<char>,
    pub type_args: Seq<ResolvedTypeView>,
    pub receiver_ty: Option<ResolvedTypeView>,
}

impl View for FnCall {
    type V = FnCallView;

    open spec fn view(&self) -> FnCallView {
        FnCallView { name: self.name@, type_args: resolved_views(self.type_args@) }
    }
}

impl View for RustMethodDep {
    type V = RustMethodDepView;

    open spec fn view(&self) -> RustMethodDepView {
        RustMethodDepView {
            owner: self.owner@,
            method_name: self.method_name@,
            type_args: resolved_views(self.type_args@),
            receiver_ty: match self.receiver_ty {
                Some(t) => Some(t@),
                None => None,
            },
        }
    }
}

/// The calls by name in an expression, in the order in which they stand.
pub open spec fn calls_in_expr(e: TypedExprView) -> Seq<FnCallView>
    decreases e, 1int,
{
    calls_in_kind(e.kind)
}

/// The same for the form of an expression.
pub open spec fn calls_in_kind(k: TypedExprKindView) -> Seq<FnCallView>
    decreases k, 0int,
{
    match k {
        TypedExprKindView::FnCall { name, type_args, args } => seq![FnCallView { name, type_args }]
            + calls_in_exprs(args),
        TypedExprKindView::StructLit { name, fields } => calls_in_fields(fields),
        TypedExprKindView::MethodCall { receiver, method, args } => calls_in_expr(*receiver)
            + calls_in_exprs(args),
        TypedExprKindView::FieldAccess { receiver, field } => calls_in_expr(*receiver),
        TypedExprKindView::BinaryOp { op, left, right } => calls_in_expr(*left) + calls_in_expr(
            *right,
        ),
        TypedExprKindView::StaticCall { ty, method, type_args, args } => calls_in_exprs(args),
        TypedExprKindView::If { cond, then_stmts, then_expr, else_stmts, else_expr } =>
            calls_in_expr(*cond) + calls_in_stmts(then_stmts) + calls_in_opt(then_expr)
                + calls_in_stmts(else_stmts) + calls_in_opt(else_expr),
        TypedExprKindView::Ref(inner) => calls_in_expr(*inner),
        TypedExprKindView::IntLit(_) | TypedExprKindView::BoolLit(_) | TypedExprKindView::Var(_)
        | TypedExprKindView::StringLit(_) | TypedExprKindView::ByteStringLit(_) => Seq::empty(),
    }
}

/// The same for several expressions.
pub open spec fn calls_in_exprs(s: Seq<TypedExprView>) -> Seq<FnCallView>
    decreases s, 0int,
{
    if s.len() == 0 {
        Seq::empty()
    } else {
        calls_in_exprs(s.drop_last()) + calls_in_expr(s.last())
    }
}

/// The same for the fields of a struct literal.
pub open spec fn calls_in_fields(s: Seq<(Seq<char>, TypedExprView)>) -> Seq<FnCallView>
    decreases s, 0int,
{
    if s.len() == 0 {
        Seq::empty()
    } else {
        calls_in_fields(s.drop_last()) + calls_in_expr(s.last().1)
    }
}

/// The same for an expression that may be missing.
pub open spec fn calls_in_opt(e: Option<Box<TypedExprView>>) -> Seq<FnCallView>
    decreases e, 0int,
{
    match e {
        Some(x) => calls_in_expr(*x),
        None => Seq::empty(),
    }
}

/// The same for a statement.
pub open spec fn calls_in_stmt(s: TypedStmtView) -> Seq<FnCallView>
    decreases s, 0int,
{
    match s {
        TypedStmtView::Let { name, expr } => calls_in_expr(expr),
        TypedStmtView::ExprStmt(expr) => calls_in_expr(expr),
        TypedStmtView::While { cond, body } => calls_in_expr(cond) + calls_in_block(body),
        TypedStmtView::Assign { name, expr } => calls_in_expr(expr),
    }
}

/// The same for several statements.
pub open spec fn calls_in_stmts(s: Seq<TypedStmtView>) -> Seq<FnCallView>
    decreases s, 0int,
{
    if s.len() == 0 {
        Seq::empty()
    } else {
        calls_in_stmts(s.drop_last()) + calls_in_stmt(s.last())
    }
}

/// The same for a block.
pub open spec fn calls_in_block(b: TypedBlockView) -> Seq<FnCallView>
    decreases b, 0int,
{
    match b.ret {
        Some(e) => calls_in_stmts(b.stmts) + calls_in_expr(e),
        None => calls_in_stmts(b.stmts),
    }
}

/// The Rust type, name and arguments, that a value of this type or a
/// reference to it has.
pub open spec fn rust_type_of(ty: ResolvedTypeView) -> Option<(Seq<char>, Seq<ResolvedTypeView>)> {
    crate::toylang::type_resolve::rust_receiver(ty)
}

/// The methods of the Rust side that an expression uses, in the order in
/// which they stand.
pub open spec fn rust_deps_in_expr(e: TypedExprView) -> Seq<RustMethodDepView>
    decreases e, 1int,
{
    rust_deps_in_kind(e.kind)
}

/// The same for the form of an expression.
pub open spec fn rust_deps_in_kind(k: TypedExprKindView) -> Seq<RustMethodDepView>
    decreases k, 0int,
{
    match k {
        TypedExprKindView::FnCall { name, type_args, args } => rust_deps_in_exprs(args),
        TypedExprKindView::StructLit { name, fields } => rust_deps_in_fields(fields),
        TypedExprKindView::MethodCall { receiver, method, args } => (match rust_type_of(
            receiver.ty,
        ) {
            Some((owner, type_args)) => seq![
                RustMethodDepView { owner, method_name: method, type_args, receiver_ty: None },
            ],
            None => Seq::empty(),
        }) + rust_deps_in_expr(*receiver) + rust_deps_in_exprs(args),
        TypedExprKindView::FieldAccess { receiver, field } => rust_deps_in_expr(*receiver),
        TypedExprKindView::BinaryOp { op, left, right } => rust_deps_in_expr(*left)
            + rust_deps_in_expr(*right),
        TypedExprKindView::StaticCall { ty, method, type_args, args } => seq![
            RustMethodDepView {
                owner: ty,
                method_name: method,
                type_args,
                receiver_ty: if args.len() == 0 {
                    None
                } else {
                    Some(args[0].ty)
                },
            },
        ] + rust_deps_in_exprs(args),
        TypedExprKindView::If { cond, then_stmts, then_expr, else_stmts, else_expr } =>
            rust_deps_in_expr(*cond) + rust_deps_in_stmts(then_stmts) + rust_deps_in_opt(then_expr)
                + rust_deps_in_stmts(else_stmts) + rust_deps_in_opt(else_expr),
        TypedExprKindView::Ref(inner) => rust_deps_in_expr(*inner),
        TypedExprKindView::IntLit(_) | TypedExprKindView::BoolLit(_) | TypedExprKindView::Var(_)
        | TypedExprKindView::StringLit(_) | TypedExprKindView::ByteStringLit(_) => Seq::empty(),
    }
}

/// The same for several expressions.
pub open spec fn rust_deps_in_exprs(s: Seq<TypedExprView>) -> Seq<RustMethodDepView>
    decreases s, 0int,
{
    if s.len() == 0 {
        Seq::empty()
    } else {
        rust_deps_in_exprs(s.drop_last()) + rust_deps_in_expr(s.last())
    }
}

/// The same for the fields of a struct literal.
pub open spec fn rust_deps_in_fields(s: Seq<(Seq<char>, TypedExprView)>) -> Seq<RustMethodDepView>
    decreases s, 0int,
{
    if s.len() == 0 {
        Seq::empty()
    } else {
        rust_deps_in_fields(s.drop_last()) + rust_deps_in_expr(s.last().1)
    }
}

/// The same for an expression that may be missing.
pub open spec fn rust_deps_in_opt(e: Option<Box<TypedExprView>>) -> Seq<RustMethodDepView>
    decreases e, 0int,
{
    match e {
        Some(x) => rust_deps_in_expr(*x),
        None => Seq::empty(),
    }
}

/// The same for a statement.
pub open spec fn rust_deps_in_stmt(s: TypedStmtView) -> Seq<RustMethodDepView>
    decreases s, 0int,
{
    match s {
        TypedStmtView::Let { name, expr } => rust_deps_in_expr(expr),
        TypedStmtView::ExprStmt(expr) => rust_deps_in_expr(expr),
        TypedStmtView::While { cond, body } => rust_deps_in_expr(cond) + rust_deps_in_block(body),
        TypedStmtView::Assign { name, expr } => rust_deps_in_expr(expr),
    }
}

/// The same for several statements.
pub open spec fn rust_deps_in_stmts(s: Seq<TypedStmtView>) -> Seq<RustMethodDepView>
    decreases s, 0int,
{
    if s.len() == 0 {
        Seq::empty()
    } else {
        rust_deps_in_stmts(s.drop_last()) + rust_deps_in_stmt(s.last())
    }
}

/// The same for a block.
pub open spec fn rust_deps_in_block(b: TypedBlockView) -> Seq<RustMethodDepView>
    decreases b, 0int,
{
    match b.ret {
        Some(e) => rust_deps_in_stmts(b.stmts) + rust_deps_in_expr(e),
        None => rust_deps_in_stmts(b.stmts),
    }
}

/// What was found so far.
pub struct Found {
    pub fn_calls: Vec<FnCall>,
    pub rust_method_deps: Vec<RustMethodDep>,
}

impl Found {
    /// Nothing found yet.
    pub fn new() -> (r: Self)
        ensures
            r.calls() == Seq::<FnCallView>::empty(),
            r.deps() == Seq::<RustMethodDepView>::empty(),
    {
        let r = Found { fn_calls: Vec::new(), rust_method_deps: Vec::new() };
        assert(r.calls() =~= Seq::empty());
        assert(r.deps() =~= Seq::empty());
        r
    }

    /// The calls that were found.
    pub open spec fn calls(&self) -> Seq<FnCallView> {
        views(self.fn_calls@)
    }

    /// The uses of the Rust side that were found.
    pub open spec fn deps(&self) -> Seq<RustMethodDepView> {
        views(self.rust_method_deps@)
    }

    fn push_call(&mut self, call: FnCall)
        ensures
            final(self).calls() == old(self).calls().push(call@),
            final(self).deps() == old(self).deps(),
    {
        let ghost before = self.calls();
        let ghost view = call@;
        self.fn_calls.push(call);
        assert(self.calls() =~= before.push(view));
    }

    fn push_dep(&mut self, dep: RustMethodDep)
        ensures
            final(self).calls() == old(self).calls(),
            final(self).deps() == old(self).deps().push(dep@),
    {
        let ghost before = self.deps();
        let ghost view = dep@;
        self.rust_method_deps.push(dep);
        assert(self.deps() =~= before.push(view));
    }

    fn walk_expr(&mut self, e: &TypedExpr)
        ensures
            final(self).calls() == old(self).calls() + calls_in_expr(e@),
            final(self).deps() == old(self).deps() + rust_deps_in_expr(e@),
        decreases e, 1int,
    {
        let ghost c0 = self.calls();
        let ghost d0 = self.deps();
        match &e.kind {
            TypedExprKind::FnCall { name, type_args, args } => {
                self.push_call(
                    FnCall { name: name.clone(), type_args: clone_resolved_types(type_args) },
                );
                self.walk_exprs(args);
            },
            TypedExprKind::StructLit { fields, .. } => {
                self.walk_fields(fields);
            },
            TypedExprKind::MethodCall { receiver, method, args } => {
                self.note_method(&receiver.ty, method);
                self.walk_expr(receiver);
                self.walk_exprs(args);
            },
            TypedExprKind::FieldAccess { receiver, .. } => {
                self.walk_expr(receiver);
            },
            TypedExprKind::BinaryOp { left, right, .. } => {
                self.walk_expr(left);
                self.walk_expr(right);
            },
            TypedExprKind::StaticCall { ty, method, type_args, args } => {
                assert(typed_expr_views(args@).len() == args@.len());
                let receiver_ty = if args.len() == 0 {
                    None
                } else {
                    assert(typed_expr_views(args@)[0].ty == args@[0].ty@);
                    Some(args[0].ty.duplicate())
                };
                self.push_dep(
                    RustMethodDep {
                        owner: ty.clone(),
                        method_name: method.clone(),
                        type_args: clone_resolved_types(type_args),
                        receiver_ty,
                    },
                );
                self.walk_exprs(args);
            },
            TypedExprKind::If { cond, then_stmts, then_expr, else_stmts, else_expr } => {
                self.walk_expr(cond);
                self.walk_stmts(then_stmts);
                self.walk_opt(then_expr);
                self.walk_stmts(else_stmts);
                self.walk_opt(else_expr);
            },
            TypedExprKind::Ref(inner) => {
                self.walk_expr(inner);
            },
            _ => {},
        }
        assert(self.calls() =~= c0 + calls_in_expr(e@));
        assert(self.deps() =~= d0 + rust_deps_in_expr(e@));
    }

    /// Notes a method call on a value of type `ty`, if that is a Rust type.
    fn note_method(&mut self, ty: &ResolvedType, method: &String)
        ensures
            final(self).calls() == old(self).calls(),
            final(self).deps() == old(self).deps() + (match rust_type_of(ty@) {
                Some((owner, type_args)) => seq![
                    RustMethodDepView {
                        owner,
                        method_name: method@,
                        type_args,
                        receiver_ty: None,
                    },
                ],
                None => Seq::empty(),
            }),
    {
        proof {
            reveal_with_fuel(ResolvedType::model, 2);
        }
        let ghost d0 = self.deps();
        let target = match ty {
            ResolvedType::RustType { .. } => ty,
            ResolvedType::Ref { inner } => &**inner,
            _ => ty,
        };
        match target {
            ResolvedType::RustType { name, type_args } => {
                self.push_dep(
                    RustMethodDep {
                        owner: name.clone(),
                        method_name: method.clone(),
                        type_args: clone_resolved_types(type_args),
                        receiver_ty: None,
                    },
                );
            },
            _ => {
                assert(self.deps() =~= d0 + Seq::<RustMethodDepView>::empty());
            },
        }
    }

    fn walk_opt(&mut self, e: &Option<Box<TypedExpr>>)
        ensures
            final(self).calls() == old(self).calls() + calls_in_opt(
                match *e {
                    Some(x) => Some(Box::new(x.model())),
                    None => None,
                },
            ),
            final(self).deps() == old(self).deps() + rust_deps_in_opt(
                match *e {
                    Some(x) => Some(Box::new(x.model())),
                    None => None,
                },
            ),
        decreases e, 0int,
    {
        let ghost c0 = self.calls();
        let ghost d0 = self.deps();
        match e {
            Some(x) => {
                self.walk_expr(x);
            },
            None => {
                assert(self.calls() =~= c0 + Seq::<FnCallView>::empty());
                assert(self.deps() =~= d0 + Seq::<RustMethodDepView>::empty());
            },
        }
    }

    fn walk_exprs(&mut self, v: &Vec<TypedExpr>)
        ensures
            final(self).calls() == old(self).calls() + calls_in_exprs(typed_expr_views(v@)),
            final(self).deps() == old(self).deps() + rust_deps_in_exprs(typed_expr_views(v@)),
        decreases v, 0int,
    {
        let ghost c0 = self.calls();
        let ghost d0 = self.deps();
        let ghost all = typed_expr_views(v@);
        let mut i: usize = 0;
        assert(all.take(0) =~= Seq::empty());
        assert(self.calls() =~= c0 + calls_in_exprs(all.take(0)));
        assert(self.deps() =~= d0 + rust_deps_in_exprs(all.take(0)));
        while i < v.len()
            invariant
                i <= v@.len(),
                all == typed_expr_views(v@),
                self.calls() == c0 + calls_in_exprs(all.take(i as int)),
                self.deps() == d0 + rust_deps_in_exprs(all.take(i as int)),
            decreases v@.len() - i,
        {
            self.walk_expr(&v[i]);
            proof {
                assert(all.take(i + 1).drop_last() =~= all.take(i as int));
                assert(all.take(i + 1).last() == v@[i as int].model());
                assert(self.calls() =~= c0 + calls_in_exprs(all.take(i + 1)));
                assert(self.deps() =~= d0 + rust_deps_in_exprs(all.take(i + 1)));
            }
            i += 1;
        }
        assert(all.take(v@.len() as int) =~= all);
    }

    fn walk_fields(&mut self, v: &Vec<(String, TypedExpr)>)
        ensures
            final(self).calls() == old(self).calls() + calls_in_fields(typed_field_views(v@)),
            final(self).deps() == old(self).deps() + rust_deps_in_fields(typed_field_views(v@)),
        decreases v, 0int,
    {
        let ghost c0 = self.calls();
        let ghost d0 = self.deps();
        let ghost all = typed_field_views(v@);
        let mut i: usize = 0;
        assert(all.take(0) =~= Seq::empty());
        assert(self.calls() =~= c0 + calls_in_fields(all.take(0)));
        assert(self.deps() =~= d0 + rust_deps_in_fields(all.take(0)));
        while i < v.len()
            invariant
                i <= v@.len(),
                all == typed_field_views(v@),
                self.calls() == c0 + calls_in_fields(all.take(i as int)),
                self.deps() == d0 + rust_deps_in_fields(all.take(i as int)),
            decreases v@.len() - i,
        {
            self.walk_expr(&v[i].1);
            proof {
                assert(all.take(i + 1).drop_last() =~= all.take(i as int));
                assert(all.take(i + 1).last().1 == v@[i as int].1.model());
                assert(self.calls() =~= c0 + calls_in_fields(all.take(i + 1)));
                assert(self.deps() =~= d0 + rust_deps_in_fields(all.take(i + 1)));
            }
            i += 1;
        }
        assert(all.take(v@.len() as int) =~= all);
    }

    fn walk_stmt(&mut self, s: &TypedStmt)
        ensures
            final(self).calls() == old(self).calls() + calls_in_stmt(s@),
            final(self).deps() == old(self).deps() + rust_deps_in_stmt(s@),
        decreases s, 0int,
    {
        let ghost c0 = self.calls();
        let ghost d0 = self.deps();
        match s {
            TypedStmt::Let { expr, .. } => {
                self.walk_expr(expr);
            },
            TypedStmt::ExprStmt(expr) => {
                self.walk_expr(expr);
            },
            TypedStmt::While { cond, body } => {
                self.walk_expr(cond);
                self.walk_block(body);
            },
            TypedStmt::Assign { expr, .. } => {
                self.walk_expr(expr);
            },
        }
        assert(self.calls() =~= c0 + calls_in_stmt(s@));
        assert(self.deps() =~= d0 + rust_deps_in_stmt(s@));
    }

    fn walk_stmts(&mut self, v: &Vec<TypedStmt>)
        ensures
            final(self).calls() == old(self).calls() + calls_in_stmts(typed_stmt_views(v@)),
            final(self).deps() == old(self).deps() + rust_deps_in_stmts(typed_stmt_views(v@)),
        decreases v, 0int,
    {
        let ghost c0 = self.calls();
        let ghost d0 = self.deps();
        let ghost all = typed_stmt_views(v@);
        let mut i: usize = 0;
        assert(all.take(0) =~= Seq::empty());
        assert(self.calls() =~= c0 + calls_in_stmts(all.take(0)));
        assert(self.deps() =~= d0 + rust_deps_in_stmts(all.take(0)));
        while i < v.len()
            invariant
                i <= v@.len(),
                all == typed_stmt_views(v@),
                self.calls() == c0 + calls_in_stmts(all.take(i as int)),
                self.deps() == d0 + rust_deps_in_stmts(all.take(i as int)),
            decreases v@.len() - i,
        {
            self.walk_stmt(&v[i]);
            proof {
                assert(all.take(i + 1).drop_last() =~= all.take(i as int));
                assert(all.take(i + 1).last() == v@[i as int].model());
                assert(self.calls() =~= c0 + calls_in_stmts(all.take(i + 1)));
                assert(self.deps() =~= d0 + rust_deps_in_stmts(all.take(i + 1)));
            }
            i += 1;
        }
        assert(all.take(v@.len() as int) =~= all);
    }

    fn walk_block(&mut self, b: &TypedBlock)
        ensures
            final(self).calls() == old(self).calls() + calls_in_block(b@),
            final(self).deps() == old(self).deps() + rust_deps_in_block(b@),
        decreases b, 0int,
    {
        let ghost c0 = self.calls();
        let ghost d0 = self.deps();
        self.walk_stmts(&b.stmts);
        match &b.ret {
            Some(e) => {
                self.walk_expr(e);
            },
            None => {},
        }
        assert(self.calls() =~= c0 + calls_in_block(b@));
        assert(self.deps() =~= d0 + rust_deps_in_block(b@));
    }
}

/// What a typed body calls.
pub fn walk_typed_body_for_deps(body: &TypedBlock) -> (r: Found)
    ensures
        r.calls() == calls_in_block(body@),
        r.deps() == rust_deps_in_block(body@),
{
    let mut found = Found::new();
    found.walk_block(body);
    assert(found.calls() =~= calls_in_block(body@));
    assert(found.deps() =~= rust_deps_in_block(body@));
    found
}

} // verus!
