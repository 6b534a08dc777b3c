//! The syntax tree that the parser builds.
use crate::text::Duplicate;
use crate::toylang::typed_ast::{clone_source_types, source_views, SourceType, SourceTypeView};
use vstd::prelude::*;

verus! {

broadcast use {vstd::seq::group_seq_axioms, vstd::std_specs::vec::group_vec_axioms};

/// Binary operator.
#[derive(Clone, Copy, Debug, PartialEq, Eq, Structural)]
pub enum BinOp {
    Add,
    Sub,
    Mul,
    Div,
    Eq,
    Ne,
    Lt,
    Le,
    Gt,
    Ge,
    And,
    Or,
}

/// A toylang expression.
#[derive(Debug, PartialEq)]
pub enum Expr {
    /// An integer literal with the type that its suffix or its size gives it.
    IntLit(i64, SourceType),
    BoolLit(bool),
    StringLit(String),
    ByteStringLit(Vec<u8>),
    Var(String),
    /// `Vec::new<Point>()`
    StaticCall { ty: String, method: String, type_args: Vec<SourceType>, args: Vec<Expr> },
    /// `v.push(x)`
    MethodCall { receiver: Box<Expr>, method: String, args: Vec<Expr> },
    /// `p.x`
    FieldAccess { receiver: Box<Expr>, field: String },
    /// `Point { x: 1, y: 2 }` or `Pair<i32, i64> { first: 1, second: 2i64 }`
    StructLit { name: String, type_args: Vec<SourceType>, fields: Vec<(String, Expr)> },
    /// `wrap<i32>(x)`
    FnCall { name: String, type_args: Vec<SourceType>, args: Vec<Expr> },
    /// `a + b`, `x * 2`
    BinaryOp { op: BinOp, left: Box<Expr>, right: Box<Expr> },
    /// `if cond { .. } else { .. }`
    If { cond: Box<Expr>, then_body: Box<Block>, else_body: Option<Box<Block>> },
    /// `-x`
    UnaryNeg(Box<Expr>),
    /// `&x`
    Ref(Box<Expr>),
}

/// A toylang statement.
#[derive(Debug, PartialEq)]
pub enum Stmt {
    Let { name: String, expr: Expr },
    ExprStmt(Expr),
    While { cond: Expr, body: Box<Block> },
    Assign { name: String, expr: Expr },
}

/// A sequence of statements with an optional trailing expression, whose value
/// is the value of the block.
#[derive(Debug, PartialEq)]
pub struct Block {
    pub stmts: Vec<Stmt>,
    pub ret: Option<Expr>,
}

/// The body of a function is a block.
pub type FnBody = Block;

/// What an [`Expr`] says.
pub enum ExprView {
    IntLit(i64, SourceTypeView),
    BoolLit(bool),
    StringLit(Seq<char>),
    ByteStringLit(Seq<u8>),
    Var(Seq<char>),
    StaticCall {
        ty: Seq<char>,
        method: Seq<char>,
        type_args: Seq<SourceTypeView>,
        args: Seq<ExprView>,
    },
    MethodCall { receiver: Box<ExprView>, method: Seq<char>, args: Seq<ExprView> },
    FieldAccess { receiver: Box<ExprView>, field: Seq<char> },
    StructLit {
        name: Seq<char>,
        type_args: Seq<SourceTypeView>,
        fields: Seq<(Seq<char>, ExprView)>,
    },
    FnCall { name: Seq<char>, type_args: Seq<SourceTypeView>, args: Seq<ExprView> },
    BinaryOp { op: BinOp, left: Box<ExprView>, right: Box<ExprView> },
    If { cond: Box<ExprView>, then_body: Box<BlockView>, else_body: Option<Box<BlockView>> },
    UnaryNeg(Box<ExprView>),
    Ref(Box<ExprView>),
}

/// What a [`Stmt`] says.
pub enum StmtView {
    Let { name: Seq<char>, expr: ExprView },
    ExprStmt(ExprView),
    While { cond: ExprView, body: Box<BlockView> },
    Assign { name: Seq<char>, expr: ExprView },
}

/// What a [`Block`] says.
pub struct BlockView {
    pub stmts: Seq<StmtView>,
    pub ret: Option<ExprView>,
}

impl Expr {
    /// The expression without its representation.
    pub open spec fn model(&self) -> ExprView
        decreases self,
    {
        match self {
            Expr::IntLit(n, ty) => ExprView::IntLit(*n, ty@),
            Expr::BoolLit(b) => ExprView::BoolLit(*b),
            Expr::StringLit(s) => ExprView::StringLit(s@),
            Expr::ByteStringLit(b) => ExprView::ByteStringLit(b@),
            Expr::Var(name) => ExprView::Var(name@),
            Expr::StaticCall { ty, method, type_args, args } => ExprView::StaticCall {
                ty: ty@,
                method: method@,
                type_args: source_views(type_args@),
                args: expr_views(args@),
            },
            Expr::MethodCall { receiver, method, args } => ExprView::MethodCall {
                receiver: Box::new(receiver.model()),
                method: method@,
                args: expr_views(args@),
            },
            Expr::FieldAccess { receiver, field } => ExprView::FieldAccess {
                receiver: Box::new(receiver.model()),
                field: field@,
            },
            Expr::StructLit { name, type_args, fields } => ExprView::StructLit {
                name: name@,
                type_args: source_views(type_args@),
                fields: field_views(fields@),
            },
            Expr::FnCall { name, type_args, args } => ExprView::FnCall {
                name: name@,
                type_args: source_views(type_args@),
                args: expr_views(args@),
            },
            Expr::BinaryOp { op, left, right } => ExprView::BinaryOp {
                op: *op,
                left: Box::new(left.model()),
                right: Box::new(right.model()),
            },
            Expr::If { cond, then_body, else_body } => ExprView::If {
                cond: Box::new(cond.model()),
                then_body: Box::new(then_body.model()),
                else_body: match else_body {
                    Some(b) => Some(Box::new(b.model())),
                    None => None,
                },
            },
            Expr::UnaryNeg(e) => ExprView::UnaryNeg(Box::new(e.model())),
            Expr::Ref(e) => ExprView::Ref(Box::new(e.model())),
        }
    }
}

impl Stmt {
    /// The statement without its representation.
    pub open spec fn model(&self) -> StmtView
        decreases self,
    {
        match self {
            Stmt::Let { name, expr } => StmtView::Let { name: name@, expr: expr.model() },
            Stmt::ExprStmt(expr) => StmtView::ExprStmt(expr.model()),
            Stmt::While { cond, body } => StmtView::While {
                cond: cond.model(),
                body: Box::new(body.model()),
            },
            Stmt::Assign { name, expr } => StmtView::Assign { name: name@, expr: expr.model() },
        }
    }
}

impl Block {
    /// The block without its representation.
    pub open spec fn model(&self) -> BlockView
        decreases self,
    {
        BlockView {
            stmts: stmt_views(self.stmts@),
            ret: match self.ret {
                Some(e) => Some(e.model()),
                None => None,
            },
        }
    }
}

/// The models of the expressions.
pub open spec fn expr_views(s: Seq<Expr>) -> Seq<ExprView>
    decreases s,
{
    Seq::new(
        s.len(),
        |i: int|
            if 0 <= i < s.len() {
                s[i].model()
            } else {
                arbitrary()
            },
    )
}

/// The models of the fields of a struct literal.
pub open spec fn field_views(s: Seq<(String, Expr)>) -> Seq<(Seq<char>, ExprView)>
    decreases s,
{
    Seq::new(
        s.len(),
        |i: int|
            if 0 <= i < s.len() {
                (s[i].0@, s[i].1.model())
            } else {
                arbitrary()
            },
    )
}

/// The models of the statements.
pub open spec fn stmt_views(s: Seq<Stmt>) -> Seq<StmtView>
    decreases s,
{
    Seq::new(
        s.len(),
        |i: int|
            if 0 <= i < s.len() {
                s[i].model()
            } else {
                arbitrary()
            },
    )
}

impl View for Expr {
    type V = ExprView;

    open spec fn view(&self) -> ExprView {
        self.model()
    }
}

impl View for Stmt {
    type V = StmtView;

    open spec fn view(&self) -> StmtView {
        self.model()
    }
}

impl View for Block {
    type V = BlockView;

    open spec fn view(&self) -> BlockView {
        self.model()
    }
}

/// A copy of an expression.
pub fn clone_expr(e: &Expr) -> (r: Expr)
    ensures
        r@ == e@,
    decreases e,
{
    match e {
        Expr::IntLit(n, ty) => Expr::IntLit(*n, ty.duplicate()),
        Expr::BoolLit(b) => Expr::BoolLit(*b),
        Expr::StringLit(s) => Expr::StringLit(s.clone()),
        Expr::ByteStringLit(b) => Expr::ByteStringLit(clone_bytes(b)),
        Expr::Var(name) => Expr::Var(name.clone()),
        Expr::StaticCall { ty, method, type_args, args } => Expr::StaticCall {
            ty: ty.clone(),
            method: method.clone(),
            type_args: clone_source_types(type_args),
            args: clone_exprs(args),
        },
        Expr::MethodCall { receiver, method, args } => Expr::MethodCall {
            receiver: Box::new(clone_expr(receiver)),
            method: method.clone(),
            args: clone_exprs(args),
        },
        Expr::FieldAccess { receiver, field } => Expr::FieldAccess {
            receiver: Box::new(clone_expr(receiver)),
            field: field.clone(),
        },
        Expr::StructLit { name, type_args, fields } => Expr::StructLit {
            name: name.clone(),
            type_args: clone_source_types(type_args),
            fields: clone_fields(fields),
        },
        Expr::FnCall { name, type_args, args } => Expr::FnCall {
            name: name.clone(),
            type_args: clone_source_types(type_args),
            args: clone_exprs(args),
        },
        Expr::BinaryOp { op, left, right } => Expr::BinaryOp {
            op: *op,
            left: Box::new(clone_expr(left)),
            right: Box::new(clone_expr(right)),
        },
        Expr::If { cond, then_body, else_body } => Expr::If {
            cond: Box::new(clone_expr(cond)),
            then_body: Box::new(clone_block(then_body)),
            else_body: match else_body {
                Some(b) => Some(Box::new(clone_block(b))),
                None => None,
            },
        },
        Expr::UnaryNeg(inner) => Expr::UnaryNeg(Box::new(clone_expr(inner))),
        Expr::Ref(inner) => Expr::Ref(Box::new(clone_expr(inner))),
    }
}

fn clone_exprs(v: &Vec<Expr>) -> (r: Vec<Expr>)
    ensures
        expr_views(r@) == expr_views(v@),
    decreases v,
{
    let mut r: Vec<Expr> = Vec::new();
    let mut i: usize = 0;
    while i < v.len()
        invariant
            i == r@.len(),
            i <= v@.len(),
            forall|j: int| 0 <= j < i ==> (#[trigger] r@[j]).model() == v@[j].model(),
        decreases v@.len() - i,
    {
        r.push(clone_expr(&v[i]));
        i += 1;
    }
    assert(expr_views(r@) =~= expr_views(v@));
    r
}

fn clone_fields(v: &Vec<(String, Expr)>) -> (r: Vec<(String, Expr)>)
    ensures
        field_views(r@) == field_views(v@),
    decreases v,
{
    let mut r: Vec<(String, Expr)> = Vec::new();
    let mut i: usize = 0;
    while i < v.len()
        invariant
            i == r@.len(),
            i <= v@.len(),
            forall|j: int|
                0 <= j < i ==> (#[trigger] r@[j]).0@ == v@[j].0@ && r@[j].1.model()
                    == v@[j].1.model(),
        decreases v@.len() - i,
    {
        r.push((v[i].0.clone(), clone_expr(&v[i].1)));
        i += 1;
    }
    assert(field_views(r@) =~= field_views(v@));
    r
}

fn clone_stmt(s: &Stmt) -> (r: Stmt)
    ensures
        r@ == s@,
    decreases s,
{
    match s {
        Stmt::Let { name, expr } => Stmt::Let { name: name.clone(), expr: clone_expr(expr) },
        Stmt::ExprStmt(expr) => Stmt::ExprStmt(clone_expr(expr)),
        Stmt::While { cond, body } => Stmt::While {
            cond: clone_expr(cond),
            body: Box::new(clone_block(body)),
        },
        Stmt::Assign { name, expr } => Stmt::Assign {
            name: name.clone(),
            expr: clone_expr(expr),
        },
    }
}

fn clone_stmts(v: &Vec<Stmt>) -> (r: Vec<Stmt>)
    ensures
        stmt_views(r@) == stmt_views(v@),
    decreases v,
{
    let mut r: Vec<Stmt> = Vec::new();
    let mut i: usize = 0;
    while i < v.len()
        invariant
            i == r@.len(),
            i <= v@.len(),
            forall|j: int| 0 <= j < i ==> (#[trigger] r@[j]).model() == v@[j].model(),
        decreases v@.len() - i,
    {
        r.push(clone_stmt(&v[i]));
        i += 1;
    }
    assert(stmt_views(r@) =~= stmt_views(v@));
    r
}

/// A copy of a block.
pub fn clone_block(b: &Block) -> (r: Block)
    ensures
        r@ == b@,
    decreases b,
{
    Block {
        stmts: clone_stmts(&b.stmts),
        ret: match &b.ret {
            Some(e) => Some(clone_expr(e)),
            None => None,
        },
    }
}

/// A copy of some bytes.
pub fn clone_bytes(v: &Vec<u8>) -> (r: Vec<u8>)
    ensures
        r@ == v@,
{
    let mut r: Vec<u8> = Vec::new();
    let mut i: usize = 0;
    while i < v.len()
        invariant
            i <= v@.len(),
            r@ == v@.take(i as int),
        decreases v@.len() - i,
    {
        assert(v@.take(i + 1) =~= v@.take(i as int).push(v@[i as int]));
        r.push(v[i]);
        i += 1;
    }
    assert(r@ =~= v@);
    r
}

impl Clone for Expr {
    fn clone(&self) -> (r: Self)
        ensures
            r@ == self@,
    {
        clone_expr(self)
    }
}

impl Duplicate for Expr {
    fn duplicate(&self) -> (r: Self) {
        clone_expr(self)
    }
}

impl Clone for Block {
    fn clone(&self) -> (r: Self)
        ensures
            r@ == self@,
    {
        clone_block(self)
    }
}

impl Clone for Stmt {
    fn clone(&self) -> (r: Self)
        ensures
            r@ == self@,
    {
        clone_stmt(self)
    }
}

impl Duplicate for Block {
    fn duplicate(&self) -> (r: Self) {
        clone_block(self)
    }
}

} // verus!
