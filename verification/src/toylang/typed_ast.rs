//! Types, and the typed syntax tree in which every expression carries its type.
//!
//! A type exists in two shapes. A [`SourceType`] is what the parser, the
//! registry and the sidecar hold: a struct is a name with type arguments. A
//! [`ResolvedType`] is what the typed tree and the code generator hold: a
//! struct also carries the types of its fields. One turns into the other
//! through `oracle::resolve_source_type`, and back through
//! [`ResolvedType::to_source_type`].
use crate::text::Duplicate;
use crate::toylang::ast::BinOp;
use vstd::prelude::*;

verus! {

broadcast use {vstd::seq::group_seq_axioms, vstd::std_specs::vec::group_vec_axioms};

/// A type as it is written in source: structs by name and type arguments.
#[derive(Debug, PartialEq)]
pub enum SourceType {
    I32,
    I64,
    F64,
    Bool,
    Void,
    Usize,
    TypeParam(String),
    /// A toylang struct.
    StructRef { name: String, type_args: Vec<SourceType> },
    /// A type of the Rust side.
    RustType { name: String, type_args: Vec<SourceType> },
    Ref { inner: Box<SourceType> },
    /// The unsized string type `str`.
    Str,
    /// The unsized byte slice type `[u8]`.
    ByteSlice,
}

/// A type whose toylang structs carry the types of their fields.
#[derive(Debug, PartialEq)]
pub enum ResolvedType {
    I32,
    I64,
    F64,
    Bool,
    Void,
    Usize,
    TypeParam(String),
    /// A toylang struct, with the types of its fields in declaration order.
    Struct { name: String, type_args: Vec<ResolvedType>, field_types: Vec<ResolvedType> },
    /// A type of the Rust side.
    RustType { name: String, type_args: Vec<ResolvedType> },
    Ref { inner: Box<ResolvedType> },
    /// The unsized string type `str`.
    Str,
    /// The unsized byte slice type `[u8]`.
    ByteSlice,
}

/// What a [`SourceType`] says.
pub enum SourceTypeView {
    I32,
    I64,
    F64,
    Bool,
    Void,
    Usize,
    TypeParam(Seq<char>),
    StructRef { name: Seq<char>, type_args: Seq<SourceTypeView> },
    RustType { name: Seq<char>, type_args: Seq<SourceTypeView> },
    Ref { inner: Box<SourceTypeView> },
    Str,
    ByteSlice,
}

/// What a [`ResolvedType`] says.
pub enum ResolvedTypeView {
    I32,
    I64,
    F64,
    Bool,
    Void,
    Usize,
    TypeParam(Seq<char>),
    Struct {
        name: Seq<char>,
        type_args: Seq<ResolvedTypeView>,
        field_types: Seq<ResolvedTypeView>,
    },
    RustType { name: Seq<char>, type_args: Seq<ResolvedTypeView> },
    Ref { inner: Box<ResolvedTypeView> },
    Str,
    ByteSlice,
}

impl SourceType {
    /// The type without its representation.
    pub open spec fn model(&self) -> SourceTypeView
        decreases self,
    {
        match self {
            SourceType::I32 => SourceTypeView::I32,
            SourceType::I64 => SourceTypeView::I64,
            SourceType::F64 => SourceTypeView::F64,
            SourceType::Bool => SourceTypeView::Bool,
            SourceType::Void => SourceTypeView::Void,
            SourceType::Usize => SourceTypeView::Usize,
            SourceType::TypeParam(p) => SourceTypeView::TypeParam(p@),
            SourceType::StructRef { name, type_args } => SourceTypeView::StructRef {
                name: name@,
                type_args: source_views(type_args@),
            },
            SourceType::RustType { name, type_args } => SourceTypeView::RustType {
                name: name@,
                type_args: source_views(type_args@),
            },
            SourceType::Ref { inner } => SourceTypeView::Ref { inner: Box::new(inner.model()) },
            SourceType::Str => SourceTypeView::Str,
            SourceType::ByteSlice => SourceTypeView::ByteSlice,
        }
    }
}

/// The models of the types.
pub open spec fn source_views(s: Seq<SourceType>) -> Seq<SourceTypeView>
    decreases s,
{
    Seq::new(
        s.len(),
        |i: int|
            if 0 <= i < s.len() {
                s[i].model()
            } else {
                arbitrary()
            },
    )
}

impl ResolvedType {
    /// The type without its representation.
    pub open spec fn model(&self) -> ResolvedTypeView
        decreases self,
    {
        match self {
            ResolvedType::I32 => ResolvedTypeView::I32,
            ResolvedType::I64 => ResolvedTypeView::I64,
            ResolvedType::F64 => ResolvedTypeView::F64,
            ResolvedType::Bool => ResolvedTypeView::Bool,
            ResolvedType::Void => ResolvedTypeView::Void,
            ResolvedType::Usize => ResolvedTypeView::Usize,
            ResolvedType::TypeParam(p) => ResolvedTypeView::TypeParam(p@),
            ResolvedType::Struct { name, type_args, field_types } => ResolvedTypeView::Struct {
                name: name@,
                type_args: resolved_views(type_args@),
                field_types: resolved_views(field_types@),
            },
            ResolvedType::RustType { name, type_args } => ResolvedTypeView::RustType {
                name: name@,
                type_args: resolved_views(type_args@),
            },
            ResolvedType::Ref { inner } => ResolvedTypeView::Ref {
                inner: Box::new(inner.model()),
            },
            ResolvedType::Str => ResolvedTypeView::Str,
            ResolvedType::ByteSlice => ResolvedTypeView::ByteSlice,
        }
    }
}

/// The models of the types.
pub open spec fn resolved_views(s: Seq<ResolvedType>) -> Seq<ResolvedTypeView>
    decreases s,
{
    Seq::new(
        s.len(),
        |i: int|
            if 0 <= i < s.len() {
                s[i].model()
            } else {
                arbitrary()
            },
    )
}

impl View for SourceType {
    type V = SourceTypeView;

    open spec fn view(&self) -> SourceTypeView {
        self.model()
    }
}

impl View for ResolvedType {
    type V = ResolvedTypeView;

    open spec fn view(&self) -> ResolvedTypeView {
        self.model()
    }
}

/// A copy of a type.
pub fn clone_source_type(t: &SourceType) -> (r: SourceType)
    ensures
        r@ == t@,
    decreases t,
{
    match t {
        SourceType::I32 => SourceType::I32,
        SourceType::I64 => SourceType::I64,
        SourceType::F64 => SourceType::F64,
        SourceType::Bool => SourceType::Bool,
        SourceType::Void => SourceType::Void,
        SourceType::Usize => SourceType::Usize,
        SourceType::TypeParam(p) => SourceType::TypeParam(p.clone()),
        SourceType::StructRef { name, type_args } => SourceType::StructRef {
            name: name.clone(),
            type_args: clone_source_types(type_args),
        },
        SourceType::RustType { name, type_args } => SourceType::RustType {
            name: name.clone(),
            type_args: clone_source_types(type_args),
        },
        SourceType::Ref { inner } => SourceType::Ref { inner: Box::new(clone_source_type(inner)) },
        SourceType::Str => SourceType::Str,
        SourceType::ByteSlice => SourceType::ByteSlice,
    }
}

/// Copies of some types.
pub fn clone_source_types(v: &Vec<SourceType>) -> (r: Vec<SourceType>)
    ensures
        source_views(r@) == source_views(v@),
    decreases v,
{
    let mut r: Vec<SourceType> = Vec::new();
    let mut i: usize = 0;
    while i < v.len()
        invariant
            i == r@.len(),
            i <= v@.len(),
            forall|j: int| 0 <= j < i ==> (#[trigger] r@[j]).model() == v@[j].model(),
        decreases v@.len() - i,
    {
        r.push(clone_source_type(&v[i]));
        i += 1;
    }
    assert(source_views(r@) =~= source_views(v@));
    r
}

/// A copy of a type.
pub fn clone_resolved_type(t: &ResolvedType) -> (r: ResolvedType)
    ensures
        r@ == t@,
    decreases t,
{
    match t {
        ResolvedType::I32 => ResolvedType::I32,
        ResolvedType::I64 => ResolvedType::I64,
        ResolvedType::F64 => ResolvedType::F64,
        ResolvedType::Bool => ResolvedType::Bool,
        ResolvedType::Void => ResolvedType::Void,
        ResolvedType::Usize => ResolvedType::Usize,
        ResolvedType::TypeParam(p) => ResolvedType::TypeParam(p.clone()),
        ResolvedType::Struct { name, type_args, field_types } => ResolvedType::Struct {
            name: name.clone(),
            type_args: clone_resolved_types(type_args),
            field_types: clone_resolved_types(field_types),
        },
        ResolvedType::RustType { name, type_args } => ResolvedType::RustType {
            name: name.clone(),
            type_args: clone_resolved_types(type_args),
        },
        ResolvedType::Ref { inner } => ResolvedType::Ref {
            inner: Box::new(clone_resolved_type(inner)),
        },
        ResolvedType::Str => ResolvedType::Str,
        ResolvedType::ByteSlice => ResolvedType::ByteSlice,
    }
}

/// Copies of some types.
pub fn clone_resolved_types(v: &Vec<ResolvedType>) -> (r: Vec<ResolvedType>)
    ensures
        resolved_views(r@) == resolved_views(v@),
    decreases v,
{
    let mut r: Vec<ResolvedType> = Vec::new();
    let mut i: usize = 0;
    while i < v.len()
        invariant
            i == r@.len(),
            i <= v@.len(),
            forall|j: int| 0 <= j < i ==> (#[trigger] r@[j]).model() == v@[j].model(),
        decreases v@.len() - i,
    {
        r.push(clone_resolved_type(&v[i]));
        i += 1;
    }
    assert(resolved_views(r@) =~= resolved_views(v@));
    r
}

impl Clone for SourceType {
    fn clone(&self) -> (r: Self)
        ensures
            r@ == self@,
    {
        clone_source_type(self)
    }
}

impl Duplicate for SourceType {
    fn duplicate(&self) -> (r: Self) {
        clone_source_type(self)
    }
}

impl Clone for ResolvedType {
    fn clone(&self) -> (r: Self)
        ensures
            r@ == self@,
    {
        clone_resolved_type(self)
    }
}

impl Duplicate for ResolvedType {
    fn duplicate(&self) -> (r: Self) {
        clone_resolved_type(self)
    }
}

/// Whether two types are the same.
pub fn same_source_type(a: &SourceType, b: &SourceType) -> (r: bool)
    ensures
        r == (a@ == b@),
    decreases a,
{
    match (a, b) {
        (SourceType::I32, SourceType::I32) => true,
        (SourceType::I64, SourceType::I64) => true,
        (SourceType::F64, SourceType::F64) => true,
        (SourceType::Bool, SourceType::Bool) => true,
        (SourceType::Void, SourceType::Void) => true,
        (SourceType::Usize, SourceType::Usize) => true,
        (SourceType::TypeParam(p), SourceType::TypeParam(q)) => *p == *q,
        (
            SourceType::StructRef { name: n, type_args: v },
            SourceType::StructRef { name: m, type_args: w },
        ) => *n == *m && same_source_types(v, w),
        (
            SourceType::RustType { name: n, type_args: v },
            SourceType::RustType { name: m, type_args: w },
        ) => *n == *m && same_source_types(v, w),
        (SourceType::Ref { inner: x }, SourceType::Ref { inner: y }) => same_source_type(x, y),
        (SourceType::Str, SourceType::Str) => true,
        (SourceType::ByteSlice, SourceType::ByteSlice) => true,
        _ => false,
    }
}

/// Whether two lists of types are the same.
pub fn same_source_types(a: &Vec<SourceType>, b: &Vec<SourceType>) -> (r: bool)
    ensures
        r == (source_views(a@) == source_views(b@)),
    decreases a,
{
    if a.len() != b.len() {
        assert(source_views(a@).len() != source_views(b@).len());
        return false;
    }
    let mut i: usize = 0;
    while i < a.len()
        invariant
            i <= a@.len() == b@.len(),
            forall|j: int| 0 <= j < i ==> (#[trigger] a@[j]).model() == b@[j].model(),
        decreases a@.len() - i,
    {
        if !same_source_type(&a[i], &b[i]) {
            assert(source_views(a@)[i as int] != source_views(b@)[i as int]);
            return false;
        }
        i += 1;
    }
    assert(source_views(a@) =~= source_views(b@));
    true
}

/// Whether two types are the same.
pub fn same_resolved_type(a: &ResolvedType, b: &ResolvedType) -> (r: bool)
    ensures
        r == (a@ == b@),
    decreases a,
{
    match (a, b) {
        (ResolvedType::I32, ResolvedType::I32) => true,
        (ResolvedType::I64, ResolvedType::I64) => true,
        (ResolvedType::F64, ResolvedType::F64) => true,
        (ResolvedType::Bool, ResolvedType::Bool) => true,
        (ResolvedType::Void, ResolvedType::Void) => true,
        (ResolvedType::Usize, ResolvedType::Usize) => true,
        (ResolvedType::TypeParam(p), ResolvedType::TypeParam(q)) => *p == *q,
        (
            ResolvedType::Struct { name: n, type_args: v, field_types: f },
            ResolvedType::Struct { name: m, type_args: w, field_types: g },
        ) => *n == *m && same_resolved_types(v, w) && same_resolved_types(f, g),
        (
            ResolvedType::RustType { name: n, type_args: v },
            ResolvedType::RustType { name: m, type_args: w },
        ) => *n == *m && same_resolved_types(v, w),
        (ResolvedType::Ref { inner: x }, ResolvedType::Ref { inner: y }) => same_resolved_type(x, y),
        (ResolvedType::Str, ResolvedType::Str) => true,
        (ResolvedType::ByteSlice, ResolvedType::ByteSlice) => true,
        _ => false,
    }
}

/// Whether two lists of types are the same.
pub fn same_resolved_types(a: &Vec<ResolvedType>, b: &Vec<ResolvedType>) -> (r: bool)
    ensures
        r == (resolved_views(a@) == resolved_views(b@)),
    decreases a,
{
    if a.len() != b.len() {
        assert(resolved_views(a@).len() != resolved_views(b@).len());
        return false;
    }
    let mut i: usize = 0;
    while i < a.len()
        invariant
            i <= a@.len() == b@.len(),
            forall|j: int| 0 <= j < i ==> (#[trigger] a@[j]).model() == b@[j].model(),
        decreases a@.len() - i,
    {
        if !same_resolved_type(&a[i], &b[i]) {
            assert(resolved_views(a@)[i as int] != resolved_views(b@)[i as int]);
            return false;
        }
        i += 1;
    }
    assert(resolved_views(a@) =~= resolved_views(b@));
    true
}

/// The source shape of a type: the types of the fields are dropped.
pub open spec fn demote(t: ResolvedTypeView) -> SourceTypeView
    decreases t,
{
    match t {
        ResolvedTypeView::I32 => SourceTypeView::I32,
        ResolvedTypeView::I64 => SourceTypeView::I64,
        ResolvedTypeView::F64 => SourceTypeView::F64,
        ResolvedTypeView::Bool => SourceTypeView::Bool,
        ResolvedTypeView::Void => SourceTypeView::Void,
        ResolvedTypeView::Usize => SourceTypeView::Usize,
        ResolvedTypeView::TypeParam(p) => SourceTypeView::TypeParam(p),
        ResolvedTypeView::Struct { name, type_args, field_types } => SourceTypeView::StructRef {
            name,
            type_args: demote_all(type_args),
        },
        ResolvedTypeView::RustType { name, type_args } => SourceTypeView::RustType {
            name,
            type_args: demote_all(type_args),
        },
        ResolvedTypeView::Ref { inner } => SourceTypeView::Ref { inner: Box::new(demote(*inner)) },
        ResolvedTypeView::Str => SourceTypeView::Str,
        ResolvedTypeView::ByteSlice => SourceTypeView::ByteSlice,
    }
}

/// The source shapes of some types.
pub open spec fn demote_all(s: Seq<ResolvedTypeView>) -> Seq<SourceTypeView>
    decreases s,
{
    Seq::new(
        s.len(),
        |i: int|
            if 0 <= i < s.len() {
                demote(s[i])
            } else {
                arbitrary()
            },
    )
}

impl ResolvedType {
    /// The source shape of this type: the types of the fields are dropped.
    pub fn to_source_type(&self) -> (r: SourceType)
        ensures
            r@ == demote(self@),
        decreases self,
    {
        match self {
            ResolvedType::I32 => SourceType::I32,
            ResolvedType::I64 => SourceType::I64,
            ResolvedType::F64 => SourceType::F64,
            ResolvedType::Bool => SourceType::Bool,
            ResolvedType::Void => SourceType::Void,
            ResolvedType::Usize => SourceType::Usize,
            ResolvedType::TypeParam(n) => SourceType::TypeParam(n.clone()),
            ResolvedType::Struct { name, type_args, .. } => SourceType::StructRef {
                name: name.clone(),
                type_args: to_source_types(type_args),
            },
            ResolvedType::RustType { name, type_args } => SourceType::RustType {
                name: name.clone(),
                type_args: to_source_types(type_args),
            },
            ResolvedType::Ref { inner } => SourceType::Ref {
                inner: Box::new(inner.to_source_type()),
            },
            ResolvedType::Str => SourceType::Str,
            ResolvedType::ByteSlice => SourceType::ByteSlice,
        }
    }
}

/// The source shapes of some types.
pub fn to_source_types(v: &Vec<ResolvedType>) -> (r: Vec<SourceType>)
    ensures
        source_views(r@) == demote_all(resolved_views(v@)),
    decreases v,
{
    let mut r: Vec<SourceType> = Vec::new();
    let mut i: usize = 0;
    while i < v.len()
        invariant
            i == r@.len(),
            i <= v@.len(),
            forall|j: int| 0 <= j < i ==> (#[trigger] r@[j]).model() == demote(v@[j].model()),
        decreases v@.len() - i,
    {
        r.push(v[i].to_source_type());
        i += 1;
    }
    assert(source_views(r@) =~= demote_all(resolved_views(v@)));
    r
}

/// Whether a type parameter occurs in a type.
pub open spec fn mentions_type_param(t: SourceTypeView) -> bool
    decreases t,
{
    match t {
        SourceTypeView::TypeParam(_) => true,
        SourceTypeView::StructRef { name, type_args } => any_mention_type_param(type_args),
        SourceTypeView::RustType { name, type_args } => any_mention_type_param(type_args),
        SourceTypeView::Ref { inner } => mentions_type_param(*inner),
        _ => false,
    }
}

/// Whether a type parameter occurs in one of the types.
pub open spec fn any_mention_type_param(s: Seq<SourceTypeView>) -> bool
    decreases s,
{
    exists|i: int| 0 <= i < s.len() && mentions_type_param(#[trigger] s[i])
}

impl SourceType {
    /// Whether a type parameter occurs in this type.
    pub fn contains_type_param(&self) -> (r: bool)
        ensures
            r == mentions_type_param(self@),
        decreases self,
    {
        match self {
            SourceType::TypeParam(_) => true,
            SourceType::StructRef { type_args, .. } => any_contains_type_param(type_args),
            SourceType::RustType { type_args, .. } => any_contains_type_param(type_args),
            SourceType::Ref { inner } => inner.contains_type_param(),
            _ => false,
        }
    }
}

fn any_contains_type_param(v: &Vec<SourceType>) -> (r: bool)
    ensures
        r == any_mention_type_param(source_views(v@)),
    decreases v,
{
    let mut i: usize = 0;
    while i < v.len()
        invariant
            i <= v@.len(),
            forall|j: int| 0 <= j < i ==> !mentions_type_param(#[trigger] source_views(v@)[j]),
        decreases v@.len() - i,
    {
        if v[i].contains_type_param() {
            assert(mentions_type_param(source_views(v@)[i as int]));
            return true;
        }
        assert(!mentions_type_param(source_views(v@)[i as int]));
        i += 1;
    }
    false
}

/// An expression with its type.
#[derive(Debug, PartialEq)]
pub struct TypedExpr {
    pub kind: TypedExprKind,
    pub ty: ResolvedType,
}

/// The forms of a typed expression.
#[derive(Debug, PartialEq)]
pub enum TypedExprKind {
    IntLit(i64),
    BoolLit(bool),
    Var(String),
    StructLit { name: String, fields: Vec<(String, TypedExpr)> },
    FnCall { name: String, type_args: Vec<ResolvedType>, args: Vec<TypedExpr> },
    BinaryOp { op: BinOp, left: Box<TypedExpr>, right: Box<TypedExpr> },
    StaticCall { ty: String, method: String, type_args: Vec<ResolvedType>, args: Vec<TypedExpr> },
    MethodCall { receiver: Box<TypedExpr>, method: String, args: Vec<TypedExpr> },
    FieldAccess { receiver: Box<TypedExpr>, field: String },
    StringLit(String),
    ByteStringLit(Vec<u8>),
    If {
        cond: Box<TypedExpr>,
        then_stmts: Vec<TypedStmt>,
        then_expr: Option<Box<TypedExpr>>,
        else_stmts: Vec<TypedStmt>,
        else_expr: Option<Box<TypedExpr>>,
    },
    Ref(Box<TypedExpr>),
}

/// A typed statement.
#[derive(Debug, PartialEq)]
pub enum TypedStmt {
    Let { name: String, expr: TypedExpr },
    ExprStmt(TypedExpr),
    While { cond: TypedExpr, body: TypedBlock },
    Assign { name: String, expr: TypedExpr },
}

/// A typed block.
#[derive(Debug, PartialEq)]
pub struct TypedBlock {
    pub stmts: Vec<TypedStmt>,
    pub ret: Option<TypedExpr>,
}

/// What a [`TypedExpr`] says.
pub struct TypedExprView {
    pub kind: TypedExprKindView,
    pub ty: ResolvedTypeView,
}

/// What a [`TypedExprKind`] says.
pub enum TypedExprKindView {
    IntLit(i64),
    BoolLit(bool),
    Var(Seq<char>),
    StructLit { name: Seq<char>, fields: Seq<(Seq<char>, TypedExprView)> },
    FnCall { name: Seq<char>, type_args: Seq<ResolvedTypeView>, args: Seq<TypedExprView> },
    BinaryOp { op: BinOp, left: Box<TypedExprView>, right: Box<TypedExprView> },
    StaticCall {
        ty: Seq<char>,
        method: Seq<char>,
        type_args: Seq<ResolvedTypeView>,
        args: Seq<TypedExprView>,
    },
    MethodCall { receiver: Box<TypedExprView>, method: Seq<char>, args: Seq<TypedExprView> },
    FieldAccess { receiver: Box<TypedExprView>, field: Seq<char> },
    StringLit(Seq<char>),
    ByteStringLit(Seq<u8>),
    If {
        cond: Box<TypedExprView>,
        then_stmts: Seq<TypedStmtView>,
        then_expr: Option<Box<TypedExprView>>,
        else_stmts: Seq<TypedStmtView>,
        else_expr: Option<Box<TypedExprView>>,
    },
    Ref(Box<TypedExprView>),
}

/// What a [`TypedStmt`] says.
pub enum TypedStmtView {
    Let { name: Seq<char>, expr: TypedExprView },
    ExprStmt(TypedExprView),
    While { cond: TypedExprView, body: TypedBlockView },
    Assign { name: Seq<char>, expr: TypedExprView },
}

/// What a [`TypedBlock`] says.
pub struct TypedBlockView {
    pub stmts: Seq<TypedStmtView>,
    pub ret: Option<TypedExprView>,
}

impl TypedExpr {
    /// The expression without its representation.
    pub open spec fn model(&self) -> TypedExprView
        decreases self,
    {
        TypedExprView { kind: self.kind.model(), ty: self.ty@ }
    }
}

impl TypedExprKind {
    /// The form without its representation.
    pub open spec fn model(&self) -> TypedExprKindView
        decreases self,
    {
        match self {
            TypedExprKind::IntLit(n) => TypedExprKindView::IntLit(*n),
            TypedExprKind::BoolLit(b) => TypedExprKindView::BoolLit(*b),
            TypedExprKind::Var(name) => TypedExprKindView::Var(name@),
            TypedExprKind::StructLit { name, fields } => TypedExprKindView::StructLit {
                name: name@,
                fields: typed_field_views(fields@),
            },
            TypedExprKind::FnCall { name, type_args, args } => TypedExprKindView::FnCall {
                name: name@,
                type_args: resolved_views(type_args@),
                args: typed_expr_views(args@),
            },
            TypedExprKind::BinaryOp { op, left, right } => TypedExprKindView::BinaryOp {
                op: *op,
                left: Box::new(left.model()),
                right: Box::new(right.model()),
            },
            TypedExprKind::StaticCall { ty, method, type_args, args } =>
                TypedExprKindView::StaticCall {
                ty: ty@,
                method: method@,
                type_args: resolved_views(type_args@),
                args: typed_expr_views(args@),
            },
            TypedExprKind::MethodCall { receiver, method, args } => TypedExprKindView::MethodCall {
                receiver: Box::new(receiver.model()),
                method: method@,
                args: typed_expr_views(args@),
            },
            TypedExprKind::FieldAccess { receiver, field } => TypedExprKindView::FieldAccess {
                receiver: Box::new(receiver.model()),
                field: field@,
            },
            TypedExprKind::StringLit(s) => TypedExprKindView::StringLit(s@),
            TypedExprKind::ByteStringLit(b) => TypedExprKindView::ByteStringLit(b@),
            TypedExprKind::If { cond, then_stmts, then_expr, else_stmts, else_expr } =>
                TypedExprKindView::If {
                cond: Box::new(cond.model()),
                then_stmts: typed_stmt_views(then_stmts@),
                then_expr: match then_expr {
                    Some(e) => Some(Box::new(e.model())),
                    None => None,
                },
                else_stmts: typed_stmt_views(else_stmts@),
                else_expr: match else_expr {
                    Some(e) => Some(Box::new(e.model())),
                    None => None,
                },
            },
            TypedExprKind::Ref(e) => TypedExprKindView::Ref(Box::new(e.model())),
        }
    }
}

impl TypedStmt {
    /// The statement without its representation.
    pub open spec fn model(&self) -> TypedStmtView
        decreases self,
    {
        match self {
            TypedStmt::Let { name, expr } => TypedStmtView::Let { name: name@, expr: expr.model() },
            TypedStmt::ExprStmt(expr) => TypedStmtView::ExprStmt(expr.model()),
            TypedStmt::While { cond, body } => TypedStmtView::While {
                cond: cond.model(),
                body: body.model(),
            },
            TypedStmt::Assign { name, expr } => TypedStmtView::Assign {
                name: name@,
                expr: expr.model(),
            },
        }
    }
}

impl TypedBlock {
    /// The block without its representation.
    pub open spec fn model(&self) -> TypedBlockView
        decreases self,
    {
        TypedBlockView {
            stmts: typed_stmt_views(self.stmts@),
            ret: match self.ret {
                Some(e) => Some(e.model()),
                None => None,
            },
        }
    }
}

/// The models of the expressions.
pub open spec fn typed_expr_views(s: Seq<TypedExpr>) -> Seq<TypedExprView>
    decreases s,
{
    Seq::new(
        s.len(),
        |i: int|
            if 0 <= i < s.len() {
                s[i].model()
            } else {
                arbitrary()
            },
    )
}

/// The models of the fields of a struct literal.
pub open spec fn typed_field_views(s: Seq<(String, TypedExpr)>) -> Seq<(Seq<char>, TypedExprView)>
    decreases s,
{
    Seq::new(
        s.len(),
        |i: int|
            if 0 <= i < s.len() {
                (s[i].0@, s[i].1.model())
            } else {
                arbitrary()
            },
    )
}

/// The models of the statements.
pub open spec fn typed_stmt_views(s: Seq<TypedStmt>) -> Seq<TypedStmtView>
    decreases s,
{
    Seq::new(
        s.len(),
        |i: int|
            if 0 <= i < s.len() {
                s[i].model()
            } else {
                arbitrary()
            },
    )
}

impl View for TypedExpr {
    type V = TypedExprView;

    open spec fn view(&self) -> TypedExprView {
        self.model()
    }
}

impl View for TypedExprKind {
    type V = TypedExprKindView;

    open spec fn view(&self) -> TypedExprKindView {
        self.model()
    }
}

impl View for TypedStmt {
    type V = TypedStmtView;

    open spec fn view(&self) -> TypedStmtView {
        self.model()
    }
}

impl View for TypedBlock {
    type V = TypedBlockView;

    open spec fn view(&self) -> TypedBlockView {
        self.model()
    }
}

} // verus!
