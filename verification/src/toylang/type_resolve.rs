//! Type resolution: gives every expression of a body its type.
use crate::names::{bind_all, find, put, NameMap};
use crate::oracle::{
    bind_params, resolve, resolve_all, resolve_source_type, resolve_source_types, resolved_outcome,
};
use crate::text::{owned, same_text, views, Duplicate};
use crate::toylang::ast::{
    clone_bytes, expr_views, field_views, stmt_views, BinOp, Block, BlockView, Expr, ExprView, Stmt, StmtView,
};
use crate::toylang::answers::{
    ask_param_types, ask_return, ask_trait, RustAnswers, RustAnswersView, RustQuery, RustQueryView,
};
use crate::toylang::substitute::{substitute_source, substitute_source_type};
use crate::toylang::registry::{
    RegistryView, ToyFieldView, ToyFunction, ToyFunctionView, ToyParamView, ToyStruct, ToylangRegistry,
};
use crate::toylang::typed_ast::{
    clone_source_types, demote, demote_all, resolved_views, same_resolved_type, source_views, to_source_types, typed_expr_views,
    typed_field_views, typed_stmt_views, ResolvedType, ResolvedTypeView, SourceType, SourceTypeView, TypedBlock, TypedBlockView,
    TypedExpr, TypedExprKind, TypedExprKindView, TypedExprView, TypedStmt, TypedStmtView,
};
use vstd::prelude::*;
use vstd::string::*;

pub use crate::toylang::substitute::{substitute_in_typed_body, substitute_type_params, substitute_type_params_in_body};

verus! {

broadcast use {vstd::seq::group_seq_axioms, vstd::std_specs::vec::group_vec_axioms};

/// Why a body has no types.
#[derive(Debug, PartialEq)]
pub enum TypeResolveError {
    UndefinedVariable { name: String },
    UndefinedStruct { name: String },
    UndefinedFunction { name: String },
    FieldNotFound { struct_name: String, field_name: String },
    FieldAccessOnNonStruct { ty: ResolvedType, field: String },
    MethodCallOnUnsupportedType { ty: ResolvedType, method: String },
    WrongTypeArgCount { func_name: String, expected: usize, got: usize },
    NonStructLitType { ty: ResolvedType },
    IfConditionNotBool { ty: ResolvedType },
    WhileConditionNotBool { ty: ResolvedType },
    IfElseTypeMismatch { then_ty: ResolvedType, else_ty: ResolvedType },
    AssignTypeMismatch { name: String, expected: ResolvedType, got: ResolvedType },
    ArgTypeMismatch { func_name: String, param_index: usize, expected: ResolvedType, got: ResolvedType },
    /// `main` ends in an expression that is not void.
    MainMustReturnVoid { got: ResolvedType },
    /// A Rust type that the body needs is not imported.
    RustTypeNotImported { name: String, context: String },
    /// A question about the Rust side waits for a type parameter.
    RustTypeDeferred { context: String },
    /// A struct whose definition contains the struct itself.
    RecursiveStruct { name: String },
    /// A trait call without an argument has no receiver.
    TraitCallWithoutReceiver { trait_name: String, method: String },
    /// The resolution needs an answer about the Rust side that it was not given.
    AnswerPending { query: RustQuery },
}

/// What a [`TypeResolveError`] says.
pub enum TypeResolveErrorView {
    UndefinedVariable { name: Seq<char> },
    UndefinedStruct { name: Seq<char> },
    UndefinedFunction { name: Seq<char> },
    FieldNotFound { struct_name: Seq<char>, field_name: Seq<char> },
    FieldAccessOnNonStruct { ty: ResolvedTypeView, field: Seq<char> },
    MethodCallOnUnsupportedType { ty: ResolvedTypeView, method: Seq<char> },
    WrongTypeArgCount { func_name: Seq<char>, expected: nat, got: nat },
    NonStructLitType { ty: ResolvedTypeView },
    IfConditionNotBool { ty: ResolvedTypeView },
    WhileConditionNotBool { ty: ResolvedTypeView },
    IfElseTypeMismatch { then_ty: ResolvedTypeView, else_ty: ResolvedTypeView },
    AssignTypeMismatch { name: Seq<char>, expected: ResolvedTypeView, got: ResolvedTypeView },
    ArgTypeMismatch {
        func_name: Seq<char>,
        param_index: nat,
        expected: ResolvedTypeView,
        got: ResolvedTypeView,
    },
    MainMustReturnVoid { got: ResolvedTypeView },
    RustTypeNotImported { name: Seq<char>, context: Seq<char> },
    RustTypeDeferred { context: Seq<char> },
    RecursiveStruct { name: Seq<char> },
    TraitCallWithoutReceiver { trait_name: Seq<char>, method: Seq<char> },
    AnswerPending { query: RustQueryView },
}

impl View for TypeResolveError {
    type V = TypeResolveErrorView;

    open spec fn view(&self) -> TypeResolveErrorView {
        match self {
            TypeResolveError::UndefinedVariable { name } =>
                TypeResolveErrorView::UndefinedVariable { name: name@ },
            TypeResolveError::UndefinedStruct { name } => TypeResolveErrorView::UndefinedStruct {
                name: name@,
            },
            TypeResolveError::UndefinedFunction { name } =>
                TypeResolveErrorView::UndefinedFunction { name: name@ },
            TypeResolveError::FieldNotFound { struct_name, field_name } =>
                TypeResolveErrorView::FieldNotFound {
                struct_name: struct_name@,
                field_name: field_name@,
            },
            TypeResolveError::FieldAccessOnNonStruct { ty, field } =>
                TypeResolveErrorView::FieldAccessOnNonStruct { ty: ty@, field: field@ },
            TypeResolveError::MethodCallOnUnsupportedType { ty, method } =>
                TypeResolveErrorView::MethodCallOnUnsupportedType { ty: ty@, method: method@ },
            TypeResolveError::WrongTypeArgCount { func_name, expected, got } =>
                TypeResolveErrorView::WrongTypeArgCount {
                func_name: func_name@,
                expected: *expected as nat,
                got: *got as nat,
            },
            TypeResolveError::NonStructLitType { ty } => TypeResolveErrorView::NonStructLitType {
                ty: ty@,
            },
            TypeResolveError::IfConditionNotBool { ty } =>
                TypeResolveErrorView::IfConditionNotBool { ty: ty@ },
            TypeResolveError::WhileConditionNotBool { ty } =>
                TypeResolveErrorView::WhileConditionNotBool { ty: ty@ },
            TypeResolveError::IfElseTypeMismatch { then_ty, else_ty } =>
                TypeResolveErrorView::IfElseTypeMismatch { then_ty: then_ty@, else_ty: else_ty@ },
            TypeResolveError::AssignTypeMismatch { name, expected, got } =>
                TypeResolveErrorView::AssignTypeMismatch {
                name: name@,
                expected: expected@,
                got: got@,
            },
            TypeResolveError::ArgTypeMismatch { func_name, param_index, expected, got } =>
                TypeResolveErrorView::ArgTypeMismatch {
                func_name: func_name@,
                param_index: *param_index as nat,
                expected: expected@,
                got: got@,
            },
            TypeResolveError::MainMustReturnVoid { got } =>
                TypeResolveErrorView::MainMustReturnVoid { got: got@ },
            TypeResolveError::RustTypeNotImported { name, context } =>
                TypeResolveErrorView::RustTypeNotImported { name: name@, context: context@ },
            TypeResolveError::RustTypeDeferred { context } =>
                TypeResolveErrorView::RustTypeDeferred { context: context@ },
            TypeResolveError::RecursiveStruct { name } => TypeResolveErrorView::RecursiveStruct {
                name: name@,
            },
            TypeResolveError::TraitCallWithoutReceiver { trait_name, method } =>
                TypeResolveErrorView::TraitCallWithoutReceiver {
                trait_name: trait_name@,
                method: method@,
            },
            TypeResolveError::AnswerPending { query } => TypeResolveErrorView::AnswerPending {
                query: query@,
            },
        }
    }
}

impl TypeResolveError {
    /// Whether the error only says that a question waits for a type parameter.
    pub fn is_deferred(&self) -> (r: bool)
        ensures
            r == (self@ is RustTypeDeferred),
    {
        match self {
            TypeResolveError::RustTypeDeferred { .. } => true,
            _ => false,
        }
    }
}

/// Whether two types agree as the type of an argument and of its parameter. A
/// toylang struct agrees with a Rust type of the same name, since the Rust
/// side does not show the fields of a struct of another toylang crate.
pub open spec fn types_agree(a: ResolvedTypeView, b: ResolvedTypeView) -> bool
    decreases a,
{
    match (a, b) {
        (
            ResolvedTypeView::RustType { name: na, type_args: ta },
            ResolvedTypeView::Struct { name: nb, type_args: tb, .. },
        ) => na == nb && all_types_agree(ta, tb),
        (
            ResolvedTypeView::Struct { name: na, type_args: ta, .. },
            ResolvedTypeView::RustType { name: nb, type_args: tb },
        ) => na == nb && all_types_agree(ta, tb),
        (ResolvedTypeView::Ref { inner: x }, ResolvedTypeView::Ref { inner: y }) => types_agree(
            *x,
            *y,
        ),
        _ => a == b,
    }
}

/// Whether two lists of types agree, position by position.
pub open spec fn all_types_agree(a: Seq<ResolvedTypeView>, b: Seq<ResolvedTypeView>) -> bool
    decreases a,
{
    a.len() == b.len() && forall|i: int|
        0 <= i < a.len() ==> types_agree(#[trigger] a[i], b[i])
}

/// Whether two types agree as the type of an argument and of its parameter.
pub fn types_match(a: &ResolvedType, b: &ResolvedType) -> (r: bool)
    ensures
        r == types_agree(a@, b@),
    decreases a,
{
    match (a, b) {
        (
            ResolvedType::RustType { name: na, type_args: ta },
            ResolvedType::Struct { name: nb, type_args: tb, .. },
        ) => *na == *nb && all_types_match(ta, tb),
        (
            ResolvedType::Struct { name: na, type_args: ta, .. },
            ResolvedType::RustType { name: nb, type_args: tb },
        ) => *na == *nb && all_types_match(ta, tb),
        (ResolvedType::Ref { inner: x }, ResolvedType::Ref { inner: y }) => types_match(x, y),
        _ => same_resolved_type(a, b),
    }
}

fn all_types_match(a: &Vec<ResolvedType>, b: &Vec<ResolvedType>) -> (r: bool)
    ensures
        r == all_types_agree(resolved_views(a@), resolved_views(b@)),
    decreases a,
{
    if a.len() != b.len() {
        return false;
    }
    let mut i: usize = 0;
    while i < a.len()
        invariant
            i <= a@.len() == b@.len(),
            forall|j: int|
                0 <= j < i ==> types_agree(#[trigger] resolved_views(a@)[j], resolved_views(b@)[j]),
        decreases a@.len() - i,
    {
        if !types_match(&a[i], &b[i]) {
            assert(!types_agree(resolved_views(a@)[i as int], resolved_views(b@)[i as int]));
            return false;
        }
        assert(types_agree(resolved_views(a@)[i as int], resolved_views(b@)[i as int]));
        i += 1;
    }
    true
}

/// What types are resolved against: the definitions, and what is known of
/// the Rust side.
pub struct Typing {
    pub registry: RegistryView,
    pub answers: RustAnswersView,
}

/// The types of the variables in scope.
pub type ScopeView = Seq<(Seq<char>, ResolvedTypeView)>;

/// The position of the first field of that name.
pub open spec fn field_index(fields: Seq<ToyFieldView>, name: Seq<char>) -> Option<nat>
    decreases fields.len(),
{
    if fields.len() == 0 {
        None
    } else if fields[0].name == name {
        Some(0)
    } else {
        match field_index(fields.drop_first(), name) {
            Some(i) => Some(i + 1),
            None => None,
        }
    }
}

/// The type of an integer literal where `expected` is wanted: it widens, and
/// never narrows.
pub open spec fn literal_type(n: i64, expected: ResolvedTypeView, ty: ResolvedTypeView) -> ResolvedTypeView {
    if expected is I64 && ty is I32 {
        ResolvedTypeView::I64
    } else if expected is Usize && (ty is I32 || ty is I64) && n >= 0 {
        ResolvedTypeView::Usize
    } else {
        ty
    }
}

/// Whether an operator yields a truth value.
pub open spec fn is_comparison(op: BinOp) -> bool {
    !(op is Add || op is Sub || op is Mul || op is Div)
}

/// The struct whose fields an access on a value of this type reads: the type
/// itself, or what it refers to where that is a struct.
pub open spec fn field_owner(ty: ResolvedTypeView) -> ResolvedTypeView {
    match ty {
        ResolvedTypeView::Ref { inner } => if *inner is Struct {
            *inner
        } else {
            ty
        },
        _ => ty,
    }
}

/// The type of a field of a value of type `ty`.
pub open spec fn access_type(ty: ResolvedTypeView, field: Seq<char>, cx: Typing) -> Result<
    ResolvedTypeView,
    TypeResolveErrorView,
> {
    match field_owner(ty) {
        ResolvedTypeView::Struct { name, type_args, field_types } => match find(
            cx.registry.structs,
            name,
        ) {
            None => Err(TypeResolveErrorView::UndefinedStruct { name }),
            Some(def) => match field_index(def.fields, field) {
                Some(i) => if i < field_types.len() {
                    Ok(field_types[i as int])
                } else {
                    Err(TypeResolveErrorView::FieldNotFound { struct_name: name, field_name: field })
                },
                None => Err(
                    TypeResolveErrorView::FieldNotFound { struct_name: name, field_name: field },
                ),
            },
        },
        _ => Err(TypeResolveErrorView::FieldAccessOnNonStruct { ty, field }),
    }
}

/// What a call of a function needs and gives.
pub struct SignatureView {
    /// The type arguments of the call.
    pub type_args: Seq<ResolvedTypeView>,
    /// The type of the call.
    pub ret: ResolvedTypeView,
    /// The type of each parameter, or why it has none.
    pub params: Seq<Result<ResolvedTypeView, TypeResolveErrorView>>,
}

/// The type of a parameter with the type arguments put in.
pub open spec fn param_type(
    t: SourceTypeView,
    env: Seq<(Seq<char>, ResolvedTypeView)>,
    cx: Typing,
) -> Result<ResolvedTypeView, TypeResolveErrorView> {
    resolve(substitute_source(t, env), cx.registry.structs)
}

/// The signature of a toylang function at a call with some type arguments.
pub open spec fn toylang_signature(
    name: Seq<char>,
    func: ToyFunctionView,
    type_args: Seq<ResolvedTypeView>,
    cx: Typing,
) -> Result<SignatureView, TypeResolveErrorView> {
    if type_args.len() != func.type_params.len() {
        Err(
            TypeResolveErrorView::WrongTypeArgCount {
                func_name: name,
                expected: func.type_params.len(),
                got: type_args.len(),
            },
        )
    } else {
        let env = bind_all(func.type_params, type_args);
        let ret = match func.return_ty {
            Some(t) => param_type(t, env, cx),
            None => Ok(ResolvedTypeView::Void),
        };
        match ret {
            Err(e) => Err(e),
            Ok(ret) => Ok(
                SignatureView {
                    type_args,
                    ret,
                    params: Seq::new(
                        func.params.len(),
                        |i: int| param_type(func.params[i].ty, env, cx),
                    ),
                },
            ),
        }
    }
}

/// The signature of a free function of the Rust side at a call with some type
/// arguments, given in source shape and resolved.
pub open spec fn rust_signature(
    name: Seq<char>,
    source_args: Seq<SourceTypeView>,
    type_args: Seq<ResolvedTypeView>,
    cx: Typing,
) -> Result<SignatureView, TypeResolveErrorView> {
    match ask_param_types(cx.answers, ""@, name, source_args) {
        Err(e) => Err(e),
        Ok(None) => Err(TypeResolveErrorView::UndefinedFunction { name }),
        Ok(Some(source_params)) => match resolve_all(source_params, cx.registry.structs) {
            Err(e) => Err(e),
            Ok(params) => match ask_return(cx.answers, ""@, name, source_args) {
                Err(e) => Err(e),
                Ok(source_ret) => match resolve(source_ret, cx.registry.structs) {
                    Err(e) => Err(e),
                    Ok(ret) => Ok(
                        SignatureView {
                            type_args,
                            ret,
                            params: Seq::new(params.len(), |i: int| Ok(params[i])),
                        },
                    ),
                },
            },
        },
    }
}

/// The signature of a function at a call with some type arguments.
pub open spec fn call_signature(name: Seq<char>, source_args: Seq<SourceTypeView>, cx: Typing) -> Result<
    SignatureView,
    TypeResolveErrorView,
> {
    match resolve_all(source_args, cx.registry.structs) {
        Err(e) => Err(e),
        Ok(type_args) => match find(cx.registry.functions, name) {
            Some(func) => toylang_signature(name, func, type_args, cx),
            None => rust_signature(name, source_args, type_args, cx),
        },
    }
}

/// Whether an argument of type `got` may stand where `want` is wanted. Void
/// wants nothing.
pub open spec fn accepts(want: ResolvedTypeView, got: ResolvedTypeView) -> bool {
    want is Void || types_agree(got, want)
}

/// The first argument, from `i` on, whose type its parameter does not accept.
/// The parameter of argument `i` is the one at `i + skip`.
pub open spec fn first_mismatch(
    args: Seq<TypedExprView>,
    params: Seq<ResolvedTypeView>,
    skip: nat,
    i: nat,
) -> Option<nat>
    decreases args.len() - i,
{
    if i >= args.len() {
        None
    } else if i + skip < params.len() && !accepts(params[(i + skip) as int], args[i as int].ty) {
        Some(i)
    } else {
        first_mismatch(args, params, skip, i + 1)
    }
}

/// The error of the first argument that its parameter does not accept.
pub open spec fn check_args(
    func_name: Seq<char>,
    args: Seq<TypedExprView>,
    params: Seq<ResolvedTypeView>,
    skip: nat,
) -> Option<TypeResolveErrorView> {
    match first_mismatch(args, params, skip, 0) {
        None => None,
        Some(i) => Some(
            TypeResolveErrorView::ArgTypeMismatch {
                func_name,
                param_index: i,
                expected: params[(i + skip) as int],
                got: args[i as int].ty,
            },
        ),
    }
}

/// The return type and the parameter types of a function of the Rust side.
pub open spec fn rust_types(
    owner: Seq<char>,
    method: Seq<char>,
    source_args: Seq<SourceTypeView>,
    cx: Typing,
) -> Result<(ResolvedTypeView, Seq<ResolvedTypeView>), TypeResolveErrorView> {
    match ask_return(cx.answers, owner, method, source_args) {
        Err(e) => Err(e),
        Ok(source_ret) => match ask_param_types(cx.answers, owner, method, source_args) {
            Err(e) => Err(e),
            Ok(source_params) => match resolve(source_ret, cx.registry.structs) {
                Err(e) => Err(e),
                Ok(ret) => match source_params {
                    None => Ok((ret, Seq::empty())),
                    Some(ts) => match resolve_all(ts, cx.registry.structs) {
                        Err(e) => Err(e),
                        Ok(params) => Ok((ret, params)),
                    },
                },
            },
        },
    }
}

/// The typed form of `ty::method<source_args>(args)`, once its arguments are
/// typed. Where `ty` names a trait, the type of the first argument decides
/// which impl is meant.
pub open spec fn static_call(
    ty: Seq<char>,
    method: Seq<char>,
    source_args: Seq<SourceTypeView>,
    type_args: Seq<ResolvedTypeView>,
    args: Seq<TypedExprView>,
    cx: Typing,
) -> Result<TypedExprView, TypeResolveErrorView> {
    match ask_trait(cx.answers, ty) {
        Err(e) => Err(e),
        Ok(is_trait) => if is_trait && args.len() == 0 {
            Err(TypeResolveErrorView::TraitCallWithoutReceiver { trait_name: ty, method })
        } else {
            let types = if is_trait {
                rust_types(
                    "__trait::"@ + ty,
                    method,
                    seq![demote(args[0].ty)] + source_args,
                    cx,
                )
            } else {
                rust_types(ty, method, source_args, cx)
            };
            match types {
                Err(e) => Err(e),
                Ok((ret, params)) => match check_args(ty + "::"@ + method, args, params, 0) {
                    Some(e) => Err(e),
                    None => Ok(
                        TypedExprView {
                            kind: TypedExprKindView::StaticCall { ty, method, type_args, args },
                            ty: ret,
                        },
                    ),
                },
            }
        },
    }
}

/// The Rust type, name and arguments, on which a method is called.
pub open spec fn rust_receiver(ty: ResolvedTypeView) -> Option<(Seq<char>, Seq<ResolvedTypeView>)> {
    match ty {
        ResolvedTypeView::RustType { name, type_args } => Some((name, type_args)),
        ResolvedTypeView::Ref { inner } => match *inner {
            ResolvedTypeView::RustType { name, type_args } => Some((name, type_args)),
            _ => None,
        },
        _ => None,
    }
}

/// What an expression is, with its type, where a value of type `expected` is
/// wanted; or the error of its leftmost part that has one.
pub open spec fn type_expr(
    e: ExprView,
    expected: ResolvedTypeView,
    scope: ScopeView,
    cx: Typing,
) -> Result<TypedExprView, TypeResolveErrorView>
    decreases e,
{
    match e {
        ExprView::IntLit(n, ty) => match resolve(ty, cx.registry.structs) {
            Err(e) => Err(e),
            Ok(ty) => Ok(
                TypedExprView {
                    kind: TypedExprKindView::IntLit(n),
                    ty: literal_type(n, expected, ty),
                },
            ),
        },
        ExprView::BoolLit(b) => Ok(
            TypedExprView { kind: TypedExprKindView::BoolLit(b), ty: ResolvedTypeView::Bool },
        ),
        ExprView::StringLit(s) => Ok(
            TypedExprView {
                kind: TypedExprKindView::StringLit(s),
                ty: ResolvedTypeView::Ref { inner: Box::new(ResolvedTypeView::Str) },
            },
        ),
        ExprView::ByteStringLit(b) => Ok(
            TypedExprView {
                kind: TypedExprKindView::ByteStringLit(b),
                ty: ResolvedTypeView::Ref { inner: Box::new(ResolvedTypeView::ByteSlice) },
            },
        ),
        ExprView::Var(name) => match find(scope, name) {
            None => Err(TypeResolveErrorView::UndefinedVariable { name }),
            Some(ty) => Ok(TypedExprView { kind: TypedExprKindView::Var(name), ty }),
        },
        ExprView::StructLit { name, type_args, fields } => match resolve(
            SourceTypeView::StructRef { name, type_args },
            cx.registry.structs,
        ) {
            Err(e) => Err(e),
            Ok(ty) => match ty {
                ResolvedTypeView::Struct { name: _, type_args: _, field_types } => match find(
                    cx.registry.structs,
                    name,
                ) {
                    None => Err(TypeResolveErrorView::UndefinedStruct { name }),
                    Some(def) => match type_fields(
                        fields,
                        name,
                        def.fields,
                        field_types,
                        scope,
                        cx,
                    ) {
                        Err(e) => Err(e),
                        Ok(typed) => Ok(
                            TypedExprView {
                                kind: TypedExprKindView::StructLit { name, fields: typed },
                                ty,
                            },
                        ),
                    },
                },
                _ => Err(TypeResolveErrorView::NonStructLitType { ty }),
            },
        },
        ExprView::FnCall { name, type_args, args } => match call_signature(name, type_args, cx) {
            Err(e) => Err(e),
            Ok(sig) => match type_call_args(args, 0, name, sig.params, scope, cx) {
                Err(e) => Err(e),
                Ok(typed) => Ok(
                    TypedExprView {
                        kind: TypedExprKindView::FnCall {
                            name,
                            type_args: sig.type_args,
                            args: typed,
                        },
                        ty: sig.ret,
                    },
                ),
            },
        },
        ExprView::BinaryOp { op, left, right } => match type_expr(
            *left,
            ResolvedTypeView::Void,
            scope,
            cx,
        ) {
            Err(e) => Err(e),
            Ok(l) => match type_expr(*right, l.ty, scope, cx) {
                Err(e) => Err(e),
                Ok(r) => Ok(
                    TypedExprView {
                        kind: TypedExprKindView::BinaryOp {
                            op,
                            left: Box::new(l),
                            right: Box::new(r),
                        },
                        ty: if is_comparison(op) {
                            ResolvedTypeView::Bool
                        } else {
                            l.ty
                        },
                    },
                ),
            },
        },
        ExprView::StaticCall { ty, method, type_args, args } => match resolve_all(
            type_args,
            cx.registry.structs,
        ) {
            Err(e) => Err(e),
            Ok(resolved) => match type_exprs(args, scope, cx) {
                Err(e) => Err(e),
                Ok(typed) => static_call(ty, method, type_args, resolved, typed, cx),
            },
        },
        ExprView::FieldAccess { receiver, field } => match type_expr(
            *receiver,
            ResolvedTypeView::Void,
            scope,
            cx,
        ) {
            Err(e) => Err(e),
            Ok(r) => match access_type(r.ty, field, cx) {
                Err(e) => Err(e),
                Ok(ty) => Ok(
                    TypedExprView {
                        kind: TypedExprKindView::FieldAccess { receiver: Box::new(r), field },
                        ty,
                    },
                ),
            },
        },
        ExprView::MethodCall { receiver, method, args } => match type_expr(
            *receiver,
            ResolvedTypeView::Void,
            scope,
            cx,
        ) {
            Err(e) => Err(e),
            Ok(r) => match rust_receiver(r.ty) {
                None => Err(
                    TypeResolveErrorView::MethodCallOnUnsupportedType { ty: r.ty, method },
                ),
                Some((name, type_args)) => match rust_types(
                    name,
                    method,
                    demote_all(type_args),
                    cx,
                ) {
                    Err(e) => Err(e),
                    Ok((ret, params)) => match type_exprs(args, scope, cx) {
                        Err(e) => Err(e),
                        Ok(typed) => match check_args(name + "."@ + method, typed, params, 1) {
                            Some(e) => Err(e),
                            None => Ok(
                                TypedExprView {
                                    kind: TypedExprKindView::MethodCall {
                                        receiver: Box::new(r),
                                        method,
                                        args: typed,
                                    },
                                    ty: ret,
                                },
                            ),
                        },
                    },
                },
            },
        },
        ExprView::UnaryNeg(inner) => match type_expr(*inner, expected, scope, cx) {
            Err(e) => Err(e),
            Ok(r) => Ok(
                TypedExprView {
                    kind: TypedExprKindView::BinaryOp {
                        op: BinOp::Sub,
                        left: Box::new(
                            TypedExprView { kind: TypedExprKindView::IntLit(0), ty: r.ty },
                        ),
                        right: Box::new(r),
                    },
                    ty: r.ty,
                },
            ),
        },
        ExprView::Ref(inner) => match type_expr(*inner, ResolvedTypeView::Void, scope, cx) {
            Err(e) => Err(e),
            Ok(r) => Ok(
                TypedExprView {
                    kind: TypedExprKindView::Ref(Box::new(r)),
                    ty: ResolvedTypeView::Ref { inner: Box::new(r.ty) },
                },
            ),
        },
        ExprView::If { cond, then_body, else_body } => match type_expr(
            *cond,
            ResolvedTypeView::Void,
            scope,
            cx,
        ) {
            Err(e) => Err(e),
            Ok(c) => if !(c.ty is Bool) {
                Err(TypeResolveErrorView::IfConditionNotBool { ty: c.ty })
            } else {
                match type_block(*then_body, ResolvedTypeView::Void, scope, cx) {
                    Err(e) => Err(e),
                    Ok((then_block, _)) => match else_body {
                        None => if_expr(
                            c,
                            then_block,
                            TypedBlockView { stmts: Seq::empty(), ret: None },
                        ),
                        Some(b) => match type_block(*b, ResolvedTypeView::Void, scope, cx) {
                            Err(e) => Err(e),
                            Ok((else_block, _)) => if_expr(c, then_block, else_block),
                        },
                    },
                }
            },
        },
    }
}

/// The typed form of a conditional, once its parts are typed. It has a value
/// where both branches have one, and these must then have the same type.
pub open spec fn if_expr(
    cond: TypedExprView,
    then_block: TypedBlockView,
    else_block: TypedBlockView,
) -> Result<TypedExprView, TypeResolveErrorView> {
    let kind = TypedExprKindView::If {
        cond: Box::new(cond),
        then_stmts: then_block.stmts,
        then_expr: match then_block.ret {
            Some(e) => Some(Box::new(e)),
            None => None,
        },
        else_stmts: else_block.stmts,
        else_expr: match else_block.ret {
            Some(e) => Some(Box::new(e)),
            None => None,
        },
    };
    match (then_block.ret, else_block.ret) {
        (Some(t), Some(e)) => if t.ty != e.ty {
            Err(TypeResolveErrorView::IfElseTypeMismatch { then_ty: t.ty, else_ty: e.ty })
        } else {
            Ok(TypedExprView { kind, ty: t.ty })
        },
        _ => Ok(TypedExprView { kind, ty: ResolvedTypeView::Void }),
    }
}

/// Several expressions with their types, nothing being wanted of them.
pub open spec fn type_exprs(es: Seq<ExprView>, scope: ScopeView, cx: Typing) -> Result<
    Seq<TypedExprView>,
    TypeResolveErrorView,
>
    decreases es,
{
    if es.len() == 0 {
        Ok(Seq::empty())
    } else {
        match type_expr(es[0], ResolvedTypeView::Void, scope, cx) {
            Err(e) => Err(e),
            Ok(first) => match type_exprs(es.drop_first(), scope, cx) {
                Err(e) => Err(e),
                Ok(rest) => Ok(seq![first] + rest),
            },
        }
    }
}

/// The arguments of a call, the first of which is argument `i`, with their
/// types.
pub open spec fn type_call_args(
    args: Seq<ExprView>,
    i: nat,
    func_name: Seq<char>,
    params: Seq<Result<ResolvedTypeView, TypeResolveErrorView>>,
    scope: ScopeView,
    cx: Typing,
) -> Result<Seq<TypedExprView>, TypeResolveErrorView>
    decreases args,
{
    if args.len() == 0 {
        Ok(Seq::empty())
    } else {
        let want = if i < params.len() {
            params[i as int]
        } else {
            Ok(ResolvedTypeView::Void)
        };
        match want {
            Err(e) => Err(e),
            Ok(want) => match type_expr(args[0], want, scope, cx) {
                Err(e) => Err(e),
                Ok(first) => if !accepts(want, first.ty) {
                    Err(
                        TypeResolveErrorView::ArgTypeMismatch {
                            func_name,
                            param_index: i,
                            expected: want,
                            got: first.ty,
                        },
                    )
                } else {
                    match type_call_args(args.drop_first(), i + 1, func_name, params, scope, cx) {
                        Err(e) => Err(e),
                        Ok(rest) => Ok(seq![first] + rest),
                    }
                },
            },
        }
    }
}

/// The fields of a literal of the struct `name` with their types.
pub open spec fn type_fields(
    fields: Seq<(Seq<char>, ExprView)>,
    name: Seq<char>,
    def: Seq<ToyFieldView>,
    field_types: Seq<ResolvedTypeView>,
    scope: ScopeView,
    cx: Typing,
) -> Result<Seq<(Seq<char>, TypedExprView)>, TypeResolveErrorView>
    decreases fields,
{
    if fields.len() == 0 {
        Ok(Seq::empty())
    } else {
        match field_index(def, fields[0].0) {
            Some(k) => if k < field_types.len() {
                match type_expr(fields[0].1, field_types[k as int], scope, cx) {
                    Err(e) => Err(e),
                    Ok(first) => match type_fields(
                        fields.drop_first(),
                        name,
                        def,
                        field_types,
                        scope,
                        cx,
                    ) {
                        Err(e) => Err(e),
                        Ok(rest) => Ok(seq![(fields[0].0, first)] + rest),
                    },
                }
            } else {
                Err(
                    TypeResolveErrorView::FieldNotFound {
                        struct_name: name,
                        field_name: fields[0].0,
                    },
                )
            },
            None => Err(
                TypeResolveErrorView::FieldNotFound { struct_name: name, field_name: fields[0].0 },
            ),
        }
    }
}

/// A statement with its types, and the scope behind it.
pub open spec fn type_stmt(s: StmtView, scope: ScopeView, cx: Typing) -> Result<
    (TypedStmtView, ScopeView),
    TypeResolveErrorView,
>
    decreases s,
{
    match s {
        StmtView::Let { name, expr } => match type_expr(expr, ResolvedTypeView::Void, scope, cx) {
            Err(e) => Err(e),
            Ok(t) => Ok((TypedStmtView::Let { name, expr: t }, put(scope, name, t.ty))),
        },
        StmtView::ExprStmt(expr) => match type_expr(expr, ResolvedTypeView::Void, scope, cx) {
            Err(e) => Err(e),
            Ok(t) => Ok((TypedStmtView::ExprStmt(t), scope)),
        },
        StmtView::While { cond, body } => match type_expr(cond, ResolvedTypeView::Void, scope, cx) {
            Err(e) => Err(e),
            Ok(c) => if !(c.ty is Bool) {
                Err(TypeResolveErrorView::WhileConditionNotBool { ty: c.ty })
            } else {
                match type_block(*body, ResolvedTypeView::Void, scope, cx) {
                    Err(e) => Err(e),
                    Ok((b, after)) => Ok((TypedStmtView::While { cond: c, body: b }, after)),
                }
            },
        },
        StmtView::Assign { name, expr } => match find(scope, name) {
            None => Err(TypeResolveErrorView::UndefinedVariable { name }),
            Some(ty) => match type_expr(expr, ty, scope, cx) {
                Err(e) => Err(e),
                Ok(t) => if t.ty != ty {
                    Err(TypeResolveErrorView::AssignTypeMismatch { name, expected: ty, got: t.ty })
                } else {
                    Ok((TypedStmtView::Assign { name, expr: t }, scope))
                },
            },
        },
    }
}

/// Several statements with their types, and the scope behind them.
pub open spec fn type_stmts(ss: Seq<StmtView>, scope: ScopeView, cx: Typing) -> Result<
    (Seq<TypedStmtView>, ScopeView),
    TypeResolveErrorView,
>
    decreases ss,
{
    if ss.len() == 0 {
        Ok((Seq::empty(), scope))
    } else {
        match type_stmt(ss[0], scope, cx) {
            Err(e) => Err(e),
            Ok((first, next)) => match type_stmts(ss.drop_first(), next, cx) {
                Err(e) => Err(e),
                Ok((rest, last)) => Ok((seq![first] + rest, last)),
            },
        }
    }
}

/// A block with its types, and the scope behind its statements. Of its value
/// `expected` is wanted.
pub open spec fn type_block(
    b: BlockView,
    expected: ResolvedTypeView,
    scope: ScopeView,
    cx: Typing,
) -> Result<(TypedBlockView, ScopeView), TypeResolveErrorView>
    decreases b,
{
    match type_stmts(b.stmts, scope, cx) {
        Err(e) => Err(e),
        Ok((stmts, after)) => match b.ret {
            None => Ok((TypedBlockView { stmts, ret: None }, after)),
            Some(e) => match type_expr(e, expected, after, cx) {
                Err(e) => Err(e),
                Ok(t) => Ok((TypedBlockView { stmts, ret: Some(t) }, after)),
            },
        },
    }
}

/// The scope that a statement without types leaves: the one before it, but
/// for the body of a loop, which leaves what its statements have bound.
pub open spec fn left_by_stmt(s: StmtView, scope: ScopeView, cx: Typing) -> ScopeView
    decreases s,
{
    match s {
        StmtView::While { cond, body } => match type_expr(cond, ResolvedTypeView::Void, scope, cx) {
            Ok(c) if c.ty is Bool => left_by_block(*body, scope, cx),
            _ => scope,
        },
        _ => scope,
    }
}

/// The scope that some statements leave, one of which has no types.
pub open spec fn left_by_stmts(ss: Seq<StmtView>, scope: ScopeView, cx: Typing) -> ScopeView
    decreases ss,
{
    if ss.len() == 0 {
        scope
    } else {
        match type_stmt(ss[0], scope, cx) {
            Err(_) => left_by_stmt(ss[0], scope, cx),
            Ok((_, next)) => left_by_stmts(ss.drop_first(), next, cx),
        }
    }
}

/// The scope that a block without types leaves.
pub open spec fn left_by_block(b: BlockView, scope: ScopeView, cx: Typing) -> ScopeView
    decreases b,
{
    left_by_stmts(b.stmts, scope, cx)
}

/// Statements that have types leave the scope behind them.
proof fn lemma_left_by_typed(ss: Seq<StmtView>, scope: ScopeView, cx: Typing)
    requires
        type_stmts(ss, scope, cx) is Ok,
    ensures
        left_by_stmts(ss, scope, cx) == type_stmts(ss, scope, cx)->Ok_0.1,
    decreases ss,
{
    if ss.len() > 0 {
        let (_, next) = type_stmt(ss[0], scope, cx)->Ok_0;
        lemma_left_by_typed(ss.drop_first(), next, cx);
    }
}

/// The scope that the parameters of a function give its body.
pub open spec fn param_scope(
    params: Seq<ToyParamView>,
    scope: ScopeView,
    cx: Typing,
) -> Result<ScopeView, TypeResolveErrorView>
    decreases params.len(),
{
    if params.len() == 0 {
        Ok(scope)
    } else {
        match resolve(params[0].ty, cx.registry.structs) {
            Err(e) => Err(e),
            Ok(ty) => param_scope(params.drop_first(), put(scope, params[0].name, ty), cx),
        }
    }
}

/// The type that a function returns.
pub open spec fn return_type(func: ToyFunctionView, cx: Typing) -> Result<
    ResolvedTypeView,
    TypeResolveErrorView,
> {
    match func.return_ty {
        Some(t) => resolve(t, cx.registry.structs),
        None => Ok(ResolvedTypeView::Void),
    }
}

/// The body of a function with its types.
pub open spec fn type_fn_body(func: ToyFunctionView, body: BlockView, cx: Typing) -> Result<
    TypedBlockView,
    TypeResolveErrorView,
> {
    match return_type(func, cx) {
        Err(e) => Err(e),
        Ok(ret) => match param_scope(func.params, Seq::empty(), cx) {
            Err(e) => Err(e),
            Ok(scope) => match type_block(body, ret, scope, cx) {
                Err(e) => Err(e),
                Ok((b, _)) => Ok(b),
            },
        },
    }
}

/// The view of the outcome of typing an expression.
pub open spec fn expr_outcome(r: Result<TypedExpr, TypeResolveError>) -> Result<
    TypedExprView,
    TypeResolveErrorView,
> {
    match r {
        Ok(t) => Ok(t@),
        Err(e) => Err(e@),
    }
}

/// The view of the outcome of typing several expressions.
pub open spec fn exprs_outcome(r: Result<Vec<TypedExpr>, TypeResolveError>) -> Result<
    Seq<TypedExprView>,
    TypeResolveErrorView,
> {
    match r {
        Ok(ts) => Ok(typed_expr_views(ts@)),
        Err(e) => Err(e@),
    }
}

/// The position of the field of that name, or the error that there is none.
pub fn find_field_index(toy_struct: &ToyStruct, struct_name: &str, field_name: &str) -> (r: Result<
    usize,
    TypeResolveError,
>)
    ensures
        match field_index(toy_struct@.fields, field_name@) {
            Some(i) => r is Ok && r->Ok_0 == i && i < toy_struct@.fields.len(),
            None => r is Err && r->Err_0@ == (TypeResolveErrorView::FieldNotFound {
                struct_name: struct_name@,
                field_name: field_name@,
            }),
        },
{
    let ghost all = toy_struct@.fields;
    let mut i: usize = 0;
    assert(all.skip(0) =~= all);
    while i < toy_struct.fields.len()
        invariant
            i <= toy_struct.fields@.len(),
            all == views(toy_struct.fields@),
            field_index(all, field_name@) == (match field_index(all.skip(i as int), field_name@) {
                Some(k) => Some((k + i) as nat),
                None => None,
            }),
        decreases toy_struct.fields@.len() - i,
    {
        assert(all.skip(i as int).drop_first() =~= all.skip(i + 1));
        assert(all.skip(i as int)[0] == toy_struct.fields@[i as int]@);
        if same_text(&toy_struct.fields[i].name, field_name) {
            return Ok(i);
        }
        i += 1;
    }
    Err(
        TypeResolveError::FieldNotFound {
            struct_name: owned(struct_name),
            field_name: owned(field_name),
        },
    )
}

/// What a call of a function needs and gives.
struct Signature {
    type_args: Vec<ResolvedType>,
    ret: ResolvedType,
    params: Vec<Result<ResolvedType, TypeResolveError>>,
}

spec fn outcome_views(s: Seq<Result<ResolvedType, TypeResolveError>>) -> Seq<
    Result<ResolvedTypeView, TypeResolveErrorView>,
> {
    Seq::new(s.len(), |i: int| resolved_outcome(s[i]))
}

impl Signature {
    spec fn model(&self) -> SignatureView {
        SignatureView {
            type_args: resolved_views(self.type_args@),
            ret: self.ret@,
            params: outcome_views(self.params@),
        }
    }
}

spec fn signature_outcome(r: Result<Signature, TypeResolveError>) -> Result<
    SignatureView,
    TypeResolveErrorView,
> {
    match r {
        Ok(s) => Ok(s.model()),
        Err(e) => Err(e@),
    }
}

spec fn types_outcome(r: Result<(ResolvedType, Vec<ResolvedType>), TypeResolveError>) -> Result<
    (ResolvedTypeView, Seq<ResolvedTypeView>),
    TypeResolveErrorView,
> {
    match r {
        Ok((t, ts)) => Ok((t@, resolved_views(ts@))),
        Err(e) => Err(e@),
    }
}

/// Gives types, against the definitions of a registry and what is known of
/// the Rust side.
struct Resolver<'a> {
    registry: &'a ToylangRegistry,
    answers: &'a RustAnswers,
}

impl<'a> Resolver<'a> {
    spec fn cx(&self) -> Typing {
        Typing { registry: self.registry@, answers: self.answers@ }
    }

    fn toylang_signature(&self, name: &str, func: &ToyFunction, type_args: Vec<ResolvedType>) -> (r: Result<
        Signature,
        TypeResolveError,
    >)
        ensures
            signature_outcome(r) == toylang_signature(
                name@,
                func@,
                resolved_views(type_args@),
                self.cx(),
            ),
    {
        if type_args.len() != func.type_params.len() {
            return Err(
                TypeResolveError::WrongTypeArgCount {
                    func_name: owned(name),
                    expected: func.type_params.len(),
                    got: type_args.len(),
                },
            );
        }
        let env = bind_params(&func.type_params, &type_args);
        let ret = match &func.return_ty {
            Some(t) => match resolve_source_type(&substitute_source_type(t, &env), self.registry) {
                Ok(ret) => ret,
                Err(e) => {
                    return Err(e);
                },
            },
            None => ResolvedType::Void,
        };
        let mut params: Vec<Result<ResolvedType, TypeResolveError>> = Vec::new();
        let mut i: usize = 0;
        while i < func.params.len()
            invariant
                i == params@.len(),
                i <= func.params@.len(),
                forall|j: int|
                    0 <= j < i ==> resolved_outcome(#[trigger] params@[j]) == param_type(
                        func.params@[j].ty@,
                        env@,
                        self.cx(),
                    ),
            decreases func.params@.len() - i,
        {
            params.push(
                resolve_source_type(&substitute_source_type(&func.params[i].ty, &env), self.registry),
            );
            i += 1;
        }
        let sig = Signature { type_args, ret, params };
        assert(sig.model().params =~= Seq::new(
            func@.params.len(),
            |i: int| param_type(func@.params[i].ty, env@, self.cx()),
        ));
        Ok(sig)
    }

    fn rust_signature(
        &self,
        name: &str,
        source_args: &Vec<SourceType>,
        type_args: Vec<ResolvedType>,
    ) -> (r: Result<Signature, TypeResolveError>)
        ensures
            signature_outcome(r) == rust_signature(
                name@,
                source_views(source_args@),
                resolved_views(type_args@),
                self.cx(),
            ),
    {
        let source_params = match self.answers.param_types_of("", name, source_args) {
            Err(e) => {
                return Err(e);
            },
            Ok(None) => {
                return Err(TypeResolveError::UndefinedFunction { name: owned(name) });
            },
            Ok(Some(ts)) => ts,
        };
        let resolved = match resolve_source_types(source_params, self.registry) {
            Err(e) => {
                return Err(e);
            },
            Ok(ts) => ts,
        };
        let source_ret = match self.answers.method_return("", name, source_args) {
            Err(e) => {
                return Err(e);
            },
            Ok(t) => t,
        };
        let ret = match resolve_source_type(source_ret, self.registry) {
            Err(e) => {
                return Err(e);
            },
            Ok(t) => t,
        };
        let mut params: Vec<Result<ResolvedType, TypeResolveError>> = Vec::new();
        let mut i: usize = 0;
        while i < resolved.len()
            invariant
                i == params@.len(),
                i <= resolved@.len(),
                forall|j: int|
                    0 <= j < i ==> resolved_outcome(#[trigger] params@[j]) == Ok::<
                        ResolvedTypeView,
                        TypeResolveErrorView,
                    >(resolved@[j].model()),
            decreases resolved@.len() - i,
        {
            params.push(Ok(resolved[i].duplicate()));
            i += 1;
        }
        let sig = Signature { type_args, ret, params };
        assert(sig.model().params =~= Seq::new(
            resolved_views(resolved@).len(),
            |i: int| Ok(resolved_views(resolved@)[i]),
        ));
        Ok(sig)
    }

    fn call_signature(&self, name: &str, source_args: &Vec<SourceType>) -> (r: Result<
        Signature,
        TypeResolveError,
    >)
        ensures
            signature_outcome(r) == call_signature(name@, source_views(source_args@), self.cx()),
    {
        let type_args = match resolve_source_types(source_args, self.registry) {
            Err(e) => {
                return Err(e);
            },
            Ok(ts) => ts,
        };
        match self.registry.functions.get(name) {
            Some(func) => self.toylang_signature(name, func, type_args),
            None => self.rust_signature(name, source_args, type_args),
        }
    }

    fn rust_types(&self, owner: &str, method: &str, source_args: &Vec<SourceType>) -> (r: Result<
        (ResolvedType, Vec<ResolvedType>),
        TypeResolveError,
    >)
        ensures
            types_outcome(r) == rust_types(
                owner@,
                method@,
                source_views(source_args@),
                self.cx(),
            ),
    {
        let source_ret = match self.answers.method_return(owner, method, source_args) {
            Err(e) => {
                return Err(e);
            },
            Ok(t) => t,
        };
        let source_params = match self.answers.param_types_of(owner, method, source_args) {
            Err(e) => {
                return Err(e);
            },
            Ok(ts) => ts,
        };
        let ret = match resolve_source_type(source_ret, self.registry) {
            Err(e) => {
                return Err(e);
            },
            Ok(t) => t,
        };
        match source_params {
            None => {
                let none: Vec<ResolvedType> = Vec::new();
                assert(resolved_views(none@) =~= Seq::empty());
                Ok((ret, none))
            },
            Some(ts) => match resolve_source_types(ts, self.registry) {
                Err(e) => Err(e),
                Ok(params) => Ok((ret, params)),
            },
        }
    }

    /// The error of the first argument that its parameter does not accept.
    fn check_args(
        &self,
        func_name: String,
        args: &Vec<TypedExpr>,
        params: &Vec<ResolvedType>,
        skip: usize,
    ) -> (r: Option<TypeResolveError>)
        requires
            skip <= 1,
        ensures
            (match r {
                Some(e) => Some(e@),
                None => None,
            }) == check_args(
                func_name@,
                typed_expr_views(args@),
                resolved_views(params@),
                skip as nat,
            ),
    {
        let ghost all = typed_expr_views(args@);
        let ghost wanted = resolved_views(params@);
        let mut i: usize = 0;
        while i < args.len()
            invariant
                i <= args@.len(),
                skip <= 1,
                all == typed_expr_views(args@),
                wanted == resolved_views(params@),
                first_mismatch(all, wanted, skip as nat, 0) == first_mismatch(
                    all,
                    wanted,
                    skip as nat,
                    i as nat,
                ),
            decreases args@.len() - i,
        {
            assert(all[i as int].ty == args@[i as int].ty@);
            let k: usize = i + skip;
            if k < params.len() {
                assert(wanted[k as int] == params@[k as int]@);
                if !self.accepts(&params[k], &args[i].ty) {
                    return Some(
                        TypeResolveError::ArgTypeMismatch {
                            func_name,
                            param_index: i,
                            expected: params[k].duplicate(),
                            got: args[i].ty.duplicate(),
                        },
                    );
                }
            }
            i += 1;
        }
        None
    }

    fn accepts(&self, want: &ResolvedType, got: &ResolvedType) -> (r: bool)
        ensures
            r == accepts(want@, got@),
    {
        match want {
            ResolvedType::Void => true,
            _ => types_match(got, want),
        }
    }

    fn static_call(
        &self,
        ty: &String,
        method: &String,
        source_args: &Vec<SourceType>,
        type_args: Vec<ResolvedType>,
        args: Vec<TypedExpr>,
    ) -> (r: Result<TypedExpr, TypeResolveError>)
        ensures
            expr_outcome(r) == static_call(
                ty@,
                method@,
                source_views(source_args@),
                resolved_views(type_args@),
                typed_expr_views(args@),
                self.cx(),
            ),
    {
        let is_trait = match self.answers.is_rust_trait(ty) {
            Err(e) => {
                return Err(e);
            },
            Ok(b) => b,
        };
        let types = if is_trait {
            if args.len() == 0 {
                return Err(
                    TypeResolveError::TraitCallWithoutReceiver {
                        trait_name: ty.clone(),
                        method: method.clone(),
                    },
                );
            }
            let mut extended: Vec<SourceType> = Vec::new();
            extended.push(args[0].ty.to_source_type());
            let mut i: usize = 0;
            while i < source_args.len()
                invariant
                    i <= source_args@.len(),
                    args@.len() > 0,
                    extended@.len() == i + 1,
                    extended@[0].model() == demote(args@[0].ty.model()),
                    forall|j: int|
                        0 <= j < i ==> (#[trigger] extended@[j + 1]).model()
                            == source_args@[j].model(),
                decreases source_args@.len() - i,
            {
                extended.push(source_args[i].duplicate());
                i += 1;
            }
            let mut key = owned("__trait::");
            key.append(ty);
            proof {
                let wanted = seq![demote(typed_expr_views(args@)[0].ty)] + source_views(source_args@);
                let got = source_views(extended@);
                assert forall|j: int| 0 <= j < wanted.len() implies got[j] == wanted[j] by {
                    if j > 0 {
                        assert(extended@[(j - 1) + 1].model() == source_args@[j - 1].model());
                    }
                }
                assert(got =~= wanted);
            }
            self.rust_types(&key, method, &extended)
        } else {
            self.rust_types(ty, method, source_args)
        };
        let (ret, params) = match types {
            Err(e) => {
                return Err(e);
            },
            Ok(p) => p,
        };
        let mut func_name = ty.clone();
        func_name.append("::");
        func_name.append(method);
        match self.check_args(func_name, &args, &params, 0) {
            Some(e) => Err(e),
            None => Ok(
                TypedExpr {
                    kind: TypedExprKind::StaticCall {
                        ty: ty.clone(),
                        method: method.clone(),
                        type_args,
                        args,
                    },
                    ty: ret,
                },
            ),
        }
    }

    fn access_type(&self, ty: &ResolvedType, field: &String) -> (r: Result<
        ResolvedType,
        TypeResolveError,
    >)
        ensures
            resolved_outcome(r) == access_type(ty@, field@, self.cx()),
    {
        proof {
            reveal_with_fuel(ResolvedType::model, 2);
        }
        let owner = match ty {
            ResolvedType::Ref { inner } => match &**inner {
                ResolvedType::Struct { .. } => &**inner,
                _ => ty,
            },
            _ => ty,
        };
        assert(owner@ == field_owner(ty@));
        match owner {
            ResolvedType::Struct { name, type_args, field_types } => {
                let toy_struct = match self.registry.structs.get(name) {
                    Some(s) => s,
                    None => {
                        return Err(TypeResolveError::UndefinedStruct { name: name.clone() });
                    },
                };
                let i = match find_field_index(toy_struct, name, field) {
                    Ok(i) => i,
                    Err(e) => {
                        return Err(e);
                    },
                };
                if i < field_types.len() {
                    Ok(field_types[i].duplicate())
                } else {
                    Err(
                        TypeResolveError::FieldNotFound {
                            struct_name: name.clone(),
                            field_name: field.clone(),
                        },
                    )
                }
            },
            _ => Err(
                TypeResolveError::FieldAccessOnNonStruct {
                    ty: ty.duplicate(),
                    field: field.clone(),
                },
            ),
        }
    }

    fn if_expr(&self, cond: TypedExpr, then_block: TypedBlock, else_block: TypedBlock) -> (r: Result<
        TypedExpr,
        TypeResolveError,
    >)
        ensures
            expr_outcome(r) == if_expr(cond@, then_block@, else_block@),
    {
        let ty = match (&then_block.ret, &else_block.ret) {
            (Some(t), Some(e)) => {
                if !same_resolved_type(&t.ty, &e.ty) {
                    return Err(
                        TypeResolveError::IfElseTypeMismatch {
                            then_ty: t.ty.duplicate(),
                            else_ty: e.ty.duplicate(),
                        },
                    );
                }
                t.ty.duplicate()
            },
            _ => ResolvedType::Void,
        };
        Ok(
            TypedExpr {
                kind: TypedExprKind::If {
                    cond: Box::new(cond),
                    then_stmts: then_block.stmts,
                    then_expr: match then_block.ret {
                        Some(e) => Some(Box::new(e)),
                        None => None,
                    },
                    else_stmts: else_block.stmts,
                    else_expr: match else_block.ret {
                        Some(e) => Some(Box::new(e)),
                        None => None,
                    },
                },
                ty,
            },
        )
    }

    fn literal_type(&self, n: i64, expected: &ResolvedType, ty: ResolvedType) -> (r: ResolvedType)
        ensures
            r@ == literal_type(n, expected@, ty@),
    {
        match (expected, &ty) {
            (ResolvedType::I64, ResolvedType::I32) => ResolvedType::I64,
            (ResolvedType::Usize, ResolvedType::I32) => if n >= 0 {
                ResolvedType::Usize
            } else {
                ty
            },
            (ResolvedType::Usize, ResolvedType::I64) => if n >= 0 {
                ResolvedType::Usize
            } else {
                ty
            },
            _ => ty,
        }
    }

    fn resolve_expr(&self, e: &Expr, expected: &ResolvedType, scope: &NameMap<ResolvedType>) -> (r: Result<
        TypedExpr,
        TypeResolveError,
    >)
        ensures
            expr_outcome(r) == type_expr(e@, expected@, scope@, self.cx()),
        decreases e,
    {
        match e {
            Expr::IntLit(n, ty) => match resolve_source_type(ty, self.registry) {
                Err(e) => Err(e),
                Ok(ty) => Ok(
                    TypedExpr {
                        kind: TypedExprKind::IntLit(*n),
                        ty: self.literal_type(*n, expected, ty),
                    },
                ),
            },
            Expr::BoolLit(b) => Ok(
                TypedExpr { kind: TypedExprKind::BoolLit(*b), ty: ResolvedType::Bool },
            ),
            Expr::StringLit(s) => {
                proof {
                    reveal_with_fuel(ResolvedType::model, 2);
                }
                Ok(
                    TypedExpr {
                        kind: TypedExprKind::StringLit(s.clone()),
                        ty: ResolvedType::Ref { inner: Box::new(ResolvedType::Str) },
                    },
                )
            },
            Expr::ByteStringLit(b) => {
                proof {
                    reveal_with_fuel(ResolvedType::model, 2);
                }
                Ok(
                    TypedExpr {
                        kind: TypedExprKind::ByteStringLit(clone_bytes(b)),
                        ty: ResolvedType::Ref { inner: Box::new(ResolvedType::ByteSlice) },
                    },
                )
            },
            Expr::Var(name) => match scope.get(name) {
                None => Err(TypeResolveError::UndefinedVariable { name: name.clone() }),
                Some(ty) => Ok(
                    TypedExpr { kind: TypedExprKind::Var(name.clone()), ty: ty.duplicate() },
                ),
            },
            Expr::StructLit { name, type_args, fields } => {
                let source = SourceType::StructRef {
                    name: name.clone(),
                    type_args: clone_source_types(type_args),
                };
                let ty = match resolve_source_type(&source, self.registry) {
                    Err(e) => {
                        return Err(e);
                    },
                    Ok(ty) => ty,
                };
                let typed = match &ty {
                    ResolvedType::Struct { name: _, type_args: _, field_types } => {
                        let toy_struct = match self.registry.structs.get(name) {
                            None => {
                                return Err(TypeResolveError::UndefinedStruct { name: name.clone() });
                            },
                            Some(s) => s,
                        };
                        match self.resolve_fields(fields, name, toy_struct, field_types, scope) {
                            Err(e) => {
                                return Err(e);
                            },
                            Ok(typed) => typed,
                        }
                    },
                    _ => {
                        return Err(TypeResolveError::NonStructLitType { ty });
                    },
                };
                Ok(
                    TypedExpr {
                        kind: TypedExprKind::StructLit { name: name.clone(), fields: typed },
                        ty,
                    },
                )
            },
            Expr::FnCall { name, type_args, args } => {
                let sig = match self.call_signature(name, type_args) {
                    Err(e) => {
                        return Err(e);
                    },
                    Ok(sig) => sig,
                };
                let Signature { type_args: resolved, ret, params } = sig;
                let typed = match self.resolve_call_args(args, name, params, scope) {
                    Err(e) => {
                        return Err(e);
                    },
                    Ok(typed) => typed,
                };
                Ok(
                    TypedExpr {
                        kind: TypedExprKind::FnCall {
                            name: name.clone(),
                            type_args: resolved,
                            args: typed,
                        },
                        ty: ret,
                    },
                )
            },
            Expr::BinaryOp { op, left, right } => {
                let l = match self.resolve_expr(left, &ResolvedType::Void, scope) {
                    Err(e) => {
                        return Err(e);
                    },
                    Ok(l) => l,
                };
                let r = match self.resolve_expr(right, &l.ty, scope) {
                    Err(e) => {
                        return Err(e);
                    },
                    Ok(r) => r,
                };
                let ty = match op {
                    BinOp::Add | BinOp::Sub | BinOp::Mul | BinOp::Div => l.ty.duplicate(),
                    _ => ResolvedType::Bool,
                };
                Ok(
                    TypedExpr {
                        kind: TypedExprKind::BinaryOp {
                            op: *op,
                            left: Box::new(l),
                            right: Box::new(r),
                        },
                        ty,
                    },
                )
            },
            Expr::StaticCall { ty, method, type_args, args } => {
                let resolved = match resolve_source_types(type_args, self.registry) {
                    Err(e) => {
                        return Err(e);
                    },
                    Ok(ts) => ts,
                };
                match self.resolve_exprs(args, scope) {
                    Err(e) => Err(e),
                    Ok(typed) => self.static_call(ty, method, type_args, resolved, typed),
                }
            },
            Expr::FieldAccess { receiver, field } => {
                let r = match self.resolve_expr(receiver, &ResolvedType::Void, scope) {
                    Err(e) => {
                        return Err(e);
                    },
                    Ok(r) => r,
                };
                match self.access_type(&r.ty, field) {
                    Err(e) => Err(e),
                    Ok(ty) => Ok(
                        TypedExpr {
                            kind: TypedExprKind::FieldAccess {
                                receiver: Box::new(r),
                                field: field.clone(),
                            },
                            ty,
                        },
                    ),
                }
            },
            Expr::MethodCall { receiver, method, args } => {
                let r = match self.resolve_expr(receiver, &ResolvedType::Void, scope) {
                    Err(e) => {
                        return Err(e);
                    },
                    Ok(r) => r,
                };
                let (ret, params, mut func_name) = match self.method_types(&r.ty, method) {
                    Err(e) => {
                        return Err(e);
                    },
                    Ok(p) => p,
                };
                let typed = match self.resolve_exprs(args, scope) {
                    Err(e) => {
                        return Err(e);
                    },
                    Ok(typed) => typed,
                };
                match self.check_args(func_name, &typed, &params, 1) {
                    Some(e) => Err(e),
                    None => Ok(
                        TypedExpr {
                            kind: TypedExprKind::MethodCall {
                                receiver: Box::new(r),
                                method: method.clone(),
                                args: typed,
                            },
                            ty: ret,
                        },
                    ),
                }
            },
            Expr::UnaryNeg(inner) => match self.resolve_expr(inner, expected, scope) {
                Err(e) => Err(e),
                Ok(r) => {
                    proof {
                        reveal_with_fuel(TypedExpr::model, 3);
                        reveal_with_fuel(TypedExprKind::model, 3);
                    }
                    let ty = r.ty.duplicate();
                    let zero = TypedExpr { kind: TypedExprKind::IntLit(0), ty: r.ty.duplicate() };
                    Ok(
                        TypedExpr {
                            kind: TypedExprKind::BinaryOp {
                                op: BinOp::Sub,
                                left: Box::new(zero),
                                right: Box::new(r),
                            },
                            ty,
                        },
                    )
                },
            },
            Expr::Ref(inner) => match self.resolve_expr(inner, &ResolvedType::Void, scope) {
                Err(e) => Err(e),
                Ok(r) => {
                    let ty = ResolvedType::Ref { inner: Box::new(r.ty.duplicate()) };
                    Ok(TypedExpr { kind: TypedExprKind::Ref(Box::new(r)), ty })
                },
            },
            Expr::If { cond, then_body, else_body } => {
                let c = match self.resolve_expr(cond, &ResolvedType::Void, scope) {
                    Err(e) => {
                        return Err(e);
                    },
                    Ok(c) => c,
                };
                match &c.ty {
                    ResolvedType::Bool => {},
                    _ => {
                        return Err(
                            TypeResolveError::IfConditionNotBool { ty: c.ty.duplicate() },
                        );
                    },
                }
                let mut then_scope = scope.duplicate();
                let then_block = match self.resolve_block(
                    then_body,
                    &ResolvedType::Void,
                    &mut then_scope,
                ) {
                    Err(e) => {
                        return Err(e);
                    },
                    Ok(b) => b,
                };
                let else_block = match else_body {
                    None => {
                        let none = TypedBlock { stmts: Vec::new(), ret: None };
                        assert(none@.stmts =~= Seq::empty());
                        none
                    },
                    Some(b) => {
                        let mut else_scope = scope.duplicate();
                        match self.resolve_block(b, &ResolvedType::Void, &mut else_scope) {
                            Err(e) => {
                                return Err(e);
                            },
                            Ok(b) => b,
                        }
                    },
                };
                self.if_expr(c, then_block, else_block)
            },
        }
    }

    /// The return type and the parameter types of a method of a value of type
    /// `ty`, and the name by which errors call it.
    fn method_types(&self, ty: &ResolvedType, method: &String) -> (r: Result<
        (ResolvedType, Vec<ResolvedType>, String),
        TypeResolveError,
    >)
        ensures
            match rust_receiver(ty@) {
                None => r is Err && r->Err_0@ == (
                TypeResolveErrorView::MethodCallOnUnsupportedType { ty: ty@, method: method@ }),
                Some((name, type_args)) => match rust_types(
                    name,
                    method@,
                    demote_all(type_args),
                    self.cx(),
                ) {
                    Err(e) => r is Err && r->Err_0@ == e,
                    Ok((ret, params)) => r is Ok && r->Ok_0.0@ == ret && resolved_views(r->Ok_0.1@)
                        == params && r->Ok_0.2@ == name + "."@ + method@,
                },
            },
    {
        proof {
            reveal_with_fuel(ResolvedType::model, 2);
        }
        let target = match ty {
            ResolvedType::RustType { .. } => ty,
            ResolvedType::Ref { inner } => &**inner,
            _ => ty,
        };
        match target {
            ResolvedType::RustType { name, type_args } => {
                let source_args = to_source_types(type_args);
                let mut func_name = name.clone();
                func_name.append(".");
                func_name.append(method);
                match self.rust_types(name, method, &source_args) {
                    Err(e) => Err(e),
                    Ok((ret, params)) => Ok((ret, params, func_name)),
                }
            },
            _ => Err(
                TypeResolveError::MethodCallOnUnsupportedType {
                    ty: ty.duplicate(),
                    method: method.clone(),
                },
            ),
        }
    }

    fn resolve_exprs(&self, es: &Vec<Expr>, scope: &NameMap<ResolvedType>) -> (r: Result<
        Vec<TypedExpr>,
        TypeResolveError,
    >)
        ensures
            exprs_outcome(r) == type_exprs(expr_views(es@), scope@, self.cx()),
        decreases es,
    {
        let ghost all = expr_views(es@);
        let ghost whole = type_exprs(all, scope@, self.cx());
        let mut out: Vec<TypedExpr> = Vec::new();
        let mut i: usize = 0;
        assert(all.skip(0) =~= all);
        assert(whole is Ok ==> typed_expr_views(out@) + whole->Ok_0 =~= whole->Ok_0);
        while i < es.len()
            invariant
                i <= es@.len(),
                all == expr_views(es@),
                whole == type_exprs(all, scope@, self.cx()),
                whole == (match type_exprs(all.skip(i as int), scope@, self.cx()) {
                    Ok(rest) => Ok(typed_expr_views(out@) + rest),
                    Err(e) => Err(e),
                }),
            decreases es@.len() - i,
        {
            let ghost done = typed_expr_views(out@);
            assert(all.skip(i as int).drop_first() =~= all.skip(i + 1));
            assert(all.skip(i as int)[0] == es@[i as int].model());
            let one = match self.resolve_expr(&es[i], &ResolvedType::Void, scope) {
                Ok(t) => t,
                Err(e) => {
                    return Err(e);
                },
            };
            out.push(one);
            assert(typed_expr_views(out@) =~= done.push(out@.last().model()));
            assert(forall|rest: Seq<TypedExprView>|
                #[trigger] (typed_expr_views(out@) + rest) =~= done + (seq![out@.last().model()]
                    + rest));
            i += 1;
        }
        assert(all.skip(i as int).len() == 0);
        assert(typed_expr_views(out@) + Seq::<TypedExprView>::empty() =~= typed_expr_views(out@));
        Ok(out)
    }

    fn resolve_call_args(
        &self,
        args: &Vec<Expr>,
        name: &str,
        params: Vec<Result<ResolvedType, TypeResolveError>>,
        scope: &NameMap<ResolvedType>,
    ) -> (r: Result<Vec<TypedExpr>, TypeResolveError>)
        ensures
            exprs_outcome(r) == type_call_args(
                expr_views(args@),
                0,
                name@,
                outcome_views(params@),
                scope@,
                self.cx(),
            ),
        decreases args,
    {
        let ghost all = expr_views(args@);
        let ghost wanted = outcome_views(params@);
        let ghost whole = type_call_args(all, 0, name@, wanted, scope@, self.cx());
        let mut slots = params;
        let mut out: Vec<TypedExpr> = Vec::new();
        let mut i: usize = 0;
        assert(all.skip(0) =~= all);
        assert(whole is Ok ==> typed_expr_views(out@) + whole->Ok_0 =~= whole->Ok_0);
        while i < args.len()
            invariant
                i <= args@.len(),
                all == expr_views(args@),
                wanted == outcome_views(params@),
                slots@.len() == wanted.len(),
                forall|j: int|
                    i <= j < slots@.len() ==> resolved_outcome(#[trigger] slots@[j]) == wanted[j],
                whole == type_call_args(all, 0, name@, wanted, scope@, self.cx()),
                whole == (match type_call_args(
                    all.skip(i as int),
                    i as nat,
                    name@,
                    wanted,
                    scope@,
                    self.cx(),
                ) {
                    Ok(rest) => Ok(typed_expr_views(out@) + rest),
                    Err(e) => Err(e),
                }),
            decreases args@.len() - i,
        {
            let ghost done = typed_expr_views(out@);
            assert(all.skip(i as int).drop_first() =~= all.skip(i + 1));
            assert(all.skip(i as int)[0] == args@[i as int].model());
            let want = if i < slots.len() {
                let mut slot: Result<ResolvedType, TypeResolveError> = Ok(ResolvedType::Void);
                let ghost before = slots@;
                assert(resolved_outcome(before[i as int]) == wanted[i as int]);
                core::mem::swap(&mut slot, &mut slots[i]);
                assert(forall|j: int| i < j < slots@.len() ==> slots@[j] == before[j]);
                match slot {
                    Ok(t) => t,
                    Err(e) => {
                        return Err(e);
                    },
                }
            } else {
                ResolvedType::Void
            };
            let one = match self.resolve_expr(&args[i], &want, scope) {
                Ok(t) => t,
                Err(e) => {
                    return Err(e);
                },
            };
            if !self.accepts(&want, &one.ty) {
                return Err(
                    TypeResolveError::ArgTypeMismatch {
                        func_name: owned(name),
                        param_index: i,
                        expected: want,
                        got: one.ty,
                    },
                );
            }
            out.push(one);
            assert(typed_expr_views(out@) =~= done.push(out@.last().model()));
            assert(forall|rest: Seq<TypedExprView>|
                #[trigger] (typed_expr_views(out@) + rest) =~= done + (seq![out@.last().model()]
                    + rest));
            i += 1;
        }
        assert(all.skip(i as int).len() == 0);
        assert(typed_expr_views(out@) + Seq::<TypedExprView>::empty() =~= typed_expr_views(out@));
        Ok(out)
    }

    fn resolve_fields(
        &self,
        fields: &Vec<(String, Expr)>,
        name: &String,
        toy_struct: &ToyStruct,
        field_types: &Vec<ResolvedType>,
        scope: &NameMap<ResolvedType>,
    ) -> (r: Result<Vec<(String, TypedExpr)>, TypeResolveError>)
        ensures
            (match r {
                Ok(ts) => Ok(typed_field_views(ts@)),
                Err(e) => Err(e@),
            }) == type_fields(
                field_views(fields@),
                name@,
                toy_struct@.fields,
                resolved_views(field_types@),
                scope@,
                self.cx(),
            ),
        decreases fields,
    {
        let ghost all = field_views(fields@);
        let ghost types = resolved_views(field_types@);
        let ghost whole = type_fields(all, name@, toy_struct@.fields, types, scope@, self.cx());
        let mut out: Vec<(String, TypedExpr)> = Vec::new();
        let mut i: usize = 0;
        assert(all.skip(0) =~= all);
        assert(whole is Ok ==> typed_field_views(out@) + whole->Ok_0 =~= whole->Ok_0);
        while i < fields.len()
            invariant
                i <= fields@.len(),
                all == field_views(fields@),
                types == resolved_views(field_types@),
                whole == type_fields(all, name@, toy_struct@.fields, types, scope@, self.cx()),
                whole == (match type_fields(
                    all.skip(i as int),
                    name@,
                    toy_struct@.fields,
                    types,
                    scope@,
                    self.cx(),
                ) {
                    Ok(rest) => Ok(typed_field_views(out@) + rest),
                    Err(e) => Err(e),
                }),
            decreases fields@.len() - i,
        {
            let ghost done = typed_field_views(out@);
            assert(all.skip(i as int).drop_first() =~= all.skip(i + 1));
            assert(all.skip(i as int)[0] == (fields@[i as int].0@, fields@[i as int].1.model()));
            let k = match find_field_index(toy_struct, name, &fields[i].0) {
                Ok(k) => k,
                Err(e) => {
                    return Err(e);
                },
            };
            if k >= field_types.len() {
                return Err(
                    TypeResolveError::FieldNotFound {
                        struct_name: name.clone(),
                        field_name: fields[i].0.clone(),
                    },
                );
            }
            assert(types[k as int] == field_types@[k as int].model());
            let one = match self.resolve_expr(&fields[i].1, &field_types[k], scope) {
                Ok(t) => t,
                Err(e) => {
                    return Err(e);
                },
            };
            out.push((fields[i].0.clone(), one));
            let ghost last = (out@.last().0@, out@.last().1.model());
            assert(typed_field_views(out@) =~= done.push(last));
            assert(forall|rest: Seq<(Seq<char>, TypedExprView)>|
                #[trigger] (typed_field_views(out@) + rest) =~= done + (seq![last] + rest));
            i += 1;
        }
        assert(all.skip(i as int).len() == 0);
        assert(typed_field_views(out@) + Seq::<(Seq<char>, TypedExprView)>::empty()
            =~= typed_field_views(out@));
        Ok(out)
    }

    fn resolve_stmt(&self, s: &Stmt, scope: &mut NameMap<ResolvedType>) -> (r: Result<
        TypedStmt,
        TypeResolveError,
    >)
        ensures
            match type_stmt(s@, old(scope)@, self.cx()) {
                Ok((t, after)) => r is Ok && r->Ok_0@ == t && final(scope)@ == after,
                Err(e) => r is Err && r->Err_0@ == e && final(scope)@ == left_by_stmt(
                    s@,
                    old(scope)@,
                    self.cx(),
                ),
            },
        decreases s,
    {
        match s {
            Stmt::Let { name, expr } => {
                let t = match self.resolve_expr(expr, &ResolvedType::Void, scope) {
                    Err(e) => {
                        return Err(e);
                    },
                    Ok(t) => t,
                };
                scope.insert(name.clone(), t.ty.duplicate());
                Ok(TypedStmt::Let { name: name.clone(), expr: t })
            },
            Stmt::ExprStmt(expr) => match self.resolve_expr(expr, &ResolvedType::Void, scope) {
                Err(e) => Err(e),
                Ok(t) => Ok(TypedStmt::ExprStmt(t)),
            },
            Stmt::While { cond, body } => {
                let c = match self.resolve_expr(cond, &ResolvedType::Void, scope) {
                    Err(e) => {
                        return Err(e);
                    },
                    Ok(c) => c,
                };
                match &c.ty {
                    ResolvedType::Bool => {},
                    _ => {
                        return Err(
                            TypeResolveError::WhileConditionNotBool { ty: c.ty.duplicate() },
                        );
                    },
                }
                match self.resolve_block(body, &ResolvedType::Void, scope) {
                    Err(e) => Err(e),
                    Ok(b) => Ok(TypedStmt::While { cond: c, body: b }),
                }
            },
            Stmt::Assign { name, expr } => {
                let ty = match scope.get(name) {
                    None => {
                        return Err(TypeResolveError::UndefinedVariable { name: name.clone() });
                    },
                    Some(ty) => ty.duplicate(),
                };
                let t = match self.resolve_expr(expr, &ty, scope) {
                    Err(e) => {
                        return Err(e);
                    },
                    Ok(t) => t,
                };
                if !same_resolved_type(&t.ty, &ty) {
                    return Err(
                        TypeResolveError::AssignTypeMismatch {
                            name: name.clone(),
                            expected: ty,
                            got: t.ty,
                        },
                    );
                }
                Ok(TypedStmt::Assign { name: name.clone(), expr: t })
            },
        }
    }

    fn resolve_stmts(&self, ss: &Vec<Stmt>, scope: &mut NameMap<ResolvedType>) -> (r: Result<
        Vec<TypedStmt>,
        TypeResolveError,
    >)
        ensures
            match type_stmts(stmt_views(ss@), old(scope)@, self.cx()) {
                Ok((t, after)) => r is Ok && typed_stmt_views(r->Ok_0@) == t && final(scope)@
                    == after,
                Err(e) => r is Err && r->Err_0@ == e && final(scope)@ == left_by_stmts(
                    stmt_views(ss@),
                    old(scope)@,
                    self.cx(),
                ),
            },
        decreases ss,
    {
        let ghost all = stmt_views(ss@);
        let ghost whole = type_stmts(all, scope@, self.cx());
        let mut out: Vec<TypedStmt> = Vec::new();
        let mut i: usize = 0;
        assert(all.skip(0) =~= all);
        assert(whole is Ok ==> typed_stmt_views(out@) + whole->Ok_0.0 =~= whole->Ok_0.0);
        while i < ss.len()
            invariant
                i <= ss@.len(),
                all == stmt_views(ss@),
                whole == type_stmts(all, old(scope)@, self.cx()),
                whole == (match type_stmts(all.skip(i as int), scope@, self.cx()) {
                    Ok((rest, after)) => Ok((typed_stmt_views(out@) + rest, after)),
                    Err(e) => Err(e),
                }),
                left_by_stmts(all, old(scope)@, self.cx()) == left_by_stmts(
                    all.skip(i as int),
                    scope@,
                    self.cx(),
                ),
            decreases ss@.len() - i,
        {
            let ghost done = typed_stmt_views(out@);
            assert(all.skip(i as int).drop_first() =~= all.skip(i + 1));
            assert(all.skip(i as int)[0] == ss@[i as int].model());
            let ghost before = scope@;
            let ghost rest_before = type_stmts(all.skip(i as int), before, self.cx());
            let one = match self.resolve_stmt(&ss[i], scope) {
                Ok(t) => t,
                Err(e) => {
                    return Err(e);
                },
            };
            let ghost first = one.model();
            out.push(one);
            assert(typed_stmt_views(out@) =~= done.push(first));
            proof {
                let tail = type_stmts(all.skip(i + 1), scope@, self.cx());
                assert(rest_before == (match tail {
                    Ok((rest, after)) => Ok((seq![first] + rest, after)),
                    Err(e) => Err(e),
                }));
                if tail is Ok {
                    assert(typed_stmt_views(out@) + tail->Ok_0.0 =~= done + (seq![first]
                        + tail->Ok_0.0));
                }
            }
            i += 1;
        }
        assert(all.skip(i as int).len() == 0);
        assert(typed_stmt_views(out@) + Seq::<TypedStmtView>::empty() =~= typed_stmt_views(out@));
        Ok(out)
    }

    fn resolve_block(&self, b: &Block, expected: &ResolvedType, scope: &mut NameMap<ResolvedType>) -> (r: Result<
        TypedBlock,
        TypeResolveError,
    >)
        ensures
            match type_block(b@, expected@, old(scope)@, self.cx()) {
                Ok((t, after)) => r is Ok && r->Ok_0@ == t && final(scope)@ == after,
                Err(e) => r is Err && r->Err_0@ == e && final(scope)@ == left_by_block(
                    b@,
                    old(scope)@,
                    self.cx(),
                ),
            },
        decreases b,
    {
        let stmts = match self.resolve_stmts(&b.stmts, scope) {
            Err(e) => {
                return Err(e);
            },
            Ok(stmts) => stmts,
        };
        proof {
            lemma_left_by_typed(b@.stmts, old(scope)@, self.cx());
        }
        match &b.ret {
            None => Ok(TypedBlock { stmts, ret: None }),
            Some(e) => match self.resolve_expr(e, expected, scope) {
                Err(e) => Err(e),
                Ok(t) => Ok(TypedBlock { stmts, ret: Some(t) }),
            },
        }
    }
}

/// The type that a function returns.
pub fn resolve_return_type(registry: &ToylangRegistry, func: &ToyFunction) -> (r: Result<
    ResolvedType,
    TypeResolveError,
>)
    ensures
        resolved_outcome(r) == (match func@.return_ty {
            Some(t) => resolve(t, registry@.structs),
            None => Ok(ResolvedTypeView::Void),
        }),
{
    match &func.return_ty {
        Some(t) => resolve_source_type(t, registry),
        None => Ok(ResolvedType::Void),
    }
}

/// Gives every expression of the body of a function its type. Where an answer
/// about the Rust side is missing, the error names the question: once it is
/// answered, the resolution can be tried again.
pub fn resolve_fn_body(registry: &ToylangRegistry, func: &ToyFunction, answers: &RustAnswers) -> (r: Result<
    TypedBlock,
    TypeResolveError,
>)
    requires
        func@.body is Some,
    ensures
        (match r {
            Ok(b) => Ok(b@),
            Err(e) => Err(e@),
        }) == type_fn_body(
            func@,
            func@.body->0,
            (Typing { registry: registry@, answers: answers@ }),
        ),
{
    let resolver = Resolver { registry, answers };
    let ret = match resolve_return_type(registry, func) {
        Err(e) => {
            return Err(e);
        },
        Ok(t) => t,
    };
    let ghost cx = resolver.cx();
    let ghost all = func@.params;
    let mut scope: NameMap<ResolvedType> = NameMap::new();
    let mut i: usize = 0;
    assert(scope@ =~= Seq::empty());
    assert(all.skip(0) =~= all);
    while i < func.params.len()
        invariant
            i <= func.params@.len(),
            all == views(func.params@),
            cx == (Typing { registry: registry@, answers: answers@ }),
            return_type(func@, cx) is Ok,
            param_scope(all, Seq::empty(), cx) == param_scope(all.skip(i as int), scope@, cx),
        decreases func.params@.len() - i,
    {
        assert(all.skip(i as int).drop_first() =~= all.skip(i + 1));
        assert(all.skip(i as int)[0] == func.params@[i as int]@);
        match resolve_source_type(&func.params[i].ty, registry) {
            Err(e) => {
                return Err(e);
            },
            Ok(ty) => {
                scope.insert(func.params[i].name.clone(), ty);
            },
        }
        i += 1;
    }
    assert(all.skip(i as int).len() == 0);
    match &func.body {
        Some(body) => resolver.resolve_block(body, &ret, &mut scope),
        None => Ok(TypedBlock { stmts: Vec::new(), ret: None }),
    }
}

} // verus!
