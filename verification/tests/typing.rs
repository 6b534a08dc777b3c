//! Programs, and the types of their expressions.
use toylangc::names::NameMap;
use toylangc::oracle::{resolved_type_to_mangled_name, strip_ref, wrapper_fn_name, RustTypeLookupContext, UnresolvedRustType};
use toylangc::toylang::answers::{MethodReturnAnswer, ParamTypesAnswer, RustAnswers, RustQuery, TraitAnswer, WrapperAnswer};
use toylangc::toylang::ast::{BinOp, Expr};
use toylangc::toylang::parser::{parse, try_parse};
use toylangc::toylang::registry::ToylangRegistry;
use toylangc::toylang::type_resolve::{
    resolve_fn_body, resolve_return_type, substitute_in_typed_body, substitute_type_params, substitute_type_params_in_body, types_match, TypeResolveError,
};
use toylangc::toylang::typed_ast::{ResolvedType, SourceType, TypedBlock, TypedExpr, TypedExprKind, TypedStmt};

fn program(src: &str) -> ToylangRegistry {
    parse(src).unwrap()
}

fn typed(src: &str, name: &str, answers: &RustAnswers) -> Result<TypedBlock, TypeResolveError> {
    let registry = program(src);
    resolve_fn_body(&registry, registry.functions.get(name).unwrap(), answers)
}

fn typed_plain(src: &str) -> Result<TypedBlock, TypeResolveError> {
    typed(src, "f", &RustAnswers::new())
}

fn rust(name: &str, type_args: Vec<ResolvedType>) -> ResolvedType {
    ResolvedType::RustType { name: name.to_string(), type_args }
}

#[test]
fn products_bind_tighter_than_sums_and_sums_than_comparisons() {
    let registry = program("fn f() -> bool { 1 + 2 * 3 < 4 && true || false }");
    let body = registry.functions.get("f").unwrap().body.as_ref().unwrap();
    let Some(Expr::BinaryOp { op: BinOp::Or, left, .. }) = &body.ret else { panic!("{:?}", body) };
    let Expr::BinaryOp { op: BinOp::And, left, .. } = &**left else { panic!("{:?}", body) };
    let Expr::BinaryOp { op: BinOp::Lt, left, right } = &**left else { panic!("{:?}", body) };
    assert_eq!(**right, Expr::IntLit(4, SourceType::I32));
    let Expr::BinaryOp { op: BinOp::Add, left, right } = &**left else { panic!("{:?}", body) };
    assert_eq!(**left, Expr::IntLit(1, SourceType::I32));
    assert_eq!(
        **right,
        Expr::BinaryOp {
            op: BinOp::Mul,
            left: Box::new(Expr::IntLit(2, SourceType::I32)),
            right: Box::new(Expr::IntLit(3, SourceType::I32)),
        },
    );
}

#[test]
fn literal_too_large_is_told_apart() {
    assert!(try_parse("fn f() -> i64 { 9223372036854775807 }").is_some());
    assert!(try_parse("fn f() -> i64 { 9223372036854775808 }").is_none());
}

#[test]
fn only_main_and_declared_exports_are_exported() {
    let registry = program("fn main() { } fn helper() { } fn println_int(x: i32)");
    assert!(registry.functions.get("main").unwrap().is_export);
    assert!(!registry.functions.get("helper").unwrap().is_export);
    assert!(registry.functions.get("println_int").unwrap().body.is_none());
}

#[test]
fn literals_widen_to_what_is_wanted() {
    let body = typed_plain("fn f() -> i64 { 5 }").unwrap();
    assert_eq!(body.ret.as_ref().unwrap().ty, ResolvedType::I64);
    let body = typed_plain("fn f() -> usize { 5 }").unwrap();
    assert_eq!(body.ret.as_ref().unwrap().ty, ResolvedType::Usize);
    // Never the other way.
    let body = typed_plain("fn f() -> i32 { 5i64 }").unwrap();
    assert_eq!(body.ret.as_ref().unwrap().ty, ResolvedType::I64);
}

#[test]
fn fields_have_the_types_of_the_struct() {
    let src = "struct Pair<A, B> { first: A, second: B } fn f(p: Pair<i32, bool>) -> bool { p.second }";
    let body = typed_plain(src).unwrap();
    assert_eq!(body.ret.as_ref().unwrap().ty, ResolvedType::Bool);
    let err = typed_plain("struct P { x: i32 } fn f(p: P) -> i32 { p.y }").unwrap_err();
    assert_eq!(err, TypeResolveError::FieldNotFound { struct_name: "P".to_string(), field_name: "y".to_string() });
    let err = typed_plain("fn f(p: i32) -> i32 { p.y }").unwrap_err();
    assert_eq!(err, TypeResolveError::FieldAccessOnNonStruct { ty: ResolvedType::I32, field: "y".to_string() });
}

#[test]
fn struct_literals_carry_the_types_of_their_fields() {
    let body = typed_plain("struct P { x: i32, y: i64 } fn f() -> P { P { x: 1, y: 2 } }").unwrap();
    let tail = body.ret.as_ref().unwrap();
    assert_eq!(
        tail.ty,
        ResolvedType::Struct {
            name: "P".to_string(),
            type_args: vec![],
            field_types: vec![ResolvedType::I32, ResolvedType::I64],
        },
    );
    let TypedExprKind::StructLit { fields, .. } = &tail.kind else { panic!("{:?}", tail) };
    assert_eq!(fields[1].1.ty, ResolvedType::I64);
}

#[test]
fn a_struct_in_itself_is_refused() {
    let err = typed_plain("struct P { next: P } fn f(p: P) { }").unwrap_err();
    assert_eq!(err, TypeResolveError::RecursiveStruct { name: "P".to_string() });
}

#[test]
fn calls_of_generic_functions_take_their_type_arguments() {
    let src = "fn id<T>(x: T) -> T { x } fn f() -> i64 { id<i64>(5) }";
    let body = typed_plain(src).unwrap();
    assert_eq!(body.ret.as_ref().unwrap().ty, ResolvedType::I64);
    let err = typed_plain("fn id<T>(x: T) -> T { x } fn f() -> i64 { id<i64, i32>(5) }").unwrap_err();
    assert_eq!(err, TypeResolveError::WrongTypeArgCount { func_name: "id".to_string(), expected: 1, got: 2 });
    let err = typed_plain("fn g(b: bool) { } fn f() { g(5) }").unwrap_err();
    assert_eq!(
        err,
        TypeResolveError::ArgTypeMismatch {
            func_name: "g".to_string(),
            param_index: 0,
            expected: ResolvedType::Bool,
            got: ResolvedType::I32,
        },
    );
}

#[test]
fn scopes_and_conditions_are_checked() {
    assert_eq!(typed_plain("fn f() -> i32 { x }").unwrap_err(), TypeResolveError::UndefinedVariable { name: "x".to_string() });
    assert_eq!(
        typed_plain("fn f() -> i32 { if 1 { 2 } else { 3 } }").unwrap_err(),
        TypeResolveError::IfConditionNotBool { ty: ResolvedType::I32 },
    );
    assert_eq!(
        typed_plain("fn f() -> i32 { if true { 2 } else { false } }").unwrap_err(),
        TypeResolveError::IfElseTypeMismatch { then_ty: ResolvedType::I32, else_ty: ResolvedType::Bool },
    );
    assert_eq!(
        typed_plain("fn f() { while 1 { } }").unwrap_err(),
        TypeResolveError::WhileConditionNotBool { ty: ResolvedType::I32 },
    );
    assert_eq!(
        typed_plain("fn f() { let x = 1; x = true; }").unwrap_err(),
        TypeResolveError::AssignTypeMismatch {
            name: "x".to_string(),
            expected: ResolvedType::I32,
            got: ResolvedType::Bool,
        },
    );
    assert_eq!(
        typed_plain("fn f(p: Nowhere) -> i32 { 1 }").map(|_| ()).is_ok(),
        true,
        "an unknown type is one of the Rust side",
    );
    // A struct whose definition is not there.
    let registry = program("struct P { x: i32 } fn f(p: P) -> i32 { p.x }");
    let f = registry.functions.get("f").unwrap();
    assert_eq!(
        resolve_fn_body(&ToylangRegistry::default(), f, &RustAnswers::new()).unwrap_err(),
        TypeResolveError::UndefinedStruct { name: "P".to_string() },
    );
}

#[test]
fn what_is_not_known_of_the_rust_side_is_asked() {
    let src = "use std::vec::Vec fn f() -> usize { let v = Vec::new<i32>(); v.len() }";
    let mut answers = RustAnswers::new();
    let vec = SourceType::RustType { name: "Vec".to_string(), type_args: vec![SourceType::I32] };
    // First whether `Vec` is a trait, then what `new` returns and takes, and so on.
    let mut asked = Vec::new();
    let body = loop {
        match typed(src, "f", &answers) {
            Ok(body) => break body,
            Err(TypeResolveError::AnswerPending { query }) => match query {
                RustQuery::HasWrapper { name } => {
                    answers.wrappers.push(WrapperAnswer { name, is_there: true });
                }
                RustQuery::IsTrait { name } => {
                    asked.push(format!("trait {}", name));
                    answers.traits.push(TraitAnswer { name, is_trait: false });
                }
                RustQuery::MethodReturn { owner, method, type_args } => {
                    asked.push(format!("return {}::{}", owner, method));
                    let answer = if method == "new" { vec.clone() } else { SourceType::Usize };
                    answers.method_returns.push(MethodReturnAnswer { owner, method, type_args, answer: Ok(answer) });
                }
                RustQuery::ParamTypes { owner, method, type_args } => {
                    asked.push(format!("params {}::{}", owner, method));
                    let answer = if method == "new" {
                        vec![]
                    } else {
                        vec![SourceType::Ref { inner: Box::new(vec.clone()) }]
                    };
                    answers.param_types.push(ParamTypesAnswer { owner, method, type_args, answer: Ok(Some(answer)) });
                }
            },
            Err(other) => panic!("{:?}", other),
        }
        assert!(asked.len() < 10, "{:?}", asked);
    };
    assert_eq!(body.ret.as_ref().unwrap().ty, ResolvedType::Usize);
    let TypedStmt::Let { expr, .. } = &body.stmts[0] else { panic!("{:?}", body) };
    assert_eq!(expr.ty, rust("Vec", vec![ResolvedType::I32]));
    assert!(asked.contains(&"return Vec::new".to_string()), "{:?}", asked);
    assert!(asked.contains(&"return Vec::len".to_string()), "{:?}", asked);
}

#[test]
fn an_unresolved_type_becomes_an_error() {
    let u = UnresolvedRustType {
        name: "Regex".to_string(),
        context: RustTypeLookupContext::FreeFunctionTypeArg { function_name: "make".to_string() },
    };
    assert_eq!(
        u.to_text(),
        "Rust type `Regex` is not imported (used as type arg of free function `make`). Add `use <path>::Regex` at the top of your source.",
    );
    assert_eq!(
        TypeResolveError::from_unresolved(&u),
        TypeResolveError::RustTypeNotImported {
            name: "Regex".to_string(),
            context: "as type arg of free function `make`".to_string(),
        },
    );
    let waiting = UnresolvedRustType {
        name: "T".to_string(),
        context: RustTypeLookupContext::Deferred { type_param: "T".to_string() },
    };
    assert!(TypeResolveError::from_unresolved(&waiting).is_deferred());
}

#[test]
fn return_type_of_a_function() {
    let registry = program("fn f() -> bool { true } fn g() { }");
    assert_eq!(resolve_return_type(&registry, registry.functions.get("f").unwrap()), Ok(ResolvedType::Bool));
    assert_eq!(resolve_return_type(&registry, registry.functions.get("g").unwrap()), Ok(ResolvedType::Void));
}

#[test]
fn a_struct_agrees_with_the_rust_type_of_its_name() {
    let s = ResolvedType::Struct { name: "W".to_string(), type_args: vec![], field_types: vec![ResolvedType::I32] };
    assert!(types_match(&s, &rust("W", vec![])));
    assert!(types_match(&rust("W", vec![]), &s));
    assert!(!types_match(&rust("V", vec![]), &s));
    assert!(types_match(
        &ResolvedType::Ref { inner: Box::new(s.clone()) },
        &ResolvedType::Ref { inner: Box::new(rust("W", vec![])) },
    ));
    assert!(!types_match(&ResolvedType::I32, &ResolvedType::I64));
}

#[test]
fn substitution_replaces_what_is_bound() {
    let mut subst = NameMap::new();
    subst.insert("T".to_string(), ResolvedType::Bool);
    let vec_of_t = rust("Vec", vec![ResolvedType::TypeParam("T".to_string())]);
    assert_eq!(substitute_type_params(&vec_of_t, &subst), rust("Vec", vec![ResolvedType::Bool]));
    let registry = program("fn f<T>(x: T) -> T { id<T>(x) }");
    let body = registry.functions.get("f").unwrap().body.as_ref().unwrap();
    let replaced = substitute_type_params_in_body(body, &subst);
    let Some(Expr::FnCall { type_args, .. }) = &replaced.ret else { panic!("{:?}", replaced) };
    assert_eq!(*type_args, vec![SourceType::Bool]);
    // Replacing nothing changes nothing.
    assert_eq!(substitute_type_params_in_body(body, &NameMap::new()), *body);
}

#[test]
fn names_for_symbols() {
    assert_eq!(resolved_type_to_mangled_name(&ResolvedType::Void), "void");
    assert_eq!(
        resolved_type_to_mangled_name(&rust("HashMap", vec![ResolvedType::I32, ResolvedType::Str])),
        "HashMap_LT_i32_str_GT_",
    );
    assert_eq!(
        resolved_type_to_mangled_name(&ResolvedType::Ref { inner: Box::new(ResolvedType::TypeParam("T".to_string())) }),
        "ref_P_T",
    );
    assert_eq!(wrapper_fn_name("Option", "unwrap"), Some("__toylang_option_unwrap"));
    assert_eq!(wrapper_fn_name("Result", "unwrap"), Some("__toylang_result_unwrap"));
    assert_eq!(wrapper_fn_name("Vec", "unwrap"), None);
    let twice = ResolvedType::Ref { inner: Box::new(ResolvedType::Ref { inner: Box::new(ResolvedType::Bool) }) };
    assert_eq!(*strip_ref(&twice), ResolvedType::Bool);
}

#[test]
fn typed_bodies_are_substituted_in_every_type() {
    let var = |ty: ResolvedType| TypedExpr { kind: TypedExprKind::Var("x".to_string()), ty };
    let body = |ty: ResolvedType| TypedBlock {
        stmts: vec![TypedStmt::ExprStmt(TypedExpr {
            kind: TypedExprKind::FnCall { name: "f".to_string(), type_args: vec![ty.clone()], args: vec![var(ty.clone())] },
            ty: ResolvedType::Ref { inner: Box::new(ty.clone()) },
        })],
        ret: Some(var(ty)),
    };
    let mut subst = NameMap::new();
    subst.insert("T".to_string(), ResolvedType::I64);
    let registry = ToylangRegistry::default();
    let param = ResolvedType::TypeParam("T".to_string());
    assert_eq!(substitute_in_typed_body(&body(param), &subst, &registry), body(ResolvedType::I64));
    // Without a type parameter nothing changes.
    assert_eq!(substitute_in_typed_body(&body(ResolvedType::Bool), &subst, &registry), body(ResolvedType::Bool));
}
