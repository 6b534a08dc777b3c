//! What the parser refuses, and why.
use toylangc::toylang::lexer::Token;
use toylangc::toylang::parser::{parse, Names, ParseError, Parser};
use toylangc::toylang::typed_ast::SourceType;

#[test]
fn test_parse_unknown_int_suffix() {
    let result = parse("fn f() -> i32 { 42i16 }");
    let Err(ParseError::UnknownIntSuffix { suffix }) = result else { panic!("expected UnknownIntSuffix") };
    assert_eq!(suffix, "i16");
}

#[test]
fn test_parse_unexpected_character() {
    let result = parse("fn f() { @}");
    let Err(ParseError::UnexpectedCharacter { ch }) = result else { panic!("expected UnexpectedCharacter") };
    assert_eq!(ch, '@');
}

#[test]
fn test_parse_unexpected_token() {
    let result = parse("fn f(x i32) { 42 }");
    let Err(ParseError::UnexpectedToken { expected, .. }) = result else { panic!("expected UnexpectedToken") };
    assert_eq!(expected, "Colon");
}

#[test]
fn test_parse_unexpected_top_level_token() {
    let result = parse("let x = 42;");
    assert!(matches!(result, Err(ParseError::UnexpectedTopLevelToken { .. })));
}

#[test]
fn test_parse_expected_expression() {
    let result = parse("fn f() { let x = ; }");
    assert!(matches!(result, Err(ParseError::ExpectedExpression { .. })));
}

#[test]
fn test_parse_expected_type() {
    let result = parse("fn f(x: ) -> i32 { 42 }");
    assert!(matches!(result, Err(ParseError::ExpectedType { .. })));
}

#[test]
fn test_parse_expected_pointer_qualifier() {
    let result = parse("fn f(x: *wrong i32) { }");
    let Err(ParseError::ExpectedPointerQualifier { got }) = result else { panic!("expected ExpectedPointerQualifier") };
    assert_eq!(got, "wrong");
}

#[test]
fn test_parse_duplicate_struct() {
    let result = parse("struct Foo { x: i32 } struct Foo { y: i32 }");
    let Err(ParseError::DuplicateStruct { name }) = result else { panic!("expected DuplicateStruct") };
    assert_eq!(name, "Foo");
}

#[test]
fn test_parse_duplicate_function() {
    let result = parse("fn f() -> i32 { 1 } fn f() -> i32 { 2 }");
    let Err(ParseError::DuplicateFunction { name }) = result else { panic!("expected DuplicateFunction") };
    assert_eq!(name, "f");
}

#[test]
fn test_parse_reserved_struct_name() {
    let result = parse("struct __toylang_foo { x: i32 }");
    let Err(ParseError::ReservedName { name }) = result else { panic!("expected ReservedName") };
    assert_eq!(name, "__toylang_foo");
}

#[test]
fn test_parse_reserved_function_name() {
    let result = parse("fn __toylang_main() -> i32 { 0 }");
    let Err(ParseError::ReservedName { name }) = result else { panic!("expected ReservedName") };
    assert_eq!(name, "__toylang_main");
}

#[test]
fn references_and_pointers_are_alike() {
    let types: Vec<_> = ["&T", "&mut T", "*const T", "*mut T"]
        .iter()
        .map(|t| {
            let registry = parse(&format!("fn f<T>(x: {}) {{ }}", t)).unwrap();
            registry.functions.get("f").unwrap().params[0].ty.clone()
        })
        .collect();
    for t in &types {
        assert_eq!(*t, SourceType::Ref { inner: Box::new(SourceType::TypeParam("T".to_string())) });
    }
}

#[test]
fn a_type_is_read_from_tokens() {
    let word = |s: &str| Token::Ident(s.to_string());
    let names = Names { type_params: vec!["T".to_string()], struct_names: vec!["S".to_string()] };
    let read = |tokens: Vec<Token>| Parser::new(tokens).parse_type(&names);
    let vec_of_t = || vec![word("Vec"), Token::LAngle, word("T"), Token::RAngle, Token::Eof];
    let inner = read(vec_of_t()).unwrap();
    assert_eq!(
        inner,
        SourceType::RustType { name: "Vec".to_string(), type_args: vec![SourceType::TypeParam("T".to_string())] },
    );
    for mut tokens in [
        vec![Token::Ampersand],
        vec![Token::Ampersand, word("mut")],
        vec![Token::Star, word("const")],
        vec![Token::Star, word("mut")],
    ] {
        tokens.extend(vec_of_t());
        assert_eq!(read(tokens), Ok(SourceType::Ref { inner: Box::new(inner.clone()) }));
    }
    assert!(matches!(
        read(vec![Token::Star, word("T"), Token::Eof]),
        Err(ParseError::ExpectedPointerQualifier { .. })
    ));
}
