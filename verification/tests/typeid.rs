//! Ids of types.
use toylangc::toylang::typed_ast::SourceType as ResolvedType;
use toylangc::typeid::compute;

#[test]
fn same_input_same_output() {
    let a = compute("Widget", &vec![]);
    let b = compute("Widget", &vec![]);
    assert_eq!(a, b, "same input must produce same typeid");
}

#[test]
fn different_name_different_typeid() {
    let widget = compute("Widget", &vec![]);
    let gadget = compute("Gadget", &vec![]);
    assert_ne!(widget, gadget);
}

#[test]
fn different_args_different_typeid() {
    let w_i32 = compute("Wrapper", &vec![ResolvedType::I32]);
    let w_i64 = compute("Wrapper", &vec![ResolvedType::I64]);
    assert_ne!(w_i32, w_i64);
}

#[test]
fn args_order_matters() {
    let ab = compute("Pair", &vec![ResolvedType::I32, ResolvedType::I64]);
    let ba = compute("Pair", &vec![ResolvedType::I64, ResolvedType::I32]);
    assert_ne!(ab, ba, "type-arg order must affect typeid");
}

#[test]
fn empty_args_distinct_from_singleton_args() {
    let nullary = compute("X", &vec![]);
    let unary_i32 = compute("X", &vec![ResolvedType::I32]);
    assert_ne!(nullary, unary_i32);
}

#[test]
fn widget_typeid_is_stable() {
    assert_eq!(compute("Widget", &vec![]), 0x48723b0bb65d86f7);
}
