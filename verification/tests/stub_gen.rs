//! The stub crate.
use toylangc::stub_gen::{generate, generate_text};
use toylangc::toylang::ast::Block;
use toylangc::toylang::registry::{ToyField, ToyFunction, ToyImpl, ToyImplMethod, ToyParam, ToyStruct, ToylangRegistry};
use toylangc::toylang::typed_ast::SourceType;
use toylangc::typeid::compute;

#[test]
fn marker_emitted_at_crate_root() {
    let reg = ToylangRegistry::default();
    let src = generate(&reg).unwrap();
    assert!(src.contains("pub const __SKY_STUBS_MARKER"), "stub_gen output missing __SKY_STUBS_MARKER:\n{}", src);
}

#[test]
fn toylang_opaque_wrapper_emitted_at_crate_root() {
    let reg = ToylangRegistry::default();
    let src = generate(&reg).unwrap();
    assert!(src.contains("pub struct __ToylangOpaque"), "stub_gen output missing __ToylangOpaque wrapper:\n{}", src);
    assert!(
        src.contains("const T : u64") || src.contains("const T: u64"),
        "wrapper signature drifted from `<const T: u64>`:\n{}",
        src,
    );
}

#[test]
fn non_export_body_bearing_fn_gets_no_stub_shell() {
    let mut reg = ToylangRegistry::default();
    reg.functions.insert(
        "exported_fn".to_string(),
        ToyFunction {
            type_params: vec![],
            params: vec![ToyParam { name: "x".to_string(), ty: SourceType::I32 }],
            return_ty: Some(SourceType::I32),
            body: Some(Block { stmts: vec![], ret: None }),
            is_export: true,
        },
    );
    reg.functions.insert(
        "internal_only".to_string(),
        ToyFunction {
            type_params: vec![],
            params: vec![ToyParam { name: "x".to_string(), ty: SourceType::I32 }],
            return_ty: Some(SourceType::I32),
            body: Some(Block { stmts: vec![], ret: None }),
            is_export: false,
        },
    );
    let src = generate(&reg).unwrap();
    assert!(src.contains("pub fn exported_fn"), "stub source should include exported fn, got:\n{}", src);
    assert!(!src.contains("pub fn internal_only"), "non-export fn `internal_only` leaked into stub source:\n{}", src);
    assert!(!src.contains("fn internal_only"), "any form of `fn internal_only` in stub source:\n{}", src);
}

#[test]
fn impl_block_emitted_for_toy_impl() {
    let mut reg = ToylangRegistry::default();
    reg.structs.insert(
        "Widget".to_string(),
        ToyStruct {
            type_params: vec![],
            fields: vec![ToyField { name: "id".to_string(), rust_type: SourceType::I32 }],
        },
    );
    reg.imports.push("std::clone::Clone".to_string());
    reg.trait_impls.push(ToyImpl {
        trait_name: "Clone".to_string(),
        self_type_name: "Widget".to_string(),
        is_export: true,
        type_params: vec![],
        type_param_bounds: vec![],
        self_type_args: vec![],
        methods: vec![ToyImplMethod {
            name: "clone".to_string(),
            func: ToyFunction {
                type_params: vec![],
                is_export: true,
                params: vec![ToyParam {
                    name: "self".to_string(),
                    ty: SourceType::Ref {
                        inner: Box::new(SourceType::StructRef { name: "Widget".to_string(), type_args: vec![] }),
                    },
                }],
                return_ty: Some(SourceType::StructRef { name: "Widget".to_string(), type_args: vec![] }),
                body: None,
            },
            is_self_mut: false,
        }],
    });
    let src = generate(&reg).unwrap();
    assert!(src.contains("impl Clone for Widget"), "stub_gen output missing `impl Clone for Widget`:\n{}", src);
    assert!(src.contains("fn clone(&self)"), "stub_gen output missing `fn clone(&self)`:\n{}", src);
    assert!(src.contains("unreachable!()"), "stub_gen output missing `unreachable!()` body:\n{}", src);
}

#[test]
fn emit_consumer_body_tags_only_category_b_items() {
    let mut reg = ToylangRegistry::default();
    reg.structs.insert(
        "Widget".to_string(),
        ToyStruct {
            type_params: vec![],
            fields: vec![ToyField { name: "id".to_string(), rust_type: SourceType::I32 }],
        },
    );
    reg.functions.insert(
        "make_widget".to_string(),
        ToyFunction {
            type_params: vec![],
            params: vec![ToyParam { name: "id".to_string(), ty: SourceType::I32 }],
            return_ty: Some(SourceType::StructRef { name: "Widget".to_string(), type_args: vec![] }),
            body: Some(Block { stmts: vec![], ret: None }),
            is_export: true,
        },
    );
    reg.functions.insert(
        "println_i32".to_string(),
        ToyFunction {
            type_params: vec![],
            params: vec![ToyParam { name: "x".to_string(), ty: SourceType::I32 }],
            return_ty: None,
            body: None,
            is_export: false,
        },
    );
    reg.imports.push("std::ops::Drop".to_string());
    reg.trait_impls.push(ToyImpl {
        trait_name: "Drop".to_string(),
        self_type_name: "Widget".to_string(),
        is_export: true,
        type_params: vec![],
        type_param_bounds: vec![],
        self_type_args: vec![],
        methods: vec![ToyImplMethod {
            name: "drop".to_string(),
            is_self_mut: true,
            func: ToyFunction {
                type_params: vec![],
                is_export: true,
                params: vec![ToyParam {
                    name: "self".to_string(),
                    ty: SourceType::Ref {
                        inner: Box::new(SourceType::StructRef { name: "Widget".to_string(), type_args: vec![] }),
                    },
                }],
                return_ty: None,
                body: None,
            },
        }],
    });
    let src = generate(&reg).unwrap();

    let lines: Vec<&str> = src.lines().collect();
    for (i, line) in lines.iter().enumerate() {
        if line.contains("unreachable!()") {
            let window_start = i.saturating_sub(6);
            let window: String = lines[window_start..i].join("\n");
            assert!(
                window.contains("#[toylang::emit_consumer_body]"),
                "`unreachable!()` body at line {} is missing the tag.\nWindow:\n{}\nFull source:\n{}",
                i + 1,
                window,
                src,
            );
        }
    }
    for (i, line) in lines.iter().enumerate() {
        if line.contains("#[toylang::emit_consumer_body]") {
            let window_end = (i + 8).min(lines.len());
            let window: String = lines[i..window_end].join("\n");
            assert!(
                window.contains("unreachable!()"),
                "the tag at line {} is not followed by `unreachable!()`.\nWindow:\n{}\nFull source:\n{}",
                i + 1,
                window,
                src,
            );
        }
    }
    let tag_count = src.matches("#[toylang::emit_consumer_body]").count();
    assert_eq!(tag_count, 3, "expected exactly 3 tags, got {}.\nFull source:\n{}", tag_count, src);
    assert!(!src.contains("#![register_tool(toylang)]"));
}

#[test]
fn struct_shows_its_id_and_its_type_parameters() {
    let mut reg = ToylangRegistry::default();
    reg.structs.insert("Pair".to_string(), ToyStruct { type_params: vec!["A".to_string(), "B".to_string()], fields: vec![] });
    let id = compute("Pair", &vec![]);
    let text = generate_text(&reg);
    let want = format!("pub struct Pair<A, B>(__ToylangOpaque<{}u64>, std::marker::PhantomData<(A, B)>,);\n", id);
    assert!(text.contains(&want), "{}", text);
    // No field, so no impl block.
    assert!(!text.contains("impl"), "{}", text);
    // Laid out anew: the text itself is on one line, the result is not.
    let src = generate(&reg).unwrap();
    assert_ne!(src, text);
    assert!(src.contains("std::marker::PhantomData<(A, B)>"), "{}", src);
}

#[test]
fn main_goes_by_another_name_and_drop_is_imported_once() {
    let mut reg = ToylangRegistry::default();
    reg.functions.insert(
        "main".to_string(),
        ToyFunction {
            type_params: vec![],
            params: vec![],
            return_ty: None,
            body: Some(Block { stmts: vec![], ret: None }),
            is_export: true,
        },
    );
    let src = generate(&reg).unwrap();
    assert!(src.contains("pub fn __toylang_main()"), "{}", src);
    assert_eq!(src.matches("pub use core::ops::Drop;").count(), 1);
    reg.imports.push("core::ops::Drop".to_string());
    let src = generate(&reg).unwrap();
    assert_eq!(src.matches("pub use core::ops::Drop;").count(), 1);
}

#[test]
fn bounds_are_merged_into_the_parameters() {
    let mut reg = ToylangRegistry::default();
    reg.trait_impls.push(ToyImpl {
        trait_name: "Clone".to_string(),
        self_type_name: "Wrapper".to_string(),
        is_export: true,
        type_params: vec!["T".to_string(), "U".to_string()],
        type_param_bounds: vec![("T".to_string(), "Clone".to_string()), ("T".to_string(), "Debug".to_string())],
        self_type_args: vec!["T".to_string(), "U".to_string()],
        methods: vec![],
    });
    let text = generate_text(&reg);
    assert!(text.contains("impl<T: Clone + Debug, U> Clone for Wrapper<T, U> {\n}\n"), "{}", text);
}

#[test]
fn names_that_are_no_words_give_nothing() {
    let mut reg = ToylangRegistry::default();
    reg.imports.push("std::{a, b}".to_string());
    assert_eq!(generate(&reg), None);
    let mut reg = ToylangRegistry::default();
    reg.structs.insert("1st".to_string(), ToyStruct { type_params: vec![], fields: vec![] });
    assert_eq!(generate(&reg), None);
    // A word that Rust does not take as a name.
    let mut reg = ToylangRegistry::default();
    reg.structs.insert("fn".to_string(), ToyStruct { type_params: vec![], fields: vec![] });
    assert_eq!(generate(&reg), None);
}

fn plain_fn(params: Vec<ToyParam>, is_export: bool) -> ToyFunction {
    ToyFunction { type_params: vec![], params, return_ty: None, body: Some(Block { stmts: vec![], ret: None }), is_export }
}

#[test]
fn paths_that_rust_takes_are_taken() {
    for path in ["::std::alloc::Global", "r#type::r#fn", "std :: vec :: Vec", "crate::a", "self::b", "na\u{308}me::x\u{203f}y"] {
        let mut reg = ToylangRegistry::default();
        reg.imports.push(path.to_string());
        let src = generate(&reg).unwrap_or_else(|| panic!("{}", path));
        let want = format!("pub use {};", path.replace(" ", ""));
        assert!(src.contains(&want), "{}", src);
    }
    for path in ["std::", "std:::alloc", "a b", "std::*", "a; pub fn f() {} use b", "a // b", "a\u{2028}b", "\u{1f600}"] {
        let mut reg = ToylangRegistry::default();
        reg.imports.push(path.to_string());
        assert_eq!(generate(&reg), None, "{}", path);
    }
}

#[test]
fn words_that_rust_keeps_stand_only_where_it_takes_them() {
    let named = |trait_name: &str, self_type: &str| {
        let mut reg = ToylangRegistry::default();
        reg.trait_impls.push(ToyImpl {
            trait_name: trait_name.to_string(),
            self_type_name: self_type.to_string(),
            is_export: true,
            type_params: vec![],
            type_param_bounds: vec![],
            self_type_args: vec![],
            methods: vec![],
        });
        generate(&reg)
    };
    assert!(named("Clone", "W").unwrap().contains("impl Clone for W"));
    assert!(named("r#dyn", "W").unwrap().contains("impl r#dyn for W"));
    assert_eq!(named("_", "W"), None);
    assert_eq!(named("dyn", "W"), None);
    assert_eq!(named("const", "W"), None);
    let param = |name: &str, ty: &str| {
        let mut reg = ToylangRegistry::default();
        let ty = SourceType::RustType { name: ty.to_string(), type_args: vec![] };
        reg.functions.insert("f".to_string(), plain_fn(vec![ToyParam { name: name.to_string(), ty }], true));
        generate(&reg)
    };
    assert!(param("_", "i32").unwrap().contains("pub fn f(_: i32)"));
    assert!(param("x", "_").unwrap().contains("pub fn f(x: _)"));
    assert!(param("true", "Self").unwrap().contains("pub fn f(true: Self)"));
    assert!(param("crate", "super").unwrap().contains("pub fn f(crate: super)"));
    assert!(param("self", "self").is_some());
    assert_eq!(param("box", "i32"), None);
    assert_eq!(param("x", "dyn"), None);
}

#[test]
fn what_the_stub_crate_does_not_hold_may_have_any_name() {
    let mut reg = ToylangRegistry::default();
    reg.functions.insert("no word".to_string(), plain_fn(vec![], false));
    assert!(generate(&reg).is_some());
    reg.functions.insert("no word".to_string(), plain_fn(vec![], true));
    assert_eq!(generate(&reg), None);
}
