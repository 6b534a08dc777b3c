//! Looking things up on the Rust side.
use toylangc::names::NameMap;
use toylangc::oracle::{RustTypeLookupContext, UnresolvedRustType};
use toylangc::rust_items::{
    AssocItem, AssocItems, ForeignItem, GenericParam, Generics, Item, ItemKind, Module, ModuleChild, OracleStop, RustcTy, RustcWorld,
    Signature, Wanted,
};
use toylangc::rust_lookup::{build_generic_args_for_item, rustc_ty_to_resolved_type};
use toylangc::toylang::registry::{ToyField, ToyStruct};
use toylangc::toylang::typed_ast::SourceType;

fn item(name: &str, kind: ItemKind, def: u64, in_stubs: bool, foreign: bool) -> Item {
    Item { item_name: name.to_string(), kind, def, in_stubs, foreign }
}

fn child(name: &str, kind: ItemKind, def: u64, in_stubs: bool) -> ModuleChild {
    ModuleChild { name: name.to_string(), item: item(name, kind, def, in_stubs, false), foreign_items: vec![] }
}

fn world() -> RustcWorld {
    RustcWorld {
        local_modules: vec![Module { children: vec![child("Local", ItemKind::Struct, 1, false)] }],
        local_fns: vec![],
        stub_crates: vec![Module {
            children: vec![
                child("Widget", ItemKind::Struct, 10, true),
                child("Vec", ItemKind::Struct, 11, false),
                child("Clone", ItemKind::Trait, 12, false),
                child("stdout", ItemKind::Fn, 13, false),
                ModuleChild {
                    name: "".to_string(),
                    item: item("", ItemKind::ForeignMod, 14, true, false),
                    foreign_items: vec![ForeignItem {
                        name: "println_int".to_string(),
                        item: item("println_int", ItemKind::Fn, 15, true, true),
                    }],
                },
                child("__toylang_option_unwrap", ItemKind::Fn, 16, true),
            ],
        }],
        assoc: vec![],
        generics: vec![],
        signatures: vec![],
    }
}

fn rust(name: &str, type_args: Vec<SourceType>) -> SourceType {
    SourceType::RustType { name: name.to_string(), type_args }
}

#[test]
fn names_are_found_in_order() {
    let w = world();
    assert_eq!(w.find_local_struct_def_id("Local"), Some(1));
    assert_eq!(w.find_rust_type_def_id("Vec"), Some(11));
    assert_eq!(w.find_rust_type_def_id("Clone"), None, "a trait is no type");
    assert_eq!(w.find_use_imported_trait_def_id("Clone"), Some(12));
    assert_eq!(w.find_use_imported_fn_def_id("stdout"), Some(13));
    assert_eq!(w.resolve_rust_path("nowhere", Wanted::Fn), None);
    assert_eq!(w.find_extern_fn_def_id("println_int"), Some(15));
    assert_eq!(w.find_stub_fn_in_stub_rlib("stdout"), Some(13));
    assert_eq!(w.find_stub_fn_in_stub_rlib("println_int"), None);
    assert_eq!(w.redirect_to_wrapper("Option", "unwrap"), Some(16));
    assert_eq!(w.find_wrapper_fn_def_id("__toylang_option_unwrap"), Some(16));
    assert_eq!(w.redirect_to_wrapper("Vec", "len"), None);
}

#[test]
fn a_function_of_the_crate_wins_over_a_declaration() {
    let mut w = world();
    w.local_fns.push(item("f", ItemKind::Fn, 20, true, true));
    assert_eq!(w.find_extern_fn_def_id("f"), Some(20));
    w.local_fns.push(item("f", ItemKind::Fn, 21, true, true));
    assert_eq!(w.find_extern_fn_def_id("f"), Some(21), "the last declaration");
    w.local_fns.push(item("f", ItemKind::Fn, 22, false, false));
    assert_eq!(w.find_extern_fn_def_id("f"), Some(22));
    assert_eq!(w.find_stub_fn_def_id("f"), Some(20));
}

#[test]
fn types_come_back_as_they_were() {
    let w = world();
    let widget = SourceType::StructRef { name: "Widget".to_string(), type_args: vec![] };
    for t in [
        SourceType::I32,
        SourceType::I64,
        SourceType::F64,
        SourceType::Bool,
        SourceType::Usize,
        SourceType::Void,
        widget.clone(),
        rust("Vec", vec![SourceType::Ref { inner: Box::new(widget) }]),
        rust("u8", vec![]),
        rust("i16", vec![]),
        rust("f32", vec![]),
        SourceType::Ref { inner: Box::new(SourceType::Str) },
        SourceType::Ref { inner: Box::new(SourceType::ByteSlice) },
    ] {
        let there = w.resolved_to_rustc_ty(&t).unwrap();
        assert_eq!(rustc_ty_to_resolved_type(&there), Some(t));
    }
}

#[test]
fn types_of_the_rust_compiler() {
    let named = |name: &str| Some(rust(name, vec![]));
    assert_eq!(rustc_ty_to_resolved_type(&RustcTy::Int("i8".to_string())), named("i8"));
    assert_eq!(rustc_ty_to_resolved_type(&RustcTy::Never), named("never"));
    assert_eq!(rustc_ty_to_resolved_type(&RustcTy::Dynamic), named("dyn_trait"));
    assert_eq!(
        rustc_ty_to_resolved_type(&RustcTy::Tuple(vec![RustcTy::Bool, RustcTy::Str])),
        Some(rust("tuple", vec![SourceType::Bool, SourceType::Str])),
    );
    assert_eq!(
        rustc_ty_to_resolved_type(&RustcTy::RawPtr(Box::new(RustcTy::Bool))),
        Some(rust("raw_ptr", vec![SourceType::Bool])),
    );
    assert_eq!(rustc_ty_to_resolved_type(&RustcTy::Param("T".to_string())), Some(SourceType::TypeParam("T".to_string())));
    assert_eq!(rustc_ty_to_resolved_type(&RustcTy::Slice(Box::new(RustcTy::Bool))), None);
    assert_eq!(rustc_ty_to_resolved_type(&RustcTy::Other), None);
    // Lifetimes among the arguments are left out.
    let adt = RustcTy::Adt {
        def: 1,
        name: "Iter".to_string(),
        from_stubs: false,
        args: vec![RustcTy::Region, RustcTy::Bool, RustcTy::ConstArg],
    };
    assert_eq!(rustc_ty_to_resolved_type(&adt), Some(rust("Iter", vec![SourceType::Bool])));
}

#[test]
fn what_is_not_imported_is_named() {
    let w = world();
    let context = RustTypeLookupContext::Codegen;
    assert_eq!(
        w.try_resolved_to_rustc_ty(&rust("Regex", vec![]), &context),
        Err(OracleStop::Unresolved(UnresolvedRustType { name: "Regex".to_string(), context: RustTypeLookupContext::Codegen })),
    );
    assert_eq!(
        w.try_resolved_to_rustc_ty(&rust("Vec", vec![rust("Regex", vec![])]), &context),
        Err(OracleStop::Unresolved(UnresolvedRustType {
            name: "Regex".to_string(),
            context: RustTypeLookupContext::NestedGenericArg { parent_type: "Vec".to_string() },
        })),
    );
    assert_eq!(
        w.try_resolved_to_rustc_ty(&SourceType::StructRef { name: "Gone".to_string(), type_args: vec![] }, &context),
        Err(OracleStop::NoStruct { name: "Gone".to_string() }),
    );
    assert_eq!(
        w.try_resolved_to_rustc_ty(&SourceType::TypeParam("T".to_string()), &context),
        Err(OracleStop::Unresolved(UnresolvedRustType {
            name: "T".to_string(),
            context: RustTypeLookupContext::Deferred { type_param: "T".to_string() },
        })),
    );
}

#[test]
fn generic_arguments() {
    let types = || vec![RustcTy::Bool, RustcTy::Str];
    assert_eq!(
        build_generic_args_for_item(&vec![GenericParam::Lifetime, GenericParam::Type, GenericParam::Lifetime], &types()),
        Some(vec![RustcTy::Region, RustcTy::Bool, RustcTy::Region]),
    );
    assert_eq!(build_generic_args_for_item(&vec![GenericParam::Type, GenericParam::Type, GenericParam::Type], &types()), None);
    assert_eq!(build_generic_args_for_item(&vec![GenericParam::Constant], &types()), None);
    assert_eq!(build_generic_args_for_item(&vec![], &types()), Some(vec![]));
}

#[test]
fn return_types_are_looked_up_step_by_step() {
    let mut w = world();
    let args = vec![SourceType::I32];
    let ask = |w: &RustcWorld| w.return_type_for("Vec", "new", &args);
    assert_eq!(ask(&w), Err(OracleStop::NeedItems { owner: 11 }));
    w.assoc.push(AssocItems { owner: 11, items: vec![AssocItem { name: "new".to_string(), def: 30 }] });
    assert_eq!(ask(&w), Err(OracleStop::NeedGenerics { def: 30 }));
    w.generics.push(Generics { def: 30, params: vec![GenericParam::Type] });
    let i32_ty = || RustcTy::Int("i32".to_string());
    assert_eq!(ask(&w), Err(OracleStop::NeedSignature { def: 30, args: vec![i32_ty()] }));
    let vec_ty = RustcTy::Adt { def: 11, name: "Vec".to_string(), from_stubs: false, args: vec![i32_ty()] };
    w.signatures.push(Signature { def: 30, args: vec![i32_ty()], inputs: vec![], output: vec_ty });
    assert_eq!(ask(&w), Ok(rust("Vec", vec![SourceType::I32])));
    assert_eq!(w.param_types_for("Vec", "new", &args), Ok(Some(vec![])));
    assert_eq!(
        w.return_type_for("Vec", "gone", &args),
        Err(OracleStop::NoMethod { owner: "Vec".to_string(), method: "gone".to_string() }),
    );
    assert_eq!(w.param_types_for("Vec", "gone", &args), Ok(None));
    // A free function that is not there returns nothing.
    assert_eq!(w.return_type_for("", "gone", &vec![]), Ok(SourceType::Void));
    assert_eq!(w.param_types_for("", "gone", &vec![]), Ok(None));
}

#[test]
fn trait_calls_put_the_receiver_first() {
    let mut w = world();
    w.assoc.push(AssocItems { owner: 12, items: vec![AssocItem { name: "clone".to_string(), def: 31 }] });
    w.generics.push(Generics { def: 31, params: vec![GenericParam::Type] });
    let widget = SourceType::StructRef { name: "Widget".to_string(), type_args: vec![] };
    let widget_ty = || RustcTy::Adt { def: 10, name: "Widget".to_string(), from_stubs: true, args: vec![] };
    w.signatures.push(Signature {
        def: 31,
        args: vec![widget_ty()],
        inputs: vec![RustcTy::Ref(Box::new(widget_ty()))],
        output: widget_ty(),
    });
    let receiver = vec![SourceType::Ref { inner: Box::new(widget.clone()) }];
    assert_eq!(w.return_type_for("__trait::Clone", "clone", &receiver), Ok(widget.clone()));
    assert_eq!(
        w.param_types_for("__trait::Clone", "clone", &receiver),
        Ok(Some(vec![SourceType::Ref { inner: Box::new(widget) }])),
    );
    assert_eq!(w.return_type_for("__trait::Clone", "clone", &vec![]), Err(OracleStop::NoReceiver));
    let unresolved = |name: &str, context| Err(OracleStop::Unresolved(UnresolvedRustType { name: name.to_string(), context }));
    assert_eq!(
        w.return_type_for("__trait::Write", "flush", &receiver),
        unresolved("Write", RustTypeLookupContext::TraitCallName { method: "flush".to_string() }),
    );
    assert_eq!(
        w.return_type_for("__trait::Clone", "flush", &receiver),
        unresolved("flush", RustTypeLookupContext::TraitMethodName { trait_name: "Clone".to_string() }),
    );
}

#[test]
fn fields_of_a_generic_struct() {
    let w = world();
    let d = ToyStruct {
        type_params: vec!["T".to_string()],
        fields: vec![
            ToyField { name: "a".to_string(), rust_type: SourceType::TypeParam("T".to_string()) },
            ToyField { name: "b".to_string(), rust_type: rust("Vec", vec![SourceType::TypeParam("T".to_string())]) },
            ToyField { name: "c".to_string(), rust_type: SourceType::Bool },
        ],
    };
    let args = vec![RustcTy::Region, RustcTy::Str];
    assert_eq!(
        w.monomorphize_type(&d, &args),
        Ok(vec![
            RustcTy::Str,
            RustcTy::Adt { def: 11, name: "Vec".to_string(), from_stubs: false, args: vec![RustcTy::Str] },
            RustcTy::Bool,
        ]),
    );
    assert!(w.resolved_to_rustc_ty_with_subst(&SourceType::TypeParam("T".to_string()), &NameMap::new()).is_err());
}
