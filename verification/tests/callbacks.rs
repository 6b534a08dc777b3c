//! What a compilation does.
use toylangc::llvm_gen::abi::{Abi, AbiReturn, CodeFacts};
use toylangc::names::NameMap;
use toylangc::rust_items::{Generics, GenericParam, Item, ItemKind, Module, ModuleChild, RustcTy, RustcWorld};
use toylangc::sidecar::{deserialize_sidecar, serialize_sidecar};
use toylangc::toylang::answers::{RustAnswers, RustQuery, WrapperAnswer};
use toylangc::toylang::callbacks_impl::{
    compute_internal_symbol_from_type_args, effective_registry, make_method_dep, resolve_toylang_callee, stub_name_of, Emission, NameSet, RustDep, WalkStop,
};
use toylangc::toylang::deps::RustMethodDep;
use toylangc::toylang::parser::parse;
use toylangc::toylang::registry::{DiscoveredTraitImplInstance, ToyField, ToyFunction, ToyImpl, ToyImplMethod, ToyParam, ToyStruct, ToylangRegistry};
use toylangc::toylang::roots::{
    drain_discoveries, populate_toylang_instances, AccessorStub, MethodStub, StubFacts, StubSymbol,
};
use toylangc::toylang::session::{
    capture_discovered_trait_impl_instances, synthesize_upstream_monomorphizations, CaptureStop, CapturedItem, LoadedCrate, StashedDiscovery,
};
use toylangc::toylang::type_resolve::TypeResolveError;
use toylangc::toylang::typed_ast::{ResolvedType, SourceType};
use toylangc::toylang::validate::{
    build_shipped_sidecar, collect_rust_type_names, render_log, sort_discoveries, universe_names, validate, CallbackLog, RustcFacts,
    ToylangCallbacks, ToylangState, ValidationError,
};

fn set(names: &[&str]) -> NameSet {
    let mut s = NameSet::new();
    for n in names {
        s.insert(n.to_string());
    }
    s
}

fn facts(structs: &[&str], stub_fns: &[&str], rust_types: &[&str], declared: &[&str]) -> RustcFacts {
    RustcFacts { structs: set(structs), stub_fns: set(stub_fns), rust_types: set(rust_types), declared_fns: set(declared) }
}

#[test]
fn a_crate_that_rust_sees_is_fine() {
    let registry = parse("struct P { x: i32 } fn main() { } fn show(x: i32)").unwrap();
    let f = facts(&["P"], &["__toylang_main"], &[], &["show"]);
    assert_eq!(validate(&registry, &NameMap::new(), &RustAnswers::new(), &f), vec![]);
}

#[test]
fn what_is_wrong_is_listed_in_order() {
    let src = "struct P { x: Regex } fn main() -> i32 { y } fn show(x: i32)";
    let registry = parse(src).unwrap();
    let f = facts(&[], &[], &[], &[]);
    let errors = validate(&registry, &NameMap::new(), &RustAnswers::new(), &f);
    assert_eq!(
        errors,
        vec![
            ValidationError::StructNotFound { name: "P".to_string() },
            ValidationError::NoStub { name: "main".to_string(), expected: "__toylang_main".to_string() },
            ValidationError::RustTypeNotFound {
                struct_name: "P".to_string(),
                field: "x".to_string(),
                rust_name: "Regex".to_string(),
            },
            ValidationError::DeclaredNotFound { name: "show".to_string() },
            ValidationError::Function {
                name: "main".to_string(),
                error: TypeResolveError::UndefinedVariable { name: "y".to_string() },
            },
        ],
    );
    let texts: Vec<String> = errors.iter().map(|e| e.to_text()).collect();
    assert_eq!(
        texts,
        vec![
            "struct 'P' not found in rustc (stub generation may have failed)",
            "function 'main' has no stub in __lang_stubs (expected '__toylang_main')",
            "struct 'P' field 'x': Rust type 'Regex' not found",
            "extern function 'show' not found in Rust code",
            "function 'main': ",
        ],
    );
}

#[test]
fn main_must_end_in_nothing() {
    let registry = parse("fn main() { 5 }").unwrap();
    let f = facts(&[], &["__toylang_main"], &[], &[]);
    assert_eq!(
        validate(&registry, &NameMap::new(), &RustAnswers::new(), &f),
        vec![ValidationError::Function {
            name: "main".to_string(),
            error: TypeResolveError::MainMustReturnVoid { got: ResolvedType::I32 },
        }],
    );
}

fn method(name: &str, body_src: &str) -> ToyImplMethod {
    let registry = parse(body_src).unwrap();
    ToyImplMethod { name: name.to_string(), func: registry.functions.get("m").unwrap().clone(), is_self_mut: false }
}

fn clone_impl(methods: Vec<ToyImplMethod>) -> ToyImpl {
    ToyImpl {
        trait_name: "Clone".to_string(),
        self_type_name: "W".to_string(),
        is_export: true,
        type_params: vec![],
        type_param_bounds: vec![],
        self_type_args: vec![],
        methods,
    }
}

#[test]
fn methods_are_checked_too() {
    let mut registry = parse("struct W { x: i32 }").unwrap();
    registry.trait_impls.push(clone_impl(vec![method("clone", "fn m() -> i32 { nope }")]));
    let errors = validate(&registry, &NameMap::new(), &RustAnswers::new(), &facts(&["W"], &[], &[], &[]));
    assert_eq!(errors.len(), 1);
    assert_eq!(errors[0].to_text(), "impl Clone for W::clone: ");
}

#[test]
fn rust_types_in_a_type() {
    let t = SourceType::RustType {
        name: "HashMap".to_string(),
        type_args: vec![
            SourceType::Ref { inner: Box::new(SourceType::RustType { name: "A".to_string(), type_args: vec![] }) },
            SourceType::StructRef {
                name: "W".to_string(),
                type_args: vec![SourceType::RustType { name: "B".to_string(), type_args: vec![] }],
            },
        ],
    };
    assert_eq!(collect_rust_type_names(&t), vec!["HashMap", "A", "B"]);
}

#[test]
fn universe_has_main_by_both_names() {
    let mut registry = parse("struct P { x: i32 } fn main() { } fn show(x: i32)").unwrap();
    registry.populate_typeid_table();
    let names = universe_names(&registry);
    assert_eq!(names.type_names, vec!["P"]);
    assert_eq!(names.fn_names, vec!["main", "__toylang_main"]);
    assert_eq!(names.typeids, vec![toylangc::typeid::compute("P", &vec![])]);
}

fn seen(self_type: &str, method: &str, args: Vec<ResolvedType>) -> DiscoveredTraitImplInstance {
    DiscoveredTraitImplInstance {
        self_type_name: self_type.to_string(),
        trait_name: "Clone".to_string(),
        method_name: method.to_string(),
        concrete_args: args,
    }
}

#[test]
fn instances_are_put_in_order() {
    let a = || seen("A", "z", vec![]);
    let b_i32 = || seen("B", "a", vec![ResolvedType::I32]);
    let b_i64 = || seen("B", "a", vec![ResolvedType::I64]);
    let b_i32_y = || seen("B", "y", vec![ResolvedType::I32]);
    assert_eq!(
        sort_discoveries(&vec![b_i64(), b_i32_y(), b_i32(), a()]),
        vec![a(), b_i32(), b_i32_y(), b_i64()],
    );
}

#[test]
fn shipped_sidecar_has_what_was_seen() {
    let registry = parse("struct W { x: i32 }").unwrap();
    let bytes = build_shipped_sidecar(&registry, &vec![seen("W", "b", vec![]), seen("W", "a", vec![])]).unwrap();
    let back = deserialize_sidecar(&bytes).unwrap();
    assert_eq!(back.discovered_trait_impl_instances, vec![seen("W", "a", vec![]), seen("W", "b", vec![])]);
    assert_eq!(back.typeid_table.len(), 1);
}

#[test]
fn sidecars_are_taken_in() {
    let upstream = parse("struct W { x: i32 } fn f() { } fn g() { }").unwrap();
    let bytes = serialize_sidecar(&upstream).unwrap();
    let mut state = ToylangState::new();
    state.on_sky_lib_loaded("lib_a", &bytes).unwrap();
    assert_eq!(
        state.log,
        vec![CallbackLog::OnSkyLibLoaded { crate_name: "lib_a".to_string(), n_structs: 1, n_functions: 2 }],
    );
    assert!(state.on_sky_lib_loaded("lib_b", &bytes[..10]).is_err());
    assert_eq!(state.log.len(), 1);
    assert!(!state.upstream_registries.contains_key("lib_b"));
    let local = parse("fn f() -> i32 { 1 }").unwrap();
    let merged = effective_registry(&local, &state.upstream_registries);
    assert!(merged.functions.contains_key("g"));
    assert_eq!(merged.functions.get("f").unwrap().return_ty, Some(SourceType::I32), "the crate's own wins");
}

#[test]
fn log_lines_are_tagged() {
    let entries = vec!["A".to_string(), "B".to_string()];
    assert_eq!(render_log(true, &entries), "[compile=userbin] A\n[compile=userbin] B\n");
    assert_eq!(render_log(false, &vec!["A".to_string()]), "[compile=rlib] A\n");
    assert_eq!(render_log(false, &vec![]), "\n");
}

#[test]
fn symbols_and_instances() {
    assert_eq!(
        compute_internal_symbol_from_type_args("wrap", &vec![ResolvedType::I32, ResolvedType::Bool]),
        "__toylang_internal_wrap__i32__bool",
    );
    assert_eq!(stub_name_of("main"), "__toylang_main");
    assert_eq!(stub_name_of("f"), "f");
    let registry = parse("fn id<T>(x: T) -> T { x }").unwrap();
    let f = resolve_toylang_callee(registry.functions.get("id").unwrap(), &vec![ResolvedType::I64]);
    assert_eq!(f.params, vec![ToyParam { name: "x".to_string(), ty: SourceType::I64 }]);
    assert_eq!(f.return_ty, Some(SourceType::I64));
    assert!(f.type_params.is_empty());
}

fn callbacks(src: &str, is_user_bin_compile: bool) -> ToylangCallbacks {
    ToylangCallbacks { registry: parse(src).unwrap(), is_user_bin_compile }
}

#[test]
fn dependencies_of_an_instance() {
    let cb = callbacks("fn show(x: i32) fn g<T>(x: T) { show(1) } fn f() { g<i32>(2) } fn main() { f() }", false);
    let mut state = ToylangState::new();
    let mut ask = |name: &str| {
        cb.collect_generic_rust_deps_inner(
            &mut state,
            &RustAnswers::new(),
            name,
            "[]".to_string(),
            format!("_R{}", name),
            &vec![],
        )
    };
    assert_eq!(ask("__toylang_main"), Ok(vec![RustDep::Declared { name: "show".to_string() }]));
    assert_eq!(ask("show"), Ok(vec![]));
    assert_eq!(ask("P.x"), Ok(vec![]));
    assert_eq!(ask("gone"), Err(WalkStop::FunctionNotFound { name: "gone".to_string() }));
    assert_eq!(
        state.log[0],
        CallbackLog::CollectGenericRustDeps { name: "__toylang_main".to_string(), args_fingerprint: "[]".to_string() },
    );
}

#[test]
fn calls_may_nest_as_deep_as_they_do() {
    let mut src = String::new();
    for i in 0..300 {
        src.push_str(&format!("fn f{}() {{ f{}() }} ", i, i + 1));
    }
    src.push_str("fn f300() { f0(); show(1) } fn show(x: i32)");
    let cb = callbacks(&src, false);
    let r = cb.collect_generic_rust_deps_inner(
        &mut ToylangState::new(),
        &RustAnswers::new(),
        "f0",
        "[]".to_string(),
        "_Rf0".to_string(),
        &vec![],
    );
    assert_eq!(r, Ok(vec![RustDep::Declared { name: "show".to_string() }]));
}

fn no_stubs() -> StubFacts {
    StubFacts { functions: NameMap::new(), accessors: vec![], methods: vec![] }
}

fn stub(id: u64, symbol: &str) -> StubSymbol {
    StubSymbol { id, symbol: symbol.to_string() }
}

#[test]
fn roots_are_emitted_once_with_what_they_call() {
    let cb = callbacks("fn h() { } fn g() { h() } fn main() { g(); h() }", false);
    let mut stubs = no_stubs();
    stubs.functions.insert("__toylang_main".to_string(), stub(7, "_Rmain"));
    let mut st = Emission { toylang_instances: vec![], walked_entry_points: NameSet::new() };
    populate_toylang_instances(&cb.registry, &NameMap::new(), &RustAnswers::new(), &stubs, false, &mut st).unwrap();
    let symbols: Vec<&str> = st.toylang_instances.iter().map(|i| i.extern_symbol.as_str()).collect();
    assert_eq!(symbols, vec!["_Rmain", "__toylang_internal_g", "__toylang_internal_h"]);
    assert_eq!(st.toylang_instances[0].stub_def_id, Some(7));
    assert_eq!(st.toylang_instances[1].stub_def_id, None);
    // Again: nothing new.
    populate_toylang_instances(&cb.registry, &NameMap::new(), &RustAnswers::new(), &stubs, false, &mut st).unwrap();
    assert_eq!(st.toylang_instances.len(), 3);
    // The binary itself emits no roots.
    let mut st = Emission { toylang_instances: vec![], walked_entry_points: NameSet::new() };
    populate_toylang_instances(&cb.registry, &NameMap::new(), &RustAnswers::new(), &stubs, true, &mut st).unwrap();
    assert_eq!(st.toylang_instances.len(), 0);
}

#[test]
fn what_was_seen_is_emitted() {
    let mut registry = parse("struct W { x: i32 }").unwrap();
    registry.trait_impls.push(clone_impl(vec![method("clone", "fn m(this: &W) -> i32 { 1 }")]));
    let mut st = Emission { toylang_instances: vec![], walked_entry_points: NameSet::new() };
    let ds = vec![seen("W", "clone", vec![]), seen("W", "gone", vec![]), seen("W", "clone", vec![])];
    let stubs = vec![Some(stub(1, "_Rclone")), Some(stub(2, "_Rgone")), Some(stub(1, "_Rclone"))];
    drain_discoveries(&ds, &stubs, &registry, &NameMap::new(), &RustAnswers::new(), &mut st).unwrap();
    assert_eq!(st.toylang_instances.len(), 1);
    assert_eq!(st.toylang_instances[0].extern_symbol, "_Rclone");
    assert_eq!(st.toylang_instances[0].internal_symbol, "__toylang_internal__W__Clone__clone");
}

#[test]
fn methods_in_use_are_captured() {
    let registry = parse("struct W<T> { x: T }").unwrap();
    let named = |s: &str| Some((s.to_string(), "Clone".to_string(), "clone".to_string()));
    let items = vec![
        CapturedItem { in_stubs: false, method: named("Other"), args: vec![] },
        CapturedItem { in_stubs: true, method: None, args: vec![] },
        CapturedItem { in_stubs: true, method: named("W"), args: vec![RustcTy::Region, RustcTy::Bool] },
    ];
    assert_eq!(
        capture_discovered_trait_impl_instances(&items, &registry),
        Ok(vec![seen("W", "clone", vec![ResolvedType::Bool])]),
    );
    let odd = vec![CapturedItem { in_stubs: true, method: named("W"), args: vec![RustcTy::Other] }];
    assert_eq!(capture_discovered_trait_impl_instances(&odd, &registry), Err(CaptureStop::Unsupported));
}

#[test]
fn instances_of_other_crates_are_told() {
    let mut stubs = no_stubs();
    stubs.methods.push(MethodStub {
        trait_name: "Clone".to_string(),
        self_type: "W".to_string(),
        method: "clone".to_string(),
        stub: stub(5, "_Rclone"),
    });
    let mut world = RustcWorld {
        local_modules: vec![],
        local_fns: vec![],
        stub_crates: vec![Module {
            children: vec![ModuleChild {
                name: "W".to_string(),
                item: Item { item_name: "W".to_string(), kind: ItemKind::Struct, def: 3, in_stubs: true, foreign: false },
                foreign_items: vec![],
            }],
        }],
        assoc: vec![],
        generics: vec![],
        signatures: vec![],
    };
    world.generics.push(Generics { def: 5, params: vec![GenericParam::Type] });
    let crates = vec![LoadedCrate { name: "lib_a".to_string(), num: 4 }];
    let ds = vec![
        StashedDiscovery { crate_name: "lib_a".to_string(), instance: seen("W", "clone", vec![ResolvedType::Bool]) },
        StashedDiscovery { crate_name: "gone".to_string(), instance: seen("W", "clone", vec![ResolvedType::Bool]) },
        StashedDiscovery { crate_name: "lib_a".to_string(), instance: seen("V", "clone", vec![]) },
    ];
    let records = synthesize_upstream_monomorphizations(&ds, &stubs, &crates, &world).unwrap();
    assert_eq!(records.len(), 1);
    assert_eq!((records[0].def, &records[0].args, records[0].crate_num), (5, &vec![RustcTy::Bool], 4));
}

#[test]
fn a_stub_crate_puts_out_a_sidecar_and_a_module() {
    let cb = callbacks("fn main() { }", false);
    let mut stubs = no_stubs();
    stubs.functions.insert("__toylang_main".to_string(), stub(7, "_Rmain"));
    let facts = CodeFacts {
        abis: vec![],
        wrappers: vec![Abi {
            symbol: "_Rmain".to_string(),
            params: vec![],
            ret: AbiReturn::Void,
            ret_size: 0,
            takes_location: false,
        }],
        layouts: vec![],
        pointer_bits: 64,
        pointer_align: 8,
    };
    let mut state = ToylangState::new();
    let none = RustAnswers::new();
    let plan = cb.consumer_fill_modules(&mut state, &none, &facts, &stubs, &vec![], &vec![], &vec![]).unwrap();
    let back = deserialize_sidecar(&plan.sidecar.unwrap()).unwrap();
    assert!(back.functions.contains_key("main"));
    let symbols: Vec<&str> = plan.filled.module.functions.iter().map(|f| f.symbol.as_str()).collect();
    assert_eq!(symbols, vec!["__toylang_internal_main", "_Rmain"]);
    assert_eq!(state.log, vec![CallbackLog::GenerateAndCompile]);
    // The binary has neither.
    let cb = callbacks("fn main() { }", true);
    let mut state = ToylangState::new();
    let plan = cb.consumer_fill_modules(&mut state, &none, &facts, &stubs, &vec![], &vec![], &vec![]).unwrap();
    assert!(plan.sidecar.is_none());
    assert!(plan.filled.module.functions.is_empty());
}

#[test]
fn struct_definitions_carry_over() {
    let mut registry = ToylangRegistry::default();
    registry.structs.insert(
        "W".to_string(),
        ToyStruct { type_params: vec![], fields: vec![ToyField { name: "x".to_string(), rust_type: SourceType::I32 }] },
    );
    registry.functions.insert(
        "f".to_string(),
        ToyFunction { type_params: vec![], params: vec![], return_ty: None, body: None, is_export: false },
    );
    let back = deserialize_sidecar(&serialize_sidecar(&registry).unwrap()).unwrap();
    assert_eq!(back, registry);
}

#[test]
fn a_crate_is_checked_once_rust_has_seen_it() {
    let src = "fn main() { } fn show(x: i32) fn hide(x: i32)";
    let f = facts(&[], &["__toylang_main"], &[], &["show"]);
    let mut state = ToylangState::new();
    let errors = callbacks(src, false).after_rust_analysis(&mut state, &RustAnswers::new(), &f);
    assert_eq!(errors, vec![ValidationError::DeclaredNotFound { name: "hide".to_string() }]);
    assert_eq!(state.log, vec![CallbackLog::AfterRustAnalysis]);

    let mut state = ToylangState::new();
    let errors = callbacks(src, true).after_rust_analysis(&mut state, &RustAnswers::new(), &f);
    assert_eq!(errors, vec![]);
    assert_eq!(
        state.log,
        vec![CallbackLog::AfterRustAnalysis, CallbackLog::OracleCrossCrateProbe { resolved: 1, total: 2 }],
    );
}

#[test]
fn the_first_sidecar_has_the_ids_of_the_structs() {
    let bytes = callbacks("struct W { x: i32 } struct V { y: i32 } fn main() { }", false).first_sidecar().unwrap();
    let back = deserialize_sidecar(&bytes).unwrap();
    assert_eq!(back.typeid_table.len(), 2);
    assert!(back.functions.contains_key("main"));
    assert!(back.discovered_trait_impl_instances.is_empty());
}

#[test]
fn every_field_has_an_accessor() {
    let registry = parse("struct W { x: i32, y: i64 } struct G<T> { t: T } struct A { a: bool }").unwrap();
    let pair = |a: &str, b: &str| (a.to_string(), b.to_string());
    assert_eq!(registry.accessor_pairs, vec![pair("A", "a"), pair("G", "t"), pair("W", "x"), pair("W", "y")]);
    let mut stubs = no_stubs();
    for (i, (struct_name, field)) in registry.accessor_pairs.iter().enumerate() {
        if field != "x" {
            stubs.accessors.push(AccessorStub {
                struct_name: struct_name.clone(),
                field: field.clone(),
                stub: stub(i as u64, &format!("_R{}", field)),
            });
        }
    }
    let mut st = Emission { toylang_instances: vec![], walked_entry_points: NameSet::new() };
    populate_toylang_instances(&registry, &NameMap::new(), &RustAnswers::new(), &stubs, false, &mut st).unwrap();
    let symbols: Vec<(&str, &str)> =
        st.toylang_instances.iter().map(|i| (i.extern_symbol.as_str(), i.internal_symbol.as_str())).collect();
    // Not that of a generic struct, nor one without a stub.
    assert_eq!(
        symbols,
        vec![("_Ra", "__toylang_internal__accessor__A__a"), ("_Ry", "__toylang_internal__accessor__W__y")],
    );
}

#[test]
fn a_method_is_called_itself_where_the_stubs_lack_its_wrapper() {
    let unwrap = RustMethodDep {
        owner: "Option".to_string(),
        method_name: "unwrap".to_string(),
        type_args: vec![ResolvedType::I32],
        receiver_ty: None,
    };
    let name = "__toylang_option_unwrap".to_string();
    let mut answers = RustAnswers::new();
    match make_method_dep(&unwrap, &answers) {
        Err(WalkStop::Pending { error: TypeResolveError::AnswerPending { query } }) => {
            assert_eq!(query, RustQuery::HasWrapper { name: name.clone() })
        }
        other => panic!("{:?}", other),
    }
    answers.wrappers.push(WrapperAnswer { name: name.clone(), is_there: true });
    assert_eq!(
        make_method_dep(&unwrap, &answers),
        Ok(RustDep::Wrapper { name: name.clone(), type_args: vec![ResolvedType::I32] }),
    );
    let mut answers = RustAnswers::new();
    answers.wrappers.push(WrapperAnswer { name, is_there: false });
    assert_eq!(
        make_method_dep(&unwrap, &answers),
        Ok(RustDep::InherentMethod {
            owner: "Option".to_string(),
            method_name: "unwrap".to_string(),
            type_args: vec![ResolvedType::I32],
        }),
    );
}
