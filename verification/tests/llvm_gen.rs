//! Generated code.
use toylangc::llvm_gen::abi::{Abi, AbiAnswer, AbiParam, AbiReturn, CodeFacts, CoercedParam, CoercedReturn, LayoutAnswer, LowerStop};
use toylangc::llvm_gen::code::{Decl, Extent, Inst, Operand};
use toylangc::llvm_gen::types::{parse_coerced_type, static_size_bytes, LlvmType};
use toylangc::llvm_gen::{compat_attributes, fill_module, Filled, FramePointer, MonoItem, StackProbe};
use toylangc::toylang::answers::{MethodReturnAnswer, ParamTypesAnswer, RustAnswers, TraitAnswer};
use toylangc::toylang::ast::BinOp;
use toylangc::toylang::callbacks_impl::{Emission, NameSet, RustDep, ToylangInstance};
use toylangc::toylang::parser::parse;
use toylangc::toylang::registry::{synthesize_accessor_fn, ToylangRegistry};
use toylangc::toylang::typed_ast::{ResolvedType, SourceType};

fn bits(n: u32) -> LlvmType {
    LlvmType::Int { bits: n }
}

fn strukt(fields: Vec<LlvmType>) -> LlvmType {
    LlvmType::Struct { fields }
}

#[test]
fn coerced_types_are_read() {
    assert_eq!(parse_coerced_type("ptr"), Some(LlvmType::Ptr));
    assert_eq!(parse_coerced_type("half"), Some(LlvmType::Half));
    assert_eq!(parse_coerced_type("float"), Some(LlvmType::Float));
    assert_eq!(parse_coerced_type("double"), Some(LlvmType::Double));
    assert_eq!(parse_coerced_type("fp128"), Some(LlvmType::Fp128));
    assert_eq!(parse_coerced_type("i64"), Some(bits(64)));
    assert_eq!(parse_coerced_type("i0"), None);
    assert_eq!(parse_coerced_type("i8388609"), None);
    assert_eq!(parse_coerced_type("ix"), None);
    assert_eq!(parse_coerced_type("[2 x i32]"), Some(LlvmType::Array { elem: Box::new(bits(32)), len: 2 }));
    assert_eq!(parse_coerced_type("[2 x ptr]"), None);
    assert_eq!(parse_coerced_type("<8 x i8>"), Some(LlvmType::Vector { elem: Box::new(bits(8)), len: 8 }));
    assert_eq!(parse_coerced_type("<0 x i8>"), None);
    assert_eq!(parse_coerced_type("{ i32, i64 }"), Some(strukt(vec![bits(32), bits(64)])));
    assert_eq!(
        parse_coerced_type("{ { i8, i16 }, [2 x i32] }"),
        Some(strukt(vec![strukt(vec![bits(8), bits(16)]), LlvmType::Array { elem: Box::new(bits(32)), len: 2 }])),
    );
    assert_eq!(parse_coerced_type("{ }"), Some(strukt(vec![])));
    assert_eq!(parse_coerced_type("{ i8,, i8 }"), None);
    assert_eq!(parse_coerced_type("void"), None);
    assert_eq!(parse_coerced_type(""), None);
}

#[test]
fn sizes_of_values() {
    let size = |t: &LlvmType| static_size_bytes(t, 8);
    assert_eq!(size(&bits(1)), Some(1));
    assert_eq!(size(&bits(17)), Some(3));
    assert_eq!(size(&LlvmType::Double), Some(8));
    assert_eq!(size(&LlvmType::Fp128), Some(16));
    assert_eq!(size(&LlvmType::Ptr), Some(8));
    assert_eq!(size(&LlvmType::Array { elem: Box::new(bits(8)), len: 24 }), Some(24));
    assert_eq!(size(&strukt(vec![])), Some(0));
    assert_eq!(size(&strukt(vec![bits(1), bits(32)])), Some(8));
    assert_eq!(size(&strukt(vec![bits(32), bits(1), bits(64)])), Some(16));
    assert_eq!(size(&strukt(vec![bits(64), bits(1)])), Some(16));
    assert_eq!(size(&strukt(vec![bits(8), bits(8), bits(8), bits(8), bits(8)])), Some(5));
    assert_eq!(size(&LlvmType::Vector { elem: Box::new(bits(8)), len: 8 }), None);
}

#[test]
fn coerced_parameters_and_returns_are_read() {
    assert_eq!(AbiParam::from_coerced(&CoercedParam::Ignore), Some(AbiParam::Ignore));
    assert_eq!(AbiParam::from_coerced(&CoercedParam::Indirect), Some(AbiParam::Indirect));
    assert_eq!(AbiParam::from_coerced(&CoercedParam::Direct("i32".to_string())), Some(AbiParam::Direct(bits(32))));
    assert_eq!(
        AbiParam::from_coerced(&CoercedParam::Pair("ptr".to_string(), "i64".to_string())),
        Some(AbiParam::Pair(LlvmType::Ptr, bits(64))),
    );
    assert_eq!(AbiParam::from_coerced(&CoercedParam::Direct("?".to_string())), None);
    assert_eq!(AbiReturn::from_coerced(&CoercedReturn::Void), Some(AbiReturn::Void));
    assert_eq!(AbiReturn::from_coerced(&CoercedReturn::Indirect), Some(AbiReturn::Indirect));
    assert_eq!(AbiReturn::from_coerced(&CoercedReturn::Direct("i64".to_string())), Some(AbiReturn::Direct(bits(64))));
    assert_eq!(AbiReturn::from_coerced(&CoercedReturn::Direct("".to_string())), None);
}

fn facts() -> CodeFacts {
    CodeFacts { abis: vec![], wrappers: vec![], layouts: vec![], pointer_bits: 64, pointer_align: 8 }
}

fn emission(registry: &ToylangRegistry, names: &[(&str, Option<u64>)]) -> Emission {
    let mut instances = Vec::new();
    for (name, stub) in names {
        let f = registry.functions.get(name).unwrap();
        instances.push(ToylangInstance {
            extern_symbol: if stub.is_some() { format!("_R{}", name) } else { format!("__toylang_internal_{}", name) },
            internal_symbol: format!("__toylang_internal_{}", name),
            resolved_func: f.clone(),
            stub_def_id: *stub,
            instance_args: vec![],
        });
    }
    Emission { toylang_instances: instances, walked_entry_points: NameSet::new() }
}

fn fill(src: &str, names: &[(&str, Option<u64>)], answers: &RustAnswers, facts: &CodeFacts) -> Result<Filled, LowerStop> {
    let registry = parse(src).unwrap();
    let emission = emission(&registry, names);
    fill_module(&registry, answers, facts, &vec![], &emission)
}

#[test]
fn a_sum_of_parameters() {
    let filled = fill("fn add(a: i32, b: i32) -> i32 { a + b }", &[("add", None)], &RustAnswers::new(), &facts()).unwrap();
    let m = filled.module;
    assert_eq!(
        m.decls,
        vec![Decl {
            symbol: "__toylang_internal_add".to_string(),
            params: vec![bits(32), bits(32)],
            ret: Some(bits(32)),
            sret: None,
        }],
    );
    assert_eq!(m.functions.len(), 1);
    assert_eq!(
        m.functions[0].insts,
        vec![
            Inst::Block,
            Inst::Enter { block: 0 },
            Inst::Alloca { ty: bits(32), align: None },
            Inst::Store { ptr: Operand::Reg(2), value: Operand::Param(0) },
            Inst::Alloca { ty: bits(32), align: None },
            Inst::Store { ptr: Operand::Reg(4), value: Operand::Param(1) },
            Inst::Load { ty: bits(32), ptr: Operand::Reg(2) },
            Inst::Load { ty: bits(32), ptr: Operand::Reg(4) },
            Inst::IntOp { op: BinOp::Add, left: Operand::Reg(6), right: Operand::Reg(7) },
            Inst::Return { value: Some(Operand::Reg(8)) },
        ],
    );
    assert_eq!(filled.pinned, vec!["__toylang_internal_add".to_string()]);
}

#[test]
fn a_struct_is_returned_through_the_first_parameter() {
    let src = "struct P { x: i32, y: bool } fn make() -> P { P { x: 1, y: true } }";
    let m = fill(src, &[("make", None)], &RustAnswers::new(), &facts()).unwrap().module;
    let p = || strukt(vec![bits(32), bits(1)]);
    assert_eq!(m.decls[0].params, vec![LlvmType::Ptr]);
    assert_eq!(m.decls[0].ret, None);
    assert_eq!(
        m.functions[0].insts[2..],
        [
            Inst::Alloca { ty: p(), align: None },
            Inst::FieldPtr { ty: p(), ptr: Operand::Reg(2), field: 0 },
            Inst::Store { ptr: Operand::Reg(3), value: Operand::Int { bits: 32, value: 1 } },
            Inst::FieldPtr { ty: p(), ptr: Operand::Reg(2), field: 1 },
            Inst::Store { ptr: Operand::Reg(5), value: Operand::Int { bits: 1, value: 1 } },
            Inst::Copy { dest: Operand::Param(0), source: Operand::Reg(2), align: 8, extent: Extent::SizeOf(p()) },
            Inst::Return { value: None },
        ],
    );
}

#[test]
fn a_conditional_meets_in_one_block() {
    let src = "fn pick(c: bool) -> i32 { if c { 1 } else { 2 } }";
    let m = fill(src, &[("pick", None)], &RustAnswers::new(), &facts()).unwrap().module;
    assert_eq!(
        m.functions[0].insts[4..],
        [
            Inst::Load { ty: bits(1), ptr: Operand::Reg(2) },
            Inst::Block,
            Inst::Block,
            Inst::Block,
            Inst::Branch { cond: Operand::Reg(4), then_block: 5, else_block: 6 },
            Inst::Enter { block: 5 },
            Inst::Jump { block: 7 },
            Inst::Enter { block: 6 },
            Inst::Jump { block: 7 },
            Inst::Enter { block: 7 },
            Inst::Phi {
                ty: bits(32),
                first: Operand::Int { bits: 32, value: 1 },
                first_block: 5,
                second: Operand::Int { bits: 32, value: 2 },
                second_block: 6,
            },
            Inst::Return { value: Some(Operand::Reg(14)) },
        ],
    );
}

#[test]
fn a_loop_writes_rebound_variables_back() {
    let src = "fn count() { let i = 0; while 3 > i { let i = i + 1; } }";
    let m = fill(src, &[("count", None)], &RustAnswers::new(), &facts()).unwrap().module;
    let insts = &m.functions[0].insts;
    // The variable of the body is loaded and stored into the place that the condition reads.
    let place = insts.iter().position(|i| matches!(i, Inst::Alloca { .. })).unwrap();
    let inner = insts.iter().rposition(|i| matches!(i, Inst::Alloca { .. })).unwrap();
    assert_ne!(place, inner);
    let back = insts.iter().rposition(|i| matches!(i, Inst::Load { .. })).unwrap();
    assert_eq!(insts[back], Inst::Load { ty: bits(32), ptr: Operand::Reg(inner) });
    assert_eq!(insts[back + 1], Inst::Store { ptr: Operand::Reg(place), value: Operand::Reg(back) });
    assert!(matches!(insts[back + 2], Inst::Jump { .. }));
    assert!(matches!(insts[back + 3], Inst::Enter { .. }));
    assert_eq!(insts[back + 4], Inst::Return { value: None });
}

#[test]
fn toylang_functions_call_one_another_by_their_own_symbols() {
    let src = "struct P { x: i32 } fn make(n: i32) -> P { P { x: n } } fn get() -> i32 { let p = make(7); p.x }";
    let m = fill(src, &[("get", None), ("make", None)], &RustAnswers::new(), &facts()).unwrap().module;
    assert_eq!(m.functions[0].symbol, "__toylang_internal_get");
    assert!(m.functions[0].insts.contains(&Inst::Call {
        symbol: "__toylang_internal_make".to_string(),
        args: vec![Operand::Reg(2), Operand::Int { bits: 32, value: 7 }],
    }));
    // Declared by the call, defined later: one declaration.
    assert_eq!(m.decls.iter().filter(|d| d.symbol == "__toylang_internal_make").count(), 1);
}

#[test]
fn a_reference_to_a_field_is_the_place_of_the_field() {
    let mut registry = parse("struct P { x: i32, b: bool }").unwrap();
    let p = registry.structs.get("P").unwrap();
    let f = synthesize_accessor_fn("P", p, &p.fields[1]);
    registry.functions.insert("f".to_string(), f);
    let emission = emission(&registry, &[("f", None)]);
    let m = fill_module(&registry, &RustAnswers::new(), &facts(), &vec![], &emission).unwrap().module;
    let insts = &m.functions[0].insts;
    let n = insts.len();
    assert_eq!(
        insts[n - 3..],
        [
            Inst::Load { ty: LlvmType::Ptr, ptr: Operand::Reg(2) },
            Inst::FieldPtr { ty: strukt(vec![bits(32), bits(1)]), ptr: Operand::Reg(n - 3), field: 1 },
            Inst::Return { value: Some(Operand::Reg(n - 2)) },
        ],
    );
}

#[test]
fn a_string_is_a_pointer_and_a_length() {
    let src = "fn f() -> &str { \"h\u{e9}\" }";
    let m = fill(src, &[("f", None)], &RustAnswers::new(), &facts()).unwrap().module;
    assert_eq!(
        m.functions[0].insts[2..],
        [
            Inst::Bytes { bytes: "h\u{e9}".as_bytes().to_vec() },
            Inst::Pair {
                first_ty: LlvmType::Ptr,
                second_ty: bits(64),
                first: Operand::Reg(2),
                second: Operand::Int { bits: 64, value: 3 },
            },
            Inst::Return { value: Some(Operand::Reg(3)) },
        ],
    );
}

fn vec_of_i32() -> SourceType {
    SourceType::RustType { name: "Vec".to_string(), type_args: vec![SourceType::I32] }
}

fn vec_answers() -> RustAnswers {
    let args = || vec![SourceType::I32];
    let mut answers = RustAnswers::new();
    answers.traits.push(TraitAnswer { name: "Vec".to_string(), is_trait: false });
    for (method, ret, params) in [
        ("new", vec_of_i32(), vec![]),
        ("len", SourceType::Usize, vec![SourceType::Ref { inner: Box::new(vec_of_i32()) }]),
    ] {
        answers.method_returns.push(MethodReturnAnswer {
            owner: "Vec".to_string(),
            method: method.to_string(),
            type_args: args(),
            answer: Ok(ret),
        });
        answers.param_types.push(ParamTypesAnswer {
            owner: "Vec".to_string(),
            method: method.to_string(),
            type_args: args(),
            answer: Ok(Some(params)),
        });
    }
    answers
}

#[test]
fn methods_of_rust_types_are_called_by_their_abi() {
    let src = "use std::vec::Vec fn f() -> usize { let v = Vec::new<i32>(); v.len() }";
    let answers = vec_answers();
    let mut facts = facts();
    let vec_ty = ResolvedType::RustType { name: "Vec".to_string(), type_args: vec![ResolvedType::I32] };
    let method = |name: &str| RustDep::InherentMethod {
        owner: "Vec".to_string(),
        method_name: name.to_string(),
        type_args: vec![ResolvedType::I32],
    };
    // What is missing is named, one thing at a time.
    match fill(src, &[("f", None)], &answers, &facts).map(|_| ()) {
        Err(LowerStop::AbiPending { dep }) => assert_eq!(dep, method("new")),
        other => panic!("{:?}", other),
    }
    facts.abis.push(AbiAnswer {
        dep: method("new"),
        abi: Abi {
            symbol: "_RVec_new".to_string(),
            params: vec![],
            ret: AbiReturn::Indirect,
            ret_size: 24,
            takes_location: false,
        },
    });
    facts.abis.push(AbiAnswer {
        dep: method("len"),
        abi: Abi {
            symbol: "_RVec_len".to_string(),
            params: vec![AbiParam::Direct(LlvmType::Ptr), AbiParam::Direct(LlvmType::Ptr)],
            ret: AbiReturn::Direct(bits(64)),
            ret_size: 8,
            takes_location: true,
        },
    });
    match fill(src, &[("f", None)], &answers, &facts).map(|_| ()) {
        Err(LowerStop::LayoutPending { ty }) => assert_eq!(ty, vec_ty),
        other => panic!("{:?}", other),
    }
    facts.layouts.push(LayoutAnswer { ty: vec_ty, size: 24, align: 8 });
    let m = fill(src, &[("f", None)], &answers, &facts).unwrap().module;
    let bytes = LlvmType::Array { elem: Box::new(bits(8)), len: 24 };
    assert_eq!(m.rust_symbols, vec!["_RVec_new".to_string(), "_RVec_len".to_string()]);
    assert_eq!(m.decls[0].sret, Some(bytes.clone()));
    assert_eq!(m.decls[1].params, vec![LlvmType::Ptr, LlvmType::Ptr]);
    assert_eq!(
        m.functions[0].insts[2..],
        [
            Inst::Alloca { ty: bytes, align: Some(8) },
            Inst::Call { symbol: "_RVec_new".to_string(), args: vec![Operand::Reg(2)] },
            Inst::Call { symbol: "_RVec_len".to_string(), args: vec![Operand::Reg(2), Operand::Null] },
            Inst::Return { value: Some(Operand::Reg(4)) },
        ],
    );
}

#[test]
fn a_call_that_passes_too_little_is_refused() {
    let src = "use std::vec::Vec fn f() -> usize { let v = Vec::new<i32>(); v.len() }";
    let mut facts = facts();
    let vec_ty = ResolvedType::RustType { name: "Vec".to_string(), type_args: vec![ResolvedType::I32] };
    for (name, params, ret) in [
        ("new", vec![], AbiReturn::Indirect),
        ("len", vec![AbiParam::Direct(LlvmType::Ptr), AbiParam::Direct(bits(64))], AbiReturn::Direct(bits(64))),
    ] {
        facts.abis.push(AbiAnswer {
            dep: RustDep::InherentMethod {
                owner: "Vec".to_string(),
                method_name: name.to_string(),
                type_args: vec![ResolvedType::I32],
            },
            abi: Abi { symbol: format!("_RVec_{}", name), params, ret, ret_size: 24, takes_location: false },
        });
    }
    facts.layouts.push(LayoutAnswer { ty: vec_ty, size: 24, align: 8 });
    match fill(src, &[("f", None)], &vec_answers(), &facts).map(|_| ()) {
        Err(LowerStop::ArgCount { symbol }) => assert_eq!(symbol, "_RVec_len"),
        other => panic!("{:?}", other),
    }
}

#[test]
fn a_declared_function_takes_coerced_arguments() {
    let src = "struct P { x: i32 } fn show(p: P) fn f() { show(P { x: 1 }) }";
    let mut facts = facts();
    facts.abis.push(AbiAnswer {
        dep: RustDep::Declared { name: "show".to_string() },
        abi: Abi {
            symbol: "show".to_string(),
            params: vec![AbiParam::Direct(bits(32))],
            ret: AbiReturn::Void,
            ret_size: 0,
            takes_location: false,
        },
    });
    let m = fill(src, &[("f", None)], &RustAnswers::new(), &facts).unwrap().module;
    // The struct is in memory already: it is read as the integer that the parameter is.
    let insts = &m.functions[0].insts;
    let n = insts.len();
    assert_eq!(insts[n - 3], Inst::Load { ty: bits(32), ptr: Operand::Reg(2) });
    assert_eq!(insts[n - 2], Inst::Call { symbol: "show".to_string(), args: vec![Operand::Reg(n - 3)] });
    assert_eq!(insts[n - 1], Inst::Return { value: None });
}

#[test]
fn a_wrapper_takes_exactly_its_parameters() {
    let src = "struct P { x: i32, y: i32 } fn f(p: P, s: i32, n: i32) -> P { p }";
    let mut facts = facts();
    let mut registry = parse(src).unwrap();
    let mut f = registry.functions.get("f").unwrap().clone();
    f.params[1].ty = SourceType::Ref { inner: Box::new(SourceType::Str) };
    registry.functions.insert("f".to_string(), f);
    let emission = emission(&registry, &[("f", Some(1))]);
    let none = RustAnswers::new();
    match fill_module(&registry, &none, &facts, &vec![], &emission).map(|_| ()) {
        Err(LowerStop::WrapperPending { symbol }) => assert_eq!(symbol, "_Rf"),
        other => panic!("{:?}", other),
    }
    facts.wrappers.push(Abi {
        symbol: "_Rf".to_string(),
        params: vec![AbiParam::Direct(bits(64)), AbiParam::Pair(LlvmType::Ptr, bits(64)), AbiParam::Direct(bits(32))],
        ret: AbiReturn::Direct(bits(64)),
        ret_size: 8,
        takes_location: false,
    });
    let filled = fill_module(&registry, &none, &facts, &vec![], &emission).unwrap();
    let m = filled.module;
    let p = || strukt(vec![bits(32), bits(32)]);
    assert_eq!(m.functions[1].symbol, "_Rf");
    let decl = m.decls.iter().find(|d| d.symbol == "_Rf").unwrap();
    assert_eq!(decl.params, vec![bits(64), LlvmType::Ptr, bits(64), bits(32)]);
    assert_eq!(decl.ret, Some(bits(64)));
    assert_eq!(
        m.functions[1].insts[2..],
        [
            Inst::Alloca { ty: p(), align: None },
            Inst::Alloca { ty: bits(64), align: None },
            Inst::Store { ptr: Operand::Reg(3), value: Operand::Param(0) },
            Inst::Load { ty: p(), ptr: Operand::Reg(3) },
            Inst::Pair { first_ty: LlvmType::Ptr, second_ty: bits(64), first: Operand::Param(1), second: Operand::Param(2) },
            Inst::Call {
                symbol: "__toylang_internal_f".to_string(),
                args: vec![Operand::Reg(2), Operand::Reg(5), Operand::Reg(6), Operand::Param(3)],
            },
            Inst::Alloca { ty: bits(64), align: None },
            Inst::Copy { dest: Operand::Reg(8), source: Operand::Reg(2), align: 8, extent: Extent::Bytes(8) },
            Inst::Load { ty: bits(64), ptr: Operand::Reg(8) },
            Inst::Return { value: Some(Operand::Reg(10)) },
        ],
    );
    assert_eq!(filled.pinned, vec!["_Rf".to_string(), "__toylang_internal_f".to_string()]);
    // One parameter more than the function has.
    facts.wrappers[0].params.push(AbiParam::Ignore);
    assert!(matches!(
        fill_module(&registry, &none, &facts, &vec![], &emission).map(|_| ()),
        Err(LowerStop::ParamMismatch { .. }),
    ));
}

#[test]
fn a_wrapper_hands_the_place_of_the_result_on() {
    let src = "struct Big { a: i64, b: i64, c: i64 } fn f() -> Big { Big { a: 1, b: 2, c: 3 } }";
    let mut facts = facts();
    facts.wrappers.push(Abi {
        symbol: "_Rf".to_string(),
        params: vec![],
        ret: AbiReturn::Indirect,
        ret_size: 24,
        takes_location: false,
    });
    let m = fill(src, &[("f", Some(1))], &RustAnswers::new(), &facts).unwrap().module;
    assert_eq!(m.functions[1].sret, Some(strukt(vec![bits(64), bits(64), bits(64)])));
    assert_eq!(
        m.functions[1].insts[2..],
        [
            Inst::Call { symbol: "__toylang_internal_f".to_string(), args: vec![Operand::Param(0)] },
            Inst::Return { value: None },
        ],
    );
}

#[test]
fn functions_that_only_rust_instantiates_are_emitted() {
    let src = "fn id<T>(x: T) -> T { x }";
    let registry = parse(src).unwrap();
    let mut facts = facts();
    facts.wrappers.push(Abi {
        symbol: "_Rid_i32".to_string(),
        params: vec![AbiParam::Direct(bits(32))],
        ret: AbiReturn::Direct(bits(32)),
        ret_size: 4,
        takes_location: false,
    });
    let item = || MonoItem { name: "id".to_string(), extern_symbol: "_Rid_i32".to_string(), type_args: vec![ResolvedType::I32] };
    let other = MonoItem { name: "not_toylang".to_string(), extern_symbol: "_Rother".to_string(), type_args: vec![] };
    let none = Emission { toylang_instances: vec![], walked_entry_points: NameSet::new() };
    let filled = fill_module(&registry, &RustAnswers::new(), &facts, &vec![item(), other, item()], &none).unwrap();
    let symbols: Vec<&str> = filled.module.functions.iter().map(|f| f.symbol.as_str()).collect();
    assert_eq!(symbols, vec!["__toylang_internal_id__i32", "_Rid_i32"]);
}

#[test]
fn attributes_follow_the_target() {
    let a = compat_attributes(FramePointer::NonLeaf, StackProbe::InlineOrCall, true);
    assert_eq!(a.frame_pointer, Some("non-leaf"));
    assert_eq!(a.probe_stack, Some("inline-asm"));
    assert_eq!(a.unwind_tables, Some(1));
    let a = compat_attributes(FramePointer::MayOmit, StackProbe::Call, false);
    assert_eq!(a.frame_pointer, None);
    assert_eq!(a.probe_stack, None);
    assert_eq!(a.unwind_tables, None);
    assert_eq!(compat_attributes(FramePointer::Always, StackProbe::Unprobed, false).frame_pointer, Some("all"));
}

#[test]
fn variables_are_found_but_those_of_a_loop_behind_it() {
    let lower = |src: &str| fill(src, &[("f", None)], &RustAnswers::new(), &facts()).map(|_| ());
    let unbound = lower("fn f() -> i32 { x }");
    assert!(matches!(unbound, Err(LowerStop::Types { .. })), "{:?}", unbound);
    let in_loop = lower("fn f(n: i32) -> i32 { while n > 0 { let x = 1; n = n - x; } n }");
    assert!(in_loop.is_ok(), "{:?}", in_loop);
    let behind = lower("fn f(n: i32) -> i32 { while n > 0 { let x = 1; n = n - x; } x }");
    assert_eq!(behind, Err(LowerStop::VariableNotInScope { name: "x".to_string() }));
}

#[test]
fn structs_and_fields_that_are_not_there_are_found_out_by_typing() {
    let lower = |src: &str| fill(src, &[("f", None)], &RustAnswers::new(), &facts()).map(|_| ());
    for src in [
        "struct P { x: i32 } fn f(p: P) -> i32 { p.y }",
        "struct P { x: i32 } fn f() -> P { P { y: 1 } }",
        "fn f(n: i32) -> i32 { n.x }",
    ] {
        let r = lower(src);
        assert!(matches!(r, Err(LowerStop::Types { .. })), "{}: {:?}", src, r);
    }
    assert_eq!(lower("struct P { x: i32 } fn f(p: P) -> i32 { p.x }"), Ok(()));
}
