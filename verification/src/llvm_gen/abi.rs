//! How functions of the Rust side are called, and how the values of toylang's
//! types are laid out.
use crate::llvm_gen::types::{clone_type, parse_coerced_type, parse_type, type_views, LlvmType, LlvmTypeView};
use crate::text::{same_text, views, Duplicate};
use crate::toylang::callbacks_impl::{RustDep, RustDepView};
use crate::toylang::type_resolve::{TypeResolveError, TypeResolveErrorView};
use crate::toylang::typed_ast::{
    clone_resolved_types, resolved_views, same_resolved_type, same_resolved_types, ResolvedType, ResolvedTypeView,
};
use vstd::prelude::*;

verus! {

broadcast use {vstd::seq::group_seq_axioms, vstd::std_specs::vec::group_vec_axioms};

/// How the Rust compiler passes a parameter, with LLVM types as text.
#[derive(Debug, PartialEq)]
pub enum CoercedParam {
    /// Not at all: the value has no bytes.
    Ignore,
    Direct(String),
    /// As two values.
    Pair(String, String),
    /// Through a pointer.
    Indirect,
}

/// How the Rust compiler returns a value, with LLVM types as text.
#[derive(Debug, PartialEq)]
pub enum CoercedReturn {
    Direct(String),
    /// Through a pointer that the caller passes first.
    Indirect,
    Void,
}

/// How a parameter is passed.
#[derive(Debug, PartialEq)]
pub enum AbiParam {
    Ignore,
    Direct(LlvmType),
    Pair(LlvmType, LlvmType),
    Indirect,
}

/// How a value is returned.
#[derive(Debug, PartialEq)]
pub enum AbiReturn {
    Direct(LlvmType),
    Indirect,
    Void,
}

/// What an [`AbiParam`] says.
pub enum AbiParamView {
    Ignore,
    Direct(LlvmTypeView),
    Pair(LlvmTypeView, LlvmTypeView),
    Indirect,
}

/// What an [`AbiReturn`] says.
pub enum AbiReturnView {
    Direct(LlvmTypeView),
    Indirect,
    Void,
}

impl View for AbiParam {
    type V = AbiParamView;

    open spec fn view(&self) -> AbiParamView {
        match self {
            AbiParam::Ignore => AbiParamView::Ignore,
            AbiParam::Direct(t) => AbiParamView::Direct(t@),
            AbiParam::Pair(a, b) => AbiParamView::Pair(a@, b@),
            AbiParam::Indirect => AbiParamView::Indirect,
        }
    }
}

impl View for AbiReturn {
    type V = AbiReturnView;

    open spec fn view(&self) -> AbiReturnView {
        match self {
            AbiReturn::Direct(t) => AbiReturnView::Direct(t@),
            AbiReturn::Indirect => AbiReturnView::Indirect,
            AbiReturn::Void => AbiReturnView::Void,
        }
    }
}

impl AbiParam {
    /// Reads the text of the types.
    pub fn from_coerced(c: &CoercedParam) -> (r: Option<AbiParam>)
        ensures
            match *c {
                CoercedParam::Ignore => r == Some(AbiParam::Ignore),
                CoercedParam::Indirect => r == Some(AbiParam::Indirect),
                CoercedParam::Direct(s) => match parse_type(s@) {
                    Some(t) => r is Some && r->Some_0@ == AbiParamView::Direct(t),
                    None => r is None,
                },
                CoercedParam::Pair(a, b) => match (parse_type(a@), parse_type(b@)) {
                    (Some(x), Some(y)) => r is Some && r->Some_0@ == AbiParamView::Pair(x, y),
                    _ => r is None,
                },
            },
    {
        match c {
            CoercedParam::Ignore => Some(AbiParam::Ignore),
            CoercedParam::Indirect => Some(AbiParam::Indirect),
            CoercedParam::Direct(s) => match parse_coerced_type(s) {
                Some(t) => Some(AbiParam::Direct(t)),
                None => None,
            },
            CoercedParam::Pair(a, b) => match (parse_coerced_type(a), parse_coerced_type(b)) {
                (Some(x), Some(y)) => Some(AbiParam::Pair(x, y)),
                _ => None,
            },
        }
    }
}

impl AbiReturn {
    /// Reads the text of the type.
    pub fn from_coerced(c: &CoercedReturn) -> (r: Option<AbiReturn>)
        ensures
            match *c {
                CoercedReturn::Indirect => r == Some(AbiReturn::Indirect),
                CoercedReturn::Void => r == Some(AbiReturn::Void),
                CoercedReturn::Direct(s) => match parse_type(s@) {
                    Some(t) => r is Some && r->Some_0@ == AbiReturnView::Direct(t),
                    None => r is None,
                },
            },
    {
        match c {
            CoercedReturn::Indirect => Some(AbiReturn::Indirect),
            CoercedReturn::Void => Some(AbiReturn::Void),
            CoercedReturn::Direct(s) => match parse_coerced_type(s) {
                Some(t) => Some(AbiReturn::Direct(t)),
                None => None,
            },
        }
    }
}

/// How a function of the Rust side is called.
#[derive(Debug, PartialEq)]
pub struct Abi {
    pub symbol: String,
    pub params: Vec<AbiParam>,
    pub ret: AbiReturn,
    /// The size of what it returns.
    pub ret_size: u32,
    /// Whether its last parameter is the place of the call.
    pub takes_location: bool,
}

/// What an [`Abi`] says.
pub struct AbiView {
    pub symbol: Seq<char>,
    pub params: Seq<AbiParamView>,
    pub ret: AbiReturnView,
    pub ret_size: u32,
    pub takes_location: bool,
}

impl View for Abi {
    type V = AbiView;

    open spec fn view(&self) -> AbiView {
        AbiView {
            symbol: self.symbol@,
            params: views(self.params@),
            ret: self.ret@,
            ret_size: self.ret_size,
            takes_location: self.takes_location,
        }
    }
}

/// The LLVM parameters that a parameter is passed as.
pub open spec fn slots(p: AbiParamView) -> Seq<LlvmTypeView> {
    match p {
        AbiParamView::Ignore => Seq::empty(),
        AbiParamView::Direct(t) => seq![t],
        AbiParamView::Pair(a, b) => seq![a, b],
        AbiParamView::Indirect => seq![LlvmTypeView::Ptr],
    }
}

/// The LLVM parameters that some parameters are passed as.
pub open spec fn all_slots(ps: Seq<AbiParamView>) -> Seq<LlvmTypeView>
    decreases ps.len(),
{
    if ps.len() == 0 {
        Seq::empty()
    } else {
        all_slots(ps.drop_last()) + slots(ps.last())
    }
}

/// The parameters of the LLVM function: the pointer for what it returns, if
/// there is one, and then the others.
pub open spec fn signature(sret: bool, ps: Seq<AbiParamView>) -> Seq<LlvmTypeView> {
    if sret {
        seq![LlvmTypeView::Ptr] + all_slots(ps)
    } else {
        all_slots(ps)
    }
}

/// The LLVM type of a direct return.
pub open spec fn direct_return(r: AbiReturnView) -> Option<LlvmTypeView> {
    match r {
        AbiReturnView::Direct(t) => Some(t),
        _ => None,
    }
}

fn push_type(out: &mut Vec<LlvmType>, t: LlvmType)
    ensures
        type_views(final(out)@) == type_views(old(out)@).push(t@),
{
    let ghost before = type_views(out@);
    let ghost view = t@;
    out.push(t);
    assert(type_views(out@) =~= before.push(view));
}

/// The parameters of the LLVM function.
pub fn make_signature(sret: bool, ps: &Vec<AbiParam>) -> (r: Vec<LlvmType>)
    ensures
        type_views(r@) == signature(sret, views(ps@)),
{
    let mut out: Vec<LlvmType> = Vec::new();
    assert(type_views(out@) =~= Seq::empty());
    if sret {
        push_type(&mut out, LlvmType::Ptr);
    }
    let ghost start = type_views(out@);
    let ghost all = views(ps@);
    let mut i: usize = 0;
    assert(all.take(0) =~= Seq::empty());
    assert(start + all_slots(all.take(0)) =~= start);
    while i < ps.len()
        invariant
            i <= ps@.len(),
            all == views(ps@),
            type_views(out@) == start + all_slots(all.take(i as int)),
        decreases ps@.len() - i,
    {
        let ghost before = type_views(out@);
        match &ps[i] {
            AbiParam::Ignore => {},
            AbiParam::Direct(t) => {
                push_type(&mut out, clone_type(t));
            },
            AbiParam::Pair(a, b) => {
                push_type(&mut out, clone_type(a));
                push_type(&mut out, clone_type(b));
            },
            AbiParam::Indirect => {
                push_type(&mut out, LlvmType::Ptr);
            },
        }
        proof {
            assert(all.take(i + 1).drop_last() =~= all.take(i as int));
            assert(all.take(i + 1).last() == ps@[i as int]@);
            assert(type_views(out@) =~= before + slots(ps@[i as int]@));
            assert(type_views(out@) =~= start + all_slots(all.take(i + 1)));
        }
        i += 1;
    }
    assert(all.take(ps@.len() as int) =~= all);
    assert(type_views(out@) =~= signature(sret, all));
    out
}

/// The answer to how a function of the Rust side is called.
#[derive(Debug, PartialEq)]
pub struct AbiAnswer {
    pub dep: RustDep,
    pub abi: Abi,
}

/// The answer to how a Rust type is laid out.
#[derive(Debug, PartialEq)]
pub struct LayoutAnswer {
    pub ty: ResolvedType,
    pub size: u32,
    pub align: u32,
}

/// What is known of the target and of the Rust side.
#[derive(Debug, PartialEq)]
pub struct CodeFacts {
    pub abis: Vec<AbiAnswer>,
    /// How the Rust side calls functions of toylang, by their symbols.
    pub wrappers: Vec<Abi>,
    pub layouts: Vec<LayoutAnswer>,
    pub pointer_bits: u32,
    pub pointer_align: u32,
}

/// What an [`AbiAnswer`] says.
pub struct AbiAnswerView {
    pub dep: RustDepView,
    pub abi: AbiView,
}

/// What a [`LayoutAnswer`] says.
pub struct LayoutAnswerView {
    pub ty: ResolvedTypeView,
    pub size: u32,
    pub align: u32,
}

/// What a [`CodeFacts`] says.
pub struct CodeFactsView {
    pub abis: Seq<AbiAnswerView>,
    pub wrappers: Seq<AbiView>,
    pub layouts: Seq<LayoutAnswerView>,
    pub pointer_bits: u32,
    pub pointer_align: u32,
}

impl View for AbiAnswer {
    type V = AbiAnswerView;

    open spec fn view(&self) -> AbiAnswerView {
        AbiAnswerView { dep: self.dep@, abi: self.abi@ }
    }
}

impl View for LayoutAnswer {
    type V = LayoutAnswerView;

    open spec fn view(&self) -> LayoutAnswerView {
        LayoutAnswerView { ty: self.ty@, size: self.size, align: self.align }
    }
}

impl View for CodeFacts {
    type V = CodeFactsView;

    open spec fn view(&self) -> CodeFactsView {
        CodeFactsView {
            abis: views(self.abis@),
            wrappers: views(self.wrappers@),
            layouts: views(self.layouts@),
            pointer_bits: self.pointer_bits,
            pointer_align: self.pointer_align,
        }
    }
}

/// Why code generation stopped.
#[derive(Debug, PartialEq)]
pub enum LowerStop {
    /// It is not known how a function of the Rust side is called.
    AbiPending { dep: RustDep },
    /// It is not known how a Rust type is laid out.
    LayoutPending { ty: ResolvedType },
    /// An answer about the Rust side is missing, or a type has no meaning.
    Types { error: TypeResolveError },
    /// Values of the type have no layout of their own.
    NoLayout { ty: ResolvedType },
    /// An integer literal has a type that is none of integers.
    LiteralType { ty: ResolvedType },
    VariableNotInScope { name: String },
    /// An operator is applied to values that it is not for.
    Operands,
    NotAStruct { ty: ResolvedType },
    StructNotFound { name: String },
    FieldNotFound { struct_name: String, field_name: String },
    /// A receiver is neither in memory nor a pointer.
    Receiver,
    /// A condition is no integer.
    Condition,
    /// A call has more arguments than the function has parameters.
    MissingParam { symbol: String },
    /// A call passes another number of values than the function takes.
    ArgCount { symbol: String },
    /// The size of a value is not known.
    SizeUnknown,
    /// The parameters of a function and those of its declaration differ.
    ParamMismatch { symbol: String },
    /// A wrapper has no way to hand on what is returned.
    NoReturn { symbol: String },
    /// The function that a wrapper calls is not there.
    InternalNotFound { symbol: String },
    /// It is not known how the Rust side calls a function.
    WrapperPending { symbol: String },
    /// A function that is to be emitted has no body.
    NoBody { symbol: String },
}

/// What a [`LowerStop`] says.
pub enum LowerStopView {
    AbiPending { dep: RustDepView },
    LayoutPending { ty: ResolvedTypeView },
    Types { error: TypeResolveErrorView },
    NoLayout { ty: ResolvedTypeView },
    LiteralType { ty: ResolvedTypeView },
    VariableNotInScope { name: Seq<char> },
    Operands,
    NotAStruct { ty: ResolvedTypeView },
    StructNotFound { name: Seq<char> },
    FieldNotFound { struct_name: Seq<char>, field_name: Seq<char> },
    Receiver,
    Condition,
    MissingParam { symbol: Seq<char> },
    ArgCount { symbol: Seq<char> },
    SizeUnknown,
    ParamMismatch { symbol: Seq<char> },
    NoReturn { symbol: Seq<char> },
    InternalNotFound { symbol: Seq<char> },
    WrapperPending { symbol: Seq<char> },
    NoBody { symbol: Seq<char> },
}

impl View for LowerStop {
    type V = LowerStopView;

    open spec fn view(&self) -> LowerStopView {
        match self {
            LowerStop::AbiPending { dep } => LowerStopView::AbiPending { dep: dep@ },
            LowerStop::LayoutPending { ty } => LowerStopView::LayoutPending { ty: ty@ },
            LowerStop::Types { error } => LowerStopView::Types { error: error@ },
            LowerStop::NoLayout { ty } => LowerStopView::NoLayout { ty: ty@ },
            LowerStop::LiteralType { ty } => LowerStopView::LiteralType { ty: ty@ },
            LowerStop::VariableNotInScope { name } => LowerStopView::VariableNotInScope {
                name: name@,
            },
            LowerStop::Operands => LowerStopView::Operands,
            LowerStop::NotAStruct { ty } => LowerStopView::NotAStruct { ty: ty@ },
            LowerStop::StructNotFound { name } => LowerStopView::StructNotFound { name: name@ },
            LowerStop::FieldNotFound { struct_name, field_name } => LowerStopView::FieldNotFound {
                struct_name: struct_name@,
                field_name: field_name@,
            },
            LowerStop::Receiver => LowerStopView::Receiver,
            LowerStop::Condition => LowerStopView::Condition,
            LowerStop::MissingParam { symbol } => LowerStopView::MissingParam { symbol: symbol@ },
            LowerStop::ArgCount { symbol } => LowerStopView::ArgCount { symbol: symbol@ },
            LowerStop::SizeUnknown => LowerStopView::SizeUnknown,
            LowerStop::ParamMismatch { symbol } => LowerStopView::ParamMismatch {
                symbol: symbol@,
            },
            LowerStop::NoReturn { symbol } => LowerStopView::NoReturn { symbol: symbol@ },
            LowerStop::InternalNotFound { symbol } => LowerStopView::InternalNotFound {
                symbol: symbol@,
            },
            LowerStop::WrapperPending { symbol } => LowerStopView::WrapperPending {
                symbol: symbol@,
            },
            LowerStop::NoBody { symbol } => LowerStopView::NoBody { symbol: symbol@ },
        }
    }
}

/// The first answer to how a function is called.
pub open spec fn find_abi(answers: Seq<AbiAnswerView>, dep: RustDepView) -> Option<AbiView>
    decreases answers.len(),
{
    if answers.len() == 0 {
        None
    } else if answers[0].dep == dep {
        Some(answers[0].abi)
    } else {
        find_abi(answers.drop_first(), dep)
    }
}

/// The first answer to how a type is laid out: its size and its alignment.
pub open spec fn find_layout(answers: Seq<LayoutAnswerView>, ty: ResolvedTypeView) -> Option<
    (u32, u32),
>
    decreases answers.len(),
{
    if answers.len() == 0 {
        None
    } else if answers[0].ty == ty {
        Some((answers[0].size, answers[0].align))
    } else {
        find_layout(answers.drop_first(), ty)
    }
}

/// How a function of the Rust side is called, as far as it is known.
pub open spec fn ask_abi(facts: CodeFactsView, dep: RustDepView) -> Result<AbiView, LowerStopView> {
    match find_abi(facts.abis, dep) {
        Some(abi) => Ok(abi),
        None => Err(LowerStopView::AbiPending { dep }),
    }
}

/// How the Rust side calls the function of that symbol.
pub open spec fn find_wrapper(wrappers: Seq<AbiView>, symbol: Seq<char>) -> Option<AbiView>
    decreases wrappers.len(),
{
    if wrappers.len() == 0 {
        None
    } else if wrappers[0].symbol == symbol {
        Some(wrappers[0])
    } else {
        find_wrapper(wrappers.drop_first(), symbol)
    }
}

/// How the Rust side calls the function of that symbol, as far as it is known.
pub open spec fn ask_wrapper(facts: CodeFactsView, symbol: Seq<char>) -> Result<
    AbiView,
    LowerStopView,
> {
    match find_wrapper(facts.wrappers, symbol) {
        Some(abi) => Ok(abi),
        None => Err(LowerStopView::WrapperPending { symbol }),
    }
}

/// How a type is laid out, as far as it is known.
pub open spec fn ask_layout(facts: CodeFactsView, ty: ResolvedTypeView) -> Result<
    (u32, u32),
    LowerStopView,
> {
    match find_layout(facts.layouts, ty) {
        Some(layout) => Ok(layout),
        None => Err(LowerStopView::LayoutPending { ty }),
    }
}

/// Some bytes.
pub open spec fn byte_array(size: u32) -> LlvmTypeView {
    LlvmTypeView::Array { elem: Box::new(LlvmTypeView::Int { bits: 8 }), len: size }
}

/// A pointer and a length.
pub open spec fn fat_pointer() -> LlvmTypeView {
    LlvmTypeView::Struct { fields: seq![LlvmTypeView::Ptr, LlvmTypeView::Int { bits: 64 }] }
}

/// The LLVM type of the values of a type. A Rust type is some bytes; a
/// reference is a pointer, and one to a string or to bytes also a length.
pub open spec fn llvm_type(t: ResolvedTypeView, facts: CodeFactsView) -> Result<
    LlvmTypeView,
    LowerStopView,
>
    decreases t,
{
    match t {
        ResolvedTypeView::I32 => Ok(LlvmTypeView::Int { bits: 32 }),
        ResolvedTypeView::I64 => Ok(LlvmTypeView::Int { bits: 64 }),
        ResolvedTypeView::F64 => Ok(LlvmTypeView::Double),
        ResolvedTypeView::Bool => Ok(LlvmTypeView::Int { bits: 1 }),
        ResolvedTypeView::Usize => Ok(LlvmTypeView::Int { bits: facts.pointer_bits }),
        ResolvedTypeView::Struct { name, type_args, field_types } => match llvm_types(
            field_types,
            facts,
        ) {
            Ok(fields) => Ok(LlvmTypeView::Struct { fields }),
            Err(e) => Err(e),
        },
        ResolvedTypeView::RustType { .. } => match ask_layout(facts, t) {
            Ok((size, _)) => Ok(byte_array(size)),
            Err(e) => Err(e),
        },
        ResolvedTypeView::Ref { inner } => if *inner is Str || *inner is ByteSlice {
            Ok(fat_pointer())
        } else {
            Ok(LlvmTypeView::Ptr)
        },
        ResolvedTypeView::Void | ResolvedTypeView::Str | ResolvedTypeView::ByteSlice
        | ResolvedTypeView::TypeParam(_) => Err(LowerStopView::NoLayout { ty: t }),
    }
}

/// The LLVM types of the values of some types.
pub open spec fn llvm_types(ts: Seq<ResolvedTypeView>, facts: CodeFactsView) -> Result<
    Seq<LlvmTypeView>,
    LowerStopView,
>
    decreases ts,
{
    if ts.len() == 0 {
        Ok(Seq::empty())
    } else {
        match llvm_type(ts[0], facts) {
            Err(e) => Err(e),
            Ok(first) => match llvm_types(ts.drop_first(), facts) {
                Err(e) => Err(e),
                Ok(rest) => Ok(seq![first] + rest),
            },
        }
    }
}

/// The view of an outcome that is a type.
pub open spec fn type_outcome(r: Result<LlvmType, LowerStop>) -> Result<LlvmTypeView, LowerStopView> {
    match r {
        Ok(t) => Ok(t@),
        Err(e) => Err(e@),
    }
}

/// The view of an outcome that is some types.
pub open spec fn types_outcome(r: Result<Vec<LlvmType>, LowerStop>) -> Result<
    Seq<LlvmTypeView>,
    LowerStopView,
> {
    match r {
        Ok(ts) => Ok(type_views(ts@)),
        Err(e) => Err(e@),
    }
}

/// A copy of a dependency.
pub fn clone_dep(d: &RustDep) -> (r: RustDep)
    ensures
        r@ == d@,
{
    match d {
        RustDep::FreeFn { name, type_args } => RustDep::FreeFn {
            name: name.clone(),
            type_args: clone_resolved_types(type_args),
        },
        RustDep::Declared { name } => RustDep::Declared { name: name.clone() },
        RustDep::TraitMethod { trait_name, method_name, self_ty, type_args } =>
            RustDep::TraitMethod {
            trait_name: trait_name.clone(),
            method_name: method_name.clone(),
            self_ty: self_ty.duplicate(),
            type_args: clone_resolved_types(type_args),
        },
        RustDep::Wrapper { name, type_args } => RustDep::Wrapper {
            name: name.clone(),
            type_args: clone_resolved_types(type_args),
        },
        RustDep::InherentMethod { owner, method_name, type_args } => RustDep::InherentMethod {
            owner: owner.clone(),
            method_name: method_name.clone(),
            type_args: clone_resolved_types(type_args),
        },
    }
}

/// Whether two dependencies are the same.
pub fn same_dep(a: &RustDep, b: &RustDep) -> (r: bool)
    ensures
        r == (a@ == b@),
{
    match (a, b) {
        (
            RustDep::FreeFn { name: x, type_args: p },
            RustDep::FreeFn { name: y, type_args: q },
        ) => same_text(x, y) && same_resolved_types(p, q),
        (RustDep::Declared { name: x }, RustDep::Declared { name: y }) => same_text(x, y),
        (
            RustDep::TraitMethod { trait_name: x, method_name: m, self_ty: s, type_args: p },
            RustDep::TraitMethod { trait_name: y, method_name: n, self_ty: t, type_args: q },
        ) => same_text(x, y) && same_text(m, n) && same_resolved_type(s, t) && same_resolved_types(
            p,
            q,
        ),
        (
            RustDep::Wrapper { name: x, type_args: p },
            RustDep::Wrapper { name: y, type_args: q },
        ) => same_text(x, y) && same_resolved_types(p, q),
        (
            RustDep::InherentMethod { owner: x, method_name: m, type_args: p },
            RustDep::InherentMethod { owner: y, method_name: n, type_args: q },
        ) => same_text(x, y) && same_text(m, n) && same_resolved_types(p, q),
        _ => false,
    }
}

impl CodeFacts {
    /// How a function of the Rust side is called.
    pub fn abi_of(&self, dep: &RustDep) -> (r: Result<&Abi, LowerStop>)
        ensures
            (match r {
                Ok(abi) => Ok(abi@),
                Err(e) => Err(e@),
            }) == ask_abi(self@, dep@),
    {
        let ghost all = self@.abis;
        let mut i: usize = 0;
        assert(all.skip(0) =~= all);
        while i < self.abis.len()
            invariant
                i <= self.abis@.len(),
                all == views(self.abis@),
                find_abi(all, dep@) == find_abi(all.skip(i as int), dep@),
            decreases self.abis@.len() - i,
        {
            assert(all.skip(i as int).drop_first() =~= all.skip(i + 1));
            assert(all.skip(i as int)[0] == self.abis@[i as int]@);
            if same_dep(&self.abis[i].dep, dep) {
                return Ok(&self.abis[i].abi);
            }
            i += 1;
        }
        Err(LowerStop::AbiPending { dep: clone_dep(dep) })
    }

    /// How the Rust side calls the function of that symbol.
    pub fn wrapper_of(&self, symbol: &String) -> (r: Result<&Abi, LowerStop>)
        ensures
            (match r {
                Ok(abi) => Ok(abi@),
                Err(e) => Err(e@),
            }) == ask_wrapper(self@, symbol@),
    {
        let ghost all = self@.wrappers;
        let mut i: usize = 0;
        assert(all.skip(0) =~= all);
        while i < self.wrappers.len()
            invariant
                i <= self.wrappers@.len(),
                all == views(self.wrappers@),
                find_wrapper(all, symbol@) == find_wrapper(all.skip(i as int), symbol@),
            decreases self.wrappers@.len() - i,
        {
            assert(all.skip(i as int).drop_first() =~= all.skip(i + 1));
            assert(all.skip(i as int)[0] == self.wrappers@[i as int]@);
            if same_text(&self.wrappers[i].symbol, symbol) {
                return Ok(&self.wrappers[i]);
            }
            i += 1;
        }
        Err(LowerStop::WrapperPending { symbol: symbol.clone() })
    }

    /// How a type is laid out: its size and its alignment.
    pub fn layout_of(&self, ty: &ResolvedType) -> (r: Result<(u32, u32), LowerStop>)
        ensures
            (match r {
                Ok(layout) => Ok(layout),
                Err(e) => Err(e@),
            }) == ask_layout(self@, ty@),
    {
        let ghost all = self@.layouts;
        let mut i: usize = 0;
        assert(all.skip(0) =~= all);
        while i < self.layouts.len()
            invariant
                i <= self.layouts@.len(),
                all == views(self.layouts@),
                find_layout(all, ty@) == find_layout(all.skip(i as int), ty@),
            decreases self.layouts@.len() - i,
        {
            assert(all.skip(i as int).drop_first() =~= all.skip(i + 1));
            assert(all.skip(i as int)[0] == self.layouts@[i as int]@);
            if same_resolved_type(&self.layouts[i].ty, ty) {
                return Ok((self.layouts[i].size, self.layouts[i].align));
            }
            i += 1;
        }
        Err(LowerStop::LayoutPending { ty: ty.duplicate() })
    }

    /// The LLVM type of the values of a type.
    pub fn resolved_to_llvm(&self, t: &ResolvedType) -> (r: Result<LlvmType, LowerStop>)
        ensures
            type_outcome(r) == llvm_type(t@, self@),
        decreases t,
    {
        reveal_with_fuel(ResolvedType::model, 2);
        match t {
            ResolvedType::I32 => Ok(LlvmType::Int { bits: 32 }),
            ResolvedType::I64 => Ok(LlvmType::Int { bits: 64 }),
            ResolvedType::F64 => Ok(LlvmType::Double),
            ResolvedType::Bool => Ok(LlvmType::Int { bits: 1 }),
            ResolvedType::Usize => Ok(LlvmType::Int { bits: self.pointer_bits }),
            ResolvedType::Struct { field_types, .. } => match self.resolved_all(field_types) {
                Ok(fields) => Ok(LlvmType::Struct { fields }),
                Err(e) => Err(e),
            },
            ResolvedType::RustType { .. } => match self.layout_of(t) {
                Ok((size, _)) => Ok(make_byte_array(size)),
                Err(e) => Err(e),
            },
            ResolvedType::Ref { inner } => match &**inner {
                ResolvedType::Str | ResolvedType::ByteSlice => Ok(make_fat_pointer()),
                _ => Ok(LlvmType::Ptr),
            },
            ResolvedType::Void | ResolvedType::Str | ResolvedType::ByteSlice
            | ResolvedType::TypeParam(_) => Err(LowerStop::NoLayout { ty: t.duplicate() }),
        }
    }

    /// The LLVM types of the values of some types.
    pub fn resolved_all(&self, ts: &Vec<ResolvedType>) -> (r: Result<Vec<LlvmType>, LowerStop>)
        ensures
            types_outcome(r) == llvm_types(resolved_views(ts@), self@),
        decreases ts,
    {
        let ghost all = resolved_views(ts@);
        let ghost whole = llvm_types(all, self@);
        let mut out: Vec<LlvmType> = Vec::new();
        let mut i: usize = 0;
        assert(all.skip(0) =~= all);
        assert(whole is Ok ==> type_views(out@) + whole->Ok_0 =~= whole->Ok_0);
        while i < ts.len()
            invariant
                i <= ts@.len(),
                all == resolved_views(ts@),
                whole == llvm_types(all, self@),
                whole == (match llvm_types(all.skip(i as int), self@) {
                    Ok(rest) => Ok(type_views(out@) + rest),
                    Err(e) => Err(e),
                }),
            decreases ts@.len() - i,
        {
            let ghost done = type_views(out@);
            assert(all.skip(i as int).drop_first() =~= all.skip(i + 1));
            assert(all.skip(i as int)[0] == ts@[i as int].model());
            let one = match self.resolved_to_llvm(&ts[i]) {
                Err(e) => {
                    return Err(e);
                },
                Ok(t) => t,
            };
            let ghost first = one@;
            push_type(&mut out, one);
            assert(forall|rest: Seq<LlvmTypeView>|
                #[trigger] (type_views(out@) + rest) =~= done + (seq![first] + rest));
            i += 1;
        }
        assert(all.skip(i as int).len() == 0);
        assert(type_views(out@) + Seq::<LlvmTypeView>::empty() =~= type_views(out@));
        Ok(out)
    }
}

/// Some bytes.
pub fn make_byte_array(size: u32) -> (r: LlvmType)
    ensures
        r@ == byte_array(size),
{
    reveal_with_fuel(LlvmType::model, 2);
    LlvmType::Array { elem: Box::new(LlvmType::Int { bits: 8 }), len: size }
}

/// A pointer and a length.
pub fn make_fat_pointer() -> (r: LlvmType)
    ensures
        r@ == fat_pointer(),
{
    let mut fields: Vec<LlvmType> = Vec::new();
    assert(type_views(fields@) =~= Seq::empty());
    push_type(&mut fields, LlvmType::Ptr);
    push_type(&mut fields, LlvmType::Int { bits: 64 });
    assert(type_views(fields@) =~= seq![LlvmTypeView::Ptr, LlvmTypeView::Int { bits: 64 }]);
    LlvmType::Struct { fields }
}

} // verus!
