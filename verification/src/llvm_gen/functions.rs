//! Whole functions: the bodies that toylang calls by its own conventions, and
//! the wrappers by which the Rust side calls them.
use crate::llvm_gen::abi::{
    llvm_type, make_signature, signature, types_outcome, Abi, AbiParamView, AbiReturn, AbiReturnView, AbiView, CodeFacts, LowerStop,
    LowerStopView,
};
use crate::llvm_gen::code::{
    clone_opt_type, declare, emit, find_decl, lookup_decl, next, opt_type, to_ptr, to_value, CodeView, Decl, DeclView, ExtentView, Inst,
    InstView, LoweredView, Operand, OperandView, SlotView,
};
use crate::llvm_gen::lower::{
    coerce_int, internal_decl, internal_return, internal_sret, is_internal_sret, lower_block, use_methods, LowerCx,
};
use crate::llvm_gen::lowering::{make_internal_decl, Lowering};
use crate::llvm_gen::types::{clone_type, clone_types, size_bytes, type_views, LlvmType, LlvmTypeView};
use crate::names::{put, NameMap};
use crate::oracle::{resolve, resolve_source_type};
use crate::text::{views, Duplicate};
use crate::toylang::answers::RustAnswers;
use crate::toylang::callbacks_impl::NameSet;
use crate::toylang::deps::{rust_deps_in_block, walk_typed_body_for_deps};
use crate::toylang::registry::{ToyFunction, ToyFunctionView, ToyParam, ToyParamView, ToylangRegistry};
use crate::toylang::type_resolve::{resolve_fn_body, resolve_return_type, return_type, type_fn_body, Typing};
use crate::toylang::typed_ast::{ResolvedType, ResolvedTypeView, TypedBlockView};
use vstd::prelude::*;

verus! {

broadcast use {vstd::seq::group_seq_axioms, vstd::std_specs::vec::group_vec_axioms};

/// The code of a function. Its type is that of the declaration of its symbol.
#[derive(Debug, PartialEq)]
pub struct FnCode {
    pub symbol: String,
    /// What the first parameter points to, where the result goes there.
    pub sret: Option<LlvmType>,
    pub insts: Vec<Inst>,
}

/// What an [`FnCode`] says.
pub struct FnCodeView {
    pub symbol: Seq<char>,
    pub sret: Option<LlvmTypeView>,
    pub insts: Seq<InstView>,
}

impl View for FnCode {
    type V = FnCodeView;

    open spec fn view(&self) -> FnCodeView {
        FnCodeView {
            symbol: self.symbol@,
            sret: opt_type(self.sret),
            insts: views(self.insts@),
        }
    }
}

/// What goes into an LLVM module.
pub struct ModuleCode {
    /// The functions that are declared or defined.
    pub decls: Vec<Decl>,
    /// The symbols of the Rust side that are needed.
    pub rust_symbols: Vec<String>,
    /// The symbols of the methods that have been looked up.
    pub methods: NameSet,
    /// The code of the functions that are defined.
    pub functions: Vec<FnCode>,
}

/// What a [`ModuleCode`] says.
pub struct ModuleView {
    pub decls: Seq<DeclView>,
    pub rust_symbols: Seq<Seq<char>>,
    pub methods: Seq<Seq<char>>,
    pub functions: Seq<FnCodeView>,
}

impl View for ModuleCode {
    type V = ModuleView;

    open spec fn view(&self) -> ModuleView {
        ModuleView {
            decls: views(self.decls@),
            rust_symbols: views(self.rust_symbols@),
            methods: self.methods@,
            functions: views(self.functions@),
        }
    }
}

/// A function at its start: in its first block, without variables.
pub open spec fn start(m: ModuleView) -> CodeView {
    CodeView {
        insts: seq![InstView::Block, InstView::Enter { block: 0 }],
        block: 0,
        vars: Seq::empty(),
        decls: m.decls,
        rust_symbols: m.rust_symbols,
        methods: m.methods,
    }
}

/// The module with one more function.
pub open spec fn finish(
    symbol: Seq<char>,
    sret: Option<LlvmTypeView>,
    s: CodeView,
    m: ModuleView,
) -> ModuleView {
    ModuleView {
        decls: s.decls,
        rust_symbols: s.rust_symbols,
        methods: s.methods,
        functions: m.functions.push(FnCodeView { symbol, sret, insts: s.insts }),
    }
}

/// What typing goes by.
pub open spec fn typing_of(cx: LowerCx) -> Typing {
    Typing { registry: cx.registry, answers: cx.answers }
}

/// The LLVM types of some parameters.
pub open spec fn param_types(ps: Seq<ToyParamView>, cx: LowerCx) -> Result<
    Seq<LlvmTypeView>,
    LowerStopView,
>
    decreases ps.len(),
{
    if ps.len() == 0 {
        Ok(Seq::empty())
    } else {
        match resolve(ps[0].ty, cx.registry.structs) {
            Err(error) => Err(LowerStopView::Types { error }),
            Ok(resolved) => match llvm_type(resolved, cx.facts) {
                Err(e) => Err(e),
                Ok(first) => match param_types(ps.drop_first(), cx) {
                    Err(e) => Err(e),
                    Ok(rest) => Ok(seq![first] + rest),
                },
            },
        }
    }
}

/// Gives each parameter a place of its own. The LLVM parameters that belong to
/// `ps` start at `at`, and have the types `types`.
pub open spec fn bind_params(
    ps: Seq<ToyParamView>,
    at: nat,
    types: Seq<LlvmTypeView>,
    symbol: Seq<char>,
    s: CodeView,
) -> Result<CodeView, LowerStopView>
    decreases ps.len(),
{
    if ps.len() == 0 {
        Ok(s)
    } else if at >= types.len() {
        Err(LowerStopView::ParamMismatch { symbol })
    } else {
        let ty = types[at as int];
        let s1 = emit(
            emit(s, InstView::Alloca { ty, align: None }),
            InstView::Store { ptr: next(s), value: OperandView::Param(at) },
        );
        bind_params(
            ps.drop_first(),
            at + 1,
            types,
            symbol,
            CodeView { vars: put(s1.vars, ps[0].name, SlotView { ptr: next(s), ty }), ..s1 },
        )
    }
}

/// The type of what a block ends in.
pub open spec fn block_type(b: TypedBlockView) -> ResolvedTypeView {
    match b.ret {
        Some(e) => e.ty,
        None => ResolvedTypeView::Void,
    }
}

/// Returns what a body ends in: through the first parameter, directly, or not
/// at all.
pub open spec fn return_result(
    result: Option<LoweredView>,
    ty: ResolvedTypeView,
    cx: LowerCx,
    s: CodeView,
) -> Result<CodeView, LowerStopView> {
    match result {
        None => Ok(emit(s, InstView::Return { value: None })),
        Some(l) => if internal_sret(ty) {
            match llvm_type(ty, cx.facts) {
                Err(e) => Err(e),
                Ok(t) => {
                    let (source, s1) = to_ptr(l, t, s);
                    let s2 = emit(
                        s1,
                        InstView::Copy {
                            dest: OperandView::Param(0),
                            source,
                            align: cx.facts.pointer_align,
                            extent: ExtentView::SizeOf(t),
                        },
                    );
                    Ok(emit(s2, InstView::Return { value: None }))
                },
            }
        } else if ty is Void {
            Ok(emit(s, InstView::Return { value: None }))
        } else {
            let (value, _, s1) = to_value(l, s);
            Ok(emit(s1, InstView::Return { value: Some(value) }))
        },
    }
}

/// The module with the body of a function, under toylang's own conventions:
/// structs and Rust types are returned through a first parameter, all else
/// directly. What the body does not say itself is not added: where a local
/// has to be dropped at its end, the body calls `Drop::drop`.
pub open spec fn internal_function(
    f: ToyFunctionView,
    symbol: Seq<char>,
    cx: LowerCx,
    m: ModuleView,
) -> Result<ModuleView, LowerStopView> {
    match f.body {
        None => Err(LowerStopView::NoBody { symbol }),
        Some(body) => match type_fn_body(f, body, typing_of(cx)) {
            Err(error) => Err(LowerStopView::Types { error }),
            Ok(b) => match use_methods(rust_deps_in_block(b), cx, start(m)) {
                Err(e) => Err(e),
                Ok(s1) => match param_types(f.params, cx) {
                    Err(e) => Err(e),
                    Ok(types) => match internal_return(block_type(b), cx) {
                        Err(e) => Err(e),
                        Ok(ret) => {
                            let decls = declare(
                                s1.decls,
                                internal_decl(symbol, types, block_type(b), ret),
                            );
                            match find_decl(decls, symbol) {
                                None => Err(LowerStopView::ParamMismatch { symbol }),
                                Some(decl) => if internal_sret(block_type(b)) && decl.params.len()
                                    == 0 {
                                    Err(LowerStopView::ParamMismatch { symbol })
                                } else {
                                    match bind_params(
                                    f.params,
                                    if internal_sret(block_type(b)) {
                                        1
                                    } else {
                                        0
                                    },
                                    decl.params,
                                    symbol,
                                    CodeView { decls, ..s1 },
                                ) {
                                    Err(e) => Err(e),
                                    Ok(s2) => match lower_block(b, cx, s2) {
                                        Err(e) => Err(e),
                                        Ok((result, s3)) => match return_result(
                                            result,
                                            block_type(b),
                                            cx,
                                            s3,
                                        ) {
                                            Err(e) => Err(e),
                                            Ok(s4) => Ok(finish(symbol, None, s4, m)),
                                        },
                                    },
                                    }
                                },
                            }
                        },
                    },
                },
            },
        },
    }
}

/// The type that a wrapper returns directly.
pub open spec fn wrapper_return(ret: ResolvedTypeView, abi: AbiReturnView, cx: LowerCx) -> Result<
    Option<LlvmTypeView>,
    LowerStopView,
> {
    if abi is Indirect {
        Ok(None)
    } else {
        match ret {
            ResolvedTypeView::I32 | ResolvedTypeView::I64 | ResolvedTypeView::F64
            | ResolvedTypeView::Bool | ResolvedTypeView::Usize => match llvm_type(ret, cx.facts) {
                Err(e) => Err(e),
                Ok(t) => Ok(Some(t)),
            },
            ResolvedTypeView::RustType { .. } => match abi {
                AbiReturnView::Direct(t) => Ok(Some(t)),
                _ => Ok(None),
            },
            ResolvedTypeView::Struct { .. } => match abi {
                AbiReturnView::Direct(t) => Ok(Some(t)),
                _ => match llvm_type(ret, cx.facts) {
                    Err(e) => Err(e),
                    Ok(t) => Ok(Some(t)),
                },
            },
            ResolvedTypeView::Ref { .. } => Ok(Some(LlvmTypeView::Ptr)),
            _ => Ok(None),
        }
    }
}

/// What a wrapper hands on for a parameter, and how many LLVM parameters it
/// takes from `at` on. `None`, where the parameter is left out.
pub open spec fn forward_param(
    p: AbiParamView,
    internal: LlvmTypeView,
    at: nat,
    count: nat,
    symbol: Seq<char>,
    s: CodeView,
) -> Result<(Option<OperandView>, nat, CodeView), LowerStopView> {
    let param = OperandView::Param(at);
    match p {
        AbiParamView::Ignore => Ok((None, 0, s)),
        AbiParamView::Direct(t) => if at >= count {
            Err(LowerStopView::ParamMismatch { symbol })
        } else if t == internal {
            Ok((Some(param), 1, s))
        } else {
            let s1 = emit(
                emit(s, InstView::Alloca { ty: t, align: None }),
                InstView::Store { ptr: next(s), value: param },
            );
            Ok(
                (
                    Some(next(s1)),
                    1,
                    emit(s1, InstView::Load { ty: internal, ptr: next(s) }),
                ),
            )
        },
        AbiParamView::Pair(a, b) => if at + 1 >= count || internal != (LlvmTypeView::Struct {
            fields: seq![a, b],
        }) {
            Err(LowerStopView::ParamMismatch { symbol })
        } else {
            Ok(
                (
                    Some(next(s)),
                    2,
                    emit(
                        s,
                        InstView::Pair {
                            first_ty: a,
                            second_ty: b,
                            first: param,
                            second: OperandView::Param(at + 1),
                        },
                    ),
                ),
            )
        },
        AbiParamView::Indirect => if at >= count {
            Err(LowerStopView::ParamMismatch { symbol })
        } else {
            Ok((Some(next(s)), 1, emit(s, InstView::Load { ty: internal, ptr: param })))
        },
    }
}

/// What a wrapper hands on for some parameters, and the LLVM parameter behind
/// the last that it takes.
pub open spec fn forward_params(
    ps: Seq<AbiParamView>,
    internal: Seq<LlvmTypeView>,
    at: nat,
    count: nat,
    symbol: Seq<char>,
    s: CodeView,
) -> Result<(Seq<OperandView>, nat, CodeView), LowerStopView>
    decreases ps.len(),
{
    if ps.len() == 0 {
        Ok((Seq::empty(), at, s))
    } else if internal.len() == 0 {
        Err(LowerStopView::ParamMismatch { symbol })
    } else {
        match forward_param(ps[0], internal[0], at, count, symbol, s) {
            Err(e) => Err(e),
            Ok((first, taken, s1)) => match forward_params(
                ps.drop_first(),
                internal.drop_first(),
                at + taken,
                count,
                symbol,
                s1,
            ) {
                Err(e) => Err(e),
                Ok((rest, end, s2)) => Ok(
                    (
                        match first {
                            Some(v) => seq![v] + rest,
                            None => rest,
                        },
                        end,
                        s2,
                    ),
                ),
            },
        }
    }
}

/// A value at `source` returned as another type, by way of memory that holds
/// the other. Only as many bytes are copied as both types have.
pub open spec fn return_reread(
    source: OperandView,
    from: LlvmTypeView,
    to: LlvmTypeView,
    cx: LowerCx,
    s: CodeView,
) -> Result<CodeView, LowerStopView> {
    match (
        size_bytes(from, cx.facts.pointer_align as u64),
        size_bytes(to, cx.facts.pointer_align as u64),
    ) {
        (Some(from_size), Some(to_size)) => {
            let s1 = emit(s, InstView::Alloca { ty: to, align: None });
            let s2 = emit(
                s1,
                InstView::Copy {
                    dest: next(s),
                    source,
                    align: cx.facts.pointer_align,
                    extent: ExtentView::Bytes(
                        (if from_size <= to_size {
                            from_size
                        } else {
                            to_size
                        }) as u64,
                    ),
                },
            );
            let s3 = emit(s2, InstView::Load { ty: to, ptr: next(s) });
            Ok(emit(s3, InstView::Return { value: Some(next(s2)) }))
        },
        _ => Err(LowerStopView::SizeUnknown),
    }
}

/// Returns from a wrapper what the function that it called, by the last
/// instruction, gave.
pub open spec fn wrapper_result(
    call: OperandView,
    room: Option<OperandView>,
    ret: ResolvedTypeView,
    abi: AbiReturnView,
    direct: Option<LlvmTypeView>,
    internal: DeclView,
    symbol: Seq<char>,
    cx: LowerCx,
    s: CodeView,
) -> Result<CodeView, LowerStopView> {
    if ret is Void || abi is Indirect {
        Ok(emit(s, InstView::Return { value: None }))
    } else if internal_sret(ret) {
        match (direct, room) {
            (Some(to), Some(source)) => match llvm_type(ret, cx.facts) {
                Err(e) => Err(e),
                Ok(from) => return_reread(source, from, to, cx, s),
            },
            _ => Err(LowerStopView::NoReturn { symbol }),
        }
    } else {
        match internal.ret {
            None => Ok(emit(s, InstView::Return { value: None })),
            Some(t) => match direct {
                None => Err(LowerStopView::NoReturn { symbol }),
                Some(to) => {
                    let (value, s1) = coerce_int(call, t, to, s);
                    Ok(emit(s1, InstView::Return { value: Some(value) }))
                },
            },
        }
    }
}

/// The module with the wrapper of a function: by the ABI of the Rust side it
/// takes its parameters, hands them to the function, and returns what that
/// gives.
pub open spec fn extern_wrapper(
    f: ToyFunctionView,
    abi: AbiView,
    symbol: Seq<char>,
    inner: Seq<char>,
    cx: LowerCx,
    m: ModuleView,
) -> Result<ModuleView, LowerStopView> {
    match return_type(f, typing_of(cx)) {
        Err(error) => Err(LowerStopView::Types { error }),
        Ok(ret) => if abi.params.len() != f.params.len() {
            Err(LowerStopView::ParamMismatch { symbol })
        } else {
            match param_types(f.params, cx) {
                Err(e) => Err(e),
                Ok(internal) => match wrapper_return(ret, abi.ret, cx) {
                    Err(e) => Err(e),
                    Ok(direct) => {
                        let decls = declare(
                            m.decls,
                            DeclView {
                                symbol,
                                params: signature(abi.ret is Indirect, abi.params),
                                ret: direct,
                                sret: None,
                            },
                        );
                        match (find_decl(decls, symbol), find_decl(decls, inner)) {
                            (Some(decl), Some(callee)) => wrapper_body(
                                ret,
                                abi,
                                direct,
                                internal,
                                decl,
                                callee,
                                cx,
                                ModuleView { decls, ..m },
                            ),
                            _ => Err(LowerStopView::InternalNotFound { symbol: inner }),
                        }
                    },
                },
            }
        },
    }
}

/// The body of a wrapper, in the module.
pub open spec fn wrapper_body(
    ret: ResolvedTypeView,
    abi: AbiView,
    direct: Option<LlvmTypeView>,
    internal: Seq<LlvmTypeView>,
    decl: DeclView,
    callee: DeclView,
    cx: LowerCx,
    m: ModuleView,
) -> Result<ModuleView, LowerStopView> {
    match wrapper_room(ret, abi.ret, cx, start(m)) {
        Err(e) => Err(e),
        Ok((room, s1)) => match forward_params(
            abi.params,
            internal,
            if abi.ret is Indirect {
                1
            } else {
                0
            },
            decl.params.len(),
            decl.symbol,
            s1,
        ) {
            Err(e) => Err(e),
            Ok((ops, end, s2)) => if end != decl.params.len() {
                Err(LowerStopView::ParamMismatch { symbol: decl.symbol })
            } else {
                let args = match room {
                    Some(r) => seq![r] + ops,
                    None => ops,
                };
                let s3 = emit(s2, InstView::Call { symbol: callee.symbol, args });
                match wrapper_result(
                    next(s2),
                    room,
                    ret,
                    abi.ret,
                    direct,
                    callee,
                    decl.symbol,
                    cx,
                    s3,
                ) {
                    Err(e) => Err(e),
                    Ok(s4) => match wrapper_sret(ret, abi.ret, cx) {
                        Err(e) => Err(e),
                        Ok(sret) => Ok(finish(decl.symbol, sret, s4, m)),
                    },
                }
            },
        },
    }
}

/// Where the function that a wrapper calls puts what it returns through a
/// pointer: where the caller wants it, or in room of the wrapper's own.
pub open spec fn wrapper_room(
    ret: ResolvedTypeView,
    abi: AbiReturnView,
    cx: LowerCx,
    s: CodeView,
) -> Result<(Option<OperandView>, CodeView), LowerStopView> {
    if !internal_sret(ret) {
        Ok((None, s))
    } else if abi is Indirect {
        Ok((Some(OperandView::Param(0)), s))
    } else {
        match llvm_type(ret, cx.facts) {
            Err(e) => Err(e),
            Ok(t) => Ok((Some(next(s)), emit(s, InstView::Alloca { ty: t, align: None }))),
        }
    }
}

/// What the first parameter of a wrapper points to, where the result goes
/// there.
pub open spec fn wrapper_sret(ret: ResolvedTypeView, abi: AbiReturnView, cx: LowerCx) -> Result<
    Option<LlvmTypeView>,
    LowerStopView,
> {
    if abi is Indirect && internal_sret(ret) {
        match llvm_type(ret, cx.facts) {
            Err(e) => Err(e),
            Ok(t) => Ok(Some(t)),
        }
    } else {
        Ok(None)
    }
}

/// The view of an outcome that is a module.
pub open spec fn module_outcome(r: Result<ModuleCode, LowerStop>) -> Result<
    ModuleView,
    LowerStopView,
> {
    match r {
        Ok(m) => Ok(m@),
        Err(e) => Err(e@),
    }
}

/// Makes the code of functions.
pub struct Codegen<'a> {
    pub registry: &'a ToylangRegistry,
    pub answers: &'a RustAnswers,
    pub facts: &'a CodeFacts,
}

impl<'a> Codegen<'a> {
    /// What code generation goes by.
    pub open spec fn cx(&self) -> LowerCx {
        LowerCx { registry: self.registry@, answers: self.answers@, facts: self.facts@ }
    }

    fn start(&self, m: ModuleCode) -> (r: (Lowering<'a>, Vec<FnCode>))
        ensures
            r.0.code() == start(m@),
            r.0.cx() == self.cx(),
            views(r.1@) == m@.functions,
    {
        let mut insts: Vec<Inst> = Vec::new();
        insts.push(Inst::Block);
        insts.push(Inst::Enter { block: 0 });
        let low = Lowering {
            registry: self.registry,
            answers: self.answers,
            facts: self.facts,
            insts,
            block: 0,
            vars: NameMap::new(),
            decls: m.decls,
            rust_symbols: m.rust_symbols,
            methods: m.methods,
        };
        assert(low.code().insts =~= start(m@).insts);
        assert(low.code().vars =~= Seq::empty());
        (low, m.functions)
    }

    fn param_types(&self, ps: &Vec<ToyParam>) -> (r: Result<Vec<LlvmType>, LowerStop>)
        ensures
            types_outcome(r) == param_types(views(ps@), self.cx()),
    {
        let ghost all = views(ps@);
        let ghost cx = self.cx();
        let ghost whole = param_types(all, cx);
        let mut out: Vec<LlvmType> = Vec::new();
        let mut i: usize = 0;
        assert(all.skip(0) =~= all);
        assert(whole is Ok ==> type_views(out@) + whole->Ok_0 =~= whole->Ok_0);
        while i < ps.len()
            invariant
                i <= ps@.len(),
                all == views(ps@),
                cx == self.cx(),
                whole == param_types(all, cx),
                whole == (match param_types(all.skip(i as int), cx) {
                    Ok(rest) => Ok(type_views(out@) + rest),
                    Err(e) => Err(e),
                }),
            decreases ps@.len() - i,
        {
            let ghost done = type_views(out@);
            assert(all.skip(i as int).drop_first() =~= all.skip(i + 1));
            assert(all.skip(i as int)[0] == ps@[i as int]@);
            let resolved = match resolve_source_type(&ps[i].ty, self.registry) {
                Err(error) => {
                    return Err(LowerStop::Types { error });
                },
                Ok(t) => t,
            };
            let one = match self.facts.resolved_to_llvm(&resolved) {
                Err(e) => {
                    return Err(e);
                },
                Ok(t) => t,
            };
            let ghost first = one@;
            out.push(one);
            assert(type_views(out@) =~= done.push(first));
            assert(forall|rest: Seq<LlvmTypeView>|
                #[trigger] (type_views(out@) + rest) =~= done + (seq![first] + rest));
            i += 1;
        }
        assert(all.skip(i as int).len() == 0);
        assert(type_views(out@) + Seq::<LlvmTypeView>::empty() =~= type_views(out@));
        Ok(out)
    }

    /// Adds the body of a function to a module, under toylang's own
    /// conventions.
    pub fn codegen_internal_function(
        &self,
        m: ModuleCode,
        f: &ToyFunction,
        symbol: &String,
    ) -> (r: Result<ModuleCode, LowerStop>)
        ensures
            module_outcome(r) == internal_function(f@, symbol@, self.cx(), m@),
    {
        if f.body.is_none() {
            return Err(LowerStop::NoBody { symbol: symbol.clone() });
        }
        let body = match resolve_fn_body(self.registry, f, self.answers) {
            Err(error) => {
                return Err(LowerStop::Types { error });
            },
            Ok(b) => b,
        };
        let ghost before = m@;
        let (mut low, mut functions) = self.start(m);
        let found = walk_typed_body_for_deps(&body);
        match low.resolve_rust_methods(&found.rust_method_deps) {
            Err(e) => {
                return Err(e);
            },
            Ok(_) => {},
        }
        let types = match self.param_types(&f.params) {
            Err(e) => {
                return Err(e);
            },
            Ok(types) => types,
        };
        let ty = match &body.ret {
            Some(e) => e.ty.duplicate(),
            None => ResolvedType::Void,
        };
        let ret = match low.internal_return(&ty) {
            Err(e) => {
                return Err(e);
            },
            Ok(ret) => ret,
        };
        let decl = make_internal_decl(symbol, types, &ty, ret);
        low.declare(decl);
        let declared = match lookup_decl(&low.decls, symbol) {
            None => {
                return Err(LowerStop::ParamMismatch { symbol: symbol.clone() });
            },
            Some(d) => clone_types(&d.params),
        };
        if is_internal_sret(&ty) && declared.len() == 0 {
            return Err(LowerStop::ParamMismatch { symbol: symbol.clone() });
        }
        let at: usize = if is_internal_sret(&ty) {
            1
        } else {
            0
        };
        match low.bind_fn_params(&f.params, at, &declared, symbol) {
            Err(e) => {
                return Err(e);
            },
            Ok(_) => {},
        }
        let result = match low.lower_typed_block(&body) {
            Err(e) => {
                return Err(e);
            },
            Ok(result) => result,
        };
        match low.return_from(result, &ty) {
            Err(e) => {
                return Err(e);
            },
            Ok(_) => {},
        }
        let ghost code = low.code();
        let ghost done = views(functions@);
        functions.push(FnCode { symbol: symbol.clone(), sret: None, insts: low.insts });
        assert(views(functions@) =~= done.push(
            FnCodeView { symbol: symbol@, sret: None, insts: code.insts },
        ));
        Ok(
            ModuleCode {
                decls: low.decls,
                rust_symbols: low.rust_symbols,
                methods: low.methods,
                functions,
            },
        )
    }

    fn wrapper_return(&self, ret: &ResolvedType, abi: &AbiReturn) -> (r: Result<
        Option<LlvmType>,
        LowerStop,
    >)
        ensures
            (match r {
                Ok(t) => Ok(opt_type(t)),
                Err(e) => Err(e@),
            }) == wrapper_return(ret@, abi@, self.cx()),
    {
        match abi {
            AbiReturn::Indirect => Ok(None),
            _ => match ret {
                ResolvedType::I32 | ResolvedType::I64 | ResolvedType::F64 | ResolvedType::Bool
                | ResolvedType::Usize => match self.facts.resolved_to_llvm(ret) {
                    Err(e) => Err(e),
                    Ok(t) => Ok(Some(t)),
                },
                ResolvedType::RustType { .. } => match abi {
                    AbiReturn::Direct(t) => Ok(Some(clone_type(t))),
                    _ => Ok(None),
                },
                ResolvedType::Struct { .. } => match abi {
                    AbiReturn::Direct(t) => Ok(Some(clone_type(t))),
                    _ => match self.facts.resolved_to_llvm(ret) {
                        Err(e) => Err(e),
                        Ok(t) => Ok(Some(t)),
                    },
                },
                ResolvedType::Ref { .. } => Ok(Some(LlvmType::Ptr)),
                _ => Ok(None),
            },
        }
    }

    fn wrapper_sret(&self, ret: &ResolvedType, abi: &AbiReturn) -> (r: Result<
        Option<LlvmType>,
        LowerStop,
    >)
        ensures
            (match r {
                Ok(t) => Ok(opt_type(t)),
                Err(e) => Err(e@),
            }) == wrapper_sret(ret@, abi@, self.cx()),
    {
        match abi {
            AbiReturn::Indirect => if is_internal_sret(ret) {
                match self.facts.resolved_to_llvm(ret) {
                    Err(e) => Err(e),
                    Ok(t) => Ok(Some(t)),
                }
            } else {
                Ok(None)
            },
            _ => Ok(None),
        }
    }

    /// Adds the wrapper of a function to a module.
    pub fn codegen_extern_wrapper(
        &self,
        m: ModuleCode,
        f: &ToyFunction,
        abi: &Abi,
        symbol: &String,
        inner: &String,
    ) -> (r: Result<ModuleCode, LowerStop>)
        ensures
            module_outcome(r) == extern_wrapper(f@, abi@, symbol@, inner@, self.cx(), m@),
    {
        let ret = match resolve_return_type(self.registry, f) {
            Err(error) => {
                return Err(LowerStop::Types { error });
            },
            Ok(t) => t,
        };
        if abi.params.len() != f.params.len() {
            return Err(LowerStop::ParamMismatch { symbol: symbol.clone() });
        }
        let internal = match self.param_types(&f.params) {
            Err(e) => {
                return Err(e);
            },
            Ok(types) => types,
        };
        let direct = match self.wrapper_return(&ret, &abi.ret) {
            Err(e) => {
                return Err(e);
            },
            Ok(t) => t,
        };
        let sret = match &abi.ret {
            AbiReturn::Indirect => true,
            _ => false,
        };
        let decl = Decl {
            symbol: symbol.clone(),
            params: make_signature(sret, &abi.params),
            ret: clone_opt_type(&direct),
            sret: None,
        };
        let ghost decl_view = decl@;
        let mut declared = m;
        let ghost before = declared@;
        if lookup_decl(&declared.decls, symbol).is_none() {
            declared.decls.push(decl);
            assert(declared@.decls =~= before.decls.push(decl_view));
        }
        assert(declared@ == (ModuleView { decls: declare(before.decls, decl_view), ..before }));
        let own = match lookup_decl(&declared.decls, symbol) {
            None => {
                return Err(LowerStop::InternalNotFound { symbol: inner.clone() });
            },
            Some(d) => d.duplicate(),
        };
        let callee = match lookup_decl(&declared.decls, inner) {
            None => {
                return Err(LowerStop::InternalNotFound { symbol: inner.clone() });
            },
            Some(d) => d.duplicate(),
        };
        self.codegen_wrapper_body(declared, &ret, abi, direct, &internal, &own, &callee)
    }

    fn codegen_wrapper_body(
        &self,
        m: ModuleCode,
        ret: &ResolvedType,
        abi: &Abi,
        direct: Option<LlvmType>,
        internal: &Vec<LlvmType>,
        decl: &Decl,
        callee: &Decl,
    ) -> (r: Result<ModuleCode, LowerStop>)
        ensures
            module_outcome(r) == wrapper_body(
                ret@,
                abi@,
                opt_type(direct),
                type_views(internal@),
                decl@,
                callee@,
                self.cx(),
                m@,
            ),
    {
        let (mut low, mut functions) = self.start(m);
        let room = match low.wrapper_room(ret, &abi.ret) {
            Err(e) => {
                return Err(e);
            },
            Ok(room) => room,
        };
        let at: usize = match &abi.ret {
            AbiReturn::Indirect => 1,
            _ => 0,
        };
        let count: usize = decl.params.len();
        let (ops, end) = match low.forward_params(&abi.params, internal, at, count, &decl.symbol) {
            Err(e) => {
                return Err(e);
            },
            Ok(p) => p,
        };
        if end != count {
            return Err(LowerStop::ParamMismatch { symbol: decl.symbol.clone() });
        }
        let mut args: Vec<Operand> = Vec::new();
        match room {
            Some(r) => {
                args.push(r);
            },
            None => {},
        }
        let ghost before = views(args@);
        let mut rest = ops;
        let ghost forwarded = views(rest@);
        args.append(&mut rest);
        assert(views(args@) =~= before + forwarded);
        proof {
            match room {
                Some(r) => {
                    assert(views(args@) =~= seq![r@] + forwarded);
                },
                None => {
                    assert(views(args@) =~= forwarded);
                },
            }
        }
        let call = low.emit_call(&callee.symbol, args);
        match low.wrapper_result(call, room, ret, &abi.ret, direct, callee, &decl.symbol) {
            Err(e) => {
                return Err(e);
            },
            Ok(_) => {},
        }
        let sret = match self.wrapper_sret(ret, &abi.ret) {
            Err(e) => {
                return Err(e);
            },
            Ok(t) => t,
        };
        let ghost code = low.code();
        let ghost done = views(functions@);
        let ghost sret_view = opt_type(sret);
        functions.push(FnCode { symbol: decl.symbol.clone(), sret, insts: low.insts });
        assert(views(functions@) =~= done.push(
            FnCodeView { symbol: decl.symbol@, sret: sret_view, insts: code.insts },
        ));
        Ok(
            ModuleCode {
                decls: low.decls,
                rust_symbols: low.rust_symbols,
                methods: low.methods,
                functions,
            },
        )
    }
}

} // verus!
