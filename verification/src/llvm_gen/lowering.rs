//! The lowering of typed expressions and statements, carried out.
use crate::llvm_gen::abi::{
    llvm_types, make_byte_array, make_fat_pointer, make_signature, types_outcome, Abi, AbiParam, AbiReturn, CodeFacts, LowerStop,
    LowerStopView,
};
use crate::llvm_gen::code::{
    clone_opt_type, declare, emit, enter, lookup_decl, next, opt_type, same_operand, to_ptr, to_value, CodeView, Decl, Extent, Inst,
    InstView, Lowered, LoweredView, Operand, OperandView, Slot,
};
use crate::llvm_gen::functions::{bind_params, forward_param, forward_params, return_reread, return_result, wrapper_result, wrapper_room};
use crate::llvm_gen::lower::{
    abi_decl, coerce_int, field_place, finish_fn_call, finish_method_call, internal_decl, internal_return, is_float, is_internal_sret,
    lower_arg, lower_args, lower_binary, lower_block, lower_bytes, lower_expr, lower_field_access, lower_fn_call, lower_if,
    lower_internal_call, lower_lit_fields, lower_method_call, lower_opt, lower_ref, lower_rust_fn_call, lower_static_call, lower_stmt,
    lower_stmts, lower_struct_lit, lower_values, lower_while, no_value, receiver_ops, receiver_ptr, reread_as_pair, return_room,
    split_pair, struct_behind, types_of, use_method, use_methods, write_back, LowerCx,
};
use crate::llvm_gen::types::{clone_type, clone_types, same_type, static_size_bytes, type_views, LlvmType, LlvmTypeView};
use crate::names::NameMap;
use crate::text::{views, Duplicate};
use crate::toylang::answers::RustAnswers;
use crate::toylang::ast::BinOp;
use crate::toylang::callbacks_impl::{compute_internal_symbol_from_type_args, make_method_dep, NameSet, RustDep, WalkStop};
use crate::toylang::deps::RustMethodDep;
use crate::toylang::registry::{ToyParam, ToyStruct, ToylangRegistry};
use crate::toylang::type_resolve::find_field_index;
use crate::toylang::typed_ast::{
    clone_resolved_types, typed_expr_views, typed_field_views, typed_stmt_views, ResolvedType, TypedBlock, TypedExpr, TypedExprKind,
    TypedStmt,
};
use vstd::prelude::*;
use vstd::string::*;

verus! {

broadcast use {vstd::seq::group_seq_axioms, vstd::std_specs::vec::group_vec_axioms};

/// A function under construction, in its module.
pub struct Lowering<'a> {
    pub registry: &'a ToylangRegistry,
    pub answers: &'a RustAnswers,
    pub facts: &'a CodeFacts,
    pub insts: Vec<Inst>,
    pub block: usize,
    pub vars: NameMap<Slot>,
    pub decls: Vec<Decl>,
    pub rust_symbols: Vec<String>,
    pub methods: NameSet,
}

/// Whether a step ended as it should: with the same result and code, or with
/// the same stop.
pub open spec fn ended<T>(
    want: Result<(T, CodeView), LowerStopView>,
    got: Result<T, LowerStopView>,
    after: CodeView,
) -> bool {
    match want {
        Ok((x, s)) => got == Ok::<T, LowerStopView>(x) && after == s,
        Err(e) => got == Err::<T, LowerStopView>(e),
    }
}

/// The same for a step without a result.
pub open spec fn ended_code(
    want: Result<CodeView, LowerStopView>,
    got: Result<(), LowerStop>,
    after: CodeView,
) -> bool {
    match want {
        Ok(s) => got is Ok && after == s,
        Err(e) => got is Err && got->Err_0@ == e,
    }
}

/// The view of an outcome.
pub open spec fn lowered(r: Result<Lowered, LowerStop>) -> Result<LoweredView, LowerStopView> {
    match r {
        Ok(l) => Ok(l@),
        Err(e) => Err(e@),
    }
}

/// The view of an outcome that is some operands.
pub open spec fn operands(r: Result<Vec<Operand>, LowerStop>) -> Result<
    Seq<OperandView>,
    LowerStopView,
> {
    match r {
        Ok(v) => Ok(views(v@)),
        Err(e) => Err(e@),
    }
}

/// The view of an outcome that is an operand.
pub open spec fn operand(r: Result<Operand, LowerStop>) -> Result<OperandView, LowerStopView> {
    match r {
        Ok(v) => Ok(v@),
        Err(e) => Err(e@),
    }
}

fn push_operand(ops: &mut Vec<Operand>, op: Operand)
    ensures
        views(final(ops)@) == views(old(ops)@).push(op@),
{
    let ghost before = views(ops@);
    ops.push(op);
    assert(views(ops@) =~= before.push(op@));
}

fn append_operands(ops: &mut Vec<Operand>, more: Vec<Operand>)
    ensures
        views(final(ops)@) == views(old(ops)@) + views(more@),
{
    let ghost a = ops@;
    let ghost b = more@;
    let mut rest = more;
    ops.append(&mut rest);
    assert(views(ops@) =~= views(a) + views(b));
}

fn one_operand(op: Operand) -> (r: Vec<Operand>)
    ensures
        views(r@) == seq![op@],
{
    let mut r: Vec<Operand> = Vec::new();
    r.push(op);
    assert(views(r@) =~= seq![op@]);
    r
}

fn lowered_nothing() -> (r: Lowered)
    ensures
        r@ == no_value(),
{
    Lowered::Value(Operand::Int { bits: 32, value: 0 }, LlvmType::Int { bits: 32 })
}

fn float_type(t: &LlvmType) -> (r: bool)
    ensures
        r == is_float(t@),
{
    match t {
        LlvmType::Half | LlvmType::Float | LlvmType::Double | LlvmType::Fp128 => true,
        _ => false,
    }
}

fn int_type(t: &LlvmType) -> (r: bool)
    ensures
        r == (t@ is Int),
{
    match t {
        LlvmType::Int { .. } => true,
        _ => false,
    }
}

fn pair_type(a: &LlvmType, b: &LlvmType) -> (r: LlvmType)
    ensures
        r@ == (LlvmTypeView::Struct { fields: seq![a@, b@] }),
{
    let mut fields: Vec<LlvmType> = Vec::new();
    fields.push(clone_type(a));
    fields.push(clone_type(b));
    assert(type_views(fields@) =~= seq![a@, b@]);
    LlvmType::Struct { fields }
}

/// The declaration by which a function of the Rust side is called.
pub fn make_abi_decl(abi: &Abi) -> (r: Decl)
    ensures
        r@ == abi_decl(abi@),
{
    let sret = match &abi.ret {
        AbiReturn::Indirect => true,
        _ => false,
    };
    Decl {
        symbol: abi.symbol.clone(),
        params: make_signature(sret, &abi.params),
        ret: match &abi.ret {
            AbiReturn::Direct(t) => Some(clone_type(t)),
            _ => None,
        },
        sret: if sret {
            Some(make_byte_array(abi.ret_size))
        } else {
            None
        },
    }
}

impl<'a> Lowering<'a> {
    /// The code so far.
    pub open spec fn code(&self) -> CodeView {
        CodeView {
            insts: views(self.insts@),
            block: self.block as nat,
            vars: self.vars@,
            decls: views(self.decls@),
            rust_symbols: views(self.rust_symbols@),
            methods: self.methods@,
        }
    }

    /// What the lowering goes by.
    pub open spec fn cx(&self) -> LowerCx {
        LowerCx { registry: self.registry@, answers: self.answers@, facts: self.facts@ }
    }

    fn emit(&mut self, inst: Inst) -> (r: Operand)
        ensures
            final(self).code() == emit(old(self).code(), inst@),
            final(self).cx() == old(self).cx(),
            r@ == next(old(self).code()),
    {
        let ghost before = self.code();
        let ghost view = inst@;
        let at: usize = self.insts.len();
        self.insts.push(inst);
        assert(self.code().insts =~= before.insts.push(view));
        Operand::Reg(at)
    }

    fn append_block(&mut self) -> (r: usize)
        ensures
            final(self).code() == emit(old(self).code(), InstView::Block),
            final(self).cx() == old(self).cx(),
            r == old(self).code().insts.len(),
    {
        let at: usize = self.insts.len();
        let _ = self.emit(Inst::Block);
        at
    }

    fn enter(&mut self, block: usize)
        ensures
            final(self).code() == enter(old(self).code(), block as nat),
            final(self).cx() == old(self).cx(),
    {
        let _ = self.emit(Inst::Enter { block });
        self.block = block;
    }

    fn value_of(&mut self, l: Lowered) -> (r: (Operand, LlvmType))
        ensures
            to_value(l@, old(self).code()) == (r.0@, r.1@, final(self).code()),
            final(self).cx() == old(self).cx(),
    {
        match l {
            Lowered::Value(v, t) => (v, t),
            Lowered::Ptr(ptr, t) => {
                let ty = clone_type(&t);
                let v = self.emit(Inst::Load { ty, ptr });
                (v, t)
            },
        }
    }

    fn ptr_of(&mut self, l: Lowered, ty: &LlvmType) -> (r: Operand)
        ensures
            to_ptr(l@, ty@, old(self).code()) == (r@, final(self).code()),
            final(self).cx() == old(self).cx(),
    {
        match l {
            Lowered::Ptr(ptr, _) => ptr,
            Lowered::Value(value, _) => {
                let room = clone_type(ty);
                let ptr = self.emit(Inst::Alloca { ty: room, align: None });
                let _ = self.emit(Inst::Store { ptr, value });
                ptr
            },
        }
    }

    /// Declares a function, unless its symbol is declared already.
    pub fn declare(&mut self, decl: Decl)
        ensures
            final(self).code() == (CodeView {
                decls: declare(old(self).code().decls, decl@),
                ..old(self).code()
            }),
            final(self).cx() == old(self).cx(),
    {
        let ghost before = self.code();
        let ghost view = decl@;
        if lookup_decl(&self.decls, &decl.symbol).is_none() {
            self.decls.push(decl);
            assert(self.code().decls =~= before.decls.push(view));
        }
    }

    fn note_symbol(&mut self, symbol: &String)
        ensures
            final(self).code() == (CodeView {
                rust_symbols: old(self).code().rust_symbols.push(symbol@),
                ..old(self).code()
            }),
            final(self).cx() == old(self).cx(),
    {
        let ghost before = self.code();
        self.rust_symbols.push(symbol.clone());
        assert(self.code().rust_symbols =~= before.rust_symbols.push(symbol@));
    }

    /// Looks up a method of the Rust side, and declares it the first time.
    pub fn get_or_resolve_rust_method(&mut self, d: &RustMethodDep) -> (r: Result<
        &'a Abi,
        LowerStop,
    >)
        ensures
            final(self).cx() == old(self).cx(),
            ended(
                use_method(d@, old(self).cx(), old(self).code()),
                (match r {
                    Ok(abi) => Ok(abi@),
                    Err(e) => Err(e@),
                }),
                final(self).code(),
            ),
    {
        let dep = match make_method_dep(d, self.answers) {
            Err(WalkStop::Pending { error }) => {
                return Err(LowerStop::Types { error });
            },
            Err(_) => {
                assert(false);
                return Err(LowerStop::Receiver);
            },
            Ok(dep) => dep,
        };
        let facts: &'a CodeFacts = self.facts;
        let abi = match facts.abi_of(&dep) {
            Err(e) => {
                return Err(e);
            },
            Ok(abi) => abi,
        };
        if !self.methods.contains(&abi.symbol) {
            self.declare(make_abi_decl(abi));
            self.note_symbol(&abi.symbol);
            let _ = self.methods.insert(abi.symbol.clone());
        }
        Ok(abi)
    }

    /// Looks up some methods of the Rust side.
    pub fn resolve_rust_methods(&mut self, ds: &Vec<RustMethodDep>) -> (r: Result<(), LowerStop>)
        ensures
            final(self).cx() == old(self).cx(),
            ended_code(
                use_methods(views(ds@), old(self).cx(), old(self).code()),
                r,
                final(self).code(),
            ),
    {
        let ghost all = views(ds@);
        let ghost cx = self.cx();
        let ghost whole = use_methods(all, cx, self.code());
        let mut i: usize = 0;
        assert(all.skip(0) =~= all);
        while i < ds.len()
            invariant
                i <= ds@.len(),
                all == views(ds@),
                cx == self.cx(),
                cx == old(self).cx(),
                whole == use_methods(all, cx, old(self).code()),
                whole == use_methods(all.skip(i as int), cx, self.code()),
            decreases ds@.len() - i,
        {
            assert(all.skip(i as int).drop_first() =~= all.skip(i + 1));
            assert(all.skip(i as int)[0] == ds@[i as int]@);
            match self.get_or_resolve_rust_method(&ds[i]) {
                Err(e) => {
                    return Err(e);
                },
                Ok(_) => {},
            }
            i += 1;
        }
        assert(all.skip(i as int).len() == 0);
        Ok(())
    }

    fn coerce_int_to_type(&mut self, v: Operand, t: &LlvmType, target: &LlvmType) -> (r: Operand)
        ensures
            coerce_int(v@, t@, target@, old(self).code()) == (r@, final(self).code()),
            final(self).cx() == old(self).cx(),
    {
        match (t, target) {
            (LlvmType::Int { bits: from }, LlvmType::Int { bits: to }) => if *from > *to {
                self.emit(Inst::Truncate { value: v, bits: *to })
            } else if *from < *to {
                self.emit(Inst::SignExtend { value: v, bits: *to })
            } else {
                v
            },
            _ => v,
        }
    }

    fn split_pair(&mut self, v: Operand) -> (r: Vec<Operand>)
        ensures
            split_pair(v@, old(self).code()) == (views(r@), final(self).code()),
            final(self).cx() == old(self).cx(),
    {
        let first = self.emit(Inst::Extract { value: v, field: 0 });
        let second = self.emit(Inst::Extract { value: v, field: 1 });
        let mut r: Vec<Operand> = Vec::new();
        r.push(first);
        r.push(second);
        assert(views(r@) =~= seq![first@, second@]);
        r
    }

    fn reread_as_pair(&mut self, l: Lowered, from: &LlvmType, pair: &LlvmType) -> (r: Result<
        Operand,
        LowerStop,
    >)
        ensures
            final(self).cx() == old(self).cx(),
            ended(
                reread_as_pair(l@, from@, pair@, old(self).cx(), old(self).code()),
                operand(r),
                final(self).code(),
            ),
    {
        let align: u32 = self.facts.pointer_align;
        let from_size: u64 = match static_size_bytes(from, align as u64) {
            None => {
                return Err(LowerStop::SizeUnknown);
            },
            Some(n) => n,
        };
        let pair_size: u64 = match static_size_bytes(pair, align as u64) {
            None => {
                return Err(LowerStop::SizeUnknown);
            },
            Some(n) => n,
        };
        let room = if pair_size >= from_size {
            clone_type(pair)
        } else {
            clone_type(from)
        };
        let dest = self.emit(Inst::Alloca { ty: room, align: None });
        let source = self.ptr_of(l, from);
        let count: u64 = if from_size <= pair_size {
            from_size
        } else {
            pair_size
        };
        let _ = self.emit(Inst::Copy { dest, source, align, extent: Extent::Bytes(count) });
        let ty = clone_type(pair);
        Ok(self.emit(Inst::Load { ty, ptr: dest }))
    }

    fn push_arg_for_rust_call(&mut self, e: &TypedExpr, p: &AbiParam) -> (r: Result<
        Vec<Operand>,
        LowerStop,
    >)
        ensures
            final(self).cx() == old(self).cx(),
            ended(
                lower_arg(e.model(), p@, old(self).cx(), old(self).code()),
                operands(r),
                final(self).code(),
            ),
        decreases e, 3int,
    {
        let facts: &'a CodeFacts = self.facts;
        match p {
            AbiParam::Indirect => {
                let l = match self.lower_typed_expr(e) {
                    Err(x) => {
                        return Err(x);
                    },
                    Ok(l) => l,
                };
                let t = match facts.resolved_to_llvm(&e.ty) {
                    Err(x) => {
                        return Err(x);
                    },
                    Ok(t) => t,
                };
                let ptr = self.ptr_of(l, &t);
                Ok(one_operand(ptr))
            },
            AbiParam::Pair(a, b) => {
                let l = match self.lower_typed_expr(e) {
                    Err(x) => {
                        return Err(x);
                    },
                    Ok(l) => l,
                };
                let t = match facts.resolved_to_llvm(&e.ty) {
                    Err(x) => {
                        return Err(x);
                    },
                    Ok(t) => t,
                };
                let pair = pair_type(a, b);
                if same_type(&t, &pair) {
                    let (v, vt) = self.value_of(l);
                    match vt {
                        LlvmType::Struct { .. } => Ok(self.split_pair(v)),
                        _ => Err(LowerStop::Operands),
                    }
                } else {
                    match self.reread_as_pair(l, &t, &pair) {
                        Err(x) => Err(x),
                        Ok(v) => Ok(self.split_pair(v)),
                    }
                }
            },
            AbiParam::Direct(target) => {
                let t = match facts.resolved_to_llvm(&e.ty) {
                    Err(x) => {
                        return Err(x);
                    },
                    Ok(t) => t,
                };
                let l = match self.lower_typed_expr(e) {
                    Err(x) => {
                        return Err(x);
                    },
                    Ok(l) => l,
                };
                let is_struct = match &t {
                    LlvmType::Struct { .. } => true,
                    _ => false,
                };
                if is_struct && !same_type(&t, target) {
                    let ptr = self.ptr_of(l, &t);
                    let ty = clone_type(target);
                    let v = self.emit(Inst::Load { ty, ptr });
                    Ok(one_operand(v))
                } else {
                    let (v, vt) = self.value_of(l);
                    let w = self.coerce_int_to_type(v, &vt, target);
                    Ok(one_operand(w))
                }
            },
            AbiParam::Ignore => match self.lower_typed_expr(e) {
                Err(x) => Err(x),
                Ok(_) => {
                    let none: Vec<Operand> = Vec::new();
                    assert(views(none@) =~= Seq::empty());
                    Ok(none)
                },
            },
        }
    }

    fn push_args(
        &mut self,
        args: &Vec<TypedExpr>,
        from: usize,
        params: &Vec<AbiParam>,
        param_from: usize,
        symbol: &String,
    ) -> (r: Result<Vec<Operand>, LowerStop>)
        requires
            from <= args@.len(),
            param_from <= params@.len(),
        ensures
            final(self).cx() == old(self).cx(),
            ended(
                lower_args(
                    typed_expr_views(args@).skip(from as int),
                    views(params@).skip(param_from as int),
                    symbol@,
                    old(self).cx(),
                    old(self).code(),
                ),
                operands(r),
                final(self).code(),
            ),
        decreases args, 0int,
    {
        let ghost all = typed_expr_views(args@);
        let ghost ps = views(params@);
        let ghost cx = self.cx();
        let ghost whole = lower_args(
            all.skip(from as int),
            ps.skip(param_from as int),
            symbol@,
            cx,
            self.code(),
        );
        let mut out: Vec<Operand> = Vec::new();
        let mut i: usize = from;
        let mut k: usize = param_from;
        assert(views(out@) =~= Seq::empty());
        assert(whole is Ok ==> views(out@) + whole->Ok_0.0 =~= whole->Ok_0.0);
        while i < args.len()
            invariant
                from <= i <= args@.len(),
                k <= params@.len(),
                all == typed_expr_views(args@),
                ps == views(params@),
                cx == self.cx(),
                cx == old(self).cx(),
                whole == lower_args(
                    all.skip(from as int),
                    ps.skip(param_from as int),
                    symbol@,
                    cx,
                    old(self).code(),
                ),
                whole == (match lower_args(
                    all.skip(i as int),
                    ps.skip(k as int),
                    symbol@,
                    cx,
                    self.code(),
                ) {
                    Ok((rest, s)) => Ok((views(out@) + rest, s)),
                    Err(e) => Err(e),
                }),
            decreases args@.len() - i,
        {
            let ghost done = views(out@);
            assert(all.skip(i as int).drop_first() =~= all.skip(i + 1));
            assert(all.skip(i as int)[0] == args@[i as int].model());
            if k >= params.len() {
                return Err(LowerStop::MissingParam { symbol: symbol.clone() });
            }
            assert(ps.skip(k as int).drop_first() =~= ps.skip(k + 1));
            assert(ps.skip(k as int)[0] == params@[k as int]@);
            let one = match self.push_arg_for_rust_call(&args[i], &params[k]) {
                Err(x) => {
                    return Err(x);
                },
                Ok(ops) => ops,
            };
            let ghost first = views(one@);
            append_operands(&mut out, one);
            assert(forall|rest: Seq<OperandView>|
                #[trigger] (views(out@) + rest) =~= done + (first + rest));
            i += 1;
            k += 1;
        }
        assert(all.skip(i as int).len() == 0);
        assert(views(out@) + Seq::<OperandView>::empty() =~= views(out@));
        Ok(out)
    }

    fn lower_values(&mut self, args: &Vec<TypedExpr>) -> (r: Result<Vec<Operand>, LowerStop>)
        ensures
            final(self).cx() == old(self).cx(),
            ended(
                lower_values(typed_expr_views(args@), old(self).cx(), old(self).code()),
                operands(r),
                final(self).code(),
            ),
        decreases args, 0int,
    {
        let ghost all = typed_expr_views(args@);
        let ghost cx = self.cx();
        let ghost whole = lower_values(all, cx, self.code());
        let mut out: Vec<Operand> = Vec::new();
        let mut i: usize = 0;
        assert(all.skip(0) =~= all);
        assert(views(out@) =~= Seq::empty());
        assert(whole is Ok ==> views(out@) + whole->Ok_0.0 =~= whole->Ok_0.0);
        while i < args.len()
            invariant
                i <= args@.len(),
                all == typed_expr_views(args@),
                cx == self.cx(),
                cx == old(self).cx(),
                whole == lower_values(all, cx, old(self).code()),
                whole == (match lower_values(all.skip(i as int), cx, self.code()) {
                    Ok((rest, s)) => Ok((views(out@) + rest, s)),
                    Err(e) => Err(e),
                }),
            decreases args@.len() - i,
        {
            let ghost done = views(out@);
            assert(all.skip(i as int).drop_first() =~= all.skip(i + 1));
            assert(all.skip(i as int)[0] == args@[i as int].model());
            let l = match self.lower_typed_expr(&args[i]) {
                Err(x) => {
                    return Err(x);
                },
                Ok(l) => l,
            };
            let (v, _) = self.value_of(l);
            push_operand(&mut out, v);
            assert(forall|rest: Seq<OperandView>|
                #[trigger] (views(out@) + rest) =~= done + (seq![v@] + rest));
            i += 1;
        }
        assert(all.skip(i as int).len() == 0);
        assert(views(out@) + Seq::<OperandView>::empty() =~= views(out@));
        Ok(out)
    }

    fn return_room(&mut self, ret: &AbiReturn, ty: &ResolvedType) -> (r: Result<
        Vec<Operand>,
        LowerStop,
    >)
        ensures
            final(self).cx() == old(self).cx(),
            ended(
                return_room(ret@, ty@, old(self).cx(), old(self).code()),
                operands(r),
                final(self).code(),
            ),
    {
        match ret {
            AbiReturn::Indirect => match self.facts.layout_of(ty) {
                Err(e) => Err(e),
                Ok((size, align)) => {
                    let room = make_byte_array(size);
                    let ptr = self.emit(Inst::Alloca { ty: room, align: Some(align) });
                    Ok(one_operand(ptr))
                },
            },
            _ => {
                let none: Vec<Operand> = Vec::new();
                assert(views(none@) =~= Seq::empty());
                Ok(none)
            },
        }
    }

    fn finish_method_call(&mut self, abi: &Abi, ops: Vec<Operand>, ty: &ResolvedType) -> (r: Result<
        Lowered,
        LowerStop,
    >)
        ensures
            final(self).cx() == old(self).cx(),
            ended(
                finish_method_call(abi@, views(ops@), ty@, old(self).cx(), old(self).code()),
                lowered(r),
                final(self).code(),
            ),
    {
        let mut args = ops;
        if abi.takes_location {
            push_operand(&mut args, Operand::Null);
        }
        let ret = match lookup_decl(&self.decls, &abi.symbol) {
            None => {
                return Err(LowerStop::MissingParam { symbol: abi.symbol.clone() });
            },
            Some(decl) => {
                if decl.params.len() != args.len() {
                    return Err(LowerStop::ArgCount { symbol: abi.symbol.clone() });
                }
                clone_opt_type(&decl.ret)
            },
        };
        let first: Option<Operand> = if args.len() > 0 {
            Some(args[0])
        } else {
            None
        };
        let sret = match &abi.ret {
            AbiReturn::Indirect => true,
            _ => false,
        };
        let ghost passed = views(args@);
        let v = self.emit(Inst::Call { symbol: abi.symbol.clone(), args });
        if sret && first.is_some() {
            match self.facts.layout_of(ty) {
                Err(e) => Err(e),
                Ok((size, _)) => match first {
                    Some(p) => {
                        assert(p@ == passed[0]);
                        Ok(Lowered::Ptr(p, make_byte_array(size)))
                    },
                    None => Ok(lowered_nothing()),
                },
            }
        } else {
            match ret {
                Some(t) => Ok(Lowered::Value(v, t)),
                None => Ok(lowered_nothing()),
            }
        }
    }

    fn receiver_ptr(&mut self, l: Lowered, ty: &ResolvedType) -> (r: Result<
        (Operand, LlvmType),
        LowerStop,
    >)
        ensures
            final(self).cx() == old(self).cx(),
            match receiver_ptr(l@, ty@, old(self).code()) {
                Ok((p, t, s)) => r is Ok && r->Ok_0.0@ == p && r->Ok_0.1@ == t && final(self).code()
                    == s,
                Err(e) => r is Err && r->Err_0@ == e,
            },
    {
        match ty {
            ResolvedType::Ref { .. } => Ok(self.value_of(l)),
            _ => match l {
                Lowered::Ptr(p, _) => Ok((p, LlvmType::Ptr)),
                Lowered::Value(_, _) => Err(LowerStop::Receiver),
            },
        }
    }

    fn push_receiver(&mut self, recv: &TypedExpr, ptr: Operand, ptr_ty: &LlvmType, abi: &Abi) -> (r:
        Result<Vec<Operand>, LowerStop>)
        ensures
            final(self).cx() == old(self).cx(),
            r is Ok ==> abi@.params.len() > 0,
            ended(
                receiver_ops(
                    recv.model(),
                    ptr@,
                    ptr_ty@,
                    abi@.params,
                    abi@.symbol,
                    old(self).cx(),
                    old(self).code(),
                ),
                operands(r),
                final(self).code(),
            ),
        decreases recv, 4int,
    {
        if abi.params.len() == 0 {
            return Err(LowerStop::MissingParam { symbol: abi.symbol.clone() });
        }
        assert(abi@.params[0] == abi.params@[0]@);
        match &abi.params[0] {
            AbiParam::Pair(_, _) => self.push_arg_for_rust_call(recv, &abi.params[0]),
            _ => match ptr_ty {
                LlvmType::Ptr => Ok(one_operand(ptr)),
                _ => Err(LowerStop::Receiver),
            },
        }
    }

    fn field_place(&mut self, l: Lowered, ty: &ResolvedType, field: &String) -> (r: Result<
        Operand,
        LowerStop,
    >)
        ensures
            final(self).cx() == old(self).cx(),
            ended(
                field_place(l@, ty@, field@, old(self).cx(), old(self).code()),
                operand(r),
                final(self).code(),
            ),
    {
        reveal_with_fuel(ResolvedType::model, 2);
        let (name, field_types, referred) = match ty {
            ResolvedType::Struct { name, field_types, .. } => (name, field_types, false),
            ResolvedType::Ref { inner } => match &**inner {
                ResolvedType::Struct { name, field_types, .. } => (name, field_types, true),
                _ => {
                    return Err(LowerStop::NotAStruct { ty: ty.duplicate() });
                },
            },
            _ => {
                return Err(LowerStop::NotAStruct { ty: ty.duplicate() });
            },
        };
        let def = match self.registry.structs.get(name) {
            None => {
                return Err(LowerStop::StructNotFound { name: name.clone() });
            },
            Some(def) => def,
        };
        let fields = match self.facts.resolved_all(field_types) {
            Err(e) => {
                return Err(e);
            },
            Ok(fields) => fields,
        };
        let at: usize = match find_field_index(def, name, field) {
            Err(_) => {
                return Err(
                    LowerStop::FieldNotFound {
                        struct_name: name.clone(),
                        field_name: field.clone(),
                    },
                );
            },
            Ok(i) => i,
        };
        if at >= fields.len() {
            return Err(
                LowerStop::FieldNotFound { struct_name: name.clone(), field_name: field.clone() },
            );
        }
        let st = LlvmType::Struct { fields };
        let ptr = if referred {
            let slot = self.ptr_of(l, &LlvmType::Ptr);
            self.emit(Inst::Load { ty: LlvmType::Ptr, ptr: slot })
        } else {
            self.ptr_of(l, &st)
        };
        Ok(self.emit(Inst::FieldPtr { ty: st, ptr, field: at }))
    }

    fn lower_bytes(&mut self, bytes: Vec<u8>) -> (r: Lowered)
        ensures
            final(self).cx() == old(self).cx(),
            lower_bytes(bytes@, old(self).code()) == (r@, final(self).code()),
    {
        let count: i64 = bytes.len() as i64;
        let first = self.emit(Inst::Bytes { bytes });
        let second = Operand::Int { bits: 64, value: count };
        let pair = self.emit(
            Inst::Pair {
                first_ty: LlvmType::Ptr,
                second_ty: LlvmType::Int { bits: 64 },
                first,
                second,
            },
        );
        Lowered::Value(pair, make_fat_pointer())
    }

    /// Lowers an expression.
    pub fn lower_typed_expr(&mut self, e: &TypedExpr) -> (r: Result<Lowered, LowerStop>)
        ensures
            final(self).cx() == old(self).cx(),
            ended(
                lower_expr(e.model(), old(self).cx(), old(self).code()),
                lowered(r),
                final(self).code(),
            ),
        decreases e, 2int,
    {
        match &e.kind {
            TypedExprKind::IntLit(n) => match self.facts.resolved_to_llvm(&e.ty) {
                Err(x) => Err(x),
                Ok(LlvmType::Int { bits }) => Ok(
                    Lowered::Value(Operand::Int { bits, value: *n }, LlvmType::Int { bits }),
                ),
                Ok(_) => Err(LowerStop::LiteralType { ty: e.ty.duplicate() }),
            },
            TypedExprKind::BoolLit(b) => {
                let value: i64 = if *b {
                    1
                } else {
                    0
                };
                Ok(
                    Lowered::Value(
                        Operand::Int { bits: 1, value },
                        LlvmType::Int { bits: 1 },
                    ),
                )
            },
            TypedExprKind::Var(name) => match self.vars.get(name) {
                None => Err(LowerStop::VariableNotInScope { name: name.clone() }),
                Some(slot) => Ok(Lowered::Ptr(slot.ptr, clone_type(&slot.ty))),
            },
            TypedExprKind::StringLit(text) => {
                let bytes = text.as_str().as_bytes_vec();
                Ok(self.lower_bytes(bytes))
            },
            TypedExprKind::ByteStringLit(bytes) => {
                let copy = bytes.clone();
                Ok(self.lower_bytes(copy))
            },
            TypedExprKind::BinaryOp { .. } => self.lower_binary(&e.kind),
            TypedExprKind::StructLit { .. } => self.lower_struct_lit(&e.kind, &e.ty),
            TypedExprKind::FnCall { .. } => self.lower_fn_call(&e.kind, &e.ty),
            TypedExprKind::StaticCall { .. } => self.lower_static_call(&e.kind, &e.ty),
            TypedExprKind::MethodCall { .. } => self.lower_method_call(&e.kind, &e.ty),
            TypedExprKind::FieldAccess { .. } => self.lower_field_access(&e.kind, &e.ty),
            TypedExprKind::If { .. } => self.lower_if(&e.kind),
            TypedExprKind::Ref(_) => self.lower_ref(&e.kind),
        }
    }

    fn lower_binary(&mut self, k: &TypedExprKind) -> (r: Result<Lowered, LowerStop>)
        requires
            k is BinaryOp,
        ensures
            final(self).cx() == old(self).cx(),
            ended(
                lower_binary(k.model(), old(self).cx(), old(self).code()),
                lowered(r),
                final(self).code(),
            ),
        decreases k, 0int,
    {
        match k {
            TypedExprKind::BinaryOp { op, left, right } => {
                let l = match self.lower_typed_expr(left) {
                    Err(x) => {
                        return Err(x);
                    },
                    Ok(l) => l,
                };
                let (a, at) = self.value_of(l);
                let m = match self.lower_typed_expr(right) {
                    Err(x) => {
                        return Err(x);
                    },
                    Ok(m) => m,
                };
                let (b, bt) = self.value_of(m);
                let arithmetic = match op {
                    BinOp::Add | BinOp::Sub | BinOp::Mul | BinOp::Div => true,
                    _ => false,
                };
                let logical = match op {
                    BinOp::And | BinOp::Or => true,
                    _ => false,
                };
                if int_type(&at) && int_type(&bt) {
                    let v = self.emit(Inst::IntOp { op: *op, left: a, right: b });
                    if arithmetic || logical {
                        Ok(Lowered::Value(v, at))
                    } else {
                        Ok(Lowered::Value(v, LlvmType::Int { bits: 1 }))
                    }
                } else if float_type(&at) && float_type(&bt) && arithmetic {
                    let v = self.emit(Inst::FloatOp { op: *op, left: a, right: b });
                    Ok(Lowered::Value(v, at))
                } else {
                    Err(LowerStop::Operands)
                }
            },
            _ => Err(LowerStop::Operands),
        }
    }

    fn lower_struct_lit(&mut self, k: &TypedExprKind, ty: &ResolvedType) -> (r: Result<
        Lowered,
        LowerStop,
    >)
        requires
            k is StructLit,
        ensures
            final(self).cx() == old(self).cx(),
            ended(
                lower_struct_lit(k.model(), ty@, old(self).cx(), old(self).code()),
                lowered(r),
                final(self).code(),
            ),
        decreases k, 0int,
    {
        match k {
            TypedExprKind::StructLit { name, fields } => {
                let types = match ty {
                    ResolvedType::Struct { field_types, .. } => match self.facts.resolved_all(
                        field_types,
                    ) {
                        Err(x) => {
                            return Err(x);
                        },
                        Ok(types) => types,
                    },
                    _ => {
                        return Err(LowerStop::NotAStruct { ty: ty.duplicate() });
                    },
                };
                let registry: &'a ToylangRegistry = self.registry;
                let def = match registry.structs.get(name) {
                    None => {
                        return Err(LowerStop::StructNotFound { name: name.clone() });
                    },
                    Some(def) => def,
                };
                let room = LlvmType::Struct { fields: clone_types(&types) };
                let base = self.emit(Inst::Alloca { ty: room, align: None });
                match self.lower_lit_fields(fields, name, def, &types, base) {
                    Err(x) => Err(x),
                    Ok(_) => Ok(Lowered::Ptr(base, LlvmType::Struct { fields: types })),
                }
            },
            _ => Err(LowerStop::Operands),
        }
    }

    fn lower_lit_fields(
        &mut self,
        fields: &Vec<(String, TypedExpr)>,
        name: &String,
        def: &ToyStruct,
        types: &Vec<LlvmType>,
        base: Operand,
    ) -> (r: Result<(), LowerStop>)
        ensures
            final(self).cx() == old(self).cx(),
            ended_code(
                lower_lit_fields(
                    typed_field_views(fields@),
                    name@,
                    def@.fields,
                    type_views(types@),
                    base@,
                    old(self).cx(),
                    old(self).code(),
                ),
                r,
                final(self).code(),
            ),
        decreases fields, 0int,
    {
        let ghost all = typed_field_views(fields@);
        let ghost cx = self.cx();
        let ghost whole = lower_lit_fields(
            all,
            name@,
            def@.fields,
            type_views(types@),
            base@,
            cx,
            self.code(),
        );
        let mut i: usize = 0;
        assert(all.skip(0) =~= all);
        while i < fields.len()
            invariant
                i <= fields@.len(),
                all == typed_field_views(fields@),
                cx == self.cx(),
                cx == old(self).cx(),
                whole == lower_lit_fields(
                    all,
                    name@,
                    def@.fields,
                    type_views(types@),
                    base@,
                    cx,
                    old(self).code(),
                ),
                whole == lower_lit_fields(
                    all.skip(i as int),
                    name@,
                    def@.fields,
                    type_views(types@),
                    base@,
                    cx,
                    self.code(),
                ),
            decreases fields@.len() - i,
        {
            assert(all.skip(i as int).drop_first() =~= all.skip(i + 1));
            assert(all.skip(i as int)[0] == (fields@[i as int].0@, fields@[i as int].1.model()));
            let at: usize = match find_field_index(def, name, &fields[i].0) {
                Err(_) => {
                    return Err(
                        LowerStop::FieldNotFound {
                            struct_name: name.clone(),
                            field_name: fields[i].0.clone(),
                        },
                    );
                },
                Ok(at) => at,
            };
            if at >= types.len() {
                return Err(
                    LowerStop::FieldNotFound {
                        struct_name: name.clone(),
                        field_name: fields[i].0.clone(),
                    },
                );
            }
            let st = LlvmType::Struct { fields: clone_types(types) };
            let place = self.emit(Inst::FieldPtr { ty: st, ptr: base, field: at });
            let l = match self.lower_typed_expr(&fields[i].1) {
                Err(x) => {
                    return Err(x);
                },
                Ok(l) => l,
            };
            let t = match self.facts.resolved_to_llvm(&fields[i].1.ty) {
                Err(x) => {
                    return Err(x);
                },
                Ok(t) => t,
            };
            if is_internal_sret(&fields[i].1.ty) {
                let source = self.ptr_of(l, &t);
                let _ = self.emit(
                    Inst::Copy { dest: place, source, align: 8, extent: Extent::SizeOf(t) },
                );
            } else {
                let (value, _) = self.value_of(l);
                let _ = self.emit(Inst::Store { ptr: place, value });
            }
            i += 1;
        }
        assert(all.skip(i as int).len() == 0);
        Ok(())
    }

    fn lower_fn_call(&mut self, k: &TypedExprKind, ty: &ResolvedType) -> (r: Result<
        Lowered,
        LowerStop,
    >)
        requires
            k is FnCall,
        ensures
            final(self).cx() == old(self).cx(),
            ended(
                lower_fn_call(k.model(), ty@, old(self).cx(), old(self).code()),
                lowered(r),
                final(self).code(),
            ),
        decreases k, 1int,
    {
        match k {
            TypedExprKind::FnCall { name, type_args, args } => match self.registry.functions.get(
                name,
            ) {
                None => {
                    let dep = RustDep::FreeFn {
                        name: name.clone(),
                        type_args: clone_resolved_types(type_args),
                    };
                    self.lower_rust_fn_call(k, &dep, ty)
                },
                Some(f) => if f.body.is_none() {
                    let dep = RustDep::Declared { name: name.clone() };
                    self.lower_rust_fn_call(k, &dep, ty)
                } else {
                    self.lower_internal_call(k, ty)
                },
            },
            _ => Err(LowerStop::Operands),
        }
    }

    fn finish_fn_call(&mut self, abi: &Abi, ops: Vec<Operand>, ty: &ResolvedType) -> (r: Result<
        Lowered,
        LowerStop,
    >)
        ensures
            final(self).cx() == old(self).cx(),
            ended(
                finish_fn_call(abi@, views(ops@), ty@, old(self).cx(), old(self).code()),
                lowered(r),
                final(self).code(),
            ),
    {
        let decl = make_abi_decl(abi);
        if ops.len() != decl.params.len() {
            return Err(LowerStop::ArgCount { symbol: abi.symbol.clone() });
        }
        let ret = match lookup_decl(&self.decls, &abi.symbol) {
            None => None,
            Some(found) => clone_opt_type(&found.ret),
        };
        let first: Option<Operand> = if ops.len() > 0 {
            Some(ops[0])
        } else {
            None
        };
        let sret = match &abi.ret {
            AbiReturn::Indirect => true,
            _ => false,
        };
        let ghost passed = views(ops@);
        let v = self.emit(Inst::Call { symbol: abi.symbol.clone(), args: ops });
        if sret && first.is_some() {
            match self.facts.layout_of(ty) {
                Err(e) => Err(e),
                Ok((size, _)) => match first {
                    Some(p) => {
                        assert(p@ == passed[0]);
                        Ok(Lowered::Ptr(p, make_byte_array(size)))
                    },
                    None => Ok(lowered_nothing()),
                },
            }
        } else {
            match ret {
                None => Ok(lowered_nothing()),
                Some(rt) => match self.facts.resolved_to_llvm(ty) {
                    Err(e) => Err(e),
                    Ok(t) => if same_type(&rt, &t) {
                        Ok(Lowered::Value(v, rt))
                    } else {
                        let ptr = self.emit(Inst::Alloca { ty: rt, align: None });
                        let _ = self.emit(Inst::Store { ptr, value: v });
                        Ok(Lowered::Ptr(ptr, t))
                    },
                },
            }
        }
    }

    fn lower_rust_fn_call(&mut self, k: &TypedExprKind, dep: &RustDep, ty: &ResolvedType) -> (r:
        Result<Lowered, LowerStop>)
        requires
            k is FnCall,
        ensures
            final(self).cx() == old(self).cx(),
            ended(
                lower_rust_fn_call(k.model(), dep@, ty@, old(self).cx(), old(self).code()),
                lowered(r),
                final(self).code(),
            ),
        decreases k, 0int,
    {
        match k {
            TypedExprKind::FnCall { name, type_args, args } => {
                let facts: &'a CodeFacts = self.facts;
                let abi = match facts.abi_of(dep) {
                    Err(x) => {
                        return Err(x);
                    },
                    Ok(abi) => abi,
                };
                self.declare(make_abi_decl(abi));
                self.note_symbol(&abi.symbol);
                let mut ops = match self.return_room(&abi.ret, ty) {
                    Err(x) => {
                        return Err(x);
                    },
                    Ok(room) => room,
                };
                assert(typed_expr_views(args@).skip(0) =~= typed_expr_views(args@));
                assert(abi@.params.skip(0) =~= abi@.params);
                match self.push_args(args, 0, &abi.params, 0, &abi.symbol) {
                    Err(x) => Err(x),
                    Ok(more) => {
                        append_operands(&mut ops, more);
                        self.finish_fn_call(abi, ops, ty)
                    },
                }
            },
            _ => Err(LowerStop::Operands),
        }
    }

    fn arg_types(&self, args: &Vec<TypedExpr>) -> (r: Result<Vec<LlvmType>, LowerStop>)
        ensures
            types_outcome(r) == llvm_types(types_of(typed_expr_views(args@)), self.cx().facts),
    {
        let ghost all = types_of(typed_expr_views(args@));
        let ghost facts = self.cx().facts;
        let ghost whole = llvm_types(all, facts);
        let mut out: Vec<LlvmType> = Vec::new();
        let mut i: usize = 0;
        assert(all.skip(0) =~= all);
        assert(whole is Ok ==> type_views(out@) + whole->Ok_0 =~= whole->Ok_0);
        while i < args.len()
            invariant
                i <= args@.len(),
                all == types_of(typed_expr_views(args@)),
                facts == self.cx().facts,
                whole == llvm_types(all, facts),
                whole == (match llvm_types(all.skip(i as int), facts) {
                    Ok(rest) => Ok(type_views(out@) + rest),
                    Err(e) => Err(e),
                }),
            decreases args@.len() - i,
        {
            let ghost done = type_views(out@);
            assert(all.skip(i as int).drop_first() =~= all.skip(i + 1));
            assert(all.skip(i as int)[0] == args@[i as int].model().ty);
            let one = match self.facts.resolved_to_llvm(&args[i].ty) {
                Err(e) => {
                    return Err(e);
                },
                Ok(t) => t,
            };
            let ghost first = one@;
            out.push(one);
            assert(type_views(out@) =~= done.push(first));
            assert(forall|rest: Seq<LlvmTypeView>|
                #[trigger] (type_views(out@) + rest) =~= done + (seq![first] + rest));
            i += 1;
        }
        assert(all.skip(i as int).len() == 0);
        assert(type_views(out@) + Seq::<LlvmTypeView>::empty() =~= type_views(out@));
        Ok(out)
    }

    /// The type that one of toylang's own functions returns directly.
    pub fn internal_return(&self, ty: &ResolvedType) -> (r: Result<Option<LlvmType>, LowerStop>)
        ensures
            (match r {
                Ok(t) => Ok(opt_type(t)),
                Err(e) => Err(e@),
            }) == internal_return(ty@, self.cx()),
    {
        match ty {
            ResolvedType::Struct { .. } | ResolvedType::RustType { .. } | ResolvedType::Void => Ok(
                None,
            ),
            _ => match self.facts.resolved_to_llvm(ty) {
                Err(e) => Err(e),
                Ok(t) => Ok(Some(t)),
            },
        }
    }

    fn lower_internal_call(&mut self, k: &TypedExprKind, ty: &ResolvedType) -> (r: Result<
        Lowered,
        LowerStop,
    >)
        requires
            k is FnCall,
        ensures
            final(self).cx() == old(self).cx(),
            ended(
                lower_internal_call(k.model(), ty@, old(self).cx(), old(self).code()),
                lowered(r),
                final(self).code(),
            ),
        decreases k, 0int,
    {
        match k {
            TypedExprKind::FnCall { name, type_args, args } => {
                let symbol = compute_internal_symbol_from_type_args(name, type_args);
                let types = match self.arg_types(args) {
                    Err(x) => {
                        return Err(x);
                    },
                    Ok(types) => types,
                };
                let ret = match self.internal_return(ty) {
                    Err(x) => {
                        return Err(x);
                    },
                    Ok(ret) => ret,
                };
                let decl = make_internal_decl(&symbol, types, ty, ret);
                self.declare(decl);
                if is_internal_sret(ty) {
                    let t = match self.facts.resolved_to_llvm(ty) {
                        Err(x) => {
                            return Err(x);
                        },
                        Ok(t) => t,
                    };
                    let room = clone_type(&t);
                    let ptr = self.emit(Inst::Alloca { ty: room, align: None });
                    let mut ops = one_operand(ptr);
                    match self.lower_values(args) {
                        Err(x) => Err(x),
                        Ok(more) => {
                            append_operands(&mut ops, more);
                            let _ = self.emit(Inst::Call { symbol, args: ops });
                            Ok(Lowered::Ptr(ptr, t))
                        },
                    }
                } else {
                    match self.lower_values(args) {
                        Err(x) => Err(x),
                        Ok(ops) => {
                            let found = match lookup_decl(&self.decls, &symbol) {
                                None => None,
                                Some(d) => clone_opt_type(&d.ret),
                            };
                            let v = self.emit(Inst::Call { symbol, args: ops });
                            match found {
                                None => Ok(lowered_nothing()),
                                Some(t) => Ok(Lowered::Value(v, t)),
                            }
                        },
                    }
                }
            },
            _ => Err(LowerStop::Operands),
        }
    }

    fn lower_static_call(&mut self, k: &TypedExprKind, ty: &ResolvedType) -> (r: Result<
        Lowered,
        LowerStop,
    >)
        requires
            k is StaticCall,
        ensures
            final(self).cx() == old(self).cx(),
            ended(
                lower_static_call(k.model(), ty@, old(self).cx(), old(self).code()),
                lowered(r),
                final(self).code(),
            ),
        decreases k, 0int,
    {
        match k {
            TypedExprKind::StaticCall { ty: owner, method, type_args, args } => {
                let ghost all = typed_expr_views(args@);
                let d = RustMethodDep {
                    owner: owner.clone(),
                    method_name: method.clone(),
                    type_args: clone_resolved_types(type_args),
                    receiver_ty: if args.len() == 0 {
                        None
                    } else {
                        assert(all[0] == args@[0].model());
                        Some(args[0].ty.duplicate())
                    },
                };
                let abi = match self.get_or_resolve_rust_method(&d) {
                    Err(x) => {
                        return Err(x);
                    },
                    Ok(abi) => abi,
                };
                let by_trait = if args.len() == 0 {
                    false
                } else {
                    match self.answers.is_rust_trait(owner) {
                        Ok(b) => b,
                        Err(_) => false,
                    }
                };
                if by_trait {
                    assert(all[0] == args@[0].model());
                    assert(all.skip(1) =~= all.drop_first());
                    let l = match self.lower_typed_expr(&args[0]) {
                        Err(x) => {
                            return Err(x);
                        },
                        Ok(l) => l,
                    };
                    let (ptr, ptr_ty) = match self.receiver_ptr(l, &args[0].ty) {
                        Err(x) => {
                            return Err(x);
                        },
                        Ok(p) => p,
                    };
                    let mut ops = match self.return_room(&abi.ret, ty) {
                        Err(x) => {
                            return Err(x);
                        },
                        Ok(room) => room,
                    };
                    let first = match self.push_receiver(&args[0], ptr, &ptr_ty, abi) {
                        Err(x) => {
                            return Err(x);
                        },
                        Ok(first) => first,
                    };
                    assert(abi@.params.skip(1) =~= abi@.params.drop_first());
                    append_operands(&mut ops, first);
                    match self.push_args(args, 1, &abi.params, 1, &abi.symbol) {
                        Err(x) => Err(x),
                        Ok(more) => {
                            append_operands(&mut ops, more);
                            self.finish_method_call(abi, ops, ty)
                        },
                    }
                } else {
                    let mut ops = match self.return_room(&abi.ret, ty) {
                        Err(x) => {
                            return Err(x);
                        },
                        Ok(room) => room,
                    };
                    assert(all.skip(0) =~= all);
                    assert(abi@.params.skip(0) =~= abi@.params);
                    match self.push_args(args, 0, &abi.params, 0, &abi.symbol) {
                        Err(x) => Err(x),
                        Ok(more) => {
                            append_operands(&mut ops, more);
                            self.finish_method_call(abi, ops, ty)
                        },
                    }
                }
            },
            _ => Err(LowerStop::Operands),
        }
    }

    fn lower_method_call(&mut self, k: &TypedExprKind, ty: &ResolvedType) -> (r: Result<
        Lowered,
        LowerStop,
    >)
        requires
            k is MethodCall,
        ensures
            final(self).cx() == old(self).cx(),
            ended(
                lower_method_call(k.model(), ty@, old(self).cx(), old(self).code()),
                lowered(r),
                final(self).code(),
            ),
        decreases k, 0int,
    {
        reveal_with_fuel(ResolvedType::model, 2);
        match k {
            TypedExprKind::MethodCall { receiver, method, args } => {
                let l = match self.lower_typed_expr(receiver) {
                    Err(x) => {
                        return Err(x);
                    },
                    Ok(l) => l,
                };
                let (ptr, ptr_ty) = match self.receiver_ptr(l, &receiver.ty) {
                    Err(x) => {
                        return Err(x);
                    },
                    Ok(p) => p,
                };
                let (owner, type_args) = match &receiver.ty {
                    ResolvedType::RustType { name, type_args } => (name, type_args),
                    ResolvedType::Ref { inner } => match &**inner {
                        ResolvedType::RustType { name, type_args } => (name, type_args),
                        _ => {
                            return Err(LowerStop::Receiver);
                        },
                    },
                    _ => {
                        return Err(LowerStop::Receiver);
                    },
                };
                let d = RustMethodDep {
                    owner: owner.clone(),
                    method_name: method.clone(),
                    type_args: clone_resolved_types(type_args),
                    receiver_ty: None,
                };
                let abi = match self.get_or_resolve_rust_method(&d) {
                    Err(x) => {
                        return Err(x);
                    },
                    Ok(abi) => abi,
                };
                let mut ops = match self.return_room(&abi.ret, ty) {
                    Err(x) => {
                        return Err(x);
                    },
                    Ok(room) => room,
                };
                let first = match self.push_receiver(receiver, ptr, &ptr_ty, abi) {
                    Err(x) => {
                        return Err(x);
                    },
                    Ok(first) => first,
                };
                assert(abi@.params.skip(1) =~= abi@.params.drop_first());
                assert(typed_expr_views(args@).skip(0) =~= typed_expr_views(args@));
                append_operands(&mut ops, first);
                match self.push_args(args, 0, &abi.params, 1, &abi.symbol) {
                    Err(x) => Err(x),
                    Ok(more) => {
                        append_operands(&mut ops, more);
                        self.finish_method_call(abi, ops, ty)
                    },
                }
            },
            _ => Err(LowerStop::Operands),
        }
    }

    fn lower_field_access(&mut self, k: &TypedExprKind, ty: &ResolvedType) -> (r: Result<
        Lowered,
        LowerStop,
    >)
        requires
            k is FieldAccess,
        ensures
            final(self).cx() == old(self).cx(),
            ended(
                lower_field_access(k.model(), ty@, old(self).cx(), old(self).code()),
                lowered(r),
                final(self).code(),
            ),
        decreases k, 0int,
    {
        match k {
            TypedExprKind::FieldAccess { receiver, field } => {
                let l = match self.lower_typed_expr(receiver) {
                    Err(x) => {
                        return Err(x);
                    },
                    Ok(l) => l,
                };
                let ptr = match self.field_place(l, &receiver.ty, field) {
                    Err(x) => {
                        return Err(x);
                    },
                    Ok(p) => p,
                };
                match self.facts.resolved_to_llvm(ty) {
                    Err(x) => Err(x),
                    Ok(t) => if is_internal_sret(ty) {
                        Ok(Lowered::Ptr(ptr, t))
                    } else {
                        let loaded = clone_type(&t);
                        let v = self.emit(Inst::Load { ty: loaded, ptr });
                        Ok(Lowered::Value(v, t))
                    },
                }
            },
            _ => Err(LowerStop::Operands),
        }
    }

    fn lower_ref(&mut self, k: &TypedExprKind) -> (r: Result<Lowered, LowerStop>)
        requires
            k is Ref,
        ensures
            final(self).cx() == old(self).cx(),
            ended(
                lower_ref(k.model(), old(self).cx(), old(self).code()),
                lowered(r),
                final(self).code(),
            ),
        decreases k, 0int,
    {
        reveal_with_fuel(TypedExprKind::model, 3);
        reveal_with_fuel(TypedExpr::model, 3);
        match k {
            TypedExprKind::Ref(inner) => {
                match &inner.kind {
                    TypedExprKind::FieldAccess { receiver, field } => {
                        if has_struct_behind(&receiver.ty) {
                            let l = match self.lower_typed_expr(receiver) {
                                Err(x) => {
                                    return Err(x);
                                },
                                Ok(l) => l,
                            };
                            return match self.field_place(l, &receiver.ty, field) {
                                Err(x) => Err(x),
                                Ok(p) => Ok(Lowered::Value(p, LlvmType::Ptr)),
                            };
                        }
                    },
                    _ => {},
                }
                let l = match self.lower_typed_expr(inner) {
                    Err(x) => {
                        return Err(x);
                    },
                    Ok(l) => l,
                };
                let t = match self.facts.resolved_to_llvm(&inner.ty) {
                    Err(x) => {
                        return Err(x);
                    },
                    Ok(t) => t,
                };
                let ptr = self.ptr_of(l, &t);
                Ok(Lowered::Value(ptr, LlvmType::Ptr))
            },
            _ => Err(LowerStop::Operands),
        }
    }

    fn lower_opt(&mut self, e: &Option<Box<TypedExpr>>) -> (r: Result<
        Option<(Operand, LlvmType)>,
        LowerStop,
    >)
        ensures
            final(self).cx() == old(self).cx(),
            ended(
                lower_opt(
                    (match e {
                        Some(x) => Some(Box::new(x.model())),
                        None => None,
                    }),
                    old(self).cx(),
                    old(self).code(),
                ),
                (match r {
                    Ok(Some(p)) => Ok(Some((p.0@, p.1@))),
                    Ok(None) => Ok(None),
                    Err(e) => Err(e@),
                }),
                final(self).code(),
            ),
        decreases e, 0int,
    {
        match e {
            None => Ok(None),
            Some(x) => match self.lower_typed_expr(x) {
                Err(stop) => Err(stop),
                Ok(l) => {
                    let p = self.value_of(l);
                    Ok(Some(p))
                },
            },
        }
    }

    fn lower_if(&mut self, k: &TypedExprKind) -> (r: Result<Lowered, LowerStop>)
        requires
            k is If,
        ensures
            final(self).cx() == old(self).cx(),
            ended(
                lower_if(k.model(), old(self).cx(), old(self).code()),
                lowered(r),
                final(self).code(),
            ),
        decreases k, 0int,
    {
        match k {
            TypedExprKind::If { cond, then_stmts, then_expr, else_stmts, else_expr } => {
                let c = match self.lower_typed_expr(cond) {
                    Err(x) => {
                        return Err(x);
                    },
                    Ok(c) => c,
                };
                let (cond_value, cond_ty) = self.value_of(c);
                if !int_type(&cond_ty) {
                    return Err(LowerStop::Condition);
                }
                let saved = self.vars.duplicate();
                let then_block = self.append_block();
                let else_block = self.append_block();
                let merge_block = self.append_block();
                let other = if else_stmts.len() == 0 && else_expr.is_none() {
                    merge_block
                } else {
                    else_block
                };
                let _ = self.emit(
                    Inst::Branch { cond: cond_value, then_block, else_block: other },
                );
                self.enter(then_block);
                match self.lower_typed_stmts(then_stmts) {
                    Err(x) => {
                        return Err(x);
                    },
                    Ok(_) => {},
                }
                let then_value = match self.lower_opt(then_expr) {
                    Err(x) => {
                        return Err(x);
                    },
                    Ok(v) => v,
                };
                let then_end = self.block;
                let _ = self.emit(Inst::Jump { block: merge_block });
                self.enter(else_block);
                self.vars = saved.duplicate();
                match self.lower_typed_stmts(else_stmts) {
                    Err(x) => {
                        return Err(x);
                    },
                    Ok(_) => {},
                }
                let else_value = match self.lower_opt(else_expr) {
                    Err(x) => {
                        return Err(x);
                    },
                    Ok(v) => v,
                };
                let else_end = self.block;
                let _ = self.emit(Inst::Jump { block: merge_block });
                self.enter(merge_block);
                self.vars = saved;
                match (then_value, else_value) {
                    (Some((a, t)), Some((b, _))) => {
                        let ty = clone_type(&t);
                        let v = self.emit(
                            Inst::Phi {
                                ty,
                                first: a,
                                first_block: then_end,
                                second: b,
                                second_block: else_end,
                            },
                        );
                        Ok(Lowered::Value(v, t))
                    },
                    _ => Ok(lowered_nothing()),
                }
            },
            _ => Err(LowerStop::Operands),
        }
    }

    /// Lowers some statements.
    pub fn lower_typed_stmts(&mut self, stmts: &Vec<TypedStmt>) -> (r: Result<(), LowerStop>)
        ensures
            final(self).cx() == old(self).cx(),
            ended_code(
                lower_stmts(typed_stmt_views(stmts@), old(self).cx(), old(self).code()),
                r,
                final(self).code(),
            ),
        decreases stmts, 0int,
    {
        let ghost all = typed_stmt_views(stmts@);
        let ghost cx = self.cx();
        let ghost whole = lower_stmts(all, cx, self.code());
        let mut i: usize = 0;
        assert(all.skip(0) =~= all);
        while i < stmts.len()
            invariant
                i <= stmts@.len(),
                all == typed_stmt_views(stmts@),
                cx == self.cx(),
                cx == old(self).cx(),
                whole == lower_stmts(all, cx, old(self).code()),
                whole == lower_stmts(all.skip(i as int), cx, self.code()),
            decreases stmts@.len() - i,
        {
            assert(all.skip(i as int).drop_first() =~= all.skip(i + 1));
            assert(all.skip(i as int)[0] == stmts@[i as int].model());
            match self.lower_typed_stmt(&stmts[i]) {
                Err(x) => {
                    return Err(x);
                },
                Ok(_) => {},
            }
            i += 1;
        }
        assert(all.skip(i as int).len() == 0);
        Ok(())
    }

    fn write_back(&mut self, before: &NameMap<Slot>)
        ensures
            final(self).cx() == old(self).cx(),
            final(self).code() == write_back(before@, old(self).code()),
    {
        let ghost all = before@;
        let ghost cx = self.cx();
        let ghost whole = write_back(all, self.code());
        let n: usize = before.len();
        let mut i: usize = 0;
        assert(all.skip(0) =~= all);
        while i < n
            invariant
                i <= n,
                n == all.len(),
                all == before@,
                cx == self.cx(),
                whole == write_back(all.skip(i as int), self.code()),
            decreases n - i,
        {
            assert(all.skip(i as int).drop_first() =~= all.skip(i + 1));
            assert(all.skip(i as int)[0] == all[i as int]);
            let slot = before.value_at(i);
            let moved: Option<Operand> = match self.vars.get(before.key_at(i)) {
                None => None,
                Some(new) => if same_operand(new.ptr, slot.ptr) {
                    None
                } else {
                    Some(new.ptr)
                },
            };
            match moved {
                None => {},
                Some(ptr) => {
                    let ty = clone_type(&slot.ty);
                    let value = self.emit(Inst::Load { ty, ptr });
                    let _ = self.emit(Inst::Store { ptr: slot.ptr, value });
                },
            }
            i += 1;
        }
        assert(all.skip(i as int).len() == 0);
    }

    /// Lowers a statement.
    pub fn lower_typed_stmt(&mut self, stmt: &TypedStmt) -> (r: Result<(), LowerStop>)
        ensures
            final(self).cx() == old(self).cx(),
            ended_code(
                lower_stmt(stmt.model(), old(self).cx(), old(self).code()),
                r,
                final(self).code(),
            ),
        decreases stmt, 1int,
    {
        match stmt {
            TypedStmt::Let { name, expr } => match self.lower_typed_expr(expr) {
                Err(x) => Err(x),
                Ok(Lowered::Ptr(ptr, ty)) => {
                    self.vars.insert(name.clone(), Slot { ptr, ty });
                    Ok(())
                },
                Ok(Lowered::Value(value, ty)) => {
                    let room = clone_type(&ty);
                    let ptr = self.emit(Inst::Alloca { ty: room, align: None });
                    let _ = self.emit(Inst::Store { ptr, value });
                    self.vars.insert(name.clone(), Slot { ptr, ty });
                    Ok(())
                },
            },
            TypedStmt::ExprStmt(expr) => match self.lower_typed_expr(expr) {
                Err(x) => Err(x),
                Ok(_) => Ok(()),
            },
            TypedStmt::Assign { name, expr } => {
                let ptr = match self.vars.get(name) {
                    None => {
                        return Err(LowerStop::VariableNotInScope { name: name.clone() });
                    },
                    Some(slot) => slot.ptr,
                };
                match self.lower_typed_expr(expr) {
                    Err(x) => Err(x),
                    Ok(l) => {
                        let (value, _) = self.value_of(l);
                        let _ = self.emit(Inst::Store { ptr, value });
                        Ok(())
                    },
                }
            },
            TypedStmt::While { .. } => self.lower_while(stmt),
        }
    }

    fn lower_while(&mut self, stmt: &TypedStmt) -> (r: Result<(), LowerStop>)
        requires
            stmt is While,
        ensures
            final(self).cx() == old(self).cx(),
            ended_code(
                lower_while(stmt.model(), old(self).cx(), old(self).code()),
                r,
                final(self).code(),
            ),
        decreases stmt, 0int,
    {
        match stmt {
            TypedStmt::While { cond, body } => {
                let before = self.vars.duplicate();
                let header_block = self.append_block();
                let body_block = self.append_block();
                let exit_block = self.append_block();
                let _ = self.emit(Inst::Jump { block: header_block });
                self.enter(header_block);
                let c = match self.lower_typed_expr(cond) {
                    Err(x) => {
                        return Err(x);
                    },
                    Ok(c) => c,
                };
                let (cond_value, cond_ty) = self.value_of(c);
                if !int_type(&cond_ty) {
                    return Err(LowerStop::Condition);
                }
                let _ = self.emit(
                    Inst::Branch {
                        cond: cond_value,
                        then_block: body_block,
                        else_block: exit_block,
                    },
                );
                self.enter(body_block);
                match self.lower_typed_block(body) {
                    Err(x) => {
                        return Err(x);
                    },
                    Ok(_) => {},
                }
                self.write_back(&before);
                let _ = self.emit(Inst::Jump { block: header_block });
                self.enter(exit_block);
                self.vars = before;
                Ok(())
            },
            _ => Err(LowerStop::Operands),
        }
    }

    /// Lowers a block: its statements, and then the expression at its end.
    pub fn lower_typed_block(&mut self, b: &TypedBlock) -> (r: Result<Option<Lowered>, LowerStop>)
        ensures
            final(self).cx() == old(self).cx(),
            ended(
                lower_block(b.model(), old(self).cx(), old(self).code()),
                (match r {
                    Ok(Some(l)) => Ok(Some(l@)),
                    Ok(None) => Ok(None),
                    Err(e) => Err(e@),
                }),
                final(self).code(),
            ),
        decreases b, 0int,
    {
        match self.lower_typed_stmts(&b.stmts) {
            Err(x) => {
                return Err(x);
            },
            Ok(_) => {},
        }
        match &b.ret {
            None => Ok(None),
            Some(e) => match self.lower_typed_expr(e) {
                Err(x) => Err(x),
                Ok(l) => Ok(Some(l)),
            },
        }
    }

    /// Gives each parameter of a function a place of its own. The LLVM
    /// parameters start at `at`.
    pub fn bind_fn_params(
        &mut self,
        ps: &Vec<ToyParam>,
        at: usize,
        types: &Vec<LlvmType>,
        symbol: &String,
    ) -> (r: Result<(), LowerStop>)
        requires
            at <= 1,
        ensures
            final(self).cx() == old(self).cx(),
            ended_code(
                bind_params(
                    views(ps@),
                    at as nat,
                    type_views(types@),
                    symbol@,
                    old(self).code(),
                ),
                r,
                final(self).code(),
            ),
    {
        let ghost all = views(ps@);
        let ghost tys = type_views(types@);
        let ghost cx = self.cx();
        let ghost whole = bind_params(all, at as nat, tys, symbol@, self.code());
        let mut i: usize = 0;
        let mut k: usize = at;
        assert(all.skip(0) =~= all);
        while i < ps.len()
            invariant
                i <= ps@.len(),
                all == views(ps@),
                tys == type_views(types@),
                cx == self.cx(),
                cx == old(self).cx(),
                k == at + i,
                i > 0 ==> k <= types@.len(),
                i == 0 ==> k <= 1,
                whole == bind_params(all, at as nat, tys, symbol@, old(self).code()),
                whole == bind_params(all.skip(i as int), k as nat, tys, symbol@, self.code()),
            decreases ps@.len() - i,
        {
            assert(all.skip(i as int).drop_first() =~= all.skip(i + 1));
            assert(all.skip(i as int)[0] == ps@[i as int]@);
            if k >= types.len() {
                return Err(LowerStop::ParamMismatch { symbol: symbol.clone() });
            }
            let ty = clone_type(&types[k]);
            let room = clone_type(&ty);
            let ptr = self.emit(Inst::Alloca { ty: room, align: None });
            let _ = self.emit(Inst::Store { ptr, value: Operand::Param(k) });
            self.vars.insert(ps[i].name.clone(), Slot { ptr, ty });
            i += 1;
            k += 1;
        }
        assert(all.skip(i as int).len() == 0);
        Ok(())
    }

    /// Returns what a body ends in.
    pub fn return_from(&mut self, result: Option<Lowered>, ty: &ResolvedType) -> (r: Result<
        (),
        LowerStop,
    >)
        ensures
            final(self).cx() == old(self).cx(),
            ended_code(
                return_result(
                    (match result {
                        Some(l) => Some(l@),
                        None => None,
                    }),
                    ty@,
                    old(self).cx(),
                    old(self).code(),
                ),
                r,
                final(self).code(),
            ),
    {
        match result {
            None => {
                let _ = self.emit(Inst::Return { value: None });
                Ok(())
            },
            Some(l) => if is_internal_sret(ty) {
                match self.facts.resolved_to_llvm(ty) {
                    Err(e) => Err(e),
                    Ok(t) => {
                        let source = self.ptr_of(l, &t);
                        let align: u32 = self.facts.pointer_align;
                        let _ = self.emit(
                            Inst::Copy {
                                dest: Operand::Param(0),
                                source,
                                align,
                                extent: Extent::SizeOf(t),
                            },
                        );
                        let _ = self.emit(Inst::Return { value: None });
                        Ok(())
                    },
                }
            } else {
                match ty {
                    ResolvedType::Void => {
                        let _ = self.emit(Inst::Return { value: None });
                        Ok(())
                    },
                    _ => {
                        let (v, _) = self.value_of(l);
                        let _ = self.emit(Inst::Return { value: Some(v) });
                        Ok(())
                    },
                }
            },
        }
    }

    /// Calls a function.
    pub fn emit_call(&mut self, symbol: &String, args: Vec<Operand>) -> (r: Operand)
        ensures
            final(self).cx() == old(self).cx(),
            r@ == next(old(self).code()),
            final(self).code() == emit(
                old(self).code(),
                InstView::Call { symbol: symbol@, args: views(args@) },
            ),
    {
        self.emit(Inst::Call { symbol: symbol.clone(), args })
    }

    /// Where the function that a wrapper calls puts what it returns.
    pub fn wrapper_room(&mut self, ret: &ResolvedType, abi: &AbiReturn) -> (r: Result<
        Option<Operand>,
        LowerStop,
    >)
        ensures
            final(self).cx() == old(self).cx(),
            ended(
                wrapper_room(ret@, abi@, old(self).cx(), old(self).code()),
                (match r {
                    Ok(Some(v)) => Ok(Some(v@)),
                    Ok(None) => Ok(None),
                    Err(e) => Err(e@),
                }),
                final(self).code(),
            ),
    {
        if !is_internal_sret(ret) {
            return Ok(None);
        }
        match abi {
            AbiReturn::Indirect => Ok(Some(Operand::Param(0))),
            _ => match self.facts.resolved_to_llvm(ret) {
                Err(e) => Err(e),
                Ok(t) => {
                    let ptr = self.emit(Inst::Alloca { ty: t, align: None });
                    Ok(Some(ptr))
                },
            },
        }
    }

    fn forward_param(
        &mut self,
        p: &AbiParam,
        internal: &LlvmType,
        at: usize,
        count: usize,
        symbol: &String,
    ) -> (r: Result<(Option<Operand>, usize), LowerStop>)
        ensures
            final(self).cx() == old(self).cx(),
            match forward_param(
                p@,
                internal@,
                at as nat,
                count as nat,
                symbol@,
                old(self).code(),
            ) {
                Ok((v, taken, s)) => {
                    &&& r is Ok
                    &&& r->Ok_0.1 == taken
                    &&& (match r->Ok_0.0 {
                        Some(x) => Some(x@),
                        None => None,
                    }) == v
                    &&& final(self).code() == s
                    &&& taken == 0 || at + taken <= count
                },
                Err(e) => r is Err && r->Err_0@ == e,
            },
    {
        match p {
            AbiParam::Ignore => Ok((None, 0)),
            AbiParam::Direct(t) => {
                if at >= count {
                    return Err(LowerStop::ParamMismatch { symbol: symbol.clone() });
                }
                if same_type(t, internal) {
                    return Ok((Some(Operand::Param(at)), 1));
                }
                let room = clone_type(t);
                let ptr = self.emit(Inst::Alloca { ty: room, align: None });
                let _ = self.emit(Inst::Store { ptr, value: Operand::Param(at) });
                let ty = clone_type(internal);
                let v = self.emit(Inst::Load { ty, ptr });
                Ok((Some(v), 1))
            },
            AbiParam::Pair(a, b) => {
                if at >= count || count - at < 2 || !same_type(internal, &pair_type(a, b)) {
                    return Err(LowerStop::ParamMismatch { symbol: symbol.clone() });
                }
                let first_ty = clone_type(a);
                let second_ty = clone_type(b);
                let v = self.emit(
                    Inst::Pair {
                        first_ty,
                        second_ty,
                        first: Operand::Param(at),
                        second: Operand::Param(at + 1),
                    },
                );
                Ok((Some(v), 2))
            },
            AbiParam::Indirect => {
                if at >= count {
                    return Err(LowerStop::ParamMismatch { symbol: symbol.clone() });
                }
                let ty = clone_type(internal);
                let v = self.emit(Inst::Load { ty, ptr: Operand::Param(at) });
                Ok((Some(v), 1))
            },
        }
    }

    /// What a wrapper hands on for its parameters, and the LLVM parameter
    /// behind the last that it takes.
    pub fn forward_params(
        &mut self,
        ps: &Vec<AbiParam>,
        internal: &Vec<LlvmType>,
        at: usize,
        count: usize,
        symbol: &String,
    ) -> (r: Result<(Vec<Operand>, usize), LowerStop>)
        requires
            at <= 1,
        ensures
            final(self).cx() == old(self).cx(),
            match forward_params(
                views(ps@),
                type_views(internal@),
                at as nat,
                count as nat,
                symbol@,
                old(self).code(),
            ) {
                Ok((ops, end, s)) => r is Ok && views(r->Ok_0.0@) == ops && r->Ok_0.1 == end
                    && final(self).code() == s,
                Err(e) => r is Err && r->Err_0@ == e,
            },
    {
        let ghost all = views(ps@);
        let ghost tys = type_views(internal@);
        let ghost cx = self.cx();
        let ghost n = count as nat;
        let ghost whole = forward_params(all, tys, at as nat, n, symbol@, self.code());
        let mut out: Vec<Operand> = Vec::new();
        let mut i: usize = 0;
        let mut k: usize = at;
        assert(all.skip(0) =~= all);
        assert(tys.skip(0) =~= tys);
        assert(views(out@) =~= Seq::empty());
        assert(whole is Ok ==> views(out@) + whole->Ok_0.0 =~= whole->Ok_0.0);
        while i < ps.len()
            invariant
                i <= ps@.len(),
                i <= internal@.len(),
                all == views(ps@),
                tys == type_views(internal@),
                cx == self.cx(),
                cx == old(self).cx(),
                n == count,
                k <= 1 || k <= count,
                whole == forward_params(all, tys, at as nat, n, symbol@, old(self).code()),
                whole == (match forward_params(
                    all.skip(i as int),
                    tys.skip(i as int),
                    k as nat,
                    n,
                    symbol@,
                    self.code(),
                ) {
                    Ok((rest, end, s)) => Ok((views(out@) + rest, end, s)),
                    Err(e) => Err(e),
                }),
            decreases ps@.len() - i,
        {
            let ghost done = views(out@);
            assert(all.skip(i as int).drop_first() =~= all.skip(i + 1));
            assert(all.skip(i as int)[0] == ps@[i as int]@);
            if i >= internal.len() {
                return Err(LowerStop::ParamMismatch { symbol: symbol.clone() });
            }
            assert(tys.skip(i as int).drop_first() =~= tys.skip(i + 1));
            assert(tys.skip(i as int)[0] == internal@[i as int].model());
            let (first, taken) = match self.forward_param(
                &ps[i],
                &internal[i],
                k,
                count,
                symbol,
            ) {
                Err(e) => {
                    return Err(e);
                },
                Ok(p) => p,
            };
            match first {
                Some(v) => {
                    push_operand(&mut out, v);
                    assert(forall|rest: Seq<OperandView>|
                        #[trigger] (views(out@) + rest) =~= done + (seq![v@] + rest));
                },
                None => {},
            }
            i += 1;
            k += taken;
        }
        assert(all.skip(i as int).len() == 0);
        assert(views(out@) + Seq::<OperandView>::empty() =~= views(out@));
        Ok((out, k))
    }

    fn return_reread(&mut self, source: Operand, from: &LlvmType, to: &LlvmType) -> (r: Result<
        (),
        LowerStop,
    >)
        ensures
            final(self).cx() == old(self).cx(),
            ended_code(
                return_reread(source@, from@, to@, old(self).cx(), old(self).code()),
                r,
                final(self).code(),
            ),
    {
        let align: u32 = self.facts.pointer_align;
        let from_size: u64 = match static_size_bytes(from, align as u64) {
            None => {
                return Err(LowerStop::SizeUnknown);
            },
            Some(n) => n,
        };
        let to_size: u64 = match static_size_bytes(to, align as u64) {
            None => {
                return Err(LowerStop::SizeUnknown);
            },
            Some(n) => n,
        };
        let room = clone_type(to);
        let dest = self.emit(Inst::Alloca { ty: room, align: None });
        let count: u64 = if from_size <= to_size {
            from_size
        } else {
            to_size
        };
        let _ = self.emit(Inst::Copy { dest, source, align, extent: Extent::Bytes(count) });
        let ty = clone_type(to);
        let v = self.emit(Inst::Load { ty, ptr: dest });
        let _ = self.emit(Inst::Return { value: Some(v) });
        Ok(())
    }

    /// Returns from a wrapper what the function that it called gave.
    pub fn wrapper_result(
        &mut self,
        call: Operand,
        room: Option<Operand>,
        ret: &ResolvedType,
        abi: &AbiReturn,
        direct: Option<LlvmType>,
        internal: &Decl,
        symbol: &String,
    ) -> (r: Result<(), LowerStop>)
        ensures
            final(self).cx() == old(self).cx(),
            ended_code(
                wrapper_result(
                    call@,
                    (match room {
                        Some(v) => Some(v@),
                        None => None,
                    }),
                    ret@,
                    abi@,
                    opt_type(direct),
                    internal@,
                    symbol@,
                    old(self).cx(),
                    old(self).code(),
                ),
                r,
                final(self).code(),
            ),
    {
        let nothing = match (ret, abi) {
            (ResolvedType::Void, _) => true,
            (_, AbiReturn::Indirect) => true,
            _ => false,
        };
        if nothing {
            let _ = self.emit(Inst::Return { value: None });
            return Ok(());
        }
        if is_internal_sret(ret) {
            return match (direct, room) {
                (Some(to), Some(source)) => match self.facts.resolved_to_llvm(ret) {
                    Err(e) => Err(e),
                    Ok(from) => self.return_reread(source, &from, &to),
                },
                _ => Err(LowerStop::NoReturn { symbol: symbol.clone() }),
            };
        }
        match &internal.ret {
            None => {
                let _ = self.emit(Inst::Return { value: None });
                Ok(())
            },
            Some(t) => match direct {
                None => Err(LowerStop::NoReturn { symbol: symbol.clone() }),
                Some(to) => {
                    let v = self.coerce_int_to_type(call, t, &to);
                    let _ = self.emit(Inst::Return { value: Some(v) });
                    Ok(())
                },
            },
        }
    }
}

fn has_struct_behind(t: &ResolvedType) -> (r: bool)
    ensures
        r == (struct_behind(t@) is Some),
{
    reveal_with_fuel(ResolvedType::model, 2);
    match t {
        ResolvedType::Struct { .. } => true,
        ResolvedType::Ref { inner } => match &**inner {
            ResolvedType::Struct { .. } => true,
            _ => false,
        },
        _ => false,
    }
}

/// The declaration by which toylang calls one of its own functions.
pub fn make_internal_decl(
    symbol: &String,
    args: Vec<LlvmType>,
    ty: &ResolvedType,
    ret: Option<LlvmType>,
) -> (r: Decl)
    ensures
        r@ == internal_decl(symbol@, type_views(args@), ty@, opt_type(ret)),
{
    let ghost wanted = type_views(args@);
    let params = if is_internal_sret(ty) {
        let mut params: Vec<LlvmType> = Vec::new();
        params.push(LlvmType::Ptr);
        let mut rest = args;
        params.append(&mut rest);
        assert(type_views(params@) =~= seq![LlvmTypeView::Ptr] + wanted);
        params
    } else {
        args
    };
    Decl { symbol: symbol.clone(), params, ret, sret: None }
}

} // verus!
