//! The instructions of a function under construction.
//!
//! The result of an instruction is named by the position of the instruction,
//! and so is a basic block: by the position of the instruction that appends
//! it. Instructions go to the end of the block that was entered last.
use crate::llvm_gen::types::{clone_type, clone_types, type_views, LlvmType, LlvmTypeView};
use crate::text::{same_text, views, Duplicate};
use crate::toylang::ast::BinOp;
use vstd::prelude::*;

verus! {

broadcast use {vstd::seq::group_seq_axioms, vstd::std_specs::vec::group_vec_axioms};

/// What an instruction works on.
#[derive(Clone, Copy, Debug, PartialEq)]
pub enum Operand {
    /// The result of an instruction.
    Reg(usize),
    /// A parameter of the function.
    Param(usize),
    /// An integer.
    Int { bits: u32, value: i64 },
    /// The null pointer.
    Null,
}

/// What an [`Operand`] says.
pub enum OperandView {
    Reg(nat),
    Param(nat),
    Int { bits: u32, value: i64 },
    Null,
}

impl View for Operand {
    type V = OperandView;

    open spec fn view(&self) -> OperandView {
        match self {
            Operand::Reg(i) => OperandView::Reg(*i as nat),
            Operand::Param(i) => OperandView::Param(*i as nat),
            Operand::Int { bits, value } => OperandView::Int { bits: *bits, value: *value },
            Operand::Null => OperandView::Null,
        }
    }
}

/// Whether two operands are the same.
pub fn same_operand(a: Operand, b: Operand) -> (r: bool)
    ensures
        r == (a@ == b@),
{
    match (a, b) {
        (Operand::Reg(i), Operand::Reg(j)) => i == j,
        (Operand::Param(i), Operand::Param(j)) => i == j,
        (Operand::Int { bits: x, value: v }, Operand::Int { bits: y, value: w }) => x == y && v
            == w,
        (Operand::Null, Operand::Null) => true,
        _ => false,
    }
}

/// How many bytes are copied.
#[derive(Debug, PartialEq)]
pub enum Extent {
    /// The size of a type, as LLVM has it.
    SizeOf(LlvmType),
    Bytes(u64),
}

/// What an [`Extent`] says.
pub enum ExtentView {
    SizeOf(LlvmTypeView),
    Bytes(u64),
}

impl View for Extent {
    type V = ExtentView;

    open spec fn view(&self) -> ExtentView {
        match self {
            Extent::SizeOf(t) => ExtentView::SizeOf(t@),
            Extent::Bytes(n) => ExtentView::Bytes(*n),
        }
    }
}

/// An instruction.
#[derive(Debug, PartialEq)]
pub enum Inst {
    /// Room on the stack, by a pointer.
    Alloca { ty: LlvmType, align: Option<u32> },
    Load { ty: LlvmType, ptr: Operand },
    Store { ptr: Operand, value: Operand },
    /// A pointer to a field of a struct.
    FieldPtr { ty: LlvmType, ptr: Operand, field: usize },
    /// A constant of some bytes, by a pointer to the first.
    Bytes { bytes: Vec<u8> },
    /// A struct of two values.
    Pair { first_ty: LlvmType, second_ty: LlvmType, first: Operand, second: Operand },
    /// A field of a struct.
    Extract { value: Operand, field: usize },
    /// An operator on integers. Division and order are signed.
    IntOp { op: BinOp, left: Operand, right: Operand },
    /// An operator on floats.
    FloatOp { op: BinOp, left: Operand, right: Operand },
    Truncate { value: Operand, bits: u32 },
    SignExtend { value: Operand, bits: u32 },
    /// Copies bytes.
    Copy { dest: Operand, source: Operand, align: u32, extent: Extent },
    Call { symbol: String, args: Vec<Operand> },
    /// Appends a basic block.
    Block,
    /// Goes on in a basic block.
    Enter { block: usize },
    Jump { block: usize },
    Branch { cond: Operand, then_block: usize, else_block: usize },
    /// The value that belongs to the block through which control came.
    Phi { ty: LlvmType, first: Operand, first_block: usize, second: Operand, second_block: usize },
    Return { value: Option<Operand> },
}

/// What an [`Inst`] says.
pub enum InstView {
    Alloca { ty: LlvmTypeView, align: Option<u32> },
    Load { ty: LlvmTypeView, ptr: OperandView },
    Store { ptr: OperandView, value: OperandView },
    FieldPtr { ty: LlvmTypeView, ptr: OperandView, field: nat },
    Bytes { bytes: Seq<u8> },
    Pair {
        first_ty: LlvmTypeView,
        second_ty: LlvmTypeView,
        first: OperandView,
        second: OperandView,
    },
    Extract { value: OperandView, field: nat },
    IntOp { op: BinOp, left: OperandView, right: OperandView },
    FloatOp { op: BinOp, left: OperandView, right: OperandView },
    Truncate { value: OperandView, bits: u32 },
    SignExtend { value: OperandView, bits: u32 },
    Copy { dest: OperandView, source: OperandView, align: u32, extent: ExtentView },
    Call { symbol: Seq<char>, args: Seq<OperandView> },
    Block,
    Enter { block: nat },
    Jump { block: nat },
    Branch { cond: OperandView, then_block: nat, else_block: nat },
    Phi {
        ty: LlvmTypeView,
        first: OperandView,
        first_block: nat,
        second: OperandView,
        second_block: nat,
    },
    Return { value: Option<OperandView> },
}

impl View for Inst {
    type V = InstView;

    open spec fn view(&self) -> InstView {
        match self {
            Inst::Alloca { ty, align } => InstView::Alloca { ty: ty@, align: *align },
            Inst::Load { ty, ptr } => InstView::Load { ty: ty@, ptr: ptr@ },
            Inst::Store { ptr, value } => InstView::Store { ptr: ptr@, value: value@ },
            Inst::FieldPtr { ty, ptr, field } => InstView::FieldPtr {
                ty: ty@,
                ptr: ptr@,
                field: *field as nat,
            },
            Inst::Bytes { bytes } => InstView::Bytes { bytes: bytes@ },
            Inst::Pair { first_ty, second_ty, first, second } => InstView::Pair {
                first_ty: first_ty@,
                second_ty: second_ty@,
                first: first@,
                second: second@,
            },
            Inst::Extract { value, field } => InstView::Extract {
                value: value@,
                field: *field as nat,
            },
            Inst::IntOp { op, left, right } => InstView::IntOp {
                op: *op,
                left: left@,
                right: right@,
            },
            Inst::FloatOp { op, left, right } => InstView::FloatOp {
                op: *op,
                left: left@,
                right: right@,
            },
            Inst::Truncate { value, bits } => InstView::Truncate { value: value@, bits: *bits },
            Inst::SignExtend { value, bits } => InstView::SignExtend { value: value@, bits: *bits },
            Inst::Copy { dest, source, align, extent } => InstView::Copy {
                dest: dest@,
                source: source@,
                align: *align,
                extent: extent@,
            },
            Inst::Call { symbol, args } => InstView::Call { symbol: symbol@, args: views(args@) },
            Inst::Block => InstView::Block,
            Inst::Enter { block } => InstView::Enter { block: *block as nat },
            Inst::Jump { block } => InstView::Jump { block: *block as nat },
            Inst::Branch { cond, then_block, else_block } => InstView::Branch {
                cond: cond@,
                then_block: *then_block as nat,
                else_block: *else_block as nat,
            },
            Inst::Phi { ty, first, first_block, second, second_block } => InstView::Phi {
                ty: ty@,
                first: first@,
                first_block: *first_block as nat,
                second: second@,
                second_block: *second_block as nat,
            },
            Inst::Return { value } => InstView::Return {
                value: match value {
                    Some(v) => Some(v@),
                    None => None,
                },
            },
        }
    }
}

/// Where a variable is.
#[derive(Debug, PartialEq)]
pub struct Slot {
    pub ptr: Operand,
    pub ty: LlvmType,
}

/// What a [`Slot`] says.
pub struct SlotView {
    pub ptr: OperandView,
    pub ty: LlvmTypeView,
}

impl View for Slot {
    type V = SlotView;

    open spec fn view(&self) -> SlotView {
        SlotView { ptr: self.ptr@, ty: self.ty@ }
    }
}

impl Duplicate for Slot {
    fn duplicate(&self) -> (r: Self) {
        Slot { ptr: self.ptr, ty: clone_type(&self.ty) }
    }
}

/// A function of the LLVM module by its symbol and its type.
#[derive(Debug, PartialEq)]
pub struct Decl {
    pub symbol: String,
    pub params: Vec<LlvmType>,
    pub ret: Option<LlvmType>,
    /// What the first parameter points to, where the result goes there.
    pub sret: Option<LlvmType>,
}

/// What a [`Decl`] says.
pub struct DeclView {
    pub symbol: Seq<char>,
    pub params: Seq<LlvmTypeView>,
    pub ret: Option<LlvmTypeView>,
    pub sret: Option<LlvmTypeView>,
}

/// The view of a type that may be missing.
pub open spec fn opt_type(t: Option<LlvmType>) -> Option<LlvmTypeView> {
    match t {
        Some(x) => Some(x@),
        None => None,
    }
}

/// A copy of a type that may be missing.
pub fn clone_opt_type(t: &Option<LlvmType>) -> (r: Option<LlvmType>)
    ensures
        opt_type(r) == opt_type(*t),
{
    match t {
        Some(x) => Some(clone_type(x)),
        None => None,
    }
}

impl View for Decl {
    type V = DeclView;

    open spec fn view(&self) -> DeclView {
        DeclView {
            symbol: self.symbol@,
            params: type_views(self.params@),
            ret: opt_type(self.ret),
            sret: opt_type(self.sret),
        }
    }
}

impl Duplicate for Decl {
    fn duplicate(&self) -> (r: Self) {
        Decl {
            symbol: self.symbol.clone(),
            params: clone_types(&self.params),
            ret: clone_opt_type(&self.ret),
            sret: clone_opt_type(&self.sret),
        }
    }
}

/// The function of that symbol.
pub open spec fn find_decl(decls: Seq<DeclView>, symbol: Seq<char>) -> Option<DeclView>
    decreases decls.len(),
{
    if decls.len() == 0 {
        None
    } else if decls[0].symbol == symbol {
        Some(decls[0])
    } else {
        find_decl(decls.drop_first(), symbol)
    }
}

/// The functions after a declaration: a symbol is declared once.
pub open spec fn declare(decls: Seq<DeclView>, decl: DeclView) -> Seq<DeclView> {
    if find_decl(decls, decl.symbol) is Some {
        decls
    } else {
        decls.push(decl)
    }
}

/// A declared symbol is found. What was declared before stays as it was.
pub proof fn lemma_declared_found(decls: Seq<DeclView>, decl: DeclView, other: Seq<char>)
    ensures
        find_decl(declare(decls, decl), decl.symbol) == (match find_decl(decls, decl.symbol) {
            Some(d) => Some(d),
            None => Some(decl),
        }),
        other != decl.symbol ==> find_decl(declare(decls, decl), other) == find_decl(decls, other),
    decreases decls.len(),
{
    if find_decl(decls, decl.symbol) is None {
        if decls.len() == 0 {
            assert(decls.push(decl)[0] == decl);
            assert(decls.push(decl).drop_first() =~= Seq::empty());
            assert(find_decl(decls.push(decl).drop_first(), other) is None);
        } else {
            lemma_declared_found(decls.drop_first(), decl, other);
            assert(decls.push(decl).drop_first() =~= decls.drop_first().push(decl));
        }
    }
}

/// Finds the function of a symbol.
pub fn lookup_decl<'a>(decls: &'a Vec<Decl>, symbol: &str) -> (r: Option<&'a Decl>)
    ensures
        (match r {
            Some(d) => Some(d@),
            None => None,
        }) == find_decl(views(decls@), symbol@),
{
    let ghost all = views(decls@);
    let mut i: usize = 0;
    assert(all.skip(0) =~= all);
    while i < decls.len()
        invariant
            i <= decls@.len(),
            all == views(decls@),
            find_decl(all, symbol@) == find_decl(all.skip(i as int), symbol@),
        decreases decls@.len() - i,
    {
        assert(all.skip(i as int).drop_first() =~= all.skip(i + 1));
        assert(all.skip(i as int)[0] == decls@[i as int]@);
        if same_text(&decls[i].symbol, symbol) {
            return Some(&decls[i]);
        }
        i += 1;
    }
    None
}

/// A function under construction, in its module.
pub struct CodeView {
    pub insts: Seq<InstView>,
    /// The block that was entered last.
    pub block: nat,
    pub vars: Seq<(Seq<char>, SlotView)>,
    pub decls: Seq<DeclView>,
    /// The symbols of the Rust side that are needed.
    pub rust_symbols: Seq<Seq<char>>,
    /// The symbols of the methods that have been looked up.
    pub methods: Seq<Seq<char>>,
}

/// The code with one more instruction.
pub open spec fn emit(s: CodeView, inst: InstView) -> CodeView {
    CodeView { insts: s.insts.push(inst), ..s }
}

/// The result of the instruction that comes next.
pub open spec fn next(s: CodeView) -> OperandView {
    OperandView::Reg(s.insts.len())
}

/// The code in another block.
pub open spec fn enter(s: CodeView, block: nat) -> CodeView {
    CodeView { insts: s.insts.push(InstView::Enter { block }), block, ..s }
}

/// The result of lowering an expression: the value itself, or where it is.
pub enum Lowered {
    Value(Operand, LlvmType),
    Ptr(Operand, LlvmType),
}

/// What a [`Lowered`] says.
pub enum LoweredView {
    Value(OperandView, LlvmTypeView),
    Ptr(OperandView, LlvmTypeView),
}

impl View for Lowered {
    type V = LoweredView;

    open spec fn view(&self) -> LoweredView {
        match self {
            Lowered::Value(v, t) => LoweredView::Value(v@, t@),
            Lowered::Ptr(p, t) => LoweredView::Ptr(p@, t@),
        }
    }
}

/// The value of a result, loaded where it is in memory, and its type.
pub open spec fn to_value(l: LoweredView, s: CodeView) -> (OperandView, LlvmTypeView, CodeView) {
    match l {
        LoweredView::Value(v, ty) => (v, ty, s),
        LoweredView::Ptr(ptr, ty) => (next(s), ty, emit(s, InstView::Load { ty, ptr })),
    }
}

/// Where a result is, stored into memory of type `ty` where it is a value.
pub open spec fn to_ptr(l: LoweredView, ty: LlvmTypeView, s: CodeView) -> (OperandView, CodeView) {
    match l {
        LoweredView::Ptr(ptr, _) => (ptr, s),
        LoweredView::Value(value, _) => (
            next(s),
            emit(
                emit(s, InstView::Alloca { ty, align: None }),
                InstView::Store { ptr: next(s), value },
            ),
        ),
    }
}

} // verus!
