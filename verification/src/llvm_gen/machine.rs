//! What instructions do: a machine that runs them one by one.
//!
//! Integers are numbers without bounds. Memory is a row of cells, each of
//! which holds a whole value.
use crate::llvm_gen::code::{DeclView, InstView, OperandView};
use crate::llvm_gen::types::LlvmTypeView;
use crate::toylang::ast::BinOp;
use crate::toylang::meaning::quotient;
use crate::toylang::registry::ToyStructView;
use vstd::prelude::*;

verus! {

broadcast use vstd::seq::group_seq_axioms;

/// What registers and cells hold.
pub enum Word {
    /// What the machine does not tell apart.
    Unknown,
    Int(int),
    /// The address of a cell.
    Ptr(nat),
    /// The address of a field of the struct in a cell.
    Field(nat, nat),
    /// A struct by its fields.
    Struct(Seq<Word>),
}

/// A machine in the midst of a function.
pub struct Machine {
    /// The instruction that is next.
    pub at: nat,
    /// The block that control is in, and the one that it came from.
    pub block: nat,
    pub came: nat,
    /// What the instructions gave when they were run last.
    pub regs: Map<nat, Word>,
    pub params: Seq<Word>,
    pub memory: Seq<Word>,
    /// Whatever else functions work on.
    pub outside: int,
}

/// The code of a function in its module.
pub struct Program {
    pub insts: Seq<InstView>,
    /// The functions that the module declares.
    pub decls: Seq<DeclView>,
    /// The structs that its types stand for.
    pub structs: Seq<(Seq<char>, ToyStructView)>,
}

/// What a cell holds before anything is stored in it.
pub open spec fn blank(ty: LlvmTypeView) -> Word {
    match ty {
        LlvmTypeView::Struct { fields } => Word::Struct(
            Seq::new(fields.len(), |i: int| Word::Unknown),
        ),
        _ => Word::Unknown,
    }
}

/// What is at an address.
pub open spec fn load(memory: Seq<Word>, ptr: Word) -> Option<Word> {
    match ptr {
        Word::Ptr(a) => if a < memory.len() {
            Some(memory[a as int])
        } else {
            None
        },
        Word::Field(a, i) => if a < memory.len() {
            match memory[a as int] {
                Word::Struct(ws) => if i < ws.len() {
                    Some(ws[i as int])
                } else {
                    None
                },
                _ => None,
            }
        } else {
            None
        },
        _ => None,
    }
}

/// The memory with something else at an address.
pub open spec fn store(memory: Seq<Word>, ptr: Word, w: Word) -> Option<Seq<Word>> {
    match ptr {
        Word::Ptr(a) => if a < memory.len() {
            Some(memory.update(a as int, w))
        } else {
            None
        },
        Word::Field(a, i) => if a < memory.len() {
            match memory[a as int] {
                Word::Struct(ws) => if i < ws.len() {
                    Some(memory.update(a as int, Word::Struct(ws.update(i as int, w))))
                } else {
                    None
                },
                _ => None,
            }
        } else {
            None
        },
        _ => None,
    }
}

/// What the functions of a module do: from the arguments, the memory and the
/// outside to the result and to what these are then.
pub type Linked = spec_fn(Seq<char>, Seq<Word>, Seq<Word>, int) -> Option<(Word, Seq<Word>, int)>;

/// What an operand holds.
pub open spec fn operand(o: OperandView, m: Machine) -> Option<Word> {
    match o {
        OperandView::Reg(i) => if m.regs.dom().contains(i) {
            Some(m.regs[i])
        } else {
            None
        },
        OperandView::Param(i) => if i < m.params.len() {
            Some(m.params[i as int])
        } else {
            None
        },
        OperandView::Int { bits, value } => Some(Word::Int(value as int)),
        OperandView::Null => None,
    }
}

/// What some operands hold.
pub open spec fn operands(os: Seq<OperandView>, m: Machine) -> Option<Seq<Word>>
    decreases os.len(),
{
    if os.len() == 0 {
        Some(Seq::empty())
    } else {
        match (operand(os[0], m), operands(os.drop_first(), m)) {
            (Some(first), Some(rest)) => Some(seq![first] + rest),
            _ => None,
        }
    }
}

/// One for true, zero for false.
pub open spec fn truth(b: bool) -> int {
    if b {
        1
    } else {
        0
    }
}

/// What an operator gives on integers. Nothing is divided by zero, and logic
/// is for zero and one.
pub open spec fn int_op(op: BinOp, x: int, y: int) -> Option<int> {
    let bits = (x == 0 || x == 1) && (y == 0 || y == 1);
    match op {
        BinOp::Add => Some(x + y),
        BinOp::Sub => Some(x - y),
        BinOp::Mul => Some(x * y),
        BinOp::Div => if y == 0 {
            None
        } else {
            Some(quotient(x, y))
        },
        BinOp::Eq => Some(truth(x == y)),
        BinOp::Ne => Some(truth(x != y)),
        BinOp::Lt => Some(truth(x < y)),
        BinOp::Le => Some(truth(x <= y)),
        BinOp::Gt => Some(truth(x > y)),
        BinOp::Ge => Some(truth(x >= y)),
        BinOp::And => if bits {
            Some(truth(x == 1 && y == 1))
        } else {
            None
        },
        BinOp::Or => if bits {
            Some(truth(x == 1 || y == 1))
        } else {
            None
        },
    }
}

/// Whether a block starts behind the instruction at `i`: the first that goes
/// on in it.
pub open spec fn is_entry(code: Program, block: nat, i: nat) -> bool {
    &&& i < code.insts.len()
    &&& code.insts[i as int] == (InstView::Enter { block })
    &&& forall|j: int| 0 <= j < i ==> #[trigger] code.insts[j] != (InstView::Enter { block })
}

/// The machine at the start of a block.
pub open spec fn go(code: Program, block: nat, m: Machine) -> Option<Machine> {
    if exists|i: nat| is_entry(code, block, i) {
        let i = choose|i: nat| is_entry(code, block, i);
        Some(Machine { at: i + 1, block, came: m.block, ..m })
    } else {
        None
    }
}

/// The machine behind an instruction without a result.
pub open spec fn pass(m: Machine) -> Machine {
    Machine { at: m.at + 1, ..m }
}

/// The machine behind an instruction with a result.
pub open spec fn give(w: Word, m: Machine) -> Machine {
    Machine { at: m.at + 1, regs: m.regs.insert(m.at, w), ..m }
}

/// The machine after one instruction. The others are left without a meaning,
/// and so is what goes wrong.
pub open spec fn step(code: Program, m: Machine, l: Linked) -> Option<Machine> {
    if m.at >= code.insts.len() {
        None
    } else {
        match code.insts[m.at as int] {
            InstView::Block => Some(pass(m)),
            InstView::Alloca { ty, align } => Some(
                Machine {
                    memory: m.memory.push(blank(ty)),
                    ..give(Word::Ptr(m.memory.len()), m)
                },
            ),
            InstView::FieldPtr { ty, ptr, field } => match operand(ptr, m) {
                Some(Word::Ptr(a)) => Some(give(Word::Field(a, field), m)),
                _ => None,
            },
            InstView::Load { ty, ptr } => match operand(ptr, m) {
                Some(p) => match load(m.memory, p) {
                    Some(w) => Some(give(w, m)),
                    None => None,
                },
                None => None,
            },
            InstView::Store { ptr, value } => match (operand(ptr, m), operand(value, m)) {
                (Some(p), Some(w)) => match store(m.memory, p, w) {
                    Some(memory) => Some(Machine { memory, ..pass(m) }),
                    None => None,
                },
                _ => None,
            },
            InstView::IntOp { op, left, right } => match (operand(left, m), operand(right, m)) {
                (Some(Word::Int(x)), Some(Word::Int(y))) => match int_op(op, x, y) {
                    Some(z) => Some(give(Word::Int(z), m)),
                    None => None,
                },
                _ => None,
            },
            InstView::Jump { block } => go(code, block, m),
            InstView::Branch { cond, then_block, else_block } => match operand(cond, m) {
                Some(Word::Int(n)) => if n == 1 {
                    go(code, then_block, m)
                } else if n == 0 {
                    go(code, else_block, m)
                } else {
                    None
                },
                _ => None,
            },
            InstView::Phi { ty, first, first_block, second, second_block } => {
                let o = if m.came == first_block {
                    operand(first, m)
                } else if m.came == second_block {
                    operand(second, m)
                } else {
                    None
                };
                match o {
                    Some(w) => Some(give(w, m)),
                    None => None,
                }
            },
            InstView::Call { symbol, args } => match operands(args, m) {
                None => None,
                Some(ws) => match l(symbol, ws, m.memory, m.outside) {
                    None => None,
                    Some((w, memory, outside)) => Some(
                        Machine { memory, outside, ..give(w, m) },
                    ),
                },
            },
            _ => None,
        }
    }
}

/// The machine after `n` instructions.
pub open spec fn run(code: Program, m: Machine, n: nat, l: Linked) -> Option<Machine>
    decreases n,
{
    if n == 0 {
        Some(m)
    } else {
        match step(code, m, l) {
            None => None,
            Some(m1) => run(code, m1, (n - 1) as nat, l),
        }
    }
}

/// Whether the machine comes from one state to another.
pub open spec fn reaches(code: Program, m: Machine, m1: Machine, l: Linked) -> bool {
    exists|n: nat| run(code, m, n, l) == Some(m1)
}

/// A machine is where it is.
pub proof fn lemma_stays(code: Program, m: Machine, l: Linked)
    ensures
        reaches(code, m, m, l),
{
    assert(run(code, m, 0, l) == Some(m));
}

/// One way after another is a way.
pub proof fn lemma_onward(code: Program, a: Machine, b: Machine, c: Machine, l: Linked)
    requires
        reaches(code, a, b, l),
        reaches(code, b, c, l),
    ensures
        reaches(code, a, c, l),
{
    let n = choose|n: nat| run(code, a, n, l) == Some(b);
    let k = choose|k: nat| run(code, b, k, l) == Some(c);
    lemma_joined(code, a, b, n, k, l);
}

proof fn lemma_joined(code: Program, a: Machine, b: Machine, n: nat, k: nat, l: Linked)
    requires
        run(code, a, n, l) == Some(b),
    ensures
        run(code, a, n + k, l) == run(code, b, k, l),
    decreases n,
{
    if n > 0 {
        let a1 = step(code, a, l)->Some_0;
        lemma_joined(code, a1, b, (n - 1) as nat, k, l);
    }
}

/// One instruction further.
pub proof fn lemma_step_on(code: Program, a: Machine, b: Machine, l: Linked)
    requires
        reaches(code, a, b, l),
        step(code, b, l) is Some,
    ensures
        reaches(code, a, step(code, b, l)->Some_0, l),
{
    let c = step(code, b, l)->Some_0;
    assert(run(code, c, 0, l) == Some(c));
    assert(run(code, b, 1, l) == Some(c)) by {
        reveal_with_fuel(run, 2);
    }
    lemma_onward(code, a, b, c, l);
}

} // verus!
