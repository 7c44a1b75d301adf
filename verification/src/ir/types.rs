use vstd::prelude::*;

use crate::resolver::FunctionId;

verus! {

/// An SSA value.
#[derive(Debug, Clone, Copy, PartialEq, Eq, Hash, Structural)]
pub struct VirtualRegister(pub usize);

/// The label of a basic block; within a function it is the block's position.
#[derive(Debug, Clone, Copy, PartialEq, Eq, Hash, Structural)]
pub struct BlockId(pub usize);

/// The computation performed by one SSA instruction.
#[derive(Debug, Clone, PartialEq, Eq)]
pub enum Operation {
    ConstInt(usize),
    ConstBool(bool),
    Add(VirtualRegister, VirtualRegister),
    Sub(VirtualRegister, VirtualRegister),
    Mul(VirtualRegister, VirtualRegister),
    Eq(VirtualRegister, VirtualRegister),
    Lt(VirtualRegister, VirtualRegister),
    Leq(VirtualRegister, VirtualRegister),
    Gt(VirtualRegister, VirtualRegister),
    Geq(VirtualRegister, VirtualRegister),
    Neq(VirtualRegister, VirtualRegister),
    And(VirtualRegister, VirtualRegister),
    Or(VirtualRegister, VirtualRegister),
    Call(FunctionId, Vec<VirtualRegister>),
}

/// `dest = op`.
#[derive(Debug, Clone, PartialEq, Eq)]
pub struct Instruction {
    pub dest: VirtualRegister,
    pub op: Operation,
}

/// A basic block: parameters (in place of phi nodes), straight-line instructions, one terminator.
#[derive(Debug, Clone, PartialEq, Eq)]
pub struct TIRBlock {
    pub label: BlockId,
    pub params: Vec<VirtualRegister>,
    pub instructions: Vec<Instruction>,
    pub terminator: Terminator,
}

#[derive(Debug)]
pub struct TIRFunction {
    pub name: String,
    pub params: Vec<VirtualRegister>,
    pub blocks: Vec<TIRBlock>,
}

/// How control leaves a block.
#[derive(Debug, Clone, PartialEq, Eq)]
pub enum Terminator {
    Void,
    Exit(VirtualRegister),
    Return(VirtualRegister),
    Branch { target: BlockId, params: Vec<VirtualRegister> },
    ConditionalBranch {
        cond: VirtualRegister,
        then_target: BlockId,
        then_params: Vec<VirtualRegister>,
        else_target: BlockId,
        else_params: Vec<VirtualRegister>,
    },
}

/// An edge into a merge block that still has to be emitted.
pub struct PendingEdge {
    pub from: BlockId,
    pub params: Vec<VirtualRegister>,
}

/// The two operands of a binary operation, if `op` is one.
pub open spec fn binary_operands(op: Operation) -> Option<(VirtualRegister, VirtualRegister)> {
    match op {
        Operation::Add(a, b) | Operation::Sub(a, b) | Operation::Mul(a, b) | Operation::Eq(a, b)
        | Operation::Lt(a, b) | Operation::Leq(a, b) | Operation::Gt(a, b) | Operation::Geq(a, b)
        | Operation::Neq(a, b) | Operation::And(a, b) | Operation::Or(a, b) => Some((a, b)),
        _ => None,
    }
}

/// The registers an operation reads, in operand order.
pub open spec fn op_uses(op: Operation) -> Seq<VirtualRegister> {
    match op {
        Operation::ConstInt(_) | Operation::ConstBool(_) => Seq::empty(),
        Operation::Call(_, args) => args@,
        _ => seq![binary_operands(op).unwrap().0, binary_operands(op).unwrap().1],
    }
}

/// The registers a terminator reads: the exit or return value, or the condition followed by the
/// arguments of each edge.
pub open spec fn terminator_uses(t: Terminator) -> Seq<VirtualRegister> {
    match t {
        Terminator::Void => Seq::empty(),
        Terminator::Exit(v) | Terminator::Return(v) => seq![v],
        Terminator::Branch { params, .. } => params@,
        Terminator::ConditionalBranch { cond, then_params, else_params, .. } => seq![cond]
            + then_params@ + else_params@,
    }
}

/// The outgoing edges of a terminator with the values passed along each.
pub open spec fn terminator_edges(t: Terminator) -> Seq<(BlockId, Seq<VirtualRegister>)> {
    match t {
        Terminator::Branch { target, params } => seq![(target, params@)],
        Terminator::ConditionalBranch { then_target, then_params, else_target, else_params, .. } =>
            seq![(then_target, then_params@), (else_target, else_params@)],
        _ => Seq::empty(),
    }
}

/// The blocks control may go to next.
pub open spec fn terminator_successors(t: Terminator) -> Set<BlockId> {
    terminator_edges(t).map_values(|e: (BlockId, Seq<VirtualRegister>)| e.0).to_set()
}

// The intermediate representation as values of specifications, with sequences in place of
// vectors.

/// An operation: a call with its arguments as a sequence, any other operation as it is.
pub enum OpV {
    Plain(Operation),
    Call(FunctionId, Seq<VirtualRegister>),
}

/// `dest = op`.
pub struct InstrV {
    pub dest: VirtualRegister,
    pub op: OpV,
}

/// A terminator.
#[verifier::ext_equal]
pub enum TermV {
    Void,
    Exit(VirtualRegister),
    Return(VirtualRegister),
    Branch(BlockId, Seq<VirtualRegister>),
    CondBranch(VirtualRegister, BlockId, Seq<VirtualRegister>, BlockId, Seq<VirtualRegister>),
}

/// A basic block.
#[verifier::ext_equal]
pub struct BlockV {
    pub label: BlockId,
    pub params: Seq<VirtualRegister>,
    pub instrs: Seq<InstrV>,
    pub term: TermV,
}

/// A function of the intermediate representation.
#[verifier::ext_equal]
pub struct FunctionV {
    pub name: String,
    pub params: Seq<VirtualRegister>,
    pub blocks: Seq<BlockV>,
}

pub open spec fn op_view(op: Operation) -> OpV {
    match op {
        Operation::Call(f, args) => OpV::Call(f, args@),
        _ => OpV::Plain(op),
    }
}

pub open spec fn instr_view(i: Instruction) -> InstrV {
    InstrV { dest: i.dest, op: op_view(i.op) }
}

pub open spec fn term_view(t: Terminator) -> TermV {
    match t {
        Terminator::Void => TermV::Void,
        Terminator::Exit(v) => TermV::Exit(v),
        Terminator::Return(v) => TermV::Return(v),
        Terminator::Branch { target, params } => TermV::Branch(target, params@),
        Terminator::ConditionalBranch { cond, then_target, then_params, else_target, else_params } =>
            TermV::CondBranch(cond, then_target, then_params@, else_target, else_params@),
    }
}

pub open spec fn block_view(b: TIRBlock) -> BlockV {
    BlockV {
        label: b.label,
        params: b.params@,
        instrs: b.instructions@.map_values(|i: Instruction| instr_view(i)),
        term: term_view(b.terminator),
    }
}

pub open spec fn blocks_view(bs: Seq<TIRBlock>) -> Seq<BlockV> {
    bs.map_values(|b: TIRBlock| block_view(b))
}

pub open spec fn tir_view(f: TIRFunction) -> FunctionV {
    FunctionV { name: f.name, params: f.params@, blocks: blocks_view(f.blocks@) }
}

pub fn copy_regs(v: &Vec<VirtualRegister>) -> (r: Vec<VirtualRegister>)
    ensures
        r@ == v@,
{
    let mut r: Vec<VirtualRegister> = Vec::new();
    let mut i: usize = 0;
    while i < v.len()
        invariant
            0 <= i <= v@.len(),
            r@ == v@.take(i as int),
        decreases v@.len() - i,
    {
        r.push(v[i]);
        proof {
            assert(v@.take(i + 1) == v@.take(i as int).push(v@[i as int]));
        }
        i = i + 1;
    }
    proof {
        assert(v@.take(v@.len() as int) == v@);
    }
    r
}

} // verus!

verus! {

pub proof fn lemma_push_contains<T>(s: Seq<T>, x: T)
    ensures
        forall|y: T| #[trigger] s.push(x).contains(y) <==> (s.contains(y) || y == x),
{
    assert forall|y: T| #[trigger] s.push(x).contains(y) <==> (s.contains(y) || y == x) by {
        if s.push(x).contains(y) {
            let k = choose|k: int| 0 <= k < s.push(x).len() && s.push(x)[k] == y;
            if k < s.len() {
                assert(s[k] == y);
            }
        }
        if s.contains(y) {
            let k = choose|k: int| 0 <= k < s.len() && s[k] == y;
            assert(s.push(x)[k] == y);
        }
        if y == x {
            assert(s.push(x)[s.len() as int] == y);
        }
    }
}

} // verus!
