use vstd::prelude::*;

use crate::ir::types::{
    BlockId, BlockV, Instruction, InstrV, OpV, Operation, TIRBlock, TermV, Terminator, VirtualRegister, block_view,
    blocks_view, instr_view, op_view, term_view,
};

verus! {

/// The state of an IR builder: the blocks so far (block `i` labelled `i`), the block that
/// instructions go to, and the number of the next value.
#[verifier::ext_equal]
pub struct BState {
    pub blocks: Seq<BlockV>,
    pub current: int,
    pub next_value: nat,
}

/// A block with no parameters, no instructions and no terminator yet.
pub open spec fn empty_block(label: BlockId) -> BlockV {
    BlockV { label, params: Seq::empty(), instrs: Seq::empty(), term: TermV::Void }
}

/// A fresh builder: one empty entry block, which is current.
pub open spec fn start_state() -> BState {
    BState { blocks: seq![empty_block(BlockId(0))], current: 0, next_value: 0 }
}

/// The current block exists.
pub open spec fn has_current(b: BState) -> bool {
    0 <= b.current < b.blocks.len()
}

/// `b` with its current block replaced by `blk`.
pub open spec fn with_current(b: BState, blk: BlockV) -> BState {
    BState { blocks: b.blocks.update(b.current, blk), ..b }
}

/// A new value; `None` where the value counter would overflow.
pub open spec fn b_fresh(b: BState) -> Option<(BState, VirtualRegister)> {
    if b.next_value < usize::MAX {
        Some((BState { next_value: b.next_value + 1, ..b }, VirtualRegister(b.next_value as usize)))
    } else {
        None
    }
}

/// `n` new values, in order.
pub open spec fn b_fresh_n(b: BState, n: nat) -> Option<(BState, Seq<VirtualRegister>)>
    decreases n,
{
    if n == 0 {
        Some((b, Seq::empty()))
    } else {
        match b_fresh_n(b, (n - 1) as nat) {
            Some((b1, vs)) => match b_fresh(b1) {
                Some((b2, v)) => Some((b2, vs.push(v))),
                None => None,
            },
            None => None,
        }
    }
}

/// Appends `dest = op` to the current block, `dest` a new value; `None` where there is no
/// current block or no new value.
pub open spec fn b_emit(b: BState, op: OpV) -> Option<(BState, VirtualRegister)> {
    if has_current(b) {
        match b_fresh(b) {
            Some((b1, v)) => Some((
                with_current(b1, BlockV { instrs: b1.blocks[b1.current].instrs.push(InstrV { dest: v, op }), ..b1.blocks[b1.current] }),
                v,
            )),
            None => None,
        }
    } else {
        None
    }
}

/// Sets the terminator of the current block.
pub open spec fn b_terminate(b: BState, t: TermV) -> Option<BState> {
    if has_current(b) {
        Some(with_current(b, BlockV { term: t, ..b.blocks[b.current] }))
    } else {
        None
    }
}

/// Sets the parameters of the current block.
pub open spec fn b_set_params(b: BState, ps: Seq<VirtualRegister>) -> Option<BState> {
    if has_current(b) {
        Some(with_current(b, BlockV { params: ps, ..b.blocks[b.current] }))
    } else {
        None
    }
}

/// Adds an empty block, labelled with its position.
pub open spec fn b_init_block(b: BState) -> (BState, BlockId) {
    let l = BlockId(b.blocks.len() as usize);
    (BState { blocks: b.blocks.push(empty_block(l)), ..b }, l)
}

/// Makes `l` the current block.
pub open spec fn b_switch(b: BState, l: BlockId) -> BState {
    BState { current: l.0 as int, ..b }
}

/// A builder call that takes a new value: `value()`, or `emit` of an operation.
pub enum FreshStep {
    Value,
    Emit(OpV),
}

/// One such call on state `b`: the new state and the value given.
pub open spec fn fresh_step(b: BState, s: FreshStep) -> Option<(BState, VirtualRegister)> {
    match s {
        FreshStep::Value => b_fresh(b),
        FreshStep::Emit(op) => b_emit(b, op),
    }
}

/// The first `n` of `steps` made in turn from `b`: the final state and the values given, in order.
pub open spec fn fresh_steps(b: BState, steps: Seq<FreshStep>, n: int) -> Option<(BState, Seq<VirtualRegister>)>
    decreases n,
{
    if n <= 0 {
        Some((b, Seq::empty()))
    } else {
        match fresh_steps(b, steps, n - 1) {
            Some((b1, vs)) => match fresh_step(b1, steps[n - 1]) {
                Some((b2, v)) => Some((b2, vs.push(v))),
                None => None,
            },
            None => None,
        }
    }
}

/// Values come fresh: over any run of `value()` and `emit` calls on one builder, the `k`-th value
/// given is numbered `k` past the counter at the start, so no two are alike, and the counter
/// ends that many past where it began.
pub proof fn lemma_fresh_values(b: BState, steps: Seq<FreshStep>, n: int)
    requires
        0 <= n <= steps.len(),
        fresh_steps(b, steps, n) is Some,
    ensures
        ({
            let (b2, vs) = fresh_steps(b, steps, n).unwrap();
            &&& vs.len() == n
            &&& forall|k: int| 0 <= k < n ==> (#[trigger] vs[k]).0 == b.next_value + k
            &&& b2.next_value == b.next_value + n
            &&& forall|k1: int, k2: int| 0 <= k1 < n && 0 <= k2 < n && k1 != k2 ==> #[trigger] vs[k1] != #[trigger] vs[k2]
        }),
    decreases n,
{
    if n > 0 {
        lemma_fresh_values(b, steps, n - 1);
        let (b1, vs) = fresh_steps(b, steps, n - 1).unwrap();
        let (b2, v) = fresh_step(b1, steps[n - 1]).unwrap();
        assert(v.0 == b1.next_value);
        let ws = vs.push(v);
        assert forall|k1: int, k2: int| 0 <= k1 < n && 0 <= k2 < n && k1 != k2 implies #[trigger] ws[k1] != #[trigger] ws[k2] by {
            assert(ws[k1].0 == b.next_value + k1);
            assert(ws[k2].0 == b.next_value + k2);
        }
    }
}

/// Builds the blocks of one function.
pub struct IRBuilder {
    pub blocks: Vec<TIRBlock>,
    current: BlockId,
    next_value: usize,
}

impl Default for IRBuilder {
    fn default() -> (b: Self)
        ensures
            b.state() == start_state(),
    {
        Self::new()
    }
}

impl IRBuilder {
    /// The state of this builder.
    pub closed spec fn state(&self) -> BState {
        BState { blocks: blocks_view(self.blocks@), current: self.current.0 as int, next_value: self.next_value as nat }
    }

    pub fn new() -> (b: Self)
        ensures
            b.state() == start_state(),
    {
        let entry = BlockId(0);
        let blk = TIRBlock { label: entry, params: Vec::new(), instructions: Vec::new(), terminator: Terminator::Void };
        let b = IRBuilder { blocks: vec![blk], current: entry, next_value: 0 };
        proof {
            assert(block_view(blk) =~= empty_block(entry));
            assert(b.state().blocks =~= start_state().blocks);
        }
        b
    }

    /// A new value.
    pub fn value(&mut self) -> (v: VirtualRegister)
        requires
            b_fresh(old(self).state()) is Some,
        ensures
            b_fresh(old(self).state()) == Some((final(self).state(), v)),
    {
        let v = VirtualRegister(self.next_value);
        self.next_value = self.next_value + 1;
        v
    }

    /// Appends `dest = op` to the current block and gives `dest`, a new value.
    pub fn emit(&mut self, op: Operation) -> (v: VirtualRegister)
        requires
            b_emit(old(self).state(), op_view(op)) is Some,
        ensures
            b_emit(old(self).state(), op_view(op)) == Some((final(self).state(), v)),
    {
        let dest = self.value();
        let ghost op0 = op;
        let instr = Instruction { dest, op };
        let i = self.current.0;
        let ghost bs0 = self.blocks@;
        self.blocks[i].instructions.push(instr);
        proof {
            assert(instr_view(instr) == InstrV { dest, op: op_view(op0) });
            assert(block_view(self.blocks@[i as int]) =~= BlockV {
                instrs: block_view(bs0[i as int]).instrs.push(InstrV { dest, op: op_view(op0) }),
                ..block_view(bs0[i as int])
            });
            assert(self.state().blocks =~= blocks_view(bs0).update(i as int, block_view(self.blocks@[i as int])));
        }
        dest
    }

    /// Sets the terminator of the current block.
    pub fn terminate(&mut self, terminator: Terminator)
        requires
            b_terminate(old(self).state(), term_view(terminator)) is Some,
        ensures
            b_terminate(old(self).state(), term_view(terminator)) == Some(final(self).state()),
    {
        let i = self.current.0;
        let ghost bs0 = self.blocks@;
        self.blocks[i].terminator = terminator;
        proof {
            assert(block_view(self.blocks@[i as int]) =~= BlockV { term: term_view(terminator), ..block_view(bs0[i as int]) });
            assert(self.state().blocks =~= blocks_view(bs0).update(i as int, block_view(self.blocks@[i as int])));
        }
    }

    /// Sets the parameters of the current block.
    pub fn set_params(&mut self, params: Vec<VirtualRegister>)
        requires
            b_set_params(old(self).state(), params@) is Some,
        ensures
            b_set_params(old(self).state(), params@) == Some(final(self).state()),
    {
        let i = self.current.0;
        let ghost bs0 = self.blocks@;
        let ghost ps = params@;
        self.blocks[i].params = params;
        proof {
            assert(block_view(self.blocks@[i as int]) =~= BlockV { params: ps, ..block_view(bs0[i as int]) });
            assert(self.state().blocks =~= blocks_view(bs0).update(i as int, block_view(self.blocks@[i as int])));
        }
    }

    /// Adds an empty block and gives its label, the number of blocks before it.
    pub fn init_block(&mut self) -> (l: BlockId)
        ensures
            b_init_block(old(self).state()) == (final(self).state(), l),
    {
        let ghost bs0 = self.blocks@;
        let block = BlockId(self.blocks.len());
        let blk = TIRBlock { label: block, params: Vec::new(), instructions: Vec::new(), terminator: Terminator::Void };
        self.blocks.push(blk);
        proof {
            assert(block_view(blk) =~= empty_block(block));
            assert(self.state().blocks =~= blocks_view(bs0).push(empty_block(block)));
        }
        block
    }

    /// Makes `block` the current block.
    pub fn switch_to(&mut self, block: BlockId)
        ensures
            final(self).state() == b_switch(old(self).state(), block),
    {
        self.current = block;
    }

    /// The blocks built.
    pub fn to_blocks(self) -> (r: Vec<TIRBlock>)
        ensures
            blocks_view(r@) == self.state().blocks,
    {
        self.blocks
    }

    /// The current block.
    pub fn current(&self) -> (r: BlockId)
        ensures
            r.0 == self.state().current,
    {
        self.current
    }

    /// The current block, to change it in place.
    pub fn current_mut(&mut self) -> (r: &mut TIRBlock)
        requires
            has_current(old(self).state()),
        ensures
            block_view(*r) == old(self).state().blocks[old(self).state().current],
            final(self).state() == with_current(old(self).state(), block_view(*final(r))),
    {
        let i = self.current.0;
        &mut self.blocks[i]
    }
}

} // verus!
