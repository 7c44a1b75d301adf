use vstd::prelude::*;

use crate::common::regset::RegSet;
use crate::ir::types::{
    BlockId, Instruction, Operation, TIRBlock, TIRFunction, Terminator, VirtualRegister,
    binary_operands, copy_regs, op_uses, terminator_edges, terminator_successors, terminator_uses,
};

verus! {

impl Instruction {
    /// The registers this instruction reads.
    pub fn uses(&self) -> (r: Vec<VirtualRegister>)
        ensures
            r@ == op_uses(self.op),
    {
        match &self.op {
            Operation::ConstInt(_) | Operation::ConstBool(_) => Vec::new(),
            Operation::Add(a, b) | Operation::Sub(a, b) | Operation::Mul(a, b) | Operation::Eq(a, b)
            | Operation::Lt(a, b) | Operation::Leq(a, b) | Operation::Gt(a, b) | Operation::Geq(a, b)
            | Operation::Neq(a, b) | Operation::And(a, b) | Operation::Or(a, b) => {
                let mut v = Vec::new();
                v.push(*a);
                v.push(*b);
                v
            },
            Operation::Call(_, args) => copy_regs(args),
        }
    }

    /// The register this instruction defines.
    pub fn def(&self) -> (r: VirtualRegister)
        ensures
            r == self.dest,
    {
        self.dest
    }
}

impl Terminator {
    /// The registers this terminator reads.
    pub fn uses(&self) -> (r: Vec<VirtualRegister>)
        ensures
            r@ == terminator_uses(*self),
    {
        match self {
            Terminator::Void => Vec::new(),
            Terminator::Exit(v) | Terminator::Return(v) => {
                let mut r = Vec::new();
                r.push(*v);
                r
            },
            Terminator::Branch { params, .. } => copy_regs(params),
            Terminator::ConditionalBranch { cond, then_params, else_params, .. } => {
                let mut regs = Vec::new();
                regs.push(*cond);
                let mut t = copy_regs(then_params);
                let mut e = copy_regs(else_params);
                regs.append(&mut t);
                regs.append(&mut e);
                regs
            },
        }
    }

    /// The blocks control may pass to, without repetition.
    pub fn successors(&self) -> (r: Vec<BlockId>)
        ensures
            r@.to_set() == terminator_successors(*self),
            r@.no_duplicates(),
    {
        let ghost edges = terminator_edges(*self);
        match self {
            Terminator::Branch { target, .. } => {
                let mut r = Vec::new();
                r.push(*target);
                proof {
                    assert(edges.map_values(|e: (BlockId, Seq<VirtualRegister>)| e.0) =~= seq![*target]);
                    assert(r@ =~= seq![*target]);
                }
                r
            },
            Terminator::ConditionalBranch { then_target, else_target, .. } => {
                let mut r = Vec::new();
                r.push(*then_target);
                if then_target.0 != else_target.0 {
                    r.push(*else_target);
                }
                proof {
                    let m = edges.map_values(|e: (BlockId, Seq<VirtualRegister>)| e.0);
                    assert(m =~= seq![*then_target, *else_target]);
                    assert forall|x: BlockId| r@.to_set().contains(x) <==> m.to_set().contains(x) by {
                        if x == *then_target {
                            assert(r@[0] == x);
                            assert(m[0] == x);
                        }
                        if x == *else_target {
                            assert(m[1] == x);
                            if then_target.0 != else_target.0 {
                                assert(r@[1] == x);
                            } else {
                                assert(r@[0] == x);
                            }
                        }
                    }
                    assert(r@.to_set() =~= m.to_set());
                }
                r
            },
            _ => {
                let r = Vec::new();
                proof {
                    assert(edges.map_values(|e: (BlockId, Seq<VirtualRegister>)| e.0) =~= Seq::<BlockId>::empty());
                    assert(r@.to_set() =~= Set::<BlockId>::empty());
                }
                r
            },
        }
    }

    /// Each outgoing edge with the values it passes.
    pub fn edge_uses(&self) -> (r: Vec<(BlockId, Vec<VirtualRegister>)>)
        ensures
            r@.len() == terminator_edges(*self).len(),
            forall|i: int|
                0 <= i < r@.len() ==> (#[trigger] r@[i]).0 == terminator_edges(*self)[i].0
                    && r@[i].1@ == terminator_edges(*self)[i].1,
    {
        match self {
            Terminator::Branch { target, params } => {
                let mut r = Vec::new();
                r.push((*target, copy_regs(params)));
                r
            },
            Terminator::ConditionalBranch { then_target, then_params, else_target, else_params, .. } => {
                let mut r = Vec::new();
                r.push((*then_target, copy_regs(then_params)));
                r.push((*else_target, copy_regs(else_params)));
                r
            },
            _ => Vec::new(),
        }
    }
}

/// The registers defined by a block's parameters and by its first `i` instructions.
pub open spec fn defs_upto(b: TIRBlock, i: int) -> Set<VirtualRegister> {
    b.params@.to_set().union(
        Set::new(|v: VirtualRegister| exists|j: int| 0 <= j < i && #[trigger] b.instructions@[j].dest == v),
    )
}

/// Everything a block defines.
pub open spec fn block_def(b: TIRBlock) -> Set<VirtualRegister> {
    defs_upto(b, b.instructions@.len() as int)
}

/// The registers a block reads before defining them (upward-exposed uses).
pub open spec fn block_use(b: TIRBlock) -> Set<VirtualRegister> {
    Set::new(
        |v: VirtualRegister|
            (exists|i: int|
                0 <= i < b.instructions@.len() && #[trigger] op_uses(b.instructions@[i].op).contains(v)
                    && !defs_upto(b, i).contains(v)) || (terminator_uses(b.terminator).contains(v)
                && !block_def(b).contains(v)),
    )
}

/// The use and def sets of one block.
#[derive(Debug)]
pub struct UseDef {
    pub use_set: RegSet,
    pub def_set: RegSet,
}

proof fn lemma_take_push_contains(s: Seq<VirtualRegister>, n: int)
    requires
        0 <= n < s.len(),
    ensures
        s.take(n + 1) == s.take(n).push(s[n]),
        forall|x: VirtualRegister| #[trigger] s.take(n + 1).contains(x) <==> (s.take(n).contains(x) || x == s[n]),
{
    assert(s.take(n + 1) =~= s.take(n).push(s[n]));
    assert forall|x: VirtualRegister| #[trigger] s.take(n + 1).contains(x) <==> (s.take(n).contains(x) || x == s[n]) by {
        if s.take(n + 1).contains(x) {
            let k = choose|k: int| 0 <= k < n + 1 && #[trigger] s.take(n + 1)[k] == x;
            if k < n {
                assert(s.take(n)[k] == x);
            }
        }
        if s.take(n).contains(x) {
            let k = choose|k: int| 0 <= k < n && #[trigger] s.take(n)[k] == x;
            assert(s.take(n + 1)[k] == x);
        }
        if x == s[n] {
            assert(s.take(n + 1)[n] == x);
        }
    }
}

fn find_use_def(block: &TIRBlock) -> (r: UseDef)
    ensures
        r.use_set.wf(),
        r.def_set.wf(),
        r.use_set@ == block_use(*block),
        r.def_set@ == block_def(*block),
{
    let mut use_set = RegSet::new();
    let mut def_set = RegSet::new();
    let mut k: usize = 0;
    while k < block.params.len()
        invariant
            0 <= k <= block.params@.len(),
            def_set.wf(),
            def_set@ == block.params@.take(k as int).to_set(),
        decreases block.params@.len() - k,
    {
        def_set.insert(block.params[k]);
        proof {
            assert(block.params@.take(k + 1) == block.params@.take(k as int).push(block.params@[k as int]));
            block.params@.take(k as int).lemma_push_to_set_commute(block.params@[k as int]);
        }
        k = k + 1;
    }
    proof {
        assert(block.params@.take(block.params@.len() as int) == block.params@);
        assert(def_set@ =~= defs_upto(*block, 0));
    }
    let ghost b = *block;
    let mut i: usize = 0;
    while i < block.instructions.len()
        invariant
            0 <= i <= block.instructions@.len(),
            b == *block,
            use_set.wf(),
            def_set.wf(),
            def_set@ == defs_upto(b, i as int),
            forall|v: VirtualRegister| #[trigger] use_set@.contains(v) <==> exists|j: int|
                0 <= j < i && #[trigger] op_uses(b.instructions@[j].op).contains(v) && !defs_upto(b, j).contains(v),
        decreases block.instructions@.len() - i,
    {
        let instr = &block.instructions[i];
        let uses = instr.uses();
        let mut u: usize = 0;
        let ghost use0 = use_set@;
        while u < uses.len()
            invariant
                0 <= u <= uses@.len(),
                uses@ == op_uses(b.instructions@[i as int].op),
                use_set.wf(),
                def_set@ == defs_upto(b, i as int),
                forall|v: VirtualRegister| #[trigger] use_set@.contains(v) <==> (use0.contains(v) || (
                    uses@.take(u as int).contains(v) && !defs_upto(b, i as int).contains(v))),
            decreases uses@.len() - u,
        {
            let vreg = uses[u];
            if !def_set.contains(vreg) {
                use_set.insert(vreg);
            }
            proof {
                assert(uses@.take(u + 1) == uses@.take(u as int).push(vreg));
                lemma_take_push_contains(uses@, u as int);
            }
            u = u + 1;
        }
        proof {
            assert(uses@.take(uses@.len() as int) == uses@);
        }
        def_set.insert(instr.def());
        proof {
            assert forall|v: VirtualRegister| #[trigger] use_set@.contains(v) <==> exists|j: int|
                0 <= j < i + 1 && #[trigger] op_uses(b.instructions@[j].op).contains(v) && !defs_upto(b, j).contains(v) by {
                if use_set@.contains(v) && !use0.contains(v) {
                    assert(op_uses(b.instructions@[i as int].op).contains(v));
                }
                if exists|j: int| 0 <= j < i + 1 && #[trigger] op_uses(b.instructions@[j].op).contains(v) && !defs_upto(b, j).contains(v) {
                    let j = choose|j: int| 0 <= j < i + 1 && #[trigger] op_uses(b.instructions@[j].op).contains(v) && !defs_upto(b, j).contains(v);
                    if j == i {
                        assert(uses@.contains(v));
                    }
                }
            }
            assert forall|v: VirtualRegister| #[trigger] def_set@.contains(v) <==> defs_upto(b, i + 1).contains(v) by {
                if v == b.instructions@[i as int].dest {
                    assert(b.instructions@[i as int].dest == v);
                }
                if defs_upto(b, i + 1).contains(v) && !b.params@.to_set().contains(v) {
                    let j = choose|j: int| 0 <= j < i + 1 && #[trigger] b.instructions@[j].dest == v;
                    if j < i {
                        assert(defs_upto(b, i as int).contains(v));
                    }
                }
            }
            assert(def_set@ =~= defs_upto(b, i + 1));
        }
        i = i + 1;
    }
    let tuses = block.terminator.uses();
    let ghost use1 = use_set@;
    let mut t: usize = 0;
    while t < tuses.len()
        invariant
            0 <= t <= tuses@.len(),
            tuses@ == terminator_uses(b.terminator),
            use_set.wf(),
            def_set@ == block_def(b),
            forall|v: VirtualRegister| #[trigger] use_set@.contains(v) <==> (use1.contains(v) || (
                tuses@.take(t as int).contains(v) && !block_def(b).contains(v))),
        decreases tuses@.len() - t,
    {
        let used = tuses[t];
        if !def_set.contains(used) {
            use_set.insert(used);
        }
        proof {
            assert(tuses@.take(t + 1) == tuses@.take(t as int).push(used));
            lemma_take_push_contains(tuses@, t as int);
        }
        t = t + 1;
    }
    proof {
        assert(tuses@.take(tuses@.len() as int) == tuses@);
        assert(use_set@ =~= block_use(b));
    }
    UseDef { use_set, def_set }
}

} // verus!

verus! {

/// Block labels are distinct.
pub open spec fn labels_unique(bs: Seq<TIRBlock>) -> bool {
    forall|i: int, j: int| 0 <= i < bs.len() && 0 <= j < bs.len() && i != j ==> #[trigger] bs[i].label != #[trigger] bs[j].label
}

/// Some block carries label `l`.
pub open spec fn has_label(bs: Seq<TIRBlock>, l: BlockId) -> bool {
    exists|j: int| 0 <= j < bs.len() && #[trigger] bs[j].label == l
}

/// The position of the block labelled `l`.
pub open spec fn index_of_label(bs: Seq<TIRBlock>, l: BlockId) -> int {
    choose|j: int| 0 <= j < bs.len() && #[trigger] bs[j].label == l
}

/// The control-flow graph is well formed: labels are distinct and every edge leads to a block.
pub open spec fn cfg_wf(bs: Seq<TIRBlock>) -> bool {
    &&& labels_unique(bs)
    &&& forall|i: int, k: int|
        0 <= i < bs.len() && 0 <= k < terminator_edges(bs[i].terminator).len() ==> has_label(
            bs,
            #[trigger] terminator_edges(bs[i].terminator)[k].0,
        )
}

/// What is live along an edge: the values passed, and what the target needs apart from its
/// own parameters.
pub open spec fn edge_live(bs: Seq<TIRBlock>, ins: Seq<Set<VirtualRegister>>, e: (BlockId, Seq<VirtualRegister>)) -> Set<VirtualRegister> {
    let j = index_of_label(bs, e.0);
    e.1.to_set().union(ins[j].difference(bs[j].params@.to_set()))
}

/// The dataflow equation for the registers live at the end of a block.
pub open spec fn flow_out(bs: Seq<TIRBlock>, ins: Seq<Set<VirtualRegister>>, t: Terminator) -> Set<VirtualRegister> {
    let edges = terminator_edges(t);
    if edges.len() == 0 {
        Set::empty()
    } else if edges.len() == 1 {
        edge_live(bs, ins, edges[0])
    } else {
        edge_live(bs, ins, edges[0]).union(edge_live(bs, ins, edges[1]))
    }
}

/// The dataflow equation for the registers live at the start of a block.
pub open spec fn flow_in(b: TIRBlock, out: Set<VirtualRegister>) -> Set<VirtualRegister> {
    block_use(b).union(out.difference(block_def(b)))
}

/// `ins` and `outs` solve the liveness equations of the blocks `bs`.
pub open spec fn is_liveness_solution(bs: Seq<TIRBlock>, ins: Seq<Set<VirtualRegister>>, outs: Seq<Set<VirtualRegister>>) -> bool {
    &&& ins.len() == bs.len()
    &&& outs.len() == bs.len()
    &&& forall|i: int| 0 <= i < bs.len() ==> #[trigger] outs[i] == flow_out(bs, ins, bs[i].terminator)
    &&& forall|i: int| 0 <= i < bs.len() ==> #[trigger] ins[i] == flow_in(bs[i], outs[i])
}

/// Pointwise inclusion of two sequences of sets.
pub open spec fn below(a: Seq<Set<VirtualRegister>>, b: Seq<Set<VirtualRegister>>) -> bool {
    a.len() == b.len() && forall|i: int| 0 <= i < a.len() ==> #[trigger] a[i].subset_of(b[i])
}

/// Liveness facts for one block.
#[derive(Debug)]
pub struct BlockLiveness {
    pub label: BlockId,
    pub use_def: UseDef,
    pub live_in: RegSet,
    pub live_out: RegSet,
}

/// Liveness facts for every block of a function, in block order.
#[derive(Debug)]
pub struct Liveness {
    pub blocks: Vec<BlockLiveness>,
}

impl Liveness {
    pub open spec fn ins(&self) -> Seq<Set<VirtualRegister>> {
        Seq::new(self.blocks@.len(), |i: int| self.blocks@[i].live_in@)
    }

    pub open spec fn outs(&self) -> Seq<Set<VirtualRegister>> {
        Seq::new(self.blocks@.len(), |i: int| self.blocks@[i].live_out@)
    }

    /// The facts for the block labelled `id`.
    pub fn block(&self, id: BlockId) -> (r: Option<&BlockLiveness>)
        ensures
            r is None ==> forall|i: int| 0 <= i < self.blocks@.len() ==> #[trigger] self.blocks@[i].label != id,
            r matches Some(b) ==> exists|i: int| 0 <= i < self.blocks@.len() && self.blocks@[i] == *b && b.label == id,
    {
        let mut i: usize = 0;
        while i < self.blocks.len()
            invariant
                0 <= i <= self.blocks@.len(),
                forall|j: int| 0 <= j < i ==> #[trigger] self.blocks@[j].label != id,
            decreases self.blocks@.len() - i,
        {
            if self.blocks[i].label.0 == id.0 {
                return Some(&self.blocks[i]);
            }
            i = i + 1;
        }
        None
    }
}

proof fn lemma_index_of_label(bs: Seq<TIRBlock>, j: int)
    requires
        labels_unique(bs),
        0 <= j < bs.len(),
    ensures
        index_of_label(bs, bs[j].label) == j,
{
    let k = index_of_label(bs, bs[j].label);
    assert(0 <= k < bs.len() && bs[k].label == bs[j].label);
}

/// Whether some block carries label `l`.
fn label_present(blocks: &Vec<TIRBlock>, l: BlockId) -> (b: bool)
    ensures
        b == has_label(blocks@, l),
{
    let mut j: usize = 0;
    while j < blocks.len()
        invariant
            0 <= j <= blocks@.len(),
            forall|k: int| 0 <= k < j ==> #[trigger] blocks@[k].label != l,
        decreases blocks@.len() - j,
    {
        if blocks[j].label.0 == l.0 {
            return true;
        }
        j = j + 1;
    }
    false
}

/// Whether the control-flow graph of `blocks` is well formed: distinct labels, and every edge
/// leads to a block.
pub fn check_cfg(blocks: &Vec<TIRBlock>) -> (b: bool)
    ensures
        b == cfg_wf(blocks@),
{
    let ghost bs = blocks@;
    let mut i: usize = 0;
    while i < blocks.len()
        invariant
            0 <= i <= bs.len(),
            bs == blocks@,
            forall|a: int, c: int| 0 <= a < i && 0 <= c < bs.len() && a != c ==> #[trigger] bs[a].label != #[trigger] bs[c].label,
        decreases bs.len() - i,
    {
        let mut j: usize = 0;
        while j < blocks.len()
            invariant
                0 <= i < bs.len(),
                0 <= j <= bs.len(),
                bs == blocks@,
                forall|c: int| 0 <= c < j && c != i ==> bs[i as int].label != #[trigger] bs[c].label,
            decreases bs.len() - j,
        {
            if j != i && blocks[i].label.0 == blocks[j].label.0 {
                return false;
            }
            j = j + 1;
        }
        i = i + 1;
    }
    let mut i: usize = 0;
    while i < blocks.len()
        invariant
            0 <= i <= bs.len(),
            bs == blocks@,
            labels_unique(bs),
            forall|a: int, k: int| 0 <= a < i && 0 <= k < terminator_edges(bs[a].terminator).len() ==> has_label(
                bs,
                #[trigger] terminator_edges(bs[a].terminator)[k].0,
            ),
        decreases bs.len() - i,
    {
        let edges = blocks[i].terminator.edge_uses();
        let mut k: usize = 0;
        while k < edges.len()
            invariant
                0 <= i < bs.len(),
                0 <= k <= edges@.len(),
                bs == blocks@,
                edges@.len() == terminator_edges(bs[i as int].terminator).len(),
                forall|q: int| 0 <= q < edges@.len() ==> (#[trigger] edges@[q]).0 == terminator_edges(bs[i as int].terminator)[q].0,
                forall|a: int, kk: int| 0 <= a < i && 0 <= kk < terminator_edges(bs[a].terminator).len() ==> has_label(
                    bs,
                    #[trigger] terminator_edges(bs[a].terminator)[kk].0,
                ),
                forall|kk: int| 0 <= kk < k ==> has_label(bs, #[trigger] terminator_edges(bs[i as int].terminator)[kk].0),
            decreases edges@.len() - k,
        {
            if !label_present(blocks, edges[k].0) {
                proof {
                    assert(edges@[k as int].0 == terminator_edges(bs[i as int].terminator)[k as int].0);
                }
                return false;
            }
            k = k + 1;
        }
        i = i + 1;
    }
    true
}

pub fn find_block(blocks: &Vec<TIRBlock>, l: BlockId) -> (j: usize)
    requires
        labels_unique(blocks@),
        has_label(blocks@, l),
    ensures
        j < blocks@.len(),
        blocks@[j as int].label == l,
        j == index_of_label(blocks@, l),
{
    let mut j: usize = 0;
    while j < blocks.len()
        invariant
            0 <= j <= blocks@.len(),
            labels_unique(blocks@),
            forall|k: int| 0 <= k < j ==> #[trigger] blocks@[k].label != l,
        decreases blocks@.len() - j,
    {
        if blocks[j].label.0 == l.0 {
            proof {
                lemma_index_of_label(blocks@, j as int);
            }
            return j;
        }
        j = j + 1;
    }
    proof {
        let k = choose|k: int| 0 <= k < blocks@.len() && #[trigger] blocks@[k].label == l;
        assert(blocks@[k].label != l);
    }
    0
}

pub open spec fn set_views(v: Seq<RegSet>) -> Seq<Set<VirtualRegister>> {
    Seq::new(v.len(), |i: int| v[i]@)
}

/// Adds to `acc` what is live along the edge to `target` passing `args`.
fn add_edge_live(blocks: &Vec<TIRBlock>, ins: &Vec<RegSet>, target: BlockId, args: &Vec<VirtualRegister>, acc: &mut RegSet)
    requires
        labels_unique(blocks@),
        has_label(blocks@, target),
        ins@.len() == blocks@.len(),
        forall|i: int| 0 <= i < ins@.len() ==> (#[trigger] ins@[i]).wf(),
        old(acc).wf(),
    ensures
        final(acc).wf(),
        final(acc)@ == old(acc)@.union(edge_live(blocks@, set_views(ins@), (target, args@))),
{
    let ghost acc0 = acc@;
    let a = RegSet::from_slice(args.as_slice());
    acc.extend(&a);
    let j = find_block(blocks, target);
    let succ = &blocks[j];
    let live = &ins[j];
    let ghost acc1 = acc@;
    let n = live.len();
    let mut k: usize = 0;
    while k < n
        invariant
            n == live.elems().len(),
            0 <= k <= live.elems().len(),
            acc.wf(),
            acc@ == acc1.union(live.elems().take(k as int).to_set().difference(succ.params@.to_set())),
        decreases live.elems().len() - k,
    {
        let v = live.get(k);
        let mut in_params = false;
        let mut p: usize = 0;
        while p < succ.params.len()
            invariant
                0 <= p <= succ.params@.len(),
                in_params == succ.params@.take(p as int).contains(v),
            decreases succ.params@.len() - p,
        {
            proof {
                lemma_take_push_contains(succ.params@, p as int);
            }
            if succ.params[p].0 == v.0 {
                in_params = true;
            }
            p = p + 1;
        }
        proof {
            assert(succ.params@.take(succ.params@.len() as int) == succ.params@);
        }
        if !in_params {
            acc.insert(v);
        }
        proof {
            lemma_take_push_contains(live.elems(), k as int);
            assert(acc@ =~= acc1.union(live.elems().take(k + 1).to_set().difference(succ.params@.to_set())));
        }
        k = k + 1;
    }
    proof {
        assert(live.elems().take(live.elems().len() as int) == live.elems());
        live.lemma_elems();
        assert(live.elems().to_set() == live@);
        assert(set_views(ins@)[j as int] == live@);
        assert(a@ == args@.to_set());
        assert(acc@ =~= acc0.union(edge_live(blocks@, set_views(ins@), (target, args@))));
    }
}

} // verus!

verus! {

fn compute_out(blocks: &Vec<TIRBlock>, ins: &Vec<RegSet>, t: &Terminator) -> (r: RegSet)
    requires
        labels_unique(blocks@),
        forall|k: int| 0 <= k < terminator_edges(*t).len() ==> has_label(blocks@, #[trigger] terminator_edges(*t)[k].0),
        ins@.len() == blocks@.len(),
        forall|i: int| 0 <= i < ins@.len() ==> (#[trigger] ins@[i]).wf(),
    ensures
        r.wf(),
        r@ == flow_out(blocks@, set_views(ins@), *t),
{
    let mut acc = RegSet::new();
    match t {
        Terminator::Branch { target, params } => {
            proof {
                assert(terminator_edges(*t)[0].0 == *target);
            }
            add_edge_live(blocks, ins, *target, params, &mut acc);
            proof {
                assert(acc@ =~= flow_out(blocks@, set_views(ins@), *t));
            }
        },
        Terminator::ConditionalBranch { then_target, then_params, else_target, else_params, .. } => {
            proof {
                assert(terminator_edges(*t)[0].0 == *then_target);
                assert(terminator_edges(*t)[1].0 == *else_target);
            }
            add_edge_live(blocks, ins, *then_target, then_params, &mut acc);
            add_edge_live(blocks, ins, *else_target, else_params, &mut acc);
            proof {
                assert(acc@ =~= flow_out(blocks@, set_views(ins@), *t));
            }
        },
        _ => {
            proof {
                assert(acc@ =~= flow_out(blocks@, set_views(ins@), *t));
            }
        },
    }
    acc
}

fn compute_in(ud: &UseDef, b: Ghost<TIRBlock>, out: &RegSet) -> (r: RegSet)
    requires
        ud.use_set.wf(),
        ud.use_set@ == block_use(b@),
        ud.def_set@ == block_def(b@),
        out.wf(),
    ensures
        r.wf(),
        r@ == flow_in(b@, out@),
{
    let mut r = ud.use_set.copy();
    let n = out.len();
    let mut k: usize = 0;
    while k < n
        invariant
            n == out.elems().len(),
            0 <= k <= n,
            r.wf(),
            ud.def_set@ == block_def(b@),
            r@ == block_use(b@).union(out.elems().take(k as int).to_set().difference(block_def(b@))),
        decreases n - k,
    {
        let v = out.get(k);
        let ghost r0 = r@;
        if !ud.def_set.contains(v) {
            r.insert(v);
            assert(r@ == r0.insert(v));
        } else {
            assert(block_def(b@).contains(v));
        }
        proof {
            lemma_take_push_contains(out.elems(), k as int);
            assert forall|x: VirtualRegister| r@.contains(x) <==> block_use(b@).union(out.elems().take(k + 1).to_set().difference(block_def(b@))).contains(x) by {
                assert(out.elems().take(k + 1).to_set().contains(x) == out.elems().take(k + 1).contains(x));
                assert(out.elems().take(k as int).to_set().contains(x) == out.elems().take(k as int).contains(x));
            }
            assert(r@ =~= block_use(b@).union(out.elems().take(k + 1).to_set().difference(block_def(b@))));
        }
        k = k + 1;
    }
    proof {
        out.lemma_elems();
        assert(out.elems().take(n as int) == out.elems());
    }
    r
}

proof fn lemma_edge_live_mono(bs: Seq<TIRBlock>, a: Seq<Set<VirtualRegister>>, b: Seq<Set<VirtualRegister>>, e: (BlockId, Seq<VirtualRegister>))
    requires
        below(a, b),
        a.len() == bs.len(),
        has_label(bs, e.0),
    ensures
        edge_live(bs, a, e).subset_of(edge_live(bs, b, e)),
{
    let j = index_of_label(bs, e.0);
    assert(a[j].subset_of(b[j]));
}

proof fn lemma_flow_out_mono(bs: Seq<TIRBlock>, a: Seq<Set<VirtualRegister>>, b: Seq<Set<VirtualRegister>>, t: Terminator)
    requires
        below(a, b),
        a.len() == bs.len(),
        forall|k: int| 0 <= k < terminator_edges(t).len() ==> has_label(bs, #[trigger] terminator_edges(t)[k].0),
    ensures
        flow_out(bs, a, t).subset_of(flow_out(bs, b, t)),
{
    let edges = terminator_edges(t);
    if edges.len() >= 1 {
        assert(has_label(bs, edges[0].0));
        lemma_edge_live_mono(bs, a, b, edges[0]);
    }
    if edges.len() >= 2 {
        assert(has_label(bs, edges[1].0));
        lemma_edge_live_mono(bs, a, b, edges[1]);
    }
}

/// Every register a terminator passes along an edge is one it uses.
proof fn lemma_edge_args_used(t: Terminator, k: int)
    requires
        0 <= k < terminator_edges(t).len(),
    ensures
        terminator_edges(t)[k].1.to_set().subset_of(terminator_uses(t).to_set()),
{
    match t {
        Terminator::ConditionalBranch { cond, then_params, else_params, .. } => {
            let u = seq![cond] + then_params@ + else_params@;
            assert forall|x: VirtualRegister| terminator_edges(t)[k].1.to_set().contains(x) implies u.to_set().contains(x) by {
                let s = terminator_edges(t)[k].1;
                let i = choose|i: int| 0 <= i < s.len() && s[i] == x;
                if k == 0 {
                    assert(u[1 + i] == x);
                } else {
                    assert(u[1 + then_params@.len() + i] == x);
                }
            }
        },
        _ => {},
    }
}

proof fn lemma_flow_within(bs: Seq<TIRBlock>, ins: Seq<Set<VirtualRegister>>, i: int, univ: Set<VirtualRegister>)
    requires
        0 <= i < bs.len(),
        ins.len() == bs.len(),
        forall|k: int| 0 <= k < terminator_edges(bs[i].terminator).len() ==> has_label(bs, #[trigger] terminator_edges(bs[i].terminator)[k].0),
        forall|j: int| 0 <= j < ins.len() ==> (#[trigger] ins[j]).subset_of(univ),
        terminator_uses(bs[i].terminator).to_set().subset_of(univ),
        block_use(bs[i]).subset_of(univ),
    ensures
        flow_out(bs, ins, bs[i].terminator).subset_of(univ),
        flow_in(bs[i], flow_out(bs, ins, bs[i].terminator)).subset_of(univ),
{
    let t = bs[i].terminator;
    let edges = terminator_edges(t);
    if edges.len() >= 1 {
        lemma_edge_args_used(t, 0);
        assert(has_label(bs, edges[0].0));
        let j = index_of_label(bs, edges[0].0);
        assert(ins[j].subset_of(univ));
    }
    if edges.len() >= 2 {
        lemma_edge_args_used(t, 1);
        assert(has_label(bs, edges[1].0));
        let j = index_of_label(bs, edges[1].0);
        assert(ins[j].subset_of(univ));
    }
}

/// The sum of the sizes of a sequence of sets.
pub open spec fn total_size(s: Seq<Set<VirtualRegister>>) -> nat
    decreases s.len(),
{
    if s.len() == 0 {
        0
    } else {
        total_size(s.drop_last()) + s.last().len()
    }
}

proof fn lemma_total_update(s: Seq<Set<VirtualRegister>>, i: int, x: Set<VirtualRegister>)
    requires
        0 <= i < s.len(),
    ensures
        total_size(s.update(i, x)) + s[i].len() == total_size(s) + x.len(),
    decreases s.len(),
{
    if i < s.len() - 1 {
        assert(s.update(i, x).drop_last() == s.drop_last().update(i, x));
        lemma_total_update(s.drop_last(), i, x);
    } else {
        assert(s.update(i, x).drop_last() == s.drop_last());
    }
}

proof fn lemma_total_bound(s: Seq<Set<VirtualRegister>>, univ: Set<VirtualRegister>)
    requires
        univ.finite(),
        forall|j: int| 0 <= j < s.len() ==> (#[trigger] s[j]).subset_of(univ),
    ensures
        total_size(s) <= s.len() * univ.len(),
    decreases s.len(),
{
    if s.len() > 0 {
        assert(s.last().subset_of(univ));
        vstd::set_lib::lemma_len_subset(s.last(), univ);
        assert forall|j: int| 0 <= j < s.drop_last().len() implies (#[trigger] s.drop_last()[j]).subset_of(univ) by {
            assert(s[j].subset_of(univ));
        }
        lemma_total_bound(s.drop_last(), univ);
        assert((s.len() - 1) * univ.len() + univ.len() == s.len() * univ.len()) by (nonlinear_arith);
    }
}

proof fn lemma_strict_growth(a: Set<VirtualRegister>, b: Set<VirtualRegister>)
    requires
        a.subset_of(b),
        b.finite(),
    ensures
        a.len() <= b.len(),
        a != b ==> a.len() < b.len(),
{
    vstd::set_lib::lemma_len_subset(a, b);
    if a != b {
        assert(exists|x: VirtualRegister| b.contains(x) && !a.contains(x)) by {
            if !(exists|x: VirtualRegister| b.contains(x) && !a.contains(x)) {
                assert(a =~= b);
            }
        }
        let x = choose|x: VirtualRegister| b.contains(x) && !a.contains(x);
        assert(a.subset_of(b.remove(x)));
        vstd::set_lib::lemma_len_subset(a, b.remove(x));
    }
}

} // verus!

verus! {

proof fn lemma_total_empty(n: nat)
    ensures
        total_size(Seq::new(n, |j: int| Set::<VirtualRegister>::empty())) == 0,
    decreases n,
{
    if n > 0 {
        assert(Seq::new(n, |j: int| Set::<VirtualRegister>::empty()).drop_last() =~= Seq::new((n - 1) as nat, |j: int| Set::<VirtualRegister>::empty()));
        lemma_total_empty((n - 1) as nat);
    }
}

/// Computes live-in and live-out sets of every block by iterating the dataflow equations
/// backwards until nothing changes.
pub fn liveness(function: &TIRFunction) -> (r: Liveness)
    requires
        cfg_wf(function.blocks@),
    ensures
        r.blocks@.len() == function.blocks@.len(),
        forall|i: int|
            0 <= i < r.blocks@.len() ==> {
                &&& (#[trigger] r.blocks@[i]).label == function.blocks@[i].label
                &&& r.blocks@[i].use_def.use_set@ == block_use(function.blocks@[i])
                &&& r.blocks@[i].use_def.def_set@ == block_def(function.blocks@[i])
                &&& r.blocks@[i].use_def.use_set.wf()
                &&& r.blocks@[i].use_def.def_set.wf()
                &&& r.blocks@[i].live_in.wf()
                &&& r.blocks@[i].live_out.wf()
            },
        is_liveness_solution(function.blocks@, r.ins(), r.outs()),
        forall|ins2: Seq<Set<VirtualRegister>>, outs2: Seq<Set<VirtualRegister>>|
            is_liveness_solution(function.blocks@, ins2, outs2) ==> below(r.ins(), ins2) && below(
                r.outs(),
                outs2,
            ),
{
    let blocks = &function.blocks;
    let ghost bs = blocks@;
    let n = blocks.len();
    let mut uds: Vec<UseDef> = Vec::new();
    let mut ins: Vec<RegSet> = Vec::new();
    let mut outs: Vec<RegSet> = Vec::new();
    let mut all = RegSet::new();
    let mut i: usize = 0;
    while i < n
        invariant
            n == bs.len(),
            bs == blocks@,
            0 <= i <= n,
            uds@.len() == i,
            ins@.len() == i,
            outs@.len() == i,
            all.wf(),
            forall|j: int| 0 <= j < i ==> {
                &&& (#[trigger] uds@[j]).use_set@ == block_use(bs[j])
                &&& uds@[j].def_set@ == block_def(bs[j])
                &&& uds@[j].use_set.wf()
                &&& uds@[j].def_set.wf()
            },
            forall|j: int| 0 <= j < i ==> (#[trigger] ins@[j]).wf() && ins@[j]@ == Set::<VirtualRegister>::empty(),
            forall|j: int| 0 <= j < i ==> (#[trigger] outs@[j]).wf() && outs@[j]@ == Set::<VirtualRegister>::empty(),
            forall|j: int| 0 <= j < i ==> block_use(#[trigger] bs[j]).subset_of(all@)
                && terminator_uses(bs[j].terminator).to_set().subset_of(all@),
        decreases n - i,
    {
        let ud = find_use_def(&blocks[i]);
        let ghost all0 = all@;
        all.extend(&ud.use_set);
        let tu = blocks[i].terminator.uses();
        let tus = RegSet::from_slice(tu.as_slice());
        all.extend(&tus);
        uds.push(ud);
        ins.push(RegSet::new());
        outs.push(RegSet::new());
        i = i + 1;
    }
    let ghost univ = all@;
    proof {
        all.lemma_elems();
        assert forall|j: int| 0 <= j < n implies (#[trigger] set_views(ins@)[j]).subset_of(univ)
            && set_views(outs@)[j].subset_of(univ) by {
            assert(ins@[j].wf());
            assert(outs@[j].wf());
        }
        assert(set_views(ins@) =~= Seq::new(n as nat, |j: int| Set::<VirtualRegister>::empty()));
        assert(set_views(outs@) =~= Seq::new(n as nat, |j: int| Set::<VirtualRegister>::empty()));
        lemma_total_empty(n as nat);
        assert forall|ins2: Seq<Set<VirtualRegister>>, outs2: Seq<Set<VirtualRegister>>|
            is_liveness_solution(bs, ins2, outs2) implies below(set_views(ins@), ins2) && below(
            set_views(outs@), outs2) by {
            assert forall|j: int| 0 <= j < n implies (#[trigger] set_views(ins@)[j]).subset_of(ins2[j]) by {
                assert(ins@[j].wf());
            }
            assert forall|j: int| 0 <= j < n implies (#[trigger] set_views(outs@)[j]).subset_of(outs2[j]) by {
                assert(outs@[j].wf());
            }
        }
    }
    let ghost bound: nat = (2 * n * univ.len()) as nat;
    let mut changed = true;
    while changed
        invariant
            n == bs.len(),
            bs == blocks@,
            cfg_wf(bs),
            univ.finite(),
            uds@.len() == n,
            ins@.len() == n,
            outs@.len() == n,
            forall|j: int| 0 <= j < n ==> {
                &&& (#[trigger] uds@[j]).use_set@ == block_use(bs[j])
                &&& uds@[j].def_set@ == block_def(bs[j])
                &&& uds@[j].use_set.wf()
                &&& uds@[j].def_set.wf()
            },
            forall|j: int| 0 <= j < n ==> (#[trigger] ins@[j]).wf(),
            forall|j: int| 0 <= j < n ==> (#[trigger] outs@[j]).wf(),
            forall|j: int| 0 <= j < n ==> block_use(#[trigger] bs[j]).subset_of(univ)
                && terminator_uses(bs[j].terminator).to_set().subset_of(univ),
            forall|j: int| 0 <= j < n ==> (#[trigger] set_views(ins@)[j]).subset_of(univ)
                && set_views(outs@)[j].subset_of(univ),
            forall|j: int| 0 <= j < n ==> (#[trigger] set_views(outs@)[j]).subset_of(flow_out(bs, set_views(ins@), bs[j].terminator))
                && set_views(ins@)[j].subset_of(flow_in(bs[j], set_views(outs@)[j])),
            forall|ins2: Seq<Set<VirtualRegister>>, outs2: Seq<Set<VirtualRegister>>|
                is_liveness_solution(bs, ins2, outs2) ==> below(set_views(ins@), ins2) && below(set_views(outs@), outs2),
            !changed ==> is_liveness_solution(bs, set_views(ins@), set_views(outs@)),
            total_size(set_views(ins@)) + total_size(set_views(outs@)) <= bound,
            bound == 2 * n * univ.len(),
        decreases bound - (total_size(set_views(ins@)) + total_size(set_views(outs@))) + (if changed { 1int } else { 0int }),
    {
        let ghost ins0 = set_views(ins@);
        let ghost outs0 = set_views(outs@);
        changed = false;
        let mut bi = n;
        while bi > 0
            invariant
                n == bs.len(),
                bs == blocks@,
                cfg_wf(bs),
                univ.finite(),
                0 <= bi <= n,
                uds@.len() == n,
                ins@.len() == n,
                outs@.len() == n,
                forall|j: int| 0 <= j < n ==> {
                    &&& (#[trigger] uds@[j]).use_set@ == block_use(bs[j])
                    &&& uds@[j].def_set@ == block_def(bs[j])
                    &&& uds@[j].use_set.wf()
                    &&& uds@[j].def_set.wf()
                },
                forall|j: int| 0 <= j < n ==> (#[trigger] ins@[j]).wf(),
                forall|j: int| 0 <= j < n ==> (#[trigger] outs@[j]).wf(),
                forall|j: int| 0 <= j < n ==> block_use(#[trigger] bs[j]).subset_of(univ)
                    && terminator_uses(bs[j].terminator).to_set().subset_of(univ),
                forall|j: int| 0 <= j < n ==> (#[trigger] set_views(ins@)[j]).subset_of(univ)
                    && set_views(outs@)[j].subset_of(univ),
                forall|j: int| 0 <= j < n ==> (#[trigger] set_views(outs@)[j]).subset_of(flow_out(bs, set_views(ins@), bs[j].terminator))
                    && set_views(ins@)[j].subset_of(flow_in(bs[j], set_views(outs@)[j])),
                forall|ins2: Seq<Set<VirtualRegister>>, outs2: Seq<Set<VirtualRegister>>|
                    is_liveness_solution(bs, ins2, outs2) ==> below(set_views(ins@), ins2) && below(set_views(outs@), outs2),
                !changed ==> set_views(ins@) == ins0 && set_views(outs@) == outs0,
                !changed ==> forall|j: int| bi <= j < n ==> (#[trigger] set_views(outs@)[j]) == flow_out(bs, set_views(ins@), bs[j].terminator)
                    && set_views(ins@)[j] == flow_in(bs[j], set_views(outs@)[j]),
                total_size(set_views(ins@)) + total_size(set_views(outs@)) >= total_size(ins0) + total_size(outs0),
                changed ==> total_size(set_views(ins@)) + total_size(set_views(outs@)) > total_size(ins0) + total_size(outs0),
                total_size(set_views(ins@)) + total_size(set_views(outs@)) <= bound,
                bound == 2 * n * univ.len(),
            decreases bi,
        {
            bi = bi - 1;
            let ghost s_in = set_views(ins@);
            let ghost s_out = set_views(outs@);
            proof {
                assert forall|k: int| 0 <= k < terminator_edges(bs[bi as int].terminator).len() implies has_label(bs, #[trigger] terminator_edges(bs[bi as int].terminator)[k].0) by {}
            }
            let new_out = compute_out(blocks, &ins, &blocks[bi].terminator);
            let new_in = compute_in(&uds[bi], Ghost(bs[bi as int]), &new_out);
            let same_in = new_in.same_set(&ins[bi]);
            let same_out = new_out.same_set(&outs[bi]);
            if !same_in || !same_out {
                changed = true;
            }
            ins[bi] = new_in;
            outs[bi] = new_out;
            proof {
                let b = bi as int;
                let fo = flow_out(bs, s_in, bs[b].terminator);
                let fi = flow_in(bs[b], fo);
                assert(set_views(ins@) == s_in.update(b, fi));
                assert(set_views(outs@) == s_out.update(b, fo));
                let c_in = set_views(ins@);
                let c_out = set_views(outs@);
                // growth at this block
                assert(s_out[b].subset_of(fo));
                assert(s_in[b].subset_of(flow_in(bs[b], s_out[b])));
                assert(flow_in(bs[b], s_out[b]).subset_of(fi));
                assert(below(s_in, c_in));
                assert(below(s_out, c_out));
                // within the universe
                lemma_flow_within(bs, s_in, b, univ);
                // post-fixpoint
                assert forall|j: int| 0 <= j < n implies (#[trigger] c_out[j]).subset_of(flow_out(bs, c_in, bs[j].terminator))
                    && c_in[j].subset_of(flow_in(bs[j], c_out[j])) by {
                    assert forall|k: int| 0 <= k < terminator_edges(bs[j].terminator).len() implies has_label(bs, #[trigger] terminator_edges(bs[j].terminator)[k].0) by {}
                    lemma_flow_out_mono(bs, s_in, c_in, bs[j].terminator);
                    if j != b {
                        assert(c_out[j] == s_out[j]);
                        assert(c_in[j] == s_in[j]);
                    }
                }
                // below every solution
                assert forall|ins2: Seq<Set<VirtualRegister>>, outs2: Seq<Set<VirtualRegister>>|
                    is_liveness_solution(bs, ins2, outs2) implies below(c_in, ins2) && below(c_out, outs2) by {
                    assert(below(s_in, ins2) && below(s_out, outs2));
                    assert forall|k: int| 0 <= k < terminator_edges(bs[b].terminator).len() implies has_label(bs, #[trigger] terminator_edges(bs[b].terminator)[k].0) by {}
                    lemma_flow_out_mono(bs, s_in, ins2, bs[b].terminator);
                    assert(outs2[b] == flow_out(bs, ins2, bs[b].terminator));
                    assert(ins2[b] == flow_in(bs[b], outs2[b]));
                    assert forall|j: int| 0 <= j < n implies (#[trigger] c_in[j]).subset_of(ins2[j]) by {
                        if j != b {
                            assert(s_in[j].subset_of(ins2[j]));
                        }
                    }
                    assert forall|j: int| 0 <= j < n implies (#[trigger] c_out[j]).subset_of(outs2[j]) by {
                        if j != b {
                            assert(s_out[j].subset_of(outs2[j]));
                        }
                    }
                }
                // sizes
                ins@[b].lemma_elems();
                outs@[b].lemma_elems();
                lemma_total_update(s_in, b, fi);
                lemma_total_update(s_out, b, fo);
                lemma_strict_growth(s_in[b], fi);
                lemma_strict_growth(s_out[b], fo);
                if !same_in || !same_out {
                    assert(s_in[b] != fi || s_out[b] != fo);
                }
                if same_in && same_out {
                    assert(c_in =~= s_in);
                    assert(c_out =~= s_out);
                }
                assert forall|j: int| 0 <= j < n implies (#[trigger] c_in[j]).subset_of(univ)
                    && c_out[j].subset_of(univ) by {}
                lemma_total_bound(c_in, univ);
                lemma_total_bound(c_out, univ);
                assert(n * univ.len() + n * univ.len() == 2 * n * univ.len()) by (nonlinear_arith);
            }
        }
        proof {
            if !changed {
                assert forall|j: int| 0 <= j < bs.len() implies #[trigger] set_views(outs@)[j] == flow_out(bs, set_views(ins@), bs[j].terminator) by {}
                assert forall|j: int| 0 <= j < bs.len() implies #[trigger] set_views(ins@)[j] == flow_in(bs[j], set_views(outs@)[j]) by {}
            }
        }
    }
    let mut result: Vec<BlockLiveness> = Vec::new();
    let mut ud_iter = uds;
    let mut in_iter = ins;
    let mut out_iter = outs;
    let ghost fin_in = set_views(in_iter@);
    let ghost fin_out = set_views(out_iter@);
    let ghost uds0 = ud_iter@;
    let ghost ins_v0 = in_iter@;
    let ghost outs_v0 = out_iter@;
    let mut k = n;
    while k > 0
        invariant
            0 <= k <= n,
            n == bs.len(),
            bs == blocks@,
            ud_iter@ == uds0.take(k as int),
            in_iter@ == ins_v0.take(k as int),
            out_iter@ == outs_v0.take(k as int),
            uds0.len() == n,
            ins_v0.len() == n,
            outs_v0.len() == n,
            result@.len() == n - k,
            forall|j: int| 0 <= j < n - k ==> {
                &&& (#[trigger] result@[j]).label == bs[n - 1 - j].label
                &&& result@[j].use_def == uds0[n - 1 - j]
                &&& result@[j].live_in == ins_v0[n - 1 - j]
                &&& result@[j].live_out == outs_v0[n - 1 - j]
            },
        decreases k,
    {
        let ud = ud_iter.pop().unwrap();
        let li = in_iter.pop().unwrap();
        let lo = out_iter.pop().unwrap();
        k = k - 1;
        proof {
            assert(uds0.take(k + 1).drop_last() == uds0.take(k as int));
            assert(ins_v0.take(k + 1).drop_last() == ins_v0.take(k as int));
            assert(outs_v0.take(k + 1).drop_last() == outs_v0.take(k as int));
        }
        result.push(BlockLiveness { label: blocks[k].label, use_def: ud, live_in: li, live_out: lo });
    }
    let mut ordered: Vec<BlockLiveness> = Vec::new();
    while result.len() > 0
        invariant
            result@.len() + ordered@.len() == n,
            n == bs.len(),
            bs == blocks@,
            forall|j: int| 0 <= j < result@.len() ==> {
                &&& (#[trigger] result@[j]).label == bs[n - 1 - j].label
                &&& result@[j].use_def == uds0[n - 1 - j]
                &&& result@[j].live_in == ins_v0[n - 1 - j]
                &&& result@[j].live_out == outs_v0[n - 1 - j]
            },
            forall|j: int| 0 <= j < ordered@.len() ==> {
                &&& (#[trigger] ordered@[j]).label == bs[j].label
                &&& ordered@[j].use_def == uds0[j]
                &&& ordered@[j].live_in == ins_v0[j]
                &&& ordered@[j].live_out == outs_v0[j]
            },
        decreases result@.len(),
    {
        let b = result.pop().unwrap();
        ordered.push(b);
    }
    let r = Liveness { blocks: ordered };
    proof {
        assert(r.ins() =~= fin_in);
        assert(r.outs() =~= fin_out);
    }
    r
}

} // verus!
