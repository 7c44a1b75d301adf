use std::collections::HashMap;
use vstd::prelude::*;

use crate::backend::allocator::coalesce::{coalesce_registers, is_param_arg, linked};
use crate::backend::allocator::graph_color::{
    allocate_registers, block_interferes, coalesced_live_after, create_interference_graph, lemma_block_interferes_same_repr, saturated,
};
use crate::backend::liveness::{Liveness, cfg_wf, is_liveness_solution, liveness};
use crate::backend::regalloc::live_after;
use crate::common::regset::RegSet;
use crate::common::uf::UnionFind;
use crate::ir::types::{BlockId, TIRBlock, TIRFunction, VirtualRegister};

pub mod coalesce;
pub mod graph_color;

verus! {

/// `colors` (keyed by register number) gives every coloured register a colour below `k`, and
/// no two neighbours in `g` share a colour.
pub open spec fn valid_coloring(g: Map<VirtualRegister, Set<VirtualRegister>>, colors: Map<usize, usize>, k: nat) -> bool {
    &&& forall|n: usize| #[trigger] colors.contains_key(n) ==> colors[n] < k
    &&& forall|u: VirtualRegister, w: VirtualRegister|
        #![trigger g[u].contains(w)]
        g.dom().contains(u) && g[u].contains(w) && colors.contains_key(u.0) && colors.contains_key(w.0)
            ==> colors[u.0] != colors[w.0]
}

/// Every vertex of `g` is coloured or spilled, and only vertices are.
pub open spec fn covers(g: Map<VirtualRegister, Set<VirtualRegister>>, colors: Map<usize, usize>, spilled: Seq<VirtualRegister>) -> bool {
    &&& forall|v: VirtualRegister| #[trigger] g.dom().contains(v) ==> colors.contains_key(v.0) || spilled.contains(v)
    &&& forall|n: usize| #[trigger] colors.contains_key(n) ==> g.dom().contains(VirtualRegister(n))
    &&& forall|v: VirtualRegister| #[trigger] spilled.contains(v) ==> g.dom().contains(v)
}

/// The result of register allocation: a physical register number for each coloured virtual
/// register (keyed by its number), and the virtual registers that live in memory.
#[derive(Debug)]
pub struct Allocation {
    pub allocations: HashMap<usize, usize>,
    pub spilled: Vec<VirtualRegister>,
}

broadcast use vstd::std_specs::hash::group_hash_axioms;

/// The registers live just after each instruction of `block`, when `out` is live at its end.
fn instruction_liveness(block: &TIRBlock, out: &RegSet) -> (r: Vec<RegSet>)
    requires
        out.wf(),
    ensures
        r@.len() == block.instructions@.len(),
        forall|j: int| 0 <= j < r@.len() ==> (#[trigger] r@[j]).wf() && r@[j]@ == live_after(*block, out@, j),
{
    let n = block.instructions.len();
    let mut r: Vec<RegSet> = Vec::new();
    let mut cur = out.copy();
    let mut j: usize = n;
    while j > 0
        invariant
            0 <= j <= n,
            n == block.instructions@.len(),
            cur.wf(),
            j > 0 ==> cur@ == live_after(*block, out@, j - 1),
            r@.len() == n - j,
            forall|t: int| 0 <= t < r@.len() ==> (#[trigger] r@[t]).wf() && r@[t]@ == live_after(*block, out@, j + t),
        decreases j,
    {
        j = j - 1;
        let ghost r0 = r@;
        r.insert(0, cur.copy());
        proof {
            assert forall|t: int| 0 <= t < r@.len() implies (#[trigger] r@[t]).wf() && r@[t]@ == live_after(*block, out@, j + t) by {
                if t > 0 {
                    assert(r@[t] == r0[t - 1]);
                }
            }
        }
        let instr = &block.instructions[j];
        cur.remove(instr.dest);
        let uses = instr.uses();
        let mut u: usize = 0;
        let ghost c0 = cur@;
        while u < uses.len()
            invariant
                0 <= u <= uses@.len(),
                cur.wf(),
                cur@ == c0.union(uses@.take(u as int).to_set()),
            decreases uses@.len() - u,
        {
            cur.insert(uses[u]);
            proof {
                assert(uses@.take(u + 1) == uses@.take(u as int).push(uses@[u as int]));
                uses@.take(u as int).lemma_push_to_set_commute(uses@[u as int]);
            }
            u = u + 1;
        }
        proof {
            assert(uses@.take(uses@.len() as int) == uses@);
            if j > 0 {
                assert(cur@ =~= live_after(*block, out@, j - 1));
            }
        }
    }
    r
}

/// Register allocation for one function: block liveness, the registers live after each
/// instruction, the coalescing classes, and a colouring of the coalesced interference graph.
pub struct Allocator {
    liveness: Liveness,
    instr_live: Vec<Vec<RegSet>>,
    alloc: Allocation,
    uf: UnionFind,
    vertices: Vec<VirtualRegister>,
    graph: Ghost<Map<VirtualRegister, Set<VirtualRegister>>>,
    num_registers: Ghost<nat>,
    blocks: Ghost<Seq<TIRBlock>>,
}

impl Allocator {
    /// The blocks of the function being allocated.
    pub closed spec fn blocks(&self) -> Seq<TIRBlock> {
        self.blocks@
    }

    /// The coalesced interference graph that was coloured.
    pub closed spec fn graph(&self) -> Map<VirtualRegister, Set<VirtualRegister>> {
        self.graph@
    }

    /// The number of colours available.
    pub closed spec fn num_registers(&self) -> nat {
        self.num_registers@
    }

    /// The coalescing classes.
    pub closed spec fn classes(&self) -> UnionFind {
        self.uf
    }

    /// The block liveness the allocation was computed from.
    pub closed spec fn block_liveness(&self) -> Liveness {
        self.liveness
    }

    /// The colour (physical register) of `r`'s class, if it has one.
    pub closed spec fn loc(&self, r: VirtualRegister) -> Option<usize> {
        let c = self.uf.repr(r);
        if self.alloc.allocations@.contains_key(c.0) {
            Some(self.alloc.allocations@[c.0])
        } else {
            None
        }
    }

    /// The colour of each coloured class, keyed by the number of its representative.
    pub closed spec fn coloring(&self) -> Map<usize, usize> {
        self.alloc.allocations@
    }

    /// The colours given to some class.
    pub closed spec fn colors_used(&self) -> Set<usize> {
        Set::new(|c: usize| exists|n: usize| self.alloc.allocations@.contains_key(n) && self.alloc.allocations@[n] == c)
    }

    /// The class representatives that were spilled.
    pub closed spec fn spilled_regs(&self) -> Seq<VirtualRegister> {
        self.alloc.spilled@
    }

    /// The registers live just after instruction `j` of the block at position `i`.
    pub closed spec fn live_after_at(&self, i: int, j: int) -> Set<VirtualRegister> {
        self.instr_live@[i]@[j]@
    }

    pub closed spec fn wf(&self) -> bool {
        &&& self.uf.wf()
        &&& valid_coloring(self.graph@, self.alloc.allocations@, self.num_registers@)
        &&& covers(self.graph@, self.alloc.allocations@, self.alloc.spilled@)
        &&& self.vertices@.to_set() == self.graph@.dom()
        &&& forall|v: VirtualRegister| #[trigger] self.graph@.dom().contains(v) ==> self.uf.repr(v) == v
        &&& self.liveness.blocks@.len() == self.blocks@.len()
        &&& self.instr_live@.len() == self.blocks@.len()
        &&& forall|i: int| 0 <= i < self.blocks@.len() ==> {
            &&& (#[trigger] self.liveness.blocks@[i]).label == self.blocks@[i].label
            &&& self.instr_live@[i]@.len() == self.blocks@[i].instructions@.len()
            &&& forall|j: int| 0 <= j < self.instr_live@[i]@.len() ==> (#[trigger] self.instr_live@[i]@[j]).wf()
                && self.instr_live@[i]@[j]@ == live_after(self.blocks@[i], self.liveness.blocks@[i].live_out@, j)
        }
    }

    /// `other` describes the same allocation as `self`.
    pub closed spec fn same_allocation(&self, other: &Allocator) -> bool {
        &&& self.graph@ == other.graph@
        &&& self.num_registers@ == other.num_registers@
        &&& self.blocks@ == other.blocks@
        &&& self.alloc.allocations@ == other.alloc.allocations@
        &&& self.alloc.spilled@ == other.alloc.spilled@
        &&& self.liveness == other.liveness
        &&& self.instr_live@ == other.instr_live@
        &&& forall|y: VirtualRegister| #[trigger] self.uf.repr(y) == other.uf.repr(y)
    }

    /// Computes liveness, coalesces block parameters with their arguments, builds the
    /// interference graph of the classes and colours it with `num_registers` colours.
    pub fn new(function: &TIRFunction, num_registers: usize) -> (a: Self)
        requires
            cfg_wf(function.blocks@),
        ensures
            a.wf(),
            a.blocks() == function.blocks@,
            a.num_registers() == num_registers,
            is_liveness_solution(function.blocks@, a.block_liveness().ins(), a.block_liveness().outs()),
            forall|i: int| 0 <= i < function.blocks@.len() ==> block_interferes(a.graph(), a.classes(), #[trigger] function.blocks@[i],
                a.block_liveness().blocks@[i].live_in@, a.block_liveness().blocks@[i].live_out@),
            forall|x: VirtualRegister, y: VirtualRegister| is_param_arg(function.blocks@, x, y) ==> a.classes().same(x, y),
            forall|x: VirtualRegister, y: VirtualRegister| #[trigger] a.classes().same(x, y) <==> linked(function.blocks@, x, y),
            forall|v: VirtualRegister| #[trigger] a.graph().dom().contains(v) && !a.coloring().contains_key(v.0) ==> saturated(a.graph(), a.coloring(), num_registers as nat, v),
    {
        let liveness = liveness(function);
        let mut uf = coalesce_registers(function);
        let ghost uf0 = uf;
        let interference = create_interference_graph(function, &liveness, &mut uf);
        let vertices = interference.vertices();
        proof {
            interference.lemma_order();
        }
        let ghost g = interference@;
        let alloc = allocate_registers(interference, num_registers);
        let mut instr_live: Vec<Vec<RegSet>> = Vec::new();
        let mut i: usize = 0;
        while i < function.blocks.len()
            invariant
                0 <= i <= function.blocks@.len(),
                liveness.blocks@.len() == function.blocks@.len(),
                forall|t: int| 0 <= t < liveness.blocks@.len() ==> (#[trigger] liveness.blocks@[t]).live_out.wf(),
                instr_live@.len() == i,
                forall|t: int| 0 <= t < i ==> {
                    &&& (#[trigger] instr_live@[t])@.len() == function.blocks@[t].instructions@.len()
                    &&& forall|j: int| 0 <= j < instr_live@[t]@.len() ==> (#[trigger] instr_live@[t]@[j]).wf()
                        && instr_live@[t]@[j]@ == live_after(function.blocks@[t], liveness.blocks@[t].live_out@, j)
                },
            decreases function.blocks@.len() - i,
        {
            let v = instruction_liveness(&function.blocks[i], &liveness.blocks[i].live_out);
            instr_live.push(v);
            i = i + 1;
        }
        let a = Allocator {
            liveness,
            instr_live,
            alloc,
            uf,
            vertices,
            graph: Ghost(g),
            num_registers: Ghost(num_registers as nat),
            blocks: Ghost(function.blocks@),
        };
        proof {
            assert forall|x: VirtualRegister, y: VirtualRegister| #[trigger] a.uf.same(x, y) <==> uf0.same(x, y) by {
                assert(a.uf.repr(x) == uf0.repr(x));
                assert(a.uf.repr(y) == uf0.repr(y));
            }
            assert forall|i: int| 0 <= i < function.blocks@.len() implies block_interferes(g, a.uf, #[trigger] function.blocks@[i],
                a.liveness.blocks@[i].live_in@, a.liveness.blocks@[i].live_out@) by {
                lemma_block_interferes_same_repr(g, uf0, a.uf, function.blocks@[i], a.liveness.blocks@[i].live_in@, a.liveness.blocks@[i].live_out@);
            }
        }
        a
    }

    /// The physical register of `reg`'s class, or `None` if the class was spilled.
    pub fn location(&mut self, reg: VirtualRegister) -> (r: Option<usize>)
        requires
            old(self).wf(),
        ensures
            final(self).wf(),
            final(self).same_allocation(&*old(self)),
            r == old(self).loc(reg),
    {
        let canonical = self.uf.canonical(reg);
        match self.alloc.allocations.get(&canonical.0) {
            Some(c) => Some(*c),
            None => None,
        }
    }

    /// The distinct colours in use.
    pub fn used(&self) -> (r: Vec<usize>)
        requires
            self.wf(),
        ensures
            r@.no_duplicates(),
            r@.to_set() == self.colors_used(),
    {
        let mut r: Vec<usize> = Vec::new();
        let mut i: usize = 0;
        while i < self.vertices.len()
            invariant
                0 <= i <= self.vertices@.len(),
                self.wf(),
                r@.no_duplicates(),
                forall|c: usize| r@.contains(c) ==> self.colors_used().contains(c),
                forall|t: int| 0 <= t < i && #[trigger] self.alloc.allocations@.contains_key(self.vertices@[t].0)
                    ==> r@.contains(self.alloc.allocations@[self.vertices@[t].0]),
            decreases self.vertices@.len() - i,
        {
            let v = self.vertices[i];
            match self.alloc.allocations.get(&v.0) {
                Some(c) => {
                    let c = *c;
                    let mut found = false;
                    let mut k: usize = 0;
                    while k < r.len()
                        invariant
                            0 <= k <= r@.len(),
                            found <==> exists|w: int| 0 <= w < k && r@[w] == c,
                        decreases r@.len() - k,
                    {
                        if r[k] == c {
                            found = true;
                        }
                        k = k + 1;
                    }
                    let ghost r0 = r@;
                    if !found {
                        r.push(c);
                        proof {
                            assert forall|x: usize| r0.contains(x) implies r@.contains(x) by {
                                let w = choose|w: int| 0 <= w < r0.len() && r0[w] == x;
                                assert(r@[w] == x);
                            }
                            assert(r@[r0.len() as int] == c);
                        }
                    }
                    proof {
                        assert(r@.contains(c));
                        assert(self.colors_used().contains(c));
                    }
                },
                None => {},
            }
            i = i + 1;
        }
        proof {
            assert forall|c: usize| #[trigger] self.colors_used().contains(c) implies r@.contains(c) by {
                let n = choose|n: usize| self.alloc.allocations@.contains_key(n) && self.alloc.allocations@[n] == c;
                assert(self.graph@.dom().contains(VirtualRegister(n)));
                assert(self.vertices@.to_set().contains(VirtualRegister(n)));
                let t = choose|t: int| 0 <= t < self.vertices@.len() && self.vertices@[t] == VirtualRegister(n);
                assert(self.alloc.allocations@.contains_key(self.vertices@[t].0));
            }
            assert(r@.to_set() =~= self.colors_used());
        }
        r
    }

    /// The registers live just after instruction `idx` of block `id`.
    pub fn live_out(&self, id: BlockId, idx: usize) -> (r: &RegSet)
        requires
            self.wf(),
            exists|i: int| 0 <= i < self.blocks().len() && #[trigger] self.blocks()[i].label == id
                && idx < self.blocks()[i].instructions@.len(),
        ensures
            r.wf(),
            exists|i: int| 0 <= i < self.blocks().len() && #[trigger] self.blocks()[i].label == id
                && idx < self.blocks()[i].instructions@.len() && r@ == self.live_after_at(i, idx as int)
                && r@ == live_after(self.blocks()[i], self.block_liveness().blocks@[i].live_out@, idx as int),
    {
        let mut i: usize = 0;
        while i < self.liveness.blocks.len()
            invariant
                0 <= i <= self.liveness.blocks@.len(),
                self.wf(),
                exists|t: int| i <= t < self.blocks().len() && #[trigger] self.blocks()[t].label == id
                    && idx < self.blocks()[t].instructions@.len(),
            decreases self.liveness.blocks@.len() - i,
        {
            if self.liveness.blocks[i].label.0 == id.0 && idx < self.instr_live[i].len() {
                return &self.instr_live[i][idx];
            }
            i = i + 1;
        }
        proof {
            assert(false);
        }
        &self.instr_live[0][0]
    }

    /// The spilled class representatives.
    pub fn spilled(&self) -> (r: &[VirtualRegister])
        ensures
            r@ == self.spilled_regs(),
    {
        self.alloc.spilled.as_slice()
    }
}

/// Every allocator describes the same allocation as itself.
pub proof fn lemma_same_allocation_refl(a: &Allocator)
    ensures
        a.same_allocation(a),
{
}

/// Describing the same allocation is transitive, and two allocators that do locate every
/// register alike, spill the same registers and use the same colours.
pub proof fn lemma_same_allocation(a: &Allocator, b: &Allocator, c: &Allocator)
    requires
        a.same_allocation(b),
        b.same_allocation(c),
    ensures
        a.same_allocation(c),
        forall|r: VirtualRegister| #[trigger] a.loc(r) == b.loc(r),
        a.spilled_regs() == b.spilled_regs(),
        a.colors_used() == b.colors_used(),
        a.num_registers() == b.num_registers(),
{
    assert forall|r: VirtualRegister| #[trigger] a.loc(r) == b.loc(r) by {
        assert(a.uf.repr(r) == b.uf.repr(r));
    }
    assert(a.colors_used() =~= b.colors_used());
}

/// Every colour given is below the number of colours.
pub proof fn lemma_colors_below(a: &Allocator)
    requires
        a.wf(),
    ensures
        forall|r: VirtualRegister| (#[trigger] a.loc(r)) is Some ==> a.loc(r).unwrap() < a.num_registers(),
        forall|c: usize| #[trigger] a.colors_used().contains(c) ==> c < a.num_registers(),
{
    assert forall|r: VirtualRegister| (#[trigger] a.loc(r)) is Some implies a.loc(r).unwrap() < a.num_registers() by {
        let n = a.uf.repr(r).0;
        assert(a.alloc.allocations@.contains_key(n));
    }
    assert forall|c: usize| #[trigger] a.colors_used().contains(c) implies c < a.num_registers() by {
        let n = choose|n: usize| a.alloc.allocations@.contains_key(n) && a.alloc.allocations@[n] == c;
        assert(a.alloc.allocations@.contains_key(n));
    }
}

/// A colour is in use exactly when some register is located in it.
pub proof fn lemma_used_colours(a: &Allocator)
    requires
        a.wf(),
    ensures
        forall|c: usize| #[trigger] a.colors_used().contains(c) <==> exists|r: VirtualRegister| #[trigger] a.loc(r) == Some(c),
{
    assert forall|c: usize| #[trigger] a.colors_used().contains(c) <==> exists|r: VirtualRegister| #[trigger] a.loc(r) == Some(c) by {
        if a.colors_used().contains(c) {
            let n = choose|n: usize| a.alloc.allocations@.contains_key(n) && a.alloc.allocations@[n] == c;
            let r = VirtualRegister(n);
            assert(a.graph@.dom().contains(r));
            assert(a.uf.repr(r) == r);
            assert(a.loc(r) == Some(c));
        }
        if exists|r: VirtualRegister| #[trigger] a.loc(r) == Some(c) {
            let r = choose|r: VirtualRegister| #[trigger] a.loc(r) == Some(c);
            let n = a.uf.repr(r).0;
            assert(a.alloc.allocations@.contains_key(n) && a.alloc.allocations@[n] == c);
        }
    }
}

/// Coalesced registers share their location: a block parameter and every value passed for it
/// (and anything linked to them) get the same physical register, or are all spilled.
pub proof fn lemma_coalesced_same_location(a: &Allocator, x: VirtualRegister, y: VirtualRegister)
    requires
        a.classes().same(x, y),
    ensures
        a.loc(x) == a.loc(y),
{
}

/// Two virtual registers whose classes are neighbours in the interference graph never share a
/// physical register.
pub proof fn lemma_neighbours_differ(a: &Allocator, x: VirtualRegister, y: VirtualRegister)
    requires
        a.wf(),
        a.graph().dom().contains(a.classes().repr(x)),
        a.graph()[a.classes().repr(x)].contains(a.classes().repr(y)),
        a.loc(x) is Some,
        a.loc(y) is Some,
    ensures
        a.loc(x) != a.loc(y),
{
}

/// A register that is still live when an instruction of the allocated function defines its
/// result gets a physical register other than the result's, unless the two were coalesced.
pub proof fn lemma_live_values_differ(a: &Allocator, i: int, j: int, v: VirtualRegister)
    requires
        a.wf(),
        0 <= i < a.blocks().len(),
        0 <= j < a.blocks()[i].instructions@.len(),
        block_interferes(a.graph(), a.classes(), a.blocks()[i], a.block_liveness().blocks@[i].live_in@,
            a.block_liveness().blocks@[i].live_out@),
        coalesced_live_after(a.blocks()[i], a.block_liveness().blocks@[i].live_out@, a.classes(), j).contains(v),
        !a.classes().same(v, a.blocks()[i].instructions@[j].dest),
        a.loc(v) is Some,
        a.loc(a.blocks()[i].instructions@[j].dest) is Some,
    ensures
        a.loc(v) != a.loc(a.blocks()[i].instructions@[j].dest),
{
    let d = a.blocks()[i].instructions@[j].dest;
    assert(a.graph().dom().contains(a.classes().repr(d)));
    a.classes().lemma_repr_idempotent(v);
    a.classes().lemma_repr_idempotent(d);
}

} // verus!
