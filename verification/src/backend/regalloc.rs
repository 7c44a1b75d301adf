use std::collections::HashMap;
use vstd::prelude::*;

use crate::backend::allocator::graph_color::{
    colours_low, degenerate, high_removed, popped_blocked, saturated, select, simplify, simplify_order,
};
use crate::backend::allocator::{covers, valid_coloring};
use crate::backend::liveness::{Liveness, labels_unique};
use crate::common::graph::{Graph, edges_from, grows, has_edge, interferes, lemma_grows_interferes, lemma_grows_trans};
use crate::common::regset::RegSet;
use crate::ir::types::{TIRBlock, TIRFunction, VirtualRegister, op_uses};

verus! {

/// The result of register allocation without register coalescing: a colour for each coloured
/// virtual register (keyed by its number) and the spilled registers. A register that was set
/// aside during simplification and then found no colour appears twice in `spilled`.
#[derive(Debug)]
pub struct Allocation {
    pub allocations: HashMap<usize, usize>,
    pub spilled: Vec<VirtualRegister>,
}

/// Colours `graph` with at most `num_registers` colours; spills are listed as they occur: first
/// the potential spills of simplification in the order they were removed, then the vertices
/// that selection found no colour for, in the order it met them. Every vertex removed with
/// fewer neighbours left than there are colours gets a colour.
pub fn allocate_registers(graph: Graph, num_registers: usize) -> (a: Allocation)
    requires
        graph.wf(),
    ensures
        exists|order: Seq<VirtualRegister>| #[trigger] simplify_order(graph@, num_registers as nat, order)
            && colours_low(graph@, num_registers as nat, order, a.allocations@)
            && a.spilled@ == high_removed(graph@, order, num_registers as nat, order.len() as int)
                + popped_blocked(order, a.allocations@, 0),
        valid_coloring(graph@, a.allocations@, num_registers as nat),
        covers(graph@, a.allocations@, a.spilled@),
        forall|v: VirtualRegister| #[trigger] graph@.dom().contains(v) && !a.allocations@.contains_key(v.0) ==> saturated(graph@, a.allocations@, num_registers as nat, v),
        degenerate(graph@, num_registers as nat) ==> a.spilled@.len() == 0
            && forall|v: VirtualRegister| #[trigger] graph@.dom().contains(v) ==> a.allocations@.contains_key(v.0),
{
    let (stack, spills) = simplify(&graph, num_registers);
    let mut spilled = spills;
    proof {
        assert forall|v: VirtualRegister| stack@.contains(v) implies graph@.dom().contains(v) by {
            assert(stack@.to_set().contains(v));
        }
    }
    let ghost st = stack@;
    let ghost sp = spilled@;
    let colors = select(&graph, stack, num_registers, &mut spilled);
    proof {
        if degenerate(graph@, num_registers as nat) {
            assert forall|v: VirtualRegister| #[trigger] graph@.dom().contains(v) implies colors@.contains_key(v.0) by {
                assert(st.to_set().contains(v));
                let i = choose|i: int| 0 <= i < st.len() && st[i] == v;
                assert(!sp.contains(st[i]));
            }
            assert forall|v: VirtualRegister| !#[trigger] spilled@.contains(v) by {
                if spilled@.contains(v) {
                    assert(!sp.contains(v));
                    assert(st.contains(v));
                    assert(st.to_set().contains(v));
                }
            }
            if spilled@.len() > 0 {
                assert(spilled@.contains(spilled@[0]));
            }
        }
    }
    proof {
        assert forall|v: VirtualRegister| #[trigger] graph@.dom().contains(v) implies colors@.contains_key(v.0) || spilled@.contains(v) by {
            assert(st.to_set().contains(v));
            assert(st.contains(v));
        }
        assert forall|v: VirtualRegister| #[trigger] graph@.dom().contains(v) && !colors@.contains_key(v.0) implies saturated(graph@, colors@, num_registers as nat, v) by {
            assert(st.to_set().contains(v));
            assert(st.contains(v));
        }
        assert forall|n: usize| #[trigger] colors@.contains_key(n) implies graph@.dom().contains(VirtualRegister(n)) by {
            assert(st.contains(VirtualRegister(n)));
        }
        assert(simplify_order(graph@, num_registers as nat, st));
        assert(colours_low(graph@, num_registers as nat, st, colors@));
    }
    Allocation { allocations: colors, spilled }
}


/// The registers live just after instruction `j` of block `b` when `out` is live at its end.
pub open spec fn live_after(b: TIRBlock, out: Set<VirtualRegister>, j: int) -> Set<VirtualRegister>
    decreases b.instructions@.len() - j,
{
    if j + 1 >= b.instructions@.len() {
        out
    } else {
        live_after(b, out, j + 1).remove(b.instructions@[j + 1].dest).union(op_uses(b.instructions@[j + 1].op).to_set())
    }
}

/// `liveness` describes the blocks `bs` position by position.
pub open spec fn liveness_matches(liveness: Liveness, bs: Seq<TIRBlock>) -> bool {
    &&& liveness.blocks@.len() == bs.len()
    &&& forall|i: int| 0 <= i < bs.len() ==> (#[trigger] liveness.blocks@[i]).label == bs[i].label
        && liveness.blocks@[i].live_in.wf() && liveness.blocks@[i].live_out.wf()
}

/// `a` is the result of instruction `j` of `b` and `c` is live just after it, or the other way
/// round.
pub open spec fn result_live(b: TIRBlock, out: Set<VirtualRegister>, j: int, a: VirtualRegister, c: VirtualRegister) -> bool {
    (a == b.instructions@[j].dest && live_after(b, out, j).contains(c))
        || (c == b.instructions@[j].dest && live_after(b, out, j).contains(a))
}

/// The edge `a`-`c` is one the pass draws for the block at position `i`: between a parameter and
/// a value live into the block, or between an instruction's result and a value live just after
/// it.
pub open spec fn plain_allowed_at(bs: Seq<TIRBlock>, liveness: Liveness, i: int, a: VirtualRegister, c: VirtualRegister) -> bool {
    ||| bs[i].params@.contains(a) && liveness.blocks@[i].live_in@.contains(c)
    ||| bs[i].params@.contains(c) && liveness.blocks@[i].live_in@.contains(a)
    ||| exists|j: int| 0 <= j < bs[i].instructions@.len() && #[trigger] result_live(bs[i], liveness.blocks@[i].live_out@, j, a, c)
}

/// Every edge of `g` is one the pass draws for one of the first `n` blocks of `bs`.
pub open spec fn justified_below(g: Map<VirtualRegister, Set<VirtualRegister>>, bs: Seq<TIRBlock>, liveness: Liveness, n: int) -> bool {
    forall|a: VirtualRegister, c: VirtualRegister| #[trigger] has_edge(g, a, c)
        ==> exists|i: int| 0 <= i < n && #[trigger] plain_allowed_at(bs, liveness, i, a, c)
}

proof fn lemma_justified_step(
    g0: Map<VirtualRegister, Set<VirtualRegister>>,
    g1: Map<VirtualRegister, Set<VirtualRegister>>,
    x: VirtualRegister,
    y: VirtualRegister,
    bs: Seq<TIRBlock>,
    liveness: Liveness,
    n: int,
    i: int,
)
    requires
        justified_below(g0, bs, liveness, n),
        edges_from(g0, g1, x, set![y]),
        0 <= i < n,
        plain_allowed_at(bs, liveness, i, x, y),
        plain_allowed_at(bs, liveness, i, y, x),
    ensures
        justified_below(g1, bs, liveness, n),
{
    assert forall|a: VirtualRegister, c: VirtualRegister| #[trigger] has_edge(g1, a, c)
        implies exists|ii: int| 0 <= ii < n && #[trigger] plain_allowed_at(bs, liveness, ii, a, c) by {
        if has_edge(g0, a, c) {
        } else if a == x {
            assert(c == y);
            assert(plain_allowed_at(bs, liveness, i, a, c));
        } else {
            assert(a == y && c == x);
            assert(plain_allowed_at(bs, liveness, i, a, c));
        }
    }
}

proof fn lemma_justified_same(
    g0: Map<VirtualRegister, Set<VirtualRegister>>,
    g1: Map<VirtualRegister, Set<VirtualRegister>>,
    bs: Seq<TIRBlock>,
    liveness: Liveness,
    n: int,
    m: int,
)
    requires
        justified_below(g0, bs, liveness, n),
        n <= m,
        forall|u: VirtualRegister, c: VirtualRegister| #[trigger] has_edge(g1, u, c) ==> has_edge(g0, u, c),
    ensures
        justified_below(g1, bs, liveness, m),
{
    assert forall|a: VirtualRegister, c: VirtualRegister| #[trigger] has_edge(g1, a, c)
        implies exists|ii: int| 0 <= ii < m && #[trigger] plain_allowed_at(bs, liveness, ii, a, c) by {
        assert(has_edge(g0, a, c));
    }
}

/// Builds the interference graph: each block parameter interferes with what is live into its
/// block, and each instruction's result with what is live just after it; no other edge is drawn.
pub fn create_interference_graph(function: &TIRFunction, liveness: &Liveness) -> (g: Graph)
    requires
        labels_unique(function.blocks@),
        liveness_matches(*liveness, function.blocks@),
    ensures
        g.wf(),
        forall|i: int, p: VirtualRegister| 0 <= i < function.blocks@.len() && #[trigger] function.blocks@[i].params@.contains(p) ==> g@.dom().contains(p)
            && forall|v: VirtualRegister| #[trigger] liveness.blocks@[i].live_in@.contains(v) ==> interferes(g@, p, v),
        forall|i: int, j: int| 0 <= i < function.blocks@.len() && 0 <= j < function.blocks@[i].instructions@.len() ==> g@.dom().contains(#[trigger] function.blocks@[i].instructions@[j].dest)
            && forall|v: VirtualRegister| #[trigger] live_after(function.blocks@[i], liveness.blocks@[i].live_out@, j).contains(v) ==> interferes(g@, v, function.blocks@[i].instructions@[j].dest),
        justified_below(g@, function.blocks@, *liveness, function.blocks@.len() as int),
{
    let ghost bs = function.blocks@;
    let mut graph = Graph::new();
    let mut i: usize = 0;
    while i < function.blocks.len()
        invariant
            0 <= i <= bs.len(),
            bs == function.blocks@,
            liveness_matches(*liveness, bs),
            graph.wf(),
            forall|ii: int, p: VirtualRegister| 0 <= ii < i && #[trigger] bs[ii].params@.contains(p) ==> graph@.dom().contains(p)
                && forall|v: VirtualRegister| #[trigger] liveness.blocks@[ii].live_in@.contains(v) ==> interferes(graph@, p, v),
            forall|ii: int, j: int| 0 <= ii < i && 0 <= j < bs[ii].instructions@.len() ==> graph@.dom().contains(#[trigger] bs[ii].instructions@[j].dest)
                && forall|v: VirtualRegister| #[trigger] live_after(bs[ii], liveness.blocks@[ii].live_out@, j).contains(v) ==> interferes(graph@, v, bs[ii].instructions@[j].dest),
            justified_below(graph@, bs, *liveness, i as int),
        decreases bs.len() - i,
    {
        let block = &function.blocks[i];
        let live = &liveness.blocks[i];
        let ghost g_start = graph@;
        proof {
            lemma_justified_same(graph@, graph@, bs, *liveness, i as int, i + 1);
        }
        let mut pi: usize = 0;
        while pi < block.params.len()
            invariant
                0 <= pi <= block.params@.len(),
                graph.wf(),
                grows(g_start, graph@),
                live.live_in.wf(),
                forall|q: int| 0 <= q < pi ==> graph@.dom().contains(#[trigger] block.params@[q])
                    && forall|v: VirtualRegister| #[trigger] live.live_in@.contains(v) ==> interferes(graph@, block.params@[q], v),
                justified_below(graph@, bs, *liveness, i + 1),
                bs == function.blocks@,
                0 <= i < bs.len(),
                *block == bs[i as int],
                *live == liveness.blocks@[i as int],
            decreases block.params@.len() - pi,
        {
            let p = block.params[pi];
            assert(block.params@.contains(p));
            let ghost g0 = graph@;
            graph.ensure_vertex(p);
            proof {
                lemma_justified_same(g0, graph@, bs, *liveness, i + 1, i + 1);
            }
            let n = live.live_in.len();
            let mut t: usize = 0;
            while t < n
                invariant
                    n == live.live_in.elems().len(),
                    0 <= t <= n,
                    graph.wf(),
                    grows(g0, graph@),
                    graph@.dom().contains(p),
                    forall|q: int| 0 <= q < t ==> interferes(graph@, p, #[trigger] live.live_in.elems()[q]),
                    justified_below(graph@, bs, *liveness, i + 1),
                    bs == function.blocks@,
                    0 <= i < bs.len(),
                    *block == bs[i as int],
                    *live == liveness.blocks@[i as int],
                    block.params@.contains(p),
                    live.live_in.wf(),
                decreases n - t,
            {
                let v = live.live_in.get(t);
                let ghost g1 = graph@;
                graph.connect(p, v);
                proof {
                    live.live_in.lemma_elems();
                    assert(live.live_in@.contains(v));
                    lemma_justified_step(g1, graph@, p, v, bs, *liveness, i + 1, i as int);
                    assert forall|q: int| 0 <= q < t + 1 implies interferes(graph@, p, #[trigger] live.live_in.elems()[q]) by {
                        if q < t {
                            lemma_grows_interferes(g1, graph@, p, live.live_in.elems()[q]);
                        }
                    }
                }
                t = t + 1;
            }
            proof {
                live.live_in.lemma_elems();
                lemma_grows_trans(g_start, g0, graph@);
                assert forall|q: int| 0 <= q < pi + 1 implies graph@.dom().contains(#[trigger] block.params@[q])
                    && forall|v: VirtualRegister| #[trigger] live.live_in@.contains(v) ==> interferes(graph@, block.params@[q], v) by {
                    if q < pi {
                        assert forall|v: VirtualRegister| #[trigger] live.live_in@.contains(v) implies interferes(graph@, block.params@[q], v) by {
                            lemma_grows_interferes(g0, graph@, block.params@[q], v);
                        }
                    } else {
                        assert forall|v: VirtualRegister| #[trigger] live.live_in@.contains(v) implies interferes(graph@, block.params@[q], v) by {
                            let w = choose|w: int| 0 <= w < live.live_in.elems().len() && live.live_in.elems()[w] == v;
                        }
                    }
                }
            }
            pi = pi + 1;
        }
        let mut live_set = live.live_out.copy();
        let ghost out = live.live_out@;
        let ghost g_mid = graph@;
        let nin = block.instructions.len();
        let mut j: usize = nin;
        proof {
            if nin > 0 {
                assert(live_after(*block, out, nin - 1) == out);
            }
        }
        while j > 0
            invariant
                0 <= j <= nin,
                nin == block.instructions@.len(),
                graph.wf(),
                grows(g_mid, graph@),
                live_set.wf(),
                j > 0 ==> live_set@ == live_after(*block, out, j - 1),
                forall|jj: int| j <= jj < nin ==> graph@.dom().contains(#[trigger] block.instructions@[jj].dest)
                    && forall|v: VirtualRegister| #[trigger] live_after(*block, out, jj).contains(v) ==> interferes(graph@, v, block.instructions@[jj].dest),
                justified_below(graph@, bs, *liveness, i + 1),
                bs == function.blocks@,
                0 <= i < bs.len(),
                *block == bs[i as int],
                *live == liveness.blocks@[i as int],
                out == live.live_out@,
            decreases j,
        {
            j = j - 1;
            let instr = &block.instructions[j];
            let ghost g0 = graph@;
            graph.ensure_vertex(instr.dest);
            proof {
                lemma_justified_same(g0, graph@, bs, *liveness, i + 1, i + 1);
            }
            let n = live_set.len();
            let mut t: usize = 0;
            while t < n
                invariant
                    n == live_set.elems().len(),
                    0 <= t <= n,
                    graph.wf(),
                    grows(g0, graph@),
                    graph@.dom().contains(instr.dest),
                    forall|q: int| 0 <= q < t ==> interferes(graph@, #[trigger] live_set.elems()[q], instr.dest),
                    justified_below(graph@, bs, *liveness, i + 1),
                    bs == function.blocks@,
                    0 <= i < bs.len(),
                    *block == bs[i as int],
                    *live == liveness.blocks@[i as int],
                    out == live.live_out@,
                    0 <= j < nin,
                    nin == block.instructions@.len(),
                    *instr == block.instructions@[j as int],
                    live_set.wf(),
                    live_set@ == live_after(*block, out, j as int),
                decreases n - t,
            {
                let v = live_set.get(t);
                let ghost g1 = graph@;
                graph.connect(v, instr.dest);
                proof {
                    live_set.lemma_elems();
                    assert(live_after(*block, out, j as int).contains(v));
                    assert(result_live(bs[i as int], liveness.blocks@[i as int].live_out@, j as int, v, instr.dest));
                    assert(result_live(bs[i as int], liveness.blocks@[i as int].live_out@, j as int, instr.dest, v));
                    lemma_justified_step(g1, graph@, v, instr.dest, bs, *liveness, i + 1, i as int);
                    assert forall|q: int| 0 <= q < t + 1 implies interferes(graph@, #[trigger] live_set.elems()[q], instr.dest) by {
                        if q < t {
                            lemma_grows_interferes(g1, graph@, live_set.elems()[q], instr.dest);
                        }
                    }
                }
                t = t + 1;
            }
            proof {
                live_set.lemma_elems();
                lemma_grows_trans(g_mid, g0, graph@);
                assert forall|jj: int| j <= jj < nin implies graph@.dom().contains(#[trigger] block.instructions@[jj].dest)
                    && forall|v: VirtualRegister| #[trigger] live_after(*block, out, jj).contains(v) ==> interferes(graph@, v, block.instructions@[jj].dest) by {
                    if jj > j {
                        assert(g0.dom().contains(block.instructions@[jj].dest));
                        assert forall|v: VirtualRegister| #[trigger] live_after(*block, out, jj).contains(v) implies interferes(graph@, v, block.instructions@[jj].dest) by {
                            lemma_grows_interferes(g0, graph@, v, block.instructions@[jj].dest);
                        }
                    } else {
                        assert forall|v: VirtualRegister| #[trigger] live_after(*block, out, jj).contains(v) implies interferes(graph@, v, block.instructions@[jj].dest) by {
                            let w = choose|w: int| 0 <= w < live_set.elems().len() && live_set.elems()[w] == v;
                        }
                    }
                }
            }
            live_set.remove(instr.dest);
            let uses = instr.uses();
            let mut u: usize = 0;
            let ghost ls0 = live_set@;
            while u < uses.len()
                invariant
                    0 <= u <= uses@.len(),
                    live_set.wf(),
                    live_set@ == ls0.union(uses@.take(u as int).to_set()),
                decreases uses@.len() - u,
            {
                live_set.insert(uses[u]);
                proof {
                    assert(uses@.take(u + 1) == uses@.take(u as int).push(uses@[u as int]));
                    uses@.take(u as int).lemma_push_to_set_commute(uses@[u as int]);
                }
                u = u + 1;
            }
            proof {
                assert(uses@.take(uses@.len() as int) == uses@);
                if j > 0 {
                    assert(live_set@ =~= live_after(*block, out, j - 1));
                }
            }
        }
        proof {
            lemma_grows_trans(g_start, g_mid, graph@);
            assert forall|ii: int, p: VirtualRegister| 0 <= ii < i + 1 && #[trigger] bs[ii].params@.contains(p) implies graph@.dom().contains(p)
                && forall|v: VirtualRegister| #[trigger] liveness.blocks@[ii].live_in@.contains(v) ==> interferes(graph@, p, v) by {
                if ii < i {
                    assert(g_start.dom().contains(p));
                    assert forall|v: VirtualRegister| #[trigger] liveness.blocks@[ii].live_in@.contains(v) implies interferes(graph@, p, v) by {
                        lemma_grows_interferes(g_start, graph@, p, v);
                    }
                } else {
                    let q = choose|q: int| 0 <= q < bs[ii].params@.len() && bs[ii].params@[q] == p;
                    assert(g_mid.dom().contains(block.params@[q]));
                    assert forall|v: VirtualRegister| #[trigger] liveness.blocks@[ii].live_in@.contains(v) implies interferes(graph@, p, v) by {
                        lemma_grows_interferes(g_mid, graph@, p, v);
                    }
                }
            }
            assert forall|ii: int, jj: int| 0 <= ii < i + 1 && 0 <= jj < bs[ii].instructions@.len() implies graph@.dom().contains(#[trigger] bs[ii].instructions@[jj].dest)
                && forall|v: VirtualRegister| #[trigger] live_after(bs[ii], liveness.blocks@[ii].live_out@, jj).contains(v) ==> interferes(graph@, v, bs[ii].instructions@[jj].dest) by {
                if ii < i {
                    assert(g_start.dom().contains(bs[ii].instructions@[jj].dest));
                    assert forall|v: VirtualRegister| #[trigger] live_after(bs[ii], liveness.blocks@[ii].live_out@, jj).contains(v) implies interferes(graph@, v, bs[ii].instructions@[jj].dest) by {
                        lemma_grows_interferes(g_start, graph@, v, bs[ii].instructions@[jj].dest);
                    }
                }
            }
        }
        i = i + 1;
    }
    graph
}

} // verus!
