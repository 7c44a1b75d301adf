use std::collections::HashMap;
use vstd::prelude::*;

use crate::backend::allocator::{Allocation, covers, valid_coloring};
use crate::backend::liveness::Liveness;
use crate::backend::regalloc::liveness_matches;
use crate::common::graph::{
    Graph, edges_from, grows, has_edge, interferes, lemma_edges_from_trans, lemma_grows_interferes, lemma_grows_trans,
    lemma_insert_vertex_from, lemma_with_edge, lemma_with_edge_from,
};
use crate::common::regset::RegSet;
use crate::common::uf::UnionFind;
use crate::ir::types::{TIRBlock, TIRFunction, VirtualRegister, lemma_push_contains, op_uses, terminator_uses};

verus! {

broadcast use vstd::std_specs::hash::group_hash_axioms;

/// The number of neighbours that `order[i]` has among the vertices not before it in `order`.
pub open spec fn degree_when_removed(g: Map<VirtualRegister, Set<VirtualRegister>>, order: Seq<VirtualRegister>, i: int) -> nat {
    g[order[i]].intersect(remaining(g, order, i)).len()
}

/// The vertices of `g` not before position `i` in `order`.
pub open spec fn remaining(g: Map<VirtualRegister, Set<VirtualRegister>>, order: Seq<VirtualRegister>, i: int) -> Set<VirtualRegister> {
    g.dom().difference(order.take(i).to_set())
}

/// `order` is an order in which simplification may remove the vertices of `g`: each vertex once,
/// and one with `k` or more neighbours among the remaining vertices only when every remaining
/// vertex has that many.
pub open spec fn simplify_order(g: Map<VirtualRegister, Set<VirtualRegister>>, k: nat, order: Seq<VirtualRegister>) -> bool {
    &&& order.no_duplicates()
    &&& order.to_set() == g.dom()
    &&& forall|i: int, w: VirtualRegister| 0 <= i < order.len() && #[trigger] degree_when_removed(g, order, i) >= k
        && #[trigger] remaining(g, order, i).contains(w) ==> g[w].intersect(remaining(g, order, i)).len() >= k
}

/// The potential spills among the first `n` vertices of `order`: those removed with `k` or more
/// neighbours left, in order.
pub open spec fn high_removed(g: Map<VirtualRegister, Set<VirtualRegister>>, order: Seq<VirtualRegister>, k: nat, n: int) -> Seq<VirtualRegister>
    decreases n,
{
    if n <= 0 {
        Seq::empty()
    } else if degree_when_removed(g, order, n - 1) >= k {
        high_removed(g, order, k, n - 1).push(order[n - 1])
    } else {
        high_removed(g, order, k, n - 1)
    }
}

proof fn lemma_high_removed_prefix(g: Map<VirtualRegister, Set<VirtualRegister>>, s1: Seq<VirtualRegister>, s2: Seq<VirtualRegister>, k: nat, n: int)
    requires
        0 <= n <= s1.len(),
        n <= s2.len(),
        s1.take(n) == s2.take(n),
    ensures
        high_removed(g, s1, k, n) == high_removed(g, s2, k, n),
    decreases n,
{
    if n > 0 {
        assert(s1.take(n - 1) == s2.take(n - 1)) by {
            assert(s1.take(n - 1) =~= s1.take(n).take(n - 1));
            assert(s2.take(n - 1) =~= s2.take(n).take(n - 1));
        }
        lemma_high_removed_prefix(g, s1, s2, k, n - 1);
        assert(s1[n - 1] == s1.take(n)[n - 1]);
        assert(s2[n - 1] == s2.take(n)[n - 1]);
    }
}

/// A vertex is a potential spill exactly when it was removed with `k` or more neighbours left.
proof fn lemma_high_removed_contains(g: Map<VirtualRegister, Set<VirtualRegister>>, order: Seq<VirtualRegister>, k: nat, n: int, v: VirtualRegister)
    requires
        order.no_duplicates(),
        0 <= n <= order.len(),
    ensures
        high_removed(g, order, k, n).contains(v) <==> exists|i: int| 0 <= i < n && order[i] == v && #[trigger] degree_when_removed(g, order, i) >= k,
    decreases n,
{
    if n > 0 {
        lemma_high_removed_contains(g, order, k, n - 1, v);
        let h = high_removed(g, order, k, n - 1);
        if degree_when_removed(g, order, n - 1) >= k {
            assert(high_removed(g, order, k, n) == h.push(order[n - 1]));
            let hp = h.push(order[n - 1]);
            if hp.contains(v) && !h.contains(v) {
                let j = choose|j: int| 0 <= j < hp.len() && #[trigger] hp[j] == v;
                if j < h.len() {
                    assert(h[j] == v);
                }
            }
            if v == order[n - 1] {
                assert(h.push(order[n - 1])[h.len() as int] == v);
            }
            if h.contains(v) {
                let j = choose|j: int| 0 <= j < h.len() && h[j] == v;
                assert(h.push(order[n - 1])[j] == v);
            }
        }
    }
}

/// Every nonempty set of vertices of `g` has a member with fewer than `k` neighbours in the set.
pub open spec fn degenerate(g: Map<VirtualRegister, Set<VirtualRegister>>, k: nat) -> bool {
    forall|s: Set<VirtualRegister>| #[trigger] s.subset_of(g.dom()) && s != Set::<VirtualRegister>::empty()
        ==> exists|v: VirtualRegister| s.contains(v) && g[v].intersect(s).len() < k
}

/// Simplification: repeatedly removes a vertex of degree below `k` (the first in vertex order),
/// or else one of highest degree (the last such in vertex order), which is recorded as a
/// potential spill. Returns the removal order and the potential spills.
pub(crate) fn simplify(graph: &Graph, k: usize) -> (r: (Vec<VirtualRegister>, Vec<VirtualRegister>))
    requires
        graph.wf(),
    ensures
        r.0@.no_duplicates(),
        r.0@.to_set() == graph@.dom(),
        r.1@.no_duplicates(),
        forall|v: VirtualRegister| r.1@.contains(v) ==> graph@.dom().contains(v),
        forall|i: int| 0 <= i < r.0@.len() && !r.1@.contains(#[trigger] r.0@[i]) ==> degree_when_removed(graph@, r.0@, i) < k,
        degenerate(graph@, k as nat) ==> r.1@.len() == 0,
        r.1@ == high_removed(graph@, r.0@, k as nat, r.0@.len() as int),
        simplify_order(graph@, k as nat, r.0@),
{
    let mut work = graph.copy();
    let mut stack: Vec<VirtualRegister> = Vec::new();
    let mut spilled: Vec<VirtualRegister> = Vec::new();
    proof {
        work.lemma_order();
        graph.lemma_order();
        assert(stack@.to_set() =~= Set::<VirtualRegister>::empty());
        assert forall|u: VirtualRegister| #[trigger] work@.dom().contains(u) implies work@[u] == graph@[u].intersect(work@.dom()) by {
            assert(work@[u] =~= graph@[u].intersect(work@.dom()));
        }
    }
    while !work.is_empty()
        invariant
            work.wf(),
            graph.wf(),
            stack@.no_duplicates(),
            spilled@.no_duplicates(),
            forall|v: VirtualRegister| stack@.contains(v) ==> !work@.dom().contains(v),
            forall|v: VirtualRegister| #[trigger] graph@.dom().contains(v) <==> (work@.dom().contains(v) || stack@.contains(v)),
            forall|v: VirtualRegister| spilled@.contains(v) ==> stack@.contains(v),
            forall|u: VirtualRegister| #[trigger] work@.dom().contains(u) ==> work@[u] == graph@[u].intersect(work@.dom()),
            forall|i: int| 0 <= i < stack@.len() && !spilled@.contains(#[trigger] stack@[i]) ==> degree_when_removed(graph@, stack@, i) < k,
            degenerate(graph@, k as nat) ==> spilled@.len() == 0,
            spilled@ == high_removed(graph@, stack@, k as nat, stack@.len() as int),
            forall|i: int, w: VirtualRegister| 0 <= i < stack@.len() && #[trigger] degree_when_removed(graph@, stack@, i) >= k
                && #[trigger] remaining(graph@, stack@, i).contains(w) ==> graph@[w].intersect(remaining(graph@, stack@, i)).len() >= k,
        decreases work@.dom().len(),
    {
        let verts = work.vertices();
        proof {
            work.lemma_order();
            if verts@.len() == 0 {
                assert(work@.dom() =~= Set::<VirtualRegister>::empty());
            }
        }
        let mut low: Option<VirtualRegister> = None;
        let mut i: usize = 0;
        while i < verts.len()
            invariant
                0 <= i <= verts@.len(),
                verts@ == work.order(),
                work@.dom() == work.order().to_set(),
                work.wf(),
                low matches Some(v) ==> work@.dom().contains(v) && work@[v].len() < k,
                low is None ==> forall|q: int| 0 <= q < i ==> work@[#[trigger] verts@[q]].len() >= k,
            ensures
                low matches Some(v) ==> work@.dom().contains(v) && work@[v].len() < k,
                low is None ==> forall|q: int| 0 <= q < verts@.len() ==> work@[#[trigger] verts@[q]].len() >= k,
            decreases verts@.len() - i,
        {
            if work.degree(verts[i]) < k {
                proof {
                    assert(work.order().to_set().contains(verts@[i as int]));
                }
                low = Some(verts[i]);
                break;
            }
            i = i + 1;
        }
        let chosen = match low {
            Some(v) => v,
            None => {
                proof {
                    assert(work.order().to_set().contains(verts@[0]));
                    if degenerate(graph@, k as nat) {
                        let s = work@.dom();
                        assert(s.subset_of(graph@.dom()));
                        assert(s.contains(verts@[0]));
                        let v = choose|v: VirtualRegister| s.contains(v) && graph@[v].intersect(s).len() < k;
                        assert(work.order().to_set().contains(v));
                        let q = choose|q: int| 0 <= q < verts@.len() && verts@[q] == v;
                        assert(work@[verts@[q]].len() >= k);
                        assert(false);
                    }
                }
                let mut best = verts[0];
                let mut best_deg = work.degree(verts[0]);
                let mut j: usize = 1;
                while j < verts.len()
                    invariant
                        1 <= j <= verts@.len(),
                        verts@ == work.order(),
                        work@.dom() == work.order().to_set(),
                        work.wf(),
                        work@.dom().contains(best),
                    decreases verts@.len() - j,
                {
                    let d = work.degree(verts[j]);
                    if d >= best_deg {
                        best = verts[j];
                        best_deg = d;
                        proof {
                            assert(work.order().to_set().contains(verts@[j as int]));
                        }
                    }
                    j = j + 1;
                }
                proof {
                    assert(!stack@.contains(best));
                    if spilled@.contains(best) {
                        assert(stack@.contains(best));
                    }
                }
                proof {
                    assert(work.order().to_set().contains(best));
                    let q = choose|q: int| 0 <= q < verts@.len() && verts@[q] == best;
                    assert(work@[verts@[q]].len() >= k);
                    assert(work@[best].len() >= k);
                }
                let ghost sp_before = spilled@;
                spilled.push(best);
                proof {
                    lemma_push_contains(sp_before, best);
                    assert forall|x: VirtualRegister| spilled@.contains(x) && x != best implies stack@.contains(x) by {
                        assert(sp_before.contains(x));
                    }
                }
                best
            },
        };
        let ghost before = work@;
        let ghost stack0 = stack@;
        let ghost spilled0 = spilled@;
        proof {
            if low is None {
                assert(before[chosen].len() >= k);
                assert forall|w: VirtualRegister| #[trigger] before.dom().contains(w) implies before[w].len() >= k by {
                    assert(work.order().to_set().contains(w));
                    let q = choose|q: int| 0 <= q < verts@.len() && verts@[q] == w;
                    assert(work@[verts@[q]].len() >= k);
                }
            } else {
                assert(before[chosen].len() < k);
            }
        }
        proof {
            if low is None {
                assert(spilled0 == spilled@);
            }
        }
        proof {
            assert(before.dom() =~= graph@.dom().difference(stack0.to_set())) by {
                assert forall|v: VirtualRegister| before.dom().contains(v) <==> graph@.dom().difference(stack0.to_set()).contains(v) by {
                    if graph@.dom().contains(v) && !before.dom().contains(v) {
                        assert(stack0.contains(v));
                    }
                }
            }
        }
        work.remove_vertex(chosen);
        proof {
            assert(!stack0.contains(chosen));
        }
        stack.push(chosen);
        proof {
            assert forall|u: VirtualRegister| #[trigger] work@.dom().contains(u) implies work@[u] == graph@[u].intersect(work@.dom()) by {
                assert(before.dom().contains(u));
                assert(work@[u] =~= graph@[u].intersect(work@.dom()));
            }
            let i0 = stack0.len() as int;
            assert(stack@.take(i0) == stack0);
            assert forall|i: int| 0 <= i < stack@.len() && !spilled@.contains(#[trigger] stack@[i]) implies degree_when_removed(graph@, stack@, i) < k by {
                if i < i0 {
                    assert(stack@[i] == stack0[i]);
                    assert(stack@.take(i) == stack0.take(i));
                    assert(!spilled0.contains(stack0[i]));
                } else {
                    assert(stack@[i] == chosen);
                    assert(low is Some);
                    assert(graph@[chosen].intersect(graph@.dom().difference(stack0.to_set())) == before[chosen]);
                }
            }
            assert(remaining(graph@, stack@, i0) == before.dom());
            assert(graph@[chosen].intersect(before.dom()) == before[chosen]);
            assert(degree_when_removed(graph@, stack@, i0) == before[chosen].len());
            assert(stack0.take(i0) =~= stack0);
            lemma_high_removed_prefix(graph@, stack@, stack0, k as nat, i0);
            if low is None {
                assert(spilled@ == high_removed(graph@, stack@, k as nat, i0).push(chosen));
            } else {
                assert(spilled@ == high_removed(graph@, stack@, k as nat, i0));
            }
            assert forall|i: int, w: VirtualRegister| 0 <= i < stack@.len() && #[trigger] degree_when_removed(graph@, stack@, i) >= k
                && #[trigger] remaining(graph@, stack@, i).contains(w) implies graph@[w].intersect(remaining(graph@, stack@, i)).len() >= k by {
                if i < i0 {
                    assert(stack@.take(i) == stack0.take(i));
                    assert(stack@[i] == stack0[i]);
                    assert(remaining(graph@, stack@, i) == remaining(graph@, stack0, i));
                    assert(degree_when_removed(graph@, stack@, i) == degree_when_removed(graph@, stack0, i));
                } else {
                    assert(low is None);
                    assert(before.dom().contains(w));
                    assert(graph@[w].intersect(before.dom()) == before[w]);
                }
            }
            lemma_push_contains(stack0, chosen);
            assert(work@.dom() =~= before.dom().remove(chosen));
            work.lemma_order();
            vstd::set::axiom_set_remove_len(before.dom(), chosen);
            assert forall|v: VirtualRegister| stack@.contains(v) implies !work@.dom().contains(v) by {
                if v != chosen {
                    assert(stack0.contains(v));
                }
            }
            assert forall|v: VirtualRegister| #[trigger] graph@.dom().contains(v) <==> (work@.dom().contains(v) || stack@.contains(v)) by {
                if stack@.contains(v) && v != chosen {
                    assert(stack0.contains(v));
                }
                if stack0.contains(v) {
                    assert(stack@.contains(v));
                }
            }
            assert forall|v: VirtualRegister| spilled@.contains(v) implies stack@.contains(v) by {
                if v != chosen {
                    assert(spilled0.contains(v));
                    assert(stack0.contains(v));
                }
            }
        }
    }
    proof {
        assert(stack@.to_set() =~= graph@.dom()) by {
            assert forall|v: VirtualRegister| stack@.to_set().contains(v) <==> graph@.dom().contains(v) by {
                if graph@.dom().contains(v) {
                    assert(!work@.dom().contains(v));
                }
            }
        }
    }
    (stack, spilled)
}

/// Some neighbour of `v` has colour `c`.
pub open spec fn neighbour_coloured(g: Map<VirtualRegister, Set<VirtualRegister>>, colors: Map<usize, usize>, v: VirtualRegister, c: usize) -> bool {
    exists|w: VirtualRegister| #[trigger] g[v].contains(w) && colors.contains_key(w.0) && colors[w.0] == c
}

/// Every colour below `k` is taken by some coloured neighbour of `v`.
pub open spec fn saturated(g: Map<VirtualRegister, Set<VirtualRegister>>, colors: Map<usize, usize>, k: nat, v: VirtualRegister) -> bool {
    forall|c: usize| c < k ==> #[trigger] neighbour_coloured(g, colors, v, c)
}

/// The vertices of `order[n..]` left without a colour, last first: the order in which selection
/// meets them.
pub open spec fn popped_blocked(order: Seq<VirtualRegister>, colors: Map<usize, usize>, n: int) -> Seq<VirtualRegister>
    decreases order.len() - n,
{
    if n < 0 || n >= order.len() {
        Seq::empty()
    } else if colors.contains_key(order[n].0) {
        popped_blocked(order, colors, n + 1)
    } else {
        popped_blocked(order, colors, n + 1).push(order[n])
    }
}

proof fn lemma_popped_blocked_same(order: Seq<VirtualRegister>, c1: Map<usize, usize>, c2: Map<usize, usize>, n: int)
    requires
        0 <= n,
        forall|i: int| n <= i < order.len() ==> (c1.contains_key((#[trigger] order[i]).0) <==> c2.contains_key(order[i].0)),
    ensures
        popped_blocked(order, c1, n) == popped_blocked(order, c2, n),
    decreases order.len() - n,
{
    if n < order.len() {
        lemma_popped_blocked_same(order, c1, c2, n + 1);
        assert(c1.contains_key(order[n].0) <==> c2.contains_key(order[n].0));
    }
}

proof fn lemma_popped_blocked_contains(order: Seq<VirtualRegister>, c: Map<usize, usize>, n: int, v: VirtualRegister)
    requires
        0 <= n,
    ensures
        popped_blocked(order, c, n).contains(v) <==> exists|i: int| n <= i < order.len() && #[trigger] order[i] == v && !c.contains_key(v.0),
    decreases order.len() - n,
{
    if n < order.len() {
        lemma_popped_blocked_contains(order, c, n + 1, v);
        let r = popped_blocked(order, c, n + 1);
        if !c.contains_key(order[n].0) {
            let rp = r.push(order[n]);
            if rp.contains(v) && !r.contains(v) {
                let j = choose|j: int| 0 <= j < rp.len() && #[trigger] rp[j] == v;
                if j < r.len() {
                    assert(r[j] == v);
                }
            }
            if v == order[n] {
                assert(rp[r.len() as int] == v);
            }
            if r.contains(v) {
                let j = choose|j: int| 0 <= j < r.len() && r[j] == v;
                assert(rp[j] == v);
            }
        }
    }
}

/// Every vertex that `order` removes with fewer than `k` neighbours left has a colour.
pub open spec fn colours_low(g: Map<VirtualRegister, Set<VirtualRegister>>, k: nat, order: Seq<VirtualRegister>, colors: Map<usize, usize>) -> bool {
    forall|i: int| 0 <= i < order.len() && degree_when_removed(g, order, i) < k ==> colors.contains_key((#[trigger] order[i]).0)
}

/// Some member of `s` has colour `c`.
pub open spec fn has_colour(s: Set<VirtualRegister>, colors: Map<usize, usize>, c: usize) -> bool {
    exists|w: VirtualRegister| #[trigger] s.contains(w) && colors.contains_key(w.0) && colors[w.0] == c
}

/// A set in which each of the colours below `k` is taken has at least `k` members.
proof fn lemma_colours_need_members(s: Set<VirtualRegister>, colors: Map<usize, usize>, k: nat)
    requires
        s.finite(),
        k <= usize::MAX,
        forall|c: usize| c < k ==> #[trigger] has_colour(s, colors, c),
    ensures
        s.len() >= k,
    decreases k,
{
    if k > 0 {
        let c0 = (k - 1) as usize;
        assert(has_colour(s, colors, c0));
        let w = choose|w: VirtualRegister| #[trigger] s.contains(w) && colors.contains_key(w.0) && colors[w.0] == c0;
        let s2 = s.remove(w);
        assert forall|c: usize| c < (k - 1) as nat implies #[trigger] has_colour(s2, colors, c) by {
            assert(has_colour(s, colors, c));
            let w2 = choose|w2: VirtualRegister| #[trigger] s.contains(w2) && colors.contains_key(w2.0) && colors[w2.0] == c;
            assert(w2 != w);
            assert(s2.contains(w2));
        }
        lemma_colours_need_members(s2, colors, (k - 1) as nat);
    }
}

/// Selection: pops vertices off `stack`, giving each the lowest colour below `k` not used by an
/// already coloured neighbour in `graph`; a vertex with no free colour is appended to `spilled`.
pub(crate) fn select(graph: &Graph, stack: Vec<VirtualRegister>, k: usize, spilled: &mut Vec<VirtualRegister>) -> (colors: HashMap<usize, usize>)
    requires
        graph.wf(),
        stack@.no_duplicates(),
        forall|v: VirtualRegister| stack@.contains(v) ==> graph@.dom().contains(v),
    ensures
        valid_coloring(graph@, colors@, k as nat),
        forall|v: VirtualRegister| #[trigger] stack@.contains(v) ==> colors@.contains_key(v.0) || final(spilled)@.contains(v),
        forall|n: usize| #[trigger] colors@.contains_key(n) ==> stack@.contains(VirtualRegister(n)),
        forall|v: VirtualRegister| #[trigger] final(spilled)@.contains(v) ==> old(spilled)@.contains(v) || stack@.contains(v),
        forall|v: VirtualRegister| #[trigger] stack@.contains(v) && !colors@.contains_key(v.0) ==> saturated(graph@, colors@, k as nat, v),
        forall|i: int| 0 <= i < stack@.len() && degree_when_removed(graph@, stack@, i) < k ==> colors@.contains_key((#[trigger] stack@[i]).0),
        forall|v: VirtualRegister| #[trigger] final(spilled)@.contains(v) && !old(spilled)@.contains(v) ==> !colors@.contains_key(v.0),
        final(spilled)@ == old(spilled)@ + popped_blocked(stack@, colors@, 0),
{
    let ghost all = stack@;
    let mut stack = stack;
    let mut colors: HashMap<usize, usize> = HashMap::new();
    let ghost sp0 = spilled@;
    proof {
        assert(all.take(all.len() as int) == all);
        assert(colors@ =~= Map::<usize, usize>::empty());
    }
    while stack.len() > 0
        invariant
            graph.wf(),
            all.no_duplicates(),
            forall|v: VirtualRegister| all.contains(v) ==> graph@.dom().contains(v),
            stack@ == all.take(stack@.len() as int),
            stack@.len() <= all.len(),
            valid_coloring(graph@, colors@, k as nat),
            forall|n: usize| #[trigger] colors@.contains_key(n) ==> exists|i: int| stack@.len() <= i < all.len() && all[i] == VirtualRegister(n),
            forall|i: int| stack@.len() <= i < all.len() ==> colors@.contains_key((#[trigger] all[i]).0) || spilled@.contains(all[i]),
            forall|v: VirtualRegister| #[trigger] spilled@.contains(v) ==> sp0.contains(v) || exists|i: int| stack@.len() <= i < all.len() && all[i] == v,
            forall|i: int| stack@.len() <= i < all.len() && !colors@.contains_key((#[trigger] all[i]).0) ==> saturated(graph@, colors@, k as nat, all[i]),
            forall|i: int| stack@.len() <= i < all.len() && degree_when_removed(graph@, all, i) < k ==> colors@.contains_key((#[trigger] all[i]).0),
            forall|v: VirtualRegister| #[trigger] spilled@.contains(v) && !sp0.contains(v) ==> !colors@.contains_key(v.0),
            spilled@ == sp0 + popped_blocked(all, colors@, stack@.len() as int),
        decreases stack@.len(),
    {
        let v = stack.pop().unwrap();
        let ghost pos = stack@.len() as int;
        proof {
            assert(all.take(pos + 1).drop_last() == all.take(pos));
            assert(all.take(pos + 1)[pos] == v);
            assert(all[pos] == v);
            assert(!colors@.contains_key(v.0)) by {
                if colors@.contains_key(v.0) {
                    let i = choose|i: int| pos + 1 <= i < all.len() && all[i] == VirtualRegister(v.0);
                    assert(all[i] == all[pos]);
                }
            }
            assert(all.contains(v));
            assert(graph@.dom().contains(v));
        }
        let mut used: Vec<bool> = Vec::new();
        let mut c: usize = 0;
        while c < k
            invariant
                0 <= c <= k,
                used@.len() == c,
                forall|j: int| 0 <= j < c ==> !#[trigger] used@[j],
            decreases k - c,
        {
            used.push(false);
            c = c + 1;
        }
        match graph.edges(v) {
            Some(neighbors) => {
                let nn = neighbors.len();
                let mut t: usize = 0;
                while t < nn
                    invariant
                        nn == neighbors.elems().len(),
                        0 <= t <= nn,
                        used@.len() == k,
                        valid_coloring(graph@, colors@, k as nat),
                        forall|q: int| 0 <= q < t && colors@.contains_key((#[trigger] neighbors.elems()[q]).0) ==> used@[colors@[neighbors.elems()[q].0] as int],
                        forall|c: int| 0 <= c < k && #[trigger] used@[c] ==> exists|q: int| 0 <= q < t && colors@.contains_key(neighbors.elems()[q].0)
                            && colors@[neighbors.elems()[q].0] == c,
                    decreases nn - t,
                {
                    let n = neighbors.get(t);
                    let ghost used0 = used@;
                    match colors.get(&n.0) {
                        Some(color) => {
                            let cc = *color;
                            if cc < k {
                                used[cc] = true;
                            }
                        },
                        None => {},
                    }
                    proof {
                        assert forall|c: int| 0 <= c < k && #[trigger] used@[c] implies exists|q: int| 0 <= q < t + 1 && colors@.contains_key(neighbors.elems()[q].0)
                            && colors@[neighbors.elems()[q].0] == c by {
                            if !used0[c] {
                                assert(neighbors.elems()[t as int] == n);
                            } else {
                                let q = choose|q: int| 0 <= q < t && colors@.contains_key(neighbors.elems()[q].0) && colors@[neighbors.elems()[q].0] == c;
                            }
                        }
                    }
                    t = t + 1;
                }
                proof {
                    neighbors.lemma_elems();
                    assert forall|c: int| 0 <= c < k && #[trigger] used@[c] implies neighbour_coloured(graph@, colors@, v, c as usize) by {
                        let q = choose|q: int| 0 <= q < nn && colors@.contains_key(neighbors.elems()[q].0) && colors@[neighbors.elems()[q].0] == c;
                        let w = neighbors.elems()[q];
                        assert(neighbors.elems().contains(w));
                        assert(graph@[v].contains(w));
                    }
                    assert forall|w: VirtualRegister| graph@[v].contains(w) && colors@.contains_key(w.0) implies used@[colors@[w.0] as int] by {
                        assert(neighbors.elems().contains(w));
                        let q = choose|q: int| 0 <= q < neighbors.elems().len() && neighbors.elems()[q] == w;
                        assert(colors@.contains_key((neighbors.elems()[q]).0));
                    }
                }
            },
            None => {
                proof {
                    assert forall|c: int| 0 <= c < k && #[trigger] used@[c] implies neighbour_coloured(graph@, colors@, v, c as usize) by {
                    }
                }
            },
        }
        let mut picked: Option<usize> = None;
        let mut r: usize = 0;
        while r < k
            invariant
                0 <= r <= k,
                used@.len() == k,
                picked matches Some(p) ==> p < k && !used@[p as int],
                picked is None ==> forall|j: int| 0 <= j < r ==> #[trigger] used@[j],
            ensures
                used@.len() == k,
                picked matches Some(p) ==> p < k && !used@[p as int],
                picked is None ==> forall|j: int| 0 <= j < k ==> #[trigger] used@[j],
            decreases k - r,
        {
            if !used[r] {
                picked = Some(r);
                break;
            }
            r = r + 1;
        }
        let ghost colors0 = colors@;
        let ghost spilled0 = spilled@;
        match picked {
            Some(color) => {
                colors.insert(v.0, color);
                proof {
                    assert forall|u: VirtualRegister, w: VirtualRegister|
                        #![trigger graph@[u].contains(w)]
                        graph@.dom().contains(u) && graph@[u].contains(w) && colors@.contains_key(u.0) && colors@.contains_key(w.0)
                        implies colors@[u.0] != colors@[w.0] by {
                        graph.lemma_order();
                        if u.0 == v.0 {
                            assert(u == v);
                            assert(w != v);
                            assert(colors0.contains_key(w.0));
                            assert(used@[colors0[w.0] as int]);
                        } else if w.0 == v.0 {
                            assert(w == v);
                            assert(graph@[w].contains(u));
                            assert(colors0.contains_key(u.0));
                            assert(used@[colors0[u.0] as int]);
                        } else {
                            assert(colors0.contains_key(u.0) && colors0.contains_key(w.0));
                        }
                    }
                    assert forall|n: usize| #[trigger] colors@.contains_key(n) implies exists|i: int| pos <= i < all.len() && all[i] == VirtualRegister(n) by {
                        if n == v.0 {
                            assert(all[pos] == VirtualRegister(n));
                        } else {
                            assert(colors0.contains_key(n));
                        }
                    }
                    assert(colors@.contains_key(v.0));
                }
            },
            None => {
                proof {
                    graph.lemma_order();
                    let rem = graph@.dom().difference(all.take(pos).to_set());
                    let sv = graph@[v].intersect(rem);
                    assert(graph@[v].finite());
                    assert(sv.finite());
                    assert forall|c: usize| c < k implies #[trigger] has_colour(sv, colors@, c) by {
                        assert(used@[c as int]);
                        assert(neighbour_coloured(graph@, colors@, v, c));
                        let w = choose|w: VirtualRegister| #[trigger] graph@[v].contains(w) && colors@.contains_key(w.0) && colors@[w.0] == c;
                        let i = choose|i: int| pos + 1 <= i < all.len() && all[i] == VirtualRegister(w.0);
                        assert(all[i] == w);
                        assert(graph@.dom().contains(w));
                        assert(!all.take(pos).contains(w)) by {
                            if all.take(pos).contains(w) {
                                let i2 = choose|i2: int| 0 <= i2 < pos && all.take(pos)[i2] == w;
                                assert(all[i2] == all[i]);
                            }
                        }
                        assert(rem.contains(w));
                        assert(sv.contains(w));
                    }
                    lemma_colours_need_members(sv, colors@, k as nat);
                    assert(degree_when_removed(graph@, all, pos) >= k);
                }
                spilled.push(v);
                proof {
                    lemma_push_contains(spilled0, v);
                }
            },
        }
        proof {
            assert forall|i: int| pos <= i < all.len() implies colors@.contains_key((#[trigger] all[i]).0) || spilled@.contains(all[i]) by {
                if i > pos {
                    assert(colors0.contains_key(all[i].0) || spilled0.contains(all[i]));
                }
            }
            assert forall|i: int| pos + 1 <= i < all.len() implies (colors0.contains_key((#[trigger] all[i]).0) <==> colors@.contains_key(all[i].0)) by {
                assert(all[i] != all[pos]);
                if all[i].0 == v.0 {
                    assert(all[i] == v);
                }
            }
            lemma_popped_blocked_same(all, colors0, colors@, pos + 1);
            if picked is Some {
                assert(colors@.contains_key(all[pos].0));
                assert(spilled@ == sp0 + popped_blocked(all, colors@, pos));
            } else {
                assert(spilled@ == spilled0.push(v));
                assert(!colors@.contains_key(all[pos].0));
                assert(popped_blocked(all, colors@, pos) == popped_blocked(all, colors@, pos + 1).push(all[pos]));
                assert(spilled@ =~= sp0 + popped_blocked(all, colors@, pos));
            }
            assert forall|i: int| pos <= i < all.len() && degree_when_removed(graph@, all, i) < k implies colors@.contains_key((#[trigger] all[i]).0) by {
                if i > pos {
                    assert(colors0.contains_key(all[i].0));
                }
            }
            assert forall|x: VirtualRegister| #[trigger] spilled@.contains(x) && !sp0.contains(x) implies !colors@.contains_key(x.0) by {
                if x == v {
                } else {
                    assert(spilled0.contains(x));
                    assert(!colors0.contains_key(x.0));
                    if colors@.contains_key(x.0) {
                        assert(x.0 == v.0);
                    }
                }
            }
            assert forall|x: VirtualRegister| #[trigger] spilled@.contains(x) implies sp0.contains(x) || exists|i: int| pos <= i < all.len() && all[i] == x by {
                if x == v {
                    assert(all[pos] == x);
                } else {
                    assert(spilled0.contains(x));
                }
            }
            assert forall|i: int| pos <= i < all.len() && !colors@.contains_key((#[trigger] all[i]).0) implies saturated(graph@, colors@, k as nat, all[i]) by {
                if i == pos {
                    assert(picked is None);
                    assert forall|c: usize| c < k implies #[trigger] neighbour_coloured(graph@, colors@, all[i], c) by {
                        assert(used@[c as int]);
                    }
                } else {
                    assert(!colors0.contains_key(all[i].0));
                    assert(saturated(graph@, colors0, k as nat, all[i]));
                    assert forall|c: usize| c < k implies #[trigger] neighbour_coloured(graph@, colors@, all[i], c) by {
                        assert(neighbour_coloured(graph@, colors0, all[i], c));
                        let w = choose|w: VirtualRegister| #[trigger] graph@[all[i]].contains(w) && colors0.contains_key(w.0) && colors0[w.0] == c;
                        assert(w.0 != v.0);
                        assert(colors@.contains_key(w.0) && colors@[w.0] == c);
                    }
                }
            }
        }
    }
    proof {
        assert forall|x: VirtualRegister| #[trigger] all.contains(x) implies colors@.contains_key(x.0) || spilled@.contains(x) by {
            let i = choose|i: int| 0 <= i < all.len() && all[i] == x;
        }
        assert forall|n: usize| #[trigger] colors@.contains_key(n) implies all.contains(VirtualRegister(n)) by {
            let i = choose|i: int| 0 <= i < all.len() && all[i] == VirtualRegister(n);
        }
        assert forall|x: VirtualRegister| #[trigger] spilled@.contains(x) implies sp0.contains(x) || all.contains(x) by {
            if !sp0.contains(x) {
                let i = choose|i: int| 0 <= i < all.len() && all[i] == x;
            }
        }
    }
    colors
}

} // verus!

verus! {

/// Colours `graph` with at most `num_registers` colours by simplification and optimistic
/// selection. A vertex removed for want of a low-degree vertex (a potential spill), or left
/// without a free colour, is reported as spilled (once); every vertex removed with fewer
/// neighbours left than there are colours gets a colour.
pub fn allocate_registers(graph: Graph, num_registers: usize) -> (a: Allocation)
    requires
        graph.wf(),
    ensures
        exists|order: Seq<VirtualRegister>| #[trigger] simplify_order(graph@, num_registers as nat, order)
            && colours_low(graph@, num_registers as nat, order, a.allocations@)
            && forall|v: VirtualRegister| #[trigger] a.spilled@.contains(v) <==> (
                high_removed(graph@, order, num_registers as nat, order.len() as int).contains(v)
                || (graph@.dom().contains(v) && !a.allocations@.contains_key(v.0))),
        valid_coloring(graph@, a.allocations@, num_registers as nat),
        covers(graph@, a.allocations@, a.spilled@),
        a.spilled@.no_duplicates(),
        forall|v: VirtualRegister| #[trigger] graph@.dom().contains(v) && !a.allocations@.contains_key(v.0) ==> saturated(graph@, a.allocations@, num_registers as nat, v),
        degenerate(graph@, num_registers as nat) ==> a.spilled@.len() == 0
            && forall|v: VirtualRegister| #[trigger] graph@.dom().contains(v) ==> a.allocations@.contains_key(v.0),
{
    let (stack, spills) = simplify(&graph, num_registers);
    let mut spilled = spills;
    proof {
        assert forall|v: VirtualRegister| stack@.contains(v) implies graph@.dom().contains(v) by {
            assert(stack@.to_set().contains(v));
        }
    }
    let ghost st = stack@;
    let ghost sp = spilled@;
    let colors = select(&graph, stack, num_registers, &mut spilled);
    proof {
        if degenerate(graph@, num_registers as nat) {
            assert forall|v: VirtualRegister| #[trigger] graph@.dom().contains(v) implies colors@.contains_key(v.0) by {
                assert(st.to_set().contains(v));
                let i = choose|i: int| 0 <= i < st.len() && st[i] == v;
                assert(!sp.contains(st[i]));
            }
            assert forall|v: VirtualRegister| !#[trigger] spilled@.contains(v) by {
                if spilled@.contains(v) {
                    assert(!sp.contains(v));
                    assert(st.contains(v));
                    assert(st.to_set().contains(v));
                }
            }
            if spilled@.len() > 0 {
                assert(spilled@.contains(spilled@[0]));
            }
        }
    }
    let ghost sp_all = spilled@;
    let set = RegSet::from_slice(spilled.as_slice());
    let spilled = set.to_vec();
    proof {
        set.lemma_elems();
        if degenerate(graph@, num_registers as nat) {
            assert(sp_all.len() == 0);
            assert(set@ =~= Set::<VirtualRegister>::empty());
        }
        assert forall|v: VirtualRegister| #[trigger] graph@.dom().contains(v) implies colors@.contains_key(v.0) || spilled@.contains(v) by {
            assert(st.to_set().contains(v));
            assert(st.contains(v));
        }
        assert forall|v: VirtualRegister| #[trigger] graph@.dom().contains(v) && !colors@.contains_key(v.0) implies saturated(graph@, colors@, num_registers as nat, v) by {
            assert(st.to_set().contains(v));
            assert(st.contains(v));
        }
        assert forall|n: usize| #[trigger] colors@.contains_key(n) implies graph@.dom().contains(VirtualRegister(n)) by {
            assert(st.contains(VirtualRegister(n)));
        }
        assert(simplify_order(graph@, num_registers as nat, st));
        assert(colours_low(graph@, num_registers as nat, st, colors@));
        assert forall|v: VirtualRegister| #[trigger] spilled@.contains(v) <==> (
            high_removed(graph@, st, num_registers as nat, st.len() as int).contains(v)
            || (graph@.dom().contains(v) && !colors@.contains_key(v.0))) by {
            assert(sp_all == sp + popped_blocked(st, colors@, 0));
            lemma_popped_blocked_contains(st, colors@, 0, v);
            assert(set@.contains(v) <==> sp_all.contains(v));
            if sp_all.contains(v) {
                let j = choose|j: int| 0 <= j < sp_all.len() && sp_all[j] == v;
                if j < sp.len() {
                    assert(sp[j] == v);
                } else {
                    assert(popped_blocked(st, colors@, 0)[j - sp.len()] == v);
                    assert(popped_blocked(st, colors@, 0).contains(v));
                    let i = choose|i: int| 0 <= i < st.len() && #[trigger] st[i] == v && !colors@.contains_key(v.0);
                    assert(st.to_set().contains(v));
                }
            }
            if sp.contains(v) {
                let j = choose|j: int| 0 <= j < sp.len() && sp[j] == v;
                assert(sp_all[j] == v);
            }
            if graph@.dom().contains(v) && !colors@.contains_key(v.0) {
                assert(st.to_set().contains(v));
                let i = choose|i: int| 0 <= i < st.len() && st[i] == v;
                assert(popped_blocked(st, colors@, 0).contains(v));
                let j = choose|j: int| 0 <= j < popped_blocked(st, colors@, 0).len() && popped_blocked(st, colors@, 0)[j] == v;
                assert(sp_all[sp.len() + j] == v);
            }
        }
    }
    Allocation { allocations: colors, spilled }
}

} // verus!

verus! {

/// The representatives of `regs`, in order.
pub open spec fn reprs(uf: UnionFind, regs: Seq<VirtualRegister>) -> Seq<VirtualRegister> {
    regs.map_values(|v: VirtualRegister| uf.repr(v))
}

/// The set of registers the interference pass holds as live just after instruction `j` of `b`,
/// when `out` is live at the end of `b`: the terminator's operands enter as representatives,
/// and going backwards each instruction's (representative) result leaves and the
/// representatives of its operands enter.
pub open spec fn coalesced_live_after(b: TIRBlock, out: Set<VirtualRegister>, uf: UnionFind, j: int) -> Set<VirtualRegister>
    decreases b.instructions@.len() - j,
{
    if j + 1 >= b.instructions@.len() {
        out.union(reprs(uf, terminator_uses(b.terminator)).to_set())
    } else {
        coalesced_live_after(b, out, uf, j + 1).remove(uf.repr(b.instructions@[j + 1].dest)).union(
            reprs(uf, op_uses(b.instructions@[j + 1].op)).to_set(),
        )
    }
}

/// Every vertex of `g` is its own representative in `uf`.
pub open spec fn all_reprs(g: Map<VirtualRegister, Set<VirtualRegister>>, uf: UnionFind) -> bool {
    forall|v: VirtualRegister| #[trigger] g.dom().contains(v) ==> uf.repr(v) == v
}

/// Adds an edge from `x` to the representative of each of `regs`.
fn connect_list(graph: &mut Graph, uf: &mut UnionFind, x: VirtualRegister, regs: &Vec<VirtualRegister>)
    requires
        old(graph).wf(),
        old(uf).wf(),
        old(uf).repr(x) == x,
        all_reprs(old(graph)@, *old(uf)),
    ensures
        all_reprs(final(graph)@, *old(uf)),
        final(graph).wf(),
        final(uf).wf(),
        grows(old(graph)@, final(graph)@),
        forall|y: VirtualRegister| #[trigger] final(uf).repr(y) == old(uf).repr(y),
        forall|k: int| 0 <= k < regs@.len() ==> interferes(final(graph)@, x, old(uf).repr(#[trigger] regs@[k]))
            && interferes(final(graph)@, old(uf).repr(regs@[k]), x),
        edges_from(old(graph)@, final(graph)@, x, reprs(*old(uf), regs@).to_set()),
{
    let ghost uf0 = *uf;
    let ghost g0 = graph@;
    proof {
        assert forall|a: VirtualRegister, c: VirtualRegister| #[trigger] has_edge(g0, a, c) implies has_edge(g0, a, c) by {}
    }
    let mut k: usize = 0;
    while k < regs.len()
        invariant
            0 <= k <= regs@.len(),
            graph.wf(),
            uf.wf(),
            grows(g0, graph@),
            forall|y: VirtualRegister| #[trigger] uf.repr(y) == uf0.repr(y),
            forall|q: int| 0 <= q < k ==> interferes(graph@, x, uf0.repr(#[trigger] regs@[q]))
                && interferes(graph@, uf0.repr(regs@[q]), x),
            edges_from(g0, graph@, x, reprs(uf0, regs@.take(k as int)).to_set()),
            all_reprs(graph@, uf0),
            uf0.repr(x) == x,
            uf0.wf(),
        decreases regs@.len() - k,
    {
        let v = uf.canonical(regs[k]);
        let ghost g1 = graph@;
        graph.add_edge(x, v);
        proof {
            uf0.lemma_repr_idempotent(regs@[k as int]);
            assert forall|w: VirtualRegister| #[trigger] graph@.dom().contains(w) implies uf0.repr(w) == w by {
                if w != x && w != v {
                    assert(g1.dom().contains(w));
                }
            }
            lemma_with_edge_from(g1, x, v);
            assert(edges_from(g1, graph@, x, set![v]));
            lemma_edges_from_trans(g0, g1, graph@, x, reprs(uf0, regs@.take(k as int)).to_set(), set![v]);
            assert(reprs(uf0, regs@.take(k + 1)) == reprs(uf0, regs@.take(k as int)).push(v));
            reprs(uf0, regs@.take(k as int)).lemma_push_to_set_commute(v);
            assert(reprs(uf0, regs@.take(k + 1)).to_set() =~= reprs(uf0, regs@.take(k as int)).to_set().union(set![v]));
            lemma_with_edge(g1, x, v);
            lemma_grows_trans(g0, g1, graph@);
            assert forall|q: int| 0 <= q < k + 1 implies interferes(graph@, x, uf0.repr(#[trigger] regs@[q]))
                && interferes(graph@, uf0.repr(regs@[q]), x) by {
                if q < k {
                    lemma_grows_interferes(g1, graph@, x, uf0.repr(regs@[q]));
                    lemma_grows_interferes(g1, graph@, uf0.repr(regs@[q]), x);
                }
            }
        }
        k = k + 1;
    }
    proof {
        assert(regs@.take(regs@.len() as int) == regs@);
    }
}

/// Adds the representative of each of `regs` to `live`.
fn insert_reprs(live: &mut RegSet, uf: &mut UnionFind, regs: &Vec<VirtualRegister>)
    requires
        old(live).wf(),
        old(uf).wf(),
    ensures
        final(live).wf(),
        final(uf).wf(),
        forall|y: VirtualRegister| #[trigger] final(uf).repr(y) == old(uf).repr(y),
        final(live)@ == old(live)@.union(reprs(*old(uf), regs@).to_set()),
{
    let ghost uf0 = *uf;
    let ghost l0 = live@;
    let mut k: usize = 0;
    while k < regs.len()
        invariant
            0 <= k <= regs@.len(),
            live.wf(),
            uf.wf(),
            forall|y: VirtualRegister| #[trigger] uf.repr(y) == uf0.repr(y),
            live@ == l0.union(reprs(uf0, regs@.take(k as int)).to_set()),
        decreases regs@.len() - k,
    {
        let v = uf.canonical(regs[k]);
        live.insert(v);
        proof {
            assert(reprs(uf0, regs@.take(k + 1)) == reprs(uf0, regs@.take(k as int)).push(v));
            reprs(uf0, regs@.take(k as int)).lemma_push_to_set_commute(v);
        }
        k = k + 1;
    }
    proof {
        assert(regs@.take(regs@.len() as int) == regs@);
    }
}

/// The interference facts the pass records for one block.
pub open spec fn block_interferes(g: Map<VirtualRegister, Set<VirtualRegister>>, uf: UnionFind, b: TIRBlock, live_in: Set<VirtualRegister>, live_out: Set<VirtualRegister>) -> bool {
    &&& forall|p: VirtualRegister| #[trigger] b.params@.contains(p) ==> g.dom().contains(uf.repr(p))
        && forall|v: VirtualRegister| #[trigger] live_in.contains(v) ==> interferes(g, uf.repr(p), uf.repr(v))
    &&& forall|x: int, y: int| 0 <= x < terminator_uses(b.terminator).len() && 0 <= y < terminator_uses(b.terminator).len()
        ==> interferes(g, uf.repr(#[trigger] terminator_uses(b.terminator)[x]), uf.repr(#[trigger] terminator_uses(b.terminator)[y]))
    &&& forall|j: int| 0 <= j < b.instructions@.len() ==> g.dom().contains(uf.repr(#[trigger] b.instructions@[j].dest))
        && (forall|v: VirtualRegister| #[trigger] coalesced_live_after(b, live_out, uf, j).contains(v)
            ==> interferes(g, uf.repr(v), uf.repr(b.instructions@[j].dest)))
        && (forall|k: int| 0 <= k < op_uses(b.instructions@[j].op).len()
            ==> interferes(g, uf.repr(#[trigger] op_uses(b.instructions@[j].op)[k]), uf.repr(b.instructions@[j].dest)))
}

/// `a` is the result of instruction `j` of `b` and `c` is live just after it or one of its
/// operands (all as representatives of `uf`).
pub open spec fn def_pair(uf: UnionFind, b: TIRBlock, out: Set<VirtualRegister>, j: int, a: VirtualRegister, c: VirtualRegister) -> bool {
    &&& a == uf.repr(b.instructions@[j].dest)
    &&& (exists|v: VirtualRegister| #[trigger] coalesced_live_after(b, out, uf, j).contains(v) && c == uf.repr(v))
        || reprs(uf, op_uses(b.instructions@[j].op)).contains(c)
}

/// The edge `a`-`c` is one the pass draws for block `b`: from a parameter to a value live into
/// the block, between two operands of its terminator, or from an instruction's result to a value
/// live just after it or to one of its operands (all as representatives of `uf`).
pub open spec fn block_allows(uf: UnionFind, b: TIRBlock, live_in: Set<VirtualRegister>, live_out: Set<VirtualRegister>, a: VirtualRegister, c: VirtualRegister) -> bool {
    ||| (exists|p: VirtualRegister| #[trigger] b.params@.contains(p) && a == uf.repr(p))
        && (exists|v: VirtualRegister| #[trigger] live_in.contains(v) && c == uf.repr(v))
    ||| reprs(uf, terminator_uses(b.terminator)).contains(a) && reprs(uf, terminator_uses(b.terminator)).contains(c)
    ||| exists|j: int| 0 <= j < b.instructions@.len() && #[trigger] def_pair(uf, b, live_out, j, a, c)
}

/// Every edge of `g1` is one of `g0` or one the pass draws for `b`.
pub open spec fn within_block(g0: Map<VirtualRegister, Set<VirtualRegister>>, g1: Map<VirtualRegister, Set<VirtualRegister>>, uf: UnionFind, b: TIRBlock, live_in: Set<VirtualRegister>, live_out: Set<VirtualRegister>) -> bool {
    forall|a: VirtualRegister, c: VirtualRegister| #[trigger] has_edge(g1, a, c) ==> has_edge(g0, a, c)
        || block_allows(uf, b, live_in, live_out, a, c) || block_allows(uf, b, live_in, live_out, c, a)
}

proof fn lemma_within_step(
    g_start: Map<VirtualRegister, Set<VirtualRegister>>,
    g0: Map<VirtualRegister, Set<VirtualRegister>>,
    g1: Map<VirtualRegister, Set<VirtualRegister>>,
    x: VirtualRegister,
    s: Set<VirtualRegister>,
    uf: UnionFind,
    b: TIRBlock,
    live_in: Set<VirtualRegister>,
    live_out: Set<VirtualRegister>,
)
    requires
        within_block(g_start, g0, uf, b, live_in, live_out),
        edges_from(g0, g1, x, s),
        forall|c: VirtualRegister| #[trigger] s.contains(c) ==> block_allows(uf, b, live_in, live_out, x, c),
    ensures
        within_block(g_start, g1, uf, b, live_in, live_out),
{
    assert forall|a: VirtualRegister, c: VirtualRegister| #[trigger] has_edge(g1, a, c) implies has_edge(g_start, a, c)
        || block_allows(uf, b, live_in, live_out, a, c) || block_allows(uf, b, live_in, live_out, c, a) by {
        if has_edge(g0, a, c) {
            assert(has_edge(g0, a, c));
        }
    }
}

proof fn lemma_within_add_vertex(
    g_start: Map<VirtualRegister, Set<VirtualRegister>>,
    g0: Map<VirtualRegister, Set<VirtualRegister>>,
    g1: Map<VirtualRegister, Set<VirtualRegister>>,
    v: VirtualRegister,
    uf: UnionFind,
    b: TIRBlock,
    live_in: Set<VirtualRegister>,
    live_out: Set<VirtualRegister>,
)
    requires
        within_block(g_start, g0, uf, b, live_in, live_out),
        g1 == (if g0.dom().contains(v) { g0 } else { g0.insert(v, Set::empty()) }),
    ensures
        within_block(g_start, g1, uf, b, live_in, live_out),
{
    if !g0.dom().contains(v) {
        lemma_insert_vertex_from(g0, v, v, Set::empty());
        lemma_within_step(g_start, g0, g1, v, Set::empty(), uf, b, live_in, live_out);
    }
}

proof fn lemma_block_interferes_grows(g1: Map<VirtualRegister, Set<VirtualRegister>>, g2: Map<VirtualRegister, Set<VirtualRegister>>, uf: UnionFind, b: TIRBlock, live_in: Set<VirtualRegister>, live_out: Set<VirtualRegister>)
    requires
        grows(g1, g2),
        block_interferes(g1, uf, b, live_in, live_out),
    ensures
        block_interferes(g2, uf, b, live_in, live_out),
{
    assert forall|p: VirtualRegister| #[trigger] b.params@.contains(p) implies g2.dom().contains(uf.repr(p))
        && forall|v: VirtualRegister| #[trigger] live_in.contains(v) ==> interferes(g2, uf.repr(p), uf.repr(v)) by {
        assert forall|v: VirtualRegister| #[trigger] live_in.contains(v) implies interferes(g2, uf.repr(p), uf.repr(v)) by {
            lemma_grows_interferes(g1, g2, uf.repr(p), uf.repr(v));
        }
    }
    let tu = terminator_uses(b.terminator);
    assert forall|x: int, y: int| 0 <= x < tu.len() && 0 <= y < tu.len() implies interferes(g2, uf.repr(#[trigger] tu[x]), uf.repr(#[trigger] tu[y])) by {
        lemma_grows_interferes(g1, g2, uf.repr(tu[x]), uf.repr(tu[y]));
    }
    assert forall|j: int| 0 <= j < b.instructions@.len() implies g2.dom().contains(uf.repr(#[trigger] b.instructions@[j].dest))
        && (forall|v: VirtualRegister| #[trigger] coalesced_live_after(b, live_out, uf, j).contains(v)
            ==> interferes(g2, uf.repr(v), uf.repr(b.instructions@[j].dest)))
        && (forall|k: int| 0 <= k < op_uses(b.instructions@[j].op).len()
            ==> interferes(g2, uf.repr(#[trigger] op_uses(b.instructions@[j].op)[k]), uf.repr(b.instructions@[j].dest))) by {
        let d = uf.repr(b.instructions@[j].dest);
        assert forall|v: VirtualRegister| #[trigger] coalesced_live_after(b, live_out, uf, j).contains(v) implies interferes(g2, uf.repr(v), d) by {
            lemma_grows_interferes(g1, g2, uf.repr(v), d);
        }
        assert forall|k: int| 0 <= k < op_uses(b.instructions@[j].op).len() implies interferes(g2, uf.repr(#[trigger] op_uses(b.instructions@[j].op)[k]), d) by {
            lemma_grows_interferes(g1, g2, uf.repr(op_uses(b.instructions@[j].op)[k]), d);
        }
    }
}

/// Records the interferences of one block.
fn interfere_block(graph: &mut Graph, uf: &mut UnionFind, block: &TIRBlock, live_in: &RegSet, live_out: &RegSet)
    requires
        old(graph).wf(),
        old(uf).wf(),
        live_in.wf(),
        live_out.wf(),
        all_reprs(old(graph)@, *old(uf)),
    ensures
        all_reprs(final(graph)@, *old(uf)),
        final(graph).wf(),
        final(uf).wf(),
        grows(old(graph)@, final(graph)@),
        forall|y: VirtualRegister| #[trigger] final(uf).repr(y) == old(uf).repr(y),
        block_interferes(final(graph)@, *old(uf), *block, live_in@, live_out@),
        within_block(old(graph)@, final(graph)@, *old(uf), *block, live_in@, live_out@),
{
    let ghost uf0 = *uf;
    let ghost g_start = graph@;
    proof {
        assert forall|a: VirtualRegister, c: VirtualRegister| #[trigger] has_edge(g_start, a, c) implies has_edge(g_start, a, c) by {}
    }
    let ins = live_in.to_vec();
    proof { live_in.lemma_elems(); }
    let mut pi: usize = 0;
    while pi < block.params.len()
        invariant
            0 <= pi <= block.params@.len(),
            graph.wf(),
            uf.wf(),
            grows(g_start, graph@),
            forall|y: VirtualRegister| #[trigger] uf.repr(y) == uf0.repr(y),
            ins@ == live_in.elems(),
            live_in@ == live_in.elems().to_set(),
            forall|q: int| 0 <= q < pi ==> graph@.dom().contains(uf0.repr(#[trigger] block.params@[q]))
                && forall|v: VirtualRegister| #[trigger] live_in@.contains(v) ==> interferes(graph@, uf0.repr(block.params@[q]), uf0.repr(v)),
            within_block(g_start, graph@, uf0, *block, live_in@, live_out@),
            all_reprs(graph@, uf0),
            uf0.wf(),
        decreases block.params@.len() - pi,
    {
        let p = uf.canonical(block.params[pi]);
        let ghost g0 = graph@;
        graph.add_vertex(p);
        let ghost g1 = graph@;
        proof {
            uf0.lemma_repr_idempotent(block.params@[pi as int]);
            assert forall|w: VirtualRegister| #[trigger] g1.dom().contains(w) implies uf0.repr(w) == w by {
                if w != p {
                    assert(g0.dom().contains(w));
                }
            }
        }
        assert(grows(g0, g1)) by {
            assert forall|v: VirtualRegister| #[trigger] g0.dom().contains(v) implies g1.dom().contains(v) && g0[v].subset_of(g1[v]) by {}
        }
        let ghost uf1 = *uf;
        connect_list(graph, uf, p, &ins);
        proof {
            lemma_within_add_vertex(g_start, g0, g1, p, uf0, *block, live_in@, live_out@);
            assert(reprs(uf1, ins@) =~= reprs(uf0, ins@));
            assert forall|c: VirtualRegister| #[trigger] reprs(uf0, ins@).to_set().contains(c) implies block_allows(uf0, *block, live_in@, live_out@, p, c) by {
                let w = choose|w: int| 0 <= w < reprs(uf0, ins@).len() && reprs(uf0, ins@)[w] == c;
                assert(live_in.elems().contains(ins@[w]));
                assert(live_in@.contains(ins@[w]));
                assert(block.params@.contains(block.params@[pi as int]));
            }
            lemma_within_step(g_start, g1, graph@, p, reprs(uf0, ins@).to_set(), uf0, *block, live_in@, live_out@);
            lemma_grows_trans(g0, g1, graph@);
            lemma_grows_trans(g_start, g0, graph@);
            assert(g1.dom().contains(p));
            assert(graph@.dom().contains(p));
            assert forall|q: int| 0 <= q < pi + 1 implies graph@.dom().contains(uf0.repr(#[trigger] block.params@[q]))
                && forall|v: VirtualRegister| #[trigger] live_in@.contains(v) ==> interferes(graph@, uf0.repr(block.params@[q]), uf0.repr(v)) by {
                if q < pi {
                    assert(g0.dom().contains(uf0.repr(block.params@[q])));
                    assert forall|v: VirtualRegister| #[trigger] live_in@.contains(v) implies interferes(graph@, uf0.repr(block.params@[q]), uf0.repr(v)) by {
                        lemma_grows_interferes(g0, graph@, uf0.repr(block.params@[q]), uf0.repr(v));
                    }
                } else {
                    assert forall|v: VirtualRegister| #[trigger] live_in@.contains(v) implies interferes(graph@, uf0.repr(block.params@[q]), uf0.repr(v)) by {
                        let w = choose|w: int| 0 <= w < ins@.len() && ins@[w] == v;
                        assert(interferes(graph@, p, uf0.repr(ins@[w])));
                    }
                }
            }
        }
        pi = pi + 1;
    }
    let ghost g_params = graph@;
    let mut live_set = live_out.copy();
    let tu = block.terminator.uses();
    let ghost tus = tu@;
    let mut a: usize = 0;
    while a < tu.len()
        invariant
            0 <= a <= tus.len(),
            tu@ == tus,
            tus == terminator_uses(block.terminator),
            graph.wf(),
            uf.wf(),
            live_set.wf(),
            grows(g_params, graph@),
            forall|y: VirtualRegister| #[trigger] uf.repr(y) == uf0.repr(y),
            live_set@ == live_out@.union(reprs(uf0, tus.take(a as int)).to_set()),
            forall|x: int, y: int| 0 <= x < a && 0 <= y < tus.len() ==> interferes(graph@, uf0.repr(#[trigger] tus[x]), uf0.repr(#[trigger] tus[y])),
            within_block(g_start, graph@, uf0, *block, live_in@, live_out@),
            all_reprs(graph@, uf0),
            uf0.wf(),
        decreases tus.len() - a,
    {
        let v = uf.canonical(tu[a]);
        proof {
            uf0.lemma_repr_idempotent(tus[a as int]);
        }
        live_set.insert(v);
        let ghost g0 = graph@;
        let ghost uf1 = *uf;
        connect_list(graph, uf, v, &tu);
        proof {
            assert(reprs(uf1, tus) =~= reprs(uf0, tus));
            assert(reprs(uf0, tus)[a as int] == v);
            assert(reprs(uf0, tus).contains(v));
            assert forall|c: VirtualRegister| #[trigger] reprs(uf0, tus).to_set().contains(c) implies block_allows(uf0, *block, live_in@, live_out@, v, c) by {
                assert(reprs(uf0, tus).contains(c));
            }
            lemma_within_step(g_start, g0, graph@, v, reprs(uf0, tus).to_set(), uf0, *block, live_in@, live_out@);
            lemma_grows_trans(g_params, g0, graph@);
            assert(reprs(uf0, tus.take(a + 1)) == reprs(uf0, tus.take(a as int)).push(v));
            reprs(uf0, tus.take(a as int)).lemma_push_to_set_commute(v);
            assert forall|x: int, y: int| 0 <= x < a + 1 && 0 <= y < tus.len() implies interferes(graph@, uf0.repr(#[trigger] tus[x]), uf0.repr(#[trigger] tus[y])) by {
                if x < a {
                    lemma_grows_interferes(g0, graph@, uf0.repr(tus[x]), uf0.repr(tus[y]));
                }
            }
        }
        a = a + 1;
    }
    proof {
        assert(tus.take(tus.len() as int) == tus);
    }
    let ghost out = live_out@;
    let ghost g_mid = graph@;
    let nin = block.instructions.len();
    let mut j: usize = nin;
    proof {
        if nin > 0 {
            assert(coalesced_live_after(*block, out, uf0, nin - 1) == out.union(reprs(uf0, tus).to_set()));
        }
    }
    while j > 0
        invariant
            0 <= j <= nin,
            nin == block.instructions@.len(),
            graph.wf(),
            uf.wf(),
            live_set.wf(),
            grows(g_mid, graph@),
            forall|y: VirtualRegister| #[trigger] uf.repr(y) == uf0.repr(y),
            j > 0 ==> live_set@ == coalesced_live_after(*block, out, uf0, j - 1),
            forall|jj: int| j <= jj < nin ==> graph@.dom().contains(uf0.repr(#[trigger] block.instructions@[jj].dest))
                && (forall|v: VirtualRegister| #[trigger] coalesced_live_after(*block, out, uf0, jj).contains(v)
                    ==> interferes(graph@, uf0.repr(v), uf0.repr(block.instructions@[jj].dest)))
                && (forall|k: int| 0 <= k < op_uses(block.instructions@[jj].op).len()
                    ==> interferes(graph@, uf0.repr(#[trigger] op_uses(block.instructions@[jj].op)[k]), uf0.repr(block.instructions@[jj].dest))),
            within_block(g_start, graph@, uf0, *block, live_in@, live_out@),
            all_reprs(graph@, uf0),
            uf0.wf(),
            live_out@ == out,
        decreases j,
    {
        j = j - 1;
        let instr = &block.instructions[j];
        let dest = uf.canonical(instr.dest);
        let ghost g0 = graph@;
        graph.add_vertex(dest);
        let ghost g1 = graph@;
        proof {
            uf0.lemma_repr_idempotent(instr.dest);
            assert forall|w: VirtualRegister| #[trigger] g1.dom().contains(w) implies uf0.repr(w) == w by {
                if w != dest {
                    assert(g0.dom().contains(w));
                }
            }
        }
        assert(grows(g0, g1)) by {
            assert forall|v: VirtualRegister| #[trigger] g0.dom().contains(v) implies g1.dom().contains(v) && g0[v].subset_of(g1[v]) by {}
        }
        let lv = live_set.to_vec();
        proof { live_set.lemma_elems(); }
        let ghost uf1 = *uf;
        connect_list(graph, uf, dest, &lv);
        let ghost g2 = graph@;
        let uses = instr.uses();
        let ghost uf2 = *uf;
        connect_list(graph, uf, dest, &uses);
        proof {
            lemma_within_add_vertex(g_start, g0, g1, dest, uf0, *block, live_in@, live_out@);
            assert(reprs(uf1, lv@) =~= reprs(uf0, lv@));
            assert(reprs(uf2, uses@) =~= reprs(uf0, uses@));
            assert forall|c: VirtualRegister| #[trigger] reprs(uf0, lv@).to_set().contains(c) implies block_allows(uf0, *block, live_in@, live_out@, dest, c) by {
                let w = choose|w: int| 0 <= w < reprs(uf0, lv@).len() && reprs(uf0, lv@)[w] == c;
                assert(live_set.elems().contains(lv@[w]));
                assert(coalesced_live_after(*block, out, uf0, j as int).contains(lv@[w]));
                assert(def_pair(uf0, *block, live_out@, j as int, dest, c));
            }
            lemma_within_step(g_start, g1, g2, dest, reprs(uf0, lv@).to_set(), uf0, *block, live_in@, live_out@);
            assert forall|c: VirtualRegister| #[trigger] reprs(uf0, uses@).to_set().contains(c) implies block_allows(uf0, *block, live_in@, live_out@, dest, c) by {
                assert(reprs(uf0, uses@).contains(c));
                assert(uses@ == op_uses(block.instructions@[j as int].op));
                assert(def_pair(uf0, *block, live_out@, j as int, dest, c));
            }
            lemma_within_step(g_start, g2, graph@, dest, reprs(uf0, uses@).to_set(), uf0, *block, live_in@, live_out@);
            lemma_grows_trans(g0, g1, g2);
            lemma_grows_trans(g0, g2, graph@);
            lemma_grows_trans(g_mid, g0, graph@);
            let d = uf0.repr(instr.dest);
            assert forall|jj: int| j <= jj < nin implies graph@.dom().contains(uf0.repr(#[trigger] block.instructions@[jj].dest))
                && (forall|v: VirtualRegister| #[trigger] coalesced_live_after(*block, out, uf0, jj).contains(v)
                    ==> interferes(graph@, uf0.repr(v), uf0.repr(block.instructions@[jj].dest)))
                && (forall|k: int| 0 <= k < op_uses(block.instructions@[jj].op).len()
                    ==> interferes(graph@, uf0.repr(#[trigger] op_uses(block.instructions@[jj].op)[k]), uf0.repr(block.instructions@[jj].dest))) by {
                let dj = uf0.repr(block.instructions@[jj].dest);
                if jj > j {
                    assert(g0.dom().contains(dj));
                    assert forall|v: VirtualRegister| #[trigger] coalesced_live_after(*block, out, uf0, jj).contains(v) implies interferes(graph@, uf0.repr(v), dj) by {
                        lemma_grows_interferes(g0, graph@, uf0.repr(v), dj);
                    }
                    assert forall|k: int| 0 <= k < op_uses(block.instructions@[jj].op).len() implies interferes(graph@, uf0.repr(#[trigger] op_uses(block.instructions@[jj].op)[k]), dj) by {
                        lemma_grows_interferes(g0, graph@, uf0.repr(op_uses(block.instructions@[jj].op)[k]), dj);
                    }
                } else {
                    assert(g1.dom().contains(dest));
                    assert forall|k: int| 0 <= k < op_uses(block.instructions@[jj].op).len() implies interferes(graph@, uf0.repr(#[trigger] op_uses(block.instructions@[jj].op)[k]), dj) by {
                        assert(uses@[k] == op_uses(block.instructions@[jj].op)[k]);
                    }
                    assert forall|v: VirtualRegister| #[trigger] coalesced_live_after(*block, out, uf0, jj).contains(v) implies interferes(graph@, uf0.repr(v), dj) by {
                        let w = choose|w: int| 0 <= w < lv@.len() && lv@[w] == v;
                        assert(interferes(g2, uf0.repr(lv@[w]), dest));
                        lemma_grows_interferes(g2, graph@, uf0.repr(v), dj);
                    }
                }
            }
        }
        live_set.remove(dest);
        let ghost uf1 = *uf;
        insert_reprs(&mut live_set, uf, &uses);
        proof {
            assert(reprs(uf1, uses@) =~= reprs(uf0, uses@));
            if j > 0 {
                assert(live_set@ =~= coalesced_live_after(*block, out, uf0, j - 1));
            }
        }
    }
    proof {
        lemma_grows_trans(g_start, g_params, g_mid);
        lemma_grows_trans(g_start, g_mid, graph@);
        assert forall|p: VirtualRegister| #[trigger] block.params@.contains(p) implies graph@.dom().contains(uf0.repr(p))
            && forall|v: VirtualRegister| #[trigger] live_in@.contains(v) ==> interferes(graph@, uf0.repr(p), uf0.repr(v)) by {
            let q = choose|q: int| 0 <= q < block.params@.len() && block.params@[q] == p;
            assert(g_params.dom().contains(uf0.repr(block.params@[q])));
            assert forall|v: VirtualRegister| #[trigger] live_in@.contains(v) implies interferes(graph@, uf0.repr(p), uf0.repr(v)) by {
                lemma_grows_interferes(g_params, graph@, uf0.repr(p), uf0.repr(v));
            }
        }
        assert forall|x: int, y: int| 0 <= x < tus.len() && 0 <= y < tus.len() implies interferes(graph@, uf0.repr(#[trigger] tus[x]), uf0.repr(#[trigger] tus[y])) by {
            lemma_grows_interferes(g_mid, graph@, uf0.repr(tus[x]), uf0.repr(tus[y]));
        }
        if nin == 0 {
            assert(block_interferes(graph@, uf0, *block, live_in@, out));
        }
    }
}

/// Builds the interference graph over the class representatives of `uf` (the coalesced
/// registers): each block parameter interferes with what is live into its block, the
/// terminator's operands with one another, and each instruction's result with what is live
/// just after it and with its own operands.
pub fn create_interference_graph(function: &TIRFunction, liveness: &Liveness, uf: &mut UnionFind) -> (g: Graph)
    requires
        old(uf).wf(),
        liveness_matches(*liveness, function.blocks@),
    ensures
        g.wf(),
        final(uf).wf(),
        forall|y: VirtualRegister| #[trigger] final(uf).repr(y) == old(uf).repr(y),
        forall|i: int| 0 <= i < function.blocks@.len() ==> block_interferes(g@, *old(uf), #[trigger] function.blocks@[i],
            liveness.blocks@[i].live_in@, liveness.blocks@[i].live_out@),
        edges_justified(g@, *old(uf), function.blocks@, *liveness),
        all_reprs(g@, *old(uf)),
{
    let ghost uf0 = *uf;
    let ghost bs = function.blocks@;
    let mut graph = Graph::new();
    let mut i: usize = 0;
    proof {
        assert forall|a: VirtualRegister, c: VirtualRegister| #[trigger] has_edge(graph@, a, c)
            implies exists|ii: int| 0 <= ii < bs.take(0).len() && #[trigger] allowed_at(uf0, bs.take(0), *liveness, ii, a, c) by {
            assert(!graph@.dom().contains(a));
        }
    }
    while i < function.blocks.len()
        invariant
            0 <= i <= bs.len(),
            bs == function.blocks@,
            liveness_matches(*liveness, bs),
            graph.wf(),
            uf.wf(),
            forall|y: VirtualRegister| #[trigger] uf.repr(y) == uf0.repr(y),
            forall|ii: int| 0 <= ii < i ==> block_interferes(graph@, uf0, #[trigger] bs[ii],
                liveness.blocks@[ii].live_in@, liveness.blocks@[ii].live_out@),
            edges_justified(graph@, uf0, bs.take(i as int), *liveness),
            all_reprs(graph@, uf0),
        decreases bs.len() - i,
    {
        let ghost g0 = graph@;
        let ghost uf1 = *uf;
        interfere_block(&mut graph, uf, &function.blocks[i], &liveness.blocks[i].live_in, &liveness.blocks[i].live_out);
        proof {
            let li = liveness.blocks@[i as int].live_in@;
            let lo = liveness.blocks@[i as int].live_out@;
            assert forall|a: VirtualRegister, c: VirtualRegister| #[trigger] has_edge(graph@, a, c)
                implies exists|ii: int| 0 <= ii < bs.take(i + 1).len() && #[trigger] allowed_at(uf0, bs.take(i + 1), *liveness, ii, a, c) by {
                if has_edge(g0, a, c) {
                    let ii = choose|ii: int| 0 <= ii < bs.take(i as int).len() && #[trigger] allowed_at(uf0, bs.take(i as int), *liveness, ii, a, c);
                    assert(bs.take(i + 1)[ii] == bs.take(i as int)[ii]);
                    assert(allowed_at(uf0, bs.take(i + 1), *liveness, ii, a, c));
                } else {
                    assert(bs.take(i + 1)[i as int] == bs[i as int]);
                    if block_allows(uf1, bs[i as int], li, lo, a, c) {
                        lemma_block_allows_same_repr(uf1, uf0, bs[i as int], li, lo, a, c);
                    } else {
                        lemma_block_allows_same_repr(uf1, uf0, bs[i as int], li, lo, c, a);
                    }
                    assert(allowed_at(uf0, bs.take(i + 1), *liveness, i as int, a, c));
                }
            }
            assert forall|ii: int| 0 <= ii < i + 1 implies block_interferes(graph@, uf0, #[trigger] bs[ii],
                liveness.blocks@[ii].live_in@, liveness.blocks@[ii].live_out@) by {
                if ii < i {
                    lemma_block_interferes_grows(g0, graph@, uf0, bs[ii], liveness.blocks@[ii].live_in@, liveness.blocks@[ii].live_out@);
                } else {
                    lemma_block_interferes_same_repr(graph@, uf1, uf0, bs[ii], liveness.blocks@[ii].live_in@, liveness.blocks@[ii].live_out@);
                }
            }
        }
        i = i + 1;
    }
    proof {
        assert(bs.take(bs.len() as int) == bs);
    }
    graph
}

/// The edge `a`-`c` (either way round) is one the pass draws for the block at position `i`.
pub open spec fn allowed_at(uf: UnionFind, bs: Seq<TIRBlock>, liveness: Liveness, i: int, a: VirtualRegister, c: VirtualRegister) -> bool {
    block_allows(uf, bs[i], liveness.blocks@[i].live_in@, liveness.blocks@[i].live_out@, a, c)
        || block_allows(uf, bs[i], liveness.blocks@[i].live_in@, liveness.blocks@[i].live_out@, c, a)
}

/// Every edge of `g` is one the pass draws for some block of `bs`.
pub open spec fn edges_justified(g: Map<VirtualRegister, Set<VirtualRegister>>, uf: UnionFind, bs: Seq<TIRBlock>, liveness: Liveness) -> bool {
    forall|a: VirtualRegister, c: VirtualRegister| #[trigger] has_edge(g, a, c)
        ==> exists|i: int| 0 <= i < bs.len() && #[trigger] allowed_at(uf, bs, liveness, i, a, c)
}

proof fn lemma_block_allows_same_repr(u1: UnionFind, u2: UnionFind, b: TIRBlock, live_in: Set<VirtualRegister>, live_out: Set<VirtualRegister>, a: VirtualRegister, c: VirtualRegister)
    requires
        forall|y: VirtualRegister| #[trigger] u1.repr(y) == u2.repr(y),
        block_allows(u1, b, live_in, live_out, a, c),
    ensures
        block_allows(u2, b, live_in, live_out, a, c),
{
    assert(reprs(u1, terminator_uses(b.terminator)) =~= reprs(u2, terminator_uses(b.terminator)));
    if (exists|p: VirtualRegister| #[trigger] b.params@.contains(p) && a == u1.repr(p))
        && (exists|v: VirtualRegister| #[trigger] live_in.contains(v) && c == u1.repr(v)) {
        let p = choose|p: VirtualRegister| #[trigger] b.params@.contains(p) && a == u1.repr(p);
        let v = choose|v: VirtualRegister| #[trigger] live_in.contains(v) && c == u1.repr(v);
        assert(u1.repr(p) == u2.repr(p));
        assert(u1.repr(v) == u2.repr(v));
    } else if exists|j: int| 0 <= j < b.instructions@.len() && #[trigger] def_pair(u1, b, live_out, j, a, c) {
        let j = choose|j: int| 0 <= j < b.instructions@.len() && #[trigger] def_pair(u1, b, live_out, j, a, c);
        lemma_coalesced_live_same_repr(b, live_out, u1, u2, j);
        assert(reprs(u1, op_uses(b.instructions@[j].op)) =~= reprs(u2, op_uses(b.instructions@[j].op)));
        assert(u1.repr(b.instructions@[j].dest) == u2.repr(b.instructions@[j].dest));
        if exists|v: VirtualRegister| #[trigger] coalesced_live_after(b, live_out, u1, j).contains(v) && c == u1.repr(v) {
            let v = choose|v: VirtualRegister| #[trigger] coalesced_live_after(b, live_out, u1, j).contains(v) && c == u1.repr(v);
            assert(u1.repr(v) == u2.repr(v));
        }
        assert(def_pair(u2, b, live_out, j, a, c));
    }
}

proof fn lemma_coalesced_live_same_repr(b: TIRBlock, out: Set<VirtualRegister>, u1: UnionFind, u2: UnionFind, j: int)
    requires
        forall|y: VirtualRegister| #[trigger] u1.repr(y) == u2.repr(y),
    ensures
        coalesced_live_after(b, out, u1, j) == coalesced_live_after(b, out, u2, j),
    decreases b.instructions@.len() - j,
{
    if j + 1 >= b.instructions@.len() {
        assert(reprs(u1, terminator_uses(b.terminator)) =~= reprs(u2, terminator_uses(b.terminator)));
    } else {
        lemma_coalesced_live_same_repr(b, out, u1, u2, j + 1);
        assert(reprs(u1, op_uses(b.instructions@[j + 1].op)) =~= reprs(u2, op_uses(b.instructions@[j + 1].op)));
    }
}

pub(crate) proof fn lemma_block_interferes_same_repr(g: Map<VirtualRegister, Set<VirtualRegister>>, u1: UnionFind, u2: UnionFind, b: TIRBlock, live_in: Set<VirtualRegister>, live_out: Set<VirtualRegister>)
    requires
        forall|y: VirtualRegister| #[trigger] u1.repr(y) == u2.repr(y),
        block_interferes(g, u1, b, live_in, live_out),
    ensures
        block_interferes(g, u2, b, live_in, live_out),
{
    assert forall|j: int| 0 <= j < b.instructions@.len() implies g.dom().contains(u2.repr(#[trigger] b.instructions@[j].dest))
        && (forall|v: VirtualRegister| #[trigger] coalesced_live_after(b, live_out, u2, j).contains(v)
            ==> interferes(g, u2.repr(v), u2.repr(b.instructions@[j].dest)))
        && (forall|k: int| 0 <= k < op_uses(b.instructions@[j].op).len()
            ==> interferes(g, u2.repr(#[trigger] op_uses(b.instructions@[j].op)[k]), u2.repr(b.instructions@[j].dest))) by {
        lemma_coalesced_live_same_repr(b, live_out, u1, u2, j);
        assert(u1.repr(b.instructions@[j].dest) == u2.repr(b.instructions@[j].dest));
        assert forall|v: VirtualRegister| #[trigger] coalesced_live_after(b, live_out, u2, j).contains(v)
            implies interferes(g, u2.repr(v), u2.repr(b.instructions@[j].dest)) by {
            assert(u1.repr(v) == u2.repr(v));
        }
        assert forall|k: int| 0 <= k < op_uses(b.instructions@[j].op).len()
            implies interferes(g, u2.repr(#[trigger] op_uses(b.instructions@[j].op)[k]), u2.repr(b.instructions@[j].dest)) by {
            assert(u1.repr(op_uses(b.instructions@[j].op)[k]) == u2.repr(op_uses(b.instructions@[j].op)[k]));
        }
    }
    assert forall|p: VirtualRegister| #[trigger] b.params@.contains(p) implies g.dom().contains(u2.repr(p))
        && forall|v: VirtualRegister| #[trigger] live_in.contains(v) ==> interferes(g, u2.repr(p), u2.repr(v)) by {
        assert(u1.repr(p) == u2.repr(p));
        assert forall|v: VirtualRegister| #[trigger] live_in.contains(v) implies interferes(g, u2.repr(p), u2.repr(v)) by {
            assert(u1.repr(v) == u2.repr(v));
        }
    }
    let tu = terminator_uses(b.terminator);
    assert forall|x: int, y: int| 0 <= x < tu.len() && 0 <= y < tu.len() implies interferes(g, u2.repr(#[trigger] tu[x]), u2.repr(#[trigger] tu[y])) by {
        assert(u1.repr(tu[x]) == u2.repr(tu[x]));
        assert(u1.repr(tu[y]) == u2.repr(tu[y]));
    }
}

} // verus!
