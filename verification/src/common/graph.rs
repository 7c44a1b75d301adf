use vstd::prelude::*;

use crate::common::regset::RegSet;
use crate::ir::types::VirtualRegister;

verus! {

/// The position of `v` in `s`, for a sequence in which it occurs.
pub open spec fn pos_in(s: Seq<VirtualRegister>, v: VirtualRegister) -> int {
    choose|i: int| 0 <= i < s.len() && s[i] == v
}

pub proof fn lemma_pos_in(s: Seq<VirtualRegister>, i: int)
    requires
        s.no_duplicates(),
        0 <= i < s.len(),
    ensures
        pos_in(s, s[i]) == i,
{
    let j = pos_in(s, s[i]);
    assert(0 <= j < s.len() && s[j] == s[i]);
}

/// An undirected graph without self-loops: every edge is recorded at both ends, and every
/// neighbour is itself a vertex.
pub open spec fn is_undirected(m: Map<VirtualRegister, Set<VirtualRegister>>) -> bool {
    forall|u: VirtualRegister, v: VirtualRegister|
        #![trigger m[u].contains(v)]
        m.dom().contains(u) && m[u].contains(v) ==> u != v && m.dom().contains(v) && m[v].contains(
            u,
        )
}

/// The graph `m` with the undirected edge `a`-`b` added (and its ends made vertices).
pub open spec fn with_edge(m: Map<VirtualRegister, Set<VirtualRegister>>, a: VirtualRegister, b: VirtualRegister) -> Map<VirtualRegister, Set<VirtualRegister>> {
    let m1 = if m.dom().contains(a) { m } else { m.insert(a, Set::empty()) };
    let m2 = if m1.dom().contains(b) { m1 } else { m1.insert(b, Set::empty()) };
    m2.insert(a, m2[a].insert(b)).insert(b, m2[b].insert(a))
}

/// The graph `m` with vertex `v` and every edge at `v` removed.
pub open spec fn without_vertex(m: Map<VirtualRegister, Set<VirtualRegister>>, v: VirtualRegister) -> Map<VirtualRegister, Set<VirtualRegister>> {
    Map::new(|u: VirtualRegister| m.dom().contains(u) && u != v, |u: VirtualRegister| m[u].remove(v))
}

/// An undirected graph over virtual registers, stored as an adjacency list in the order in which
/// vertices were first added.
#[derive(Debug)]
pub struct Graph {
    verts: Vec<VirtualRegister>,
    adj: Vec<RegSet>,
}

impl View for Graph {
    type V = Map<VirtualRegister, Set<VirtualRegister>>;

    closed spec fn view(&self) -> Map<VirtualRegister, Set<VirtualRegister>> {
        Map::new(
            |v: VirtualRegister| self.verts@.contains(v),
            |v: VirtualRegister| self.adj@[pos_in(self.verts@, v)]@,
        )
    }
}

impl Graph {
    /// The vertices in the order in which they were added.
    pub closed spec fn order(&self) -> Seq<VirtualRegister> {
        self.verts@
    }

    pub closed spec fn wf(&self) -> bool {
        &&& self.verts@.len() == self.adj@.len()
        &&& self.verts@.no_duplicates()
        &&& forall|i: int| 0 <= i < self.adj@.len() ==> (#[trigger] self.adj@[i]).wf()
        &&& is_undirected(self@)
    }

    pub proof fn lemma_order(&self)
        requires
            self.wf(),
        ensures
            self.order().no_duplicates(),
            self@.dom() == self.order().to_set(),
            self@.dom().finite(),
            self@.dom().len() == self.order().len(),
            is_undirected(self@),
            forall|v: VirtualRegister| #[trigger] self@.dom().contains(v) ==> self@[v].finite(),
    {
        assert(self@.dom() =~= self.verts@.to_set());
        self.verts@.unique_seq_to_set();
        assert forall|v: VirtualRegister| #[trigger] self@.dom().contains(v) implies self@[v].finite() by {
            let i = choose|i: int| 0 <= i < self.verts@.len() && self.verts@[i] == v;
            self.lemma_at(i);
            self.adj@[i].lemma_elems();
        }
    }

    proof fn lemma_at(&self, i: int)
        requires
            self.verts@.no_duplicates(),
            0 <= i < self.verts@.len(),
        ensures
            self@.dom().contains(self.verts@[i]),
            self@[self.verts@[i]] == self.adj@[i]@,
    {
        lemma_pos_in(self.verts@, i);
    }

    pub fn new() -> (g: Self)
        ensures
            g.wf(),
            g@ == Map::<VirtualRegister, Set<VirtualRegister>>::empty(),
            g.order() == Seq::<VirtualRegister>::empty(),
    {
        let g = Graph { verts: Vec::new(), adj: Vec::new() };
        assert(g@ =~= Map::<VirtualRegister, Set<VirtualRegister>>::empty());
        g
    }

    /// The position of `v` among the vertices.
    fn find(&self, v: VirtualRegister) -> (r: Option<usize>)
        requires
            self.wf(),
        ensures
            r is None ==> !self@.dom().contains(v),
            r matches Some(i) ==> i < self.verts@.len() && self.verts@[i as int] == v,
    {
        let mut i: usize = 0;
        while i < self.verts.len()
            invariant
                0 <= i <= self.verts@.len(),
                forall|j: int| 0 <= j < i ==> self.verts@[j] != v,
            decreases self.verts@.len() - i,
        {
            if self.verts[i].0 == v.0 {
                return Some(i);
            }
            i = i + 1;
        }
        None
    }

    pub fn add_vertex(&mut self, v: VirtualRegister)
        requires
            old(self).wf(),
        ensures
            final(self).wf(),
            final(self)@ == (if old(self)@.dom().contains(v) {
                old(self)@
            } else {
                old(self)@.insert(v, Set::empty())
            }),
            final(self).order() == (if old(self)@.dom().contains(v) {
                old(self).order()
            } else {
                old(self).order().push(v)
            }),
    {
        match self.find(v) {
            Some(_) => {},
            None => {
                let ghost old_view = self@;
                let ghost old_verts = self.verts@;
                let ghost old_adj = self.adj@;
                self.verts.push(v);
                self.adj.push(RegSet::new());
                proof {
                    assert(forall|i: int| 0 <= i < old_verts.len() ==> self.verts@[i] == old_verts[i]);
                    assert forall|u: VirtualRegister| #[trigger] self.verts@.contains(u) implies (u == v
                        || old_verts.contains(u)) by {
                        let k = choose|k: int| 0 <= k < self.verts@.len() && self.verts@[k] == u;
                        if k < old_verts.len() {
                            assert(old_verts[k] == u);
                        }
                    }
                    assert forall|u: VirtualRegister| old_verts.contains(u) implies #[trigger] self.verts@.contains(u) by {
                        let k = choose|k: int| 0 <= k < old_verts.len() && old_verts[k] == u;
                        assert(self.verts@[k] == u);
                    }
                    assert forall|u: VirtualRegister| old_verts.contains(u) implies #[trigger] pos_in(self.verts@, u) == pos_in(old_verts, u) by {
                        let k = choose|k: int| 0 <= k < old_verts.len() && old_verts[k] == u;
                        lemma_pos_in(old_verts, k);
                        lemma_pos_in(self.verts@, k);
                    }
                    lemma_pos_in(self.verts@, old_verts.len() as int);
                    assert(self@ =~= old_view.insert(v, Set::empty()));
                }
            },
        }
    }

    /// Adds the undirected edge `a`-`b`; a self-loop is ignored.
    pub fn add_edge(&mut self, a: VirtualRegister, b: VirtualRegister)
        requires
            old(self).wf(),
        ensures
            final(self).wf(),
            final(self)@ == (if a == b { old(self)@ } else { with_edge(old(self)@, a, b) }),
    {
        if a.0 == b.0 {
            return;
        }
        let ghost m0 = self@;
        self.add_vertex(a);
        let ghost m1 = self@;
        self.add_vertex(b);
        let ghost m2 = self@;
        assert(m1 == (if m0.dom().contains(a) { m0 } else { m0.insert(a, Set::empty()) }));
        assert(m2 == (if m1.dom().contains(b) { m1 } else { m1.insert(b, Set::empty()) }));
        let ia = match self.find(a) {
            Some(i) => i,
            None => { return; },
        };
        let ib = match self.find(b) {
            Some(i) => i,
            None => { return; },
        };
        proof {
            self.lemma_at(ia as int);
            self.lemma_at(ib as int);
        }
        let mut sa = self.adj[ia].copy();
        sa.insert(b);
        self.adj[ia] = sa;
        let mut sb = self.adj[ib].copy();
        sb.insert(a);
        self.adj[ib] = sb;
        proof {
            assert(ia != ib);
            let target = m2.insert(a, m2[a].insert(b)).insert(b, m2[b].insert(a));
            assert forall|u: VirtualRegister| #[trigger] self.verts@.contains(u) implies self@[u] == target[u] by {
                let k = pos_in(self.verts@, u);
                self.lemma_at(k);
            }
            assert(self@ =~= target);
            assert(target == with_edge(m0, a, b));
            assert forall|u: VirtualRegister, w: VirtualRegister|
                #![trigger self@[u].contains(w)]
                self@.dom().contains(u) && self@[u].contains(w) implies u != w && self@.dom().contains(w)
                && self@[w].contains(u) by {
                if u == a && w == b {
                } else if u == b && w == a {
                } else {
                    assert(m2[u].contains(w));
                }
            }
        }
    }

    /// Removes `v` and every edge at it, returning its former neighbours.
    pub fn remove_vertex(&mut self, v: VirtualRegister) -> (r: Option<RegSet>)
        requires
            old(self).wf(),
        ensures
            final(self).wf(),
            final(self)@ == without_vertex(old(self)@, v),
            final(self).order() == old(self).order().remove_value(v),
            r is None <==> !old(self)@.dom().contains(v),
            r matches Some(s) ==> s.wf() && s@ == old(self)@[v],
    {
        let idx = match self.find(v) {
            Some(i) => i,
            None => {
                proof {
                    assert forall|u: VirtualRegister| #[trigger] self@.dom().contains(u) implies self@[u].remove(v) == self@[u] by {
                        assert(!self@[u].contains(v));
                        assert(self@[u].remove(v) =~= self@[u]);
                    }
                    assert(self@ =~= without_vertex(self@, v));
                    assert(self.verts@.index_of_first(v) is None) by {
                        self.verts@.index_of_first_ensures(v);
                    }
                }
                return None;
            },
        };
        let ghost m0 = self@;
        let ghost verts0 = self.verts@;
        proof {
            self.lemma_at(idx as int);
            verts0.index_of_first_ensures(v);
        }
        let removed = self.adj.remove(idx);
        self.verts.remove(idx);
        let ghost verts1 = self.verts@;
        proof {
            assert(verts0.remove_value(v) == verts1) by {
                let k = verts0.index_of_first(v).unwrap();
                assert(verts0[k] == v);
                assert(k == idx) by {
                    if k != idx {
                        assert(verts0[idx as int] == v);
                    }
                }
            }
        }
        let mut i: usize = 0;
        while i < self.adj.len()
            invariant
                0 <= i <= self.adj@.len(),
                self.verts@ == verts1,
                self.adj@.len() == verts1.len(),
                verts1.no_duplicates(),
                verts0.no_duplicates(),
                verts1 == verts0.remove(idx as int),
                0 <= idx < verts0.len(),
                verts0[idx as int] == v,
                forall|j: int| 0 <= j < self.adj@.len() ==> (#[trigger] self.adj@[j]).wf(),
                forall|j: int|
                    0 <= j < i ==> (#[trigger] self.adj@[j])@ == m0[verts1[j]].remove(v),
                forall|j: int|
                    i <= j < self.adj@.len() ==> (#[trigger] self.adj@[j])@ == m0[verts1[j]],
                m0.dom() == verts0.to_set(),
            decreases self.adj@.len() - i,
        {
            let mut s = self.adj[i].copy();
            s.remove(v);
            self.adj[i] = s;
            i = i + 1;
        }
        proof {
            let target = without_vertex(m0, v);
            assert forall|u: VirtualRegister| #[trigger] self.verts@.contains(u) <==> target.dom().contains(u) by {
                if self.verts@.contains(u) {
                    let k = choose|k: int| 0 <= k < verts1.len() && verts1[k] == u;
                    if k < idx {
                        assert(verts0[k] == u);
                    } else {
                        assert(verts0[k + 1] == u);
                    }
                    assert(verts0.to_set().contains(u));
                }
                if target.dom().contains(u) {
                    let k = choose|k: int| 0 <= k < verts0.len() && verts0[k] == u;
                    assert(k != idx);
                    if k < idx {
                        assert(verts1[k] == u);
                    } else {
                        assert(verts1[k - 1] == u);
                    }
                }
            }
            assert forall|u: VirtualRegister| #[trigger] self.verts@.contains(u) implies self@[u] == target[u] by {
                let k = pos_in(self.verts@, u);
                self.lemma_at(k);
            }
            assert(self@ =~= target);
            assert forall|a: VirtualRegister, b: VirtualRegister|
                #![trigger self@[a].contains(b)]
                self@.dom().contains(a) && self@[a].contains(b) implies a != b && self@.dom().contains(b)
                && self@[b].contains(a) by {
                assert(m0.dom().contains(a) && m0[a].contains(b));
            }
        }
        Some(removed)
    }

    pub fn is_empty(&self) -> (b: bool)
        requires
            self.wf(),
        ensures
            b == (self@.dom() == Set::<VirtualRegister>::empty()),
    {
        proof {
            self.lemma_order();
            if self.verts@.len() > 0 {
                assert(self@.dom().contains(self.verts@[0]));
            } else {
                assert(self@.dom() =~= Set::<VirtualRegister>::empty());
            }
        }
        self.verts.len() == 0
    }

    /// The number of vertices.
    pub fn len(&self) -> (n: usize)
        requires
            self.wf(),
        ensures
            n == self@.dom().len(),
            n == self.order().len(),
    {
        proof {
            self.lemma_order();
        }
        self.verts.len()
    }

    /// The vertices, in the order in which they were added.
    pub fn vertices(&self) -> (r: Vec<VirtualRegister>)
        ensures
            r@ == self.order(),
    {
        crate::ir::types::copy_regs(&self.verts)
    }

    /// The number of neighbours of `v` (0 for a vertex not in the graph).
    pub fn degree(&self, v: VirtualRegister) -> (d: usize)
        requires
            self.wf(),
        ensures
            d == (if self@.dom().contains(v) { self@[v].len() } else { 0 }),
    {
        match self.find(v) {
            Some(i) => {
                proof {
                    self.lemma_at(i as int);
                }
                self.adj[i].len()
            },
            None => 0,
        }
    }

    /// The neighbours of `v`, if `v` is a vertex.
    pub fn edges(&self, v: VirtualRegister) -> (r: Option<&RegSet>)
        requires
            self.wf(),
        ensures
            r is None <==> !self@.dom().contains(v),
            r matches Some(s) ==> s.wf() && s@ == self@[v],
    {
        match self.find(v) {
            Some(i) => {
                proof {
                    self.lemma_at(i as int);
                }
                Some(&self.adj[i])
            },
            None => None,
        }
    }

    /// A copy with the same vertices, edges and vertex order.
    pub fn copy(&self) -> (g: Graph)
        requires
            self.wf(),
        ensures
            g.wf(),
            g@ == self@,
            g.order() == self.order(),
    {
        let mut adj: Vec<RegSet> = Vec::new();
        let mut i: usize = 0;
        while i < self.adj.len()
            invariant
                0 <= i <= self.adj@.len(),
                adj@.len() == i,
                forall|j: int| 0 <= j < i ==> (#[trigger] adj@[j])@ == self.adj@[j]@ && adj@[j].wf(),
                self.wf(),
            decreases self.adj@.len() - i,
        {
            adj.push(self.adj[i].copy());
            i = i + 1;
        }
        let g = Graph { verts: crate::ir::types::copy_regs(&self.verts), adj };
        assert(g@ =~= self@);
        g
    }
}

} // verus!

verus! {

/// `a` and `b` are the same register or neighbours in `m`.
pub open spec fn interferes(m: Map<VirtualRegister, Set<VirtualRegister>>, a: VirtualRegister, b: VirtualRegister) -> bool {
    a == b || (m.dom().contains(a) && m[a].contains(b))
}

/// `m2` has every vertex and edge of `m1`.
pub open spec fn grows(m1: Map<VirtualRegister, Set<VirtualRegister>>, m2: Map<VirtualRegister, Set<VirtualRegister>>) -> bool {
    forall|v: VirtualRegister| #[trigger] m1.dom().contains(v) ==> m2.dom().contains(v) && m1[v].subset_of(m2[v])
}

pub proof fn lemma_grows_trans(m1: Map<VirtualRegister, Set<VirtualRegister>>, m2: Map<VirtualRegister, Set<VirtualRegister>>, m3: Map<VirtualRegister, Set<VirtualRegister>>)
    requires
        grows(m1, m2),
        grows(m2, m3),
    ensures
        grows(m1, m3),
{
    assert forall|v: VirtualRegister| #[trigger] m1.dom().contains(v) implies m3.dom().contains(v) && m1[v].subset_of(m3[v]) by {
        assert(m2.dom().contains(v));
    }
}

pub proof fn lemma_grows_interferes(m1: Map<VirtualRegister, Set<VirtualRegister>>, m2: Map<VirtualRegister, Set<VirtualRegister>>, a: VirtualRegister, b: VirtualRegister)
    requires
        grows(m1, m2),
        interferes(m1, a, b),
    ensures
        interferes(m2, a, b),
{
    if a != b {
        assert(m1.dom().contains(a));
    }
}

/// Adding an edge keeps every vertex and edge, and makes its ends interfere.
pub proof fn lemma_with_edge(m: Map<VirtualRegister, Set<VirtualRegister>>, a: VirtualRegister, b: VirtualRegister)
    ensures
        grows(m, with_edge(m, a, b)),
        interferes(with_edge(m, a, b), a, b),
        interferes(with_edge(m, a, b), b, a),
{
    let w = with_edge(m, a, b);
    assert forall|v: VirtualRegister| #[trigger] m.dom().contains(v) implies w.dom().contains(v) && m[v].subset_of(w[v]) by {}
}

/// `g` has the edge `a`-`c`.
pub open spec fn has_edge(g: Map<VirtualRegister, Set<VirtualRegister>>, a: VirtualRegister, c: VirtualRegister) -> bool {
    g.dom().contains(a) && g[a].contains(c)
}

/// Every edge of `g1` is an edge of `g0` or joins `x` to a member of `s`.
pub open spec fn edges_from(g0: Map<VirtualRegister, Set<VirtualRegister>>, g1: Map<VirtualRegister, Set<VirtualRegister>>, x: VirtualRegister, s: Set<VirtualRegister>) -> bool {
    forall|a: VirtualRegister, c: VirtualRegister| #[trigger] has_edge(g1, a, c) ==> has_edge(g0, a, c)
        || (a == x && s.contains(c)) || (c == x && s.contains(a))
}

/// Adding an edge adds no other edge.
pub proof fn lemma_with_edge_from(m: Map<VirtualRegister, Set<VirtualRegister>>, a: VirtualRegister, b: VirtualRegister)
    ensures
        edges_from(m, with_edge(m, a, b), a, set![b]),
{
    let m1 = if m.dom().contains(a) { m } else { m.insert(a, Set::empty()) };
    let m2 = if m1.dom().contains(b) { m1 } else { m1.insert(b, Set::empty()) };
    assert forall|u: VirtualRegister, c: VirtualRegister| #[trigger] has_edge(m2, u, c) implies has_edge(m, u, c) by {
        if m1.dom().contains(u) && m1[u].contains(c) {
            if m.dom().contains(a) {
            } else if u == a {
                assert(m1[u] == Set::<VirtualRegister>::empty());
            }
        }
    }
    let w = with_edge(m, a, b);
    assert forall|u: VirtualRegister, c: VirtualRegister| #[trigger] has_edge(w, u, c) implies has_edge(m, u, c)
        || (u == a && set![b].contains(c)) || (c == a && set![b].contains(u)) by {
        if u != a && u != b {
            assert(has_edge(m2, u, c));
        } else if u == a && u != b {
            assert(w[u] == m2[a].insert(b));
            if c != b {
                assert(has_edge(m2, u, c));
            }
        } else if u == b && u != a {
            assert(w[u] == m2[b].insert(a));
            if c != a {
                assert(has_edge(m2, u, c));
            }
        } else {
            assert(w[u] == m2[b].insert(a));
            if c != a {
                assert(has_edge(m2, u, c));
            }
        }
    }
}

/// Adding a vertex adds no edge.
pub proof fn lemma_insert_vertex_from(m: Map<VirtualRegister, Set<VirtualRegister>>, v: VirtualRegister, x: VirtualRegister, s: Set<VirtualRegister>)
    requires
        !m.dom().contains(v),
    ensures
        edges_from(m, m.insert(v, Set::empty()), x, s),
{
    let w = m.insert(v, Set::empty());
    assert forall|u: VirtualRegister, c: VirtualRegister| #[trigger] has_edge(w, u, c) implies has_edge(m, u, c) by {
        if u == v {
            assert(w[u] == Set::<VirtualRegister>::empty());
        }
    }
}

/// Two steps of adding edges at `x` add edges at `x` to the union of the two sets.
pub proof fn lemma_edges_from_trans(
    g0: Map<VirtualRegister, Set<VirtualRegister>>,
    g1: Map<VirtualRegister, Set<VirtualRegister>>,
    g2: Map<VirtualRegister, Set<VirtualRegister>>,
    x: VirtualRegister,
    s1: Set<VirtualRegister>,
    s2: Set<VirtualRegister>,
)
    requires
        edges_from(g0, g1, x, s1),
        edges_from(g1, g2, x, s2),
    ensures
        edges_from(g0, g2, x, s1.union(s2)),
{
    assert forall|a: VirtualRegister, c: VirtualRegister| #[trigger] has_edge(g2, a, c) implies has_edge(g0, a, c)
        || (a == x && s1.union(s2).contains(c)) || (c == x && s1.union(s2).contains(a)) by {
        if has_edge(g1, a, c) {
            assert(has_edge(g1, a, c));
        }
    }
}

impl Graph {
    /// Adds the edge `a`-`b` (when they differ) and makes `a` a vertex.
    pub fn connect(&mut self, a: VirtualRegister, b: VirtualRegister)
        requires
            old(self).wf(),
        ensures
            final(self).wf(),
            grows(old(self)@, final(self)@),
            interferes(final(self)@, a, b),
            interferes(final(self)@, b, a),
            final(self)@.dom().contains(a),
            final(self)@.dom() == old(self)@.dom().insert(a).insert(b) || (a == b && final(self)@.dom() == old(self)@.dom().insert(a)),
            edges_from(old(self)@, final(self)@, a, set![b]),
    {
        let ghost m0 = self@;
        self.add_vertex(a);
        let ghost m1 = self@;
        self.add_edge(a, b);
        proof {
            if !m0.dom().contains(a) {
                lemma_insert_vertex_from(m0, a, a, Set::empty());
            } else {
                assert forall|u: VirtualRegister, c: VirtualRegister| #[trigger] has_edge(m1, u, c) implies has_edge(m0, u, c) by {}
            }
            if a != b {
                lemma_with_edge_from(m1, a, b);
                lemma_edges_from_trans(m0, m1, self@, a, Set::empty(), set![b]);
                assert(Set::<VirtualRegister>::empty().union(set![b]) =~= set![b]);
            } else {
                assert forall|u: VirtualRegister, c: VirtualRegister| #[trigger] has_edge(self@, u, c) implies has_edge(m0, u, c) by {
                    assert(has_edge(m1, u, c));
                }
            }
            if a != b {
                assert(m1.dom().contains(a));
                assert(self@ == with_edge(m1, a, b));
                assert(self@.dom() =~= m0.dom().insert(a).insert(b));
            } else {
                assert(self@.dom() =~= m0.dom().insert(a));
            }
            assert forall|v: VirtualRegister| #[trigger] m0.dom().contains(v) implies self@.dom().contains(v) && m0[v].subset_of(self@[v]) by {
                assert(m1.dom().contains(v));
            }
        }
    }

    /// Makes `a` a vertex.
    pub fn ensure_vertex(&mut self, a: VirtualRegister)
        requires
            old(self).wf(),
        ensures
            final(self).wf(),
            grows(old(self)@, final(self)@),
            final(self)@.dom().contains(a),
            forall|u: VirtualRegister, c: VirtualRegister| #[trigger] has_edge(final(self)@, u, c) ==> has_edge(old(self)@, u, c),
    {
        let ghost m0 = self@;
        self.add_vertex(a);
        proof {
            if !m0.dom().contains(a) {
                lemma_insert_vertex_from(m0, a, a, Set::empty());
                assert forall|u: VirtualRegister, c: VirtualRegister| #[trigger] has_edge(self@, u, c) implies has_edge(m0, u, c) by {}
            }
        }
    }
}

} // verus!
