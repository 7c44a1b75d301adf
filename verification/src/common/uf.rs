use std::collections::HashMap;
use vstd::prelude::*;

use crate::ir::types::VirtualRegister;

verus! {

broadcast use vstd::std_specs::hash::group_hash_axioms;

/// A union-find (disjoint-set) structure over virtual registers with path compression.
/// A register never mentioned is in a class of its own.
pub struct UnionFind {
    parent: HashMap<usize, usize>,
    /// The root of each register that has a parent entry.
    roots: Ghost<Map<usize, usize>>,
    /// A measure that strictly decreases from a register to its parent.
    rank: Ghost<Map<usize, nat>>,
}

impl Default for UnionFind {
    /// Every register in a class of its own.
    fn default() -> (uf: Self)
        ensures
            uf.wf(),
            forall|x: VirtualRegister| #[trigger] uf.repr(x) == x,
    {
        UnionFind::new()
    }
}

impl UnionFind {
    spec fn par(&self, x: usize) -> usize {
        if self.parent@.contains_key(x) { self.parent@[x] } else { x }
    }

    spec fn rt(&self, x: usize) -> usize {
        if self.roots@.contains_key(x) { self.roots@[x] } else { x }
    }

    spec fn rk(&self, x: usize) -> nat {
        if self.rank@.contains_key(x) { self.rank@[x] } else { 0 }
    }

    /// Well-formedness of the parent forest.
    pub closed spec fn wf(&self) -> bool {
        &&& self.roots@.dom() == self.parent@.dom()
        &&& self.rank@.dom() == self.parent@.dom()
        &&& forall|x: usize| self.par(x) != x ==> #[trigger] self.rk(self.par(x)) < self.rk(x)
        &&& forall|x: usize| #[trigger] self.rt(x) == self.rt(self.par(x))
        &&& forall|x: usize| #[trigger] self.par(self.rt(x)) == self.rt(x)
        &&& forall|x: usize| self.par(x) == x ==> #[trigger] self.rt(x) == x
    }

    /// `x` has never been linked into a class: it has no parent and is no register's root.
    pub closed spec fn untouched(&self, x: VirtualRegister) -> bool {
        &&& !self.parent@.contains_key(x.0)
        &&& forall|y: usize| #[trigger] self.parent@.contains_key(y) ==> self.rt(y) != x.0
    }

    /// A register that was never linked into a class is its own representative.
    pub proof fn lemma_untouched_repr(&self, x: VirtualRegister)
        requires
            self.wf(),
            self.untouched(x),
        ensures
            self.repr(x) == x,
    {
        assert(self.par(x.0) == x.0);
    }

    /// The representative of the class of `x`.
    pub closed spec fn repr(&self, x: VirtualRegister) -> VirtualRegister {
        VirtualRegister(self.rt(x.0))
    }

    /// `x` and `y` are in the same class.
    pub open spec fn same(&self, x: VirtualRegister, y: VirtualRegister) -> bool {
        self.repr(x) == self.repr(y)
    }

    /// A representative is its own representative.
    pub proof fn lemma_repr_idempotent(&self, x: VirtualRegister)
        requires
            self.wf(),
        ensures
            self.repr(self.repr(x)) == self.repr(x),
    {
        let r = self.rt(x.0);
        assert(self.par(r) == r);
        assert(self.rt(r) == r);
    }

    proof fn lemma_root_rank(&self, x: usize)
        requires
            self.wf(),
        ensures
            self.par(x) != x ==> self.rk(self.rt(x)) < self.rk(x),
        decreases self.rk(x),
    {
        let p = self.par(x);
        if p != x {
            assert(self.rk(p) < self.rk(x));
            assert(self.rt(x) == self.rt(p));
            if self.par(p) != p {
                self.lemma_root_rank(p);
            } else {
                assert(self.rt(p) == p);
            }
        }
    }

    pub fn new() -> (uf: Self)
        ensures
            uf.wf(),
            forall|x: VirtualRegister| #[trigger] uf.repr(x) == x,
            forall|x: VirtualRegister| #[trigger] uf.untouched(x),
    {
        UnionFind {
            parent: HashMap::new(),
            roots: Ghost(Map::empty()),
            rank: Ghost(Map::empty()),
        }
    }

    proof fn lemma_compress(s: &Self, t: &Self, x: usize)
        requires
            s.wf(),
            s.par(x) != x,
            t.roots@ == s.roots@,
            t.rank@ == s.rank@,
            t.parent@ == s.parent@.insert(x, s.rt(x)),
        ensures
            t.wf(),
            forall|y: usize| s.par(y) != y ==> #[trigger] t.par(y) != y,
    {
        s.lemma_root_rank(x);
        assert(t.parent@.dom() =~= s.parent@.dom());
        assert forall|y: usize| #[trigger] t.par(y) == (if y == x { s.rt(x) } else { s.par(y) }) by {}
        assert forall|y: usize| #[trigger] t.rt(y) == s.rt(y) by {}
        assert forall|y: usize| #[trigger] t.rk(y) == s.rk(y) by {}
        assert forall|y: usize| t.par(y) != y implies #[trigger] t.rk(t.par(y)) < t.rk(y) by {
            if y == x {
                s.lemma_root_rank(x);
            } else {
                assert(s.par(y) != y ==> s.rk(s.par(y)) < s.rk(y));
            }
        }
        assert forall|y: usize| #[trigger] t.rt(y) == t.rt(t.par(y)) by {
            if y == x {
                let r = s.rt(x);
                assert(s.par(r) == r);
                assert(s.rt(s.par(r)) == s.rt(r));
                assert(s.rt(r) == r);
            } else {
                assert(s.rt(y) == s.rt(s.par(y)));
            }
        }
        assert forall|y: usize| #[trigger] t.par(t.rt(y)) == t.rt(y) by {
            let r = s.rt(y);
            assert(s.par(r) == r);
            if r == x {
                assert(false);
            }
        }
        assert forall|y: usize| t.par(y) == y implies #[trigger] t.rt(y) == y by {
            if y != x {
                assert(s.par(y) == y);
            }
        }
    }

    fn find(&mut self, x: usize) -> (r: usize)
        requires
            old(self).wf(),
        ensures
            final(self).wf(),
            r == old(self).rt(x),
            final(self).roots@ == old(self).roots@,
            final(self).rank@ == old(self).rank@,
            forall|y: usize| old(self).par(y) != y ==> #[trigger] final(self).par(y) != y,
            final(self).parent@.dom() == old(self).parent@.dom(),
        decreases old(self).rk(x),
    {
        let p = match self.parent.get(&x) {
            Some(p) => *p,
            None => x,
        };
        if p != x {
            proof {
                assert(self.par(x) == p);
                assert(self.rk(self.par(x)) < self.rk(x));
                assert(self.rt(x) == self.rt(self.par(x)));
            }
            let root = self.find(p);
            let ghost before = *self;
            self.parent.insert(x, root);
            proof {
                Self::lemma_compress(&before, self, x);
                assert(before.parent@.contains_key(x));
                assert(self.parent@.dom() =~= before.parent@.dom());
            }
            root
        } else {
            proof {
                assert(self.par(x) == x);
            }
            x
        }
    }

    proof fn lemma_link(s: &Self, t: &Self, ra: usize, rb: usize)
        requires
            s.wf(),
            ra != rb,
            s.par(ra) == ra,
            s.par(rb) == rb,
            t.parent@ == s.parent@.insert(ra, rb),
            t.roots@ == Map::new(|y: usize| t.parent@.dom().contains(y), |y: usize| if s.rt(y) == ra { rb } else { s.rt(y) }),
            t.rank@ == Map::new(|y: usize| t.parent@.dom().contains(y), |y: usize| if s.rt(y) == ra { s.rk(y) + s.rk(rb) + 1 } else { s.rk(y) }),
        ensures
            t.wf(),
            forall|y: usize| #[trigger] t.rt(y) == (if s.rt(y) == ra { rb } else { s.rt(y) }),
    {
        let dom = t.parent@.dom();
        assert(t.roots@.dom() =~= dom);
        assert(t.rank@.dom() =~= dom);
        assert(s.rt(ra) == ra);
        assert(s.rt(rb) == rb);
        assert forall|y: usize| #[trigger] t.rt(y) == (if s.rt(y) == ra { rb } else { s.rt(y) }) by {
            if !dom.contains(y) {
                assert(!s.parent@.contains_key(y));
                assert(s.par(y) == y);
                assert(s.rt(y) == y);
            }
        }
        assert forall|y: usize| #[trigger] t.rk(y) == (if s.rt(y) == ra { s.rk(y) + s.rk(rb) + 1 } else { s.rk(y) }) by {
            if !dom.contains(y) {
                assert(s.par(y) == y);
                assert(s.rt(y) == y);
                assert(s.rk(y) == 0);
            }
        }
        assert forall|y: usize| #[trigger] t.par(y) == (if y == ra { rb } else { s.par(y) }) by {}
        assert forall|y: usize| t.par(y) != y implies #[trigger] t.rk(t.par(y)) < t.rk(y) by {
            if y != ra {
                assert(s.rt(y) == s.rt(s.par(y)));
                assert(s.rk(s.par(y)) < s.rk(y));
            }
        }
        assert forall|y: usize| #[trigger] t.rt(y) == t.rt(t.par(y)) by {
            if y != ra {
                assert(s.rt(y) == s.rt(s.par(y)));
            }
        }
        assert forall|y: usize| #[trigger] t.par(t.rt(y)) == t.rt(y) by {
            assert(s.par(s.rt(y)) == s.rt(y));
        }
        assert forall|y: usize| t.par(y) == y implies #[trigger] t.rt(y) == y by {
            if y != ra {
                assert(s.par(y) == y);
                assert(s.rt(y) == y);
            }
        }
    }

    /// Merges the classes of `a` and `b`: the members of `a`'s class take the representative of
    /// `b`'s; every other class keeps its own.
    pub fn union(&mut self, a: VirtualRegister, b: VirtualRegister)
        requires
            old(self).wf(),
        ensures
            final(self).wf(),
            final(self).same(a, b),
            forall|x: VirtualRegister, y: VirtualRegister| #[trigger] final(self).same(x, y) <==> (
                old(self).same(x, y) || (old(self).same(x, a) && old(self).same(y, b)) || (
                old(self).same(x, b) && old(self).same(y, a))),
            forall|x: VirtualRegister| #[trigger] final(self).repr(x) == (if old(self).same(x, a) {
                old(self).repr(b)
            } else {
                old(self).repr(x)
            }),
            forall|x: VirtualRegister| x != a && x != b && old(self).untouched(x) ==> #[trigger] final(self).untouched(x),
    {
        let ghost s0 = *self;
        let ra = self.find(a.0);
        let rb = self.find(b.0);
        let ghost s1 = *self;
        proof {
            assert(forall|y: usize| #[trigger] s1.rt(y) == s0.rt(y));
        }
        if ra != rb {
            proof {
                assert(s1.par(s1.rt(a.0)) == s1.rt(a.0));
                assert(s1.par(s1.rt(b.0)) == s1.rt(b.0));
            }
            self.parent.insert(ra, rb);
            proof {
                let dom = self.parent@.dom();
                self.roots = Ghost(Map::new(|y: usize| dom.contains(y), |y: usize| if s1.rt(y) == ra { rb } else { s1.rt(y) }));
                self.rank = Ghost(Map::new(|y: usize| dom.contains(y), |y: usize| if s1.rt(y) == ra { s1.rk(y) + s1.rk(rb) + 1 } else { s1.rk(y) }));
                Self::lemma_link(&s1, self, ra, rb);
                assert forall|x: VirtualRegister, y: VirtualRegister| #[trigger] self.same(x, y) <==> (
                    s0.same(x, y) || (s0.same(x, a) && s0.same(y, b)) || (
                    s0.same(x, b) && s0.same(y, a))) by {
                    assert(self.rt(x.0) == (if s1.rt(x.0) == ra { rb } else { s1.rt(x.0) }));
                    assert(self.rt(y.0) == (if s1.rt(y.0) == ra { rb } else { s1.rt(y.0) }));
                }
                assert forall|x: VirtualRegister| #[trigger] self.repr(x) == (if s0.same(x, a) { s0.repr(b) } else { s0.repr(x) }) by {
                    assert(self.rt(x.0) == (if s1.rt(x.0) == ra { rb } else { s1.rt(x.0) }));
                }
            }
        } else {
            proof {
                assert forall|x: VirtualRegister, y: VirtualRegister| #[trigger] self.same(x, y) <==> (
                    s0.same(x, y) || (s0.same(x, a) && s0.same(y, b)) || (
                    s0.same(x, b) && s0.same(y, a))) by {
                    assert(self.rt(x.0) == s0.rt(x.0));
                    assert(self.rt(y.0) == s0.rt(y.0));
                }
                assert forall|x: VirtualRegister| #[trigger] self.repr(x) == (if s0.same(x, a) { s0.repr(b) } else { s0.repr(x) }) by {
                    assert(self.rt(x.0) == s0.rt(x.0));
                }
            }
        }
    }

    /// The representative of `x`'s class; compresses the path from `x` on the way.
    pub fn canonical(&mut self, x: VirtualRegister) -> (r: VirtualRegister)
        requires
            old(self).wf(),
        ensures
            final(self).wf(),
            r == old(self).repr(x),
            forall|y: VirtualRegister| #[trigger] final(self).repr(y) == old(self).repr(y),
            forall|y: VirtualRegister| old(self).untouched(y) ==> #[trigger] final(self).untouched(y),
    {
        let r = self.find(x.0);
        assert(forall|y: VirtualRegister| #[trigger] self.repr(y) == old(self).repr(y));
        assert forall|y: VirtualRegister| old(self).untouched(y) implies #[trigger] self.untouched(y) by {
            assert forall|z: usize| #[trigger] self.parent@.contains_key(z) implies self.rt(z) != y.0 by {
                assert(old(self).parent@.contains_key(z));
            }
        }
        VirtualRegister(r)
    }
}

} // verus!
