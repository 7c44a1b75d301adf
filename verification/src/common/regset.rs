use vstd::prelude::*;

use crate::ir::types::VirtualRegister;

verus! {

/// A finite set of virtual registers, kept as a duplicate-free sequence in insertion order.
#[derive(Debug)]
pub struct RegSet {
    items: Vec<VirtualRegister>,
}

impl View for RegSet {
    type V = Set<VirtualRegister>;

    closed spec fn view(&self) -> Set<VirtualRegister> {
        self.items@.to_set()
    }
}

impl RegSet {
    /// The members in the order in which they were first inserted.
    pub closed spec fn elems(&self) -> Seq<VirtualRegister> {
        self.items@
    }

    /// Well-formedness: no member is stored twice.
    pub closed spec fn wf(&self) -> bool {
        self.items@.no_duplicates()
    }

    pub proof fn lemma_elems(&self)
        requires
            self.wf(),
        ensures
            self@ == self.elems().to_set(),
            self.elems().no_duplicates(),
            self@.finite(),
            self@.len() == self.elems().len(),
            forall|x: VirtualRegister| self@.contains(x) <==> self.elems().contains(x),
    {
        self.items@.unique_seq_to_set();
        self.items@.lemma_no_dup_set_cardinality();
    }

    pub fn new() -> (s: Self)
        ensures
            s.wf(),
            s@ == Set::<VirtualRegister>::empty(),
            s.elems() == Seq::<VirtualRegister>::empty(),
    {
        let s = RegSet { items: Vec::new() };
        assert(s@ =~= Set::<VirtualRegister>::empty());
        s
    }

    pub fn len(&self) -> (n: usize)
        requires
            self.wf(),
        ensures
            n == self@.len(),
            n == self.elems().len(),
    {
        proof {
            self.lemma_elems();
        }
        self.items.len()
    }

    pub fn is_empty(&self) -> (b: bool)
        requires
            self.wf(),
        ensures
            b == (self@ == Set::<VirtualRegister>::empty()),
    {
        proof {
            self.lemma_elems();
            if self.items.len() > 0 {
                assert(self@.contains(self.items@[0]));
            } else {
                assert(self@ =~= Set::<VirtualRegister>::empty());
            }
        }
        self.items.len() == 0
    }

    /// The member at position `i` of the insertion order.
    pub fn get(&self, i: usize) -> (r: VirtualRegister)
        requires
            i < self.elems().len(),
        ensures
            r == self.elems()[i as int],
    {
        self.items[i]
    }

    pub fn contains(&self, r: VirtualRegister) -> (b: bool)
        ensures
            b == self@.contains(r),
    {
        let mut i: usize = 0;
        while i < self.items.len()
            invariant
                0 <= i <= self.items@.len(),
                forall|j: int| 0 <= j < i ==> self.items@[j] != r,
            decreases self.items@.len() - i,
        {
            if self.items[i].0 == r.0 {
                assert(self.items@.to_set().contains(self.items@[i as int]));
                return true;
            }
            i = i + 1;
        }
        proof {
            if self@.contains(r) {
                let k = choose|k: int| 0 <= k < self.items@.len() && self.items@[k] == r;
                assert(self.items@[k] == r);
            }
        }
        false
    }

    pub fn insert(&mut self, r: VirtualRegister) -> (added: bool)
        requires
            old(self).wf(),
        ensures
            final(self).wf(),
            final(self)@ == old(self)@.insert(r),
            added == !old(self)@.contains(r),
            added ==> final(self).elems() == old(self).elems().push(r),
            !added ==> final(self).elems() == old(self).elems(),
    {
        if self.contains(r) {
            proof {
                assert(self@.insert(r) =~= self@);
            }
            false
        } else {
            let ghost old_items = self.items@;
            self.items.push(r);
            proof {
                assert(!old_items.contains(r));
                assert(self.items@ == old_items.push(r));
                old_items.lemma_push_to_set_commute(r);
            }
            true
        }
    }

    pub fn remove(&mut self, r: VirtualRegister) -> (removed: bool)
        requires
            old(self).wf(),
        ensures
            final(self).wf(),
            final(self)@ == old(self)@.remove(r),
            removed == old(self)@.contains(r),
    {
        let mut i: usize = 0;
        while i < self.items.len()
            invariant
                0 <= i <= self.items@.len(),
                self.items@ == old(self).items@,
                old(self).wf(),
                forall|j: int| 0 <= j < i ==> self.items@[j] != r,
            decreases self.items@.len() - i,
        {
            if self.items[i].0 == r.0 {
                let ghost before = self.items@;
                self.items.remove(i);
                proof {
                    assert forall|x: VirtualRegister| #[trigger] self.items@.to_set().contains(x)
                        <==> before.to_set().remove(r).contains(x) by {
                        if self.items@.to_set().contains(x) {
                            let k = choose|k: int| 0 <= k < self.items@.len() && self.items@[k] == x;
                            if k < i {
                                assert(before[k] == x);
                                assert(k != i);
                            } else {
                                assert(before[k + 1] == x);
                                assert(k + 1 != i);
                            }
                            assert(x != r);
                        }
                        if before.to_set().remove(r).contains(x) {
                            let k = choose|k: int| 0 <= k < before.len() && before[k] == x;
                            if k < i {
                                assert(self.items@[k] == x);
                            } else {
                                assert(k != i);
                                assert(self.items@[k - 1] == x);
                            }
                        }
                    }
                    assert(self.items@.to_set() =~= before.to_set().remove(r));
                    assert(before.to_set().contains(before[i as int]));
                }
                return true;
            }
            i = i + 1;
        }
        proof {
            assert forall|x: VirtualRegister| self.items@.to_set().contains(x) implies x != r by {
                let k = choose|k: int| 0 <= k < self.items@.len() && self.items@[k] == x;
            }
            assert(self@.remove(r) =~= self@);
        }
        false
    }

    /// Adds every member of `other`.
    pub fn extend(&mut self, other: &RegSet)
        requires
            old(self).wf(),
        ensures
            final(self).wf(),
            final(self)@ == old(self)@.union(other@),
    {
        let mut i: usize = 0;
        while i < other.items.len()
            invariant
                0 <= i <= other.items@.len(),
                self.wf(),
                self@ == old(self)@.union(other.items@.take(i as int).to_set()),
            decreases other.items@.len() - i,
        {
            let ghost before = self@;
            self.insert(other.items[i]);
            proof {
                assert(other.items@.take(i + 1) == other.items@.take(i as int).push(other.items@[i as int]));
                other.items@.take(i as int).lemma_push_to_set_commute(other.items@[i as int]);
                assert(self@ =~= old(self)@.union(other.items@.take(i + 1).to_set()));
            }
            i = i + 1;
        }
        proof {
            assert(other.items@.take(other.items@.len() as int) == other.items@);
        }
    }

    /// Adds every register of `regs`.
    pub fn insert_all(&mut self, regs: &[VirtualRegister])
        requires
            old(self).wf(),
        ensures
            final(self).wf(),
            final(self)@ == old(self)@.union(regs@.to_set()),
    {
        let mut i: usize = 0;
        while i < regs.len()
            invariant
                0 <= i <= regs@.len(),
                self.wf(),
                self@ == old(self)@.union(regs@.take(i as int).to_set()),
            decreases regs@.len() - i,
        {
            self.insert(regs[i]);
            proof {
                assert(regs@.take(i + 1) == regs@.take(i as int).push(regs@[i as int]));
                regs@.take(i as int).lemma_push_to_set_commute(regs@[i as int]);
                assert(self@ =~= old(self)@.union(regs@.take(i + 1).to_set()));
            }
            i = i + 1;
        }
        proof {
            assert(regs@.take(regs@.len() as int) == regs@);
        }
    }

    /// Same members, by mutual inclusion.
    pub fn same_set(&self, other: &RegSet) -> (b: bool)
        ensures
            b == (self@ == other@),
    {
        let mut i: usize = 0;
        while i < self.items.len()
            invariant
                0 <= i <= self.items@.len(),
                forall|j: int| 0 <= j < i ==> other@.contains(#[trigger] self.items@[j]),
            decreases self.items@.len() - i,
        {
            if !other.contains(self.items[i]) {
                proof {
                    assert(self@.contains(self.items@[i as int]));
                }
                return false;
            }
            i = i + 1;
        }
        let mut k: usize = 0;
        while k < other.items.len()
            invariant
                0 <= k <= other.items@.len(),
                forall|j: int| 0 <= j < k ==> self@.contains(#[trigger] other.items@[j]),
            decreases other.items@.len() - k,
        {
            if !self.contains(other.items[k]) {
                proof {
                    assert(other@.contains(other.items@[k as int]));
                }
                return false;
            }
            k = k + 1;
        }
        proof {
            assert forall|x: VirtualRegister| self@.contains(x) <==> other@.contains(x) by {
                if self@.contains(x) {
                    let j = choose|j: int| 0 <= j < self.items@.len() && self.items@[j] == x;
                    assert(other@.contains(self.items@[j]));
                }
                if other@.contains(x) {
                    let j = choose|j: int| 0 <= j < other.items@.len() && other.items@[j] == x;
                    assert(self@.contains(other.items@[j]));
                }
            }
            assert(self@ =~= other@);
        }
        true
    }

    /// A copy with the same members in the same order.
    pub fn copy(&self) -> (r: RegSet)
        ensures
            r@ == self@,
            r.elems() == self.elems(),
            r.wf() == self.wf(),
    {
        let mut items: Vec<VirtualRegister> = Vec::new();
        let mut i: usize = 0;
        while i < self.items.len()
            invariant
                0 <= i <= self.items@.len(),
                items@ == self.items@.take(i as int),
            decreases self.items@.len() - i,
        {
            items.push(self.items[i]);
            proof {
                assert(self.items@.take(i + 1) == self.items@.take(i as int).push(self.items@[i as int]));
            }
            i = i + 1;
        }
        proof {
            assert(self.items@.take(self.items@.len() as int) == self.items@);
        }
        RegSet { items }
    }

    /// Builds a set from a slice, dropping repeated members.
    pub fn from_slice(regs: &[VirtualRegister]) -> (s: RegSet)
        ensures
            s.wf(),
            s@ == regs@.to_set(),
    {
        let mut s = RegSet::new();
        let mut i: usize = 0;
        while i < regs.len()
            invariant
                0 <= i <= regs@.len(),
                s.wf(),
                s@ == regs@.take(i as int).to_set(),
            decreases regs@.len() - i,
        {
            s.insert(regs[i]);
            proof {
                assert(regs@.take(i + 1) == regs@.take(i as int).push(regs@[i as int]));
                regs@.take(i as int).lemma_push_to_set_commute(regs@[i as int]);
            }
            i = i + 1;
        }
        proof {
            assert(regs@.take(regs@.len() as int) == regs@);
        }
        s
    }

    /// The members, in insertion order.
    pub fn to_vec(&self) -> (v: Vec<VirtualRegister>)
        ensures
            v@ == self.elems(),
    {
        let c = self.copy();
        c.items
    }
}

} // verus!
