use vstd::prelude::*;

use crate::backend::liveness::{cfg_wf, find_block, has_label, index_of_label};
use crate::common::uf::UnionFind;
use crate::ir::types::{TIRBlock, TIRFunction, VirtualRegister, terminator_edges};

verus! {

/// `a` is the `m`-th parameter of the target of the `k`-th edge leaving block `i`, and `b` is
/// the value passed for it.
pub open spec fn param_arg_at(bs: Seq<TIRBlock>, i: int, k: int, m: int, a: VirtualRegister, b: VirtualRegister) -> bool {
    let e = terminator_edges(bs[i].terminator)[k];
    let target = bs[index_of_label(bs, e.0)];
    &&& 0 <= i < bs.len()
    &&& 0 <= k < terminator_edges(bs[i].terminator).len()
    &&& 0 <= m < target.params@.len()
    &&& m < e.1.len()
    &&& a == target.params@[m]
    &&& b == e.1[m]
}

/// Some edge passes `b` for block parameter `a`.
pub open spec fn is_param_arg(bs: Seq<TIRBlock>, a: VirtualRegister, b: VirtualRegister) -> bool {
    exists|i: int, k: int, m: int| param_arg_at(bs, i, k, m, a, b)
}

/// Some edge passes one of `a` and `b` for the other, a block parameter.
pub open spec fn step(bs: Seq<TIRBlock>, a: VirtualRegister, b: VirtualRegister) -> bool {
    is_param_arg(bs, a, b) || is_param_arg(bs, b, a)
}

/// Each register of `path` is linked to the next by a parameter and the value passed for it.
pub open spec fn is_chain(bs: Seq<TIRBlock>, path: Seq<VirtualRegister>) -> bool {
    &&& path.len() >= 1
    &&& forall|q: int| 0 <= q < path.len() - 1 ==> #[trigger] step(bs, path[q], path[q + 1])
}

/// A chain of parameters and the values passed for them leads from `x` to `y`.
pub open spec fn linked(bs: Seq<TIRBlock>, x: VirtualRegister, y: VirtualRegister) -> bool {
    exists|path: Seq<VirtualRegister>| #[trigger] is_chain(bs, path) && path[0] == x && path.last() == y
}

proof fn lemma_linked_refl(bs: Seq<TIRBlock>, x: VirtualRegister)
    ensures
        linked(bs, x, x),
{
    let path = seq![x];
    assert(is_chain(bs, path));
}

proof fn lemma_linked_join(bs: Seq<TIRBlock>, x: VirtualRegister, a: VirtualRegister, b: VirtualRegister, y: VirtualRegister)
    requires
        linked(bs, x, a),
        linked(bs, b, y),
        step(bs, a, b),
    ensures
        linked(bs, x, y),
{
    let p1 = choose|path: Seq<VirtualRegister>| #[trigger] is_chain(bs, path) && path[0] == x && path.last() == a;
    let p2 = choose|path: Seq<VirtualRegister>| #[trigger] is_chain(bs, path) && path[0] == b && path.last() == y;
    let p = p1 + p2;
    assert forall|q: int| 0 <= q < p.len() - 1 implies #[trigger] step(bs, p[q], p[q + 1]) by {
        if q < p1.len() - 1 {
            assert(p[q] == p1[q] && p[q + 1] == p1[q + 1]);
        } else if q == p1.len() - 1 {
            assert(p[q] == a && p[q + 1] == b);
        } else {
            assert(p[q] == p2[q - p1.len()] && p[q + 1] == p2[q - p1.len() + 1]);
        }
    }
    assert(is_chain(bs, p));
    assert(p[0] == x);
    assert(p.last() == y);
}

proof fn lemma_chain_same(bs: Seq<TIRBlock>, uf: UnionFind, path: Seq<VirtualRegister>)
    requires
        is_chain(bs, path),
        forall|a: VirtualRegister, b: VirtualRegister| is_param_arg(bs, a, b) ==> uf.same(a, b),
    ensures
        uf.same(path[0], path.last()),
    decreases path.len(),
{
    if path.len() > 1 {
        let shorter = path.drop_last();
        assert forall|q: int| 0 <= q < shorter.len() - 1 implies #[trigger] step(bs, shorter[q], shorter[q + 1]) by {
            assert(step(bs, path[q], path[q + 1]));
        }
        lemma_chain_same(bs, uf, shorter);
        let q = path.len() - 2;
        assert(step(bs, path[q], path[q + 1]));
        assert(path[q + 1] == path.last());
    }
}

/// Merges each block parameter with the value that an edge passes for it, position by position.
fn coalesce_params(uf: &mut UnionFind, block_params: &Vec<VirtualRegister>, incoming: &Vec<VirtualRegister>, bs: Ghost<Seq<TIRBlock>>, i: Ghost<int>, k: Ghost<int>)
    requires
        old(uf).wf(),
        forall|m: int| 0 <= m < block_params@.len() && m < incoming@.len() ==> param_arg_at(bs@, i@, k@, m, block_params@[m], incoming@[m]),
        forall|x: VirtualRegister, y: VirtualRegister| #[trigger] old(uf).same(x, y) ==> linked(bs@, x, y),
    ensures
        final(uf).wf(),
        forall|m: int| 0 <= m < block_params@.len() && m < incoming@.len() ==> final(uf).same(block_params@[m], incoming@[m]),
        forall|x: VirtualRegister, y: VirtualRegister| old(uf).same(x, y) ==> #[trigger] final(uf).same(x, y),
        forall|x: VirtualRegister, y: VirtualRegister| #[trigger] final(uf).same(x, y) ==> linked(bs@, x, y),
{
    let ghost uf0 = *uf;
    let mut m: usize = 0;
    while m < block_params.len() && m < incoming.len()
        invariant
            0 <= m <= block_params@.len(),
            uf.wf(),
            forall|q: int| 0 <= q < block_params@.len() && q < incoming@.len() ==> param_arg_at(bs@, i@, k@, q, block_params@[q], incoming@[q]),
            forall|q: int| 0 <= q < m && q < incoming@.len() ==> uf.same(block_params@[q], incoming@[q]),
            forall|x: VirtualRegister, y: VirtualRegister| uf0.same(x, y) ==> #[trigger] uf.same(x, y),
            forall|x: VirtualRegister, y: VirtualRegister| #[trigger] uf.same(x, y) ==> linked(bs@, x, y),
        decreases block_params@.len() - m,
    {
        let a = block_params[m];
        let b = incoming[m];
        let ghost before = *uf;
        proof {
            assert(param_arg_at(bs@, i@, k@, m as int, a, b));
            assert(is_param_arg(bs@, a, b));
            assert(step(bs@, a, b));
            assert(step(bs@, b, a));
        }
        uf.union(a, b);
        proof {
            assert forall|x: VirtualRegister, y: VirtualRegister| #[trigger] uf.same(x, y) implies linked(bs@, x, y) by {
                if before.same(x, y) {
                } else if before.same(x, a) && before.same(y, b) {
                    assert(before.same(b, y));
                    lemma_linked_join(bs@, x, a, b, y);
                } else {
                    assert(before.same(x, b) && before.same(a, y));
                    lemma_linked_join(bs@, x, b, a, y);
                }
            }
        }
        m = m + 1;
    }
}

/// Puts every block parameter in one class with each value passed for it, so that copies along
/// control-flow edges need no move. Two registers end in one class exactly when a chain of
/// parameters and the values passed for them links them.
pub fn coalesce_registers(func: &TIRFunction) -> (uf: UnionFind)
    requires
        cfg_wf(func.blocks@),
    ensures
        uf.wf(),
        forall|a: VirtualRegister, b: VirtualRegister| is_param_arg(func.blocks@, a, b) ==> uf.same(a, b),
        forall|x: VirtualRegister, y: VirtualRegister| #[trigger] uf.same(x, y) <==> linked(func.blocks@, x, y),
{
    let func_blocks = &func.blocks;
    let ghost bs = func_blocks@;
    let mut uf = UnionFind::new();
    proof {
        assert forall|x: VirtualRegister, y: VirtualRegister| #[trigger] uf.same(x, y) implies linked(bs, x, y) by {
            lemma_linked_refl(bs, x);
        }
    }
    let mut i: usize = 0;
    while i < func_blocks.len()
        invariant
            0 <= i <= bs.len(),
            bs == func_blocks@,
            cfg_wf(bs),
            uf.wf(),
            forall|ii: int, k: int, m: int, a: VirtualRegister, b: VirtualRegister| ii < i && #[trigger] param_arg_at(bs, ii, k, m, a, b) ==> uf.same(a, b),
            forall|x: VirtualRegister, y: VirtualRegister| #[trigger] uf.same(x, y) ==> linked(bs, x, y),
        decreases bs.len() - i,
    {
        let edges = func_blocks[i].terminator.edge_uses();
        let mut k: usize = 0;
        while k < edges.len()
            invariant
                0 <= i < bs.len(),
                0 <= k <= edges@.len(),
                bs == func_blocks@,
                cfg_wf(bs),
                uf.wf(),
                edges@.len() == terminator_edges(bs[i as int].terminator).len(),
                forall|q: int| 0 <= q < edges@.len() ==> (#[trigger] edges@[q]).0 == terminator_edges(bs[i as int].terminator)[q].0
                    && edges@[q].1@ == terminator_edges(bs[i as int].terminator)[q].1,
                forall|ii: int, kk: int, m: int, a: VirtualRegister, b: VirtualRegister| (ii < i || (ii == i && kk < k)) && #[trigger] param_arg_at(bs, ii, kk, m, a, b) ==> uf.same(a, b),
                forall|x: VirtualRegister, y: VirtualRegister| #[trigger] uf.same(x, y) ==> linked(bs, x, y),
            decreases edges@.len() - k,
        {
            let target = edges[k].0;
            proof {
                assert(has_label(bs, terminator_edges(bs[i as int].terminator)[k as int].0));
            }
            let j = find_block(func_blocks, target);
            let ghost uf_before = uf;
            coalesce_params(&mut uf, &func_blocks[j].params, &edges[k].1, Ghost(bs), Ghost(i as int), Ghost(k as int));
            proof {
                assert forall|ii: int, kk: int, m: int, a: VirtualRegister, b: VirtualRegister| (ii < i || (ii == i && kk < k + 1)) && #[trigger] param_arg_at(bs, ii, kk, m, a, b) implies uf.same(a, b) by {
                    if ii == i && kk == k {
                        assert(a == func_blocks@[j as int].params@[m]);
                        assert(b == edges@[k as int].1@[m]);
                    } else {
                        assert(uf_before.same(a, b));
                    }
                }
            }
            k = k + 1;
        }
        i = i + 1;
    }
    proof {
        assert forall|a: VirtualRegister, b: VirtualRegister| is_param_arg(bs, a, b) implies uf.same(a, b) by {
            let (ii, kk, m) = choose|ii: int, kk: int, m: int| param_arg_at(bs, ii, kk, m, a, b);
            assert(param_arg_at(bs, ii, kk, m, a, b));
        }
        assert forall|x: VirtualRegister, y: VirtualRegister| linked(bs, x, y) implies #[trigger] uf.same(x, y) by {
            let p = choose|path: Seq<VirtualRegister>| #[trigger] is_chain(bs, path) && path[0] == x && path.last() == y;
            lemma_chain_same(bs, uf, p);
        }
    }
    uf
}

} // verus!
