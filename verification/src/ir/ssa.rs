use vstd::prelude::*;

use crate::ir::builder::{
    BState, b_emit, b_fresh, b_fresh_n, b_init_block, b_set_params, b_switch, b_terminate, empty_block, has_current,
    start_state, with_current,
};
use crate::ir::lower::{
    IfState, LEnv, add_edge, env_vals, finish_block, finish_blocks, lw_branch, lw_chain, lw_edges, lw_empty_else, lw_expr, lw_exprs,
    lw_function, lw_functions, lw_merge, lw_params, lw_program, lw_scope, lw_stmt, lw_while_head, lw_while_tail,
};
use crate::backend::liveness::{cfg_wf, has_label, labels_unique};
use crate::ir::types::{
    BlockId, BlockV, FunctionV, InstrV, OpV, TIRFunction, TermV, VirtualRegister, block_view, term_view, terminator_edges,
    tir_view,
};
use crate::resolver::{RElse, RExpr, RFunction, RProgram, RStmt, SymbolId};

verus! {

// What lowering promises of the code it builds: block `i` is labelled `i`, and the code is in
// static single assignment form, every value defined once, as a block parameter or as the
// result of an instruction.

/// The number of values block `b` defines: its parameters, then its instructions.
pub open spec fn def_count(b: BlockV) -> int {
    (b.params.len() + b.instrs.len()) as int
}

/// The value defined at position `p` of block `b`.
pub open spec fn def_at(b: BlockV, p: int) -> VirtualRegister {
    if p < b.params.len() {
        b.params[p]
    } else {
        b.instrs[p - b.params.len()].dest
    }
}

/// Block `i` is labelled `i`.
pub open spec fn labels_are_positions(bs: Seq<BlockV>) -> bool {
    forall|i: int| 0 <= i < bs.len() ==> #[trigger] bs[i].label == BlockId(i as usize)
}

/// Two different definitions never define the same value.
pub open spec fn single_assignment(bs: Seq<BlockV>) -> bool {
    forall|i1: int, p1: int, i2: int, p2: int|
        0 <= i1 < bs.len() && 0 <= p1 < def_count(bs[i1]) && 0 <= i2 < bs.len() && 0 <= p2 < def_count(bs[i2])
            && (i1 != i2 || p1 != p2) ==> #[trigger] def_at(bs[i1], p1) != #[trigger] def_at(bs[i2], p2)
}

/// Every value defined is numbered below `n`.
pub open spec fn defs_below(bs: Seq<BlockV>, n: nat) -> bool {
    forall|i: int, p: int| 0 <= i < bs.len() && 0 <= p < def_count(bs[i]) ==> (#[trigger] def_at(bs[i], p)).0 < n
}

/// The blocks a terminator may branch to.
pub open spec fn term_targets(t: TermV) -> Seq<BlockId> {
    match t {
        TermV::Branch(l, _) => seq![l],
        TermV::CondBranch(_, a, _, e, _) => seq![a, e],
        _ => Seq::empty(),
    }
}

/// Every block `t` branches to is numbered below `n`.
pub open spec fn targets_below(t: TermV, n: int) -> bool {
    forall|k: int| 0 <= k < term_targets(t).len() ==> (#[trigger] term_targets(t)[k]).0 < n
}

/// Every branch leads to one of the blocks.
pub open spec fn targets_exist(bs: Seq<BlockV>) -> bool {
    forall|i: int| 0 <= i < bs.len() ==> targets_below(#[trigger] bs[i].term, bs.len() as int)
}

/// The invariant of the builder during lowering.
pub open spec fn builder_inv(b: BState) -> bool {
    &&& labels_are_positions(b.blocks)
    &&& single_assignment(b.blocks)
    &&& defs_below(b.blocks, b.next_value)
    &&& targets_exist(b.blocks)
    &&& b.blocks.len() >= 1
}

/// The parameters of the entry block.
pub open spec fn entry_params(b: BState) -> Seq<VirtualRegister> {
    b.blocks[0].params
}

/// A lowered function is in SSA form, its blocks are labelled by position, and every branch
/// leads to one of its blocks.
pub open spec fn well_formed(f: FunctionV) -> bool {
    &&& labels_are_positions(f.blocks)
    &&& single_assignment(f.blocks)
    &&& targets_exist(f.blocks)
    &&& terminated(f.blocks)
}

/// The entry block takes the function's parameters.
pub open spec fn entry_takes_params(f: FunctionV) -> bool {
    f.blocks.len() >= 1 && f.blocks[0].params == f.params
}

/// The entry block takes the function's parameters, and every edge passes as many values as
/// its target block has parameters.
pub open spec fn well_connected(f: FunctionV) -> bool {
    entry_takes_params(f) && arities_match(f.blocks)
}

/// Every block ends in a terminator: none is left `Void`.
pub open spec fn terminated(bs: Seq<BlockV>) -> bool {
    forall|i: int| 0 <= i < bs.len() ==> !(#[trigger] bs[i].term is Void)
}

proof fn lemma_start()
    ensures
        builder_inv(start_state()),
{
    let bs = start_state().blocks;
    assert forall|i: int, p: int| 0 <= i < bs.len() && 0 <= p < def_count(bs[i]) implies (#[trigger] def_at(bs[i], p)).0 < 0nat by {
        assert(def_count(bs[i]) == 0);
    }
}

proof fn lemma_fresh(b: BState)
    requires
        builder_inv(b),
        b_fresh(b) is Some,
    ensures
        builder_inv(b_fresh(b).unwrap().0),
        b_fresh(b).unwrap().0.blocks == b.blocks,
        b_fresh(b).unwrap().0.current == b.current,
        b_fresh(b).unwrap().0.next_value == b.next_value + 1,
        b_fresh(b).unwrap().1.0 == b.next_value,
{
}

proof fn lemma_fresh_n(b: BState, n: nat)
    requires
        builder_inv(b),
        b_fresh_n(b, n) is Some,
    ensures
        builder_inv(b_fresh_n(b, n).unwrap().0),
        b_fresh_n(b, n).unwrap().0.blocks == b.blocks,
        b_fresh_n(b, n).unwrap().0.current == b.current,
        b_fresh_n(b, n).unwrap().0.next_value == b.next_value + n,
        b_fresh_n(b, n).unwrap().1.len() == n,
        forall|k: int| 0 <= k < n ==> (#[trigger] b_fresh_n(b, n).unwrap().1[k]).0 == b.next_value + k,
    decreases n,
{
    if n > 0 {
        lemma_fresh_n(b, (n - 1) as nat);
        let (b1, vs) = b_fresh_n(b, (n - 1) as nat).unwrap();
        lemma_fresh(b1);
    }
}

proof fn lemma_switch(b: BState, l: BlockId)
    requires
        builder_inv(b),
    ensures
        builder_inv(b_switch(b, l)),
        b_switch(b, l).blocks == b.blocks,
{
}

proof fn lemma_init_block(b: BState)
    requires
        builder_inv(b),
    ensures
        builder_inv(b_init_block(b).0),
        b_init_block(b).0.next_value == b.next_value,
        b_init_block(b).0.blocks.len() == b.blocks.len() + 1,
        b_init_block(b).1.0 < b_init_block(b).0.blocks.len(),
        entry_params(b_init_block(b).0) == entry_params(b),
        b_init_block(b).0.blocks.len() <= usize::MAX ==> b_init_block(b).1.0 == b.blocks.len(),
{
    let b1 = b_init_block(b).0;
    let bs = b1.blocks;
    let n = b.blocks.len() as int;
    assert forall|i: int| 0 <= i < bs.len() implies targets_below(#[trigger] bs[i].term, bs.len() as int) by {
        if i < n {
            assert(bs[i] == b.blocks[i]);
            assert(targets_below(b.blocks[i].term, n));
        } else {
            assert(term_targets(bs[i].term).len() == 0);
        }
    }
    assert forall|i: int| 0 <= i < bs.len() implies #[trigger] bs[i].label == BlockId(i as usize) by {
        if i < n {
            assert(bs[i] == b.blocks[i]);
        }
    }
    assert forall|i1: int, p1: int, i2: int, p2: int|
        0 <= i1 < bs.len() && 0 <= p1 < def_count(bs[i1]) && 0 <= i2 < bs.len() && 0 <= p2 < def_count(bs[i2])
            && (i1 != i2 || p1 != p2) implies #[trigger] def_at(bs[i1], p1) != #[trigger] def_at(bs[i2], p2) by {
        assert(def_count(bs[n]) == 0);
        assert(bs[i1] == b.blocks[i1]);
        assert(bs[i2] == b.blocks[i2]);
    }
    assert forall|i: int, p: int| 0 <= i < bs.len() && 0 <= p < def_count(bs[i]) implies (#[trigger] def_at(bs[i], p)).0 < b1.next_value by {
        assert(def_count(bs[n]) == 0);
        assert(bs[i] == b.blocks[i]);
    }
}

/// Replacing the current block by one with the same label and the same definitions keeps the
/// invariant.
proof fn lemma_same_defs(b: BState, blk: BlockV)
    requires
        builder_inv(b),
        has_current(b),
        blk.label == b.blocks[b.current].label,
        blk.params == b.blocks[b.current].params,
        blk.instrs.len() == b.blocks[b.current].instrs.len(),
        forall|k: int| 0 <= k < blk.instrs.len() ==> #[trigger] blk.instrs[k].dest == b.blocks[b.current].instrs[k].dest,
        targets_below(blk.term, b.blocks.len() as int),
    ensures
        builder_inv(with_current(b, blk)),
        with_current(b, blk).blocks.len() == b.blocks.len(),
{
    let bs = with_current(b, blk).blocks;
    let c = b.current;
    assert forall|i: int| 0 <= i < bs.len() implies targets_below(#[trigger] bs[i].term, bs.len() as int) by {
        if i != c {
            assert(bs[i] == b.blocks[i]);
            assert(targets_below(b.blocks[i].term, b.blocks.len() as int));
        }
    }
    assert forall|i: int, p: int| 0 <= i < bs.len() && 0 <= p < def_count(bs[i]) implies #[trigger] def_at(bs[i], p) == def_at(b.blocks[i], p) by {
        if i == c && p >= blk.params.len() {
            assert(blk.instrs[p - blk.params.len()].dest == b.blocks[c].instrs[p - blk.params.len()].dest);
        }
    }
    assert forall|i: int| 0 <= i < bs.len() implies #[trigger] bs[i].label == BlockId(i as usize) by {
        assert(b.blocks[i].label == BlockId(i as usize));
    }
    assert forall|i1: int, p1: int, i2: int, p2: int|
        0 <= i1 < bs.len() && 0 <= p1 < def_count(bs[i1]) && 0 <= i2 < bs.len() && 0 <= p2 < def_count(bs[i2])
            && (i1 != i2 || p1 != p2) implies #[trigger] def_at(bs[i1], p1) != #[trigger] def_at(bs[i2], p2) by {
        assert(def_at(bs[i1], p1) == def_at(b.blocks[i1], p1));
        assert(def_at(bs[i2], p2) == def_at(b.blocks[i2], p2));
    }
    assert forall|i: int, p: int| 0 <= i < bs.len() && 0 <= p < def_count(bs[i]) implies (#[trigger] def_at(bs[i], p)).0 < b.next_value by {
        assert(def_at(bs[i], p) == def_at(b.blocks[i], p));
    }
}

proof fn lemma_terminate(b: BState, t: TermV)
    requires
        builder_inv(b),
        b_terminate(b, t) is Some,
        targets_below(t, b.blocks.len() as int),
    ensures
        builder_inv(b_terminate(b, t).unwrap()),
        b_terminate(b, t).unwrap().next_value == b.next_value,
        b_terminate(b, t).unwrap().blocks.len() == b.blocks.len(),
        entry_params(b_terminate(b, t).unwrap()) == entry_params(b),
{
    lemma_same_defs(b, BlockV { term: t, ..b.blocks[b.current] });
}

proof fn lemma_emit(b: BState, op: OpV)
    requires
        builder_inv(b),
        b_emit(b, op) is Some,
    ensures
        builder_inv(b_emit(b, op).unwrap().0),
        b_emit(b, op).unwrap().0.next_value == b.next_value + 1,
        b_emit(b, op).unwrap().0.blocks.len() == b.blocks.len(),
        entry_params(b_emit(b, op).unwrap().0) == entry_params(b),
{
    let (b1, v) = b_fresh(b).unwrap();
    let c = b.current;
    let old_blk = b.blocks[c];
    let blk = BlockV { instrs: old_blk.instrs.push(InstrV { dest: v, op }), ..old_blk };
    let bs = with_current(b1, blk).blocks;
    assert forall|i: int| 0 <= i < bs.len() implies targets_below(#[trigger] bs[i].term, bs.len() as int) by {
        assert(bs[i].term == b.blocks[i].term);
        assert(targets_below(b.blocks[i].term, b.blocks.len() as int));
    }
    assert(b_emit(b, op).unwrap().0 == with_current(b1, blk));
    assert forall|i: int, p: int| 0 <= i < bs.len() && 0 <= p < def_count(bs[i]) && !(i == c && p == def_count(old_blk))
        implies #[trigger] def_at(bs[i], p) == def_at(b.blocks[i], p) && p < def_count(b.blocks[i]) by {
        if i == c && p >= blk.params.len() {
            assert(blk.instrs[p - blk.params.len()] == old_blk.instrs[p - blk.params.len()]);
        }
    }
    assert(def_at(bs[c], def_count(old_blk)) == v);
    assert forall|i: int| 0 <= i < bs.len() implies #[trigger] bs[i].label == BlockId(i as usize) by {
        assert(b.blocks[i].label == BlockId(i as usize));
    }
    assert forall|i1: int, p1: int, i2: int, p2: int|
        0 <= i1 < bs.len() && 0 <= p1 < def_count(bs[i1]) && 0 <= i2 < bs.len() && 0 <= p2 < def_count(bs[i2])
            && (i1 != i2 || p1 != p2) implies #[trigger] def_at(bs[i1], p1) != #[trigger] def_at(bs[i2], p2) by {
        let new1 = i1 == c && p1 == def_count(old_blk);
        let new2 = i2 == c && p2 == def_count(old_blk);
        if !new1 {
            assert(def_at(bs[i1], p1) == def_at(b.blocks[i1], p1));
            assert(def_at(b.blocks[i1], p1).0 < b.next_value);
        }
        if !new2 {
            assert(def_at(bs[i2], p2) == def_at(b.blocks[i2], p2));
            assert(def_at(b.blocks[i2], p2).0 < b.next_value);
        }
    }
    assert forall|i: int, p: int| 0 <= i < bs.len() && 0 <= p < def_count(bs[i]) implies (#[trigger] def_at(bs[i], p)).0 < b1.next_value by {
        if !(i == c && p == def_count(old_blk)) {
            assert(def_at(bs[i], p) == def_at(b.blocks[i], p));
        }
    }
}

proof fn lemma_set_params(b: BState, ps: Seq<VirtualRegister>, lo: nat)
    requires
        builder_inv(b),
        b_set_params(b, ps) is Some,
        defs_below(b.blocks, lo),
        forall|k: int| 0 <= k < ps.len() ==> lo <= (#[trigger] ps[k]).0 < b.next_value,
        forall|k1: int, k2: int| 0 <= k1 < ps.len() && 0 <= k2 < ps.len() && k1 != k2 ==> #[trigger] ps[k1] != #[trigger] ps[k2],
    ensures
        builder_inv(b_set_params(b, ps).unwrap()),
        b_set_params(b, ps).unwrap().next_value == b.next_value,
        b_set_params(b, ps).unwrap().blocks.len() == b.blocks.len(),
        b.current != 0 ==> entry_params(b_set_params(b, ps).unwrap()) == entry_params(b),
{
    let c = b.current;
    let old_blk = b.blocks[c];
    let blk = BlockV { params: ps, ..old_blk };
    let bs = with_current(b, blk).blocks;
    assert forall|i: int| 0 <= i < bs.len() implies targets_below(#[trigger] bs[i].term, bs.len() as int) by {
        assert(bs[i].term == b.blocks[i].term);
        assert(targets_below(b.blocks[i].term, b.blocks.len() as int));
    }
    let d = old_blk.params.len() - ps.len();
    // An old definition kept: its position in the old blocks.
    assert forall|i: int, p: int| 0 <= i < bs.len() && 0 <= p < def_count(bs[i]) && !(i == c && p < ps.len())
        implies #[trigger] def_at(bs[i], p) == def_at(b.blocks[i], if i == c { p + d } else { p })
            && 0 <= (if i == c { p + d } else { p }) < def_count(b.blocks[i]) by {
    }
    assert forall|i: int| 0 <= i < bs.len() implies #[trigger] bs[i].label == BlockId(i as usize) by {
        assert(b.blocks[i].label == BlockId(i as usize));
    }
    assert forall|i1: int, p1: int, i2: int, p2: int|
        0 <= i1 < bs.len() && 0 <= p1 < def_count(bs[i1]) && 0 <= i2 < bs.len() && 0 <= p2 < def_count(bs[i2])
            && (i1 != i2 || p1 != p2) implies #[trigger] def_at(bs[i1], p1) != #[trigger] def_at(bs[i2], p2) by {
        let new1 = i1 == c && p1 < ps.len();
        let new2 = i2 == c && p2 < ps.len();
        let q1 = if i1 == c { p1 + d } else { p1 };
        let q2 = if i2 == c { p2 + d } else { p2 };
        if new1 {
            assert(def_at(bs[i1], p1) == ps[p1]);
        } else {
            assert(def_at(bs[i1], p1) == def_at(b.blocks[i1], q1));
            assert(def_at(b.blocks[i1], q1).0 < lo);
        }
        if new2 {
            assert(def_at(bs[i2], p2) == ps[p2]);
        } else {
            assert(def_at(bs[i2], p2) == def_at(b.blocks[i2], q2));
            assert(def_at(b.blocks[i2], q2).0 < lo);
        }
    }
    assert forall|i: int, p: int| 0 <= i < bs.len() && 0 <= p < def_count(bs[i]) implies (#[trigger] def_at(bs[i], p)).0 < b.next_value by {
        if i == c && p < ps.len() {
            assert(def_at(bs[i], p) == ps[p]);
        } else {
            let q = if i == c { p + d } else { p };
            assert(def_at(bs[i], p) == def_at(b.blocks[i], q));
        }
    }
}

/// Fresh values made into the parameters of the current block keep the invariant.
proof fn lemma_fresh_params(b: BState, n: nat)
    requires
        builder_inv(b),
        b_fresh_n(b, n) is Some,
    ensures
        ({
            let (b1, ps) = b_fresh_n(b, n).unwrap();
            b_set_params(b1, ps) is Some ==> builder_inv(b_set_params(b1, ps).unwrap())
                && b_set_params(b1, ps).unwrap().blocks.len() == b.blocks.len()
                && (b.current != 0 ==> entry_params(b_set_params(b1, ps).unwrap()) == entry_params(b))
        }),
{
    lemma_fresh_n(b, n);
    let (b1, ps) = b_fresh_n(b, n).unwrap();
    if b_set_params(b1, ps) is Some {
        assert forall|k1: int, k2: int| 0 <= k1 < ps.len() && 0 <= k2 < ps.len() && k1 != k2 implies #[trigger] ps[k1] != #[trigger] ps[k2] by {
            assert(ps[k1].0 == b.next_value + k1);
            assert(ps[k2].0 == b.next_value + k2);
        }
        lemma_set_params(b1, ps, b.next_value);
    }
}


proof fn lemma_lw_expr(e: RExpr, env: LEnv, b: BState)
    requires
        builder_inv(b),
        lw_expr(e, env, b) is Some,
    ensures
        builder_inv(lw_expr(e, env, b).unwrap().0),
        lw_expr(e, env, b).unwrap().0.blocks.len() == b.blocks.len(),
        entry_params(lw_expr(e, env, b).unwrap().0) == entry_params(b),
    decreases e, 0int,
{
    match e {
        RExpr::Binary(l, r, op) => {
            lemma_lw_expr(*l, env, b);
            let (b1, _) = lw_expr(*l, env, b).unwrap();
            lemma_lw_expr(*r, env, b1);
            let (b2, _) = lw_expr(*r, env, b1).unwrap();
            let (_, lv) = lw_expr(*l, env, b).unwrap();
            let (_, rv) = lw_expr(*r, env, b1).unwrap();
            lemma_emit(b2, OpV::Plain(crate::ir::lower::binop_operation(op, lv, rv)));
        },
        RExpr::Term(t) => match t {
            crate::resolver::ResolvedTermV::Identifier(_) => {},
            crate::resolver::ResolvedTermV::IntLit(n) => {
                lemma_emit(b, OpV::Plain(crate::ir::types::Operation::ConstInt(n)));
            },
            crate::resolver::ResolvedTermV::Bool(x) => {
                lemma_emit(b, OpV::Plain(crate::ir::types::Operation::ConstBool(x)));
            },
        },
        RExpr::Call(f, args) => {
            lemma_lw_exprs(args, env, b, args.len() as int);
            let (b1, vs) = lw_exprs(args, env, b, args.len() as int).unwrap();
            lemma_emit(b1, OpV::Call(f, vs));
        },
    }
}

proof fn lemma_lw_exprs(es: Seq<RExpr>, env: LEnv, b: BState, n: int)
    requires
        builder_inv(b),
        lw_exprs(es, env, b, n) is Some,
    ensures
        builder_inv(lw_exprs(es, env, b, n).unwrap().0),
        lw_exprs(es, env, b, n).unwrap().0.blocks.len() == b.blocks.len(),
        entry_params(lw_exprs(es, env, b, n).unwrap().0) == entry_params(b),
    decreases es, n,
{
    if !(n <= 0 || n > es.len()) {
        lemma_lw_exprs(es, env, b, n - 1);
        let (b1, _) = lw_exprs(es, env, b, n - 1).unwrap();
        lemma_lw_expr(es[n - 1], env, b1);
    }
}

proof fn lemma_lw_empty_else(env: LEnv, vars: Seq<SymbolId>, st: IfState)
    requires
        builder_inv(st.b),
        lw_empty_else(env, vars, st) is Some,
    ensures
        builder_inv(lw_empty_else(env, vars, st).unwrap().b),
        lw_empty_else(env, vars, st).unwrap().b.blocks.len() == st.b.blocks.len(),
        entry_params(lw_empty_else(env, vars, st).unwrap().b) == entry_params(st.b),
{
    lemma_switch(st.b, st.next);
}

proof fn lemma_lw_edges(b: BState, pending: Seq<(BlockId, Seq<VirtualRegister>)>, merge: BlockId, n: int)
    requires
        builder_inv(b),
        lw_edges(b, pending, merge, n) is Some,
        merge.0 < b.blocks.len(),
    ensures
        builder_inv(lw_edges(b, pending, merge, n).unwrap()),
        lw_edges(b, pending, merge, n).unwrap().next_value == b.next_value,
        lw_edges(b, pending, merge, n).unwrap().blocks.len() == b.blocks.len(),
        entry_params(lw_edges(b, pending, merge, n).unwrap()) == entry_params(b),
    decreases n,
{
    if n > 0 {
        lemma_lw_edges(b, pending, merge, n - 1);
        let b1 = lw_edges(b, pending, merge, n - 1).unwrap();
        lemma_switch(b1, pending[n - 1].0);
        assert(targets_below(TermV::Branch(merge, pending[n - 1].1), b1.blocks.len() as int));
        lemma_terminate(b_switch(b1, pending[n - 1].0), TermV::Branch(merge, pending[n - 1].1));
    }
}

proof fn lemma_lw_merge(env: LEnv, vars: Seq<SymbolId>, b: BState, pending: Seq<(BlockId, Seq<VirtualRegister>)>)
    requires
        builder_inv(b),
        lw_merge(env, vars, b, pending) is Some,
    ensures
        builder_inv(lw_merge(env, vars, b, pending).unwrap().0),
        lw_merge(env, vars, b, pending).unwrap().0.blocks.len() >= b.blocks.len(),
        lw_merge(env, vars, b, pending).unwrap().0.blocks.len() <= usize::MAX ==> entry_params(lw_merge(env, vars, b, pending).unwrap().0) == entry_params(b),
{
    if pending.len() > 0 {
        let (b1, merge) = b_init_block(b);
        lemma_init_block(b);
        lemma_lw_edges(b1, pending, merge, pending.len() as int);
        let b2 = lw_edges(b1, pending, merge, pending.len() as int).unwrap();
        lemma_switch(b2, merge);
        lemma_fresh_params(b_switch(b2, merge), vars.len());
    }
}

proof fn lemma_while_head(c: RExpr, env: LEnv, vars: Seq<SymbolId>, b: BState)
    requires
        builder_inv(b),
        lw_while_head(c, env, vars, b) is Some,
    ensures
        ({
            let (b1, cond_block, _, done_block, _) = lw_while_head(c, env, vars, b).unwrap();
            &&& builder_inv(b1)
            &&& b1.blocks.len() >= b.blocks.len()
            &&& cond_block.0 < b1.blocks.len()
            &&& done_block.0 < b1.blocks.len()
            &&& b1.blocks.len() <= usize::MAX ==> cond_block.0 != 0 && done_block.0 != 0 && entry_params(b1) == entry_params(b)
        }),
{
    let (b1, cond_block) = b_init_block(b);
    lemma_init_block(b);
    let (b2, body_block) = b_init_block(b1);
    lemma_init_block(b1);
    let (b3, done_block) = b_init_block(b2);
    lemma_init_block(b2);
    let n = vars.len();
    let init = crate::ir::lower::env_vals(env, vars, n as int).unwrap();
    let b4 = b_terminate(b3, TermV::Branch(cond_block, init)).unwrap();
    assert(targets_below(TermV::Branch(cond_block, init), b3.blocks.len() as int));
    lemma_terminate(b3, TermV::Branch(cond_block, init));
    lemma_fresh_n(b4, n);
    let (b5, cps) = b_fresh_n(b4, n).unwrap();
    lemma_switch(b5, cond_block);
    lemma_fresh_params(b4, n);
    let b6 = b_set_params(b_switch(b5, cond_block), cps).unwrap();
    assert(builder_inv(b6)) by {
        lemma_fresh_params_switched(b4, n, cond_block);
    }
    let cenv = crate::ir::lower::env_from(vars, cps, n as int);
    lemma_lw_expr(c, cenv, b6);
    let (b7, cv) = lw_expr(c, cenv, b6).unwrap();
    lemma_fresh_params_switched(b4, n, cond_block);
    assert(targets_below(TermV::CondBranch(cv, body_block, cps, done_block, cps), b7.blocks.len() as int));
    lemma_terminate(b7, TermV::CondBranch(cv, body_block, cps, done_block, cps));
    let b8 = b_terminate(b7, TermV::CondBranch(cv, body_block, cps, done_block, cps)).unwrap();
    lemma_fresh_params_switched(b8, n, body_block);
}

/// Fresh values made into the parameters of block `l` keep the invariant.
proof fn lemma_fresh_params_switched(b: BState, n: nat, l: BlockId)
    requires
        builder_inv(b),
        b_fresh_n(b, n) is Some,
    ensures
        ({
            let (b1, ps) = b_fresh_n(b, n).unwrap();
            b_set_params(b_switch(b1, l), ps) is Some ==> builder_inv(b_set_params(b_switch(b1, l), ps).unwrap())
                && b_set_params(b_switch(b1, l), ps).unwrap().blocks.len() == b.blocks.len()
                && (l.0 != 0 ==> entry_params(b_set_params(b_switch(b1, l), ps).unwrap()) == entry_params(b))
        }),
{
    lemma_fresh_n(b, n);
    let (b1, ps) = b_fresh_n(b, n).unwrap();
    let b2 = b_switch(b1, l);
    if b_set_params(b2, ps) is Some {
        assert forall|k1: int, k2: int| 0 <= k1 < ps.len() && 0 <= k2 < ps.len() && k1 != k2 implies #[trigger] ps[k1] != #[trigger] ps[k2] by {
            assert(ps[k1].0 == b.next_value + k1);
            assert(ps[k2].0 == b.next_value + k2);
        }
        assert forall|k: int| 0 <= k < ps.len() implies b.next_value <= (#[trigger] ps[k]).0 < b2.next_value by {
            assert(ps[k].0 == b.next_value + k);
        }
        lemma_set_params(b2, ps, b.next_value);
    }
}

proof fn lemma_while_tail(env_body: LEnv, vars: Seq<SymbolId>, cond_block: BlockId, done_block: BlockId, b: BState)
    requires
        builder_inv(b),
        lw_while_tail(env_body, vars, cond_block, done_block, b) is Some,
        cond_block.0 < b.blocks.len(),
    ensures
        builder_inv(lw_while_tail(env_body, vars, cond_block, done_block, b).unwrap().0),
        lw_while_tail(env_body, vars, cond_block, done_block, b).unwrap().0.blocks.len() >= b.blocks.len(),
        lw_while_tail(env_body, vars, cond_block, done_block, b).unwrap().0.blocks.len() <= usize::MAX && done_block.0 != 0 ==> entry_params(lw_while_tail(env_body, vars, cond_block, done_block, b).unwrap().0) == entry_params(b),
{
    let n = vars.len();
    let upd = crate::ir::lower::env_vals(env_body, vars, n as int).unwrap();
    assert(targets_below(TermV::Branch(cond_block, upd), b.blocks.len() as int));
    lemma_terminate(b, TermV::Branch(cond_block, upd));
    let b1 = b_terminate(b, TermV::Branch(cond_block, upd)).unwrap();
    lemma_fresh_params_switched(b1, n, done_block);
}


proof fn lemma_lw_stmt(s: RStmt, env: LEnv, b: BState)
    requires
        builder_inv(b),
        lw_stmt(s, env, b) is Some,
    ensures
        builder_inv(lw_stmt(s, env, b).unwrap().0),
        lw_stmt(s, env, b).unwrap().0.blocks.len() >= b.blocks.len(),
        lw_stmt(s, env, b).unwrap().0.blocks.len() <= usize::MAX ==> entry_params(lw_stmt(s, env, b).unwrap().0) == entry_params(b),
    decreases s, 0int,
{
    match s {
        RStmt::Exit(e) => {
            lemma_lw_expr(e, env, b);
            let (b1, v) = lw_expr(e, env, b).unwrap();
            assert(targets_below(TermV::Exit(v), b1.blocks.len() as int));
            lemma_terminate(b1, TermV::Exit(v));
        },
        RStmt::Return(e) => {
            lemma_lw_expr(e, env, b);
            let (b1, v) = lw_expr(e, env, b).unwrap();
            assert(targets_below(TermV::Return(v), b1.blocks.len() as int));
            lemma_terminate(b1, TermV::Return(v));
        },
        RStmt::Let(_, e) => {
            lemma_lw_expr(e, env, b);
        },
        RStmt::Assign(_, e) => {
            lemma_lw_expr(e, env, b);
        },
        RStmt::Call(f, args) => {
            lemma_lw_exprs(args, env, b, args.len() as int);
            let (b1, vs) = lw_exprs(args, env, b, args.len() as int).unwrap();
            lemma_emit(b1, OpV::Call(f, vs));
        },
        RStmt::If(c, then, els) => {
            let vars = crate::ir::lower::env_keys(env);
            let st0 = IfState { b, pending: Seq::empty(), next: BlockId(b.current as usize) };
            lemma_lw_branch(Some(c), then, env, vars, st0);
            let st1 = lw_branch(Some(c), then, env, vars, st0).unwrap();
            match els {
                Some(clause) => {
                    lemma_lw_chain(clause, env, vars, st1);
                },
                None => {
                    lemma_lw_empty_else(env, vars, st1);
                },
            }
            let st2 = match els {
                Some(clause) => lw_chain(clause, env, vars, st1),
                None => lw_empty_else(env, vars, st1),
            }.unwrap();
            lemma_lw_merge(env, vars, st2.b, st2.pending);
        },
        RStmt::While(c, body) => {
            let vars = crate::ir::lower::env_keys(env);
            lemma_while_head(c, env, vars, b);
            let (b1, cond_block, _, done_block, env_body) = lw_while_head(c, env, vars, b).unwrap();
            lemma_lw_scope(body, 0, env_body, b1);
            let (b2, out) = lw_scope(body, 0, env_body, b1).unwrap();
            lemma_while_tail(out.unwrap(), vars, cond_block, done_block, b2);
        },
    }
}

proof fn lemma_lw_scope(ss: Seq<RStmt>, k: int, env: LEnv, b: BState)
    requires
        builder_inv(b),
        lw_scope(ss, k, env, b) is Some,
    ensures
        builder_inv(lw_scope(ss, k, env, b).unwrap().0),
        lw_scope(ss, k, env, b).unwrap().0.blocks.len() >= b.blocks.len(),
        lw_scope(ss, k, env, b).unwrap().0.blocks.len() <= usize::MAX ==> entry_params(lw_scope(ss, k, env, b).unwrap().0) == entry_params(b),
    decreases ss, ss.len() - k,
{
    if !(k < 0 || k >= ss.len()) {
        lemma_lw_stmt(ss[k], env, b);
        let (b1, out) = lw_stmt(ss[k], env, b).unwrap();
        if out is Some {
            lemma_lw_scope(ss, k + 1, out.unwrap(), b1);
        }
    }
}

proof fn lemma_lw_branch(cond: Option<RExpr>, body: Seq<RStmt>, env: LEnv, vars: Seq<SymbolId>, st: IfState)
    requires
        builder_inv(st.b),
        lw_branch(cond, body, env, vars, st) is Some,
    ensures
        builder_inv(lw_branch(cond, body, env, vars, st).unwrap().b),
        lw_branch(cond, body, env, vars, st).unwrap().b.blocks.len() >= st.b.blocks.len(),
        lw_branch(cond, body, env, vars, st).unwrap().b.blocks.len() <= usize::MAX ==> entry_params(lw_branch(cond, body, env, vars, st).unwrap().b) == entry_params(st.b),
    decreases body, body.len() + 1,
{
    match cond {
        Some(c) => {
            let (b1, then_block) = b_init_block(st.b);
            lemma_init_block(st.b);
            let (b2, else_block) = b_init_block(b1);
            lemma_init_block(b1);
            lemma_switch(b2, st.next);
            lemma_lw_expr(c, env, b_switch(b2, st.next));
            let (b3, cv) = lw_expr(c, env, b_switch(b2, st.next)).unwrap();
            let t = TermV::CondBranch(cv, then_block, Seq::empty(), else_block, Seq::empty());
            assert(targets_below(t, b3.blocks.len() as int));
            lemma_terminate(b3, t);
            let b4 = b_terminate(b3, t).unwrap();
            lemma_switch(b4, then_block);
            lemma_lw_scope(body, 0, env, b_switch(b4, then_block));
        },
        None => {
            lemma_switch(st.b, st.next);
            lemma_lw_scope(body, 0, env, b_switch(st.b, st.next));
        },
    }
}

proof fn lemma_lw_chain(c: RElse, env: LEnv, vars: Seq<SymbolId>, st: IfState)
    requires
        builder_inv(st.b),
        lw_chain(c, env, vars, st) is Some,
    ensures
        builder_inv(lw_chain(c, env, vars, st).unwrap().b),
        lw_chain(c, env, vars, st).unwrap().b.blocks.len() >= st.b.blocks.len(),
        lw_chain(c, env, vars, st).unwrap().b.blocks.len() <= usize::MAX ==> entry_params(lw_chain(c, env, vars, st).unwrap().b) == entry_params(st.b),
    decreases c, 0int,
{
    lemma_lw_branch(c.cond, c.body, env, vars, st);
    let st1 = lw_branch(c.cond, c.body, env, vars, st).unwrap();
    match c.els {
        Some(n) => {
            lemma_lw_chain(*n, env, vars, st1);
        },
        None => {
            if c.cond is Some {
                lemma_lw_empty_else(env, vars, st1);
            }
        },
    }
}


/// The edges of a terminator with the values passed along each.
pub open spec fn term_edges_v(t: TermV) -> Seq<(BlockId, Seq<VirtualRegister>)> {
    match t {
        TermV::Branch(l, a) => seq![(l, a)],
        TermV::CondBranch(_, x, xa, y, ya) => seq![(x, xa), (y, ya)],
        _ => Seq::empty(),
    }
}

/// Edge `e` passes as many values as its target has parameters, or, for a target in `pend`
/// (whose parameters are still to come), as many as `pend` gives.
pub open spec fn edge_ok(bs: Seq<BlockV>, pend: Map<int, nat>, e: (BlockId, Seq<VirtualRegister>)) -> bool {
    let t = e.0.0 as int;
    if pend.contains_key(t) {
        e.1.len() == pend[t]
    } else {
        0 <= t < bs.len() && e.1.len() == bs[t].params.len()
    }
}

/// Every edge of `t` is consistent.
pub open spec fn term_ok(bs: Seq<BlockV>, pend: Map<int, nat>, t: TermV) -> bool {
    forall|k: int| 0 <= k < term_edges_v(t).len() ==> edge_ok(bs, pend, #[trigger] term_edges_v(t)[k])
}

/// The blocks in `pend` have no parameters yet, and every edge is consistent.
pub open spec fn arity_inv(bs: Seq<BlockV>, pend: Map<int, nat>) -> bool {
    &&& forall|t: int| #[trigger] pend.contains_key(t) ==> 0 <= t < bs.len() && bs[t].params.len() == 0
    &&& forall|i: int| 0 <= i < bs.len() ==> term_ok(bs, pend, #[trigger] bs[i].term)
}

/// Every edge passes as many values as its target block has parameters.
pub open spec fn arities_match(bs: Seq<BlockV>) -> bool {
    arity_inv(bs, Map::empty())
}

/// The blocks of `bs` are still there in `bs2`, with the same parameters.
pub open spec fn keeps_params(bs: Seq<BlockV>, bs2: Seq<BlockV>) -> bool {
    bs2.len() >= bs.len() && forall|i: int| 0 <= i < bs.len() ==> #[trigger] bs2[i].params == bs[i].params
}

proof fn lemma_keeps_trans(a: Seq<BlockV>, b: Seq<BlockV>, c: Seq<BlockV>)
    requires
        keeps_params(a, b),
        keeps_params(b, c),
    ensures
        keeps_params(a, c),
{
    assert forall|i: int| 0 <= i < a.len() implies #[trigger] c[i].params == a[i].params by {
        assert(b[i].params == a[i].params);
    }
}

proof fn lemma_term_ok_same_params(bs: Seq<BlockV>, bs2: Seq<BlockV>, pend: Map<int, nat>, t: TermV)
    requires
        term_ok(bs, pend, t),
        bs2.len() == bs.len(),
        forall|i: int| 0 <= i < bs.len() ==> #[trigger] bs2[i].params == bs[i].params,
    ensures
        term_ok(bs2, pend, t),
{
    assert forall|k: int| 0 <= k < term_edges_v(t).len() implies edge_ok(bs2, pend, #[trigger] term_edges_v(t)[k]) by {
        let e = term_edges_v(t)[k];
        assert(edge_ok(bs, pend, e));
        let i = e.0.0 as int;
        if !pend.contains_key(i) {
            assert(bs2[i].params == bs[i].params);
        }
    }
}

/// Replacing the current block by one with the same parameters and a consistent terminator
/// keeps the arities consistent.
proof fn lemma_arity_replace(b: BState, blk: BlockV, pend: Map<int, nat>)
    requires
        arity_inv(b.blocks, pend),
        has_current(b),
        blk.params == b.blocks[b.current].params,
        term_ok(b.blocks, pend, blk.term),
    ensures
        arity_inv(with_current(b, blk).blocks, pend),
{
    let bs = b.blocks;
    let bs2 = with_current(b, blk).blocks;
    assert forall|i: int| 0 <= i < bs.len() implies #[trigger] bs2[i].params == bs[i].params by {}
    assert forall|i: int| 0 <= i < bs2.len() implies term_ok(bs2, pend, #[trigger] bs2[i].term) by {
        if i == b.current {
            lemma_term_ok_same_params(bs, bs2, pend, blk.term);
        } else {
            assert(bs2[i] == bs[i]);
            lemma_term_ok_same_params(bs, bs2, pend, bs[i].term);
        }
    }
}

proof fn lemma_arity_terminate(b: BState, t: TermV, pend: Map<int, nat>)
    requires
        arity_inv(b.blocks, pend),
        b_terminate(b, t) is Some,
        term_ok(b.blocks, pend, t),
    ensures
        arity_inv(b_terminate(b, t).unwrap().blocks, pend),
{
    lemma_arity_replace(b, BlockV { term: t, ..b.blocks[b.current] }, pend);
}

proof fn lemma_arity_emit(b: BState, op: OpV, pend: Map<int, nat>)
    requires
        arity_inv(b.blocks, pend),
        b_emit(b, op) is Some,
    ensures
        arity_inv(b_emit(b, op).unwrap().0.blocks, pend),
        keeps_params(b.blocks, b_emit(b, op).unwrap().0.blocks),
{
    let (b1, v) = b_fresh(b).unwrap();
    let blk = BlockV { instrs: b1.blocks[b1.current].instrs.push(InstrV { dest: v, op }), ..b1.blocks[b1.current] };
    assert(term_ok(b.blocks, pend, b.blocks[b.current].term));
    lemma_arity_replace(b1, blk, pend);
}

/// A new block has no parameters and no edge leads to it yet, so it may be made pending with
/// any arity.
proof fn lemma_arity_init(b: BState, pend: Map<int, nat>, m: nat)
    requires
        builder_inv(b),
        arity_inv(b.blocks, pend),
        b.blocks.len() < usize::MAX,
    ensures
        arity_inv(b_init_block(b).0.blocks, pend),
        arity_inv(b_init_block(b).0.blocks, pend.insert(b.blocks.len() as int, m)),
        b_init_block(b).1.0 == b.blocks.len(),
        !pend.contains_key(b.blocks.len() as int),
{
    let n = b.blocks.len() as int;
    let bs = b.blocks;
    let bs2 = b_init_block(b).0.blocks;
    let p2 = pend.insert(n, m);
    assert(!pend.contains_key(n));
    assert forall|i: int| 0 <= i < bs.len() implies #[trigger] bs2[i].params == bs[i].params by {}
    assert forall|i: int| 0 <= i < bs2.len() implies term_ok(bs2, pend, #[trigger] bs2[i].term) && term_ok(bs2, p2, bs2[i].term) by {
        if i < n {
            assert(bs2[i] == bs[i]);
            let t = bs[i].term;
            assert(term_ok(bs, pend, t));
            assert(targets_below(t, n));
            assert forall|k: int| 0 <= k < term_edges_v(t).len() implies edge_ok(bs2, pend, #[trigger] term_edges_v(t)[k])
                && edge_ok(bs2, p2, term_edges_v(t)[k]) by {
                let e = term_edges_v(t)[k];
                assert(edge_ok(bs, pend, e));
                assert(term_targets(t)[k] == e.0);
                assert(e.0.0 < n);
            }
        } else {
            assert(term_edges_v(bs2[i].term).len() == 0);
        }
    }
}

/// Giving a pending block its parameters, as many as the edges into it pass, settles it.
proof fn lemma_arity_set_params(b: BState, ps: Seq<VirtualRegister>, pend: Map<int, nat>)
    requires
        arity_inv(b.blocks, pend),
        b_set_params(b, ps) is Some,
        pend.contains_key(b.current),
        pend[b.current] == ps.len(),
    ensures
        arity_inv(b_set_params(b, ps).unwrap().blocks, pend.remove(b.current)),
{
    let c = b.current;
    let bs = b.blocks;
    let bs2 = b_set_params(b, ps).unwrap().blocks;
    let p2 = pend.remove(c);
    assert forall|t: int| #[trigger] p2.contains_key(t) implies 0 <= t < bs2.len() && bs2[t].params.len() == 0 by {
        assert(pend.contains_key(t));
    }
    assert forall|i: int| 0 <= i < bs2.len() implies term_ok(bs2, p2, #[trigger] bs2[i].term) by {
        let t = bs2[i].term;
        assert(t == bs[i].term);
        assert(term_ok(bs, pend, t));
        assert forall|k: int| 0 <= k < term_edges_v(t).len() implies edge_ok(bs2, p2, #[trigger] term_edges_v(t)[k]) by {
            let e = term_edges_v(t)[k];
            assert(edge_ok(bs, pend, e));
        }
    }
}

proof fn lemma_arity_lw_expr(e: RExpr, env: LEnv, b: BState, pend: Map<int, nat>)
    requires
        arity_inv(b.blocks, pend),
        lw_expr(e, env, b) is Some,
    ensures
        arity_inv(lw_expr(e, env, b).unwrap().0.blocks, pend),
        lw_expr(e, env, b).unwrap().0.blocks.len() == b.blocks.len(),
        keeps_params(b.blocks, lw_expr(e, env, b).unwrap().0.blocks),
    decreases e, 0int,
{
    match e {
        RExpr::Binary(l, r, op) => {
            lemma_arity_lw_expr(*l, env, b, pend);
            let (b1, lv) = lw_expr(*l, env, b).unwrap();
            lemma_arity_lw_expr(*r, env, b1, pend);
            let (b2, rv) = lw_expr(*r, env, b1).unwrap();
            lemma_arity_emit(b2, OpV::Plain(crate::ir::lower::binop_operation(op, lv, rv)), pend);
            lemma_keeps_trans(b.blocks, b1.blocks, b2.blocks);
            lemma_keeps_trans(b.blocks, b2.blocks, lw_expr(e, env, b).unwrap().0.blocks);
        },
        RExpr::Term(t) => match t {
            crate::resolver::ResolvedTermV::Identifier(_) => {},
            crate::resolver::ResolvedTermV::IntLit(n) => {
                lemma_arity_emit(b, OpV::Plain(crate::ir::types::Operation::ConstInt(n)), pend);
            },
            crate::resolver::ResolvedTermV::Bool(x) => {
                lemma_arity_emit(b, OpV::Plain(crate::ir::types::Operation::ConstBool(x)), pend);
            },
        },
        RExpr::Call(f, args) => {
            lemma_arity_lw_exprs(args, env, b, args.len() as int, pend);
            let (b1, vs) = lw_exprs(args, env, b, args.len() as int).unwrap();
            lemma_arity_emit(b1, OpV::Call(f, vs), pend);
            lemma_keeps_trans(b.blocks, b1.blocks, lw_expr(e, env, b).unwrap().0.blocks);
        },
    }
}

proof fn lemma_arity_lw_exprs(es: Seq<RExpr>, env: LEnv, b: BState, n: int, pend: Map<int, nat>)
    requires
        arity_inv(b.blocks, pend),
        lw_exprs(es, env, b, n) is Some,
    ensures
        arity_inv(lw_exprs(es, env, b, n).unwrap().0.blocks, pend),
        lw_exprs(es, env, b, n).unwrap().0.blocks.len() == b.blocks.len(),
        keeps_params(b.blocks, lw_exprs(es, env, b, n).unwrap().0.blocks),
    decreases es, n,
{
    if !(n <= 0 || n > es.len()) {
        lemma_arity_lw_exprs(es, env, b, n - 1, pend);
        let (b1, _) = lw_exprs(es, env, b, n - 1).unwrap();
        lemma_arity_lw_expr(es[n - 1], env, b1, pend);
        lemma_keeps_trans(b.blocks, b1.blocks, lw_exprs(es, env, b, n).unwrap().0.blocks);
    }
}

/// Each pending edge of an `if` chain carries one value per variable.
pub open spec fn pending_len(pending: Seq<(BlockId, Seq<VirtualRegister>)>, n: nat) -> bool {
    forall|k: int| 0 <= k < pending.len() ==> (#[trigger] pending[k]).1.len() == n
}

proof fn lemma_arity_lw_edges(b: BState, pending: Seq<(BlockId, Seq<VirtualRegister>)>, merge: BlockId, n: int, pend: Map<int, nat>)
    requires
        arity_inv(b.blocks, pend),
        lw_edges(b, pending, merge, n) is Some,
        pend.contains_key(merge.0 as int),
        pending_len(pending, pend[merge.0 as int]),
        n <= pending.len(),
    ensures
        arity_inv(lw_edges(b, pending, merge, n).unwrap().blocks, pend),
    decreases n,
{
    if n > 0 {
        lemma_arity_lw_edges(b, pending, merge, n - 1, pend);
        let b1 = lw_edges(b, pending, merge, n - 1).unwrap();
        let t = TermV::Branch(merge, pending[n - 1].1);
        assert(term_ok(b_switch(b1, pending[n - 1].0).blocks, pend, t)) by {
            assert(edge_ok(b1.blocks, pend, term_edges_v(t)[0]));
        }
        lemma_arity_terminate(b_switch(b1, pending[n - 1].0), t, pend);
    }
}

proof fn lemma_arity_keeps_edges(b: BState, pending: Seq<(BlockId, Seq<VirtualRegister>)>, merge: BlockId, n: int)
    requires
        lw_edges(b, pending, merge, n) is Some,
    ensures
        keeps_params(b.blocks, lw_edges(b, pending, merge, n).unwrap().blocks),
        lw_edges(b, pending, merge, n).unwrap().blocks.len() == b.blocks.len(),
    decreases n,
{
    if n > 0 {
        lemma_arity_keeps_edges(b, pending, merge, n - 1);
        let b1 = lw_edges(b, pending, merge, n - 1).unwrap();
        lemma_keeps_trans(b.blocks, b1.blocks, lw_edges(b, pending, merge, n).unwrap().blocks);
    }
}

proof fn lemma_env_vals_len(env: LEnv, vars: Seq<SymbolId>, n: int)
    requires
        env_vals(env, vars, n) is Some,
        0 <= n,
    ensures
        env_vals(env, vars, n).unwrap().len() == n,
    decreases n,
{
    if n > 0 {
        lemma_env_vals_len(env, vars, n - 1);
    }
}

proof fn lemma_arity_lw_merge(env: LEnv, vars: Seq<SymbolId>, b: BState, pending: Seq<(BlockId, Seq<VirtualRegister>)>, pend: Map<int, nat>)
    requires
        builder_inv(b),
        arity_inv(b.blocks, pend),
        lw_merge(env, vars, b, pending) is Some,
        pending_len(pending, vars.len()),
    ensures
        lw_merge(env, vars, b, pending).unwrap().0.blocks.len() <= usize::MAX ==> arity_inv(lw_merge(env, vars, b, pending).unwrap().0.blocks, pend)
            && keeps_params(b.blocks, lw_merge(env, vars, b, pending).unwrap().0.blocks),
{
    if pending.len() > 0 {
        lemma_lw_merge(env, vars, b, pending);
        let (b1, merge) = b_init_block(b);
        lemma_init_block(b);
        lemma_lw_edges(b1, pending, merge, pending.len() as int);
        let b2 = lw_edges(b1, pending, merge, pending.len() as int).unwrap();
        lemma_fresh_n(b_switch(b2, merge), vars.len());
        let (b3, params) = b_fresh_n(b_switch(b2, merge), vars.len()).unwrap();
        if lw_merge(env, vars, b, pending).unwrap().0.blocks.len() <= usize::MAX {
            let n = b.blocks.len() as int;
            let pend1 = pend.insert(n, vars.len());
            lemma_arity_init(b, pend, vars.len());
            lemma_arity_lw_edges(b1, pending, merge, pending.len() as int, pend1);
            lemma_arity_set_params(b3, params, pend1);
            assert(pend1.remove(n) =~= pend);
            assert(keeps_params(b.blocks, b1.blocks));
            lemma_arity_keeps_edges(b1, pending, merge, pending.len() as int);
            lemma_keeps_trans(b.blocks, b1.blocks, b2.blocks);
            let b4 = lw_merge(env, vars, b, pending).unwrap().0;
            assert forall|i: int| 0 <= i < b.blocks.len() implies #[trigger] b4.blocks[i].params == b.blocks[i].params by {
                assert(b4.blocks[i].params == b2.blocks[i].params);
            }
        }
    }
}

proof fn lemma_fresh_n_blocks(b: BState, n: nat)
    requires
        b_fresh_n(b, n) is Some,
    ensures
        b_fresh_n(b, n).unwrap().0.blocks == b.blocks,
        b_fresh_n(b, n).unwrap().0.current == b.current,
        b_fresh_n(b, n).unwrap().1.len() == n,
    decreases n,
{
    if n > 0 {
        lemma_fresh_n_blocks(b, (n - 1) as nat);
    }
}

proof fn lemma_lw_expr_len(e: RExpr, env: LEnv, b: BState)
    requires
        lw_expr(e, env, b) is Some,
    ensures
        lw_expr(e, env, b).unwrap().0.blocks.len() == b.blocks.len(),
    decreases e, 0int,
{
    match e {
        RExpr::Binary(l, r, op) => {
            lemma_lw_expr_len(*l, env, b);
            let (b1, _) = lw_expr(*l, env, b).unwrap();
            lemma_lw_expr_len(*r, env, b1);
        },
        RExpr::Term(t) => {},
        RExpr::Call(f, args) => {
            lemma_lw_exprs_len(args, env, b, args.len() as int);
        },
    }
}

proof fn lemma_lw_exprs_len(es: Seq<RExpr>, env: LEnv, b: BState, n: int)
    requires
        lw_exprs(es, env, b, n) is Some,
    ensures
        lw_exprs(es, env, b, n).unwrap().0.blocks.len() == b.blocks.len(),
    decreases es, n,
{
    if !(n <= 0 || n > es.len()) {
        lemma_lw_exprs_len(es, env, b, n - 1);
        let (b1, _) = lw_exprs(es, env, b, n - 1).unwrap();
        lemma_lw_expr_len(es[n - 1], env, b1);
    }
}

proof fn lemma_arity_while_head(c: RExpr, env: LEnv, vars: Seq<SymbolId>, b: BState, pend: Map<int, nat>)
    requires
        builder_inv(b),
        arity_inv(b.blocks, pend),
        lw_while_head(c, env, vars, b) is Some,
    ensures
        ({
            let (b1, cond_block, _, done_block, _) = lw_while_head(c, env, vars, b).unwrap();
            b1.blocks.len() <= usize::MAX ==> {
                &&& arity_inv(b1.blocks, pend.insert(done_block.0 as int, vars.len()))
                &&& !pend.contains_key(done_block.0 as int)
                &&& b1.blocks.len() == b.blocks.len() + 3
                &&& done_block.0 as int == b.blocks.len() + 2
                &&& cond_block.0 as int == b.blocks.len()
                &&& !pend.contains_key(cond_block.0 as int)
                &&& b1.blocks[cond_block.0 as int].params.len() == vars.len()
                &&& keeps_params(b.blocks, b1.blocks)
            }
        }),
{
    let nv = vars.len();
    let n0 = b.blocks.len() as int;
    let (b1, cond_block) = b_init_block(b);
    lemma_init_block(b);
    let (b2, body_block) = b_init_block(b1);
    lemma_init_block(b1);
    let (b3, done_block) = b_init_block(b2);
    lemma_init_block(b2);
    let init = env_vals(env, vars, nv as int).unwrap();
    lemma_env_vals_len(env, vars, nv as int);
    let b4 = b_terminate(b3, TermV::Branch(cond_block, init)).unwrap();
    lemma_fresh_n_blocks(b4, nv);
    let (b5, cps) = b_fresh_n(b4, nv).unwrap();
    let b6 = b_set_params(b_switch(b5, cond_block), cps).unwrap();
    let cenv = crate::ir::lower::env_from(vars, cps, nv as int);
    let (b7, cv) = lw_expr(c, cenv, b6).unwrap();
    let p0 = pend.insert(n0, nv);
    let p1 = p0.insert(n0 + 1, nv);
    let p2 = p1.insert(n0 + 2, nv);
    lemma_lw_expr_len(c, cenv, b6);
    let t = TermV::CondBranch(cv, body_block, cps, done_block, cps);
    let b8 = b_terminate(b7, t).unwrap();
    lemma_fresh_n_blocks(b8, nv);
    let (b9, bps) = b_fresh_n(b8, nv).unwrap();
    let b10 = b_set_params(b_switch(b9, body_block), bps).unwrap();
    assert(b10 == lw_while_head(c, env, vars, b).unwrap().0);
    if b10.blocks.len() <= usize::MAX {
        lemma_arity_init(b, pend, nv);
        lemma_arity_init(b1, p0, nv);
        lemma_arity_init(b2, p1, nv);
        assert(term_ok(b3.blocks, p2, TermV::Branch(cond_block, init))) by {
            assert(edge_ok(b3.blocks, p2, term_edges_v(TermV::Branch(cond_block, init))[0]));
        }
        lemma_arity_terminate(b3, TermV::Branch(cond_block, init), p2);
        lemma_arity_set_params(b_switch(b5, cond_block), cps, p2);
        let p3 = p2.remove(n0);
        lemma_arity_lw_expr(c, cenv, b6, p3);
        assert(term_ok(b7.blocks, p3, t)) by {
            assert(edge_ok(b7.blocks, p3, term_edges_v(t)[0]));
            assert(edge_ok(b7.blocks, p3, term_edges_v(t)[1]));
        }
        lemma_arity_terminate(b7, t, p3);
        lemma_arity_set_params(b_switch(b9, body_block), bps, p3);
        assert(p3.remove(n0 + 1) =~= pend.insert(n0 + 2, nv));
        assert(keeps_params(b.blocks, b6.blocks));
        lemma_keeps_trans(b.blocks, b6.blocks, b7.blocks);
        assert forall|i: int| 0 <= i < b.blocks.len() implies #[trigger] b10.blocks[i].params == b.blocks[i].params by {
            assert(b10.blocks[i].params == b7.blocks[i].params);
        }
        assert(b10.blocks[n0].params == b7.blocks[n0].params);
    }
}

proof fn lemma_arity_while_tail(env_body: LEnv, vars: Seq<SymbolId>, cond_block: BlockId, done_block: BlockId, b: BState, pend: Map<int, nat>)
    requires
        arity_inv(b.blocks, pend),
        lw_while_tail(env_body, vars, cond_block, done_block, b) is Some,
        pend.contains_key(done_block.0 as int),
        pend[done_block.0 as int] == vars.len(),
        !pend.contains_key(cond_block.0 as int),
        0 <= cond_block.0 < b.blocks.len(),
        b.blocks[cond_block.0 as int].params.len() == vars.len(),
    ensures
        ({
            let b3 = lw_while_tail(env_body, vars, cond_block, done_block, b).unwrap().0;
            &&& arity_inv(b3.blocks, pend.remove(done_block.0 as int))
            &&& b3.blocks.len() == b.blocks.len()
            &&& forall|i: int| 0 <= i < b.blocks.len() && i != done_block.0 as int ==> #[trigger] b3.blocks[i].params == b.blocks[i].params
        }),
{
    let nv = vars.len();
    let upd = env_vals(env_body, vars, nv as int).unwrap();
    lemma_env_vals_len(env_body, vars, nv as int);
    let t = TermV::Branch(cond_block, upd);
    assert(term_ok(b.blocks, pend, t)) by {
        assert(edge_ok(b.blocks, pend, term_edges_v(t)[0]));
    }
    lemma_arity_terminate(b, t, pend);
    let b1 = b_terminate(b, t).unwrap();
    lemma_fresh_n_blocks(b1, nv);
    let (b2, eps) = b_fresh_n(b1, nv).unwrap();
    lemma_arity_set_params(b_switch(b2, done_block), eps, pend);
}

proof fn lemma_arity_stmt(s: RStmt, env: LEnv, b: BState, pend: Map<int, nat>)
    requires
        builder_inv(b),
        arity_inv(b.blocks, pend),
        lw_stmt(s, env, b) is Some,
    ensures
        lw_stmt(s, env, b).unwrap().0.blocks.len() <= usize::MAX ==> arity_inv(lw_stmt(s, env, b).unwrap().0.blocks, pend)
            && keeps_params(b.blocks, lw_stmt(s, env, b).unwrap().0.blocks),
    decreases s, 1int,
{
    let res = lw_stmt(s, env, b).unwrap().0;
    match s {
        RStmt::Exit(e) => {
            lemma_arity_lw_expr(e, env, b, pend);
            let (b1, v) = lw_expr(e, env, b).unwrap();
            assert(term_ok(b1.blocks, pend, TermV::Exit(v)));
            lemma_arity_terminate(b1, TermV::Exit(v), pend);
            lemma_keeps_trans(b.blocks, b1.blocks, res.blocks);
        },
        RStmt::Return(e) => {
            lemma_arity_lw_expr(e, env, b, pend);
            let (b1, v) = lw_expr(e, env, b).unwrap();
            assert(term_ok(b1.blocks, pend, TermV::Return(v)));
            lemma_arity_terminate(b1, TermV::Return(v), pend);
            lemma_keeps_trans(b.blocks, b1.blocks, res.blocks);
        },
        RStmt::Let(_, e) => {
            lemma_arity_lw_expr(e, env, b, pend);
        },
        RStmt::Assign(_, e) => {
            lemma_arity_lw_expr(e, env, b, pend);
        },
        RStmt::Call(f, args) => {
            lemma_arity_lw_exprs(args, env, b, args.len() as int, pend);
            let (b1, vs) = lw_exprs(args, env, b, args.len() as int).unwrap();
            lemma_arity_emit(b1, OpV::Call(f, vs), pend);
            lemma_keeps_trans(b.blocks, b1.blocks, res.blocks);
        },
        RStmt::If(_, _, _) => {
            lemma_arity_if(s, env, b, pend);
        },
        RStmt::While(_, _) => {
            lemma_arity_while(s, env, b, pend);
        },
    }
}

proof fn lemma_arity_if(s: RStmt, env: LEnv, b: BState, pend: Map<int, nat>)
    requires
        builder_inv(b),
        arity_inv(b.blocks, pend),
        lw_stmt(s, env, b) is Some,
        s is If,
    ensures
        lw_stmt(s, env, b).unwrap().0.blocks.len() <= usize::MAX ==> arity_inv(lw_stmt(s, env, b).unwrap().0.blocks, pend)
            && keeps_params(b.blocks, lw_stmt(s, env, b).unwrap().0.blocks),
    decreases s, 0int,
{
    let res = lw_stmt(s, env, b).unwrap().0;
    if let RStmt::If(c, then, els) = s {
        let vars = crate::ir::lower::env_keys(env);
        let st0 = IfState { b, pending: Seq::empty(), next: BlockId(b.current as usize) };
        lemma_lw_branch(Some(c), then, env, vars, st0);
        let st1 = lw_branch(Some(c), then, env, vars, st0).unwrap();
        match els {
            Some(clause) => {
                lemma_lw_chain(clause, env, vars, st1);
            },
            None => {
                lemma_lw_empty_else(env, vars, st1);
            },
        }
        let st2 = match els {
            Some(clause) => lw_chain(clause, env, vars, st1),
            None => lw_empty_else(env, vars, st1),
        }.unwrap();
        lemma_lw_merge(env, vars, st2.b, st2.pending);
        if res.blocks.len() <= usize::MAX {
            lemma_arity_branch(Some(c), then, env, vars, st0, pend);
            match els {
                Some(clause) => {
                    lemma_arity_chain(clause, env, vars, st1, pend);
                },
                None => {
                    lemma_arity_empty_else(env, vars, st1, pend);
                },
            }
            lemma_arity_lw_merge(env, vars, st2.b, st2.pending, pend);
            lemma_keeps_trans(b.blocks, st1.b.blocks, st2.b.blocks);
            lemma_keeps_trans(b.blocks, st2.b.blocks, res.blocks);
        }
    }
}

proof fn lemma_arity_while(s: RStmt, env: LEnv, b: BState, pend: Map<int, nat>)
    requires
        builder_inv(b),
        arity_inv(b.blocks, pend),
        lw_stmt(s, env, b) is Some,
        s is While,
    ensures
        lw_stmt(s, env, b).unwrap().0.blocks.len() <= usize::MAX ==> arity_inv(lw_stmt(s, env, b).unwrap().0.blocks, pend)
            && keeps_params(b.blocks, lw_stmt(s, env, b).unwrap().0.blocks),
    decreases s, 0int,
{
    let res = lw_stmt(s, env, b).unwrap().0;
    if let RStmt::While(c, body) = s {
        let vars = crate::ir::lower::env_keys(env);
        lemma_while_head(c, env, vars, b);
        let (b1, cond_block, _, done_block, env_body) = lw_while_head(c, env, vars, b).unwrap();
        lemma_lw_scope(body, 0, env_body, b1);
        let (b2, out) = lw_scope(body, 0, env_body, b1).unwrap();
        lemma_while_tail(out.unwrap(), vars, cond_block, done_block, b2);
        if res.blocks.len() <= usize::MAX {
            lemma_arity_while_head(c, env, vars, b, pend);
            let d = done_block.0 as int;
            let pend1 = pend.insert(d, vars.len());
            lemma_arity_scope(body, 0, env_body, b1, pend1);
            assert(b2.blocks[cond_block.0 as int].params == b1.blocks[cond_block.0 as int].params);
            lemma_arity_while_tail(out.unwrap(), vars, cond_block, done_block, b2, pend1);
            assert(pend1.remove(d) =~= pend);
            lemma_keeps_trans(b.blocks, b1.blocks, b2.blocks);
            assert forall|i: int| 0 <= i < b.blocks.len() implies #[trigger] res.blocks[i].params == b.blocks[i].params by {
                assert(res.blocks[i].params == b2.blocks[i].params);
            }
        }
    }
}

proof fn lemma_arity_scope(ss: Seq<RStmt>, k: int, env: LEnv, b: BState, pend: Map<int, nat>)
    requires
        builder_inv(b),
        arity_inv(b.blocks, pend),
        lw_scope(ss, k, env, b) is Some,
    ensures
        lw_scope(ss, k, env, b).unwrap().0.blocks.len() <= usize::MAX ==> arity_inv(lw_scope(ss, k, env, b).unwrap().0.blocks, pend)
            && keeps_params(b.blocks, lw_scope(ss, k, env, b).unwrap().0.blocks),
    decreases ss, ss.len() - k,
{
    if !(k < 0 || k >= ss.len()) {
        lemma_lw_stmt(ss[k], env, b);
        let (b1, out) = lw_stmt(ss[k], env, b).unwrap();
        if out is Some {
            lemma_lw_scope(ss, k + 1, out.unwrap(), b1);
        }
        let res = lw_scope(ss, k, env, b).unwrap().0;
        if res.blocks.len() <= usize::MAX {
            lemma_arity_stmt(ss[k], env, b, pend);
            if out is Some {
                lemma_arity_scope(ss, k + 1, out.unwrap(), b1, pend);
                lemma_keeps_trans(b.blocks, b1.blocks, res.blocks);
            }
        }
    } else {
        assert(keeps_params(b.blocks, b.blocks));
    }
}

proof fn lemma_arity_branch(cond: Option<RExpr>, body: Seq<RStmt>, env: LEnv, vars: Seq<SymbolId>, st: IfState, pend: Map<int, nat>)
    requires
        builder_inv(st.b),
        arity_inv(st.b.blocks, pend),
        pending_len(st.pending, vars.len()),
        lw_branch(cond, body, env, vars, st) is Some,
    ensures
        lw_branch(cond, body, env, vars, st).unwrap().b.blocks.len() <= usize::MAX ==> arity_inv(lw_branch(cond, body, env, vars, st).unwrap().b.blocks, pend)
            && keeps_params(st.b.blocks, lw_branch(cond, body, env, vars, st).unwrap().b.blocks)
            && pending_len(lw_branch(cond, body, env, vars, st).unwrap().pending, vars.len()),
    decreases body, body.len() + 1,
{
    let res = lw_branch(cond, body, env, vars, st).unwrap();
    lemma_lw_branch(cond, body, env, vars, st);
    match cond {
        Some(c) => {
            let (b1, then_block) = b_init_block(st.b);
            lemma_init_block(st.b);
            let (b2, else_block) = b_init_block(b1);
            lemma_init_block(b1);
            lemma_switch(b2, st.next);
            lemma_lw_expr(c, env, b_switch(b2, st.next));
            let (b3, cv) = lw_expr(c, env, b_switch(b2, st.next)).unwrap();
            let t = TermV::CondBranch(cv, then_block, Seq::empty(), else_block, Seq::empty());
            assert(targets_below(t, b3.blocks.len() as int));
            lemma_terminate(b3, t);
            let b4 = b_terminate(b3, t).unwrap();
            lemma_switch(b4, then_block);
            lemma_lw_scope(body, 0, env, b_switch(b4, then_block));
            let (b5, out) = lw_scope(body, 0, env, b_switch(b4, then_block)).unwrap();
            if res.b.blocks.len() <= usize::MAX {
                lemma_arity_init(st.b, pend, 0);
                lemma_arity_init(b1, pend, 0);
                lemma_arity_lw_expr(c, env, b_switch(b2, st.next), pend);
                assert(term_ok(b3.blocks, pend, t)) by {
                    assert(edge_ok(b3.blocks, pend, term_edges_v(t)[0]));
                    assert(edge_ok(b3.blocks, pend, term_edges_v(t)[1]));
                }
                lemma_arity_terminate(b3, t, pend);
                lemma_arity_scope(body, 0, env, b_switch(b4, then_block), pend);
                assert(keeps_params(st.b.blocks, b1.blocks));
                assert(keeps_params(b1.blocks, b2.blocks));
                lemma_keeps_trans(st.b.blocks, b1.blocks, b2.blocks);
                lemma_keeps_trans(st.b.blocks, b2.blocks, b3.blocks);
                assert(keeps_params(b3.blocks, b4.blocks));
                lemma_keeps_trans(st.b.blocks, b3.blocks, b4.blocks);
                lemma_keeps_trans(st.b.blocks, b4.blocks, b5.blocks);
                if out is Some {
                    let e = out.unwrap();
                    lemma_env_vals_len(e, vars, vars.len() as int);
                }
            }
        },
        None => {
            lemma_switch(st.b, st.next);
            lemma_lw_scope(body, 0, env, b_switch(st.b, st.next));
            let (b1, out) = lw_scope(body, 0, env, b_switch(st.b, st.next)).unwrap();
            if res.b.blocks.len() <= usize::MAX {
                lemma_arity_scope(body, 0, env, b_switch(st.b, st.next), pend);
                if out is Some {
                    let e = out.unwrap();
                    lemma_env_vals_len(e, vars, vars.len() as int);
                }
            }
        },
    }
}

proof fn lemma_arity_empty_else(env: LEnv, vars: Seq<SymbolId>, st: IfState, pend: Map<int, nat>)
    requires
        arity_inv(st.b.blocks, pend),
        pending_len(st.pending, vars.len()),
        lw_empty_else(env, vars, st) is Some,
    ensures
        arity_inv(lw_empty_else(env, vars, st).unwrap().b.blocks, pend),
        keeps_params(st.b.blocks, lw_empty_else(env, vars, st).unwrap().b.blocks),
        pending_len(lw_empty_else(env, vars, st).unwrap().pending, vars.len()),
{
    lemma_env_vals_len(env, vars, vars.len() as int);
    assert(keeps_params(st.b.blocks, st.b.blocks));
}

proof fn lemma_arity_chain(c: RElse, env: LEnv, vars: Seq<SymbolId>, st: IfState, pend: Map<int, nat>)
    requires
        builder_inv(st.b),
        arity_inv(st.b.blocks, pend),
        pending_len(st.pending, vars.len()),
        lw_chain(c, env, vars, st) is Some,
    ensures
        lw_chain(c, env, vars, st).unwrap().b.blocks.len() <= usize::MAX ==> arity_inv(lw_chain(c, env, vars, st).unwrap().b.blocks, pend)
            && keeps_params(st.b.blocks, lw_chain(c, env, vars, st).unwrap().b.blocks)
            && pending_len(lw_chain(c, env, vars, st).unwrap().pending, vars.len()),
    decreases c, 0int,
{
    let res = lw_chain(c, env, vars, st).unwrap();
    lemma_lw_chain(c, env, vars, st);
    lemma_lw_branch(c.cond, c.body, env, vars, st);
    let st1 = lw_branch(c.cond, c.body, env, vars, st).unwrap();
    match c.els {
        Some(n) => {
            lemma_lw_chain(*n, env, vars, st1);
            if res.b.blocks.len() <= usize::MAX {
                lemma_arity_branch(c.cond, c.body, env, vars, st, pend);
                lemma_arity_chain(*n, env, vars, st1, pend);
                lemma_keeps_trans(st.b.blocks, st1.b.blocks, res.b.blocks);
            }
        },
        None => {
            if c.cond is Some {
                lemma_lw_empty_else(env, vars, st1);
            }
            if res.b.blocks.len() <= usize::MAX {
                lemma_arity_branch(c.cond, c.body, env, vars, st, pend);
                if c.cond is Some {
                    lemma_arity_empty_else(env, vars, st1, pend);
                    lemma_keeps_trans(st.b.blocks, st1.b.blocks, res.b.blocks);
                }
            }
        },
    }
}

proof fn lemma_lw_params(args: Seq<(SymbolId, crate::parser::Type)>, n: int, b: BState)
    requires
        builder_inv(b),
        0 <= n,
        lw_params(args, n, b) is Some,
    ensures
        ({
            let (b1, _, ps) = lw_params(args, n, b).unwrap();
            &&& builder_inv(b1)
            &&& b1.blocks == b.blocks
            &&& b1.current == b.current
            &&& b1.next_value == b.next_value + n
            &&& ps.len() == n
            &&& forall|k: int| 0 <= k < n ==> (#[trigger] ps[k]).0 == b.next_value + k
        }),
    decreases n,
{
    if n > 0 {
        lemma_lw_params(args, n - 1, b);
        let (b1, _, _) = lw_params(args, n - 1, b).unwrap();
        lemma_fresh(b1);
    }
}

proof fn lemma_lw_function(f: RFunction)
    requires
        lw_function(f) is Some,
    ensures
        well_formed(lw_function(f).unwrap()),
        lw_function(f).unwrap().blocks.len() <= usize::MAX ==> well_connected(lw_function(f).unwrap()),
{
    let b0 = start_state();
    lemma_start();
    let n = f.args.len() as int;
    lemma_lw_params(f.args, n, b0);
    let (b1, env, params) = lw_params(f.args, n, b0).unwrap();
    assert forall|k1: int, k2: int| 0 <= k1 < params.len() && 0 <= k2 < params.len() && k1 != k2 implies #[trigger] params[k1] != #[trigger] params[k2] by {
        assert(params[k1].0 == k1);
        assert(params[k2].0 == k2);
    }
    assert forall|i: int, p: int| 0 <= i < b1.blocks.len() && 0 <= p < def_count(b1.blocks[i]) implies (#[trigger] def_at(b1.blocks[i], p)).0 < 0nat by {
        assert(def_count(b1.blocks[i]) == 0);
    }
    lemma_set_params(b1, params, 0);
    let b2 = b_set_params(b1, params).unwrap();
    lemma_lw_scope(f.body, 0, env, b2);
    let (b3, _) = lw_scope(f.body, 0, env, b2).unwrap();
    let bs = b3.blocks;
    let fin = finish_blocks(bs).unwrap();
    assert forall|i: int| 0 <= i < fin.len() implies #[trigger] fin[i].label == BlockId(i as usize) by {
        assert(bs[i].label == BlockId(i as usize));
    }
    assert forall|i: int| 0 <= i < fin.len() implies targets_below(#[trigger] fin[i].term, fin.len() as int) by {
        assert(targets_below(bs[i].term, bs.len() as int));
    }
    assert forall|i: int| 0 <= i < fin.len() implies !(#[trigger] fin[i].term is Void) by {
        assert(fin[i] == finish_block(bs[i]));
    }
    assert(b1.current == 0);
    assert(entry_params(b2) == params);
    assert(fin[0] == finish_block(bs[0]));
    if fin.len() <= usize::MAX {
        let pend = Map::<int, nat>::empty();
        assert forall|i: int| 0 <= i < b2.blocks.len() implies term_ok(b2.blocks, pend, #[trigger] b2.blocks[i].term) by {
            assert(b2.blocks[i].term == TermV::Void);
        }
        assert(arity_inv(b2.blocks, pend));
        lemma_arity_scope(f.body, 0, env, b2, pend);
        assert forall|i: int| 0 <= i < fin.len() implies term_ok(fin, pend, #[trigger] fin[i].term) by {
            assert(fin[i] == finish_block(bs[i]));
            assert(term_ok(bs, pend, bs[i].term));
            assert forall|i2: int| 0 <= i2 < bs.len() implies #[trigger] fin[i2].params == bs[i2].params by {
                assert(fin[i2] == finish_block(bs[i2]));
            }
            lemma_term_ok_same_params(bs, fin, pend, bs[i].term);
        }
    }
    assert forall|i: int, p: int| 0 <= i < fin.len() && 0 <= p < def_count(fin[i]) implies #[trigger] def_at(fin[i], p) == def_at(bs[i], p) by {
    }
    assert forall|i1: int, p1: int, i2: int, p2: int|
        0 <= i1 < fin.len() && 0 <= p1 < def_count(fin[i1]) && 0 <= i2 < fin.len() && 0 <= p2 < def_count(fin[i2])
            && (i1 != i2 || p1 != p2) implies #[trigger] def_at(fin[i1], p1) != #[trigger] def_at(fin[i2], p2) by {
        assert(def_at(fin[i1], p1) == def_at(bs[i1], p1));
        assert(def_at(fin[i2], p2) == def_at(bs[i2], p2));
    }
}

proof fn lemma_lw_functions(fs: Seq<RFunction>, n: int)
    requires
        lw_functions(fs, n) is Some,
    ensures
        forall|k: int| 0 <= k < lw_functions(fs, n).unwrap().len() ==> well_formed(#[trigger] lw_functions(fs, n).unwrap()[k])
            && (lw_functions(fs, n).unwrap()[k].blocks.len() <= usize::MAX ==> well_connected(lw_functions(fs, n).unwrap()[k])),
        lw_functions(fs, n).unwrap().len() == (if n <= 0 { 0 } else { n }),
    decreases n,
{
    if n > 0 {
        lemma_lw_functions(fs, n - 1);
        lemma_lw_function(fs[n - 1]);
    }
}

/// Lowering produces static single assignment form, as the IR promises: in every function it
/// produces, no value is defined twice (as a block parameter or an instruction's result), block
/// `i` is labelled `i`, every branch leads to one of its blocks, and every block ends in a
/// terminator. The entry block takes the function's parameters, and every edge passes as many
/// values as its target block has parameters (for any function whose blocks can be counted in
/// a `usize`).
pub proof fn lemma_lowering_is_ssa(p: RProgram)
    requires
        lw_program(p) is Some,
    ensures
        forall|k: int| 0 <= k < lw_program(p).unwrap().len() ==> well_formed(#[trigger] lw_program(p).unwrap()[k]),
        forall|k: int| 0 <= k < lw_program(p).unwrap().len() && (#[trigger] lw_program(p).unwrap()[k]).blocks.len() <= usize::MAX
            ==> well_connected(lw_program(p).unwrap()[k]),
{
    lemma_lw_functions(p.functions, p.functions.len() as int);
    let rest = lw_functions(p.functions, p.functions.len() as int).unwrap();
    let head: Seq<FunctionV> = match p.main {
        Some(m) => {
            lemma_lw_function(m);
            seq![lw_function(m).unwrap()]
        },
        None => Seq::empty(),
    };
    assert(lw_program(p).unwrap() == head + rest);
    assert forall|k: int| 0 <= k < lw_program(p).unwrap().len() implies well_formed(#[trigger] lw_program(p).unwrap()[k])
        && (lw_program(p).unwrap()[k].blocks.len() <= usize::MAX ==> well_connected(lw_program(p).unwrap()[k])) by {
        if k < head.len() {
            assert(lw_program(p).unwrap()[k] == head[k]);
        } else {
            assert(lw_program(p).unwrap()[k] == rest[k - head.len()]);
        }
    }
}


/// A well-formed lowered function is a well-formed control-flow graph, as register allocation
/// requires: its labels are distinct and every branch leads to one of its blocks.
pub proof fn lemma_lowered_cfg_wf(f: TIRFunction)
    requires
        well_formed(tir_view(f)),
    ensures
        cfg_wf(f.blocks@),
{
    let bs = f.blocks@;
    let vs = tir_view(f).blocks;
    assert(f.blocks.len() == bs.len());
    assert forall|i: int| 0 <= i < bs.len() implies #[trigger] bs[i].label == BlockId(i as usize) && (i as usize) == i by {
        assert(vs[i] == block_view(bs[i]));
        assert(vs[i].label == BlockId(i as usize));
        assert(i < f.blocks.len());
        assert(f.blocks.len() <= usize::MAX);
    }
    assert forall|i: int, j: int| 0 <= i < bs.len() && 0 <= j < bs.len() && i != j implies #[trigger] bs[i].label != #[trigger] bs[j].label by {
        assert(bs[i].label == BlockId(i as usize));
        assert(bs[j].label == BlockId(j as usize));
    }
    assert forall|i: int, k: int|
        0 <= i < bs.len() && 0 <= k < terminator_edges(bs[i].terminator).len() implies has_label(
            bs,
            #[trigger] terminator_edges(bs[i].terminator)[k].0,
        ) by {
        let t = bs[i].terminator;
        assert(vs[i] == block_view(bs[i]));
        assert(targets_below(term_view(t), vs.len() as int));
        let l = terminator_edges(t)[k].0;
        assert(term_targets(term_view(t))[k] == l);
        assert(l.0 < bs.len());
        assert(bs[l.0 as int].label == BlockId(l.0));
    }
}

} // verus!
