use vstd::prelude::*;

use crate::backend::pass::OptimizationPass;
use crate::common::regset::RegSet;
use crate::ir::types::{BlockId, Instruction, Operation, TIRBlock, TIRFunction, TermV, Terminator, VirtualRegister, op_uses, term_view, terminator_uses};

verus! {

/// The position of the first of the first `n` blocks that has no instructions and ends in an
/// unconditional branch.
pub open spec fn first_passthrough(bs: Seq<TIRBlock>, n: int) -> Option<int>
    decreases n,
{
    if n <= 0 {
        None
    } else {
        match first_passthrough(bs, n - 1) {
            Some(k) => Some(k),
            None => if bs[n - 1].terminator is Branch && bs[n - 1].instructions@.len() == 0 {
                Some(n - 1)
            } else {
                None
            },
        }
    }
}

/// The value that register `a` holds in a block with parameters `ps` entered along an edge with
/// arguments `es`: the argument in the place of the first parameter (from `j` on) that is `a`, or
/// `a` itself where it is no parameter.
pub open spec fn param_value(a: VirtualRegister, ps: Seq<VirtualRegister>, es: Seq<VirtualRegister>, j: int) -> VirtualRegister
    decreases ps.len() - j,
{
    if j < 0 || j >= ps.len() || j >= es.len() {
        a
    } else if ps[j] == a {
        es[j]
    } else {
        param_value(a, ps, es, j + 1)
    }
}

/// The arguments `args` of a block with parameters `ps`, read on entry along an edge with
/// arguments `es`.
pub open spec fn forward_args(args: Seq<VirtualRegister>, ps: Seq<VirtualRegister>, es: Seq<VirtualRegister>) -> Seq<VirtualRegister> {
    args.map_values(|a: VirtualRegister| param_value(a, ps, es, 0))
}

/// `t` with every edge into `src` (a block with parameters `ps` that branches to `dst` with
/// arguments `args`) sent straight to `dst`, passing what `src` would have passed.
pub open spec fn redirect(t: TermV, src: BlockId, dst: BlockId, ps: Seq<VirtualRegister>, args: Seq<VirtualRegister>) -> TermV {
    match t {
        TermV::Branch(target, es) => if target == src {
            TermV::Branch(dst, forward_args(args, ps, es))
        } else {
            t
        },
        TermV::CondBranch(cond, tt, te, et, ee) => TermV::CondBranch(
            cond,
            if tt == src { dst } else { tt },
            if tt == src { forward_args(args, ps, te) } else { te },
            if et == src { dst } else { et },
            if et == src { forward_args(args, ps, ee) } else { ee },
        ),
        _ => t,
    }
}

/// Whether `redirect` changes some edge of `t`.
pub open spec fn redirects(t: TermV, src: BlockId) -> bool {
    match t {
        TermV::Branch(target, _) => target == src,
        TermV::CondBranch(_, tt, _, et, _) => tt == src || et == src,
        _ => false,
    }
}

/// `t` with its edges into the passthrough block `p` sent on past it.
pub open spec fn bypass_term(t: TermV, p: TIRBlock) -> TermV {
    match p.terminator {
        Terminator::Branch { target, params } => redirect(t, p.label, target, p.params@, params@),
        _ => t,
    }
}

/// `p` is labelled `src` and has parameters `ps`, and `bypass_term` for it sends edges into `src`
/// to `dst` with what `p` passes as `args`.
pub open spec fn bypass_term_is(p: TIRBlock, src: BlockId, dst: BlockId, ps: Seq<VirtualRegister>, args: Seq<VirtualRegister>) -> bool {
    &&& p.label == src
    &&& forall|t: TermV| #[trigger] bypass_term(t, p) == redirect(t, src, dst, ps, args)
}

/// The first `n` blocks of `bs` without those labelled `src`.
pub open spec fn without(bs: Seq<TIRBlock>, src: BlockId, n: int) -> Seq<TIRBlock>
    decreases n,
{
    if n <= 0 {
        Seq::empty()
    } else if bs[n - 1].label == src {
        without(bs, src, n - 1)
    } else {
        without(bs, src, n - 1).push(bs[n - 1])
    }
}

/// `bs1` is `bs` after the first step of dead code elimination: where there is a passthrough
/// block, it is removed and every edge into it goes on to its target with the values it passed.
pub open spec fn bypassed(bs: Seq<TIRBlock>, bs1: Seq<TIRBlock>) -> bool {
    match first_passthrough(bs, bs.len() as int) {
        None => bs1 == bs,
        Some(k) => {
            let kept = without(bs, bs[k].label, bs.len() as int);
            &&& bs1.len() == kept.len()
            &&& forall|i: int| 0 <= i < kept.len() ==> {
                &&& (#[trigger] bs1[i]).label == kept[i].label
                &&& bs1[i].params == kept[i].params
                &&& bs1[i].instructions == kept[i].instructions
                &&& term_view(bs1[i].terminator) == bypass_term(term_view(kept[i].terminator), bs[k])
            }
        },
    }
}

/// Every register read by an instruction or a terminator of `bs`.
pub open spec fn used_regs(bs: Seq<TIRBlock>) -> Set<VirtualRegister> {
    Set::new(|v: VirtualRegister|
        (exists|i: int, j: int| 0 <= i < bs.len() && 0 <= j < bs[i].instructions@.len()
            && #[trigger] op_uses(bs[i].instructions@[j].op).contains(v))
        || (exists|i: int| 0 <= i < bs.len() && #[trigger] terminator_uses(bs[i].terminator).contains(v)))
}

/// An instruction that must stay even if its result is unused: a call.
pub open spec fn is_unremovable(instr: Instruction) -> bool {
    instr.op is Call
}

/// The first `n` instructions of `instrs` without those whose result is not in `used` and that
/// may be removed.
pub open spec fn live_instrs(instrs: Seq<Instruction>, used: Set<VirtualRegister>, n: int) -> Seq<Instruction>
    decreases n,
{
    if n <= 0 {
        Seq::empty()
    } else {
        let rest = live_instrs(instrs, used, n - 1);
        if used.contains(instrs[n - 1].dest) || is_unremovable(instrs[n - 1]) {
            rest.push(instrs[n - 1])
        } else {
            rest
        }
    }
}

/// The target of an unconditional branch.
fn br_target(terminator: &Terminator) -> (r: Option<BlockId>)
    ensures
        r == (match *terminator {
            Terminator::Branch { target, .. } => Some(target),
            _ => None,
        }),
{
    match terminator {
        Terminator::Branch { target, .. } => Some(*target),
        _ => None,
    }
}

/// Finds a block that only passes control on: no instructions and an unconditional branch.
/// Only the first such block is reported in one run.
fn find_passthrough_blocks(function: &TIRFunction) -> (r: Option<usize>)
    ensures
        match r {
            Some(k) => first_passthrough(function.blocks@, function.blocks@.len() as int) == Some(k as int),
            None => first_passthrough(function.blocks@, function.blocks@.len() as int) is None,
        },
{
    let mut i: usize = 0;
    while i < function.blocks.len()
        invariant
            0 <= i <= function.blocks@.len(),
            first_passthrough(function.blocks@, i as int) is None,
        decreases function.blocks@.len() - i,
    {
        let block = &function.blocks[i];
        if block.instructions.len() == 0 {
            if let Some(_target) = br_target(&block.terminator) {
                proof {
                    lemma_first_passthrough_found(function.blocks@, i as int + 1, function.blocks@.len() as int);
                }
                return Some(i);
            }
        }
        i = i + 1;
    }
    None
}

proof fn lemma_first_passthrough_found(bs: Seq<TIRBlock>, n: int, m: int)
    requires
        0 < n <= m,
        first_passthrough(bs, n) is Some,
    ensures
        first_passthrough(bs, m) == first_passthrough(bs, n),
    decreases m - n,
{
    if m > n {
        lemma_first_passthrough_found(bs, n, m - 1);
    }
}

proof fn lemma_first_passthrough_range(bs: Seq<TIRBlock>, n: int)
    requires
        first_passthrough(bs, n) is Some,
    ensures
        0 <= first_passthrough(bs, n)->0 < n,
        bs[first_passthrough(bs, n)->0].terminator is Branch,
    decreases n,
{
    if n > 0 && first_passthrough(bs, n - 1) is Some {
        lemma_first_passthrough_range(bs, n - 1);
    }
}

/// A copy of `v`.
fn copy_regs(v: &Vec<VirtualRegister>) -> (r: Vec<VirtualRegister>)
    ensures
        r@ == v@,
{
    let mut r: Vec<VirtualRegister> = Vec::new();
    let mut i: usize = 0;
    while i < v.len()
        invariant
            0 <= i <= v@.len(),
            r@ == v@.take(i as int),
        decreases v@.len() - i,
    {
        r.push(v[i]);
        proof {
            assert(r@ =~= v@.take(i + 1));
        }
        i = i + 1;
    }
    proof {
        assert(v@.take(v@.len() as int) =~= v@);
    }
    r
}

/// The value register `a` holds in a block with parameters `ps` entered with arguments `es`.
fn param_value_of(a: VirtualRegister, ps: &Vec<VirtualRegister>, es: &Vec<VirtualRegister>) -> (r: VirtualRegister)
    ensures
        r == param_value(a, ps@, es@, 0),
{
    let mut j: usize = 0;
    while j < ps.len() && j < es.len()
        invariant
            0 <= j <= ps@.len(),
            param_value(a, ps@, es@, 0) == param_value(a, ps@, es@, j as int),
        decreases ps@.len() - j,
    {
        if ps[j].0 == a.0 {
            return es[j];
        }
        j = j + 1;
    }
    a
}

/// The arguments `args` of a block with parameters `ps`, read on entry with arguments `es`.
fn forward(args: &Vec<VirtualRegister>, ps: &Vec<VirtualRegister>, es: &Vec<VirtualRegister>) -> (r: Vec<VirtualRegister>)
    ensures
        r@ == forward_args(args@, ps@, es@),
{
    let mut r: Vec<VirtualRegister> = Vec::new();
    let mut i: usize = 0;
    while i < args.len()
        invariant
            0 <= i <= args@.len(),
            r@ == forward_args(args@, ps@, es@).take(i as int),
        decreases args@.len() - i,
    {
        let v = param_value_of(args[i], ps, es);
        r.push(v);
        proof {
            assert(r@ =~= forward_args(args@, ps@, es@).take(i + 1));
        }
        i = i + 1;
    }
    proof {
        assert(forward_args(args@, ps@, es@).take(args@.len() as int) =~= forward_args(args@, ps@, es@));
    }
    r
}

/// Sends the edges of `block` into `src` (a block with parameters `ps` that branches to `dst`
/// with arguments `args`) straight to `dst`, passing what `src` would have passed; sets
/// `changed` when an edge is redirected.
fn replace_target(
    block: &mut TIRBlock,
    src: BlockId,
    dst: BlockId,
    ps: &Vec<VirtualRegister>,
    args: &Vec<VirtualRegister>,
    changed: &mut bool,
)
    ensures
        final(block).label == old(block).label,
        final(block).params == old(block).params,
        final(block).instructions == old(block).instructions,
        term_view(final(block).terminator) == redirect(term_view(old(block).terminator), src, dst, ps@, args@),
        *final(changed) == (*old(changed) || redirects(term_view(old(block).terminator), src)),
{
    match &mut block.terminator {
        Terminator::Branch { target, params } => {
            if target.0 == src.0 {
                *target = dst;
                *params = forward(args, ps, params);
                *changed = true;
            }
        },
        Terminator::ConditionalBranch { then_target, then_params, else_target, else_params, .. } => {
            if then_target.0 == src.0 {
                *then_target = dst;
                *then_params = forward(args, ps, then_params);
                *changed = true;
            }
            if else_target.0 == src.0 {
                *else_target = dst;
                *else_params = forward(args, ps, else_params);
                *changed = true;
            }
        },
        _ => {},
    }
}

/// The registers read by the first `j` instructions of `instrs`.
pub open spec fn instr_uses_upto(instrs: Seq<Instruction>, j: int) -> Set<VirtualRegister> {
    Set::new(|v: VirtualRegister| exists|k: int| 0 <= k < j && #[trigger] op_uses(instrs[k].op).contains(v))
}

/// Every register read by an instruction or terminator of the function.
fn find_used_registers(function: &TIRFunction) -> (used: RegSet)
    ensures
        used.wf(),
        used@ == used_regs(function.blocks@),
{
    let ghost bs = function.blocks@;
    let mut used = RegSet::new();
    let mut i: usize = 0;
    while i < function.blocks.len()
        invariant
            0 <= i <= bs.len(),
            bs == function.blocks@,
            used.wf(),
            used@ == used_regs(bs.take(i as int)),
        decreases bs.len() - i,
    {
        let block = &function.blocks[i];
        let ghost before = used@;
        let mut j: usize = 0;
        while j < block.instructions.len()
            invariant
                0 <= j <= block.instructions@.len(),
                used.wf(),
                used@ == before.union(instr_uses_upto(block.instructions@, j as int)),
            decreases block.instructions@.len() - j,
        {
            let uses = block.instructions[j].uses();
            used.insert_all(uses.as_slice());
            proof {
                assert(instr_uses_upto(block.instructions@, j + 1) =~= instr_uses_upto(block.instructions@, j as int).union(uses@.to_set()));
                assert(used@ =~= before.union(instr_uses_upto(block.instructions@, j + 1)));
            }
            j = j + 1;
        }
        let tuses = block.terminator.uses();
        used.insert_all(tuses.as_slice());
        proof {
            let bt = bs.take(i + 1);
            assert forall|v: VirtualRegister| used@.contains(v) <==> used_regs(bt).contains(v) by {
                if used@.contains(v) {
                    if before.contains(v) {
                        if exists|a: int, k: int| 0 <= a < i && 0 <= k < bs.take(i as int)[a].instructions@.len()
                            && #[trigger] op_uses(bs.take(i as int)[a].instructions@[k].op).contains(v) {
                            let (a, k) = choose|a: int, k: int| 0 <= a < i && 0 <= k < bs.take(i as int)[a].instructions@.len()
                                && #[trigger] op_uses(bs.take(i as int)[a].instructions@[k].op).contains(v);
                            assert(bt[a] == bs.take(i as int)[a]);
                        } else {
                            let a = choose|a: int| 0 <= a < i && #[trigger] terminator_uses(bs.take(i as int)[a].terminator).contains(v);
                            assert(bt[a] == bs.take(i as int)[a]);
                        }
                    } else if instr_uses_upto(block.instructions@, block.instructions@.len() as int).contains(v) {
                        let k = choose|k: int| 0 <= k < block.instructions@.len() && #[trigger] op_uses(block.instructions@[k].op).contains(v);
                        assert(bt[i as int] == *block);
                        assert(op_uses(bt[i as int].instructions@[k].op).contains(v));
                    } else {
                        assert(bt[i as int] == *block);
                        assert(terminator_uses(bt[i as int].terminator).contains(v));
                    }
                }
                if used_regs(bt).contains(v) {
                    if exists|a: int, k: int| 0 <= a < bt.len() && 0 <= k < bt[a].instructions@.len()
                        && #[trigger] op_uses(bt[a].instructions@[k].op).contains(v) {
                        let (a, k) = choose|a: int, k: int| 0 <= a < bt.len() && 0 <= k < bt[a].instructions@.len()
                            && #[trigger] op_uses(bt[a].instructions@[k].op).contains(v);
                        if a < i {
                            assert(bs.take(i as int)[a] == bt[a]);
                            assert(op_uses(bs.take(i as int)[a].instructions@[k].op).contains(v));
                            assert(before.contains(v));
                        } else {
                            assert(instr_uses_upto(block.instructions@, block.instructions@.len() as int).contains(v));
                        }
                    } else {
                        let a = choose|a: int| 0 <= a < bt.len() && #[trigger] terminator_uses(bt[a].terminator).contains(v);
                        if a < i {
                            assert(bs.take(i as int)[a] == bt[a]);
                            assert(terminator_uses(bs.take(i as int)[a].terminator).contains(v));
                            assert(before.contains(v));
                        } else {
                            assert(tuses@.to_set().contains(v));
                        }
                    }
                }
            }
            assert(used@ =~= used_regs(bt));
        }
        i = i + 1;
    }
    proof {
        assert(bs.take(bs.len() as int) == bs);
    }
    used
}

/// A call may have effects, so it stays even when its result is unused.
fn unremovable(instr: &Instruction) -> (r: bool)
    ensures
        r == is_unremovable(*instr),
{
    match instr.op {
        Operation::Call(_, _) => true,
        _ => false,
    }
}

proof fn lemma_live_instrs_len(instrs: Seq<Instruction>, used: Set<VirtualRegister>, n: int)
    requires
        0 <= n,
    ensures
        live_instrs(instrs, used, n).len() <= n,
    decreases n,
{
    if n > 0 {
        lemma_live_instrs_len(instrs, used, n - 1);
    }
}

/// Drops the instructions of `b` whose result is not in `used`, calls excepted.
fn remove_dead(b: &mut TIRBlock, used: &RegSet, changed: &mut bool)
    ensures
        final(b).label == old(b).label,
        final(b).params == old(b).params,
        final(b).terminator == old(b).terminator,
        final(b).instructions@ == live_instrs(old(b).instructions@, used@, old(b).instructions@.len() as int),
        *final(changed) == (*old(changed) || live_instrs(old(b).instructions@, used@, old(b).instructions@.len() as int).len()
            < old(b).instructions@.len()),
{
    let ghost s = b.instructions@;
    let ghost c0 = *changed;
    let mut instrs: Vec<Instruction> = Vec::new();
    std::mem::swap(&mut instrs, &mut b.instructions);
    let mut kept: Vec<Instruction> = Vec::new();
    let mut removed = false;
    while instrs.len() > 0
        invariant
            instrs@ == s.subrange(s.len() - instrs@.len(), s.len() as int),
            0 <= s.len() - instrs@.len() <= s.len(),
            kept@ == live_instrs(s, used@, s.len() - instrs@.len()),
            removed == (kept@.len() < s.len() - instrs@.len()),
        decreases instrs@.len(),
    {
        let ghost j = s.len() - instrs@.len();
        proof {
            lemma_live_instrs_len(s, used@, j);
        }
        let instr = instrs.remove(0);
        assert(instr == s[j]);
        if used.contains(instr.dest) || unremovable(&instr) {
            kept.push(instr);
        } else {
            removed = true;
        }
        proof {
            assert(instrs@ =~= s.subrange(j + 1, s.len() as int));
        }
    }
    b.instructions = kept;
    if removed {
        *changed = true;
    }
}

/// Dead code elimination: bypasses and removes a block that only branches on, then drops the
/// instructions whose results are never read (calls excepted).
pub struct DeadCodeElimination;

impl OptimizationPass for DeadCodeElimination {
    open spec fn accepts(&self, function: TIRFunction) -> bool {
        true
    }

    fn can_run(&self, function: &TIRFunction) -> (b: bool) {
        true
    }

    /// The passthrough block (if any) is removed and the edges into it go on to its target with
    /// the values it passed; then each remaining block keeps only the instructions whose result
    /// is read somewhere in the function, and calls. A change is reported when a block was
    /// removed or an instruction dropped.
    open spec fn transforms(&self, before: TIRFunction, after: TIRFunction, changed: bool) -> bool {
        exists|bs1: Seq<TIRBlock>| {
            let used = #[trigger] used_regs(bs1);
            &&& bypassed(before.blocks@, bs1)
            &&& after.name == before.name
            &&& after.params == before.params
            &&& after.blocks@.len() == bs1.len()
            &&& forall|i: int| 0 <= i < bs1.len() ==> {
                &&& (#[trigger] after.blocks@[i]).label == bs1[i].label
                &&& after.blocks@[i].params == bs1[i].params
                &&& after.blocks@[i].terminator == bs1[i].terminator
                &&& after.blocks@[i].instructions@ == live_instrs(bs1[i].instructions@, used, bs1[i].instructions@.len() as int)
            }
            &&& changed == (first_passthrough(before.blocks@, before.blocks@.len() as int) is Some
                || exists|i: int| 0 <= i < bs1.len()
                && #[trigger] live_instrs(bs1[i].instructions@, used, bs1[i].instructions@.len() as int).len() < bs1[i].instructions@.len())
        }
    }

    fn run(&mut self, function: &mut TIRFunction) -> (changed: bool) {
        let mut changed = false;
        let passthrough = find_passthrough_blocks(function);
        let ghost bs = function.blocks@;
        match passthrough {
            Some(k) => {
                proof {
                    lemma_first_passthrough_range(bs, bs.len() as int);
                }
                let src = function.blocks[k].label;
                let ps = copy_regs(&function.blocks[k].params);
                let (dst, args) = match &function.blocks[k].terminator {
                    Terminator::Branch { target, params } => (*target, copy_regs(params)),
                    _ => (src, Vec::new()),
                };
                let ghost p = bs[k as int];
                assert(bypass_term_is(p, src, dst, ps@, args@));
                let mut blocks: Vec<TIRBlock> = Vec::new();
                std::mem::swap(&mut blocks, &mut function.blocks);
                let mut out: Vec<TIRBlock> = Vec::new();
                while blocks.len() > 0
                    invariant
                        blocks@ == bs.subrange(bs.len() - blocks@.len(), bs.len() as int),
                        0 <= bs.len() - blocks@.len() <= bs.len(),
                        bypass_term_is(p, src, dst, ps@, args@),
                        out@.len() == without(bs, src, bs.len() - blocks@.len()).len(),
                        forall|i: int| 0 <= i < out@.len() ==> {
                            let kept = without(bs, src, bs.len() - blocks@.len());
                            &&& (#[trigger] out@[i]).label == kept[i].label
                            &&& out@[i].params == kept[i].params
                            &&& out@[i].instructions == kept[i].instructions
                            &&& term_view(out@[i].terminator) == bypass_term(term_view(kept[i].terminator), p)
                        },
                    decreases blocks@.len(),
                {
                    let ghost j = bs.len() - blocks@.len();
                    let ghost o0 = out@;
                    let mut b = blocks.remove(0);
                    assert(b == bs[j]);
                    replace_target(&mut b, src, dst, &ps, &args, &mut changed);
                    if b.label.0 != src.0 {
                        out.push(b);
                    }
                    proof {
                        assert(blocks@ =~= bs.subrange(j + 1, bs.len() as int));
                        let kept = without(bs, src, j + 1);
                        assert forall|i: int| 0 <= i < out@.len() implies {
                            &&& (#[trigger] out@[i]).label == kept[i].label
                            &&& out@[i].params == kept[i].params
                            &&& out@[i].instructions == kept[i].instructions
                            &&& term_view(out@[i].terminator) == bypass_term(term_view(kept[i].terminator), p)
                        } by {
                            if i < o0.len() {
                                assert(out@[i] == o0[i]);
                            }
                        }
                    }
                }
                function.blocks = out;
                changed = true;
                proof {
                    assert(bs.len() - blocks@.len() == bs.len());
                }
            },
            None => {},
        }
        let ghost bs1 = function.blocks@;
        assert(bypassed(bs, bs1));
        assert(changed == (first_passthrough(bs, bs.len() as int) is Some));
        let used = find_used_registers(function);
        let mut blocks: Vec<TIRBlock> = Vec::new();
        std::mem::swap(&mut blocks, &mut function.blocks);
        let mut out: Vec<TIRBlock> = Vec::new();
        let ghost c1 = changed;
        while blocks.len() > 0
            invariant
                bs1.len() == out@.len() + blocks@.len(),
                blocks@ == bs1.subrange(out@.len() as int, bs1.len() as int),
                used@ == used_regs(bs1),
                forall|i: int| 0 <= i < out@.len() ==> {
                    &&& (#[trigger] out@[i]).label == bs1[i].label
                    &&& out@[i].params == bs1[i].params
                    &&& out@[i].terminator == bs1[i].terminator
                    &&& out@[i].instructions@ == live_instrs(bs1[i].instructions@, used@, bs1[i].instructions@.len() as int)
                },
                changed == (c1 || exists|i: int| 0 <= i < out@.len()
                    && #[trigger] live_instrs(bs1[i].instructions@, used@, bs1[i].instructions@.len() as int).len() < bs1[i].instructions@.len()),
            decreases blocks@.len(),
        {
            let ghost m = out@.len() as int;
            let mut b = blocks.remove(0);
            assert(b == bs1[m]);
            remove_dead(&mut b, &used, &mut changed);
            out.push(b);
            proof {
                assert(blocks@ =~= bs1.subrange(m + 1, bs1.len() as int));
                assert(out@[m] == b);
            }
        }
        function.blocks = out;
        changed
    }
}

} // verus!
