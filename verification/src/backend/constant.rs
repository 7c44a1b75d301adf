use std::collections::HashMap;
use vstd::prelude::*;

use crate::backend::pass::OptimizationPass;
use crate::ir::types::{Instruction, Operation, TIRBlock, TIRFunction, VirtualRegister, binary_operands};

verus! {

broadcast use vstd::std_specs::hash::group_hash_axioms;

/// A compile-time constant.
#[derive(Debug, Clone, Copy, PartialEq, Eq, Structural)]
pub enum Const {
    Int(usize),
    Bool(bool),
}

/// The operation that loads `c`.
pub open spec fn const_op(c: Const) -> Operation {
    match c {
        Const::Int(n) => Operation::ConstInt(n),
        Const::Bool(b) => Operation::ConstBool(b),
    }
}

impl Const {
    /// The operation that loads this constant.
    pub fn to_operation(self) -> (op: Operation)
        ensures
            op == const_op(self),
    {
        match self {
            Const::Int(n) => Operation::ConstInt(n),
            Const::Bool(b) => Operation::ConstBool(b),
        }
    }
}

/// The constant an operation loads, if it loads one.
pub open spec fn loaded_const(op: Operation) -> Option<Const> {
    match op {
        Operation::ConstInt(n) => Some(Const::Int(n)),
        Operation::ConstBool(b) => Some(Const::Bool(b)),
        _ => None,
    }
}

/// The arithmetic of `op` on `l` and `r` stays within `usize`.
pub open spec fn in_range(op: Operation, l: Const, r: Const) -> bool {
    match (op, l, r) {
        (Operation::Add(_, _), Const::Int(a), Const::Int(b)) => a + b <= usize::MAX,
        (Operation::Sub(_, _), Const::Int(a), Const::Int(b)) => a >= b,
        (Operation::Mul(_, _), Const::Int(a), Const::Int(b)) => a * b <= usize::MAX,
        _ => true,
    }
}

/// The value of binary operation `op` on constants `l` and `r`, when the operand kinds fit it:
/// arithmetic and comparisons on integers, `and` and `or` on booleans.
pub open spec fn binop_value(op: Operation, l: Const, r: Const) -> Option<Const> {
    match (op, l, r) {
        (Operation::Add(_, _), Const::Int(a), Const::Int(b)) => Some(Const::Int((a + b) as usize)),
        (Operation::Sub(_, _), Const::Int(a), Const::Int(b)) => Some(Const::Int((a - b) as usize)),
        (Operation::Mul(_, _), Const::Int(a), Const::Int(b)) => Some(Const::Int((a * b) as usize)),
        (Operation::Eq(_, _), Const::Int(a), Const::Int(b)) => Some(Const::Bool(a == b)),
        (Operation::Lt(_, _), Const::Int(a), Const::Int(b)) => Some(Const::Bool(a < b)),
        (Operation::Leq(_, _), Const::Int(a), Const::Int(b)) => Some(Const::Bool(a <= b)),
        (Operation::Gt(_, _), Const::Int(a), Const::Int(b)) => Some(Const::Bool(a > b)),
        (Operation::Geq(_, _), Const::Int(a), Const::Int(b)) => Some(Const::Bool(a >= b)),
        (Operation::Neq(_, _), Const::Int(a), Const::Int(b)) => Some(Const::Bool(a != b)),
        (Operation::And(_, _), Const::Bool(a), Const::Bool(b)) => Some(Const::Bool(a && b)),
        (Operation::Or(_, _), Const::Bool(a), Const::Bool(b)) => Some(Const::Bool(a || b)),
        _ => None,
    }
}

/// The known constants of the operands of `op`, if it is a binary operation whose operands
/// both have known values in `env` (keyed by register number).
pub open spec fn known_operands(op: Operation, env: Map<usize, Const>) -> Option<(Const, Const)> {
    match binary_operands(op) {
        Some((a, b)) => if env.contains_key(a.0) && env.contains_key(b.0) {
            Some((env[a.0], env[b.0]))
        } else {
            None
        },
        None => None,
    }
}

/// The constant `op` folds to under `env`.
pub open spec fn folded(op: Operation, env: Map<usize, Const>) -> Option<Const> {
    match known_operands(op, env) {
        Some((l, r)) => binop_value(op, l, r),
        None => None,
    }
}

/// Folding `op` under `env` does not leave the range of `usize`.
pub open spec fn fold_in_range(op: Operation, env: Map<usize, Const>) -> bool {
    match known_operands(op, env) {
        Some((l, r)) => in_range(op, l, r),
        None => true,
    }
}

/// One step of constant folding: the new environment, the rewritten instruction and whether it
/// was rewritten.
pub open spec fn fold_instr(env: Map<usize, Const>, instr: Instruction) -> (Map<usize, Const>, Instruction, bool) {
    match folded(instr.op, env) {
        Some(c) => (env.insert(instr.dest.0, c), Instruction { dest: instr.dest, op: const_op(c) }, true),
        None => match loaded_const(instr.op) {
            Some(c) => (env.insert(instr.dest.0, c), instr, false),
            None => (env, instr, false),
        },
    }
}

/// Folding the first `n` instructions of `instrs`, starting from `env`.
pub open spec fn fold_prefix(env: Map<usize, Const>, instrs: Seq<Instruction>, n: int) -> (Map<usize, Const>, Seq<Instruction>, bool)
    decreases n,
{
    if n <= 0 {
        (env, Seq::empty(), false)
    } else {
        let (e, out, c) = fold_prefix(env, instrs, n - 1);
        let (e2, i2, c2) = fold_instr(e, instrs[n - 1]);
        (e2, out.push(i2), c || c2)
    }
}

/// Folding the first `m` blocks of `bs`, constants carried from block to block in order: the
/// final environment, the new instruction list of each block, and whether anything was folded.
pub open spec fn fold_blocks(bs: Seq<TIRBlock>, m: int) -> (Map<usize, Const>, Seq<Seq<Instruction>>, bool)
    decreases m,
{
    if m <= 0 {
        (Map::empty(), Seq::empty(), false)
    } else {
        let (e, out, c) = fold_blocks(bs, m - 1);
        let instrs = bs[m - 1].instructions@;
        let (e2, folded_instrs, c2) = fold_prefix(e, instrs, instrs.len() as int);
        (e2, out.push(folded_instrs), c || c2)
    }
}

/// No fold in the first `m` blocks of `bs` leaves the range of `usize`.
pub open spec fn folds_in_range(bs: Seq<TIRBlock>, m: int) -> bool {
    forall|k: int, n: int| 0 <= k < m && 0 <= n < bs[k].instructions@.len() ==> #[trigger] fold_in_range(
        bs[k].instructions@[n].op,
        fold_prefix(fold_blocks(bs, k).0, bs[k].instructions@, n).0,
    )
}

proof fn lemma_fold_prefix_len(env: Map<usize, Const>, instrs: Seq<Instruction>, n: int)
    requires
        0 <= n,
    ensures
        fold_prefix(env, instrs, n).1.len() == n,
    decreases n,
{
    if n > 0 {
        lemma_fold_prefix_len(env, instrs, n - 1);
    }
}

proof fn lemma_fold_blocks_len(bs: Seq<TIRBlock>, m: int)
    requires
        0 <= m,
    ensures
        fold_blocks(bs, m).1.len() == m,
    decreases m,
{
    if m > 0 {
        lemma_fold_blocks_len(bs, m - 1);
    }
}

/// The constant `op` loads, if it loads one.
fn extract_const(op: &Operation) -> (r: Option<Const>)
    ensures
        r == loaded_const(*op),
{
    match op {
        Operation::ConstInt(n) => Some(Const::Int(*n)),
        Operation::ConstBool(b) => Some(Const::Bool(*b)),
        _ => None,
    }
}

/// Evaluates binary operation `op` on constants `l` and `r`; `None` when the operand kinds do
/// not fit the operation.
fn eval_binop(op: &Operation, l: &Const, r: &Const) -> (res: Option<Const>)
    requires
        in_range(*op, *l, *r),
    ensures
        res == binop_value(*op, *l, *r),
{
    match (op, l, r) {
        (Operation::Add(_, _), Const::Int(a), Const::Int(b)) => Some(Const::Int(*a + *b)),
        (Operation::Sub(_, _), Const::Int(a), Const::Int(b)) => Some(Const::Int(*a - *b)),
        (Operation::Mul(_, _), Const::Int(a), Const::Int(b)) => Some(Const::Int(*a * *b)),
        (Operation::Eq(_, _), Const::Int(a), Const::Int(b)) => Some(Const::Bool(*a == *b)),
        (Operation::Lt(_, _), Const::Int(a), Const::Int(b)) => Some(Const::Bool(*a < *b)),
        (Operation::Leq(_, _), Const::Int(a), Const::Int(b)) => Some(Const::Bool(*a <= *b)),
        (Operation::Gt(_, _), Const::Int(a), Const::Int(b)) => Some(Const::Bool(*a > *b)),
        (Operation::Geq(_, _), Const::Int(a), Const::Int(b)) => Some(Const::Bool(*a >= *b)),
        (Operation::Neq(_, _), Const::Int(a), Const::Int(b)) => Some(Const::Bool(*a != *b)),
        (Operation::And(_, _), Const::Bool(a), Const::Bool(b)) => Some(Const::Bool(*a && *b)),
        (Operation::Or(_, _), Const::Bool(a), Const::Bool(b)) => Some(Const::Bool(*a || *b)),
        _ => None,
    }
}

/// Folds `op` when it is a binary operation whose operands are known constants in `env`.
fn fold_operation(op: &Operation, env: &HashMap<usize, Const>) -> (res: Option<Const>)
    requires
        fold_in_range(*op, env@),
    ensures
        res == folded(*op, env@),
{
    let (lhs, rhs) = match op {
        Operation::Add(a, b) | Operation::Sub(a, b) | Operation::Mul(a, b) | Operation::Eq(a, b)
        | Operation::Lt(a, b) | Operation::Leq(a, b) | Operation::Gt(a, b) | Operation::Geq(a, b)
        | Operation::Neq(a, b) | Operation::And(a, b) | Operation::Or(a, b) => (*a, *b),
        _ => {
            return None;
        },
    };
    let l = match env.get(&lhs.0) {
        Some(l) => *l,
        None => {
            return None;
        },
    };
    let r = match env.get(&rhs.0) {
        Some(r) => *r,
        None => {
            return None;
        },
    };
    eval_binop(op, &l, &r)
}

/// Whether folding `op` under `env` stays within `usize`.
fn fold_fits(op: &Operation, env: &HashMap<usize, Const>) -> (b: bool)
    ensures
        b == fold_in_range(*op, env@),
{
    let (lhs, rhs) = match op {
        Operation::Add(a, b) | Operation::Sub(a, b) | Operation::Mul(a, b) => (*a, *b),
        _ => {
            return true;
        },
    };
    let l = match env.get(&lhs.0) {
        Some(l) => *l,
        None => {
            return true;
        },
    };
    let r = match env.get(&rhs.0) {
        Some(r) => *r,
        None => {
            return true;
        },
    };
    match (op, l, r) {
        (Operation::Add(_, _), Const::Int(a), Const::Int(b)) => a.checked_add(b).is_some(),
        (Operation::Sub(_, _), Const::Int(a), Const::Int(b)) => a >= b,
        (Operation::Mul(_, _), Const::Int(a), Const::Int(b)) => a.checked_mul(b).is_some(),
        _ => true,
    }
}

/// Whether one run of constant folding on `function` stays within `usize`: no fold adds,
/// subtracts or multiplies its way out of range.
pub fn folds_fit(function: &TIRFunction) -> (b: bool)
    ensures
        b == folds_in_range(function.blocks@, function.blocks@.len() as int),
{
    let ghost bs = function.blocks@;
    let mut env: HashMap<usize, Const> = HashMap::new();
    proof {
        assert(env@ == fold_blocks(bs, 0).0);
    }
    let mut i: usize = 0;
    while i < function.blocks.len()
        invariant
            0 <= i <= bs.len(),
            bs == function.blocks@,
            env@ == fold_blocks(bs, i as int).0,
            folds_in_range(bs, i as int),
        decreases bs.len() - i,
    {
        let block = &function.blocks[i];
        let ghost e0 = env@;
        let ghost s = block.instructions@;
        let mut j: usize = 0;
        while j < block.instructions.len()
            invariant
                0 <= i < bs.len(),
                bs == function.blocks@,
                *block == bs[i as int],
                s == block.instructions@,
                e0 == fold_blocks(bs, i as int).0,
                0 <= j <= s.len(),
                env@ == fold_prefix(e0, s, j as int).0,
                folds_in_range(bs, i as int),
                forall|n: int| 0 <= n < j ==> #[trigger] fold_in_range(s[n].op, fold_prefix(e0, s, n).0),
            decreases s.len() - j,
        {
            if !fold_fits(&block.instructions[j].op, &env) {
                proof {
                    assert(!fold_in_range(bs[i as int].instructions@[j as int].op,
                        fold_prefix(fold_blocks(bs, i as int).0, bs[i as int].instructions@, j as int).0));
                }
                return false;
            }
            let dest = block.instructions[j].dest;
            match fold_operation(&block.instructions[j].op, &env) {
                Some(c) => {
                    env.insert(dest.0, c);
                },
                None => {
                    match extract_const(&block.instructions[j].op) {
                        Some(c) => {
                            env.insert(dest.0, c);
                        },
                        None => {},
                    }
                },
            }
            j = j + 1;
        }
        proof {
            assert forall|k: int, n: int| 0 <= k < i + 1 && 0 <= n < bs[k].instructions@.len() implies #[trigger] fold_in_range(
                bs[k].instructions@[n].op,
                fold_prefix(fold_blocks(bs, k).0, bs[k].instructions@, n).0,
            ) by {
                if k == i {
                    assert(fold_in_range(s[n].op, fold_prefix(e0, s, n).0));
                }
            }
        }
        i = i + 1;
    }
    true
}

/// Constant folding: a binary operation whose operands are known constants is replaced by its
/// value. Constants are propagated through the blocks in order.
pub struct ConstantFolding;

/// Folds the instructions of `b` under `env`.
fn fold_block(b: &mut TIRBlock, env: &mut HashMap<usize, Const>, changed: &mut bool)
    requires
        forall|n: int| 0 <= n < old(b).instructions@.len() ==> #[trigger] fold_in_range(
            old(b).instructions@[n].op,
            fold_prefix(old(env)@, old(b).instructions@, n).0,
        ),
    ensures
        final(b).label == old(b).label,
        final(b).params == old(b).params,
        final(b).terminator == old(b).terminator,
        ({
            let (e, instrs, c) = fold_prefix(old(env)@, old(b).instructions@, old(b).instructions@.len() as int);
            &&& final(env)@ == e
            &&& final(b).instructions@ == instrs
            &&& *final(changed) == (*old(changed) || c)
        }),
{
    let ghost b0 = *b;
    let ghost e0 = env@;
    let ghost c0 = *changed;
    let ghost s = b0.instructions@;
    let n = b.instructions.len();
    let mut j: usize = 0;
    while j < n
        invariant
            0 <= j <= n,
            n == s.len(),
            b.label == b0.label,
            b.params == b0.params,
            b.terminator == b0.terminator,
            b.instructions@.len() == n,
            forall|t: int| 0 <= t < j ==> b.instructions@[t] == fold_prefix(e0, s, j as int).1[t],
            forall|t: int| j <= t < n ==> b.instructions@[t] == s[t],
            env@ == fold_prefix(e0, s, j as int).0,
            *changed == (c0 || fold_prefix(e0, s, j as int).2),
            forall|q: int| 0 <= q < n ==> #[trigger] fold_in_range(s[q].op, fold_prefix(e0, s, q).0),
        decreases n - j,
    {
        proof {
            lemma_fold_prefix_len(e0, s, j as int);
            assert(fold_in_range(s[j as int].op, fold_prefix(e0, s, j as int).0));
        }
        let dest = b.instructions[j].dest;
        let r = fold_operation(&b.instructions[j].op, env);
        match r {
            Some(c) => {
                env.insert(dest.0, c);
                b.instructions.set(j, Instruction { dest, op: c.to_operation() });
                *changed = true;
            },
            None => {
                match extract_const(&b.instructions[j].op) {
                    Some(c) => {
                        env.insert(dest.0, c);
                    },
                    None => {},
                }
            },
        }
        proof {
            lemma_fold_prefix_len(e0, s, j + 1);
        }
        j = j + 1;
    }
    proof {
        lemma_fold_prefix_len(e0, s, n as int);
        assert(b.instructions@ =~= fold_prefix(e0, s, n as int).1);
    }
}

impl OptimizationPass for ConstantFolding {
    /// Folding is defined where no folded arithmetic leaves the range of `usize`.
    open spec fn accepts(&self, function: TIRFunction) -> bool {
        folds_in_range(function.blocks@, function.blocks@.len() as int)
    }

    fn can_run(&self, function: &TIRFunction) -> (b: bool) {
        folds_fit(function)
    }

    /// Each block keeps its label, parameters and terminator; its instructions are replaced by
    /// their folded forms; the pass reports a change when some instruction was folded.
    open spec fn transforms(&self, before: TIRFunction, after: TIRFunction, changed: bool) -> bool {
        let bs = before.blocks@;
        let (_, instrs, c) = fold_blocks(bs, bs.len() as int);
        &&& after.name == before.name
        &&& after.params == before.params
        &&& after.blocks@.len() == bs.len()
        &&& forall|i: int| 0 <= i < bs.len() ==> {
            &&& (#[trigger] after.blocks@[i]).label == bs[i].label
            &&& after.blocks@[i].params == bs[i].params
            &&& after.blocks@[i].terminator == bs[i].terminator
            &&& after.blocks@[i].instructions@ == instrs[i]
        }
        &&& changed == c
    }

    fn run(&mut self, function: &mut TIRFunction) -> (changed: bool) {
        let mut env: HashMap<usize, Const> = HashMap::new();
        let mut changed = false;
        let mut blocks: Vec<TIRBlock> = Vec::new();
        std::mem::swap(&mut blocks, &mut function.blocks);
        let ghost bs = blocks@;
        let mut out: Vec<TIRBlock> = Vec::new();
        proof {
            assert(env@ == fold_blocks(bs, 0).0);
        }
        while blocks.len() > 0
            invariant
                bs.len() == out@.len() + blocks@.len(),
                blocks@ == bs.subrange(out@.len() as int, bs.len() as int),
                env@ == fold_blocks(bs, out@.len() as int).0,
                changed == fold_blocks(bs, out@.len() as int).2,
                folds_in_range(bs, bs.len() as int),
                forall|i: int| 0 <= i < out@.len() ==> {
                    &&& (#[trigger] out@[i]).label == bs[i].label
                    &&& out@[i].params == bs[i].params
                    &&& out@[i].terminator == bs[i].terminator
                    &&& out@[i].instructions@ == fold_blocks(bs, out@.len() as int).1[i]
                },
            decreases blocks@.len(),
        {
            let ghost m = out@.len() as int;
            let mut b = blocks.remove(0);
            assert(b == bs[m]);
            assert forall|n: int| 0 <= n < b.instructions@.len() implies #[trigger] fold_in_range(
                b.instructions@[n].op,
                fold_prefix(env@, b.instructions@, n).0,
            ) by {
                assert(fold_in_range(bs[m].instructions@[n].op, fold_prefix(fold_blocks(bs, m).0, bs[m].instructions@, n).0));
            }
            fold_block(&mut b, &mut env, &mut changed);
            out.push(b);
            proof {
                lemma_fold_blocks_len(bs, m);
                lemma_fold_blocks_len(bs, m + 1);
                assert(blocks@ =~= bs.subrange(m + 1, bs.len() as int));
            }
        }
        proof {
            lemma_fold_blocks_len(bs, bs.len() as int);
        }
        function.blocks = out;
        changed
    }
}


// Folding twice is folding once: a second run finds nothing left to fold.

proof fn lemma_fold_instr_again(env: Map<usize, Const>, x: Instruction)
    ensures
        ({
            let (e1, x1, _) = fold_instr(env, x);
            fold_instr(env, x1) == (e1, x1, false)
        }),
{
    match folded(x.op, env) {
        Some(c) => {
            assert(binary_operands(const_op(c)) is None);
        },
        None => {},
    }
}

proof fn lemma_fold_prefix_prefix(env: Map<usize, Const>, is: Seq<Instruction>, m: int, n: int)
    requires
        0 <= m <= n,
    ensures
        forall|j: int| 0 <= j < m ==> #[trigger] fold_prefix(env, is, n).1[j] == fold_prefix(env, is, m).1[j],
    decreases n,
{
    if n > m {
        lemma_fold_prefix_prefix(env, is, m, n - 1);
        lemma_fold_prefix_len(env, is, n - 1);
    }
}

/// Folding a sequence whose first `n` instructions are already folded (from `env`) changes
/// none of them and reaches the same environment.
proof fn lemma_fold_prefix_again(env: Map<usize, Const>, is: Seq<Instruction>, s: Seq<Instruction>, n: int)
    requires
        0 <= n <= s.len(),
        forall|j: int| 0 <= j < n ==> #[trigger] s[j] == fold_prefix(env, is, n).1[j],
    ensures
        fold_prefix(env, s, n) == (fold_prefix(env, is, n).0, fold_prefix(env, is, n).1, false),
    decreases n,
{
    if n > 0 {
        lemma_fold_prefix_prefix(env, is, n - 1, n);
        lemma_fold_prefix_len(env, is, n - 1);
        lemma_fold_prefix_again(env, is, s, n - 1);
        let (e, o, _) = fold_prefix(env, is, n - 1);
        lemma_fold_instr_again(e, is[n - 1]);
        assert(s[n - 1] == fold_prefix(env, is, n).1[n - 1]);
    }
}

proof fn lemma_fold_blocks_prefix(bs: Seq<TIRBlock>, m: int, n: int)
    requires
        0 <= m <= n,
    ensures
        forall|k: int| 0 <= k < m ==> #[trigger] fold_blocks(bs, n).1[k] == fold_blocks(bs, m).1[k],
    decreases n,
{
    if n > m {
        lemma_fold_blocks_prefix(bs, m, n - 1);
        lemma_fold_blocks_len(bs, n - 1);
    }
}

/// Blocks whose instructions are the folded ones fold to themselves block by block.
proof fn lemma_fold_blocks_again(bs: Seq<TIRBlock>, abs: Seq<TIRBlock>, m: int)
    requires
        0 <= m <= bs.len(),
        abs.len() == bs.len(),
        forall|k: int| 0 <= k < bs.len() ==> (#[trigger] abs[k]).instructions@ == fold_blocks(bs, bs.len() as int).1[k],
    ensures
        fold_blocks(abs, m) == (fold_blocks(bs, m).0, fold_blocks(bs, m).1, false),
    decreases m,
{
    if m > 0 {
        lemma_fold_blocks_again(bs, abs, m - 1);
        lemma_fold_blocks_prefix(bs, m, bs.len() as int);
        lemma_fold_blocks_len(bs, m - 1);
        let e = fold_blocks(bs, m - 1).0;
        let is = bs[m - 1].instructions@;
        let s = abs[m - 1].instructions@;
        lemma_fold_prefix_len(e, is, is.len() as int);
        assert(s == fold_prefix(e, is, is.len() as int).1);
        lemma_fold_prefix_again(e, is, s, is.len() as int);
    }
}

/// Constant folding is idempotent: on what one run produced, a second run is defined, folds
/// nothing and reports no change.
pub proof fn lemma_folding_idempotent(pass: ConstantFolding, before: TIRFunction, after: TIRFunction, changed: bool)
    requires
        pass.accepts(before),
        pass.transforms(before, after, changed),
    ensures
        pass.accepts(after),
        forall|again: TIRFunction, changed2: bool| #[trigger] pass.transforms(after, again, changed2) ==> {
            &&& !changed2
            &&& again.blocks@.len() == after.blocks@.len()
            &&& forall|i: int| 0 <= i < after.blocks@.len() ==> (#[trigger] again.blocks@[i]).instructions@ == after.blocks@[i].instructions@
        },
{
    let bs = before.blocks@;
    let abs = after.blocks@;
    let n = bs.len() as int;
    lemma_fold_blocks_len(bs, n);
    lemma_fold_blocks_again(bs, abs, n);
    assert forall|k: int, q: int| 0 <= k < n && 0 <= q < abs[k].instructions@.len() implies #[trigger] fold_in_range(
        abs[k].instructions@[q].op,
        fold_prefix(fold_blocks(abs, k).0, abs[k].instructions@, q).0,
    ) by {
        lemma_fold_blocks_again(bs, abs, k);
        lemma_fold_blocks_prefix(bs, k + 1, n);
        lemma_fold_blocks_len(bs, k);
        let e = fold_blocks(bs, k).0;
        let is = bs[k].instructions@;
        let s = abs[k].instructions@;
        lemma_fold_prefix_len(e, is, is.len() as int);
        lemma_fold_prefix_prefix(e, is, q, is.len() as int);
        lemma_fold_prefix_prefix(e, is, q + 1, is.len() as int);
        lemma_fold_prefix_len(e, is, q);
        lemma_fold_prefix_again(e, is, s, q);
        let e2 = fold_prefix(e, is, q).0;
        assert(s[q] == fold_prefix(e, is, q + 1).1[q]);
        assert(fold_in_range(is[q].op, e2));
        match folded(is[q].op, e2) {
            Some(c) => {
                assert(binary_operands(const_op(c)) is None);
            },
            None => {},
        }
    }
    lemma_fold_blocks_len(abs, n);
}

/// Folding gives each binary operation its arithmetic meaning. On integers `a` and `b`: `+`,
/// `-` and `*` give the sum, the difference and the product (when it lies within `usize`), and
/// each comparison gives whether `a` and `b` stand in that relation. On booleans `p` and `q`:
/// `and` gives the conjunction, `or` the disjunction. An operator applied to operands of the
/// other kind has no value.
pub proof fn lemma_fold_meaning(x: VirtualRegister, y: VirtualRegister, a: usize, b: usize, p: bool, q: bool)
    ensures
        a + b <= usize::MAX ==> (match binop_value(Operation::Add(x, y), Const::Int(a), Const::Int(b)) {
            Some(Const::Int(n)) => n == a + b,
            _ => false,
        }),
        a >= b ==> (match binop_value(Operation::Sub(x, y), Const::Int(a), Const::Int(b)) {
            Some(Const::Int(n)) => n == a - b,
            _ => false,
        }),
        a * b <= usize::MAX ==> (match binop_value(Operation::Mul(x, y), Const::Int(a), Const::Int(b)) {
            Some(Const::Int(n)) => n == a * b,
            _ => false,
        }),
        binop_value(Operation::Eq(x, y), Const::Int(a), Const::Int(b)) == Some(Const::Bool(a == b)),
        binop_value(Operation::Neq(x, y), Const::Int(a), Const::Int(b)) == Some(Const::Bool(a != b)),
        binop_value(Operation::Lt(x, y), Const::Int(a), Const::Int(b)) == Some(Const::Bool(a < b)),
        binop_value(Operation::Leq(x, y), Const::Int(a), Const::Int(b)) == Some(Const::Bool(a <= b)),
        binop_value(Operation::Gt(x, y), Const::Int(a), Const::Int(b)) == Some(Const::Bool(a > b)),
        binop_value(Operation::Geq(x, y), Const::Int(a), Const::Int(b)) == Some(Const::Bool(a >= b)),
        binop_value(Operation::And(x, y), Const::Bool(p), Const::Bool(q)) == Some(Const::Bool(p && q)),
        binop_value(Operation::Or(x, y), Const::Bool(p), Const::Bool(q)) == Some(Const::Bool(p || q)),
        binop_value(Operation::Add(x, y), Const::Bool(p), Const::Int(b)) is None,
        binop_value(Operation::Leq(x, y), Const::Int(a), Const::Bool(q)) is None,
        binop_value(Operation::And(x, y), Const::Int(a), Const::Bool(q)) is None,
{
}

/// The comparisons agree with one another: `<=` is `<` or `==`, `>` and `>=` are `<` and `<=`
/// with the operands swapped, and `!=` is the negation of `==`.
pub proof fn lemma_fold_comparisons_agree(x: VirtualRegister, y: VirtualRegister, a: usize, b: usize)
    ensures
        binop_value(Operation::Leq(x, y), Const::Int(a), Const::Int(b)) == Some(Const::Bool(
            binop_value(Operation::Lt(x, y), Const::Int(a), Const::Int(b)) == Some(Const::Bool(true))
                || binop_value(Operation::Eq(x, y), Const::Int(a), Const::Int(b)) == Some(Const::Bool(true)),
        )),
        binop_value(Operation::Gt(x, y), Const::Int(a), Const::Int(b)) == binop_value(Operation::Lt(y, x), Const::Int(b), Const::Int(a)),
        binop_value(Operation::Geq(x, y), Const::Int(a), Const::Int(b)) == binop_value(Operation::Leq(y, x), Const::Int(b), Const::Int(a)),
        binop_value(Operation::Neq(x, y), Const::Int(a), Const::Int(b)) == Some(Const::Bool(
            binop_value(Operation::Eq(x, y), Const::Int(a), Const::Int(b)) != Some(Const::Bool(true)),
        )),
{
}

/// Folding a comparison whose operands hold known integers `a` and `b` replaces it by the
/// boolean constant that says whether `a` and `b` stand in that relation, and records that
/// constant for the destination.
pub proof fn lemma_fold_comparison(env: Map<usize, Const>, d: VirtualRegister, x: VirtualRegister, y: VirtualRegister, a: usize, b: usize)
    requires
        env.contains_key(x.0),
        env.contains_key(y.0),
        env[x.0] == Const::Int(a),
        env[y.0] == Const::Int(b),
    ensures
        fold_instr(env, Instruction { dest: d, op: Operation::Eq(x, y) })
            == (env.insert(d.0, Const::Bool(a == b)), Instruction { dest: d, op: Operation::ConstBool(a == b) }, true),
        fold_instr(env, Instruction { dest: d, op: Operation::Neq(x, y) })
            == (env.insert(d.0, Const::Bool(a != b)), Instruction { dest: d, op: Operation::ConstBool(a != b) }, true),
        fold_instr(env, Instruction { dest: d, op: Operation::Lt(x, y) })
            == (env.insert(d.0, Const::Bool(a < b)), Instruction { dest: d, op: Operation::ConstBool(a < b) }, true),
        fold_instr(env, Instruction { dest: d, op: Operation::Leq(x, y) })
            == (env.insert(d.0, Const::Bool(a <= b)), Instruction { dest: d, op: Operation::ConstBool(a <= b) }, true),
        fold_instr(env, Instruction { dest: d, op: Operation::Gt(x, y) })
            == (env.insert(d.0, Const::Bool(a > b)), Instruction { dest: d, op: Operation::ConstBool(a > b) }, true),
        fold_instr(env, Instruction { dest: d, op: Operation::Geq(x, y) })
            == (env.insert(d.0, Const::Bool(a >= b)), Instruction { dest: d, op: Operation::ConstBool(a >= b) }, true),
{
}

} // verus!
