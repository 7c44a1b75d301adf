use vstd::prelude::*;

use crate::ir::builder::{
    BState, IRBuilder, b_emit, b_fresh, b_fresh_n, b_init_block, b_set_params, b_switch, b_terminate, start_state,
};
use crate::ir::types::{
    binary_operands, BlockId, BlockV, InstrV, FunctionV, OpV, Operation, PendingEdge, TIRBlock, TIRFunction, TermV, Terminator, VirtualRegister,
    block_view, blocks_view, op_view, term_view, tir_view,
};
use crate::backend::constant::{Const, binop_value, in_range};
use crate::backend::liveness::cfg_wf;
use crate::ir::ssa::{lemma_lowered_cfg_wf, lemma_lowering_is_ssa, well_connected, well_formed};
use crate::parser::BinOp;
use crate::resolver::{
    RElse, RExpr, RFunction, RProgram, RStmt, ResolvedElseClause, ResolvedExpression, ResolvedFunction,
    ResolvedProgram, ResolvedStatement, ResolvedTerm, ResolvedTermV, SymbolId, relse_view, rexpr_view,
    rexprs_view, rfunction_view, rprogram_view, rstmt_view, rstmts_view,
};

verus! {

/// Variables and their current values, in the order they were first bound; a variable occurs
/// at most once.
pub type LEnv = Seq<(SymbolId, VirtualRegister)>;

/// What identifies a symbol: its name and number.
pub open spec fn sym_key(s: SymbolId) -> (Seq<char>, usize) {
    (s.name@, s.id)
}

/// The first position at or after `i` where `env` binds `s`, or -1.
pub open spec fn env_pos(env: LEnv, s: SymbolId, i: int) -> int
    decreases env.len() - i,
{
    if i < 0 || i >= env.len() {
        -1
    } else if sym_key(env[i].0) == sym_key(s) {
        i
    } else {
        env_pos(env, s, i + 1)
    }
}

/// The value bound to `s`.
pub open spec fn env_get(env: LEnv, s: SymbolId) -> Option<VirtualRegister> {
    let p = env_pos(env, s, 0);
    if p >= 0 {
        Some(env[p].1)
    } else {
        None
    }
}

/// Binds `s` to `v`: in place if `s` is bound, else at the end.
pub open spec fn env_insert(env: LEnv, s: SymbolId, v: VirtualRegister) -> LEnv {
    let p = env_pos(env, s, 0);
    if p >= 0 {
        env.update(p, (env[p].0, v))
    } else {
        env.push((s, v))
    }
}

/// The variables bound, in order.
pub open spec fn env_keys(env: LEnv) -> Seq<SymbolId> {
    env.map_values(|e: (SymbolId, VirtualRegister)| e.0)
}

/// The values of the first `n` of `vars`; `None` where one is unbound.
pub open spec fn env_vals(env: LEnv, vars: Seq<SymbolId>, n: int) -> Option<Seq<VirtualRegister>>
    decreases n,
{
    if n <= 0 {
        Some(Seq::empty())
    } else {
        match env_vals(env, vars, n - 1) {
            Some(vs) => match env_get(env, vars[n - 1]) {
                Some(v) => Some(vs.push(v)),
                None => None,
            },
            None => None,
        }
    }
}

/// The first `n` of `vars` bound in order to the first `n` of `vals`.
pub open spec fn env_from(vars: Seq<SymbolId>, vals: Seq<VirtualRegister>, n: int) -> LEnv
    decreases n,
{
    if n <= 0 {
        Seq::empty()
    } else {
        env_insert(env_from(vars, vals, n - 1), vars[n - 1], vals[n - 1])
    }
}

/// The operation computing `op` on `l` and `r`.
pub open spec fn binop_operation(op: BinOp, l: VirtualRegister, r: VirtualRegister) -> Operation {
    match op {
        BinOp::Add => Operation::Add(l, r),
        BinOp::Sub => Operation::Sub(l, r),
        BinOp::Mul => Operation::Mul(l, r),
        BinOp::And => Operation::And(l, r),
        BinOp::Or => Operation::Or(l, r),
        BinOp::Lt => Operation::Lt(l, r),
        BinOp::Leq => Operation::Leq(l, r),
        BinOp::Gt => Operation::Gt(l, r),
        BinOp::Geq => Operation::Geq(l, r),
        BinOp::Eq => Operation::Eq(l, r),
        BinOp::Neq => Operation::Neq(l, r),
    }
}

// Lowering as functions of the builder state. `None` stands where the lowering panics: a
// variable without a value, a block that does not exist, a counter that would overflow, or a
// loop body that does not fall through.

/// Lowers an expression: operands first, left to right; a variable is its current value.
pub open spec fn lw_expr(e: RExpr, env: LEnv, b: BState) -> Option<(BState, VirtualRegister)>
    decreases e, 0int,
{
    match e {
        RExpr::Binary(l, r, op) => match lw_expr(*l, env, b) {
            Some((b1, lv)) => match lw_expr(*r, env, b1) {
                Some((b2, rv)) => b_emit(b2, OpV::Plain(binop_operation(op, lv, rv))),
                None => None,
            },
            None => None,
        },
        RExpr::Term(t) => match t {
            ResolvedTermV::Identifier(s) => match env_get(env, s) {
                Some(v) => Some((b, v)),
                None => None,
            },
            ResolvedTermV::IntLit(n) => b_emit(b, OpV::Plain(Operation::ConstInt(n))),
            ResolvedTermV::Bool(x) => b_emit(b, OpV::Plain(Operation::ConstBool(x))),
        },
        RExpr::Call(f, args) => match lw_exprs(args, env, b, args.len() as int) {
            Some((b1, vs)) => b_emit(b1, OpV::Call(f, vs)),
            None => None,
        },
    }
}

/// Lowers the first `n` expressions of `es` in order.
pub open spec fn lw_exprs(es: Seq<RExpr>, env: LEnv, b: BState, n: int) -> Option<(BState, Seq<VirtualRegister>)>
    decreases es, n,
{
    if n <= 0 || n > es.len() {
        Some((b, Seq::empty()))
    } else {
        match lw_exprs(es, env, b, n - 1) {
            Some((b1, vs)) => match lw_expr(es[n - 1], env, b1) {
                Some((b2, v)) => Some((b2, vs.push(v))),
                None => None,
            },
            None => None,
        }
    }
}

/// The lowering of an `if` chain so far: the builder, the edges still to be sent to the merge
/// block (source block and values), and the block that tests the next condition.
#[verifier::ext_equal]
pub struct IfState {
    pub b: BState,
    pub pending: Seq<(BlockId, Seq<VirtualRegister>)>,
    pub next: BlockId,
}

/// A lowering step: `None` where lowering panics, else the builder and the variables after the
/// statement, `None` where control does not fall through.
pub type LStep = Option<(BState, Option<LEnv>)>;

/// `st` with an edge from the current block carrying the values of `vars` in `env_out`.
pub open spec fn add_edge(st: IfState, b: BState, env_out: Option<LEnv>, vars: Seq<SymbolId>, next: BlockId) -> Option<IfState> {
    match env_out {
        Some(e) => match env_vals(e, vars, vars.len() as int) {
            Some(vals) => Some(IfState { b, pending: st.pending.push((BlockId(b.current as usize), vals)), next }),
            None => None,
        },
        None => Some(IfState { b, pending: st.pending, next }),
    }
}

/// The final `else` that an `if` chain without one gets: an empty block body.
pub open spec fn lw_empty_else(env: LEnv, vars: Seq<SymbolId>, st: IfState) -> Option<IfState> {
    let b1 = b_switch(st.b, st.next);
    add_edge(st, b1, Some(env), vars, st.next)
}

/// Sends the first `n` pending edges to `merge`.
pub open spec fn lw_edges(b: BState, pending: Seq<(BlockId, Seq<VirtualRegister>)>, merge: BlockId, n: int) -> Option<BState>
    decreases n,
{
    if n <= 0 {
        Some(b)
    } else {
        match lw_edges(b, pending, merge, n - 1) {
            Some(b1) => b_terminate(b_switch(b1, pending[n - 1].0), TermV::Branch(merge, pending[n - 1].1)),
            None => None,
        }
    }
}

/// Joins the branches of an `if` chain: without edges the variables keep their values;
/// else a merge block takes one parameter per variable.
pub open spec fn lw_merge(env: LEnv, vars: Seq<SymbolId>, b: BState, pending: Seq<(BlockId, Seq<VirtualRegister>)>) -> Option<(BState, LEnv)> {
    if pending.len() == 0 {
        Some((b, env))
    } else {
        let (b1, merge) = b_init_block(b);
        match lw_edges(b1, pending, merge, pending.len() as int) {
            Some(b2) => match b_fresh_n(b_switch(b2, merge), vars.len()) {
                Some((b3, params)) => match b_set_params(b3, params) {
                    Some(b4) => Some((b4, env_from(vars, params, vars.len() as int))),
                    None => None,
                },
                None => None,
            },
            None => None,
        }
    }
}

/// The first part of a `while`: the condition, body and exit blocks, the branch into the
/// condition block, its parameters and the condition. Gives the state, the three blocks and
/// the variables of the body.
pub open spec fn lw_while_head(c: RExpr, env: LEnv, vars: Seq<SymbolId>, b: BState) -> Option<(BState, BlockId, BlockId, BlockId, LEnv)> {
    let (b1, cond_block) = b_init_block(b);
    let (b2, body_block) = b_init_block(b1);
    let (b3, done_block) = b_init_block(b2);
    let n = vars.len();
    match env_vals(env, vars, n as int) {
        Some(init) => match b_terminate(b3, TermV::Branch(cond_block, init)) {
            Some(b4) => match b_fresh_n(b4, n) {
                Some((b5, cps)) => match b_set_params(b_switch(b5, cond_block), cps) {
                    Some(b6) => match lw_expr(c, env_from(vars, cps, n as int), b6) {
                        Some((b7, cv)) => match b_terminate(b7, TermV::CondBranch(cv, body_block, cps, done_block, cps)) {
                            Some(b8) => match b_fresh_n(b8, n) {
                                Some((b9, bps)) => match b_set_params(b_switch(b9, body_block), bps) {
                                    Some(b10) => Some((b10, cond_block, body_block, done_block, env_from(vars, bps, n as int))),
                                    None => None,
                                },
                                None => None,
                            },
                            None => None,
                        },
                        None => None,
                    },
                    None => None,
                },
                None => None,
            },
            None => None,
        },
        None => None,
    }
}

/// The last part of a `while`: the branch back to the condition block, and the exit block with
/// one parameter per variable.
pub open spec fn lw_while_tail(env_body: LEnv, vars: Seq<SymbolId>, cond_block: BlockId, done_block: BlockId, b: BState) -> Option<(BState, LEnv)> {
    let n = vars.len();
    match env_vals(env_body, vars, n as int) {
        Some(upd) => match b_terminate(b, TermV::Branch(cond_block, upd)) {
            Some(b1) => match b_fresh_n(b1, n) {
                Some((b2, eps)) => match b_set_params(b_switch(b2, done_block), eps) {
                    Some(b3) => Some((b3, env_from(vars, eps, n as int))),
                    None => None,
                },
                None => None,
            },
            None => None,
        },
        None => None,
    }
}

/// Lowers a statement.
pub open spec fn lw_stmt(s: RStmt, env: LEnv, b: BState) -> LStep
    decreases s, 0int,
{
    match s {
        RStmt::Exit(e) => match lw_expr(e, env, b) {
            Some((b1, v)) => match b_terminate(b1, TermV::Exit(v)) {
                Some(b2) => Some((b2, None)),
                None => None,
            },
            None => None,
        },
        RStmt::Return(e) => match lw_expr(e, env, b) {
            Some((b1, v)) => match b_terminate(b1, TermV::Return(v)) {
                Some(b2) => Some((b2, None)),
                None => None,
            },
            None => None,
        },
        RStmt::Let(sym, e) => match lw_expr(e, env, b) {
            Some((b1, v)) => Some((b1, Some(env_insert(env, sym, v)))),
            None => None,
        },
        RStmt::Assign(sym, e) => match lw_expr(e, env, b) {
            Some((b1, v)) => Some((b1, Some(env_insert(env, sym, v)))),
            None => None,
        },
        RStmt::Call(f, args) => match lw_exprs(args, env, b, args.len() as int) {
            Some((b1, vs)) => match b_emit(b1, OpV::Call(f, vs)) {
                Some((b2, _)) => Some((b2, Some(env))),
                None => None,
            },
            None => None,
        },
        RStmt::If(c, then, els) => {
            let vars = env_keys(env);
            let st0 = IfState { b, pending: Seq::empty(), next: BlockId(b.current as usize) };
            match lw_branch(Some(c), then, env, vars, st0) {
                Some(st1) => match (match els {
                    Some(clause) => lw_chain(clause, env, vars, st1),
                    None => lw_empty_else(env, vars, st1),
                }) {
                    Some(st2) => match lw_merge(env, vars, st2.b, st2.pending) {
                        Some((b3, env3)) => Some((b3, Some(env3))),
                        None => None,
                    },
                    None => None,
                },
                None => None,
            }
        },
        RStmt::While(c, body) => {
            let vars = env_keys(env);
            match lw_while_head(c, env, vars, b) {
                Some((b1, cond_block, _, done_block, env_body)) => match lw_scope(body, 0, env_body, b1) {
                    Some((b2, Some(env2))) => match lw_while_tail(env2, vars, cond_block, done_block, b2) {
                        Some((b3, env3)) => Some((b3, Some(env3))),
                        None => None,
                    },
                    _ => None,
                },
                None => None,
            }
        },
    }
}

/// Lowers `ss[k..]` in order, stopping after a statement that does not fall through.
pub open spec fn lw_scope(ss: Seq<RStmt>, k: int, env: LEnv, b: BState) -> LStep
    decreases ss, ss.len() - k,
{
    if k < 0 || k >= ss.len() {
        Some((b, Some(env)))
    } else {
        match lw_stmt(ss[k], env, b) {
            Some((b1, Some(e1))) => lw_scope(ss, k + 1, e1, b1),
            Some((b1, None)) => Some((b1, None)),
            None => None,
        }
    }
}

/// Lowers one branch of an `if` chain. With a condition: a then block and an else block are
/// added, the testing block branches on the condition, the body goes to the then block, and
/// the else block tests what follows. Without one, the body goes to the testing block. A body
/// that falls through leaves an edge for the merge block.
pub open spec fn lw_branch(cond: Option<RExpr>, body: Seq<RStmt>, env: LEnv, vars: Seq<SymbolId>, st: IfState) -> Option<IfState>
    decreases body, body.len() + 1,
{
    match cond {
        Some(c) => {
            let (b1, then_block) = b_init_block(st.b);
            let (b2, else_block) = b_init_block(b1);
            match lw_expr(c, env, b_switch(b2, st.next)) {
                Some((b3, cv)) => match b_terminate(
                    b3,
                    TermV::CondBranch(cv, then_block, Seq::empty(), else_block, Seq::empty()),
                ) {
                    Some(b4) => match lw_scope(body, 0, env, b_switch(b4, then_block)) {
                        Some((b5, out)) => add_edge(st, b5, out, vars, else_block),
                        None => None,
                    },
                    None => None,
                },
                None => None,
            }
        },
        None => match lw_scope(body, 0, env, b_switch(st.b, st.next)) {
            Some((b1, out)) => add_edge(st, b1, out, vars, st.next),
            None => None,
        },
    }
}

/// Lowers the `else` clauses of an `if` chain, adding an empty final `else` where the last
/// clause has a condition.
pub open spec fn lw_chain(c: RElse, env: LEnv, vars: Seq<SymbolId>, st: IfState) -> Option<IfState>
    decreases c, 0int,
{
    match lw_branch(c.cond, c.body, env, vars, st) {
        Some(st1) => match c.els {
            Some(n) => lw_chain(*n, env, vars, st1),
            None => if c.cond is Some {
                lw_empty_else(env, vars, st1)
            } else {
                Some(st1)
            },
        },
        None => None,
    }
}

/// Gives each parameter of `args[..n]` a new value, in order.
pub open spec fn lw_params(args: Seq<(SymbolId, crate::parser::Type)>, n: int, b: BState) -> Option<(BState, LEnv, Seq<VirtualRegister>)>
    decreases n,
{
    if n <= 0 {
        Some((b, Seq::empty(), Seq::empty()))
    } else {
        match lw_params(args, n - 1, b) {
            Some((b1, env, ps)) => match b_fresh(b1) {
                Some((b2, v)) => Some((b2, env_insert(env, args[n - 1].0, v), ps.push(v))),
                None => None,
            },
            None => None,
        }
    }
}

/// The blocks of a lowered function: every block left without a terminator returns value 0.
pub open spec fn finish_blocks(blocks: Seq<BlockV>) -> Option<Seq<BlockV>> {
    if blocks.len() == 0 {
        None
    } else {
        Some(blocks.map_values(|b: BlockV| finish_block(b)))
    }
}

/// A block left without a terminator returns value 0.
pub open spec fn finish_block(b: BlockV) -> BlockV {
    if b.term is Void {
        BlockV { term: TermV::Return(VirtualRegister(0)), ..b }
    } else {
        b
    }
}

/// Lowers a function: its parameters are the first values and the parameters of the entry
/// block; then its body.
pub open spec fn lw_function(f: RFunction) -> Option<FunctionV> {
    match lw_params(f.args, f.args.len() as int, start_state()) {
        Some((b1, env, params)) => match b_set_params(b1, params) {
            Some(b2) => match lw_scope(f.body, 0, env, b2) {
                Some((b3, _)) => match finish_blocks(b3.blocks) {
                    Some(blocks) => Some(FunctionV { name: f.name, params, blocks }),
                    None => None,
                },
                None => None,
            },
            None => None,
        },
        None => None,
    }
}

/// Lowers the first `n` functions of `fs`.
pub open spec fn lw_functions(fs: Seq<RFunction>, n: int) -> Option<Seq<FunctionV>>
    decreases n,
{
    if n <= 0 {
        Some(Seq::empty())
    } else {
        match lw_functions(fs, n - 1) {
            Some(out) => match lw_function(fs[n - 1]) {
                Some(f) => Some(out.push(f)),
                None => None,
            },
            None => None,
        }
    }
}

/// Lowers a program: `main` first, then the other functions in order.
pub open spec fn lw_program(p: RProgram) -> Option<Seq<FunctionV>> {
    let head: Option<Seq<FunctionV>> = match p.main {
        Some(m) => match lw_function(m) {
            Some(f) => Some(seq![f]),
            None => None,
        },
        None => Some(Seq::empty()),
    };
    match head {
        Some(h) => match lw_functions(p.functions, p.functions.len() as int) {
            Some(rest) => Some(h + rest),
            None => None,
        },
        None => None,
    }
}

// ---------------------------------------------------------------------------------------------
// The lowering.

/// An environment in the order its variables were first bound.
pub type Env = Vec<(SymbolId, VirtualRegister)>;

/// The view of an environment that may be absent.
pub open spec fn opt_env(r: Option<Env>) -> Option<LEnv> {
    match r {
        Some(e) => Some(e@),
        None => None,
    }
}

/// The pending edges as (source, values) pairs.
pub open spec fn pending_view(p: Seq<PendingEdge>) -> Seq<(BlockId, Seq<VirtualRegister>)> {
    p.map_values(|e: PendingEdge| (e.from, e.params@))
}

fn env_position(env: &Env, s: &SymbolId) -> (r: Option<usize>)
    ensures
        match r {
            Some(p) => env_pos(env@, *s, 0) == p && p < env@.len(),
            None => env_pos(env@, *s, 0) == -1,
        },
{
    let mut i: usize = 0;
    while i < env.len()
        invariant
            0 <= i <= env@.len(),
            env_pos(env@, *s, 0) == env_pos(env@, *s, i as int),
        decreases env@.len() - i,
    {
        if env[i].0.id == s.id && env[i].0.name == s.name {
            return Some(i);
        }
        i = i + 1;
    }
    None
}

fn env_lookup(env: &Env, s: &SymbolId) -> (r: Option<VirtualRegister>)
    ensures
        r == env_get(env@, *s),
{
    match env_position(env, s) {
        Some(p) => Some(env[p].1),
        None => None,
    }
}

fn env_bind(env: &mut Env, s: &SymbolId, v: VirtualRegister)
    ensures
        final(env)@ == env_insert(old(env)@, *s, v),
{
    match env_position(env, s) {
        Some(p) => {
            env[p].1 = v;
            proof {
                assert(env@ =~= env_insert(old(env)@, *s, v));
            }
        },
        None => {
            env.push((s.copy(), v));
        },
    }
}

fn env_copy(env: &Env) -> (r: Env)
    ensures
        r@ == env@,
{
    let mut r: Env = Vec::new();
    let mut i: usize = 0;
    while i < env.len()
        invariant
            0 <= i <= env@.len(),
            r@ == env@.take(i as int),
        decreases env@.len() - i,
    {
        r.push((env[i].0.copy(), env[i].1));
        proof {
            assert(env@.take(i + 1) =~= env@.take(i as int).push(env@[i as int]));
        }
        i = i + 1;
    }
    proof {
        assert(env@.take(env@.len() as int) =~= env@);
    }
    r
}

fn env_variables(env: &Env) -> (r: Vec<SymbolId>)
    ensures
        r@ == env_keys(env@),
{
    let mut r: Vec<SymbolId> = Vec::new();
    let mut i: usize = 0;
    while i < env.len()
        invariant
            0 <= i <= env@.len(),
            r@ == env_keys(env@.take(i as int)),
        decreases env@.len() - i,
    {
        r.push(env[i].0.copy());
        proof {
            assert(env_keys(env@.take(i + 1)) =~= env_keys(env@.take(i as int)).push(env@[i as int].0));
        }
        i = i + 1;
    }
    proof {
        assert(env@.take(env@.len() as int) =~= env@);
    }
    r
}

fn env_values(env: &Env, vars: &Vec<SymbolId>) -> (r: Vec<VirtualRegister>)
    requires
        env_vals(env@, vars@, vars@.len() as int) is Some,
    ensures
        env_vals(env@, vars@, vars@.len() as int) == Some(r@),
{
    proof {
        lemma_env_vals_prefix(env@, vars@, vars@.len() as int);
    }
    let mut r: Vec<VirtualRegister> = Vec::new();
    let mut i: usize = 0;
    while i < vars.len()
        invariant
            0 <= i <= vars@.len(),
            forall|k: int| 0 <= k <= vars@.len() ==> #[trigger] env_vals(env@, vars@, k) is Some,
            env_vals(env@, vars@, i as int) == Some(r@),
        decreases vars@.len() - i,
    {
        assert(env_vals(env@, vars@, i + 1) is Some);
        match env_lookup(env, &vars[i]) {
            Some(v) => {
                r.push(v);
            },
            None => {
                assert(false);
            },
        }
        i = i + 1;
    }
    r
}

proof fn lemma_env_vals_prefix(env: LEnv, vars: Seq<SymbolId>, n: int)
    requires
        env_vals(env, vars, n) is Some,
    ensures
        forall|k: int| k <= n ==> #[trigger] env_vals(env, vars, k) is Some,
    decreases n,
{
    if n > 0 {
        lemma_env_vals_prefix(env, vars, n - 1);
    }
}

fn env_of(vars: &Vec<SymbolId>, vals: &Vec<VirtualRegister>) -> (r: Env)
    requires
        vals@.len() == vars@.len(),
    ensures
        r@ == env_from(vars@, vals@, vars@.len() as int),
{
    let mut r: Env = Vec::new();
    let mut i: usize = 0;
    while i < vars.len()
        invariant
            0 <= i <= vars@.len(),
            vals@.len() == vars@.len(),
            r@ == env_from(vars@, vals@, i as int),
        decreases vars@.len() - i,
    {
        env_bind(&mut r, &vars[i], vals[i]);
        i = i + 1;
    }
    r
}

proof fn lemma_fresh_n_prefix(b: BState, n: nat)
    requires
        b_fresh_n(b, n) is Some,
    ensures
        forall|k: nat| k <= n ==> #[trigger] b_fresh_n(b, k) is Some,
    decreases n,
{
    if n > 0 {
        lemma_fresh_n_prefix(b, (n - 1) as nat);
    }
}

/// `n` new values.
fn fresh_values(builder: &mut IRBuilder, n: usize) -> (r: Vec<VirtualRegister>)
    requires
        b_fresh_n(old(builder).state(), n as nat) is Some,
    ensures
        b_fresh_n(old(builder).state(), n as nat) == Some((final(builder).state(), r@)),
        r@.len() == n,
{
    let ghost b0 = builder.state();
    proof {
        lemma_fresh_n_prefix(b0, n as nat);
    }
    let mut r: Vec<VirtualRegister> = Vec::new();
    let mut i: usize = 0;
    while i < n
        invariant
            0 <= i <= n,
            forall|k: nat| k <= n ==> #[trigger] b_fresh_n(b0, k) is Some,
            b_fresh_n(b0, i as nat) == Some((builder.state(), r@)),
            r@.len() == i,
        decreases n - i,
    {
        assert(b_fresh_n(b0, (i + 1) as nat) is Some);
        let v = builder.value();
        r.push(v);
        i = i + 1;
    }
    r
}


proof fn lemma_lw_exprs_prefix(es: Seq<RExpr>, env: LEnv, b: BState, n: int)
    requires
        0 <= n <= es.len(),
        lw_exprs(es, env, b, n) is Some,
    ensures
        forall|k: int| 0 <= k <= n ==> #[trigger] lw_exprs(es, env, b, k) is Some,
    decreases n,
{
    if n > 0 {
        lemma_lw_exprs_prefix(es, env, b, n - 1);
    }
}

proof fn lemma_rexprs_view(es: Seq<ResolvedExpression>)
    ensures
        rexprs_view(es).len() == es.len(),
        forall|k: int| 0 <= k < es.len() ==> #[trigger] rexprs_view(es)[k] == rexpr_view(es[k]),
    decreases es.len(),
{
    if es.len() > 0 {
        lemma_rexprs_view(es.drop_last());
    }
}

proof fn lemma_rstmts_view(ss: Seq<ResolvedStatement>)
    ensures
        rstmts_view(ss).len() == ss.len(),
        forall|k: int| 0 <= k < ss.len() ==> #[trigger] rstmts_view(ss)[k] == rstmt_view(ss[k]),
    decreases ss.len(),
{
    if ss.len() > 0 {
        lemma_rstmts_view(ss.drop_last());
    }
}

fn binop_to_operation(op: BinOp, l: VirtualRegister, r: VirtualRegister) -> (o: Operation)
    ensures
        o == binop_operation(op, l, r),
{
    match op {
        BinOp::Add => Operation::Add(l, r),
        BinOp::Sub => Operation::Sub(l, r),
        BinOp::Mul => Operation::Mul(l, r),
        BinOp::And => Operation::And(l, r),
        BinOp::Or => Operation::Or(l, r),
        BinOp::Lt => Operation::Lt(l, r),
        BinOp::Leq => Operation::Leq(l, r),
        BinOp::Gt => Operation::Gt(l, r),
        BinOp::Geq => Operation::Geq(l, r),
        BinOp::Eq => Operation::Eq(l, r),
        BinOp::Neq => Operation::Neq(l, r),
    }
}

/// Lowers an expression and gives the value holding its result.
fn lower_expr(expr: &ResolvedExpression, env: &Env, builder: &mut IRBuilder) -> (v: VirtualRegister)
    requires
        lw_expr(rexpr_view(*expr), env@, old(builder).state()) is Some,
    ensures
        lw_expr(rexpr_view(*expr), env@, old(builder).state()) == Some((final(builder).state(), v)),
    decreases *expr, 0nat,
{
    match expr {
        ResolvedExpression::BinaryExpr(lhs, rhs, op) => {
            let l = lower_expr(lhs, env, builder);
            let r = lower_expr(rhs, env, builder);
            let operation = binop_to_operation(*op, l, r);
            builder.emit(operation)
        },
        ResolvedExpression::Term(term) => match term {
            ResolvedTerm::Identifier(sym) => match env_lookup(env, sym) {
                Some(v) => v,
                None => {
                    assert(false);
                    VirtualRegister(0)
                },
            },
            ResolvedTerm::IntLit(n) => builder.emit(Operation::ConstInt(*n)),
            ResolvedTerm::Bool(b) => builder.emit(Operation::ConstBool(*b)),
        },
        ResolvedExpression::FunctionCall { function, args } => {
            proof {
                lemma_rexprs_view(args@);
            }
            let vals = lower_args(args, env, builder);
            builder.emit(Operation::Call(function.copy(), vals))
        },
    }
}

/// Lowers the arguments of a call, in order.
fn lower_args(args: &Vec<ResolvedExpression>, env: &Env, builder: &mut IRBuilder) -> (r: Vec<VirtualRegister>)
    requires
        lw_exprs(rexprs_view(args@), env@, old(builder).state(), args@.len() as int) is Some,
    ensures
        lw_exprs(rexprs_view(args@), env@, old(builder).state(), args@.len() as int) == Some((final(builder).state(), r@)),
    decreases *args, 1nat,
{
    let ghost es = rexprs_view(args@);
    let ghost b0 = builder.state();
    proof {
        lemma_rexprs_view(args@);
        lemma_lw_exprs_prefix(es, env@, b0, args@.len() as int);
    }
    let mut r: Vec<VirtualRegister> = Vec::new();
    let mut i: usize = 0;
    while i < args.len()
        invariant
            0 <= i <= args@.len(),
            es == rexprs_view(args@),
            es.len() == args@.len(),
            forall|q: int| 0 <= q < args@.len() ==> #[trigger] es[q] == rexpr_view(args@[q]),
            forall|k: int| 0 <= k <= args@.len() ==> #[trigger] lw_exprs(es, env@, b0, k) is Some,
            lw_exprs(es, env@, b0, i as int) == Some((builder.state(), r@)),
        decreases args@.len() - i,
    {
        assert(lw_exprs(es, env@, b0, i + 1) is Some);
        let v = lower_expr(&args[i], env, builder);
        r.push(v);
        i = i + 1;
    }
    r
}


/// The view of an optional condition.
pub open spec fn opt_rexpr(c: Option<&ResolvedExpression>) -> Option<RExpr> {
    match c {
        Some(e) => Some(rexpr_view(*e)),
        None => None,
    }
}

proof fn lemma_pending_push(p: Seq<PendingEdge>, e: PendingEdge)
    ensures
        pending_view(p.push(e)) == pending_view(p).push((e.from, e.params@)),
{
    assert(pending_view(p.push(e)) =~= pending_view(p).push((e.from, e.params@)));
}

/// Lowers a statement; gives the variables after it, or `None` where control does not fall
/// through.
fn lower_statement(stmt: &ResolvedStatement, env: Env, builder: &mut IRBuilder) -> (r: Option<Env>)
    requires
        lw_stmt(rstmt_view(*stmt), env@, old(builder).state()) is Some,
    ensures
        lw_stmt(rstmt_view(*stmt), env@, old(builder).state()) == Some((final(builder).state(), opt_env(r))),
    decreases *stmt, 1nat,
{
    match stmt {
        ResolvedStatement::Exit(expr) => {
            let v = lower_expr(expr, &env, builder);
            builder.terminate(Terminator::Exit(v));
            None
        },
        ResolvedStatement::Return(expr) => {
            let v = lower_expr(expr, &env, builder);
            builder.terminate(Terminator::Return(v));
            None
        },
        ResolvedStatement::Let { symbol, expr } => {
            let v = lower_expr(expr, &env, builder);
            let mut env = env;
            env_bind(&mut env, symbol, v);
            Some(env)
        },
        ResolvedStatement::Assignment { symbol, expr } => {
            let v = lower_expr(expr, &env, builder);
            let mut env = env;
            env_bind(&mut env, symbol, v);
            Some(env)
        },
        ResolvedStatement::FunctionCall { function, args } => {
            proof {
                lemma_rexprs_view(args@);
            }
            let vals = lower_args(args, &env, builder);
            let _result = builder.emit(Operation::Call(function.copy(), vals));
            Some(env)
        },
        ResolvedStatement::If { .. } => Some(lower_if(stmt, env, builder)),
        ResolvedStatement::While { .. } => Some(lower_while(stmt, env, builder)),
    }
}

/// Lowers the statements of a block in order, stopping after one that does not fall through.
fn lower_scope(scope: &Vec<ResolvedStatement>, env: Env, builder: &mut IRBuilder) -> (r: Option<Env>)
    requires
        lw_scope(rstmts_view(scope@), 0, env@, old(builder).state()) is Some,
    ensures
        lw_scope(rstmts_view(scope@), 0, env@, old(builder).state()) == Some((final(builder).state(), opt_env(r))),
    decreases *scope, 1nat,
{
    let ghost sv = rstmts_view(scope@);
    let ghost env0 = env@;
    let ghost b0 = builder.state();
    proof {
        lemma_rstmts_view(scope@);
    }
    let mut cur = env;
    let mut k: usize = 0;
    while k < scope.len()
        invariant
            0 <= k <= scope@.len(),
            sv == rstmts_view(scope@),
            sv.len() == scope@.len(),
            forall|q: int| 0 <= q < scope@.len() ==> #[trigger] sv[q] == rstmt_view(scope@[q]),
            lw_scope(sv, 0, env0, b0) is Some,
            lw_scope(sv, 0, env0, b0) == lw_scope(sv, k as int, cur@, builder.state()),
            b0 == old(builder).state(),
            env0 == env@,
        decreases scope@.len() - k,
    {
        match lower_statement(&scope[k], cur, builder) {
            Some(e) => {
                cur = e;
            },
            None => {
                return None;
            },
        }
        k = k + 1;
    }
    Some(cur)
}

/// Lowers one branch of an `if` chain (see `lw_branch`).
fn lower_branch(
    cond: Option<&ResolvedExpression>,
    body: &Vec<ResolvedStatement>,
    env: &Env,
    vars: &Vec<SymbolId>,
    pending: &mut Vec<PendingEdge>,
    next: &mut BlockId,
    builder: &mut IRBuilder,
)
    requires
        lw_branch(opt_rexpr(cond), rstmts_view(body@), env@, vars@, IfState { b: old(builder).state(), pending: pending_view(old(pending)@), next: *old(next) }) is Some,
    ensures
        lw_branch(opt_rexpr(cond), rstmts_view(body@), env@, vars@, IfState { b: old(builder).state(), pending: pending_view(old(pending)@), next: *old(next) })
            == Some(IfState { b: final(builder).state(), pending: pending_view(final(pending)@), next: *final(next) }),
    decreases *body, 2nat,
{
    match cond {
        Some(c) => {
            let then_block = builder.init_block();
            let else_block = builder.init_block();
            builder.switch_to(*next);
            let cond_v = lower_expr(c, env, builder);
            builder.terminate(
                Terminator::ConditionalBranch {
                    cond: cond_v,
                    then_target: then_block,
                    then_params: Vec::new(),
                    else_target: else_block,
                    else_params: Vec::new(),
                },
            );
            builder.switch_to(then_block);
            let out = lower_scope(body, env_copy(env), builder);
            match out {
                Some(env_out) => {
                    let vals = env_values(&env_out, vars);
                    let e = PendingEdge { from: builder.current(), params: vals };
                    proof {
                        lemma_pending_push(pending@, e);
                    }
                    pending.push(e);
                },
                None => {},
            }
            *next = else_block;
        },
        None => {
            builder.switch_to(*next);
            let out = lower_scope(body, env_copy(env), builder);
            match out {
                Some(env_out) => {
                    let vals = env_values(&env_out, vars);
                    let e = PendingEdge { from: builder.current(), params: vals };
                    proof {
                        lemma_pending_push(pending@, e);
                    }
                    pending.push(e);
                },
                None => {},
            }
        },
    }
}

/// The empty final `else` of a chain that has none.
fn lower_empty_else(env: &Env, vars: &Vec<SymbolId>, pending: &mut Vec<PendingEdge>, next: &mut BlockId, builder: &mut IRBuilder)
    requires
        lw_empty_else(env@, vars@, IfState { b: old(builder).state(), pending: pending_view(old(pending)@), next: *old(next) }) is Some,
    ensures
        lw_empty_else(env@, vars@, IfState { b: old(builder).state(), pending: pending_view(old(pending)@), next: *old(next) })
            == Some(IfState { b: final(builder).state(), pending: pending_view(final(pending)@), next: *final(next) }),
{
    builder.switch_to(*next);
    let vals = env_values(env, vars);
    let e = PendingEdge { from: builder.current(), params: vals };
    proof {
        lemma_pending_push(pending@, e);
    }
    pending.push(e);
}

/// Lowers the `else` clauses of an `if` chain (see `lw_chain`).
fn lower_chain(
    c: &ResolvedElseClause,
    env: &Env,
    vars: &Vec<SymbolId>,
    pending: &mut Vec<PendingEdge>,
    next: &mut BlockId,
    builder: &mut IRBuilder,
)
    requires
        lw_chain(relse_view(*c), env@, vars@, IfState { b: old(builder).state(), pending: pending_view(old(pending)@), next: *old(next) }) is Some,
    ensures
        lw_chain(relse_view(*c), env@, vars@, IfState { b: old(builder).state(), pending: pending_view(old(pending)@), next: *old(next) })
            == Some(IfState { b: final(builder).state(), pending: pending_view(final(pending)@), next: *final(next) }),
    decreases *c, 0nat,
{
    let cond = match &c.cond {
        Some(e) => Some(e),
        None => None,
    };
    lower_branch(cond, &c.body, env, vars, pending, next, builder);
    match &*c.els {
        Some(n) => {
            lower_chain(n, env, vars, pending, next, builder);
        },
        None => {
            if cond.is_some() {
                lower_empty_else(env, vars, pending, next, builder);
            }
        },
    }
}

proof fn lemma_lw_edges_prefix(b: BState, pending: Seq<(BlockId, Seq<VirtualRegister>)>, merge: BlockId, n: int)
    requires
        lw_edges(b, pending, merge, n) is Some,
    ensures
        forall|k: int| k <= n ==> #[trigger] lw_edges(b, pending, merge, k) is Some,
    decreases n,
{
    if n > 0 {
        lemma_lw_edges_prefix(b, pending, merge, n - 1);
    }
}

/// Joins the branches of an `if` chain (see `lw_merge`).
fn lower_merge(env: Env, vars: &Vec<SymbolId>, pending: Vec<PendingEdge>, builder: &mut IRBuilder) -> (r: Env)
    requires
        lw_merge(env@, vars@, old(builder).state(), pending_view(pending@)) is Some,
    ensures
        lw_merge(env@, vars@, old(builder).state(), pending_view(pending@)) == Some((final(builder).state(), r@)),
{
    if pending.len() == 0 {
        return env;
    }
    let ghost pv = pending_view(pending@);
    let merge = builder.init_block();
    let ghost b1 = builder.state();
    proof {
        lemma_lw_edges_prefix(b1, pv, merge, pv.len() as int);
    }
    let mut i: usize = 0;
    while i < pending.len()
        invariant
            0 <= i <= pending@.len(),
            pv == pending_view(pending@),
            forall|k: int| k <= pending@.len() ==> #[trigger] lw_edges(b1, pv, merge, k) is Some,
            lw_edges(b1, pv, merge, i as int) == Some(builder.state()),
        decreases pending@.len() - i,
    {
        assert(lw_edges(b1, pv, merge, i + 1) is Some);
        builder.switch_to(pending[i].from);
        let params = crate::ir::types::copy_regs(&pending[i].params);
        builder.terminate(Terminator::Branch { target: merge, params });
        i = i + 1;
    }
    builder.switch_to(merge);
    let params = fresh_values(builder, vars.len());
    builder.set_params(crate::ir::types::copy_regs(&params));
    env_of(vars, &params)
}

/// Lowers an `if` chain; the variables after it are the merge block's parameters.
fn lower_if(stmt: &ResolvedStatement, env: Env, builder: &mut IRBuilder) -> (r: Env)
    requires
        stmt is If,
        lw_stmt(rstmt_view(*stmt), env@, old(builder).state()) is Some,
    ensures
        lw_stmt(rstmt_view(*stmt), env@, old(builder).state()) == Some((final(builder).state(), Some(r@))),
    decreases *stmt, 0nat,
{
    match stmt {
        ResolvedStatement::If { cond, then, els } => {
            let vars = env_variables(&env);
            let mut pending: Vec<PendingEdge> = Vec::new();
            let mut next = builder.current();
            proof {
                assert(pending_view(pending@) =~= Seq::<(BlockId, Seq<VirtualRegister>)>::empty());
            }
            lower_branch(Some(cond), then, &env, &vars, &mut pending, &mut next, builder);
            match els {
                Some(c) => lower_chain(c, &env, &vars, &mut pending, &mut next, builder),
                None => lower_empty_else(&env, &vars, &mut pending, &mut next, builder),
            }
            lower_merge(env, &vars, pending, builder)
        },
        _ => {
            assert(false);
            env
        },
    }
}

/// The first part of a `while` (see `lw_while_head`): gives the condition block, the exit
/// block and the variables of the body.
fn lower_while_head(cond: &ResolvedExpression, env: &Env, vars: &Vec<SymbolId>, builder: &mut IRBuilder) -> (r: (BlockId, BlockId, Env))
    requires
        lw_while_head(rexpr_view(*cond), env@, vars@, old(builder).state()) is Some,
    ensures
        match lw_while_head(rexpr_view(*cond), env@, vars@, old(builder).state()) {
            Some((b, cb, _, db, be)) => b == final(builder).state() && cb == r.0 && db == r.1 && be == r.2@,
            None => false,
        },
{
    let cond_block = builder.init_block();
    let body_block = builder.init_block();
    let done_block = builder.init_block();
    let init_vars = env_values(env, vars);
    builder.terminate(Terminator::Branch { target: cond_block, params: init_vars });
    let cond_params = fresh_values(builder, vars.len());
    builder.switch_to(cond_block);
    builder.set_params(crate::ir::types::copy_regs(&cond_params));
    let cond_env = env_of(vars, &cond_params);
    let cond_v = lower_expr(cond, &cond_env, builder);
    builder.terminate(
        Terminator::ConditionalBranch {
            cond: cond_v,
            then_target: body_block,
            then_params: crate::ir::types::copy_regs(&cond_params),
            else_target: done_block,
            else_params: crate::ir::types::copy_regs(&cond_params),
        },
    );
    let body_params = fresh_values(builder, vars.len());
    builder.switch_to(body_block);
    builder.set_params(crate::ir::types::copy_regs(&body_params));
    let body_env = env_of(vars, &body_params);
    (cond_block, done_block, body_env)
}

/// The last part of a `while` (see `lw_while_tail`): gives the variables after the loop.
fn lower_while_tail(body_env: &Env, vars: &Vec<SymbolId>, cond_block: BlockId, done_block: BlockId, builder: &mut IRBuilder) -> (r: Env)
    requires
        lw_while_tail(body_env@, vars@, cond_block, done_block, old(builder).state()) is Some,
    ensures
        lw_while_tail(body_env@, vars@, cond_block, done_block, old(builder).state()) == Some((final(builder).state(), r@)),
{
    let updated = env_values(body_env, vars);
    builder.terminate(Terminator::Branch { target: cond_block, params: updated });
    let exit_params = fresh_values(builder, vars.len());
    builder.switch_to(done_block);
    builder.set_params(crate::ir::types::copy_regs(&exit_params));
    env_of(vars, &exit_params)
}

/// Lowers a `while` loop: condition block, body block and exit block, each taking one
/// parameter per variable.
fn lower_while(stmt: &ResolvedStatement, env: Env, builder: &mut IRBuilder) -> (r: Env)
    requires
        stmt is While,
        lw_stmt(rstmt_view(*stmt), env@, old(builder).state()) is Some,
    ensures
        lw_stmt(rstmt_view(*stmt), env@, old(builder).state()) == Some((final(builder).state(), Some(r@))),
    decreases *stmt, 0nat,
{
    match stmt {
        ResolvedStatement::While { cond, body } => {
            let vars = env_variables(&env);
            let (cond_block, done_block, body_env) = lower_while_head(cond, &env, &vars, builder);
            match lower_scope(body, body_env, builder) {
                Some(env2) => lower_while_tail(&env2, &vars, cond_block, done_block, builder),
                None => {
                    assert(false);
                    env
                },
            }
        },
        _ => {
            assert(false);
            env
        },
    }
}


proof fn lemma_lw_params_prefix(args: Seq<(SymbolId, crate::parser::Type)>, n: int, b: BState)
    requires
        lw_params(args, n, b) is Some,
    ensures
        forall|k: int| k <= n ==> #[trigger] lw_params(args, k, b) is Some,
    decreases n,
{
    if n > 0 {
        lemma_lw_params_prefix(args, n - 1, b);
    }
}

/// Lowers a function to blocks of SSA instructions.
fn lower_function(function: &ResolvedFunction) -> (r: TIRFunction)
    requires
        lw_function(rfunction_view(*function)) is Some,
    ensures
        lw_function(rfunction_view(*function)) == Some(tir_view(r)),
{
    let ghost fv = rfunction_view(*function);
    let mut builder = IRBuilder::new();
    let mut env: Env = Vec::new();
    let mut params: Vec<VirtualRegister> = Vec::new();
    proof {
        lemma_lw_params_prefix(fv.args, fv.args.len() as int, start_state());
    }
    let mut i: usize = 0;
    while i < function.args.len()
        invariant
            0 <= i <= function.args@.len(),
            fv == rfunction_view(*function),
            fv.args.len() == function.args@.len(),
            forall|k: int| k <= fv.args.len() ==> #[trigger] lw_params(fv.args, k, start_state()) is Some,
            lw_params(fv.args, i as int, start_state()) == Some((builder.state(), env@, params@)),
        decreases function.args@.len() - i,
    {
        assert(lw_params(fv.args, i + 1, start_state()) is Some);
        assert(fv.args[i as int].0 == function.args@[i as int].symbol);
        let v = builder.value();
        env_bind(&mut env, &function.args[i].symbol, v);
        params.push(v);
        i = i + 1;
    }
    builder.set_params(crate::ir::types::copy_regs(&params));
    let _ = lower_scope(&function.body, env, &mut builder);
    let mut blocks = builder.to_blocks();
    let ghost bs0 = blocks@;
    let mut j: usize = 0;
    while j < blocks.len()
        invariant
            0 <= j <= blocks@.len(),
            blocks@.len() == bs0.len(),
            forall|i: int| 0 <= i < j ==> #[trigger] block_view(blocks@[i]) == finish_block(block_view(bs0[i])),
            forall|i: int| j <= i < blocks@.len() ==> #[trigger] blocks@[i] == bs0[i],
        decreases blocks@.len() - j,
    {
        let is_void = match &blocks[j].terminator {
            Terminator::Void => true,
            _ => false,
        };
        if is_void {
            blocks[j].terminator = Terminator::Return(VirtualRegister(0));
        }
        proof {
            assert(block_view(blocks@[j as int]) =~= finish_block(block_view(bs0[j as int])));
        }
        j = j + 1;
    }
    proof {
        assert(blocks_view(blocks@) =~= blocks_view(bs0).map_values(|b: BlockV| finish_block(b)));
    }
    TIRFunction { name: function.name.clone(), params, blocks }
}

proof fn lemma_lw_functions_prefix(fs: Seq<RFunction>, n: int)
    requires
        lw_functions(fs, n) is Some,
    ensures
        forall|k: int| k <= n ==> #[trigger] lw_functions(fs, k) is Some,
    decreases n,
{
    if n > 0 {
        lemma_lw_functions_prefix(fs, n - 1);
    }
}

/// Lowers a resolved program to functions of SSA blocks: `main` first, then the others in
/// order. A block whose body is lowered without a terminator returns value 0.
pub fn lower_program(program: ResolvedProgram) -> (r: Vec<TIRFunction>)
    requires
        lw_program(rprogram_view(program)) is Some,
    ensures
        lw_program(rprogram_view(program)) == Some(r@.map_values(|f: TIRFunction| tir_view(f))),
        forall|k: int| 0 <= k < r@.len() ==> well_formed(tir_view(#[trigger] r@[k])) && cfg_wf(r@[k].blocks@)
            && well_connected(tir_view(r@[k])),
{
    let ghost pv = rprogram_view(program);
    let mut functions: Vec<TIRFunction> = Vec::new();
    match &program.main {
        Some(main) => {
            let f = lower_function(main);
            functions.push(f);
        },
        None => {},
    }
    let ghost head = functions@.map_values(|f: TIRFunction| tir_view(f));
    proof {
        assert(lw_program(pv) is Some);
        lemma_lw_functions_prefix(pv.functions, pv.functions.len() as int);
    }
    let mut i: usize = 0;
    while i < program.functions.len()
        invariant
            0 <= i <= program.functions@.len(),
            pv == rprogram_view(program),
            pv.functions.len() == program.functions@.len(),
            forall|q: int| 0 <= q < program.functions@.len() ==> #[trigger] pv.functions[q] == rfunction_view(program.functions@[q]),
            forall|k: int| k <= pv.functions.len() ==> #[trigger] lw_functions(pv.functions, k) is Some,
            lw_program(pv) == Some(head + lw_functions(pv.functions, pv.functions.len() as int).unwrap()),
            functions@.map_values(|f: TIRFunction| tir_view(f)) == head + lw_functions(pv.functions, i as int).unwrap(),
        decreases program.functions@.len() - i,
    {
        assert(lw_functions(pv.functions, i + 1) is Some);
        let f = lower_function(&program.functions[i]);
        let ghost before = functions@;
        functions.push(f);
        proof {
            assert(functions@.map_values(|f: TIRFunction| tir_view(f)) =~= before.map_values(|f: TIRFunction| tir_view(f)).push(tir_view(f)));
            assert(head + lw_functions(pv.functions, i + 1).unwrap() =~= (head + lw_functions(pv.functions, i as int).unwrap()).push(tir_view(f)));
        }
        i = i + 1;
    }
    proof {
        lemma_lowering_is_ssa(pv);
        assert forall|k: int| 0 <= k < functions@.len() implies well_formed(tir_view(#[trigger] functions@[k])) && cfg_wf(
            functions@[k].blocks@,
        ) && well_connected(tir_view(functions@[k])) by {
            assert(lw_program(pv).unwrap()[k] == tir_view(functions@[k]));
            vstd::std_specs::vec::axiom_spec_len(&functions@[k].blocks);
            assert(tir_view(functions@[k]).blocks.len() == functions@[k].blocks@.len());
            assert((#[trigger] lw_program(pv).unwrap()[k]).blocks.len() <= usize::MAX);
            lemma_lowered_cfg_wf(functions@[k]);
        }
    }
    functions
}

/// What source operator `op` computes on the values `l` and `r`: on integers, the sum,
/// difference or product when it lies within `usize`, and whether the two stand in the
/// relation a comparison names; on booleans, `&&` and `||`. Operands of the wrong kind, or an
/// arithmetic result outside `usize`, have no value.
pub open spec fn source_value(op: BinOp, l: Const, r: Const) -> Option<Const> {
    match (l, r) {
        (Const::Int(a), Const::Int(b)) => match op {
            BinOp::Add => if a + b <= usize::MAX { Some(Const::Int((a + b) as usize)) } else { None },
            BinOp::Sub => if a >= b { Some(Const::Int((a - b) as usize)) } else { None },
            BinOp::Mul => if a * b <= usize::MAX { Some(Const::Int((a * b) as usize)) } else { None },
            BinOp::Lt => Some(Const::Bool(a < b)),
            BinOp::Leq => Some(Const::Bool(a <= b)),
            BinOp::Gt => Some(Const::Bool(a > b)),
            BinOp::Geq => Some(Const::Bool(a >= b)),
            BinOp::Eq => Some(Const::Bool(a == b)),
            BinOp::Neq => Some(Const::Bool(a != b)),
            BinOp::And | BinOp::Or => None,
        },
        (Const::Bool(p), Const::Bool(q)) => match op {
            BinOp::And => Some(Const::Bool(p && q)),
            BinOp::Or => Some(Const::Bool(p || q)),
            _ => None,
        },
        _ => None,
    }
}

/// Lowering keeps the meaning of every binary operator: the IR operation it emits reads the
/// two operand values in order and, on any operand values for which the arithmetic stays
/// within `usize`, computes what the source operator computes.
pub proof fn lemma_lowered_operator_meaning(op: BinOp, x: VirtualRegister, y: VirtualRegister, l: Const, r: Const)
    ensures
        binary_operands(binop_operation(op, x, y)) == Some((x, y)),
        in_range(binop_operation(op, x, y), l, r) ==> binop_value(binop_operation(op, x, y), l, r) == source_value(op, l, r),
{
}

/// Distinct source operators are lowered to distinct IR operations.
pub proof fn lemma_lowered_operators_distinct(op1: BinOp, op2: BinOp, x: VirtualRegister, y: VirtualRegister)
    requires
        op1 != op2,
    ensures
        binop_operation(op1, x, y) != binop_operation(op2, x, y),
{
}

/// Lowering `a op b` for integer literals `a` and `b` appends three instructions to the current
/// block, in order: the next fresh value `n` loads `a`, `n + 1` loads `b`, and `n + 2` applies
/// the IR operation of `op` to `n` then `n + 1`; its value is the result. That operation
/// computes what `op` computes on `a` and `b`, where the arithmetic stays within `usize`.
pub proof fn lemma_lowered_binary_literals(op: BinOp, a: usize, b: usize, env: LEnv, st: BState)
    requires
        0 <= st.current < st.blocks.len(),
        st.next_value + 3 < usize::MAX,
    ensures
        ({
            let n = st.next_value as usize;
            let o = binop_operation(op, VirtualRegister(n), VirtualRegister((n + 1) as usize));
            let e = RExpr::Binary(
                Box::new(RExpr::Term(ResolvedTermV::IntLit(a))),
                Box::new(RExpr::Term(ResolvedTermV::IntLit(b))),
                op,
            );
            &&& lw_expr(e, env, st) is Some
            &&& lw_expr(e, env, st).unwrap().1 == VirtualRegister((n + 2) as usize)
            &&& lw_expr(e, env, st).unwrap().0.current == st.current
            &&& lw_expr(e, env, st).unwrap().0.blocks[st.current].instrs == st.blocks[st.current].instrs + seq![
                InstrV { dest: VirtualRegister(n), op: OpV::Plain(Operation::ConstInt(a)) },
                InstrV { dest: VirtualRegister((n + 1) as usize), op: OpV::Plain(Operation::ConstInt(b)) },
                InstrV { dest: VirtualRegister((n + 2) as usize), op: OpV::Plain(o) },
            ]
            &&& binary_operands(o) == Some((VirtualRegister(n), VirtualRegister((n + 1) as usize)))
            &&& (in_range(o, Const::Int(a), Const::Int(b)) ==> binop_value(o, Const::Int(a), Const::Int(b))
                == source_value(op, Const::Int(a), Const::Int(b)))
        }),
{
    let n = st.next_value as usize;
    let ta = RExpr::Term(ResolvedTermV::IntLit(a));
    let tb = RExpr::Term(ResolvedTermV::IntLit(b));
    let (b1, va) = b_emit(st, OpV::Plain(Operation::ConstInt(a))).unwrap();
    assert(lw_expr(ta, env, st) == Some((b1, va)));
    let (b2, vb) = b_emit(b1, OpV::Plain(Operation::ConstInt(b))).unwrap();
    assert(lw_expr(tb, env, b1) == Some((b2, vb)));
    let o = binop_operation(op, va, vb);
    let (b3, vc) = b_emit(b2, OpV::Plain(o)).unwrap();
    assert(va == VirtualRegister(n));
    assert(vb == VirtualRegister((n + 1) as usize));
    assert(vc == VirtualRegister((n + 2) as usize));
    assert(b3.blocks[st.current].instrs =~= st.blocks[st.current].instrs + seq![
        InstrV { dest: VirtualRegister(n), op: OpV::Plain(Operation::ConstInt(a)) },
        InstrV { dest: VirtualRegister((n + 1) as usize), op: OpV::Plain(Operation::ConstInt(b)) },
        InstrV { dest: VirtualRegister((n + 2) as usize), op: OpV::Plain(o) },
    ]);
    lemma_lowered_operator_meaning(op, va, vb, Const::Int(a), Const::Int(b));
}

} // verus!
