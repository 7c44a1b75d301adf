use vstd::prelude::*;
use vstd::string::StringExecFns;

use crate::analyze::{Analyzer, analyze, assoc, lemma_assoc_absent, lemma_assoc_found, lemma_assoc_push, lemma_exprs_view, lemma_stmts_view};
use crate::assembly::{Arg64, BinArgs, InstrV, Instruction, MemRef, MovArgs, Reg, decimal, decimal_string};
use crate::parser::{
    BinOp, ElseClause, Expression, ExpressionVariant, Function, Identifier, Program, SElse, SExpr, SFunction,
    SProgram, SStmt, Statement, StatementVariant, Term, binop_yields_bool, else_view, expr_view, exprs_view,
    function_view, program_view, stmt_view, stmts_view,
};

verus! {

/// Where a variable lives: at an offset below the frame pointer, or in a register.
#[derive(Debug, Clone, Copy, PartialEq, Eq, Structural)]
pub enum VariableLocation {
    Offset(usize),
    Register(Reg),
}

/// Variables in scope with their locations, innermost scope last.
pub type Locations = Seq<Map<Seq<char>, VariableLocation>>;

/// The state of the direct compiler between statements.
#[verifier::ext_equal]
pub struct CState {
    pub ids: Locations,
    /// The frame offset of the next local variable.
    pub stack: usize,
    /// The number used for the next generated label.
    pub seq: usize,
}

/// The location of `name` in the innermost scope that holds it.
pub open spec fn find_loc(ids: Locations, name: Seq<char>) -> Option<VariableLocation>
    decreases ids.len(),
{
    if ids.len() == 0 {
        None
    } else if ids.last().contains_key(name) {
        Some(ids.last()[name])
    } else {
        find_loc(ids.drop_last(), name)
    }
}

/// A label: `prefix` followed by the decimal digits of `n`.
pub open spec fn label_text(prefix: Seq<char>, n: usize) -> Seq<char> {
    prefix + decimal(n as nat)
}

/// The registers that carry the first four call arguments.
pub open spec fn arg_reg(k: int) -> Reg {
    if k == 0 { Reg::Rbx } else if k == 1 { Reg::Rcx } else if k == 2 { Reg::Rdx } else { Reg::Rsi }
}

/// Loads a term into `rax`; `None` where the compiler panics (an unknown variable).
pub open spec fn compile_term(ids: Locations, t: Term) -> Option<Seq<InstrV>> {
    match t {
        Term::IntLit(v) => Some(seq![InstrV::Mov(MovArgs::ToReg(Reg::Rax, Arg64::Unsigned(v)))]),
        Term::Bool(b) => Some(seq![InstrV::Mov(MovArgs::ToReg(Reg::Rax, Arg64::Unsigned(if b { 1 } else { 0 })))]),
        Term::Identifier(name) => match find_loc(ids, name@) {
            Some(VariableLocation::Offset(o)) => Some(seq![InstrV::Mov(MovArgs::ToReg(Reg::Rax, Arg64::Mem(MemRef { reg: Reg::Rbp, offset: o })))]),
            Some(VariableLocation::Register(r)) => Some(seq![InstrV::Mov(MovArgs::ToReg(Reg::Rax, Arg64::Reg(r)))]),
            None => None,
        },
    }
}

/// The instructions computing `r1 op r2` (comparisons only set the flags).
pub open spec fn bin_op_instrs(op: BinOp, r1: Reg, r2: Reg) -> Seq<InstrV> {
    match op {
        BinOp::Add => seq![InstrV::Add(BinArgs::ToReg(r1, Arg64::Reg(r2)))],
        BinOp::Sub => seq![InstrV::Sub(BinArgs::ToReg(r1, Arg64::Reg(r2)))],
        BinOp::Mul => seq![InstrV::Mul(BinArgs::ToReg(r1, Arg64::Reg(r2)))],
        BinOp::And => seq![InstrV::And(BinArgs::ToReg(r1, Arg64::Reg(r2))), InstrV::Cmp(BinArgs::ToReg(r1, Arg64::Unsigned(1)))],
        BinOp::Or => seq![InstrV::Or(BinArgs::ToReg(r1, Arg64::Reg(r2))), InstrV::Cmp(BinArgs::ToReg(r1, Arg64::Unsigned(1)))],
        _ => seq![InstrV::Cmp(BinArgs::ToReg(r1, Arg64::Reg(r2)))],
    }
}

/// The jump to `label` taken when comparison `op` fails.
pub open spec fn fail_jump(op: BinOp, label: Seq<char>) -> InstrV {
    match op {
        BinOp::Eq => InstrV::Jne(label),
        BinOp::Neq => InstrV::Je(label),
        BinOp::Gt => InstrV::Jle(label),
        BinOp::Geq => InstrV::Jl(label),
        BinOp::Lt => InstrV::Jge(label),
        _ => InstrV::Jg(label),
    }
}

/// The jump to `label` when a condition computed by operator `op` (or by something other than
/// an operator) is false.
pub open spec fn condition_check(op: Option<BinOp>, label: Seq<char>) -> Seq<InstrV> {
    match op {
        Some(o) => if o == BinOp::And || o == BinOp::Or {
            seq![InstrV::Jne(label)]
        } else if binop_yields_bool(o) {
            seq![fail_jump(o, label)]
        } else {
            seq![InstrV::Cmp(BinArgs::ToReg(Reg::Rax, Arg64::Unsigned(0))), InstrV::Je(label)]
        },
        None => seq![InstrV::Cmp(BinArgs::ToReg(Reg::Rax, Arg64::Unsigned(0))), InstrV::Je(label)],
    }
}

/// The operator of a binary expression.
pub open spec fn top_op(e: SExpr) -> Option<BinOp> {
    match e {
        SExpr::Binary(_, _, op) => Some(op),
        _ => None,
    }
}

/// Pushes the value of `e`; a comparison instead jumps to `label` when false. `None` where the
/// compiler panics: an unknown variable, a comparison without a label, a call with more than
/// four arguments.
pub open spec fn compile_expr(ids: Locations, e: SExpr, label: Option<Seq<char>>) -> Option<Seq<InstrV>>
    decreases e, 0nat,
{
    match e {
        SExpr::Term(t) => match compile_term(ids, t) {
            Some(is) => Some(is.push(InstrV::Push(Reg::Rax))),
            None => None,
        },
        SExpr::Binary(l, r, op) => match (compile_expr(ids, *l, label), compile_expr(ids, *r, label)) {
            (Some(a), Some(b)) => {
                let core = a + b + seq![InstrV::Pop(Reg::Rbx), InstrV::Pop(Reg::Rax)] + bin_op_instrs(op, Reg::Rax, Reg::Rbx);
                if !binop_yields_bool(op) {
                    Some(core.push(InstrV::Push(Reg::Rax)))
                } else {
                    match label {
                        Some(l) => Some(core + condition_check(Some(op), l)),
                        None => None,
                    }
                }
            },
            _ => None,
        },
        SExpr::Call(name, args) => compile_call(ids, name, args),
    }
}

/// Evaluates the arguments into their registers and calls `name`.
pub open spec fn compile_call(ids: Locations, name: Identifier, args: Seq<SExpr>) -> Option<Seq<InstrV>>
    decreases args, 5nat,
{
    if args.len() > 4 {
        None
    } else {
        match compile_args(ids, args, 0) {
            Some(is) => Some(is.push(InstrV::Call(name.name@))),
            None => None,
        }
    }
}

/// The argument moves for `args[k..]`.
pub open spec fn compile_args(ids: Locations, args: Seq<SExpr>, k: int) -> Option<Seq<InstrV>>
    decreases args, 4 - k,
{
    if k < 0 || k >= args.len() || k >= 4 {
        Some(Seq::empty())
    } else {
        match (compile_expr(ids, args[k], None), compile_args(ids, args, k + 1)) {
            (Some(a), Some(rest)) => Some(a.push(InstrV::Pop(arg_reg(k))) + rest),
            _ => None,
        }
    }
}

/// The emitted code followed by that of the rest, if the rest compiles.
pub open spec fn then_emit(code: Seq<InstrV>, rest: Option<(CState, Seq<InstrV>)>) -> Option<(CState, Seq<InstrV>)> {
    match rest {
        Some((st, more)) => Some((st, code + more)),
        None => None,
    }
}

/// `ids` with `name` at `loc` in the innermost scope.
pub open spec fn bind(ids: Locations, name: Seq<char>, loc: VariableLocation) -> Locations {
    ids.update(ids.len() - 1, ids.last().insert(name, loc))
}

/// The value a `let` stores and the scopes after it, for a term initialiser; `None` where the
/// compiler panics (no scope, or a variable not in the innermost scope).
pub open spec fn let_term(st: CState, name: Seq<char>, t: Term) -> Option<(Locations, Arg64)> {
    if st.ids.len() == 0 {
        None
    } else {
        let here = VariableLocation::Offset(st.stack);
        match t {
            Term::Identifier(src) => if st.ids.last().contains_key(src@) {
                match st.ids.last()[src@] {
                    VariableLocation::Offset(o) => Some((bind(st.ids, name, here), Arg64::Mem(MemRef { reg: Reg::Rbp, offset: o }))),
                    VariableLocation::Register(r) => Some((bind(st.ids, name, here), Arg64::Reg(r))),
                }
            } else {
                None
            },
            Term::IntLit(v) => Some((bind(st.ids, name, here), Arg64::Unsigned(v))),
            Term::Bool(b) => Some((bind(st.ids, name, here), Arg64::Unsigned(if b { 1 } else { 0 }))),
        }
    }
}

/// `exit` with the value of `e`.
pub open spec fn compile_exit(st: CState, e: SExpr) -> Option<(CState, Seq<InstrV>)> {
    let ids = st.ids;
    let value: Option<Seq<InstrV>> = match e {
        SExpr::Term(t) => match compile_term(ids, t) {
            Some(is) => Some(is.push(InstrV::Mov(MovArgs::ToReg(Reg::Rdi, Arg64::Reg(Reg::Rax))))),
            None => None,
        },
        SExpr::Binary(l, r, op) => match (compile_expr(ids, *l, None), compile_expr(ids, *r, None)) {
            (Some(a), Some(b)) => Some(a + b + seq![InstrV::Pop(Reg::Rax), InstrV::Pop(Reg::Rdi)] + bin_op_instrs(op, Reg::Rdi, Reg::Rax)),
            _ => None,
        },
        SExpr::Call(name, args) => compile_call(ids, name, args),
    };
    match value {
        Some(is) => Some((st, is + seq![InstrV::Mov(MovArgs::ToReg(Reg::Rax, Arg64::Unsigned(60))), InstrV::Syscall])),
        None => None,
    }
}

/// The scopes after binding a `let` variable, the code computing its value, and the operand
/// holding the value.
pub open spec fn let_value(st: CState, id: Identifier, e: SExpr) -> Option<(Locations, Seq<InstrV>, Arg64)> {
    let ids = st.ids;
    match e {
        SExpr::Term(t) => match let_term(st, id.name@, t) {
            Some((ids2, arg)) => Some((ids2, Seq::empty(), arg)),
            None => None,
        },
        SExpr::Binary(l, r, op) => match (compile_expr(ids, *l, None), compile_expr(ids, *r, None)) {
            (Some(a), Some(b)) => if ids.len() == 0 {
                None
            } else {
                Some((bind(ids, id.name@, VariableLocation::Offset(st.stack)),
                    a + b + seq![InstrV::Pop(Reg::Rbx), InstrV::Pop(Reg::Rax)] + bin_op_instrs(op, Reg::Rax, Reg::Rbx),
                    Arg64::Reg(Reg::Rax)))
            },
            _ => None,
        },
        SExpr::Call(name, args) => match compile_call(ids, name, args) {
            Some(is) => if ids.len() == 0 {
                None
            } else {
                Some((bind(ids, id.name@, VariableLocation::Offset(st.stack)), is, Arg64::Reg(Reg::Rax)))
            },
            None => None,
        },
    }
}

/// `let id = e`: the value goes to the next stack slot.
pub open spec fn compile_let(st: CState, id: Identifier, e: SExpr) -> Option<(CState, Seq<InstrV>)> {
    match let_value(st, id, e) {
        Some((ids2, is, arg)) => if st.stack + 8 > usize::MAX {
            None
        } else {
            Some((CState { ids: ids2, stack: (st.stack + 8) as usize, seq: st.seq },
                is + seq![InstrV::Mov(MovArgs::ToReg(Reg::Rax, arg)),
                    InstrV::Mov(MovArgs::ToMem(MemRef { reg: Reg::Rbp, offset: st.stack }, Reg::Rax))]))
        },
        None => None,
    }
}

/// `id = e` for a variable on the stack.
pub open spec fn compile_assign(st: CState, id: Identifier, e: SExpr) -> Option<(CState, Seq<InstrV>)> {
    match compile_expr(st.ids, e, None) {
        Some(ce) => match find_loc(st.ids, id.name@) {
            Some(VariableLocation::Offset(o)) => Some((st, ce + seq![InstrV::Pop(Reg::Rax),
                InstrV::Mov(MovArgs::ToMem(MemRef { reg: Reg::Rbp, offset: o }, Reg::Rax))])),
            _ => None,
        },
        None => None,
    }
}

/// `return e`.
pub open spec fn compile_return(st: CState, e: SExpr) -> Option<(CState, Seq<InstrV>)> {
    match compile_expr(st.ids, e, None) {
        Some(ce) => Some((st, ce + seq![InstrV::Pop(Reg::Rax), InstrV::Pop(Reg::Rbp), InstrV::Ret])),
        None => None,
    }
}

/// Compiles a statement; `None` where the compiler panics.
pub open spec fn compile_stmt(st: CState, s: SStmt) -> Option<(CState, Seq<InstrV>)>
    decreases s, 3nat, 0nat,
{
    match s {
        SStmt::Exit(e) => compile_exit(st, e),
        SStmt::Let(id, e) => compile_let(st, id, e),
        SStmt::If(_, _, _) => compile_if(st, s),
        SStmt::While(_, _) => compile_while(st, s),
        SStmt::Assign(id, e) => compile_assign(st, id, e),
        SStmt::Call(name, args) => match compile_call(st.ids, name, args) {
            Some(is) => Some((st, is)),
            None => None,
        },
        SStmt::Return(e) => compile_return(st, e),
    }
}

/// Compiles the `while` statement `s`.
pub open spec fn compile_while(st: CState, s: SStmt) -> Option<(CState, Seq<InstrV>)>
    decreases s, 2nat, 0nat,
{
    match s {
        SStmt::While(c, body) => if st.seq + 2 > usize::MAX {
            None
        } else {
            let cond_label = label_text(seq!['_', 'w', 'h', 'i', 'l', 'e', '_', 'c', 'o', 'n', 'd'], st.seq);
            let done_label = label_text(seq!['_', 'w', 'h', 'i', 'l', 'e', '_', 'd', 'o', 'n', 'e'], (st.seq + 1) as usize);
            let st1 = CState { ids: st.ids, stack: st.stack, seq: (st.seq + 2) as usize };
            let op = top_op(c);
            match compile_expr(st.ids, c, Some(done_label)) {
                Some(ce) => {
                    let check = if op is None || !binop_yields_bool(op.unwrap()) { condition_check(op, done_label) } else { Seq::empty() };
                    match compile_scope(st1, body, true) {
                        Some((st2, b)) => Some((st2, seq![InstrV::Label(cond_label)] + ce + check + b
                            + seq![InstrV::Jmp(cond_label), InstrV::Label(done_label)])),
                        None => None,
                    }
                },
                None => None,
            }
        },
        _ => None,
    }
}

/// Evaluates condition `c`, jumping to `fail` when it is false.
pub open spec fn cond_code(ids: Locations, c: SExpr, fail: Seq<char>) -> Option<Seq<InstrV>> {
    let op = top_op(c);
    match compile_expr(ids, c, Some(fail)) {
        Some(ce) => Some(ce + if op is None || !binop_yields_bool(op.unwrap()) { condition_check(op, fail) } else { Seq::empty() }),
        None => None,
    }
}

/// The code of a conditional with labels `fail` and `done`, condition code `pre`, then-branch
/// code `t` and else-branch code `e` (if there is an else branch).
pub open spec fn if_code(pre: Seq<InstrV>, t: Seq<InstrV>, e: Option<Seq<InstrV>>, fail: Seq<char>, done: Seq<char>) -> Seq<InstrV> {
    match e {
        Some(e) => pre + t + seq![InstrV::Jmp(done), InstrV::Label(fail)] + e + seq![InstrV::Label(done)],
        None => pre + t + seq![InstrV::Label(fail), InstrV::Label(done)],
    }
}

/// Compiles the `if` statement `s`; `None` where the compiler panics.
pub open spec fn compile_if(st: CState, s: SStmt) -> Option<(CState, Seq<InstrV>)>
    decreases s, 2nat, 0nat,
{
    match s {
        SStmt::If(c, then, els) => if st.seq + 2 > usize::MAX {
            None
        } else {
            let fail = label_text(seq!['_', 'i', 'f'], st.seq);
            let done = label_text(seq!['_', 'i', 'f', '_', 'd', 'o', 'n', 'e'], (st.seq + 1) as usize);
            let st1 = CState { ids: st.ids, stack: st.stack, seq: (st.seq + 2) as usize };
            match cond_code(st.ids, c, fail) {
                Some(pre) => match compile_scope(st1, then, true) {
                    Some((st2, t)) => match els {
                        Some(clause) => match compile_else(st2, clause) {
                            Some((st3, e)) => Some((st3, if_code(pre, t, Some(e), fail, done))),
                            None => None,
                        },
                        None => Some((st2, if_code(pre, t, None, fail, done))),
                    },
                    None => None,
                },
                None => None,
            }
        },
        _ => None,
    }
}

/// Compiles an else clause: an `else if` as a further conditional, a final `else` as a scope.
pub open spec fn compile_else(st: CState, c: SElse) -> Option<(CState, Seq<InstrV>)>
    decreases c, 2nat, 0nat,
{
    match c.cond {
        Some(cond) => if st.seq + 2 > usize::MAX {
            None
        } else {
            let fail = label_text(seq!['_', 'i', 'f'], st.seq);
            let done = label_text(seq!['_', 'i', 'f', '_', 'd', 'o', 'n', 'e'], (st.seq + 1) as usize);
            let st1 = CState { ids: st.ids, stack: st.stack, seq: (st.seq + 2) as usize };
            match cond_code(st.ids, cond, fail) {
                Some(pre) => match compile_scope(st1, c.body, true) {
                    Some((st2, t)) => match c.els {
                        Some(next) => match compile_else(st2, *next) {
                            Some((st3, e)) => Some((st3, if_code(pre, t, Some(e), fail, done))),
                            None => None,
                        },
                        None => Some((st2, if_code(pre, t, None, fail, done))),
                    },
                    None => None,
                },
                None => None,
            }
        },
        None => compile_scope(st, c.body, true),
    }
}

/// Compiles statements in a new scope (when `new_scope`), closing it afterwards.
pub open spec fn compile_scope(st: CState, ss: Seq<SStmt>, new_scope: bool) -> Option<(CState, Seq<InstrV>)>
    decreases ss, 1nat, 0nat,
{
    let st0 = if new_scope { CState { ids: st.ids.push(Map::empty()), stack: st.stack, seq: st.seq } } else { st };
    match compile_stmts(st0, ss, 0) {
        Some((st1, code)) => Some((
            if new_scope { CState { ids: if st1.ids.len() > 0 { st1.ids.drop_last() } else { st1.ids }, stack: st1.stack, seq: st1.seq } } else { st1 },
            code,
        )),
        None => None,
    }
}

/// Compiles `ss[k..]` in order.
pub open spec fn compile_stmts(st: CState, ss: Seq<SStmt>, k: int) -> Option<(CState, Seq<InstrV>)>
    decreases ss, 0nat, ss.len() - k,
{
    if k < 0 || k >= ss.len() {
        Some((st, Seq::empty()))
    } else {
        match compile_stmt(st, ss[k]) {
            Some((st1, code)) => then_emit(code, compile_stmts(st1, ss, k + 1)),
            None => None,
        }
    }
}

/// The number of `let` statements in `ss`, nested blocks included: the local variables a
/// function reserves stack slots for.
pub open spec fn count_vars(ss: Seq<SStmt>) -> nat
    decreases ss, 1nat,
{
    if ss.len() == 0 {
        0
    } else {
        count_vars(ss.drop_last()) + count_stmt(ss.last())
    }
}

pub open spec fn count_stmt(s: SStmt) -> nat
    decreases s, 0nat,
{
    match s {
        SStmt::Let(_, _) => 1,
        SStmt::If(_, then, els) => count_vars(then) + match els {
            Some(c) => count_else(c),
            None => 0,
        },
        SStmt::While(_, body) => count_vars(body),
        _ => 0,
    }
}

pub open spec fn count_else(c: SElse) -> nat
    decreases c, 0nat,
{
    count_vars(c.body) + match c.els {
        Some(n) => count_else(*n),
        None => 0,
    }
}

/// The scope of a function's first four parameters, in their argument registers.
pub open spec fn arg_locations(args: Seq<crate::parser::Argument>, n: int) -> Map<Seq<char>, VariableLocation>
    decreases n,
{
    if n <= 0 {
        Map::empty()
    } else {
        arg_locations(args, n - 1).insert(args[n - 1].name.name@, VariableLocation::Register(arg_reg(n - 1)))
    }
}

/// The smaller of `a` and `b`.
pub open spec fn min_int(a: int, b: int) -> int {
    if a < b { a } else { b }
}

/// Compiles a function: label, frame set-up with room for its locals, body, frame tear-down.
pub open spec fn compile_function(st: CState, f: SFunction) -> Option<(CState, Seq<InstrV>)> {
    let ids1 = st.ids.push(arg_locations(f.args, min_int(f.args.len() as int, 4)));
    let nvars = count_vars(f.body);
    if nvars * 8 > usize::MAX {
        None
    } else {
        let head = seq![
            InstrV::Label(f.name.name@),
            InstrV::Push(Reg::Rbp),
            InstrV::Mov(MovArgs::ToReg(Reg::Rbp, Arg64::Reg(Reg::Rsp))),
            InstrV::Sub(BinArgs::ToReg(Reg::Rsp, Arg64::Unsigned((nvars * 8) as usize))),
        ];
        match compile_scope(CState { ids: ids1, stack: st.stack, seq: st.seq }, f.body, false) {
            Some((st2, body)) => Some((
                CState { ids: if st2.ids.len() > 0 { st2.ids.drop_last() } else { st2.ids }, stack: 8, seq: st2.seq },
                head + body + seq![
                    InstrV::Mov(MovArgs::ToReg(Reg::Rsp, Arg64::Reg(Reg::Rbp))),
                    InstrV::Pop(Reg::Rbp),
                    InstrV::Ret,
                ],
            )),
            None => None,
        }
    }
}

/// Compiles `fs[k..]` in order.
pub open spec fn compile_functions(st: CState, fs: Seq<SFunction>, k: int) -> Option<(CState, Seq<InstrV>)>
    decreases fs.len() - k,
{
    if k < 0 || k >= fs.len() {
        Some((st, Seq::empty()))
    } else {
        match compile_function(st, fs[k]) {
            Some((st1, code)) => then_emit(code, compile_functions(st1, fs, k + 1)),
            None => None,
        }
    }
}

/// The code for program `p` after a compiler in state `st`: `main`, then the other functions.
/// `None` where the compiler panics: a program that semantic analysis rejects, a program without
/// `main`, or a construct the compiler cannot handle.
pub open spec fn compile_program(st: CState, p: SProgram) -> Option<Seq<InstrV>> {
    if analyze(p) is Err {
        None
    } else {
        match p.main {
            Some(m) => match compile_function(st, m) {
                Some((st1, code)) => match compile_functions(st1, p.functions, 0) {
                    Some((_, rest)) => Some(code + rest),
                    None => None,
                },
                None => None,
            },
            None => None,
        }
    }
}

/// The entry point: set up a frame and call `main`.
pub open spec fn preamble() -> Seq<InstrV> {
    seq![
        InstrV::Directive(seq!['g', 'l', 'o', 'b', 'a', 'l'], seq!['_', 's', 't', 'a', 'r', 't']),
        InstrV::Label(seq!['_', 's', 't', 'a', 'r', 't']),
        InstrV::Push(Reg::Rbp),
        InstrV::Mov(MovArgs::ToReg(Reg::Rbp, Arg64::Reg(Reg::Rsp))),
        InstrV::Call(seq!['m', 'a', 'i', 'n']),
    ]
}

/// A scope as a map from names to locations.
pub open spec fn loc_map(es: Seq<(String, VariableLocation)>) -> Map<Seq<char>, VariableLocation> {
    assoc(es.map_values(|e: (String, VariableLocation)| (e.0@, e.1)))
}

/// The scopes of the compiler as maps.
pub open spec fn locs_of(ids: Seq<Vec<(String, VariableLocation)>>) -> Locations {
    ids.map_values(|sc: Vec<(String, VariableLocation)>| loc_map(sc@))
}

/// The view of an optional label.
pub open spec fn label_view(l: Option<String>) -> Option<Seq<char>> {
    match l {
        Some(s) => Some(s@),
        None => None,
    }
}

/// The location of `name` in scope `sc`, later entries winning.
fn scope_loc(sc: &Vec<(String, VariableLocation)>, name: &String) -> (r: Option<VariableLocation>)
    ensures
        r == (if loc_map(sc@).contains_key(name@) { Some(loc_map(sc@)[name@]) } else { None::<VariableLocation> }),
{
    let ghost es = sc@.map_values(|e: (String, VariableLocation)| (e.0@, e.1));
    let mut i: usize = sc.len();
    while i > 0
        invariant
            0 <= i <= sc@.len(),
            es == sc@.map_values(|e: (String, VariableLocation)| (e.0@, e.1)),
            forall|j: int| i <= j < sc@.len() ==> es[j].0 != name@,
        decreases i,
    {
        i = i - 1;
        if sc[i].0 == *name {
            proof {
                lemma_assoc_found(es, i as int, name@);
            }
            return Some(sc[i].1);
        }
    }
    proof {
        lemma_assoc_absent(es, name@);
    }
    None
}

/// The location of `ident` in the innermost scope that holds it.
fn find_identifier(identifiers: &Vec<Vec<(String, VariableLocation)>>, ident: &String) -> (r: Option<VariableLocation>)
    ensures
        r == find_loc(locs_of(identifiers@), ident@),
{
    let ghost sc = locs_of(identifiers@);
    let mut i: usize = identifiers.len();
    proof {
        assert(sc.take(i as int) == sc);
    }
    while i > 0
        invariant
            0 <= i <= identifiers@.len(),
            sc == locs_of(identifiers@),
            sc.len() == identifiers@.len(),
            find_loc(sc, ident@) == find_loc(sc.take(i as int), ident@),
        decreases i,
    {
        proof {
            assert(sc.take(i as int).last() == loc_map(identifiers@[i - 1]@));
            assert(sc.take(i as int).drop_last() == sc.take(i - 1));
        }
        match scope_loc(&identifiers[i - 1], ident) {
            Some(l) => {
                return Some(l);
            },
            None => {},
        }
        i = i - 1;
    }
    None
}

/// Binds `name` to `loc` in the innermost scope.
fn bind_name(identifiers: &mut Vec<Vec<(String, VariableLocation)>>, name: String, loc: VariableLocation)
    requires
        old(identifiers)@.len() > 0,
    ensures
        final(identifiers)@.len() == old(identifiers)@.len(),
        locs_of(final(identifiers)@) == bind(locs_of(old(identifiers)@), name@, loc),
{
    let ghost s0 = identifiers@;
    let mut scope = identifiers.pop().unwrap();
    let ghost sc0 = scope@;
    scope.push((name, loc));
    identifiers.push(scope);
    proof {
        let f = |e: (String, VariableLocation)| (e.0@, e.1);
        assert(sc0.push((name, loc)).map_values(f) =~= sc0.map_values(f).push(f((name, loc))));
        lemma_assoc_push(sc0.map_values(f), f((name, loc)));
        assert(locs_of(identifiers@) =~= bind(locs_of(s0), name@, loc));
    }
}

/// `prefix` followed by the decimal digits of `n`.
fn make_label(prefix: &str, n: usize) -> (s: String)
    ensures
        s@ == prefix@ + decimal(n as nat),
{
    let mut s = String::from_str(prefix);
    let d = decimal_string(n);
    s.append(d.as_str());
    s
}

/// The jump to `label` taken when comparison `op` fails.
fn to_jmp_instr(op: BinOp, label: String) -> (i: Instruction)
    ensures
        i@ == fail_jump(op, label@),
{
    match op {
        BinOp::Eq => Instruction::Jne(label),
        BinOp::Neq => Instruction::Je(label),
        BinOp::Gt => Instruction::Jle(label),
        BinOp::Geq => Instruction::Jl(label),
        BinOp::Lt => Instruction::Jge(label),
        _ => Instruction::Jg(label),
    }
}

/// The operator of a binary expression.
fn extract_binary_op(expr: &Expression) -> (r: Option<BinOp>)
    ensures
        r == top_op(expr_view(*expr)),
{
    match &expr.variant {
        ExpressionVariant::BinaryExpr(_, _, op) => Some(*op),
        _ => None,
    }
}

/// The instructions computing `reg1 op reg2`.
fn bin_op_to_instr(op: BinOp, reg1: Reg, reg2: Reg) -> (r: Vec<Instruction>)
    ensures
        r@.map_values(|i: Instruction| i@) == bin_op_instrs(op, reg1, reg2),
{
    let r = match op {
        BinOp::Add => vec![Instruction::Add(BinArgs::ToReg(reg1, Arg64::Reg(reg2)))],
        BinOp::Sub => vec![Instruction::Sub(BinArgs::ToReg(reg1, Arg64::Reg(reg2)))],
        BinOp::Mul => vec![Instruction::Mul(BinArgs::ToReg(reg1, Arg64::Reg(reg2)))],
        BinOp::Eq | BinOp::Gt | BinOp::Geq | BinOp::Lt | BinOp::Leq | BinOp::Neq => {
            vec![Instruction::Cmp(BinArgs::ToReg(reg1, Arg64::Reg(reg2)))]
        },
        BinOp::And => vec![
            Instruction::And(BinArgs::ToReg(reg1, Arg64::Reg(reg2))),
            Instruction::Cmp(BinArgs::ToReg(reg1, Arg64::Unsigned(1))),
        ],
        BinOp::Or => vec![
            Instruction::Or(BinArgs::ToReg(reg1, Arg64::Reg(reg2))),
            Instruction::Cmp(BinArgs::ToReg(reg1, Arg64::Unsigned(1))),
        ],
    };
    proof {
        assert(r@.map_values(|i: Instruction| i@) =~= bin_op_instrs(op, reg1, reg2));
    }
    r
}

/// A compiler from the syntax tree directly to assembly, keeping every variable on the stack.
pub struct Compiler {
    program: Program,
    instructions: Vec<Instruction>,
    stack_offset: usize,
    seq_no: usize,
}

impl Compiler {
    /// The code emitted so far.
    pub closed spec fn emitted(&self) -> Seq<InstrV> {
        self.instructions@.map_values(|i: Instruction| i@)
    }

    /// The program being compiled.
    pub closed spec fn program(&self) -> Program {
        self.program
    }

    /// The frame offset of the next local and the number of the next label.
    pub closed spec fn counters(&self) -> (usize, usize) {
        (self.stack_offset, self.seq_no)
    }

    fn emit(&mut self, i: Instruction)
        ensures
            final(self).program == old(self).program,
            final(self).stack_offset == old(self).stack_offset,
            final(self).seq_no == old(self).seq_no,
            final(self).emitted() == old(self).emitted().push(i@),
    {
        let ghost v0 = self.instructions@;
        self.instructions.push(i);
        proof {
            assert(self.instructions@.map_values(|x: Instruction| x@) =~= v0.map_values(|x: Instruction| x@).push(i@));
        }
    }

    fn emit_all(&mut self, is: Vec<Instruction>)
        ensures
            final(self).program == old(self).program,
            final(self).stack_offset == old(self).stack_offset,
            final(self).seq_no == old(self).seq_no,
            final(self).emitted() == old(self).emitted() + is@.map_values(|i: Instruction| i@),
    {
        let ghost e0 = self.emitted();
        let ghost all = is@;
        let mut is = is;
        while is.len() > 0
            invariant
                self.program == old(self).program,
                self.stack_offset == old(self).stack_offset,
                self.seq_no == old(self).seq_no,
                is@.len() <= all.len(),
                is@ == all.subrange(all.len() - is@.len(), all.len() as int),
                self.emitted() == e0 + all.subrange(0, all.len() - is@.len()).map_values(|i: Instruction| i@),
            decreases is@.len(),
        {
            let ghost j = all.len() - is@.len();
            let ghost is0 = is@;
            let i = is.remove(0);
            proof {
                assert(is0[0] == all[j]);
                assert(i == all[j]);
            }
            self.emit(i);
            proof {
                assert(all.subrange(0, j + 1).map_values(|x: Instruction| x@) =~= all.subrange(0, j).map_values(|x: Instruction| x@).push(i@));
                assert(is@ =~= all.subrange(j + 1, all.len() as int));
            }
        }
        proof {
            assert(all.subrange(0, all.len() as int) == all);
        }
    }

    /// Loads a term into `rax`.
    fn compile_term(&mut self, term: &Term, identifiers: &Vec<Vec<(String, VariableLocation)>>)
        requires
            compile_term(locs_of(identifiers@), *term) is Some,
        ensures
            final(self).program == old(self).program,
            final(self).stack_offset == old(self).stack_offset,
            final(self).seq_no == old(self).seq_no,
            final(self).emitted() == old(self).emitted() + compile_term(locs_of(identifiers@), *term).unwrap(),
    {
        match term {
            Term::IntLit(value) => {
                self.emit(Instruction::Mov(MovArgs::ToReg(Reg::Rax, Arg64::Unsigned(*value))));
            },
            Term::Identifier(name) => {
                let var = find_identifier(identifiers, name).unwrap();
                match var {
                    VariableLocation::Offset(offset) => {
                        self.emit(Instruction::Mov(MovArgs::ToReg(Reg::Rax, Arg64::Mem(MemRef { reg: Reg::Rbp, offset }))));
                    },
                    VariableLocation::Register(reg) => {
                        self.emit(Instruction::Mov(MovArgs::ToReg(Reg::Rax, Arg64::Reg(reg))));
                    },
                }
            },
            Term::Bool(b) => {
                let v: usize = if *b { 1 } else { 0 };
                self.emit(Instruction::Mov(MovArgs::ToReg(Reg::Rax, Arg64::Unsigned(v))));
            },
        }
    }

    /// The jump to `fail_condition` when the condition just computed is false.
    fn compile_condition_check(&mut self, op: Option<BinOp>, fail_condition: String)
        ensures
            final(self).program == old(self).program,
            final(self).stack_offset == old(self).stack_offset,
            final(self).seq_no == old(self).seq_no,
            final(self).emitted() == old(self).emitted() + condition_check(op, fail_condition@),
    {
        match op {
            Some(op) => {
                if op.is_bool() {
                    self.emit(Instruction::Jne(fail_condition));
                    return;
                } else if op.is_cmp() {
                    self.emit(to_jmp_instr(op, fail_condition));
                    return;
                }
            },
            None => {},
        }
        self.emit(Instruction::Cmp(BinArgs::ToReg(Reg::Rax, Arg64::Unsigned(0))));
        self.emit(Instruction::Je(fail_condition));
    }

    /// Pushes the value of `expr`, or jumps to `label` when it is a false comparison.
    fn compile_expr(&mut self, expr: &Expression, identifiers: &Vec<Vec<(String, VariableLocation)>>, label: &Option<String>)
        requires
            compile_expr(locs_of(identifiers@), expr_view(*expr), label_view(*label)) is Some,
        ensures
            final(self).program == old(self).program,
            final(self).stack_offset == old(self).stack_offset,
            final(self).seq_no == old(self).seq_no,
            final(self).emitted() == old(self).emitted() + compile_expr(locs_of(identifiers@), expr_view(*expr), label_view(*label)).unwrap(),
        decreases *expr, 0nat,
    {
        match &expr.variant {
            ExpressionVariant::Term(term) => {
                self.compile_term(term, identifiers);
                self.emit(Instruction::Push(Reg::Rax));
            },
            ExpressionVariant::BinaryExpr(lhs, rhs, op) => {
                self.compile_expr(lhs, identifiers, label);
                self.compile_expr(rhs, identifiers, label);
                self.emit(Instruction::Pop(Reg::Rbx));
                self.emit(Instruction::Pop(Reg::Rax));
                let instr = bin_op_to_instr(*op, Reg::Rax, Reg::Rbx);
                self.emit_all(instr);
                if !op.is_cmp() {
                    self.emit(Instruction::Push(Reg::Rax));
                } else {
                    let l = match label {
                        Some(l) => l.clone(),
                        None => {
                            proof {
                                assert(false);
                            }
                            String::new()
                        },
                    };
                    self.compile_condition_check(Some(*op), l);
                }
            },
            ExpressionVariant::FunctionCall { name, args } => {
                self.compile_call(name, args, identifiers);
            },
        }
    }

    /// Evaluates up to four arguments into their registers and calls `name`.
    fn compile_call(&mut self, name: &Identifier, args: &Vec<Expression>, identifiers: &Vec<Vec<(String, VariableLocation)>>)
        requires
            compile_call(locs_of(identifiers@), *name, exprs_view(args@)) is Some,
        ensures
            final(self).program == old(self).program,
            final(self).stack_offset == old(self).stack_offset,
            final(self).seq_no == old(self).seq_no,
            final(self).emitted() == old(self).emitted() + compile_call(locs_of(identifiers@), *name, exprs_view(args@)).unwrap(),
        decreases *args, 5nat,
    {
        let ghost ids = locs_of(identifiers@);
        let ghost es = exprs_view(args@);
        let ghost e0 = self.emitted();
        proof {
            lemma_exprs_view(args@);
        }
        let arg_regs = [Reg::Rbx, Reg::Rcx, Reg::Rdx, Reg::Rsi];
        let mut k: usize = 0;
        while k < args.len() && k < 4
            invariant
                0 <= k <= 4,
                k <= args@.len(),
                args@.len() <= 4,
                es == exprs_view(args@),
                es.len() == args@.len(),
                forall|q: int| 0 <= q < args@.len() ==> #[trigger] es[q] == expr_view(args@[q]),
                ids == locs_of(identifiers@),
                arg_regs@ == seq![Reg::Rbx, Reg::Rcx, Reg::Rdx, Reg::Rsi],
                compile_args(ids, es, 0) is Some,
                compile_args(ids, es, k as int) is Some,
                self.program == old(self).program,
                self.stack_offset == old(self).stack_offset,
                self.seq_no == old(self).seq_no,
                self.emitted() + compile_args(ids, es, k as int).unwrap() == e0 + compile_args(ids, es, 0).unwrap(),
            decreases 4 - k,
        {
            let ghost before = self.emitted();
            self.compile_expr(&args[k], identifiers, &None);
            self.emit(Instruction::Pop(arg_regs[k]));
            proof {
                assert(arg_regs@[k as int] == arg_reg(k as int));
                let a = compile_expr(ids, es[k as int], None).unwrap();
                let rest = compile_args(ids, es, k + 1).unwrap();
                assert(compile_args(ids, es, k as int).unwrap() == a.push(InstrV::Pop(arg_reg(k as int))) + rest);
                assert(self.emitted() + rest == before + (a.push(InstrV::Pop(arg_reg(k as int))) + rest));
            }
            k = k + 1;
        }
        proof {
            assert(compile_args(ids, es, k as int).unwrap() == Seq::<InstrV>::empty());
        }
        self.emit(Instruction::Call(name.name.clone()));
    }
}

/// The state in which compilation of a program starts: one empty scope.
pub open spec fn start_state(stack: usize, seq: usize) -> CState {
    CState { ids: seq![Map::empty()], stack, seq }
}

/// The compiler state made of the counters of `c` and the scopes `ids`.
pub open spec fn cstate(stack: usize, seq: usize, ids: Seq<Vec<(String, VariableLocation)>>) -> CState {
    CState { ids: locs_of(ids), stack, seq }
}

proof fn lemma_locs_push(ids: Seq<Vec<(String, VariableLocation)>>, v: Vec<(String, VariableLocation)>)
    ensures
        locs_of(ids.push(v)) == locs_of(ids).push(loc_map(v@)),
{
    assert(locs_of(ids.push(v)) =~= locs_of(ids).push(loc_map(v@)));
}

proof fn lemma_locs_pop(ids: Seq<Vec<(String, VariableLocation)>>)
    requires
        ids.len() > 0,
    ensures
        locs_of(ids.drop_last()) == locs_of(ids).drop_last(),
{
    assert(locs_of(ids.drop_last()) =~= locs_of(ids).drop_last());
}

proof fn lemma_count_vars_take(ss: Seq<SStmt>, k: int)
    requires
        0 <= k <= ss.len(),
    ensures
        count_vars(ss.take(k)) <= count_vars(ss),
    decreases ss.len(),
{
    if k < ss.len() {
        lemma_count_vars_take(ss.drop_last(), k);
        assert(ss.drop_last().take(k) =~= ss.take(k));
    } else {
        assert(ss.take(k) =~= ss);
    }
}

/// The number of `let` statements in `statements`, nested blocks included.
fn count_vars_exec(statements: &Vec<Statement>) -> (count: usize)
    requires
        count_vars(stmts_view(statements@)) <= usize::MAX,
    ensures
        count == count_vars(stmts_view(statements@)),
    decreases *statements, 1nat,
{
    let ghost sv = stmts_view(statements@);
    proof {
        lemma_stmts_view(statements@);
        assert(sv.take(0) =~= Seq::<SStmt>::empty());
    }
    let mut count: usize = 0;
    let mut k: usize = 0;
    while k < statements.len()
        invariant
            0 <= k <= statements@.len(),
            sv == stmts_view(statements@),
            sv.len() == statements@.len(),
            forall|q: int| 0 <= q < statements@.len() ==> #[trigger] sv[q] == stmt_view(statements@[q]),
            count_vars(sv) <= usize::MAX,
            count == count_vars(sv.take(k as int)),
        decreases statements@.len() - k,
    {
        proof {
            lemma_count_vars_take(sv, k + 1);
            assert(sv.take(k + 1).drop_last() =~= sv.take(k as int));
            assert(sv.take(k + 1).last() == sv[k as int]);
        }
        let c = count_stmt_exec(&statements[k]);
        count = count + c;
        k = k + 1;
    }
    proof {
        assert(sv.take(sv.len() as int) =~= sv);
    }
    count
}

fn count_stmt_exec(stmt: &Statement) -> (count: usize)
    requires
        count_stmt(stmt_view(*stmt)) <= usize::MAX,
    ensures
        count == count_stmt(stmt_view(*stmt)),
    decreases *stmt, 0nat,
{
    match &stmt.variant {
        StatementVariant::Let { .. } => 1,
        StatementVariant::If { then, els, .. } => {
            let a = count_vars_exec(then);
            let b = match els {
                Some(e) => count_else_exec(e),
                None => 0,
            };
            a + b
        },
        StatementVariant::While { body, .. } => count_vars_exec(body),
        _ => 0,
    }
}

fn count_else_exec(els: &ElseClause) -> (count: usize)
    requires
        count_else(else_view(*els)) <= usize::MAX,
    ensures
        count == count_else(else_view(*els)),
    decreases *els, 0nat,
{
    let a = count_vars_exec(&els.body);
    let b = match &*els.els {
        Some(e) => count_else_exec(e),
        None => 0,
    };
    a + b
}

impl Compiler {
    /// The number of the next label; counts up.
    fn seq(&mut self) -> (n: usize)
        requires
            old(self).seq_no < usize::MAX,
        ensures
            final(self).program == old(self).program,
            final(self).instructions == old(self).instructions,
            final(self).stack_offset == old(self).stack_offset,
            final(self).seq_no == old(self).seq_no + 1,
            n == old(self).seq_no,
    {
        self.seq_no = self.seq_no + 1;
        self.seq_no - 1
    }

    /// `exit` with the value of `expr`.
    fn compile_exit(&mut self, expr: &Expression, identifiers: &mut Vec<Vec<(String, VariableLocation)>>)
        requires
            compile_exit(cstate(old(self).stack_offset, old(self).seq_no, old(identifiers)@), expr_view(*expr)) is Some,
        ensures
            final(self).program == old(self).program,
            cstate(final(self).stack_offset, final(self).seq_no, final(identifiers)@)
                == compile_exit(cstate(old(self).stack_offset, old(self).seq_no, old(identifiers)@), expr_view(*expr)).unwrap().0,
            final(self).emitted() == old(self).emitted()
                + compile_exit(cstate(old(self).stack_offset, old(self).seq_no, old(identifiers)@), expr_view(*expr)).unwrap().1,
    {
        match &expr.variant {
            ExpressionVariant::Term(term) => {
                self.compile_term(term, identifiers);
                self.emit(Instruction::Mov(MovArgs::ToReg(Reg::Rdi, Arg64::Reg(Reg::Rax))));
            },
            ExpressionVariant::BinaryExpr(lhs, rhs, op) => {
                self.compile_expr(lhs, identifiers, &None);
                self.compile_expr(rhs, identifiers, &None);
                self.emit(Instruction::Pop(Reg::Rax));
                self.emit(Instruction::Pop(Reg::Rdi));
                let instr = bin_op_to_instr(*op, Reg::Rdi, Reg::Rax);
                self.emit_all(instr);
            },
            ExpressionVariant::FunctionCall { name, args } => {
                self.compile_call(name, args, identifiers);
            },
        }
        self.emit(Instruction::Mov(MovArgs::ToReg(Reg::Rax, Arg64::Unsigned(60))));
        self.emit(Instruction::Syscall);
    }

    /// `let ident = expr`.
    fn compile_let(&mut self, ident: &Identifier, expr: &Expression, identifiers: &mut Vec<Vec<(String, VariableLocation)>>)
        requires
            compile_let(cstate(old(self).stack_offset, old(self).seq_no, old(identifiers)@), *ident, expr_view(*expr)) is Some,
        ensures
            final(self).program == old(self).program,
            cstate(final(self).stack_offset, final(self).seq_no, final(identifiers)@)
                == compile_let(cstate(old(self).stack_offset, old(self).seq_no, old(identifiers)@), *ident, expr_view(*expr)).unwrap().0,
            final(self).emitted() == old(self).emitted()
                + compile_let(cstate(old(self).stack_offset, old(self).seq_no, old(identifiers)@), *ident, expr_view(*expr)).unwrap().1,
    {
        let arg = match &expr.variant {
            ExpressionVariant::Term(term) => {
                let last = identifiers.len() - 1;
                let here = VariableLocation::Offset(self.stack_offset);
                match term {
                    Term::Identifier(name) => {
                        let loc = scope_loc(&identifiers[last], name).unwrap();
                        proof {
                            lemma_locs_last(identifiers@);
                        }
                        match loc {
                            VariableLocation::Offset(offset) => {
                                bind_name(identifiers, ident.name.clone(), here);
                                Arg64::Mem(MemRef { reg: Reg::Rbp, offset })
                            },
                            VariableLocation::Register(r) => {
                                bind_name(identifiers, ident.name.clone(), here);
                                Arg64::Reg(r)
                            },
                        }
                    },
                    Term::IntLit(value) => {
                        bind_name(identifiers, ident.name.clone(), here);
                        Arg64::Unsigned(*value)
                    },
                    Term::Bool(b) => {
                        bind_name(identifiers, ident.name.clone(), here);
                        let v: usize = if *b { 1 } else { 0 };
                        Arg64::Unsigned(v)
                    },
                }
            },
            ExpressionVariant::BinaryExpr(lhs, rhs, op) => {
                self.compile_expr(lhs, identifiers, &None);
                self.compile_expr(rhs, identifiers, &None);
                self.emit(Instruction::Pop(Reg::Rbx));
                self.emit(Instruction::Pop(Reg::Rax));
                let instr = bin_op_to_instr(*op, Reg::Rax, Reg::Rbx);
                self.emit_all(instr);
                bind_name(identifiers, ident.name.clone(), VariableLocation::Offset(self.stack_offset));
                Arg64::Reg(Reg::Rax)
            },
            ExpressionVariant::FunctionCall { name, args } => {
                self.compile_call(name, args, identifiers);
                bind_name(identifiers, ident.name.clone(), VariableLocation::Offset(self.stack_offset));
                Arg64::Reg(Reg::Rax)
            },
        };
        self.emit(Instruction::Mov(MovArgs::ToReg(Reg::Rax, arg)));
        self.emit(Instruction::Mov(MovArgs::ToMem(MemRef { reg: Reg::Rbp, offset: self.stack_offset }, Reg::Rax)));
        self.stack_offset = self.stack_offset + 8;
    }

    /// `ident = expr` for a variable on the stack.
    fn compile_assign(&mut self, ident: &Identifier, expr: &Expression, identifiers: &mut Vec<Vec<(String, VariableLocation)>>)
        requires
            compile_assign(cstate(old(self).stack_offset, old(self).seq_no, old(identifiers)@), *ident, expr_view(*expr)) is Some,
        ensures
            final(self).program == old(self).program,
            cstate(final(self).stack_offset, final(self).seq_no, final(identifiers)@)
                == compile_assign(cstate(old(self).stack_offset, old(self).seq_no, old(identifiers)@), *ident, expr_view(*expr)).unwrap().0,
            final(self).emitted() == old(self).emitted()
                + compile_assign(cstate(old(self).stack_offset, old(self).seq_no, old(identifiers)@), *ident, expr_view(*expr)).unwrap().1,
    {
        self.compile_expr(expr, identifiers, &None);
        let loc = find_identifier(identifiers, &ident.name).unwrap();
        let offset = match loc {
            VariableLocation::Offset(offset) => offset,
            VariableLocation::Register(_) => {
                proof {
                    assert(false);
                }
                0
            },
        };
        self.emit(Instruction::Pop(Reg::Rax));
        self.emit(Instruction::Mov(MovArgs::ToMem(MemRef { reg: Reg::Rbp, offset }, Reg::Rax)));
    }

    /// `return expr`.
    fn compile_return(&mut self, expr: &Expression, identifiers: &mut Vec<Vec<(String, VariableLocation)>>)
        requires
            compile_return(cstate(old(self).stack_offset, old(self).seq_no, old(identifiers)@), expr_view(*expr)) is Some,
        ensures
            final(self).program == old(self).program,
            cstate(final(self).stack_offset, final(self).seq_no, final(identifiers)@)
                == compile_return(cstate(old(self).stack_offset, old(self).seq_no, old(identifiers)@), expr_view(*expr)).unwrap().0,
            final(self).emitted() == old(self).emitted()
                + compile_return(cstate(old(self).stack_offset, old(self).seq_no, old(identifiers)@), expr_view(*expr)).unwrap().1,
    {
        self.compile_expr(expr, identifiers, &None);
        self.emit(Instruction::Pop(Reg::Rax));
        self.emit(Instruction::Pop(Reg::Rbp));
        self.emit(Instruction::Ret);
    }

    /// Evaluates condition `cond`, jumping to `fail` when it is false.
    fn compile_cond(&mut self, cond: &Expression, fail: &String, identifiers: &Vec<Vec<(String, VariableLocation)>>)
        requires
            cond_code(locs_of(identifiers@), expr_view(*cond), fail@) is Some,
        ensures
            final(self).program == old(self).program,
            final(self).stack_offset == old(self).stack_offset,
            final(self).seq_no == old(self).seq_no,
            final(self).emitted() == old(self).emitted() + cond_code(locs_of(identifiers@), expr_view(*cond), fail@).unwrap(),
    {
        let op = extract_binary_op(cond);
        self.compile_expr(cond, identifiers, &Some(fail.clone()));
        let needs_check = match op {
            Some(o) => !o.is_cmp(),
            None => true,
        };
        if needs_check {
            self.compile_condition_check(op, fail.clone());
        }
    }

    /// Compiles one statement, as `compile_stmt` describes.
    fn compile_statement(&mut self, stmt: &Statement, identifiers: &mut Vec<Vec<(String, VariableLocation)>>)
        requires
            compile_stmt(cstate(old(self).stack_offset, old(self).seq_no, old(identifiers)@), stmt_view(*stmt)) is Some,
        ensures
            final(self).program == old(self).program,
            cstate(final(self).stack_offset, final(self).seq_no, final(identifiers)@)
                == compile_stmt(cstate(old(self).stack_offset, old(self).seq_no, old(identifiers)@), stmt_view(*stmt)).unwrap().0,
            final(self).emitted() == old(self).emitted()
                + compile_stmt(cstate(old(self).stack_offset, old(self).seq_no, old(identifiers)@), stmt_view(*stmt)).unwrap().1,
        decreases *stmt, 3nat, 0nat,
    {
        match &stmt.variant {
            StatementVariant::Exit(expr) => self.compile_exit(expr, identifiers),
            StatementVariant::Let { ident, expr } => self.compile_let(ident, expr, identifiers),
            StatementVariant::If { .. } => self.compile_if(stmt, identifiers),
            StatementVariant::While { .. } => self.compile_while(stmt, identifiers),
            StatementVariant::Assignment { ident, expr } => self.compile_assign(ident, expr, identifiers),
            StatementVariant::FunctionCall { name, args } => self.compile_call(name, args, identifiers),
            StatementVariant::Return(expr) => self.compile_return(expr, identifiers),
        }
    }

    /// Compiles a `while` statement, as `compile_while` describes.
    fn compile_while(&mut self, stmt: &Statement, identifiers: &mut Vec<Vec<(String, VariableLocation)>>)
        requires
            compile_while(cstate(old(self).stack_offset, old(self).seq_no, old(identifiers)@), stmt_view(*stmt)) is Some,
        ensures
            final(self).program == old(self).program,
            cstate(final(self).stack_offset, final(self).seq_no, final(identifiers)@)
                == compile_while(cstate(old(self).stack_offset, old(self).seq_no, old(identifiers)@), stmt_view(*stmt)).unwrap().0,
            final(self).emitted() == old(self).emitted()
                + compile_while(cstate(old(self).stack_offset, old(self).seq_no, old(identifiers)@), stmt_view(*stmt)).unwrap().1,
        decreases *stmt, 2nat, 0nat,
    {
        let (cond, body) = match &stmt.variant {
            StatementVariant::While { cond, body } => (cond, body),
            _ => {
                proof {
                    assert(false);
                }
                return;
            },
        };
        let ghost e0 = self.emitted();
        let n1 = self.seq();
        let cond_label = make_label("_while_cond", n1);
        let n2 = self.seq();
        let done_label = make_label("_while_done", n2);
        proof {
            reveal_strlit("_while_cond");
            reveal_strlit("_while_done");
            assert(cond_label@ =~= label_text(seq!['_', 'w', 'h', 'i', 'l', 'e', '_', 'c', 'o', 'n', 'd'], n1));
            assert(done_label@ =~= label_text(seq!['_', 'w', 'h', 'i', 'l', 'e', '_', 'd', 'o', 'n', 'e'], n2));
        }
        self.emit(Instruction::Label(cond_label.clone()));
        let ghost e1 = self.emitted();
        self.compile_cond(cond, &done_label, identifiers);
        let ghost e2 = self.emitted();
        self.compile_scope(body, identifiers, true);
        let ghost e3 = self.emitted();
        self.emit(Instruction::Jmp(cond_label));
        self.emit(Instruction::Label(done_label));
        proof {
            let pre = cond_code(locs_of(old(identifiers)@), expr_view(*cond), done_label@).unwrap();
            assert(e2 == e1 + pre);
            assert(self.emitted() =~= e0 + (seq![InstrV::Label(cond_label@)] + pre + (e3.subrange(e2.len() as int, e3.len() as int))
                + seq![InstrV::Jmp(cond_label@), InstrV::Label(done_label@)]));
        }
    }
}

proof fn lemma_locs_last(ids: Seq<Vec<(String, VariableLocation)>>)
    requires
        ids.len() > 0,
    ensures
        locs_of(ids).last() == loc_map(ids.last()@),
        locs_of(ids).len() == ids.len(),
{
}

impl Compiler {
    /// Compiles an `if` statement, as `compile_if` describes.
    #[verifier::rlimit(30)]
    fn compile_if(&mut self, stmt: &Statement, identifiers: &mut Vec<Vec<(String, VariableLocation)>>)
        requires
            compile_if(cstate(old(self).stack_offset, old(self).seq_no, old(identifiers)@), stmt_view(*stmt)) is Some,
        ensures
            final(self).program == old(self).program,
            cstate(final(self).stack_offset, final(self).seq_no, final(identifiers)@)
                == compile_if(cstate(old(self).stack_offset, old(self).seq_no, old(identifiers)@), stmt_view(*stmt)).unwrap().0,
            final(self).emitted() == old(self).emitted()
                + compile_if(cstate(old(self).stack_offset, old(self).seq_no, old(identifiers)@), stmt_view(*stmt)).unwrap().1,
        decreases *stmt, 2nat, 0nat,
    {
        let (cond, then, els) = match &stmt.variant {
            StatementVariant::If { cond, then, els } => (cond, then, els),
            _ => {
                proof {
                    assert(false);
                }
                return;
            },
        };
        let ghost e0 = self.emitted();
        let n1 = self.seq();
        let fail = make_label("_if", n1);
        let n2 = self.seq();
        let done = make_label("_if_done", n2);
        proof {
            reveal_strlit("_if");
            reveal_strlit("_if_done");
            assert(fail@ =~= label_text(seq!['_', 'i', 'f'], n1));
            assert(done@ =~= label_text(seq!['_', 'i', 'f', '_', 'd', 'o', 'n', 'e'], n2));
        }
        self.compile_cond(cond, &fail, identifiers);
        let ghost e1 = self.emitted();
        self.compile_scope(then, identifiers, true);
        let ghost e2 = self.emitted();
        match els {
            Some(clause) => {
                self.emit(Instruction::Jmp(done.clone()));
                self.emit(Instruction::Label(fail));
                let ghost e3 = self.emitted();
                self.compile_else(clause, identifiers);
                let ghost e4 = self.emitted();
                self.emit(Instruction::Label(done));
                proof {
                    assert(self.emitted() =~= e0 + if_code(e1.subrange(e0.len() as int, e1.len() as int), e2.subrange(e1.len() as int, e2.len() as int),
                        Some(e4.subrange(e3.len() as int, e4.len() as int)), fail@, done@));
                }
            },
            None => {
                self.emit(Instruction::Label(fail));
                self.emit(Instruction::Label(done));
                proof {
                    assert(self.emitted() =~= e0 + if_code(e1.subrange(e0.len() as int, e1.len() as int), e2.subrange(e1.len() as int, e2.len() as int),
                        None, fail@, done@));
                }
            },
        }
    }

    /// Compiles an else clause, as `compile_else` describes.
    #[verifier::rlimit(30)]
    fn compile_else(&mut self, clause: &ElseClause, identifiers: &mut Vec<Vec<(String, VariableLocation)>>)
        requires
            compile_else(cstate(old(self).stack_offset, old(self).seq_no, old(identifiers)@), else_view(*clause)) is Some,
        ensures
            final(self).program == old(self).program,
            cstate(final(self).stack_offset, final(self).seq_no, final(identifiers)@)
                == compile_else(cstate(old(self).stack_offset, old(self).seq_no, old(identifiers)@), else_view(*clause)).unwrap().0,
            final(self).emitted() == old(self).emitted()
                + compile_else(cstate(old(self).stack_offset, old(self).seq_no, old(identifiers)@), else_view(*clause)).unwrap().1,
        decreases *clause, 2nat, 0nat,
    {
        let cond = match &clause.cond {
            Some(c) => c,
            None => {
                self.compile_scope(&clause.body, identifiers, true);
                return;
            },
        };
        let ghost e0 = self.emitted();
        let n1 = self.seq();
        let fail = make_label("_if", n1);
        let n2 = self.seq();
        let done = make_label("_if_done", n2);
        proof {
            reveal_strlit("_if");
            reveal_strlit("_if_done");
            assert(fail@ =~= label_text(seq!['_', 'i', 'f'], n1));
            assert(done@ =~= label_text(seq!['_', 'i', 'f', '_', 'd', 'o', 'n', 'e'], n2));
        }
        self.compile_cond(cond, &fail, identifiers);
        let ghost e1 = self.emitted();
        self.compile_scope(&clause.body, identifiers, true);
        let ghost e2 = self.emitted();
        match &*clause.els {
            Some(next) => {
                self.emit(Instruction::Jmp(done.clone()));
                self.emit(Instruction::Label(fail));
                let ghost e3 = self.emitted();
                self.compile_else(next, identifiers);
                let ghost e4 = self.emitted();
                self.emit(Instruction::Label(done));
                proof {
                    assert(self.emitted() =~= e0 + if_code(e1.subrange(e0.len() as int, e1.len() as int), e2.subrange(e1.len() as int, e2.len() as int),
                        Some(e4.subrange(e3.len() as int, e4.len() as int)), fail@, done@));
                }
            },
            None => {
                self.emit(Instruction::Label(fail));
                self.emit(Instruction::Label(done));
                proof {
                    assert(self.emitted() =~= e0 + if_code(e1.subrange(e0.len() as int, e1.len() as int), e2.subrange(e1.len() as int, e2.len() as int),
                        None, fail@, done@));
                }
            },
        }
    }
    /// Compiles statements, in a scope of their own when `new_scope`.
    fn compile_scope(&mut self, body: &Vec<Statement>, identifiers: &mut Vec<Vec<(String, VariableLocation)>>, new_scope: bool)
        requires
            compile_scope(cstate(old(self).stack_offset, old(self).seq_no, old(identifiers)@), stmts_view(body@), new_scope) is Some,
        ensures
            final(self).program == old(self).program,
            cstate(final(self).stack_offset, final(self).seq_no, final(identifiers)@)
                == compile_scope(cstate(old(self).stack_offset, old(self).seq_no, old(identifiers)@), stmts_view(body@), new_scope).unwrap().0,
            final(self).emitted() == old(self).emitted()
                + compile_scope(cstate(old(self).stack_offset, old(self).seq_no, old(identifiers)@), stmts_view(body@), new_scope).unwrap().1,
        decreases *body, 1nat, 0nat,
    {
        let ghost ss = stmts_view(body@);
        let ghost e0 = self.emitted();
        proof {
            lemma_stmts_view(body@);
        }
        if new_scope {
            let ghost i0 = identifiers@;
            identifiers.push(Vec::new());
            proof {
                lemma_locs_push(i0, identifiers@.last());
                assert(loc_map(identifiers@.last()@) =~= Map::<Seq<char>, VariableLocation>::empty()) by {
                    assert(identifiers@.last()@.map_values(|e: (String, VariableLocation)| (e.0@, e.1)) =~= Seq::empty());
                }
            }
        }
        let ghost st0 = cstate(self.stack_offset, self.seq_no, identifiers@);
        let mut k: usize = 0;
        while k < body.len()
            invariant
                0 <= k <= body@.len(),
                ss == stmts_view(body@),
                ss.len() == body@.len(),
                forall|q: int| 0 <= q < body@.len() ==> #[trigger] ss[q] == stmt_view(body@[q]),
                self.program == old(self).program,
                compile_stmts(st0, ss, 0) is Some,
                compile_stmts(cstate(self.stack_offset, self.seq_no, identifiers@), ss, k as int) is Some,
                compile_stmts(st0, ss, 0).unwrap().0 == compile_stmts(cstate(self.stack_offset, self.seq_no, identifiers@), ss, k as int).unwrap().0,
                e0 + compile_stmts(st0, ss, 0).unwrap().1 == self.emitted() + compile_stmts(cstate(self.stack_offset, self.seq_no, identifiers@), ss, k as int).unwrap().1,
            decreases body@.len() - k,
        {
            let ghost before = self.emitted();
            let ghost stk = cstate(self.stack_offset, self.seq_no, identifiers@);
            self.compile_statement(&body[k], identifiers);
            proof {
                let (st1, code) = compile_stmt(stk, ss[k as int]).unwrap();
                let rest = compile_stmts(st1, ss, k + 1).unwrap();
                assert(compile_stmts(stk, ss, k as int).unwrap().1 == code + rest.1);
                assert(before + (code + rest.1) == self.emitted() + rest.1);
            }
            k = k + 1;
        }
        if new_scope {
            let ghost i1 = identifiers@;
            if identifiers.len() > 0 {
                let _ = identifiers.pop();
                proof {
                    lemma_locs_pop(i1);
                }
            }
        }
    }
}

impl Compiler {
    /// Compiles a function, as `compile_function` describes.
    fn compile_function(&mut self, function: &Function, identifiers: &mut Vec<Vec<(String, VariableLocation)>>)
        requires
            compile_function(cstate(old(self).stack_offset, old(self).seq_no, old(identifiers)@), function_view(*function)) is Some,
        ensures
            final(self).program == old(self).program,
            cstate(final(self).stack_offset, final(self).seq_no, final(identifiers)@)
                == compile_function(cstate(old(self).stack_offset, old(self).seq_no, old(identifiers)@), function_view(*function)).unwrap().0,
            final(self).emitted() == old(self).emitted()
                + compile_function(cstate(old(self).stack_offset, old(self).seq_no, old(identifiers)@), function_view(*function)).unwrap().1,
    {
        let ghost f = function_view(*function);
        let ghost e0 = self.emitted();
        let arg_regs = [Reg::Rbx, Reg::Rcx, Reg::Rdx, Reg::Rsi];
        let mut scope: Vec<(String, VariableLocation)> = Vec::new();
        let mut i: usize = 0;
        proof {
            assert(loc_map(scope@) =~= arg_locations(function.args@, 0)) by {
                assert(scope@.map_values(|e: (String, VariableLocation)| (e.0@, e.1)) =~= Seq::empty());
            }
        }
        while i < function.args.len() && i < 4
            invariant
                0 <= i <= 4,
                i <= function.args@.len(),
                arg_regs@ == seq![Reg::Rbx, Reg::Rcx, Reg::Rdx, Reg::Rsi],
                loc_map(scope@) == arg_locations(function.args@, i as int),
            decreases 4 - i,
        {
            let ghost sc = scope@;
            let entry = (function.args[i].name.name.clone(), VariableLocation::Register(arg_regs[i]));
            scope.push(entry);
            proof {
                let fm = |e: (String, VariableLocation)| (e.0@, e.1);
                assert(sc.push(entry).map_values(fm) =~= sc.map_values(fm).push(fm(entry)));
                lemma_assoc_push(sc.map_values(fm), fm(entry));
                assert(arg_regs@[i as int] == arg_reg(i as int));
            }
            i = i + 1;
        }
        let ghost i0 = identifiers@;
        identifiers.push(scope);
        proof {
            lemma_locs_push(i0, scope);
            assert(min_int(function.args@.len() as int, 4) == i);
        }
        self.emit(Instruction::Label(function.name.name.clone()));
        self.emit(Instruction::Push(Reg::Rbp));
        self.emit(Instruction::Mov(MovArgs::ToReg(Reg::Rbp, Arg64::Reg(Reg::Rsp))));
        let local_vars = count_vars_exec(&function.body);
        self.emit(Instruction::Sub(BinArgs::ToReg(Reg::Rsp, Arg64::Unsigned(local_vars * 8))));
        let ghost e1 = self.emitted();
        self.compile_scope(&function.body, identifiers, false);
        let ghost e2 = self.emitted();
        self.emit(Instruction::Mov(MovArgs::ToReg(Reg::Rsp, Arg64::Reg(Reg::Rbp))));
        self.emit(Instruction::Pop(Reg::Rbp));
        self.emit(Instruction::Ret);
        let ghost i1 = identifiers@;
        if identifiers.len() > 0 {
            let _ = identifiers.pop();
            proof {
                lemma_locs_pop(i1);
            }
        }
        self.stack_offset = 8;
        proof {
            assert(self.emitted() =~= e0 + (seq![
                InstrV::Label(f.name.name@),
                InstrV::Push(Reg::Rbp),
                InstrV::Mov(MovArgs::ToReg(Reg::Rbp, Arg64::Reg(Reg::Rsp))),
                InstrV::Sub(BinArgs::ToReg(Reg::Rsp, Arg64::Unsigned((local_vars * 8) as usize))),
            ] + e2.subrange(e1.len() as int, e2.len() as int) + seq![
                InstrV::Mov(MovArgs::ToReg(Reg::Rsp, Arg64::Reg(Reg::Rbp))),
                InstrV::Pop(Reg::Rbp),
                InstrV::Ret,
            ]));
        }
    }

    /// A compiler for `program`, with the entry point already emitted.
    pub fn new(program: Program) -> (c: Self)
        ensures
            c.program() == program,
            c.emitted() == preamble(),
            c.counters() == (8usize, 0usize),
    {
        proof {
            reveal_strlit("global");
            reveal_strlit("_start");
            reveal_strlit("main");
            assert("global"@ =~= seq!['g', 'l', 'o', 'b', 'a', 'l']);
            assert("_start"@ =~= seq!['_', 's', 't', 'a', 'r', 't']);
            assert("main"@ =~= seq!['m', 'a', 'i', 'n']);
        }
        let instructions = vec![
            Instruction::Directive(String::from_str("global"), String::from_str("_start")),
            Instruction::Label(String::from_str("_start")),
            Instruction::Push(Reg::Rbp),
            Instruction::Mov(MovArgs::ToReg(Reg::Rbp, Arg64::Reg(Reg::Rsp))),
            Instruction::Call(String::from_str("main")),
        ];
        let c = Self { program, instructions, stack_offset: 8, seq_no: 0 };
        proof {
            assert(c.emitted() =~= preamble());
        }
        c
    }

    /// Checks the program and compiles `main` and then the other functions after what has been
    /// emitted so far, as `compile_program` describes. The program must pass semantic analysis
    /// and have a `main`.
    pub fn compile(self) -> (r: Vec<Instruction>)
        requires
            compile_program(start_state(self.counters().0, self.counters().1), program_view(self.program())) is Some,
        ensures
            r@.map_values(|i: Instruction| i@) == self.emitted()
                + compile_program(start_state(self.counters().0, self.counters().1), program_view(self.program())).unwrap(),
    {
        let ghost p = program_view(self.program);
        let ghost e0 = self.emitted();
        let mut this = self;
        let res = Analyzer::new(&this.program).check();
        if res.is_err() {
            proof {
                assert(false);
            }
        }
        let mut functions: Vec<Function> = Vec::new();
        std::mem::swap(&mut functions, &mut this.program.functions);
        let mut main_fn: Option<Function> = None;
        std::mem::swap(&mut main_fn, &mut this.program.main);
        let mut identifiers: Vec<Vec<(String, VariableLocation)>> = Vec::new();
        identifiers.push(Vec::new());
        proof {
            assert(identifiers@ =~= seq![identifiers@[0]]);
            assert(locs_of(identifiers@) =~= seq![Map::<Seq<char>, VariableLocation>::empty()]) by {
                assert(loc_map(identifiers@[0]@) =~= Map::<Seq<char>, VariableLocation>::empty()) by {
                    assert(identifiers@[0]@.map_values(|e: (String, VariableLocation)| (e.0@, e.1)) =~= Seq::empty());
                }
            }
        }
        match &main_fn {
            Some(main) => {
                this.compile_function(main, &mut identifiers);
            },
            None => {
                proof {
                    assert(false);
                }
            },
        }
        let ghost st1 = cstate(this.stack_offset, this.seq_no, identifiers@);
        let ghost e1 = this.emitted();
        let mut k: usize = 0;
        while k < functions.len()
            invariant
                0 <= k <= functions@.len(),
                p.functions.len() == functions@.len(),
                forall|q: int| 0 <= q < functions@.len() ==> #[trigger] p.functions[q] == function_view(functions@[q]),
                compile_functions(st1, p.functions, 0) is Some,
                compile_functions(cstate(this.stack_offset, this.seq_no, identifiers@), p.functions, k as int) is Some,
                e1 + compile_functions(st1, p.functions, 0).unwrap().1
                    == this.emitted() + compile_functions(cstate(this.stack_offset, this.seq_no, identifiers@), p.functions, k as int).unwrap().1,
            decreases functions@.len() - k,
        {
            let ghost before = this.emitted();
            let ghost stk = cstate(this.stack_offset, this.seq_no, identifiers@);
            this.compile_function(&functions[k], &mut identifiers);
            proof {
                let (s1, code) = compile_function(stk, p.functions[k as int]).unwrap();
                let rest = compile_functions(s1, p.functions, k + 1).unwrap();
                assert(before + (code + rest.1) == this.emitted() + rest.1);
            }
            k = k + 1;
        }
        this.instructions
    }
}

} // verus!
