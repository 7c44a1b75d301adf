use vstd::prelude::*;
use vstd::string::StringExecFns;

use crate::assembly::append;
use crate::analyze::{assoc, lemma_assoc_absent, lemma_assoc_found, lemma_assoc_push, lemma_exprs_view, lemma_stmts_view};
use crate::parser::{
    BinOp, ElseClause, Expression, ExpressionVariant, Function, Identifier, Program, SElse, SExpr, SFunction,
    SProgram, SStmt, Statement, StatementVariant, Term, Type, else_view, expr_view, exprs_view, function_view,
    program_view, stmt_view, stmts_view,
};

verus! {

/// A resolved variable: its source name and a number unique within the program.
#[derive(Debug, Clone, PartialEq, Eq, Hash)]
pub struct SymbolId {
    pub name: String,
    pub id: usize,
}

/// A resolved function: its name and a number unique within the program.
#[derive(Debug, Clone, PartialEq, Eq, Hash)]
pub struct FunctionId {
    pub name: String,
    pub id: usize,
}

impl SymbolId {
    /// A copy of this symbol.
    pub fn copy(&self) -> (r: SymbolId)
        ensures
            r == *self,
    {
        SymbolId { name: self.name.clone(), id: self.id }
    }
}

impl FunctionId {
    /// A copy of this function identity.
    pub fn copy(&self) -> (r: FunctionId)
        ensures
            r == *self,
    {
        FunctionId { name: self.name.clone(), id: self.id }
    }
}

/// Why name resolution failed.
#[derive(Debug)]
pub enum ResolveError {
    DuplicateFunction(String),
    DuplicateVariable(String),
    UndefinedVariable(String),
    UndefinedFunction(String),
}

#[derive(Debug)]
pub struct ResolvedProgram {
    pub main: Option<ResolvedFunction>,
    pub functions: Vec<ResolvedFunction>,
}

#[derive(Debug)]
pub struct ResolvedFunction {
    pub id: FunctionId,
    pub name: String,
    pub args: Vec<ResolvedArgument>,
    pub ret_sig: Type,
    pub body: Vec<ResolvedStatement>,
}

#[derive(Debug)]
pub struct ResolvedArgument {
    pub symbol: SymbolId,
    pub ty: Type,
}

#[derive(Debug)]
pub enum ResolvedStatement {
    Exit(ResolvedExpression),
    Let { symbol: SymbolId, expr: ResolvedExpression },
    If { cond: ResolvedExpression, then: Vec<ResolvedStatement>, els: Option<ResolvedElseClause> },
    While { cond: ResolvedExpression, body: Vec<ResolvedStatement> },
    Assignment { symbol: SymbolId, expr: ResolvedExpression },
    FunctionCall { function: FunctionId, args: Vec<ResolvedExpression> },
    Return(ResolvedExpression),
}

#[derive(Debug)]
pub enum ResolvedExpression {
    BinaryExpr(Box<ResolvedExpression>, Box<ResolvedExpression>, BinOp),
    Term(ResolvedTerm),
    FunctionCall { function: FunctionId, args: Vec<ResolvedExpression> },
}

#[derive(Debug)]
pub struct ResolvedElseClause {
    pub cond: Option<ResolvedExpression>,
    pub body: Vec<ResolvedStatement>,
    pub els: Box<Option<ResolvedElseClause>>,
}

#[derive(Debug)]
pub enum ResolvedTerm {
    Identifier(SymbolId),
    IntLit(usize),
    Bool(bool),
}

// The resolved syntax as values of specifications.

pub enum RExpr {
    Binary(Box<RExpr>, Box<RExpr>, BinOp),
    Term(ResolvedTermV),
    Call(FunctionId, Seq<RExpr>),
}

/// A resolved term, as a value of specifications.
pub enum ResolvedTermV {
    Identifier(SymbolId),
    IntLit(usize),
    Bool(bool),
}

pub enum RStmt {
    Exit(RExpr),
    Let(SymbolId, RExpr),
    If(RExpr, Seq<RStmt>, Option<RElse>),
    While(RExpr, Seq<RStmt>),
    Assign(SymbolId, RExpr),
    Call(FunctionId, Seq<RExpr>),
    Return(RExpr),
}

pub struct RElse {
    pub cond: Option<RExpr>,
    pub body: Seq<RStmt>,
    pub els: Option<Box<RElse>>,
}

pub struct RFunction {
    pub id: FunctionId,
    pub name: String,
    pub args: Seq<(SymbolId, Type)>,
    pub ret_sig: Type,
    pub body: Seq<RStmt>,
}

pub struct RProgram {
    pub main: Option<RFunction>,
    pub functions: Seq<RFunction>,
}

pub open spec fn rterm_view(t: ResolvedTerm) -> ResolvedTermV {
    match t {
        ResolvedTerm::Identifier(s) => ResolvedTermV::Identifier(s),
        ResolvedTerm::IntLit(v) => ResolvedTermV::IntLit(v),
        ResolvedTerm::Bool(b) => ResolvedTermV::Bool(b),
    }
}

pub open spec fn rexpr_view(e: ResolvedExpression) -> RExpr
    decreases e, 0nat,
{
    match e {
        ResolvedExpression::BinaryExpr(l, r, op) => RExpr::Binary(Box::new(rexpr_view(*l)), Box::new(rexpr_view(*r)), op),
        ResolvedExpression::Term(t) => RExpr::Term(rterm_view(t)),
        ResolvedExpression::FunctionCall { function, args } => RExpr::Call(function, rexprs_view(args@)),
    }
}

pub open spec fn rexprs_view(es: Seq<ResolvedExpression>) -> Seq<RExpr>
    decreases es, 1nat,
{
    if es.len() == 0 {
        Seq::empty()
    } else {
        rexprs_view(es.drop_last()).push(rexpr_view(es.last()))
    }
}

pub open spec fn rstmt_view(s: ResolvedStatement) -> RStmt
    decreases s, 0nat,
{
    match s {
        ResolvedStatement::Exit(e) => RStmt::Exit(rexpr_view(e)),
        ResolvedStatement::Let { symbol, expr } => RStmt::Let(symbol, rexpr_view(expr)),
        ResolvedStatement::If { cond, then, els } => RStmt::If(
            rexpr_view(cond),
            rstmts_view(then@),
            match els {
                Some(c) => Some(relse_view(c)),
                None => None,
            },
        ),
        ResolvedStatement::While { cond, body } => RStmt::While(rexpr_view(cond), rstmts_view(body@)),
        ResolvedStatement::Assignment { symbol, expr } => RStmt::Assign(symbol, rexpr_view(expr)),
        ResolvedStatement::FunctionCall { function, args } => RStmt::Call(function, rexprs_view(args@)),
        ResolvedStatement::Return(e) => RStmt::Return(rexpr_view(e)),
    }
}

pub open spec fn rstmts_view(ss: Seq<ResolvedStatement>) -> Seq<RStmt>
    decreases ss, 1nat,
{
    if ss.len() == 0 {
        Seq::empty()
    } else {
        rstmts_view(ss.drop_last()).push(rstmt_view(ss.last()))
    }
}

pub open spec fn relse_view(c: ResolvedElseClause) -> RElse
    decreases c, 0nat,
{
    RElse {
        cond: match c.cond {
            Some(e) => Some(rexpr_view(e)),
            None => None,
        },
        body: rstmts_view(c.body@),
        els: match *c.els {
            Some(n) => Some(Box::new(relse_view(n))),
            None => None,
        },
    }
}

pub open spec fn rfunction_view(f: ResolvedFunction) -> RFunction {
    RFunction {
        id: f.id,
        name: f.name,
        args: f.args@.map_values(|a: ResolvedArgument| (a.symbol, a.ty)),
        ret_sig: f.ret_sig,
        body: rstmts_view(f.body@),
    }
}

pub open spec fn rprogram_view(p: ResolvedProgram) -> RProgram {
    RProgram {
        main: match p.main {
            Some(m) => Some(rfunction_view(m)),
            None => None,
        },
        functions: p.functions@.map_values(|f: ResolvedFunction| rfunction_view(f)),
    }
}

/// The state of name resolution: variable scopes (innermost last), functions, and the numbers
/// the next symbol and function get.
#[verifier::ext_equal]
pub struct RState {
    pub scopes: Seq<Map<Seq<char>, SymbolId>>,
    pub fns: Map<Seq<char>, FunctionId>,
    pub next_symbol: usize,
    pub next_function: usize,
}

/// A resolution step: `None` where the resolver panics, else the new state and the result, or
/// the error.
pub type RStep<T> = Option<Result<(RState, T), ResolveError>>;

/// The symbol of `name` in the innermost scope declaring it.
pub open spec fn scopes_lookup(scopes: Seq<Map<Seq<char>, SymbolId>>, name: Seq<char>) -> Option<SymbolId>
    decreases scopes.len(),
{
    if scopes.len() == 0 {
        None
    } else if scopes.last().contains_key(name) {
        Some(scopes.last()[name])
    } else {
        scopes_lookup(scopes.drop_last(), name)
    }
}

/// Resolves expression `e`: variables to their symbols, calls to their functions (the callee
/// first, then the arguments in order).
pub open spec fn rs_expr(st: RState, e: SExpr) -> Result<RExpr, ResolveError>
    decreases e, 0nat,
{
    match e {
        SExpr::Binary(l, r, op) => match rs_expr(st, *l) {
            Ok(a) => match rs_expr(st, *r) {
                Ok(b) => Ok(RExpr::Binary(Box::new(a), Box::new(b), op)),
                Err(err) => Err(err),
            },
            Err(err) => Err(err),
        },
        SExpr::Term(t) => match t {
            Term::Identifier(name) => match scopes_lookup(st.scopes, name@) {
                Some(sym) => Ok(RExpr::Term(ResolvedTermV::Identifier(sym))),
                None => Err(ResolveError::UndefinedVariable(name)),
            },
            Term::IntLit(v) => Ok(RExpr::Term(ResolvedTermV::IntLit(v))),
            Term::Bool(b) => Ok(RExpr::Term(ResolvedTermV::Bool(b))),
        },
        SExpr::Call(name, args) => if st.fns.contains_key(name.name@) {
            match rs_exprs(st, args, 0) {
                Ok(ra) => Ok(RExpr::Call(st.fns[name.name@], ra)),
                Err(err) => Err(err),
            }
        } else {
            Err(ResolveError::UndefinedFunction(name.name))
        },
    }
}

/// Resolves `args[k..]` in order.
pub open spec fn rs_exprs(st: RState, args: Seq<SExpr>, k: int) -> Result<Seq<RExpr>, ResolveError>
    decreases args, args.len() - k,
{
    if k < 0 || k >= args.len() {
        Ok(Seq::empty())
    } else {
        match rs_expr(st, args[k]) {
            Ok(a) => match rs_exprs(st, args, k + 1) {
                Ok(rest) => Ok(seq![a] + rest),
                Err(err) => Err(err),
            },
            Err(err) => Err(err),
        }
    }
}

/// Declares a variable in the innermost scope with the next symbol number; a second declaration
/// of a name in one scope is an error.
pub open spec fn rs_declare(st: RState, name: String) -> RStep<SymbolId> {
    if st.scopes.len() == 0 || st.next_symbol == usize::MAX {
        None
    } else if st.scopes.last().contains_key(name@) {
        Some(Err(ResolveError::DuplicateVariable(name)))
    } else {
        let sym = SymbolId { name, id: st.next_symbol };
        Some(Ok((RState {
            scopes: st.scopes.update(st.scopes.len() - 1, st.scopes.last().insert(name@, sym)),
            fns: st.fns,
            next_symbol: (st.next_symbol + 1) as usize,
            next_function: st.next_function,
        }, sym)))
    }
}

/// `st` with a new innermost scope.
pub open spec fn push_scope(st: RState) -> RState {
    RState { scopes: st.scopes.push(Map::empty()), ..st }
}

/// `st` without its innermost scope.
pub open spec fn pop_scope(st: RState) -> RState {
    RState { scopes: if st.scopes.len() > 0 { st.scopes.drop_last() } else { st.scopes }, ..st }
}

/// Resolves a statement. A `let` resolves its value before declaring its variable; the bodies
/// of `if`, `else` and `while` get scopes of their own.
pub open spec fn rs_stmt(st: RState, s: SStmt) -> RStep<RStmt>
    decreases s, 0nat,
{
    match s {
        SStmt::Exit(e) => match rs_expr(st, e) {
            Ok(r) => Some(Ok((st, RStmt::Exit(r)))),
            Err(err) => Some(Err(err)),
        },
        SStmt::Return(e) => match rs_expr(st, e) {
            Ok(r) => Some(Ok((st, RStmt::Return(r)))),
            Err(err) => Some(Err(err)),
        },
        SStmt::Let(id, e) => match rs_expr(st, e) {
            Ok(r) => match rs_declare(st, id.name) {
                Some(Ok((st1, sym))) => Some(Ok((st1, RStmt::Let(sym, r)))),
                Some(Err(err)) => Some(Err(err)),
                None => None,
            },
            Err(err) => Some(Err(err)),
        },
        SStmt::Assign(id, e) => match scopes_lookup(st.scopes, id.name@) {
            Some(sym) => match rs_expr(st, e) {
                Ok(r) => Some(Ok((st, RStmt::Assign(sym, r)))),
                Err(err) => Some(Err(err)),
            },
            None => Some(Err(ResolveError::UndefinedVariable(id.name))),
        },
        SStmt::Call(name, args) => if st.fns.contains_key(name.name@) {
            match rs_exprs(st, args, 0) {
                Ok(ra) => Some(Ok((st, RStmt::Call(st.fns[name.name@], ra)))),
                Err(err) => Some(Err(err)),
            }
        } else {
            Some(Err(ResolveError::UndefinedFunction(name.name)))
        },
        SStmt::While(c, body) => match rs_expr(st, c) {
            Ok(rc) => match rs_stmts(push_scope(st), body, 0) {
                Some(Ok((st1, rb))) => Some(Ok((pop_scope(st1), RStmt::While(rc, rb)))),
                Some(Err(err)) => Some(Err(err)),
                None => None,
            },
            Err(err) => Some(Err(err)),
        },
        SStmt::If(c, then, els) => match rs_expr(st, c) {
            Ok(rc) => match rs_stmts(push_scope(st), then, 0) {
                Some(Ok((st1, rt))) => match els {
                    Some(clause) => match rs_else(pop_scope(st1), clause) {
                        Some(Ok((st2, re))) => Some(Ok((st2, RStmt::If(rc, rt, Some(re))))),
                        Some(Err(err)) => Some(Err(err)),
                        None => None,
                    },
                    None => Some(Ok((pop_scope(st1), RStmt::If(rc, rt, None)))),
                },
                Some(Err(err)) => Some(Err(err)),
                None => None,
            },
            Err(err) => Some(Err(err)),
        },
    }
}

/// Resolves `ss[k..]` in order.
pub open spec fn rs_stmts(st: RState, ss: Seq<SStmt>, k: int) -> RStep<Seq<RStmt>>
    decreases ss, ss.len() - k,
{
    if k < 0 || k >= ss.len() {
        Some(Ok((st, Seq::empty())))
    } else {
        match rs_stmt(st, ss[k]) {
            Some(Ok((st1, r))) => match rs_stmts(st1, ss, k + 1) {
                Some(Ok((st2, rest))) => Some(Ok((st2, seq![r] + rest))),
                other => other,
            },
            Some(Err(err)) => Some(Err(err)),
            None => None,
        }
    }
}

/// Resolves an else clause and the clauses after it.
pub open spec fn rs_else(st: RState, c: SElse) -> RStep<RElse>
    decreases c, 0nat,
{
    let cond: Result<Option<RExpr>, ResolveError> = match c.cond {
        Some(e) => match rs_expr(st, e) {
            Ok(r) => Ok(Some(r)),
            Err(err) => Err(err),
        },
        None => Ok(None),
    };
    match cond {
        Ok(rc) => match rs_stmts(push_scope(st), c.body, 0) {
            Some(Ok((st1, rb))) => match c.els {
                Some(n) => match rs_else(pop_scope(st1), *n) {
                    Some(Ok((st2, rn))) => Some(Ok((st2, RElse { cond: rc, body: rb, els: Some(Box::new(rn)) }))),
                    Some(Err(err)) => Some(Err(err)),
                    None => None,
                },
                None => Some(Ok((pop_scope(st1), RElse { cond: rc, body: rb, els: None }))),
            },
            Some(Err(err)) => Some(Err(err)),
            None => None,
        },
        Err(err) => Some(Err(err)),
    }
}

/// Declares the parameters `args[k..]` in order.
pub open spec fn rs_args(st: RState, args: Seq<crate::parser::Argument>, k: int) -> RStep<Seq<(SymbolId, Type)>>
    decreases args.len() - k,
{
    if k < 0 || k >= args.len() {
        Some(Ok((st, Seq::empty())))
    } else {
        match rs_declare(st, args[k].name.name) {
            Some(Ok((st1, sym))) => match rs_args(st1, args, k + 1) {
                Some(Ok((st2, rest))) => Some(Ok((st2, seq![(sym, args[k].ty)] + rest))),
                other => other,
            },
            Some(Err(err)) => Some(Err(err)),
            None => None,
        }
    }
}

/// Resolves a registered function: its parameters and body in a scope of their own.
pub open spec fn rs_function(st: RState, f: SFunction) -> RStep<RFunction> {
    if !st.fns.contains_key(f.name.name@) {
        None
    } else {
        match rs_args(push_scope(st), f.args, 0) {
            Some(Ok((st1, args))) => match rs_stmts(st1, f.body, 0) {
                Some(Ok((st2, body))) => Some(Ok((pop_scope(st2), RFunction {
                    id: st.fns[f.name.name@],
                    name: f.name.name,
                    args,
                    ret_sig: f.ret_sig,
                    body,
                }))),
                Some(Err(err)) => Some(Err(err)),
                None => None,
            },
            Some(Err(err)) => Some(Err(err)),
            None => None,
        }
    }
}

/// Resolves the functions `fs[k..]` in order.
pub open spec fn rs_functions(st: RState, fs: Seq<SFunction>, k: int) -> RStep<Seq<RFunction>>
    decreases fs.len() - k,
{
    if k < 0 || k >= fs.len() {
        Some(Ok((st, Seq::empty())))
    } else {
        match rs_function(st, fs[k]) {
            Some(Ok((st1, f))) => match rs_functions(st1, fs, k + 1) {
                Some(Ok((st2, rest))) => Some(Ok((st2, seq![f] + rest))),
                other => other,
            },
            Some(Err(err)) => Some(Err(err)),
            None => None,
        }
    }
}

/// Registers a function under the next function number; a name may be registered once.
pub open spec fn rs_register(st: RState, name: String) -> RStep<FunctionId> {
    if st.fns.contains_key(name@) {
        Some(Err(ResolveError::DuplicateFunction(name)))
    } else if st.next_function == usize::MAX {
        None
    } else {
        let id = FunctionId { name, id: st.next_function };
        Some(Ok((RState { fns: st.fns.insert(name@, id), next_function: (st.next_function + 1) as usize, ..st }, id)))
    }
}

/// Registers the functions `fs[k..]` in order.
pub open spec fn rs_register_all(st: RState, fs: Seq<SFunction>, k: int) -> RStep<()>
    decreases fs.len() - k,
{
    if k < 0 || k >= fs.len() {
        Some(Ok((st, ())))
    } else {
        match rs_register(st, fs[k].name.name) {
            Some(Ok((st1, _))) => rs_register_all(st1, fs, k + 1),
            Some(Err(err)) => Some(Err(err)),
            None => None,
        }
    }
}

/// The rest of resolving `p` once its functions are registered and `main` (if any) is resolved
/// to `m`: the other functions in order.
pub open spec fn rs_rest(st: RState, m: Option<RFunction>, p: SProgram) -> Option<Result<RProgram, ResolveError>> {
    match rs_functions(st, p.functions, 0) {
        Some(Ok((_, fs))) => Some(Ok(RProgram { main: m, functions: fs })),
        Some(Err(err)) => Some(Err(err)),
        None => None,
    }
}

/// Resolving `p` once every function is registered: `main`, then the others.
pub open spec fn rs_resolve_all(st: RState, p: SProgram) -> Option<Result<RProgram, ResolveError>> {
    match p.main {
        Some(m) => match rs_function(st, m) {
            Some(Ok((st3, f))) => rs_rest(st3, Some(f), p),
            Some(Err(err)) => Some(Err(err)),
            None => None,
        },
        None => rs_rest(st, None, p),
    }
}

/// Resolving `p` once `main` is registered: the other functions are registered, then all are
/// resolved.
pub open spec fn rs_after_main(st: RState, p: SProgram) -> Option<Result<RProgram, ResolveError>> {
    match rs_register_all(st, p.functions, 0) {
        Some(Ok((st2, _))) => rs_resolve_all(st2, p),
        Some(Err(err)) => Some(Err(err)),
        None => None,
    }
}

/// Resolves a program from state `st`: registers `main` and the other functions, then resolves
/// `main` and the others in order.
pub open spec fn rs_program(st: RState, p: SProgram) -> Option<Result<RProgram, ResolveError>> {
    match p.main {
        Some(m) => match rs_register(st, m.name.name) {
            Some(Ok((st1, _))) => rs_after_main(st1, p),
            Some(Err(err)) => Some(Err(err)),
            None => None,
        },
        None => rs_after_main(st, p),
    }
}


// ---------------------------------------------------------------------------------------------
// The resolver.

/// A scope as a map from variable names to symbols, later entries winning.
pub open spec fn sym_map(es: Seq<(String, SymbolId)>) -> Map<Seq<char>, SymbolId> {
    assoc(es.map_values(|e: (String, SymbolId)| (e.0@, e.1)))
}

/// The function table as a map from names to function identities.
pub open spec fn fn_map(es: Seq<(String, FunctionId)>) -> Map<Seq<char>, FunctionId> {
    assoc(es.map_values(|e: (String, FunctionId)| (e.0@, e.1)))
}

proof fn lemma_sym_map_push(es: Seq<(String, SymbolId)>, x: (String, SymbolId))
    ensures
        sym_map(es.push(x)) == sym_map(es).insert(x.0@, x.1),
{
    let f = |e: (String, SymbolId)| (e.0@, e.1);
    assert(es.push(x).map_values(f) =~= es.map_values(f).push(f(x)));
    lemma_assoc_push(es.map_values(f), f(x));
}

proof fn lemma_fn_map_push(es: Seq<(String, FunctionId)>, x: (String, FunctionId))
    ensures
        fn_map(es.push(x)) == fn_map(es).insert(x.0@, x.1),
{
    let f = |e: (String, FunctionId)| (e.0@, e.1);
    assert(es.push(x).map_values(f) =~= es.map_values(f).push(f(x)));
    lemma_assoc_push(es.map_values(f), f(x));
}

/// `r` with `p` in front of its sequence, when it is one.
pub open spec fn prefixed<T>(p: Seq<T>, r: Result<Seq<T>, ResolveError>) -> Result<Seq<T>, ResolveError> {
    match r {
        Ok(s) => Ok(p + s),
        Err(e) => Err(e),
    }
}

/// The step `r` with `p` in front of its sequence, when it is one.
pub open spec fn prefixed_step<T>(p: Seq<T>, r: RStep<Seq<T>>) -> RStep<Seq<T>> {
    match r {
        Some(Ok((st, s))) => Some(Ok((st, p + s))),
        Some(Err(e)) => Some(Err(e)),
        None => None,
    }
}

/// The state every resolution starts from.
pub open spec fn initial_rstate() -> RState {
    RState { scopes: Seq::empty(), fns: Map::empty(), next_symbol: 0, next_function: 0 }
}

proof fn lemma_rexprs_push(es: Seq<ResolvedExpression>, e: ResolvedExpression)
    ensures
        rexprs_view(es.push(e)) == rexprs_view(es).push(rexpr_view(e)),
{
    assert(es.push(e).drop_last() =~= es);
}

proof fn lemma_rstmts_push(ss: Seq<ResolvedStatement>, s: ResolvedStatement)
    ensures
        rstmts_view(ss.push(s)) == rstmts_view(ss).push(rstmt_view(s)),
{
    assert(ss.push(s).drop_last() =~= ss);
}

proof fn lemma_scopes_lookup_take(scopes: Seq<Map<Seq<char>, SymbolId>>, name: Seq<char>, i: int)
    requires
        0 <= i < scopes.len(),
    ensures
        scopes_lookup(scopes.take(i + 1), name) == (if scopes[i].contains_key(name) {
            Some(scopes[i][name])
        } else {
            scopes_lookup(scopes.take(i), name)
        }),
{
    assert(scopes.take(i + 1).drop_last() =~= scopes.take(i));
    assert(scopes.take(i + 1).last() == scopes[i]);
}

/// Gives every variable and function of a program a unique identity.
pub struct Resolver {
    scopes: Vec<Vec<(String, SymbolId)>>,
    functions: Vec<(String, FunctionId)>,
    next_symbol: usize,
    next_function: usize,
}

impl Default for Resolver {
    fn default() -> (r: Self)
        ensures
            r.state() == initial_rstate(),
    {
        Resolver::new()
    }
}

impl Resolver {
    /// The resolution state: scopes, functions and counters.
    pub closed spec fn state(&self) -> RState {
        RState {
            scopes: self.scopes@.map_values(|sc: Vec<(String, SymbolId)>| sym_map(sc@)),
            fns: fn_map(self.functions@),
            next_symbol: self.next_symbol,
            next_function: self.next_function,
        }
    }

    /// A resolver with no scope and no function.
    pub fn new() -> (r: Resolver)
        ensures
            r.state() == initial_rstate(),
    {
        let r = Resolver { scopes: Vec::new(), functions: Vec::new(), next_symbol: 0, next_function: 0 };
        proof {
            assert(r.state().scopes =~= Seq::<Map<Seq<char>, SymbolId>>::empty());
            assert(r.functions@.map_values(|e: (String, FunctionId)| (e.0@, e.1)) =~= Seq::empty());
        }
        r
    }

    fn push_scope(&mut self)
        ensures
            final(self).state() == push_scope(old(self).state()),
    {
        let ghost s0 = self.scopes@;
        let v: Vec<(String, SymbolId)> = Vec::new();
        let ghost vv = v;
        self.scopes.push(v);
        proof {
            assert(sym_map(vv@) =~= Map::<Seq<char>, SymbolId>::empty()) by {
                assert(vv@.map_values(|e: (String, SymbolId)| (e.0@, e.1)) =~= Seq::empty());
            }
            assert(self.state().scopes =~= push_scope(old(self).state()).scopes);
        }
    }

    fn pop_scope(&mut self)
        ensures
            final(self).state() == pop_scope(old(self).state()),
    {
        if self.scopes.len() > 0 {
            let _ = self.scopes.pop();
            proof {
                assert(self.state().scopes =~= pop_scope(old(self).state()).scopes);
            }
        }
    }

    /// Declares `name` in the innermost scope.
    fn declare(&mut self, name: &String) -> (r: Result<SymbolId, ResolveError>)
        requires
            rs_declare(old(self).state(), *name) is Some,
        ensures
            match r {
                Ok(sym) => rs_declare(old(self).state(), *name) == Some(Ok::<(RState, SymbolId), ResolveError>((final(self).state(), sym))),
                Err(e) => rs_declare(old(self).state(), *name) == Some(Err::<(RState, SymbolId), ResolveError>(e)),
            },
    {
        let ghost st0 = self.state();
        let ghost s0 = self.scopes@;
        let mut scope = self.scopes.pop().unwrap();
        proof {
            assert(scope == s0[s0.len() - 1]);
            assert(st0.scopes[st0.scopes.len() - 1] == sym_map(s0[s0.len() - 1]@));
        }
        let ghost es = scope@.map_values(|e: (String, SymbolId)| (e.0@, e.1));
        let mut i: usize = scope.len();
        while i > 0
            invariant
                0 <= i <= scope@.len(),
                es == scope@.map_values(|e: (String, SymbolId)| (e.0@, e.1)),
                forall|j: int| i <= j < scope@.len() ==> es[j].0 != name@,
                st0.scopes.len() > 0,
                st0.scopes.last() == sym_map(scope@),
                st0 == old(self).state(),
                rs_declare(st0, *name) is Some,
            decreases i,
        {
            i = i - 1;
            if scope[i].0 == *name {
                proof {
                    lemma_assoc_found(es, i as int, name@);
                    assert(sym_map(scope@).contains_key(name@));
                    assert(st0.scopes.last().contains_key(name@));
                }
                let n = name.clone();
                assert(n == *name);
                return Err(ResolveError::DuplicateVariable(n));
            }
        }
        proof {
            lemma_assoc_absent(es, name@);
        }
        let sym = SymbolId { name: name.clone(), id: self.next_symbol };
        self.next_symbol = self.next_symbol + 1;
        let ghost sc0 = scope@;
        scope.push((name.clone(), sym.copy()));
        self.scopes.push(scope);
        proof {
            lemma_sym_map_push(sc0, (*name, sym));
            assert(self.state().scopes =~= st0.scopes.update(st0.scopes.len() - 1, st0.scopes.last().insert(name@, sym)));
        }
        Ok(sym)
    }

    /// The symbol of `name` in the innermost scope that declares it.
    fn lookup(&self, name: &String) -> (r: Result<SymbolId, ResolveError>)
        ensures
            r == (match scopes_lookup(self.state().scopes, name@) {
                Some(s) => Ok::<SymbolId, ResolveError>(s),
                None => Err(ResolveError::UndefinedVariable(*name)),
            }),
    {
        let ghost all = self.state().scopes;
        proof {
            assert(all.take(all.len() as int) =~= all);
        }
        let mut i: usize = self.scopes.len();
        while i > 0
            invariant
                0 <= i <= self.scopes@.len(),
                all == self.state().scopes,
                all.len() == self.scopes@.len(),
                scopes_lookup(all, name@) == scopes_lookup(all.take(i as int), name@),
            decreases i,
        {
            let ghost es = self.scopes@[i - 1]@.map_values(|e: (String, SymbolId)| (e.0@, e.1));
            proof {
                lemma_scopes_lookup_take(all, name@, i - 1);
                assert(all[i - 1] == sym_map(self.scopes@[i - 1]@));
            }
            let scope = &self.scopes[i - 1];
            let mut j: usize = scope.len();
            while j > 0
                invariant
                    0 <= j <= scope@.len(),
                    es == scope@.map_values(|e: (String, SymbolId)| (e.0@, e.1)),
                    forall|q: int| j <= q < scope@.len() ==> es[q].0 != name@,
                    0 < i <= all.len(),
                    all == self.state().scopes,
                    all[i - 1] == sym_map(scope@),
                    scopes_lookup(all, name@) == scopes_lookup(all.take(i as int), name@),
                    scopes_lookup(all.take(i as int), name@) == (if all[i - 1].contains_key(name@) {
                        Some(all[i - 1][name@])
                    } else {
                        scopes_lookup(all.take(i - 1), name@)
                    }),
                decreases j,
            {
                j = j - 1;
                if scope[j].0 == *name {
                    proof {
                        lemma_assoc_found(es, j as int, name@);
                        assert(sym_map(scope@).contains_key(name@));
                        assert(all[i - 1].contains_key(name@));
                        assert(scopes_lookup(all.take(i as int), name@) == Some(all[i - 1][name@]));
                    }
                    return Ok(scope[j].1.copy());
                }
            }
            proof {
                lemma_assoc_absent(es, name@);
            }
            i = i - 1;
        }
        proof {
            assert(all.take(0) =~= Seq::<Map<Seq<char>, SymbolId>>::empty());
            assert(all.take(all.len() as int) =~= all);
        }
        Err(ResolveError::UndefinedVariable(name.clone()))
    }

    /// The identity of the function `name`.
    fn lookup_function(&self, name: &String) -> (r: Result<FunctionId, ResolveError>)
        ensures
            r == (if self.state().fns.contains_key(name@) {
                Ok::<FunctionId, ResolveError>(self.state().fns[name@])
            } else {
                Err(ResolveError::UndefinedFunction(*name))
            }),
    {
        let ghost es = self.functions@.map_values(|e: (String, FunctionId)| (e.0@, e.1));
        let mut i: usize = self.functions.len();
        while i > 0
            invariant
                0 <= i <= self.functions@.len(),
                es == self.functions@.map_values(|e: (String, FunctionId)| (e.0@, e.1)),
                forall|j: int| i <= j < self.functions@.len() ==> es[j].0 != name@,
            decreases i,
        {
            i = i - 1;
            if self.functions[i].0 == *name {
                proof {
                    lemma_assoc_found(es, i as int, name@);
                }
                return Ok(self.functions[i].1.copy());
            }
        }
        proof {
            lemma_assoc_absent(es, name@);
        }
        Err(ResolveError::UndefinedFunction(name.clone()))
    }

    /// Registers a function under the next function number.
    fn register_function(&mut self, name: &String) -> (r: Result<FunctionId, ResolveError>)
        requires
            rs_register(old(self).state(), *name) is Some,
        ensures
            match r {
                Ok(id) => rs_register(old(self).state(), *name) == Some(Ok::<(RState, FunctionId), ResolveError>((final(self).state(), id))),
                Err(e) => rs_register(old(self).state(), *name) == Some(Err::<(RState, FunctionId), ResolveError>(e)),
            },
    {
        match self.lookup_function(name) {
            Ok(_) => {
                return Err(ResolveError::DuplicateFunction(name.clone()));
            },
            Err(_) => {},
        }
        let id = FunctionId { name: name.clone(), id: self.next_function };
        self.next_function = self.next_function + 1;
        let ghost f0 = self.functions@;
        self.functions.push((name.clone(), id.copy()));
        proof {
            lemma_fn_map_push(f0, (*name, id));
            assert(self.state().scopes =~= old(self).state().scopes);
        }
        Ok(id)
    }
}


proof fn lemma_prefixed_push<T>(v: Seq<T>, x: T, r: Result<Seq<T>, ResolveError>)
    ensures
        prefixed(v, match r {
            Ok(rest) => Ok(seq![x] + rest),
            Err(e) => Err(e),
        }) == prefixed(v.push(x), r),
{
    match r {
        Ok(rest) => {
            assert(v + (seq![x] + rest) =~= v.push(x) + rest);
        },
        Err(_) => {},
    }
}

proof fn lemma_prefixed_step_push<T>(v: Seq<T>, x: T, r: RStep<Seq<T>>)
    ensures
        prefixed_step(v, match r {
            Some(Ok((st2, rest))) => Some(Ok((st2, seq![x] + rest))),
            other => other,
        }) == prefixed_step(v.push(x), r),
{
    match r {
        Some(Ok((st2, rest))) => {
            assert(v + (seq![x] + rest) =~= v.push(x) + rest);
        },
        _ => {},
    }
}

impl Resolver {
    fn resolve_expr(&self, expr: &Expression) -> (r: Result<ResolvedExpression, ResolveError>)
        ensures
            match r {
                Ok(e) => rs_expr(self.state(), expr_view(*expr)) == Ok::<RExpr, ResolveError>(rexpr_view(e)),
                Err(err) => rs_expr(self.state(), expr_view(*expr)) == Err::<RExpr, ResolveError>(err),
            },
        decreases *expr, 0nat,
    {
        match &expr.variant {
            ExpressionVariant::BinaryExpr(lhs, rhs, op) => {
                let l = match self.resolve_expr(lhs) {
                    Ok(e) => e,
                    Err(err) => {
                        return Err(err);
                    },
                };
                let r = match self.resolve_expr(rhs) {
                    Ok(e) => e,
                    Err(err) => {
                        return Err(err);
                    },
                };
                Ok(ResolvedExpression::BinaryExpr(Box::new(l), Box::new(r), *op))
            },
            ExpressionVariant::Term(term) => match term {
                Term::Identifier(name) => match self.lookup(name) {
                    Ok(sym) => Ok(ResolvedExpression::Term(ResolvedTerm::Identifier(sym))),
                    Err(err) => Err(err),
                },
                Term::IntLit(v) => Ok(ResolvedExpression::Term(ResolvedTerm::IntLit(*v))),
                Term::Bool(b) => Ok(ResolvedExpression::Term(ResolvedTerm::Bool(*b))),
            },
            ExpressionVariant::FunctionCall { name, args } => {
                let function = match self.lookup_function(&name.name) {
                    Ok(f) => f,
                    Err(err) => {
                        return Err(err);
                    },
                };
                let resolved = match self.resolve_args(args) {
                    Ok(v) => v,
                    Err(err) => {
                        return Err(err);
                    },
                };
                Ok(ResolvedExpression::FunctionCall { function, args: resolved })
            },
        }
    }

    /// Resolves the arguments of a call, in order.
    fn resolve_args(&self, args: &Vec<Expression>) -> (r: Result<Vec<ResolvedExpression>, ResolveError>)
        ensures
            match r {
                Ok(v) => rs_exprs(self.state(), exprs_view(args@), 0) == Ok::<Seq<RExpr>, ResolveError>(rexprs_view(v@)),
                Err(err) => rs_exprs(self.state(), exprs_view(args@), 0) == Err::<Seq<RExpr>, ResolveError>(err),
            },
        decreases *args, 1nat,
    {
        let ghost es = exprs_view(args@);
        proof {
            lemma_exprs_view(args@);
        }
        let mut out: Vec<ResolvedExpression> = Vec::new();
        let mut k: usize = 0;
        while k < args.len()
            invariant
                0 <= k <= args@.len(),
                es == exprs_view(args@),
                es.len() == args@.len(),
                forall|q: int| 0 <= q < args@.len() ==> #[trigger] es[q] == expr_view(args@[q]),
                rs_exprs(self.state(), es, 0) == prefixed(rexprs_view(out@), rs_exprs(self.state(), es, k as int)),
            decreases args@.len() - k,
        {
            let a = match self.resolve_expr(&args[k]) {
                Ok(a) => a,
                Err(err) => {
                    return Err(err);
                },
            };
            proof {
                lemma_rexprs_push(out@, a);
                lemma_prefixed_push(rexprs_view(out@), rexpr_view(a), rs_exprs(self.state(), es, k + 1));
            }
            out.push(a);
            k = k + 1;
        }
        proof {
            assert(rexprs_view(out@) + Seq::<RExpr>::empty() =~= rexprs_view(out@));
        }
        Ok(out)
    }

    fn resolve_statement(&mut self, stmt: &Statement) -> (r: Result<ResolvedStatement, ResolveError>)
        requires
            rs_stmt(old(self).state(), stmt_view(*stmt)) is Some,
        ensures
            match r {
                Ok(s) => rs_stmt(old(self).state(), stmt_view(*stmt)) == Some(Ok::<(RState, RStmt), ResolveError>((final(self).state(), rstmt_view(s)))),
                Err(err) => rs_stmt(old(self).state(), stmt_view(*stmt)) == Some(Err::<(RState, RStmt), ResolveError>(err)),
            },
        decreases *stmt, 0nat,
    {
        match &stmt.variant {
            StatementVariant::Exit(e) => match self.resolve_expr(e) {
                Ok(e) => Ok(ResolvedStatement::Exit(e)),
                Err(err) => Err(err),
            },
            StatementVariant::Return(e) => match self.resolve_expr(e) {
                Ok(e) => Ok(ResolvedStatement::Return(e)),
                Err(err) => Err(err),
            },
            StatementVariant::Let { ident, expr } => {
                let e = match self.resolve_expr(expr) {
                    Ok(e) => e,
                    Err(err) => {
                        return Err(err);
                    },
                };
                let sym = match self.declare(&ident.name) {
                    Ok(s) => s,
                    Err(err) => {
                        return Err(err);
                    },
                };
                Ok(ResolvedStatement::Let { symbol: sym, expr: e })
            },
            StatementVariant::Assignment { ident, expr } => {
                let sym = match self.lookup(&ident.name) {
                    Ok(s) => s,
                    Err(err) => {
                        return Err(err);
                    },
                };
                match self.resolve_expr(expr) {
                    Ok(e) => Ok(ResolvedStatement::Assignment { symbol: sym, expr: e }),
                    Err(err) => Err(err),
                }
            },
            StatementVariant::FunctionCall { name, args } => {
                let function = match self.lookup_function(&name.name) {
                    Ok(f) => f,
                    Err(err) => {
                        return Err(err);
                    },
                };
                match self.resolve_args(args) {
                    Ok(v) => Ok(ResolvedStatement::FunctionCall { function, args: v }),
                    Err(err) => Err(err),
                }
            },
            StatementVariant::While { cond, body } => {
                let c = match self.resolve_expr(cond) {
                    Ok(e) => e,
                    Err(err) => {
                        return Err(err);
                    },
                };
                self.push_scope();
                let b = match self.resolve_statements(body) {
                    Ok(b) => b,
                    Err(err) => {
                        return Err(err);
                    },
                };
                self.pop_scope();
                Ok(ResolvedStatement::While { cond: c, body: b })
            },
            StatementVariant::If { cond, then, els } => {
                let c = match self.resolve_expr(cond) {
                    Ok(e) => e,
                    Err(err) => {
                        return Err(err);
                    },
                };
                self.push_scope();
                let t = match self.resolve_statements(then) {
                    Ok(b) => b,
                    Err(err) => {
                        return Err(err);
                    },
                };
                self.pop_scope();
                let e = match els {
                    Some(clause) => match self.resolve_else(clause) {
                        Ok(rc) => Some(rc),
                        Err(err) => {
                            return Err(err);
                        },
                    },
                    None => None,
                };
                Ok(ResolvedStatement::If { cond: c, then: t, els: e })
            },
        }
    }

    fn resolve_else(&mut self, c: &ElseClause) -> (r: Result<ResolvedElseClause, ResolveError>)
        requires
            rs_else(old(self).state(), else_view(*c)) is Some,
        ensures
            match r {
                Ok(rc) => rs_else(old(self).state(), else_view(*c)) == Some(Ok::<(RState, RElse), ResolveError>((final(self).state(), relse_view(rc)))),
                Err(err) => rs_else(old(self).state(), else_view(*c)) == Some(Err::<(RState, RElse), ResolveError>(err)),
            },
        decreases *c, 0nat,
    {
        let cond = match &c.cond {
            Some(e) => match self.resolve_expr(e) {
                Ok(e) => Some(e),
                Err(err) => {
                    return Err(err);
                },
            },
            None => None,
        };
        self.push_scope();
        let body = match self.resolve_statements(&c.body) {
            Ok(b) => b,
            Err(err) => {
                return Err(err);
            },
        };
        self.pop_scope();
        let nested = match &*c.els {
            Some(n) => match self.resolve_else(n) {
                Ok(rn) => Some(rn),
                Err(err) => {
                    return Err(err);
                },
            },
            None => None,
        };
        Ok(ResolvedElseClause { cond, body, els: Box::new(nested) })
    }

    fn resolve_statements(&mut self, stmts: &Vec<Statement>) -> (r: Result<Vec<ResolvedStatement>, ResolveError>)
        requires
            rs_stmts(old(self).state(), stmts_view(stmts@), 0) is Some,
        ensures
            match r {
                Ok(v) => rs_stmts(old(self).state(), stmts_view(stmts@), 0) == Some(Ok::<(RState, Seq<RStmt>), ResolveError>((final(self).state(), rstmts_view(v@)))),
                Err(err) => rs_stmts(old(self).state(), stmts_view(stmts@), 0) == Some(Err::<(RState, Seq<RStmt>), ResolveError>(err)),
            },
        decreases *stmts, 1nat,
    {
        let ghost ss = stmts_view(stmts@);
        let ghost st0 = self.state();
        proof {
            lemma_stmts_view(stmts@);
        }
        let mut out: Vec<ResolvedStatement> = Vec::new();
        let mut k: usize = 0;
        while k < stmts.len()
            invariant
                0 <= k <= stmts@.len(),
                ss == stmts_view(stmts@),
                ss.len() == stmts@.len(),
                forall|q: int| 0 <= q < stmts@.len() ==> #[trigger] ss[q] == stmt_view(stmts@[q]),
                st0 == old(self).state(),
                rs_stmts(st0, ss, 0) is Some,
                rs_stmts(st0, ss, 0) == prefixed_step(rstmts_view(out@), rs_stmts(self.state(), ss, k as int)),
            decreases stmts@.len() - k,
        {
            let ghost stk = self.state();
            let s = match self.resolve_statement(&stmts[k]) {
                Ok(s) => s,
                Err(err) => {
                    return Err(err);
                },
            };
            proof {
                lemma_rstmts_push(out@, s);
                lemma_prefixed_step_push(rstmts_view(out@), rstmt_view(s), rs_stmts(self.state(), ss, k + 1));
            }
            out.push(s);
            k = k + 1;
        }
        proof {
            assert(rstmts_view(out@) + Seq::<RStmt>::empty() =~= rstmts_view(out@));
        }
        Ok(out)
    }
}


/// The view of an optional resolved function.
pub open spec fn rmain_view(m: Option<ResolvedFunction>) -> Option<RFunction> {
    match m {
        Some(f) => Some(rfunction_view(f)),
        None => None,
    }
}

/// The parameters of a resolved function as (symbol, type) pairs.
pub open spec fn rargs_view(args: Seq<ResolvedArgument>) -> Seq<(SymbolId, Type)> {
    args.map_values(|a: ResolvedArgument| (a.symbol, a.ty))
}

impl Resolver {
    fn resolve_function(&mut self, func: &Function) -> (r: Result<ResolvedFunction, ResolveError>)
        requires
            rs_function(old(self).state(), function_view(*func)) is Some,
        ensures
            match r {
                Ok(f) => rs_function(old(self).state(), function_view(*func)) == Some(Ok::<(RState, RFunction), ResolveError>((final(self).state(), rfunction_view(f)))),
                Err(err) => rs_function(old(self).state(), function_view(*func)) == Some(Err::<(RState, RFunction), ResolveError>(err)),
            },
    {
        let ghost st0 = self.state();
        let ghost fv = function_view(*func);
        let id = match self.lookup_function(&func.name.name) {
            Ok(id) => id,
            Err(err) => {
                return Err(err);
            },
        };
        self.push_scope();
        let ghost st1 = self.state();
        let mut args: Vec<ResolvedArgument> = Vec::new();
        let mut k: usize = 0;
        while k < func.args.len()
            invariant
                0 <= k <= func.args@.len(),
                fv == function_view(*func),
                fv.args == func.args@,
                st1 == push_scope(st0),
                st0 == old(self).state(),
                st0.fns.contains_key(fv.name.name@),
                rs_args(st1, fv.args, 0) is Some,
                rs_args(st1, fv.args, 0) == prefixed_step(rargs_view(args@), rs_args(self.state(), fv.args, k as int)),
            decreases func.args@.len() - k,
        {
            let sym = match self.declare(&func.args[k].name.name) {
                Ok(s) => s,
                Err(err) => {
                    return Err(err);
                },
            };
            let a = ResolvedArgument { symbol: sym, ty: func.args[k].ty };
            proof {
                assert(rargs_view(args@.push(a)) =~= rargs_view(args@).push((sym, a.ty)));
                lemma_prefixed_step_push(rargs_view(args@), (sym, a.ty), rs_args(self.state(), fv.args, k + 1));
            }
            args.push(a);
            k = k + 1;
        }
        proof {
            assert(rargs_view(args@) + Seq::<(SymbolId, Type)>::empty() =~= rargs_view(args@));
        }
        let body = match self.resolve_statements(&func.body) {
            Ok(b) => b,
            Err(err) => {
                return Err(err);
            },
        };
        self.pop_scope();
        Ok(ResolvedFunction { id, name: func.name.name.clone(), args, ret_sig: func.ret_sig, body })
    }

    /// Resolves a program: registers `main` and the other functions, then resolves `main` and
    /// the others in order. Fails on a name declared twice in one scope, a function defined
    /// twice, or a use of an undeclared variable or function.
    pub fn resolve_program(self, program: Program) -> (r: Result<ResolvedProgram, ResolveError>)
        requires
            rs_program(self.state(), program_view(program)) is Some,
        ensures
            match r {
                Ok(p) => rs_program(self.state(), program_view(program)) == Some(Ok::<RProgram, ResolveError>(rprogram_view(p))),
                Err(err) => rs_program(self.state(), program_view(program)) == Some(Err::<RProgram, ResolveError>(err)),
            },
    {
        let ghost st0 = self.state();
        let mut res = self;
        let ghost pv = program_view(program);
        match &program.main {
            Some(main) => match res.register_function(&main.name.name) {
                Ok(_) => {},
                Err(err) => {
                    return Err(err);
                },
            },
            None => {},
        }
        let ghost st_a = res.state();
        assert(rs_program(st0, pv) == rs_after_main(st_a, pv));
        let mut k: usize = 0;
        while k < program.functions.len()
            invariant
                0 <= k <= program.functions@.len(),
                pv == program_view(program),
                pv.functions.len() == program.functions@.len(),
                forall|q: int| 0 <= q < program.functions@.len() ==> #[trigger] pv.functions[q] == function_view(program.functions@[q]),
                rs_after_main(st_a, pv) is Some,
                st0 == self.state(),
                rs_program(st0, pv) == rs_after_main(st_a, pv),
                rs_register_all(st_a, pv.functions, 0) == rs_register_all(res.state(), pv.functions, k as int),
            decreases program.functions@.len() - k,
        {
            match res.register_function(&program.functions[k].name.name) {
                Ok(_) => {},
                Err(err) => {
                    return Err(err);
                },
            }
            k = k + 1;
        }
        let ghost st_b = res.state();
        assert(rs_after_main(st_a, pv) == rs_resolve_all(st_b, pv));
        let main = match &program.main {
            Some(f) => match res.resolve_function(f) {
                Ok(rf) => Some(rf),
                Err(err) => {
                    return Err(err);
                },
            },
            None => None,
        };
        let ghost st_c = res.state();
        let ghost mv = rmain_view(main);
        assert(rs_resolve_all(st_b, pv) == rs_rest(st_c, mv, pv));
        assert(rs_program(st0, pv) == rs_rest(st_c, mv, pv));
        let mut functions: Vec<ResolvedFunction> = Vec::new();
        let mut j: usize = 0;
        while j < program.functions.len()
            invariant
                0 <= j <= program.functions@.len(),
                pv == program_view(program),
                pv.functions.len() == program.functions@.len(),
                forall|q: int| 0 <= q < program.functions@.len() ==> #[trigger] pv.functions[q] == function_view(program.functions@[q]),
                rs_functions(st_c, pv.functions, 0) is Some,
                st0 == self.state(),
                mv == rmain_view(main),
                rs_program(st0, pv) == rs_rest(st_c, mv, pv),
                rs_functions(st_c, pv.functions, 0) == prefixed_step(
                    functions@.map_values(|f: ResolvedFunction| rfunction_view(f)),
                    rs_functions(res.state(), pv.functions, j as int),
                ),
            decreases program.functions@.len() - j,
        {
            let f = match res.resolve_function(&program.functions[j]) {
                Ok(f) => f,
                Err(err) => {
                    return Err(err);
                },
            };
            proof {
                assert(functions@.push(f).map_values(|f: ResolvedFunction| rfunction_view(f)) =~= functions@.map_values(
                    |f: ResolvedFunction| rfunction_view(f),
                ).push(rfunction_view(f)));
                lemma_prefixed_step_push(
                    functions@.map_values(|f: ResolvedFunction| rfunction_view(f)),
                    rfunction_view(f),
                    rs_functions(res.state(), pv.functions, j + 1),
                );
            }
            functions.push(f);
            j = j + 1;
        }
        proof {
            assert(functions@.map_values(|f: ResolvedFunction| rfunction_view(f)) + Seq::<RFunction>::empty() =~= functions@.map_values(
                |f: ResolvedFunction| rfunction_view(f),
            ));
        }
        Ok(ResolvedProgram { main, functions })
    }
}


/// The message of a resolution error.
pub open spec fn resolve_error_text(e: ResolveError) -> Seq<char> {
    match e {
        ResolveError::DuplicateFunction(n) => "duplicate function '"@ + n@ + "'"@,
        ResolveError::DuplicateVariable(n) => "duplicate variable '"@ + n@ + "' in scope"@,
        ResolveError::UndefinedVariable(n) => "undefined variable '"@ + n@ + "'"@,
        ResolveError::UndefinedFunction(n) => "undefined function '"@ + n@ + "'"@,
    }
}

impl ResolveError {
    /// The message of this error.
    pub fn text(&self) -> (s: String)
        ensures
            s@ == resolve_error_text(*self),
    {
        let (head, name, tail) = match self {
            ResolveError::DuplicateFunction(n) => ("duplicate function '", n, "'"),
            ResolveError::DuplicateVariable(n) => ("duplicate variable '", n, "' in scope"),
            ResolveError::UndefinedVariable(n) => ("undefined variable '", n, "'"),
            ResolveError::UndefinedFunction(n) => ("undefined function '", n, "'"),
        };
        let mut s = String::from_str(head);
        append(&mut s, name.as_str());
        append(&mut s, tail);
        s
    }
}


// Every variable of a resolved program, parameters and `let`s in all functions, gets a number of
// its own: the numbers are handed out in the order the declarations are met.

/// The variables a statement declares, in order.
pub open spec fn rstmt_decls(s: RStmt) -> Seq<SymbolId>
    decreases s, 0nat,
{
    match s {
        RStmt::Let(sym, _) => seq![sym],
        RStmt::If(_, then, els) => rstmts_decls(then) + match els {
            Some(c) => relse_decls(c),
            None => Seq::empty(),
        },
        RStmt::While(_, body) => rstmts_decls(body),
        _ => Seq::empty(),
    }
}

/// The variables statements declare, in order.
pub open spec fn rstmts_decls(ss: Seq<RStmt>) -> Seq<SymbolId>
    decreases ss, 1nat,
{
    if ss.len() == 0 {
        Seq::empty()
    } else {
        rstmt_decls(ss[0]) + rstmts_decls(ss.subrange(1, ss.len() as int))
    }
}

/// The variables an else clause and the clauses after it declare, in order.
pub open spec fn relse_decls(c: RElse) -> Seq<SymbolId>
    decreases c, 0nat,
{
    rstmts_decls(c.body) + match c.els {
        Some(n) => relse_decls(*n),
        None => Seq::empty(),
    }
}

/// The variables a function declares: its parameters, then those of its body.
pub open spec fn rfunction_decls(f: RFunction) -> Seq<SymbolId> {
    f.args.map_values(|a: (SymbolId, Type)| a.0) + rstmts_decls(f.body)
}

/// The variables the first `n` functions declare.
pub open spec fn rfunctions_decls(fs: Seq<RFunction>, n: int) -> Seq<SymbolId>
    decreases n,
{
    if n <= 0 {
        Seq::empty()
    } else {
        rfunctions_decls(fs, n - 1) + rfunction_decls(fs[n - 1])
    }
}

/// The variables a program declares: those of `main`, then those of the other functions.
pub open spec fn rprogram_decls(p: RProgram) -> Seq<SymbolId> {
    (match p.main {
        Some(m) => rfunction_decls(m),
        None => Seq::empty(),
    }) + rfunctions_decls(p.functions, p.functions.len() as int)
}

/// The symbols `ds` are numbered `n`, `n + 1`, ... in order.
pub open spec fn numbered_from(ds: Seq<SymbolId>, n: int) -> bool {
    forall|i: int| 0 <= i < ds.len() ==> (#[trigger] ds[i]).id == n + i
}

proof fn lemma_numbered_concat(a: Seq<SymbolId>, b: Seq<SymbolId>, n: int)
    requires
        numbered_from(a, n),
        numbered_from(b, n + a.len()),
    ensures
        numbered_from(a + b, n),
{
    assert forall|i: int| 0 <= i < (a + b).len() implies (#[trigger] (a + b)[i]).id == n + i by {
        if i >= a.len() {
            assert((a + b)[i] == b[i - a.len()]);
        }
    }
}

proof fn lemma_decls_cons(r: RStmt, rest: Seq<RStmt>)
    ensures
        rstmts_decls(seq![r] + rest) == rstmt_decls(r) + rstmts_decls(rest),
{
    let ss = seq![r] + rest;
    assert(ss[0] == r);
    assert(ss.subrange(1, ss.len() as int) =~= rest);
}

proof fn lemma_rs_stmt_numbers(st: RState, s: SStmt)
    requires
        rs_stmt(st, s) matches Some(Ok(_)),
    ensures
        ({
            let (st1, r) = rs_stmt(st, s).unwrap().unwrap();
            numbered_from(rstmt_decls(r), st.next_symbol as int)
                && st1.next_symbol == st.next_symbol + rstmt_decls(r).len()
        }),
    decreases s, 0nat,
{
    match s {
        SStmt::Let(id, e) => {},
        SStmt::While(c, body) => {
            lemma_rs_stmts_numbers(push_scope(st), body, 0);
        },
        SStmt::If(c, then, els) => {
            lemma_rs_stmts_numbers(push_scope(st), then, 0);
            let (st1, rt) = rs_stmts(push_scope(st), then, 0).unwrap().unwrap();
            match els {
                Some(clause) => {
                    lemma_rs_else_numbers(pop_scope(st1), clause);
                    let (st2, re) = rs_else(pop_scope(st1), clause).unwrap().unwrap();
                    lemma_numbered_concat(rstmts_decls(rt), relse_decls(re), st.next_symbol as int);
                },
                None => {
                    assert(rstmts_decls(rt) + Seq::<SymbolId>::empty() =~= rstmts_decls(rt));
                },
            }
        },
        _ => {},
    }
}

proof fn lemma_rs_stmts_numbers(st: RState, ss: Seq<SStmt>, k: int)
    requires
        rs_stmts(st, ss, k) matches Some(Ok(_)),
    ensures
        ({
            let (st1, rs) = rs_stmts(st, ss, k).unwrap().unwrap();
            numbered_from(rstmts_decls(rs), st.next_symbol as int)
                && st1.next_symbol == st.next_symbol + rstmts_decls(rs).len()
        }),
    decreases ss, ss.len() - k,
{
    if k < 0 || k >= ss.len() {
        assert(rstmts_decls(Seq::<RStmt>::empty()) =~= Seq::<SymbolId>::empty());
    } else {
        lemma_rs_stmt_numbers(st, ss[k]);
        let (st1, r) = rs_stmt(st, ss[k]).unwrap().unwrap();
        lemma_rs_stmts_numbers(st1, ss, k + 1);
        let (st2, rest) = rs_stmts(st1, ss, k + 1).unwrap().unwrap();
        lemma_decls_cons(r, rest);
        lemma_numbered_concat(rstmt_decls(r), rstmts_decls(rest), st.next_symbol as int);
    }
}

proof fn lemma_rs_else_numbers(st: RState, c: SElse)
    requires
        rs_else(st, c) matches Some(Ok(_)),
    ensures
        ({
            let (st1, r) = rs_else(st, c).unwrap().unwrap();
            numbered_from(relse_decls(r), st.next_symbol as int)
                && st1.next_symbol == st.next_symbol + relse_decls(r).len()
        }),
    decreases c, 0nat,
{
    lemma_rs_stmts_numbers(push_scope(st), c.body, 0);
    let (st1, rb) = rs_stmts(push_scope(st), c.body, 0).unwrap().unwrap();
    match c.els {
        Some(n) => {
            lemma_rs_else_numbers(pop_scope(st1), *n);
            let (st2, rn) = rs_else(pop_scope(st1), *n).unwrap().unwrap();
            lemma_numbered_concat(rstmts_decls(rb), relse_decls(rn), st.next_symbol as int);
        },
        None => {
            assert(rstmts_decls(rb) + Seq::<SymbolId>::empty() =~= rstmts_decls(rb));
        },
    }
}

proof fn lemma_rs_args_numbers(st: RState, args: Seq<crate::parser::Argument>, k: int)
    requires
        rs_args(st, args, k) matches Some(Ok(_)),
    ensures
        ({
            let (st1, ra) = rs_args(st, args, k).unwrap().unwrap();
            let ds = ra.map_values(|a: (SymbolId, Type)| a.0);
            numbered_from(ds, st.next_symbol as int) && st1.next_symbol == st.next_symbol + ds.len()
        }),
    decreases args.len() - k,
{
    if !(k < 0 || k >= args.len()) {
        let (st1, sym) = rs_declare(st, args[k].name.name).unwrap().unwrap();
        lemma_rs_args_numbers(st1, args, k + 1);
        let (st2, rest) = rs_args(st1, args, k + 1).unwrap().unwrap();
        let f = |a: (SymbolId, Type)| a.0;
        assert((seq![(sym, args[k].ty)] + rest).map_values(f) =~= seq![sym] + rest.map_values(f));
        lemma_numbered_concat(seq![sym], rest.map_values(f), st.next_symbol as int);
    }
}

proof fn lemma_rs_function_numbers(st: RState, f: SFunction)
    requires
        rs_function(st, f) matches Some(Ok(_)),
    ensures
        ({
            let (st1, rf) = rs_function(st, f).unwrap().unwrap();
            numbered_from(rfunction_decls(rf), st.next_symbol as int)
                && st1.next_symbol == st.next_symbol + rfunction_decls(rf).len()
        }),
{
    lemma_rs_args_numbers(push_scope(st), f.args, 0);
    let (st1, args) = rs_args(push_scope(st), f.args, 0).unwrap().unwrap();
    lemma_rs_stmts_numbers(st1, f.body, 0);
    let (st2, body) = rs_stmts(st1, f.body, 0).unwrap().unwrap();
    lemma_numbered_concat(args.map_values(|a: (SymbolId, Type)| a.0), rstmts_decls(body), st.next_symbol as int);
}

proof fn lemma_rs_functions_numbers(st: RState, fs: Seq<SFunction>, k: int)
    requires
        rs_functions(st, fs, k) matches Some(Ok(_)),
    ensures
        ({
            let (st1, rfs) = rs_functions(st, fs, k).unwrap().unwrap();
            numbered_from(rfunctions_decls(rfs, rfs.len() as int), st.next_symbol as int)
                && st1.next_symbol == st.next_symbol + rfunctions_decls(rfs, rfs.len() as int).len()
        }),
    decreases fs.len() - k,
{
    if k < 0 || k >= fs.len() {
    } else {
        lemma_rs_function_numbers(st, fs[k]);
        let (st1, f) = rs_function(st, fs[k]).unwrap().unwrap();
        lemma_rs_functions_numbers(st1, fs, k + 1);
        let (st2, rest) = rs_functions(st1, fs, k + 1).unwrap().unwrap();
        lemma_functions_decls_cons(f, rest);
        lemma_numbered_concat(rfunction_decls(f), rfunctions_decls(rest, rest.len() as int), st.next_symbol as int);
    }
}

proof fn lemma_functions_decls_cons(f: RFunction, rest: Seq<RFunction>)
    ensures
        rfunctions_decls(seq![f] + rest, rest.len() + 1int) == rfunction_decls(f) + rfunctions_decls(rest, rest.len() as int),
    decreases rest.len(),
{
    if rest.len() == 0 {
        assert(rfunctions_decls(seq![f] + rest, 0) =~= Seq::<SymbolId>::empty());
        assert(rfunction_decls(f) + Seq::<SymbolId>::empty() =~= rfunction_decls(f));
        assert((seq![f] + rest)[0] == f);
    } else {
        let init = rest.drop_last();
        lemma_functions_decls_cons(f, init);
        lemma_functions_decls_prefix(seq![f] + rest, seq![f] + init, rest.len() as int);
        lemma_functions_decls_prefix(rest, init, rest.len() - 1);
        assert((seq![f] + rest)[rest.len() as int] == rest.last());
    }
}

proof fn lemma_functions_decls_prefix(a: Seq<RFunction>, b: Seq<RFunction>, n: int)
    requires
        0 <= n <= a.len(),
        n <= b.len(),
        forall|i: int| 0 <= i < n ==> a[i] == b[i],
    ensures
        rfunctions_decls(a, n) == rfunctions_decls(b, n),
    decreases n,
{
    if n > 0 {
        lemma_functions_decls_prefix(a, b, n - 1);
    }
}

proof fn lemma_rs_register_all_keeps_numbers(st: RState, fs: Seq<SFunction>, k: int)
    requires
        rs_register_all(st, fs, k) matches Some(Ok(_)),
    ensures
        rs_register_all(st, fs, k).unwrap().unwrap().0.next_symbol == st.next_symbol,
    decreases fs.len() - k,
{
    if !(k < 0 || k >= fs.len()) {
        let (st1, _) = rs_register(st, fs[k].name.name).unwrap().unwrap();
        lemma_rs_register_all_keeps_numbers(st1, fs, k + 1);
    }
}

/// Name resolution gives every variable of a program its own number: the parameters and `let`s
/// of all functions, `main` first, are numbered in the order they are declared, from the number
/// the resolver starts with, so no two share one.
pub proof fn lemma_symbols_distinct(st: RState, p: SProgram)
    requires
        rs_program(st, p) matches Some(Ok(_)),
    ensures
        numbered_from(rprogram_decls(rs_program(st, p).unwrap().unwrap()), st.next_symbol as int),
        forall|i: int, j: int|
            0 <= i < j < rprogram_decls(rs_program(st, p).unwrap().unwrap()).len() ==> (#[trigger] rprogram_decls(
                rs_program(st, p).unwrap().unwrap(),
            )[i]).id != (#[trigger] rprogram_decls(rs_program(st, p).unwrap().unwrap())[j]).id,
{
    let st_a = match p.main {
        Some(m) => rs_register(st, m.name.name).unwrap().unwrap().0,
        None => st,
    };
    assert(st_a.next_symbol == st.next_symbol);
    lemma_rs_register_all_keeps_numbers(st_a, p.functions, 0);
    let st_b = rs_register_all(st_a, p.functions, 0).unwrap().unwrap().0;
    let (st_c, head): (RState, Seq<SymbolId>) = match p.main {
        Some(m) => {
            lemma_rs_function_numbers(st_b, m);
            let (st3, f) = rs_function(st_b, m).unwrap().unwrap();
            (st3, rfunction_decls(f))
        },
        None => (st_b, Seq::empty()),
    };
    lemma_rs_functions_numbers(st_c, p.functions, 0);
    let (_, fs) = rs_functions(st_c, p.functions, 0).unwrap().unwrap();
    let rp = rs_program(st, p).unwrap().unwrap();
    assert(rprogram_decls(rp) == head + rfunctions_decls(fs, fs.len() as int));
    lemma_numbered_concat(head, rfunctions_decls(fs, fs.len() as int), st.next_symbol as int);
    let ds = rprogram_decls(rp);
    assert forall|i: int, j: int| 0 <= i < j < ds.len() implies (#[trigger] ds[i]).id != (#[trigger] ds[j]).id by {
        assert(ds[i].id == st.next_symbol + i);
        assert(ds[j].id == st.next_symbol + j);
    }
}

} // verus!
