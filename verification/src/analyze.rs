use vstd::prelude::*;

use crate::parser::{
    Argument, ElseClause, Expression, ExpressionVariant, Function, Identifier, Program, SElse, SExpr,
    SFunction, SProgram, SStmt, Statement, StatementVariant, Term, Type, else_view, expr_view,
    exprs_view, function_view, program_view, stmt_view, stmts_view,
};

verus! {

/// Whether control can fall through a piece of code or always leaves the function.
#[derive(Debug, Clone, Copy, PartialEq, Eq, Structural)]
pub enum ControlFlow {
    Continues,
    Returns,
}

/// Why a program was rejected.
#[derive(Debug)]
pub enum SemanticAnalysisError {
    /// A value of the second type stands where the first is expected.
    TypeMismatch(Type, Type),
    /// Some path through the named function ends without `return`.
    MissingReturn(String),
    /// A variable is used where it is not declared.
    UndeclaredIdentifier(String),
    /// A function is called that is not defined.
    UndefinedFunction(String),
}

/// Variables in scope, innermost scope last.
pub type Scopes = Seq<Map<Seq<char>, Type>>;

/// Signatures of the functions: parameter types and result type, by name.
pub type Signatures = Map<Seq<char>, (Seq<Type>, Type)>;

/// The type of variable `name` in the innermost scope that declares it.
pub open spec fn lookup(scopes: Scopes, name: Seq<char>) -> Option<Type>
    decreases scopes.len(),
{
    if scopes.len() == 0 {
        None
    } else if scopes.last().contains_key(name) {
        Some(scopes.last()[name])
    } else {
        lookup(scopes.drop_last(), name)
    }
}

/// The type of expression `e`: the operands of a binary operator must have the same type,
/// which is the type of the result; a variable must be declared; a call must name a function
/// and pass arguments of the parameter types.
pub open spec fn ty_expr(scopes: Scopes, fns: Signatures, e: SExpr) -> Result<Type, SemanticAnalysisError>
    decreases e, 0nat,
{
    match e {
        SExpr::Binary(l, r, _) => match ty_expr(scopes, fns, *l) {
            Ok(lt) => match ty_expr(scopes, fns, *r) {
                Ok(rt) => if lt != rt {
                    Err(SemanticAnalysisError::TypeMismatch(lt, rt))
                } else {
                    Ok(lt)
                },
                Err(err) => Err(err),
            },
            Err(err) => Err(err),
        },
        SExpr::Term(t) => match t {
            Term::IntLit(_) => Ok(Type::Int),
            Term::Bool(_) => Ok(Type::Bool),
            Term::Identifier(name) => match lookup(scopes, name@) {
                Some(ty) => Ok(ty),
                None => Err(SemanticAnalysisError::UndeclaredIdentifier(name)),
            },
        },
        SExpr::Call(name, args) => if fns.contains_key(name.name@) {
            match check_args(scopes, fns, args, fns[name.name@].0, 0) {
                Ok(_) => Ok(fns[name.name@].1),
                Err(err) => Err(err),
            }
        } else {
            Err(SemanticAnalysisError::UndefinedFunction(name.name))
        },
    }
}

/// Checks the arguments from position `k` on against the parameter types, pairing them up to
/// the shorter of the two.
pub open spec fn check_args(scopes: Scopes, fns: Signatures, args: Seq<SExpr>, params: Seq<Type>, k: int) -> Result<(), SemanticAnalysisError>
    decreases args, args.len() - k,
{
    if k < 0 || k >= args.len() || k >= params.len() {
        Ok(())
    } else {
        match ty_expr(scopes, fns, args[k]) {
            Ok(t) => if t != params[k] {
                Err(SemanticAnalysisError::TypeMismatch(params[k], t))
            } else {
                check_args(scopes, fns, args, params, k + 1)
            },
            Err(err) => Err(err),
        }
    }
}

/// `scopes` without its innermost scope (unchanged when there is none).
pub open spec fn pop_scope(scopes: Scopes) -> Scopes {
    if scopes.len() > 0 {
        scopes.drop_last()
    } else {
        scopes
    }
}

/// `scopes` with `name: ty` declared in the innermost scope.
pub open spec fn declare(scopes: Scopes, name: Seq<char>, ty: Type) -> Scopes {
    scopes.update(scopes.len() - 1, scopes.last().insert(name, ty))
}

/// Both flows leave the function.
pub open spec fn both_return(a: ControlFlow, b: ControlFlow) -> ControlFlow {
    if a == ControlFlow::Returns && b == ControlFlow::Returns {
        ControlFlow::Returns
    } else {
        ControlFlow::Continues
    }
}

/// Checks statement `st` of a function with result type `ret`, giving the scopes after it and
/// whether it always leaves the function.
pub open spec fn check_stmt(scopes: Scopes, fns: Signatures, st: SStmt, ret: Type) -> Result<(Scopes, ControlFlow), SemanticAnalysisError>
    decreases st, 0nat,
{
    match st {
        SStmt::Exit(e) => match ty_expr(scopes, fns, e) {
            Ok(t) => if t != Type::Int {
                Err(SemanticAnalysisError::TypeMismatch(Type::Int, t))
            } else {
                Ok((scopes, ControlFlow::Returns))
            },
            Err(err) => Err(err),
        },
        SStmt::Let(id, e) => match ty_expr(scopes, fns, e) {
            Ok(t) => Ok((declare(scopes, id.name@, t), ControlFlow::Continues)),
            Err(err) => Err(err),
        },
        SStmt::If(c, then, els) => match ty_expr(scopes, fns, c) {
            Ok(_) => match check_block(scopes, fns, then, ret, true) {
                Ok((s1, tf)) => match els {
                    Some(e) => match check_else(s1, fns, e, ret) {
                        Ok((s2, ef)) => Ok((s2, both_return(tf, ef))),
                        Err(err) => Err(err),
                    },
                    None => Ok((s1, ControlFlow::Continues)),
                },
                Err(err) => Err(err),
            },
            Err(err) => Err(err),
        },
        SStmt::While(c, body) => match ty_expr(scopes, fns, c) {
            Ok(_) => match check_block(scopes, fns, body, ret, true) {
                Ok((s1, _)) => Ok((s1, ControlFlow::Continues)),
                Err(err) => Err(err),
            },
            Err(err) => Err(err),
        },
        SStmt::Assign(id, e) => match ty_expr(scopes, fns, e) {
            Ok(t) => match lookup(scopes, id.name@) {
                Some(expected) => if expected == t {
                    Ok((scopes, ControlFlow::Continues))
                } else {
                    Err(SemanticAnalysisError::TypeMismatch(expected, t))
                },
                None => Err(SemanticAnalysisError::UndeclaredIdentifier(id.name)),
            },
            Err(err) => Err(err),
        },
        SStmt::Call(name, args) => if fns.contains_key(name.name@) {
            match check_args(scopes, fns, args, fns[name.name@].0, 0) {
                Ok(_) => Ok((scopes, ControlFlow::Continues)),
                Err(err) => Err(err),
            }
        } else {
            Err(SemanticAnalysisError::UndefinedFunction(name.name))
        },
        SStmt::Return(e) => match ty_expr(scopes, fns, e) {
            Ok(t) => if t != ret {
                Err(SemanticAnalysisError::TypeMismatch(ret, t))
            } else {
                Ok((scopes, ControlFlow::Returns))
            },
            Err(err) => Err(err),
        },
    }
}

/// Checks statements `ss[k..]` in order, stopping after the first that always leaves the
/// function.
pub open spec fn check_stmts(scopes: Scopes, fns: Signatures, ss: Seq<SStmt>, ret: Type, k: int) -> Result<(Scopes, ControlFlow), SemanticAnalysisError>
    decreases ss, ss.len() - k,
{
    if k < 0 || k >= ss.len() {
        Ok((scopes, ControlFlow::Continues))
    } else {
        match check_stmt(scopes, fns, ss[k], ret) {
            Ok((s1, ControlFlow::Returns)) => Ok((s1, ControlFlow::Returns)),
            Ok((s1, ControlFlow::Continues)) => check_stmts(s1, fns, ss, ret, k + 1),
            Err(err) => Err(err),
        }
    }
}

/// Checks a block, in a scope of its own when `new_scope`; that scope is closed when control
/// falls through the block (and stays open when the block always leaves the function).
pub open spec fn check_block(scopes: Scopes, fns: Signatures, ss: Seq<SStmt>, ret: Type, new_scope: bool) -> Result<(Scopes, ControlFlow), SemanticAnalysisError>
    decreases ss, ss.len() + 1,
{
    let s0 = if new_scope { scopes.push(Map::empty()) } else { scopes };
    match check_stmts(s0, fns, ss, ret, 0) {
        Ok((s1, ControlFlow::Returns)) => Ok((s1, ControlFlow::Returns)),
        Ok((s1, ControlFlow::Continues)) => Ok((if new_scope { pop_scope(s1) } else { s1 }, ControlFlow::Continues)),
        Err(err) => Err(err),
    }
}

/// Checks an else clause; a chain always leaves the function when every branch does, the last
/// `else` included.
pub open spec fn check_else(scopes: Scopes, fns: Signatures, c: SElse, ret: Type) -> Result<(Scopes, ControlFlow), SemanticAnalysisError>
    decreases c, 0nat,
{
    let cond_ok: Result<(), SemanticAnalysisError> = match c.cond {
        Some(e) => match ty_expr(scopes, fns, e) {
            Ok(_) => Ok(()),
            Err(err) => Err(err),
        },
        None => Ok(()),
    };
    match cond_ok {
        Ok(_) => match check_block(scopes, fns, c.body, ret, true) {
            Ok((s1, f)) => match c.els {
                Some(n) => match check_else(s1, fns, *n, ret) {
                    Ok((s2, nf)) => Ok((s2, both_return(f, nf))),
                    Err(err) => Err(err),
                },
                None => Ok((s1, both_return(f, ControlFlow::Returns))),
            },
            Err(err) => Err(err),
        },
        Err(err) => Err(err),
    }
}

/// The scope of a function's parameters.
pub open spec fn args_scope(args: Seq<Argument>) -> Map<Seq<char>, Type>
    decreases args.len(),
{
    if args.len() == 0 {
        Map::empty()
    } else {
        args_scope(args.drop_last()).insert(args.last().name.name@, args.last().ty)
    }
}

/// Checks a function: its body in a scope holding its parameters; a function with a result type
/// must always leave through `return` (or `exit`).
pub open spec fn check_function(scopes: Scopes, fns: Signatures, f: SFunction) -> Result<Scopes, SemanticAnalysisError> {
    match check_block(scopes.push(args_scope(f.args)), fns, f.body, f.ret_sig, false) {
        Ok((s1, flow)) => if f.ret_sig != Type::Void && flow != ControlFlow::Returns {
            Err(SemanticAnalysisError::MissingReturn(f.name.name))
        } else {
            Ok(pop_scope(s1))
        },
        Err(err) => Err(err),
    }
}

/// Checks the functions `fs[k..]` in order.
pub open spec fn check_functions(scopes: Scopes, fns: Signatures, fs: Seq<SFunction>, k: int) -> Result<Scopes, SemanticAnalysisError>
    decreases fs.len() - k,
{
    if k < 0 || k >= fs.len() {
        Ok(scopes)
    } else {
        match check_function(scopes, fns, fs[k]) {
            Ok(s1) => check_functions(s1, fns, fs, k + 1),
            Err(err) => Err(err),
        }
    }
}

/// The signature of a function.
pub open spec fn signature(f: SFunction) -> (Seq<Type>, Type) {
    (f.args.map_values(|a: Argument| a.ty), f.ret_sig)
}

/// `fns` with the signatures of the first `n` functions of `fs` added, later ones winning.
pub open spec fn add_signatures(fns: Signatures, fs: Seq<SFunction>, n: int) -> Signatures
    decreases n,
{
    if n <= 0 {
        fns
    } else {
        add_signatures(fns, fs, n - 1).insert(fs[n - 1].name.name@, signature(fs[n - 1]))
    }
}

/// The signatures the checker knows when checking `p` after `fns`: those of the other functions,
/// then that of `main`.
pub open spec fn program_signatures(fns: Signatures, p: SProgram) -> Signatures {
    let f1 = add_signatures(fns, p.functions, p.functions.len() as int);
    match p.main {
        Some(m) => f1.insert(m.name.name@, signature(m)),
        None => f1,
    }
}

/// Semantic analysis of `p` starting from the scopes `scopes` and the signatures `fns`: `main`
/// is checked first, then the other functions in order.
pub open spec fn analyze_from(scopes: Scopes, fns: Signatures, p: SProgram) -> Result<(), SemanticAnalysisError> {
    let sigs = program_signatures(fns, p);
    let after_main = match p.main {
        Some(m) => check_function(scopes, sigs, m),
        None => Ok(scopes),
    };
    match after_main {
        Ok(s1) => match check_functions(s1, sigs, p.functions, 0) {
            Ok(_) => Ok(()),
            Err(err) => Err(err),
        },
        Err(err) => Err(err),
    }
}

/// Semantic analysis of a program.
pub open spec fn analyze(p: SProgram) -> Result<(), SemanticAnalysisError> {
    analyze_from(Seq::empty(), Map::empty(), p)
}

/// The map made by inserting the pairs of `es` in order (later pairs win).
pub open spec fn assoc<V>(es: Seq<(Seq<char>, V)>) -> Map<Seq<char>, V>
    decreases es.len(),
{
    if es.len() == 0 {
        Map::empty()
    } else {
        assoc(es.drop_last()).insert(es.last().0, es.last().1)
    }
}

pub proof fn lemma_assoc_found<V>(es: Seq<(Seq<char>, V)>, k: int, name: Seq<char>)
    requires
        0 <= k < es.len(),
        es[k].0 == name,
        forall|j: int| k < j < es.len() ==> es[j].0 != name,
    ensures
        assoc(es).contains_key(name),
        assoc(es)[name] == es[k].1,
    decreases es.len(),
{
    if k < es.len() - 1 {
        lemma_assoc_found(es.drop_last(), k, name);
    }
}

pub proof fn lemma_assoc_absent<V>(es: Seq<(Seq<char>, V)>, name: Seq<char>)
    requires
        forall|j: int| 0 <= j < es.len() ==> es[j].0 != name,
    ensures
        !assoc(es).contains_key(name),
    decreases es.len(),
{
    if es.len() > 0 {
        lemma_assoc_absent(es.drop_last(), name);
    }
}

/// A scope as a map from variable names to types.
pub open spec fn scope_map(es: Seq<(String, Type)>) -> Map<Seq<char>, Type> {
    assoc(es.map_values(|e: (String, Type)| (e.0@, e.1)))
}

/// The signature table as a map from function names to signatures.
pub open spec fn sig_map(es: Seq<(String, Vec<Type>, Type)>) -> Signatures {
    assoc(es.map_values(|e: (String, Vec<Type>, Type)| (e.0@, (e.1@, e.2))))
}

pub proof fn lemma_exprs_view(es: Seq<Expression>)
    ensures
        exprs_view(es).len() == es.len(),
        forall|k: int| 0 <= k < es.len() ==> #[trigger] exprs_view(es)[k] == expr_view(es[k]),
    decreases es.len(),
{
    if es.len() > 0 {
        lemma_exprs_view(es.drop_last());
    }
}

pub proof fn lemma_stmts_view(ss: Seq<Statement>)
    ensures
        stmts_view(ss).len() == ss.len(),
        forall|k: int| 0 <= k < ss.len() ==> #[trigger] stmts_view(ss)[k] == stmt_view(ss[k]),
    decreases ss.len(),
{
    if ss.len() > 0 {
        lemma_stmts_view(ss.drop_last());
    }
}

/// The type of `name` in scope `sc`, later declarations winning.
pub fn scope_get(sc: &Vec<(String, Type)>, name: &String) -> (r: Option<Type>)
    ensures
        r == (if scope_map(sc@).contains_key(name@) { Some(scope_map(sc@)[name@]) } else { None::<Type> }),
{
    let ghost es = sc@.map_values(|e: (String, Type)| (e.0@, e.1));
    let mut i: usize = sc.len();
    while i > 0
        invariant
            0 <= i <= sc@.len(),
            es == sc@.map_values(|e: (String, Type)| (e.0@, e.1)),
            forall|j: int| i <= j < sc@.len() ==> es[j].0 != name@,
        decreases i,
    {
        i = i - 1;
        if sc[i].0 == *name {
            proof {
                lemma_assoc_found(es, i as int, name@);
            }
            return Some(sc[i].1);
        }
    }
    proof {
        lemma_assoc_absent(es, name@);
    }
    None
}

/// Checks that `names` and types are a Scopes-shaped view of `symbols`.
pub open spec fn scopes_of(symbols: Seq<Vec<(String, Type)>>) -> Scopes {
    symbols.map_values(|sc: Vec<(String, Type)>| scope_map(sc@))
}

/// Checks programs for type errors, use of undeclared names and missing returns.
pub struct Analyzer<'a> {
    ast: &'a Program,
    symbols: Vec<Vec<(String, Type)>>,
    functions: Vec<(String, Vec<Type>, Type)>,
}

impl<'a> Analyzer<'a> {
    /// The variables in scope.
    pub closed spec fn scopes(&self) -> Scopes {
        scopes_of(self.symbols@)
    }

    /// The known function signatures.
    pub closed spec fn signatures(&self) -> Signatures {
        sig_map(self.functions@)
    }

    /// The program being checked.
    pub closed spec fn program(&self) -> Program {
        *self.ast
    }

    pub fn new(ast: &'a Program) -> (a: Self)
        ensures
            a.scopes() == Seq::<Map<Seq<char>, Type>>::empty(),
            a.signatures() == Map::<Seq<char>, (Seq<Type>, Type)>::empty(),
            a.program() == *ast,
    {
        let a = Self { ast, symbols: Vec::new(), functions: Vec::new() };
        proof {
            assert(a.scopes() =~= Seq::<Map<Seq<char>, Type>>::empty());
            assert(a.functions@.map_values(|e: (String, Vec<Type>, Type)| (e.0@, (e.1@, e.2))) =~= Seq::empty());
        }
        a
    }

    /// The type of the variable `ident` in the innermost scope that declares it.
    fn find_identifier(&self, ident: &String) -> (r: Option<Type>)
        ensures
            r == lookup(self.scopes(), ident@),
    {
        let ghost sc = self.scopes();
        let mut i: usize = self.symbols.len();
        proof {
            assert(sc.take(i as int) == sc);
        }
        while i > 0
            invariant
                0 <= i <= self.symbols@.len(),
                sc == self.scopes(),
                sc.len() == self.symbols@.len(),
                lookup(sc, ident@) == lookup(sc.take(i as int), ident@),
            decreases i,
        {
            let ghost t = sc.take(i as int);
            proof {
                assert(t.last() == scope_map(self.symbols@[i - 1]@));
                assert(t.drop_last() == sc.take(i - 1));
            }
            match scope_get(&self.symbols[i - 1], ident) {
                Some(ty) => {
                    return Some(ty);
                },
                None => {},
            }
            i = i - 1;
        }
        None
    }

    /// The position in the signature table of the function `name` (the last entry wins).
    fn find_function(&self, name: &String) -> (r: Option<usize>)
        ensures
            match r {
                Some(i) => i < self.functions@.len() && self.signatures().contains_key(name@)
                    && self.signatures()[name@] == (self.functions@[i as int].1@, self.functions@[i as int].2),
                None => !self.signatures().contains_key(name@),
            },
    {
        let ghost es = self.functions@.map_values(|e: (String, Vec<Type>, Type)| (e.0@, (e.1@, e.2)));
        let mut i: usize = self.functions.len();
        while i > 0
            invariant
                0 <= i <= self.functions@.len(),
                es == self.functions@.map_values(|e: (String, Vec<Type>, Type)| (e.0@, (e.1@, e.2))),
                forall|j: int| i <= j < self.functions@.len() ==> es[j].0 != name@,
            decreases i,
        {
            i = i - 1;
            if self.functions[i].0 == *name {
                proof {
                    lemma_assoc_found(es, i as int, name@);
                }
                return Some(i);
            }
        }
        proof {
            lemma_assoc_absent(es, name@);
        }
        None
    }

    /// The type of `expr`, as `ty_expr` describes.
    fn resolve_expr(&self, expr: &Expression) -> (r: Result<Type, SemanticAnalysisError>)
        ensures
            r == ty_expr(self.scopes(), self.signatures(), expr_view(*expr)),
        decreases *expr, 0nat,
    {
        match &expr.variant {
            ExpressionVariant::BinaryExpr(lhs, rhs, _bin_op) => {
                let lhs_type = match self.resolve_expr(lhs) {
                    Ok(t) => t,
                    Err(e) => {
                        return Err(e);
                    },
                };
                let rhs_type = match self.resolve_expr(rhs) {
                    Ok(t) => t,
                    Err(e) => {
                        return Err(e);
                    },
                };
                if lhs_type != rhs_type {
                    return Err(SemanticAnalysisError::TypeMismatch(lhs_type, rhs_type));
                }
                Ok(lhs_type)
            },
            ExpressionVariant::Term(term) => self.resolve_term(term),
            ExpressionVariant::FunctionCall { name, args } => {
                match self.find_function(&name.name) {
                    Some(i) => {
                        match self.validate_function_args(args, &self.functions[i].1) {
                            Ok(_) => {},
                            Err(e) => {
                                return Err(e);
                            },
                        }
                        Ok(self.functions[i].2)
                    },
                    None => Err(SemanticAnalysisError::UndefinedFunction(name.name.clone())),
                }
            },
        }
    }

    fn resolve_term(&self, term: &Term) -> (r: Result<Type, SemanticAnalysisError>)
        ensures
            r == ty_expr(self.scopes(), self.signatures(), SExpr::Term(*term)),
    {
        match term {
            Term::IntLit(_) => Ok(Type::Int),
            Term::Bool(_) => Ok(Type::Bool),
            Term::Identifier(ident) => match self.find_identifier(ident) {
                Some(t) => Ok(t),
                None => Err(SemanticAnalysisError::UndeclaredIdentifier(ident.clone())),
            },
        }
    }

    /// Checks the arguments of a call against the parameter types, pairing them up to the
    /// shorter of the two.
    fn validate_function_args(&self, args: &Vec<Expression>, expected: &Vec<Type>) -> (r: Result<(), SemanticAnalysisError>)
        ensures
            r == check_args(self.scopes(), self.signatures(), exprs_view(args@), expected@, 0),
        decreases *args, 1nat,
    {
        let ghost es = exprs_view(args@);
        proof {
            lemma_exprs_view(args@);
        }
        let mut k: usize = 0;
        while k < args.len() && k < expected.len()
            invariant
                0 <= k <= args@.len(),
                es == exprs_view(args@),
                es.len() == args@.len(),
                forall|q: int| 0 <= q < args@.len() ==> #[trigger] es[q] == expr_view(args@[q]),
                check_args(self.scopes(), self.signatures(), es, expected@, 0) == check_args(self.scopes(), self.signatures(), es, expected@, k as int),
            decreases args@.len() - k,
        {
            let arg_type = match self.resolve_expr(&args[k]) {
                Ok(t) => t,
                Err(e) => {
                    return Err(e);
                },
            };
            if arg_type != expected[k] {
                return Err(SemanticAnalysisError::TypeMismatch(expected[k], arg_type));
            }
            k = k + 1;
        }
        Ok(())
    }
}

proof fn lemma_scopes_push(symbols: Seq<Vec<(String, Type)>>, v: Vec<(String, Type)>)
    ensures
        scopes_of(symbols.push(v)) == scopes_of(symbols).push(scope_map(v@)),
{
    assert(scopes_of(symbols.push(v)) =~= scopes_of(symbols).push(scope_map(v@)));
}

proof fn lemma_scopes_pop(symbols: Seq<Vec<(String, Type)>>)
    requires
        symbols.len() > 0,
    ensures
        scopes_of(symbols.drop_last()) == scopes_of(symbols).drop_last(),
        scopes_of(symbols).last() == scope_map(symbols.last()@),
{
    assert(scopes_of(symbols.drop_last()) =~= scopes_of(symbols).drop_last());
}

pub proof fn lemma_assoc_push<V>(es: Seq<(Seq<char>, V)>, x: (Seq<char>, V))
    ensures
        assoc(es.push(x)) == assoc(es).insert(x.0, x.1),
{
    assert(es.push(x).drop_last() =~= es);
}

pub proof fn lemma_scope_map_push(es: Seq<(String, Type)>, x: (String, Type))
    ensures
        scope_map(es.push(x)) == scope_map(es).insert(x.0@, x.1),
{
    let f = |e: (String, Type)| (e.0@, e.1);
    assert(es.push(x).map_values(f) =~= es.map_values(f).push(f(x)));
    lemma_assoc_push(es.map_values(f), f(x));
}

proof fn lemma_sig_map_push(es: Seq<(String, Vec<Type>, Type)>, x: (String, Vec<Type>, Type))
    ensures
        sig_map(es.push(x)) == sig_map(es).insert(x.0@, (x.1@, x.2)),
{
    let f = |e: (String, Vec<Type>, Type)| (e.0@, (e.1@, e.2));
    assert(es.push(x).map_values(f) =~= es.map_values(f).push(f(x)));
    lemma_assoc_push(es.map_values(f), f(x));
}

/// The parameter types of `args`.
fn arg_types(args: &Vec<Argument>) -> (r: Vec<Type>)
    ensures
        r@ == args@.map_values(|a: Argument| a.ty),
{
    let mut r: Vec<Type> = Vec::new();
    let mut i: usize = 0;
    while i < args.len()
        invariant
            0 <= i <= args@.len(),
            r@ == args@.take(i as int).map_values(|a: Argument| a.ty),
        decreases args@.len() - i,
    {
        r.push(args[i].ty);
        proof {
            assert(args@.take(i + 1).map_values(|a: Argument| a.ty) =~= args@.take(i as int).map_values(|a: Argument| a.ty).push(args@[i as int].ty));
        }
        i = i + 1;
    }
    proof {
        assert(args@.take(args@.len() as int) == args@);
    }
    r
}

impl<'a> Analyzer<'a> {
    fn push_scope(&mut self)
        ensures
            final(self).ast == old(self).ast,
            final(self).functions == old(self).functions,
            final(self).symbols@.len() == old(self).symbols@.len() + 1,
            final(self).scopes() == old(self).scopes().push(Map::empty()),
    {
        let ghost s0 = self.symbols@;
        let v: Vec<(String, Type)> = Vec::new();
        let ghost vv = v;
        self.symbols.push(v);
        proof {
            lemma_scopes_push(s0, vv);
            assert(scope_map(vv@) =~= Map::<Seq<char>, Type>::empty()) by {
                assert(Seq::<(String, Type)>::empty().map_values(|e: (String, Type)| (e.0@, e.1)) =~= Seq::empty());
            }
        }
    }

    fn pop_scope(&mut self)
        ensures
            final(self).ast == old(self).ast,
            final(self).functions == old(self).functions,
            final(self).symbols@.len() == (if old(self).symbols@.len() > 0 { old(self).symbols@.len() - 1 } else { 0 }),
            final(self).scopes() == pop_scope(old(self).scopes()),
    {
        let ghost s0 = self.symbols@;
        if self.symbols.len() > 0 {
            let _ = self.symbols.pop();
            proof {
                lemma_scopes_pop(s0);
            }
        }
    }

    /// Declares `name: ty` in the innermost scope.
    fn declare(&mut self, name: String, ty: Type)
        requires
            old(self).symbols@.len() > 0,
        ensures
            final(self).ast == old(self).ast,
            final(self).functions == old(self).functions,
            final(self).symbols@.len() == old(self).symbols@.len(),
            final(self).scopes() == declare(old(self).scopes(), name@, ty),
    {
        let ghost s0 = self.symbols@;
        let mut scope = self.symbols.pop().unwrap();
        let ghost sc0 = scope@;
        scope.push((name, ty));
        self.symbols.push(scope);
        proof {
            lemma_scopes_pop(s0);
            lemma_scopes_push(s0.drop_last(), scope);
            lemma_scope_map_push(sc0, (name, ty));
            assert(self.scopes() =~= declare(scopes_of(s0), name@, ty));
        }
    }
}

impl<'a> Analyzer<'a> {
    /// Checks one statement, as `check_stmt` describes.
    fn resolve_statement(&mut self, stmt: &Statement, parent: &Function) -> (r: Result<ControlFlow, SemanticAnalysisError>)
        requires
            old(self).symbols@.len() > 0,
        ensures
            final(self).ast == old(self).ast,
            final(self).functions == old(self).functions,
            final(self).symbols@.len() >= old(self).symbols@.len(),
            match r {
                Ok(flow) => check_stmt(old(self).scopes(), old(self).signatures(), stmt_view(*stmt), parent.ret_sig) == Ok::<(Scopes, ControlFlow), SemanticAnalysisError>((final(self).scopes(), flow)),
                Err(e) => check_stmt(old(self).scopes(), old(self).signatures(), stmt_view(*stmt), parent.ret_sig) == Err::<(Scopes, ControlFlow), SemanticAnalysisError>(e),
            },
        decreases *stmt, 0nat,
    {
        match &stmt.variant {
            StatementVariant::Exit(expression) => {
                let expr_type = match self.resolve_expr(expression) {
                    Ok(t) => t,
                    Err(e) => {
                        return Err(e);
                    },
                };
                if expr_type != Type::Int {
                    return Err(SemanticAnalysisError::TypeMismatch(Type::Int, expr_type));
                }
                Ok(ControlFlow::Returns)
            },
            StatementVariant::Let { ident, expr } => {
                let expr_type = match self.resolve_expr(expr) {
                    Ok(t) => t,
                    Err(e) => {
                        return Err(e);
                    },
                };
                self.declare(ident.name.clone(), expr_type);
                Ok(ControlFlow::Continues)
            },
            StatementVariant::If { cond, then, els } => {
                match self.resolve_expr(cond) {
                    Ok(_) => {},
                    Err(e) => {
                        return Err(e);
                    },
                }
                let then_flow = match self.resolve_block(then, parent, true) {
                    Ok(f) => f,
                    Err(e) => {
                        return Err(e);
                    },
                };
                let else_flow = match els {
                    Some(els) => match self.resolve_else(els, parent) {
                        Ok(f) => f,
                        Err(e) => {
                            return Err(e);
                        },
                    },
                    None => ControlFlow::Continues,
                };
                if then_flow == ControlFlow::Returns && else_flow == ControlFlow::Returns {
                    Ok(ControlFlow::Returns)
                } else {
                    Ok(ControlFlow::Continues)
                }
            },
            StatementVariant::While { cond, body } => {
                match self.resolve_expr(cond) {
                    Ok(_) => {},
                    Err(e) => {
                        return Err(e);
                    },
                }
                match self.resolve_block(body, parent, true) {
                    Ok(_) => {},
                    Err(e) => {
                        return Err(e);
                    },
                }
                Ok(ControlFlow::Continues)
            },
            StatementVariant::Assignment { ident, expr } => {
                let expr_type = match self.resolve_expr(expr) {
                    Ok(t) => t,
                    Err(e) => {
                        return Err(e);
                    },
                };
                match self.find_identifier(&ident.name) {
                    Some(expected_type) => {
                        if expected_type == expr_type {
                            Ok(ControlFlow::Continues)
                        } else {
                            Err(SemanticAnalysisError::TypeMismatch(expected_type, expr_type))
                        }
                    },
                    None => Err(SemanticAnalysisError::UndeclaredIdentifier(ident.name.clone())),
                }
            },
            StatementVariant::FunctionCall { name, args } => {
                match self.find_function(&name.name) {
                    Some(i) => {
                        match self.validate_function_args(args, &self.functions[i].1) {
                            Ok(_) => {},
                            Err(e) => {
                                return Err(e);
                            },
                        }
                        Ok(ControlFlow::Continues)
                    },
                    None => Err(SemanticAnalysisError::UndefinedFunction(name.name.clone())),
                }
            },
            StatementVariant::Return(expr) => {
                let return_type = match self.resolve_expr(expr) {
                    Ok(t) => t,
                    Err(e) => {
                        return Err(e);
                    },
                };
                if return_type != parent.ret_sig {
                    return Err(SemanticAnalysisError::TypeMismatch(parent.ret_sig, return_type));
                }
                Ok(ControlFlow::Returns)
            },
        }
    }

    /// Checks an else clause, as `check_else` describes.
    fn resolve_else(&mut self, els: &ElseClause, parent: &Function) -> (r: Result<ControlFlow, SemanticAnalysisError>)
        requires
            old(self).symbols@.len() > 0,
        ensures
            final(self).ast == old(self).ast,
            final(self).functions == old(self).functions,
            final(self).symbols@.len() >= old(self).symbols@.len(),
            match r {
                Ok(flow) => check_else(old(self).scopes(), old(self).signatures(), else_view(*els), parent.ret_sig) == Ok::<(Scopes, ControlFlow), SemanticAnalysisError>((final(self).scopes(), flow)),
                Err(e) => check_else(old(self).scopes(), old(self).signatures(), else_view(*els), parent.ret_sig) == Err::<(Scopes, ControlFlow), SemanticAnalysisError>(e),
            },
        decreases *els, 0nat,
    {
        match &els.cond {
            Some(c) => match self.resolve_expr(c) {
                Ok(_) => {},
                Err(e) => {
                    return Err(e);
                },
            },
            None => {},
        }
        let flow = match self.resolve_block(&els.body, parent, true) {
            Ok(f) => f,
            Err(e) => {
                return Err(e);
            },
        };
        let next_flow = match &*els.els {
            Some(next) => match self.resolve_else(next, parent) {
                Ok(f) => f,
                Err(e) => {
                    return Err(e);
                },
            },
            None => ControlFlow::Returns,
        };
        if flow == ControlFlow::Returns && next_flow == ControlFlow::Returns {
            Ok(ControlFlow::Returns)
        } else {
            Ok(ControlFlow::Continues)
        }
    }

    /// Checks a block, as `check_block` describes.
    fn resolve_block(&mut self, block: &Vec<Statement>, parent: &Function, new_scope: bool) -> (r: Result<ControlFlow, SemanticAnalysisError>)
        requires
            old(self).symbols@.len() > 0,
        ensures
            final(self).ast == old(self).ast,
            final(self).functions == old(self).functions,
            final(self).symbols@.len() >= old(self).symbols@.len(),
            match r {
                Ok(flow) => check_block(old(self).scopes(), old(self).signatures(), stmts_view(block@), parent.ret_sig, new_scope) == Ok::<(Scopes, ControlFlow), SemanticAnalysisError>((final(self).scopes(), flow)),
                Err(e) => check_block(old(self).scopes(), old(self).signatures(), stmts_view(block@), parent.ret_sig, new_scope) == Err::<(Scopes, ControlFlow), SemanticAnalysisError>(e),
            },
        decreases *block, 1nat,
    {
        let ghost ss = stmts_view(block@);
        let ghost sigs = self.signatures();
        proof {
            lemma_stmts_view(block@);
        }
        if new_scope {
            self.push_scope();
        }
        let ghost s0 = self.scopes();
        let ghost len0 = self.symbols@.len();
        let mut k: usize = 0;
        while k < block.len()
            invariant
                0 <= k <= block@.len(),
                ss == stmts_view(block@),
                ss.len() == block@.len(),
                forall|q: int| 0 <= q < block@.len() ==> #[trigger] ss[q] == stmt_view(block@[q]),
                self.ast == old(self).ast,
                self.functions == old(self).functions,
                sigs == self.signatures(),
                self.symbols@.len() >= len0,
                len0 >= old(self).symbols@.len(),
                len0 > 0,
                s0 == (if new_scope { old(self).scopes().push(Map::empty()) } else { old(self).scopes() }),
                sigs == old(self).signatures(),
                check_stmts(s0, sigs, ss, parent.ret_sig, 0) == check_stmts(self.scopes(), sigs, ss, parent.ret_sig, k as int),
            decreases block@.len() - k,
        {
            let flow = match self.resolve_statement(&block[k], parent) {
                Ok(f) => f,
                Err(e) => {
                    return Err(e);
                },
            };
            if flow == ControlFlow::Returns {
                return Ok(ControlFlow::Returns);
            }
            k = k + 1;
        }
        if new_scope {
            self.pop_scope();
        }
        Ok(ControlFlow::Continues)
    }

    /// Checks a function, as `check_function` describes.
    fn resolve_function(&mut self, function: &Function) -> (r: Result<(), SemanticAnalysisError>)
        ensures
            final(self).ast == old(self).ast,
            final(self).functions == old(self).functions,
            match r {
                Ok(_) => check_function(old(self).scopes(), old(self).signatures(), function_view(*function)) == Ok::<Scopes, SemanticAnalysisError>(final(self).scopes()),
                Err(e) => check_function(old(self).scopes(), old(self).signatures(), function_view(*function)) == Err::<Scopes, SemanticAnalysisError>(e),
            },
    {
        let ghost sc0 = self.scopes();
        let mut scope: Vec<(String, Type)> = Vec::new();
        let mut i: usize = 0;
        proof {
            assert(scope_map(scope@) =~= args_scope(function.args@.take(0))) by {
                assert(scope@.map_values(|e: (String, Type)| (e.0@, e.1)) =~= Seq::empty());
            }
        }
        while i < function.args.len()
            invariant
                0 <= i <= function.args@.len(),
                scope_map(scope@) == args_scope(function.args@.take(i as int)),
            decreases function.args@.len() - i,
        {
            let ghost sc = scope@;
            let arg = &function.args[i];
            scope.push((arg.name.name.clone(), arg.ty));
            proof {
                lemma_scope_map_push(sc, (arg.name.name, arg.ty));
                assert(function.args@.take(i + 1).drop_last() =~= function.args@.take(i as int));
            }
            i = i + 1;
        }
        proof {
            assert(function.args@.take(function.args@.len() as int) == function.args@);
        }
        let ghost s1 = self.symbols@;
        self.symbols.push(scope);
        proof {
            lemma_scopes_push(s1, scope);
        }
        let flow = match self.resolve_block(&function.body, function, false) {
            Ok(f) => f,
            Err(e) => {
                return Err(e);
            },
        };
        if function.ret_sig != Type::Void && flow != ControlFlow::Returns {
            return Err(SemanticAnalysisError::MissingReturn(function.name.name.clone()));
        }
        self.pop_scope();
        Ok(())
    }

    /// Registers the signature of `function`.
    fn register(&mut self, function: &Function)
        ensures
            final(self).ast == old(self).ast,
            final(self).symbols == old(self).symbols,
            final(self).signatures() == old(self).signatures().insert(function.name.name@, signature(function_view(*function))),
    {
        let ghost f0 = self.functions@;
        let entry = (function.name.name.clone(), arg_types(&function.args), function.ret_sig);
        self.functions.push(entry);
        proof {
            lemma_sig_map_push(f0, entry);
        }
    }

    /// Checks the program: registers every function's signature, then checks `main` and the
    /// other functions in order, as `analyze_from` describes.
    pub fn check(&mut self) -> (r: Result<(), SemanticAnalysisError>)
        ensures
            final(self).program() == old(self).program(),
            r == analyze_from(old(self).scopes(), old(self).signatures(), program_view(old(self).program())),
    {
        let ghost p = program_view(*self.ast);
        let ghost fns0 = self.signatures();
        let ghost sc0 = self.scopes();
        let ast = self.ast;
        let mut i: usize = 0;
        while i < ast.functions.len()
            invariant
                0 <= i <= ast.functions@.len(),
                self.ast == ast,
                self.symbols == old(self).symbols,
                p == program_view(*ast),
                p.functions.len() == ast.functions@.len(),
                self.signatures() == add_signatures(fns0, p.functions, i as int),
            decreases ast.functions@.len() - i,
        {
            self.register(&ast.functions[i]);
            i = i + 1;
        }
        match &ast.main {
            Some(main) => {
                self.register(main);
            },
            None => {},
        }
        let ghost sigs = self.signatures();
        assert(sigs == program_signatures(fns0, p));
        match &ast.main {
            Some(main) => {
                match self.resolve_function(main) {
                    Ok(_) => {},
                    Err(e) => {
                        return Err(e);
                    },
                }
            },
            None => {},
        }
        let ghost s1 = self.scopes();
        assert(analyze_from(sc0, fns0, p) == (match check_functions(s1, sigs, p.functions, 0) {
            Ok(_) => Ok(()),
            Err(e) => Err(e),
        }));
        let mut k: usize = 0;
        while k < ast.functions.len()
            invariant
                0 <= k <= ast.functions@.len(),
                self.ast == ast,
                ast == old(self).ast,
                sc0 == old(self).scopes(),
                fns0 == old(self).signatures(),
                analyze_from(sc0, fns0, p) == (match check_functions(s1, sigs, p.functions, 0) {
                    Ok(_) => Ok(()),
                    Err(e) => Err(e),
                }),
                p == program_view(*ast),
                p.functions.len() == ast.functions@.len(),
                forall|q: int| 0 <= q < ast.functions@.len() ==> #[trigger] p.functions[q] == function_view(ast.functions@[q]),
                sigs == self.signatures(),
                check_functions(s1, sigs, p.functions, 0) == check_functions(self.scopes(), sigs, p.functions, k as int),
            decreases ast.functions@.len() - k,
        {
            match self.resolve_function(&ast.functions[k]) {
                Ok(_) => {},
                Err(e) => {
                    return Err(e);
                },
            }
            k = k + 1;
        }
        Ok(())
    }
}

/// An `if` with a final `else` always leaves the function exactly when both of its branches
/// do: with a well-typed condition and branches that check, the statement checks, ends with the
/// scopes after the `else` branch, and its flow is `Returns` when the then-branch and the
/// `else` branch both return, `Continues` otherwise.
pub proof fn lemma_if_else_flow(
    scopes: Scopes,
    fns: Signatures,
    c: SExpr,
    then: Seq<SStmt>,
    body: Seq<SStmt>,
    ret: Type,
    s1: Scopes,
    f1: ControlFlow,
    s2: Scopes,
    f2: ControlFlow,
)
    requires
        ty_expr(scopes, fns, c) is Ok,
        check_block(scopes, fns, then, ret, true) == Ok::<(Scopes, ControlFlow), SemanticAnalysisError>((s1, f1)),
        check_block(s1, fns, body, ret, true) == Ok::<(Scopes, ControlFlow), SemanticAnalysisError>((s2, f2)),
    ensures
        check_stmt(scopes, fns, SStmt::If(c, then, Some(SElse { cond: None, body, els: None })), ret)
            == Ok::<(Scopes, ControlFlow), SemanticAnalysisError>((s2, if f1 == ControlFlow::Returns && f2 == ControlFlow::Returns {
                ControlFlow::Returns
            } else {
                ControlFlow::Continues
            })),
{
    let e = SElse { cond: None, body, els: None };
    assert(check_else(s1, fns, e, ret) == Ok::<(Scopes, ControlFlow), SemanticAnalysisError>((s2, both_return(f2, ControlFlow::Returns))));
}

/// An `if` / `else if` / `else` chain always leaves the function exactly when each of its three
/// branches does.
pub proof fn lemma_else_if_chain_flow(
    scopes: Scopes,
    fns: Signatures,
    c1: SExpr,
    b1: Seq<SStmt>,
    c2: SExpr,
    b2: Seq<SStmt>,
    b3: Seq<SStmt>,
    ret: Type,
    s1: Scopes,
    f1: ControlFlow,
    s2: Scopes,
    f2: ControlFlow,
    s3: Scopes,
    f3: ControlFlow,
)
    requires
        ty_expr(scopes, fns, c1) is Ok,
        check_block(scopes, fns, b1, ret, true) == Ok::<(Scopes, ControlFlow), SemanticAnalysisError>((s1, f1)),
        ty_expr(s1, fns, c2) is Ok,
        check_block(s1, fns, b2, ret, true) == Ok::<(Scopes, ControlFlow), SemanticAnalysisError>((s2, f2)),
        check_block(s2, fns, b3, ret, true) == Ok::<(Scopes, ControlFlow), SemanticAnalysisError>((s3, f3)),
    ensures
        check_stmt(
            scopes,
            fns,
            SStmt::If(c1, b1, Some(SElse { cond: Some(c2), body: b2, els: Some(Box::new(SElse { cond: None, body: b3, els: None })) })),
            ret,
        ) == Ok::<(Scopes, ControlFlow), SemanticAnalysisError>((s3, if f1 == ControlFlow::Returns && f2 == ControlFlow::Returns
            && f3 == ControlFlow::Returns {
            ControlFlow::Returns
        } else {
            ControlFlow::Continues
        })),
{
    let last = SElse { cond: None, body: b3, els: None };
    let mid = SElse { cond: Some(c2), body: b2, els: Some(Box::new(last)) };
    assert(check_else(s2, fns, last, ret) == Ok::<(Scopes, ControlFlow), SemanticAnalysisError>((s3, both_return(f3, ControlFlow::Returns))));
    assert(check_else(s1, fns, mid, ret) == Ok::<(Scopes, ControlFlow), SemanticAnalysisError>((s3, both_return(f2, both_return(f3, ControlFlow::Returns)))));
}

/// A function with a result type whose body is one `if` / `else` both of whose branches
/// `return` a value of that type, under a condition of any type, is accepted.
pub proof fn lemma_function_ending_in_if_else(scopes: Scopes, fns: Signatures, f: SFunction, c: SExpr, e1: SExpr, e2: SExpr)
    requires
        f.ret_sig != Type::Void,
        f.body == seq![SStmt::If(
            c,
            seq![SStmt::Return(e1)],
            Some(SElse { cond: None, body: seq![SStmt::Return(e2)], els: None }),
        )],
        ty_expr(scopes.push(args_scope(f.args)), fns, c) is Ok,
        ty_expr(scopes.push(args_scope(f.args)).push(Map::empty()), fns, e1) == Ok::<Type, SemanticAnalysisError>(f.ret_sig),
        ty_expr(scopes.push(args_scope(f.args)).push(Map::empty()).push(Map::empty()), fns, e2) == Ok::<Type, SemanticAnalysisError>(f.ret_sig),
    ensures
        check_function(scopes, fns, f) is Ok,
{
    let s0 = scopes.push(args_scope(f.args));
    let sa = s0.push(Map::empty());
    let sb = sa.push(Map::empty());
    let then = seq![SStmt::Return(e1)];
    let body = seq![SStmt::Return(e2)];
    assert(check_stmt(sa, fns, then[0], f.ret_sig) == Ok::<(Scopes, ControlFlow), SemanticAnalysisError>((sa, ControlFlow::Returns)));
    assert(check_stmts(sa, fns, then, f.ret_sig, 0) == Ok::<(Scopes, ControlFlow), SemanticAnalysisError>((sa, ControlFlow::Returns)));
    assert(check_block(s0, fns, then, f.ret_sig, true) == Ok::<(Scopes, ControlFlow), SemanticAnalysisError>((sa, ControlFlow::Returns)));
    assert(check_stmt(sb, fns, body[0], f.ret_sig) == Ok::<(Scopes, ControlFlow), SemanticAnalysisError>((sb, ControlFlow::Returns)));
    assert(check_stmts(sb, fns, body, f.ret_sig, 0) == Ok::<(Scopes, ControlFlow), SemanticAnalysisError>((sb, ControlFlow::Returns)));
    assert(check_block(sa, fns, body, f.ret_sig, true) == Ok::<(Scopes, ControlFlow), SemanticAnalysisError>((sb, ControlFlow::Returns)));
    lemma_if_else_flow(s0, fns, c, then, body, f.ret_sig, sa, ControlFlow::Returns, sb, ControlFlow::Returns);
    assert(check_stmts(s0, fns, f.body, f.ret_sig, 0) == Ok::<(Scopes, ControlFlow), SemanticAnalysisError>((sb, ControlFlow::Returns)));
    assert(check_block(s0, fns, f.body, f.ret_sig, false) == Ok::<(Scopes, ControlFlow), SemanticAnalysisError>((sb, ControlFlow::Returns)));
}

/// An `if` without `else` may fall through, whatever its branch does: with a well-typed
/// condition and a branch that checks, the statement checks with flow `Continues`.
pub proof fn lemma_if_without_else_continues(scopes: Scopes, fns: Signatures, c: SExpr, then: Seq<SStmt>, ret: Type)
    requires
        ty_expr(scopes, fns, c) is Ok,
        check_block(scopes, fns, then, ret, true) is Ok,
    ensures
        check_stmt(scopes, fns, SStmt::If(c, then, None), ret) is Ok,
        check_stmt(scopes, fns, SStmt::If(c, then, None), ret).unwrap().1 == ControlFlow::Continues,
{
}

/// A function with a result type whose body is one `if` without `else`, whose branch returns a
/// value of that type, is rejected: some path ends without `return`.
pub proof fn lemma_function_missing_return(scopes: Scopes, fns: Signatures, f: SFunction, c: SExpr, e1: SExpr)
    requires
        f.ret_sig != Type::Void,
        f.body == seq![SStmt::If(c, seq![SStmt::Return(e1)], None)],
        ty_expr(scopes.push(args_scope(f.args)), fns, c) is Ok,
        ty_expr(scopes.push(args_scope(f.args)).push(Map::empty()), fns, e1) == Ok::<Type, SemanticAnalysisError>(f.ret_sig),
    ensures
        check_function(scopes, fns, f) == Err::<Scopes, SemanticAnalysisError>(SemanticAnalysisError::MissingReturn(f.name.name)),
{
    let s0 = scopes.push(args_scope(f.args));
    let sa = s0.push(Map::empty());
    let then = seq![SStmt::Return(e1)];
    assert(check_stmt(sa, fns, then[0], f.ret_sig) == Ok::<(Scopes, ControlFlow), SemanticAnalysisError>((sa, ControlFlow::Returns)));
    assert(check_stmts(sa, fns, then, f.ret_sig, 0) == Ok::<(Scopes, ControlFlow), SemanticAnalysisError>((sa, ControlFlow::Returns)));
    assert(check_block(s0, fns, then, f.ret_sig, true) == Ok::<(Scopes, ControlFlow), SemanticAnalysisError>((sa, ControlFlow::Returns)));
    assert(check_stmt(s0, fns, f.body[0], f.ret_sig) == Ok::<(Scopes, ControlFlow), SemanticAnalysisError>((sa, ControlFlow::Continues)));
    assert(check_stmts(sa, fns, f.body, f.ret_sig, 1) == Ok::<(Scopes, ControlFlow), SemanticAnalysisError>((sa, ControlFlow::Continues)));
    assert(check_stmts(s0, fns, f.body, f.ret_sig, 0) == Ok::<(Scopes, ControlFlow), SemanticAnalysisError>((sa, ControlFlow::Continues)));
}

/// A `while` loop may fall through, even when its body always returns: with a well-typed
/// condition and a body that checks, the loop checks with flow `Continues`.
pub proof fn lemma_while_continues(scopes: Scopes, fns: Signatures, c: SExpr, body: Seq<SStmt>, ret: Type)
    requires
        ty_expr(scopes, fns, c) is Ok,
        check_block(scopes, fns, body, ret, true) is Ok,
    ensures
        check_stmt(scopes, fns, SStmt::While(c, body), ret) is Ok,
        check_stmt(scopes, fns, SStmt::While(c, body), ret).unwrap().1 == ControlFlow::Continues,
{
}

/// A function without a result type needs no `return`: when its body checks, the function is
/// accepted, whatever the flow of the body.
pub proof fn lemma_void_function_accepted(scopes: Scopes, fns: Signatures, f: SFunction)
    requires
        f.ret_sig == Type::Void,
        check_block(scopes.push(args_scope(f.args)), fns, f.body, f.ret_sig, false) is Ok,
    ensures
        check_function(scopes, fns, f) is Ok,
{
}

/// A `return` whose value has another type than the function's result type is rejected with
/// that pair of types; one of the result type returns.
pub proof fn lemma_return_type(scopes: Scopes, fns: Signatures, e: SExpr, ret: Type, t: Type)
    requires
        ty_expr(scopes, fns, e) == Ok::<Type, SemanticAnalysisError>(t),
    ensures
        t != ret ==> check_stmt(scopes, fns, SStmt::Return(e), ret) == Err::<(Scopes, ControlFlow), SemanticAnalysisError>(
            SemanticAnalysisError::TypeMismatch(ret, t),
        ),
        t == ret ==> check_stmt(scopes, fns, SStmt::Return(e), ret) == Ok::<(Scopes, ControlFlow), SemanticAnalysisError>(
            (scopes, ControlFlow::Returns),
        ),
{
}

} // verus!
