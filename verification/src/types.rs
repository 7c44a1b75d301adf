use vstd::prelude::*;

use crate::analyze::{assoc, lemma_assoc_absent, lemma_assoc_found, lemma_assoc_push, lemma_scope_map_push, lemma_stmts_view, scope_get, scope_map};
use crate::parser::{
    ElseClause, Expression, ExpressionVariant, Function, Program, SElse, SExpr, SFunction, SProgram, SStmt,
    Statement, StatementVariant, Term, Type, else_view, expr_view, function_view, program_view, stmt_view,
    stmts_view,
};

verus! {

/// Why the type checker rejected a program.
#[derive(Debug)]
pub enum TypeError {
    /// `exit` was given a value of this type, not an integer.
    ExitNotInteger(Type),
    /// The operands of a binary operator have these different types.
    OperandMismatch(Type, Type),
    /// A variable of the first type was assigned a value of the second.
    AssignmentMismatch(Type, Type),
    /// This variable was assigned to without being declared.
    UnknownAssignee(String),
    /// This variable was used without being declared.
    MissingIdentifier(String),
    /// A call names a function that is not declared.
    UndeclaredFunction,
}

/// The type of `e` for the type checker: operands of a binary operator must agree, a variable
/// must be declared, a call's type is the callee's result type (its arguments are not checked).
pub open spec fn tc_expr(syms: Map<Seq<char>, Type>, fns: Map<Seq<char>, Type>, e: SExpr) -> Result<Type, TypeError>
    decreases e,
{
    match e {
        SExpr::Binary(l, r, _) => match tc_expr(syms, fns, *l) {
            Ok(lt) => match tc_expr(syms, fns, *r) {
                Ok(rt) => if lt != rt {
                    Err(TypeError::OperandMismatch(lt, rt))
                } else {
                    Ok(lt)
                },
                Err(err) => Err(err),
            },
            Err(err) => Err(err),
        },
        SExpr::Term(t) => match t {
            Term::IntLit(_) => Ok(Type::Int),
            Term::Bool(_) => Ok(Type::Bool),
            Term::Identifier(name) => if syms.contains_key(name@) {
                Ok(syms[name@])
            } else {
                Err(TypeError::MissingIdentifier(name))
            },
        },
        SExpr::Call(name, _) => if fns.contains_key(name.name@) {
            Ok(fns[name.name@])
        } else {
            Err(TypeError::UndeclaredFunction)
        },
    }
}

/// Checks a statement, giving the variables declared after it. There is a single scope.
pub open spec fn tc_stmt(syms: Map<Seq<char>, Type>, fns: Map<Seq<char>, Type>, st: SStmt) -> Result<Map<Seq<char>, Type>, TypeError>
    decreases st, 0nat,
{
    match st {
        SStmt::Exit(e) => match tc_expr(syms, fns, e) {
            Ok(t) => if t != Type::Int {
                Err(TypeError::ExitNotInteger(t))
            } else {
                Ok(syms)
            },
            Err(err) => Err(err),
        },
        SStmt::Let(id, e) => match tc_expr(syms, fns, e) {
            Ok(t) => Ok(syms.insert(id.name@, t)),
            Err(err) => Err(err),
        },
        SStmt::If(c, then, els) => match tc_expr(syms, fns, c) {
            Ok(_) => match tc_stmts(syms, fns, then, 0) {
                Ok(s1) => match els {
                    Some(e) => tc_else(s1, fns, e),
                    None => Ok(s1),
                },
                Err(err) => Err(err),
            },
            Err(err) => Err(err),
        },
        SStmt::While(c, body) => match tc_expr(syms, fns, c) {
            Ok(_) => tc_stmts(syms, fns, body, 0),
            Err(err) => Err(err),
        },
        SStmt::Assign(id, e) => match tc_expr(syms, fns, e) {
            Ok(t) => if syms.contains_key(id.name@) {
                if syms[id.name@] == t {
                    Ok(syms)
                } else {
                    Err(TypeError::AssignmentMismatch(syms[id.name@], t))
                }
            } else {
                Err(TypeError::UnknownAssignee(id.name))
            },
            Err(err) => Err(err),
        },
        SStmt::Call(_, _) => Ok(syms),
        SStmt::Return(e) => match tc_expr(syms, fns, e) {
            Ok(_) => Ok(syms),
            Err(err) => Err(err),
        },
    }
}

/// Checks the statements `ss[k..]` in order.
pub open spec fn tc_stmts(syms: Map<Seq<char>, Type>, fns: Map<Seq<char>, Type>, ss: Seq<SStmt>, k: int) -> Result<Map<Seq<char>, Type>, TypeError>
    decreases ss, ss.len() - k,
{
    if k < 0 || k >= ss.len() {
        Ok(syms)
    } else {
        match tc_stmt(syms, fns, ss[k]) {
            Ok(s1) => tc_stmts(s1, fns, ss, k + 1),
            Err(err) => Err(err),
        }
    }
}

/// Checks an else clause chain.
pub open spec fn tc_else(syms: Map<Seq<char>, Type>, fns: Map<Seq<char>, Type>, c: SElse) -> Result<Map<Seq<char>, Type>, TypeError>
    decreases c, 0nat,
{
    let cond_ok: Result<(), TypeError> = match c.cond {
        Some(e) => match tc_expr(syms, fns, e) {
            Ok(_) => Ok(()),
            Err(err) => Err(err),
        },
        None => Ok(()),
    };
    match cond_ok {
        Ok(_) => match tc_stmts(syms, fns, c.body, 0) {
            Ok(s1) => match c.els {
                Some(n) => tc_else(s1, fns, *n),
                None => Ok(s1),
            },
            Err(err) => Err(err),
        },
        Err(err) => Err(err),
    }
}

/// The parameters of `f` declared in `syms`, in order.
pub open spec fn declare_args(syms: Map<Seq<char>, Type>, args: Seq<crate::parser::Argument>, n: int) -> Map<Seq<char>, Type>
    decreases n,
{
    if n <= 0 {
        syms
    } else {
        declare_args(syms, args, n - 1).insert(args[n - 1].name.name@, args[n - 1].ty)
    }
}

/// Checks a function: its parameters join the variables, then its body is checked.
pub open spec fn tc_function(syms: Map<Seq<char>, Type>, fns: Map<Seq<char>, Type>, f: SFunction) -> Result<Map<Seq<char>, Type>, TypeError> {
    tc_stmts(declare_args(syms, f.args, f.args.len() as int), fns, f.body, 0)
}

/// Checks the functions `fs[k..]` in order.
pub open spec fn tc_functions(syms: Map<Seq<char>, Type>, fns: Map<Seq<char>, Type>, fs: Seq<SFunction>, k: int) -> Result<Map<Seq<char>, Type>, TypeError>
    decreases fs.len() - k,
{
    if k < 0 || k >= fs.len() {
        Ok(syms)
    } else {
        match tc_function(syms, fns, fs[k]) {
            Ok(s1) => tc_functions(s1, fns, fs, k + 1),
            Err(err) => Err(err),
        }
    }
}

/// `fns` with the result types of the first `n` functions of `fs`, later ones winning.
pub open spec fn add_results(fns: Map<Seq<char>, Type>, fs: Seq<SFunction>, n: int) -> Map<Seq<char>, Type>
    decreases n,
{
    if n <= 0 {
        fns
    } else {
        add_results(fns, fs, n - 1).insert(fs[n - 1].name.name@, fs[n - 1].ret_sig)
    }
}

/// Type checking of `p` from the variables `syms` and the result types `fns`: every function's
/// result type is registered, then `main` and the other functions are checked in order.
pub open spec fn type_check_from(syms: Map<Seq<char>, Type>, fns: Map<Seq<char>, Type>, p: SProgram) -> Result<(), TypeError> {
    let f1 = add_results(fns, p.functions, p.functions.len() as int);
    let table = match p.main {
        Some(m) => f1.insert(m.name.name@, m.ret_sig),
        None => f1,
    };
    let after_main = match p.main {
        Some(m) => tc_function(syms, table, m),
        None => Ok(syms),
    };
    match after_main {
        Ok(s1) => match tc_functions(s1, table, p.functions, 0) {
            Ok(_) => Ok(()),
            Err(err) => Err(err),
        },
        Err(err) => Err(err),
    }
}

/// A simpler checker: one scope for all variables, calls unchecked.
pub struct TypeChecker<'a> {
    ast: &'a Program,
    symbols: Vec<(String, Type)>,
    functions: Vec<(String, Type)>,
}

impl<'a> TypeChecker<'a> {
    /// The declared variables.
    pub closed spec fn syms(&self) -> Map<Seq<char>, Type> {
        scope_map(self.symbols@)
    }

    /// The registered result types.
    pub closed spec fn fns(&self) -> Map<Seq<char>, Type> {
        scope_map(self.functions@)
    }

    /// The program being checked.
    pub closed spec fn program(&self) -> Program {
        *self.ast
    }

    pub fn new(ast: &'a Program) -> (t: Self)
        ensures
            t.syms() == Map::<Seq<char>, Type>::empty(),
            t.fns() == Map::<Seq<char>, Type>::empty(),
            t.program() == *ast,
    {
        let t = Self { ast, symbols: Vec::new(), functions: Vec::new() };
        proof {
            assert(t.symbols@.map_values(|e: (String, Type)| (e.0@, e.1)) =~= Seq::empty());
            assert(t.functions@.map_values(|e: (String, Type)| (e.0@, e.1)) =~= Seq::empty());
        }
        t
    }

    fn resolve_expr(&self, expr: &Expression) -> (r: Result<Type, TypeError>)
        ensures
            r == tc_expr(self.syms(), self.fns(), expr_view(*expr)),
        decreases *expr,
    {
        match &expr.variant {
            ExpressionVariant::BinaryExpr(lhs, rhs, _bin_op) => {
                let lhs_type = match self.resolve_expr(lhs) {
                    Ok(t) => t,
                    Err(e) => {
                        return Err(e);
                    },
                };
                let rhs_type = match self.resolve_expr(rhs) {
                    Ok(t) => t,
                    Err(e) => {
                        return Err(e);
                    },
                };
                if lhs_type != rhs_type {
                    return Err(TypeError::OperandMismatch(lhs_type, rhs_type));
                }
                Ok(lhs_type)
            },
            ExpressionVariant::Term(term) => self.resolve_term(term),
            ExpressionVariant::FunctionCall { name, .. } => match scope_get(&self.functions, &name.name) {
                Some(t) => Ok(t),
                None => Err(TypeError::UndeclaredFunction),
            },
        }
    }

    fn resolve_term(&self, term: &Term) -> (r: Result<Type, TypeError>)
        ensures
            r == tc_expr(self.syms(), self.fns(), SExpr::Term(*term)),
    {
        match term {
            Term::IntLit(_) => Ok(Type::Int),
            Term::Bool(_) => Ok(Type::Bool),
            Term::Identifier(ident) => match scope_get(&self.symbols, ident) {
                Some(t) => Ok(t),
                None => Err(TypeError::MissingIdentifier(ident.clone())),
            },
        }
    }

    fn declare(&mut self, name: String, ty: Type)
        ensures
            final(self).ast == old(self).ast,
            final(self).functions == old(self).functions,
            final(self).syms() == old(self).syms().insert(name@, ty),
    {
        let ghost s0 = self.symbols@;
        self.symbols.push((name, ty));
        proof {
            lemma_scope_map_push(s0, (name, ty));
        }
    }

    fn resolve_statement(&mut self, stmt: &Statement) -> (r: Result<(), TypeError>)
        ensures
            final(self).ast == old(self).ast,
            final(self).functions == old(self).functions,
            match r {
                Ok(_) => tc_stmt(old(self).syms(), old(self).fns(), stmt_view(*stmt)) == Ok::<Map<Seq<char>, Type>, TypeError>(final(self).syms()),
                Err(e) => tc_stmt(old(self).syms(), old(self).fns(), stmt_view(*stmt)) == Err::<Map<Seq<char>, Type>, TypeError>(e),
            },
        decreases *stmt, 0nat,
    {
        match &stmt.variant {
            StatementVariant::Exit(expression) => {
                let expr_type = match self.resolve_expr(expression) {
                    Ok(t) => t,
                    Err(e) => {
                        return Err(e);
                    },
                };
                if expr_type != Type::Int {
                    return Err(TypeError::ExitNotInteger(expr_type));
                }
                Ok(())
            },
            StatementVariant::Let { ident, expr } => {
                let expr_type = match self.resolve_expr(expr) {
                    Ok(t) => t,
                    Err(e) => {
                        return Err(e);
                    },
                };
                self.declare(ident.name.clone(), expr_type);
                Ok(())
            },
            StatementVariant::If { cond, then, els } => {
                match self.resolve_expr(cond) {
                    Ok(_) => {},
                    Err(e) => {
                        return Err(e);
                    },
                }
                match self.resolve_body(then) {
                    Ok(_) => {},
                    Err(e) => {
                        return Err(e);
                    },
                }
                match els {
                    Some(els) => self.resolve_else(els),
                    None => Ok(()),
                }
            },
            StatementVariant::While { cond, body } => {
                match self.resolve_expr(cond) {
                    Ok(_) => {},
                    Err(e) => {
                        return Err(e);
                    },
                }
                self.resolve_body(body)
            },
            StatementVariant::Assignment { ident, expr } => {
                let expr_type = match self.resolve_expr(expr) {
                    Ok(t) => t,
                    Err(e) => {
                        return Err(e);
                    },
                };
                match scope_get(&self.symbols, &ident.name) {
                    Some(expected_type) => {
                        if expected_type == expr_type {
                            Ok(())
                        } else {
                            Err(TypeError::AssignmentMismatch(expected_type, expr_type))
                        }
                    },
                    None => Err(TypeError::UnknownAssignee(ident.name.clone())),
                }
            },
            StatementVariant::FunctionCall { .. } => Ok(()),
            StatementVariant::Return(expr) => {
                match self.resolve_expr(expr) {
                    Ok(_) => Ok(()),
                    Err(e) => Err(e),
                }
            },
        }
    }

    /// Checks the statements of a body in order.
    fn resolve_body(&mut self, body: &Vec<Statement>) -> (r: Result<(), TypeError>)
        ensures
            final(self).ast == old(self).ast,
            final(self).functions == old(self).functions,
            match r {
                Ok(_) => tc_stmts(old(self).syms(), old(self).fns(), stmts_view(body@), 0) == Ok::<Map<Seq<char>, Type>, TypeError>(final(self).syms()),
                Err(e) => tc_stmts(old(self).syms(), old(self).fns(), stmts_view(body@), 0) == Err::<Map<Seq<char>, Type>, TypeError>(e),
            },
        decreases *body, 1nat,
    {
        let ghost ss = stmts_view(body@);
        proof {
            lemma_stmts_view(body@);
        }
        let mut k: usize = 0;
        while k < body.len()
            invariant
                0 <= k <= body@.len(),
                ss == stmts_view(body@),
                ss.len() == body@.len(),
                forall|q: int| 0 <= q < body@.len() ==> #[trigger] ss[q] == stmt_view(body@[q]),
                self.ast == old(self).ast,
                self.functions == old(self).functions,
                tc_stmts(old(self).syms(), old(self).fns(), ss, 0) == tc_stmts(self.syms(), self.fns(), ss, k as int),
            decreases body@.len() - k,
        {
            match self.resolve_statement(&body[k]) {
                Ok(_) => {},
                Err(e) => {
                    return Err(e);
                },
            }
            k = k + 1;
        }
        Ok(())
    }

    fn resolve_else(&mut self, els: &ElseClause) -> (r: Result<(), TypeError>)
        ensures
            final(self).ast == old(self).ast,
            final(self).functions == old(self).functions,
            match r {
                Ok(_) => tc_else(old(self).syms(), old(self).fns(), else_view(*els)) == Ok::<Map<Seq<char>, Type>, TypeError>(final(self).syms()),
                Err(e) => tc_else(old(self).syms(), old(self).fns(), else_view(*els)) == Err::<Map<Seq<char>, Type>, TypeError>(e),
            },
        decreases *els, 0nat,
    {
        match &els.cond {
            Some(c) => match self.resolve_expr(c) {
                Ok(_) => {},
                Err(e) => {
                    return Err(e);
                },
            },
            None => {},
        }
        match self.resolve_body(&els.body) {
            Ok(_) => {},
            Err(e) => {
                return Err(e);
            },
        }
        match &*els.els {
            Some(e) => self.resolve_else(e),
            None => Ok(()),
        }
    }

    fn resolve_function(&mut self, function: &Function) -> (r: Result<(), TypeError>)
        ensures
            final(self).ast == old(self).ast,
            final(self).functions == old(self).functions,
            match r {
                Ok(_) => tc_function(old(self).syms(), old(self).fns(), function_view(*function)) == Ok::<Map<Seq<char>, Type>, TypeError>(final(self).syms()),
                Err(e) => tc_function(old(self).syms(), old(self).fns(), function_view(*function)) == Err::<Map<Seq<char>, Type>, TypeError>(e),
            },
    {
        let mut i: usize = 0;
        let ghost s0 = self.syms();
        while i < function.args.len()
            invariant
                0 <= i <= function.args@.len(),
                self.ast == old(self).ast,
                self.functions == old(self).functions,
                s0 == old(self).syms(),
                self.syms() == declare_args(s0, function.args@, i as int),
            decreases function.args@.len() - i,
        {
            let arg = &function.args[i];
            self.declare(arg.name.name.clone(), arg.ty);
            i = i + 1;
        }
        self.resolve_body(&function.body)
    }

    fn register(&mut self, function: &Function)
        ensures
            final(self).ast == old(self).ast,
            final(self).symbols == old(self).symbols,
            final(self).fns() == old(self).fns().insert(function.name.name@, function.ret_sig),
    {
        let ghost f0 = self.functions@;
        self.functions.push((function.name.name.clone(), function.ret_sig));
        proof {
            lemma_scope_map_push(f0, (function.name.name, function.ret_sig));
        }
    }

    /// Checks the program, as `type_check_from` describes.
    pub fn check(&mut self) -> (r: Result<(), TypeError>)
        ensures
            final(self).program() == old(self).program(),
            r == type_check_from(old(self).syms(), old(self).fns(), program_view(old(self).program())),
    {
        let ghost p = program_view(*self.ast);
        let ghost fns0 = self.fns();
        let ghost sy0 = self.syms();
        let ast = self.ast;
        let mut i: usize = 0;
        while i < ast.functions.len()
            invariant
                0 <= i <= ast.functions@.len(),
                self.ast == ast,
                self.symbols == old(self).symbols,
                p == program_view(*ast),
                p.functions.len() == ast.functions@.len(),
                self.fns() == add_results(fns0, p.functions, i as int),
            decreases ast.functions@.len() - i,
        {
            self.register(&ast.functions[i]);
            i = i + 1;
        }
        match &ast.main {
            Some(main) => {
                self.register(main);
            },
            None => {},
        }
        let ghost table = self.fns();
        match &ast.main {
            Some(main) => {
                match self.resolve_function(main) {
                    Ok(_) => {},
                    Err(e) => {
                        return Err(e);
                    },
                }
            },
            None => {},
        }
        let ghost s1 = self.syms();
        assert(type_check_from(sy0, fns0, p) == (match tc_functions(s1, table, p.functions, 0) {
            Ok(_) => Ok(()),
            Err(e) => Err(e),
        }));
        let mut k: usize = 0;
        while k < ast.functions.len()
            invariant
                0 <= k <= ast.functions@.len(),
                self.ast == ast,
                ast == old(self).ast,
                sy0 == old(self).syms(),
                fns0 == old(self).fns(),
                type_check_from(sy0, fns0, p) == (match tc_functions(s1, table, p.functions, 0) {
                    Ok(_) => Ok(()),
                    Err(e) => Err(e),
                }),
                p == program_view(*ast),
                p.functions.len() == ast.functions@.len(),
                forall|q: int| 0 <= q < ast.functions@.len() ==> #[trigger] p.functions[q] == function_view(ast.functions@[q]),
                table == self.fns(),
                tc_functions(s1, table, p.functions, 0) == tc_functions(self.syms(), table, p.functions, k as int),
            decreases ast.functions@.len() - k,
        {
            match self.resolve_function(&ast.functions[k]) {
                Ok(_) => {},
                Err(e) => {
                    return Err(e);
                },
            }
            k = k + 1;
        }
        Ok(())
    }
}

} // verus!
