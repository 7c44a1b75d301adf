use vstd::prelude::*;

use vstd::string::StrSliceExecFns;

use crate::lexer::token::{Token, TokenKind, is_arith_kind, is_bool_kind, kind_precedence, token_kind};

verus! {

/// Why parsing failed.
#[derive(Debug)]
pub enum ParseError {
    /// `found` stands where a token of the kind `expected` was needed.
    UnexpectedToken(Token, TokenKind),
    /// The tokens ended where a token of this kind was needed.
    MissingToken(TokenKind),
}

/// A parsed program: the function named `main` (the first such), and the other functions in
/// source order.
#[derive(Debug)]
pub struct Program {
    pub main: Option<Function>,
    pub functions: Vec<Function>,
}

#[derive(Debug)]
pub struct Function {
    pub name: Identifier,
    pub args: Vec<Argument>,
    pub ret_sig: Type,
    pub body: Vec<Statement>,
}

#[derive(Debug, Clone, PartialEq, Eq)]
pub struct Argument {
    pub name: Identifier,
    pub ty: Type,
}

/// The type of a value; `Void` is the result type of a function that returns nothing.
#[derive(Debug, Clone, Copy, PartialEq, Eq, Structural)]
pub enum Type {
    Void,
    Int,
    Bool,
}

#[derive(Debug)]
pub struct Statement {
    pub variant: StatementVariant,
}

#[derive(Debug)]
pub enum StatementVariant {
    Exit(Expression),
    Let { ident: Identifier, expr: Expression },
    If { cond: Expression, then: Vec<Statement>, els: Option<ElseClause> },
    While { cond: Expression, body: Vec<Statement> },
    Assignment { ident: Identifier, expr: Expression },
    FunctionCall { name: Identifier, args: Vec<Expression> },
    Return(Expression),
}

#[derive(Debug)]
pub struct Expression {
    pub variant: ExpressionVariant,
}

#[derive(Debug)]
pub enum ExpressionVariant {
    BinaryExpr(Box<Expression>, Box<Expression>, BinOp),
    Term(Term),
    FunctionCall { name: Identifier, args: Vec<Expression> },
}

/// `else { .. }` or `else if cond { .. }`, possibly followed by further clauses.
#[derive(Debug)]
pub struct ElseClause {
    pub cond: Option<Expression>,
    pub body: Vec<Statement>,
    pub els: Box<Option<ElseClause>>,
}

#[derive(Debug, Clone, PartialEq, Eq)]
pub enum Term {
    Identifier(String),
    IntLit(usize),
    Bool(bool),
}

#[derive(Debug, Clone, Copy, PartialEq, Eq, Structural)]
pub enum BinOp {
    Add,
    Sub,
    Mul,
    Lt,
    Leq,
    Gt,
    Geq,
    Eq,
    Neq,
    And,
    Or,
}

/// An operator whose result is a boolean.
pub open spec fn binop_yields_bool(op: BinOp) -> bool {
    match op {
        BinOp::Add | BinOp::Sub | BinOp::Mul => false,
        _ => true,
    }
}

impl BinOp {
    /// Whether the result of this operator is a boolean (a comparison or a logical operator).
    pub fn is_cmp(&self) -> (b: bool)
        ensures
            b == binop_yields_bool(*self),
    {
        match self {
            BinOp::Lt | BinOp::Leq | BinOp::Gt | BinOp::Geq | BinOp::Eq | BinOp::Neq | BinOp::And | BinOp::Or => true,
            _ => false,
        }
    }

    /// Whether this is a logical operator.
    pub fn is_bool(&self) -> (b: bool)
        ensures
            b == (*self == BinOp::And || *self == BinOp::Or),
    {
        match self {
            BinOp::And | BinOp::Or => true,
            _ => false,
        }
    }
}

/// The operator a token of kind `k` denotes.
pub open spec fn binop_of(k: TokenKind) -> Option<BinOp> {
    match k {
        TokenKind::Plus => Some(BinOp::Add),
        TokenKind::Minus => Some(BinOp::Sub),
        TokenKind::Star => Some(BinOp::Mul),
        TokenKind::Lt => Some(BinOp::Lt),
        TokenKind::Leq => Some(BinOp::Leq),
        TokenKind::Gt => Some(BinOp::Gt),
        TokenKind::Geq => Some(BinOp::Geq),
        TokenKind::EqEq => Some(BinOp::Eq),
        TokenKind::Neq => Some(BinOp::Neq),
        TokenKind::LogicalAnd => Some(BinOp::And),
        TokenKind::LogicalOr => Some(BinOp::Or),
        _ => None,
    }
}

/// The operator `token` denotes; only called on operator tokens.
pub fn binop_from_token(token: &Token) -> (op: BinOp)
    requires
        binop_of(token_kind(*token)) is Some,
    ensures
        binop_of(token_kind(*token)) == Some(op),
{
    match token {
        Token::Plus => BinOp::Add,
        Token::Minus => BinOp::Sub,
        Token::Star => BinOp::Mul,
        Token::Lt => BinOp::Lt,
        Token::Leq => BinOp::Leq,
        Token::Gt => BinOp::Gt,
        Token::Geq => BinOp::Geq,
        Token::EqEq => BinOp::Eq,
        Token::Neq => BinOp::Neq,
        Token::LogicalAnd => BinOp::And,
        _ => BinOp::Or,
    }
}

#[derive(Debug, Clone, PartialEq, Eq)]
pub struct Identifier {
    pub name: String,
}

// ---------------------------------------------------------------------------------------------
// The abstract syntax as values of specifications, with sequences in place of vectors.

/// An expression.
pub enum SExpr {
    Binary(Box<SExpr>, Box<SExpr>, BinOp),
    Term(Term),
    Call(Identifier, Seq<SExpr>),
}

/// A statement.
pub enum SStmt {
    Exit(SExpr),
    Let(Identifier, SExpr),
    If(SExpr, Seq<SStmt>, Option<SElse>),
    While(SExpr, Seq<SStmt>),
    Assign(Identifier, SExpr),
    Call(Identifier, Seq<SExpr>),
    Return(SExpr),
}

/// An else clause.
pub struct SElse {
    pub cond: Option<SExpr>,
    pub body: Seq<SStmt>,
    pub els: Option<Box<SElse>>,
}

/// A function.
pub struct SFunction {
    pub name: Identifier,
    pub args: Seq<Argument>,
    pub ret_sig: Type,
    pub body: Seq<SStmt>,
}

/// A program.
pub struct SProgram {
    pub main: Option<SFunction>,
    pub functions: Seq<SFunction>,
}

pub open spec fn expr_view(e: Expression) -> SExpr
    decreases e, 0nat,
{
    match e.variant {
        ExpressionVariant::BinaryExpr(l, r, op) => SExpr::Binary(Box::new(expr_view(*l)), Box::new(expr_view(*r)), op),
        ExpressionVariant::Term(t) => SExpr::Term(t),
        ExpressionVariant::FunctionCall { name, args } => SExpr::Call(name, exprs_view(args@)),
    }
}

pub open spec fn exprs_view(es: Seq<Expression>) -> Seq<SExpr>
    decreases es, 1nat,
{
    if es.len() == 0 {
        Seq::empty()
    } else {
        exprs_view(es.drop_last()).push(expr_view(es.last()))
    }
}

pub open spec fn stmt_view(st: Statement) -> SStmt
    decreases st, 0nat,
{
    match st.variant {
        StatementVariant::Exit(e) => SStmt::Exit(expr_view(e)),
        StatementVariant::Let { ident, expr } => SStmt::Let(ident, expr_view(expr)),
        StatementVariant::If { cond, then, els } => SStmt::If(
            expr_view(cond),
            stmts_view(then@),
            match els {
                Some(c) => Some(else_view(c)),
                None => None,
            },
        ),
        StatementVariant::While { cond, body } => SStmt::While(expr_view(cond), stmts_view(body@)),
        StatementVariant::Assignment { ident, expr } => SStmt::Assign(ident, expr_view(expr)),
        StatementVariant::FunctionCall { name, args } => SStmt::Call(name, exprs_view(args@)),
        StatementVariant::Return(e) => SStmt::Return(expr_view(e)),
    }
}

pub open spec fn stmts_view(ss: Seq<Statement>) -> Seq<SStmt>
    decreases ss, 1nat,
{
    if ss.len() == 0 {
        Seq::empty()
    } else {
        stmts_view(ss.drop_last()).push(stmt_view(ss.last()))
    }
}

pub open spec fn else_view(c: ElseClause) -> SElse
    decreases c, 0nat,
{
    SElse {
        cond: match c.cond {
            Some(e) => Some(expr_view(e)),
            None => None,
        },
        body: stmts_view(c.body@),
        els: match *c.els {
            Some(n) => Some(Box::new(else_view(n))),
            None => None,
        },
    }
}

pub open spec fn function_view(f: Function) -> SFunction {
    SFunction { name: f.name, args: f.args@, ret_sig: f.ret_sig, body: stmts_view(f.body@) }
}

pub open spec fn functions_view(fs: Seq<Function>) -> Seq<SFunction> {
    fs.map_values(|f: Function| function_view(f))
}

pub open spec fn program_view(p: Program) -> SProgram {
    SProgram {
        main: match p.main {
            Some(m) => Some(function_view(m)),
            None => None,
        },
        functions: functions_view(p.functions@),
    }
}

// ---------------------------------------------------------------------------------------------
// The parser as a function of the token sequence. Each function takes the position of the next
// token and gives the parsed piece with the position after it, or a failure. Positions only move
// forward; the checks for that in the definitions below never fail on a result of the parser.

/// Why parsing stopped: an error reported to the caller, or an input on which the parser gives
/// up without a report (a statement or expression that cannot start with the token found, a
/// statement without its semicolon, or tokens that end in the middle of a construct that the
/// parser reads ahead of).
#[derive(Debug)]
pub enum ParseFailure {
    Error(ParseError),
    Unhandled,
}

/// A piece parsed from position `i` and the position after it, or a failure.
pub type Parsed<T> = Result<(T, int), ParseFailure>;

/// The kind of the token at `i`, if there is one.
pub open spec fn kind_at(toks: Seq<Token>, i: int) -> Option<TokenKind> {
    if 0 <= i < toks.len() {
        Some(token_kind(toks[i]))
    } else {
        None
    }
}

/// Expects a token of kind `k` at `i`.
pub open spec fn sp_token(toks: Seq<Token>, i: int, k: TokenKind) -> Result<int, ParseFailure> {
    if 0 <= i < toks.len() {
        if token_kind(toks[i]) == k {
            Ok(i + 1)
        } else {
            Err(ParseFailure::Error(ParseError::UnexpectedToken(toks[i], k)))
        }
    } else {
        Err(ParseFailure::Error(ParseError::MissingToken(k)))
    }
}

/// An identifier at `i`.
pub open spec fn sp_ident(toks: Seq<Token>, i: int) -> Parsed<Identifier> {
    if 0 <= i < toks.len() {
        match toks[i] {
            Token::Ident(name) => Ok((Identifier { name }, i + 1)),
            t => Err(ParseFailure::Error(ParseError::UnexpectedToken(t, TokenKind::Identifier))),
        }
    } else {
        Err(ParseFailure::Error(ParseError::MissingToken(TokenKind::Identifier)))
    }
}

/// A type name at `i`.
pub open spec fn sp_type(toks: Seq<Token>, i: int) -> Parsed<Type> {
    if 0 <= i < toks.len() {
        match toks[i] {
            Token::IntType => Ok((Type::Int, i + 1)),
            Token::BoolType => Ok((Type::Bool, i + 1)),
            t => Err(ParseFailure::Error(ParseError::UnexpectedToken(t, TokenKind::Type))),
        }
    } else {
        Err(ParseFailure::Unhandled)
    }
}

/// A term (integer, identifier or boolean) at `i`.
pub open spec fn sp_term(toks: Seq<Token>, i: int) -> Parsed<Term> {
    if 0 <= i < toks.len() {
        match toks[i] {
            Token::Int(v) => Ok((Term::IntLit(v), i + 1)),
            Token::Ident(name) => Ok((Term::Identifier(name), i + 1)),
            Token::True => Ok((Term::Bool(true), i + 1)),
            Token::False => Ok((Term::Bool(false), i + 1)),
            t => Err(ParseFailure::Error(ParseError::UnexpectedToken(t, TokenKind::Int))),
        }
    } else {
        Err(ParseFailure::Error(ParseError::MissingToken(TokenKind::Term)))
    }
}

/// The optional `= type` after a function's parameters.
pub open spec fn sp_ret_sig(toks: Seq<Token>, i: int) -> Parsed<Type> {
    if kind_at(toks, i) == Some(TokenKind::Equal) {
        sp_type(toks, i + 1)
    } else {
        Ok((Type::Void, i))
    }
}

/// Function parameters `name: type`, separated by optional commas, up to the closing
/// parenthesis (not consumed).
pub open spec fn sp_fn_args(toks: Seq<Token>, i: int) -> Parsed<Seq<Argument>>
    decreases toks.len() - i,
{
    if kind_at(toks, i) == Some(TokenKind::CloseParen) {
        Ok((Seq::empty(), i))
    } else {
        match sp_ident(toks, i) {
            Ok((name, j1)) => match sp_token(toks, j1, TokenKind::Colon) {
                Ok(j2) => match sp_type(toks, j2) {
                    Ok((ty, j3)) => {
                        let j4 = if kind_at(toks, j3) == Some(TokenKind::Comma) { j3 + 1 } else { j3 };
                        if j4 <= i || j4 > toks.len() {
                            Err(ParseFailure::Unhandled)
                        } else {
                            match sp_fn_args(toks, j4) {
                                Ok((rest, k)) => Ok((seq![Argument { name, ty }] + rest, k)),
                                Err(e) => Err(e),
                            }
                        }
                    },
                    Err(e) => Err(e),
                },
                Err(e) => Err(e),
            },
            Err(e) => Err(e),
        }
    }
}

/// An expression at `i`: a term or call, then either arithmetic operators (with `*` binding
/// tighter than `+` and `-`, left to right) optionally followed by a boolean operator and a
/// further expression, or directly a boolean operator and a further expression.
pub open spec fn sp_expr(toks: Seq<Token>, i: int) -> Parsed<SExpr>
    decreases toks.len() - i, 2nat,
{
    if i < 0 || i >= toks.len() {
        Err(ParseFailure::Unhandled)
    } else {
        let first: Parsed<SExpr> = match toks[i] {
            Token::Ident(name) => if kind_at(toks, i + 1) == Some(TokenKind::OpenParen) {
                match sp_call_args(toks, i + 2) {
                    Ok((args, j)) => if j < i + 2 || j >= toks.len() {
                        Err(ParseFailure::Unhandled)
                    } else {
                        Ok((SExpr::Call(Identifier { name }, args), j + 1))
                    },
                    Err(e) => Err(e),
                }
            } else {
                Ok((SExpr::Term(Term::Identifier(name)), i + 1))
            },
            Token::Int(v) => Ok((SExpr::Term(Term::IntLit(v)), i + 1)),
            Token::True => Ok((SExpr::Term(Term::Bool(true)), i + 1)),
            Token::False => Ok((SExpr::Term(Term::Bool(false)), i + 1)),
            _ => Err(ParseFailure::Unhandled),
        };
        match first {
            Ok((e, k)) => if k <= i || k > toks.len() {
                Err(ParseFailure::Unhandled)
            } else if kind_at(toks, k).is_some() && is_arith_kind(kind_at(toks, k).unwrap()) {
                match sp_outer(toks, k, e, 0) {
                    Ok((e2, k2)) => if k2 < k || k2 > toks.len() {
                        Err(ParseFailure::Unhandled)
                    } else if kind_at(toks, k2).is_some() && is_bool_kind(kind_at(toks, k2).unwrap()) {
                        match sp_expr(toks, k2 + 1) {
                            Ok((rhs, k3)) => Ok((SExpr::Binary(Box::new(e2), Box::new(rhs), binop_of(kind_at(toks, k2).unwrap()).unwrap()), k3)),
                            Err(f) => Err(f),
                        }
                    } else {
                        Ok((e2, k2))
                    },
                    Err(f) => Err(f),
                }
            } else if kind_at(toks, k).is_some() && is_bool_kind(kind_at(toks, k).unwrap()) {
                match sp_expr(toks, k + 1) {
                    Ok((rhs, k3)) => Ok((SExpr::Binary(Box::new(e), Box::new(rhs), binop_of(kind_at(toks, k).unwrap()).unwrap()), k3)),
                    Err(f) => Err(f),
                }
            } else {
                Ok((e, k))
            },
            Err(f) => Err(f),
        }
    }
}

/// Call arguments: expressions separated by optional commas, up to the closing parenthesis
/// (not consumed).
pub open spec fn sp_call_args(toks: Seq<Token>, i: int) -> Parsed<Seq<SExpr>>
    decreases toks.len() - i, 3nat,
{
    if kind_at(toks, i) == Some(TokenKind::CloseParen) {
        Ok((Seq::empty(), i))
    } else {
        match sp_expr(toks, i) {
            Ok((e, j)) => {
                let j2 = if kind_at(toks, j) == Some(TokenKind::Comma) { j + 1 } else { j };
                if j2 <= i || j2 > toks.len() {
                    Err(ParseFailure::Unhandled)
                } else {
                    match sp_call_args(toks, j2) {
                        Ok((rest, k)) => Ok((seq![e] + rest, k)),
                        Err(f) => Err(f),
                    }
                }
            },
            Err(f) => Err(f),
        }
    }
}

/// Precedence climbing: extends `lhs` with the arithmetic operators at `i` of precedence at
/// least `min`.
pub open spec fn sp_outer(toks: Seq<Token>, i: int, lhs: SExpr, min: usize) -> Parsed<SExpr>
    decreases toks.len() - i, 0nat,
{
    if i < 0 || i >= toks.len() {
        Err(ParseFailure::Unhandled)
    } else {
        let k = token_kind(toks[i]);
        if is_arith_kind(k) && kind_precedence(k) >= min {
            match sp_term(toks, i + 1) {
                Ok((t, j)) => match sp_inner(toks, j, SExpr::Term(t), k) {
                    Ok((rhs, j2)) => if j2 < j || j2 > toks.len() {
                        Err(ParseFailure::Unhandled)
                    } else {
                        sp_outer(toks, j2, SExpr::Binary(Box::new(lhs), Box::new(rhs), binop_of(k).unwrap()), min)
                    },
                    Err(f) => Err(f),
                },
                Err(f) => Err(f),
            }
        } else {
            Ok((lhs, i))
        }
    }
}

/// Extends the right operand `rhs` of operator kind `op` with the operators at `i` that bind
/// tighter than `op`.
pub open spec fn sp_inner(toks: Seq<Token>, i: int, rhs: SExpr, op: TokenKind) -> Parsed<SExpr>
    decreases toks.len() - i, 1nat,
{
    if i < 0 || i >= toks.len() {
        Err(ParseFailure::Unhandled)
    } else {
        let k = token_kind(toks[i]);
        if is_arith_kind(k) && kind_precedence(k) > kind_precedence(op) {
            match sp_outer(toks, i, rhs, (kind_precedence(op) + 1) as usize) {
                Ok((rhs2, j)) => if j <= i || j > toks.len() {
                    Err(ParseFailure::Unhandled)
                } else {
                    sp_inner(toks, j, rhs2, op)
                },
                Err(f) => Err(f),
            }
        } else {
            Ok((rhs, i))
        }
    }
}

/// Statements up to the closing brace (not consumed).
pub open spec fn sp_block(toks: Seq<Token>, i: int) -> Parsed<Seq<SStmt>>
    decreases toks.len() - i, 4nat,
{
    if kind_at(toks, i) == Some(TokenKind::CloseBrace) {
        Ok((Seq::empty(), i))
    } else {
        match sp_stmt(toks, i) {
            Ok((st, j)) => if j <= i || j > toks.len() {
                Err(ParseFailure::Unhandled)
            } else {
                match sp_block(toks, j) {
                    Ok((rest, k)) => Ok((seq![st] + rest, k)),
                    Err(f) => Err(f),
                }
            },
            Err(f) => Err(f),
        }
    }
}

/// `{ block }` at `i`, giving the statements and the position after the closing brace.
pub open spec fn sp_braced(toks: Seq<Token>, i: int) -> Parsed<Seq<SStmt>>
    decreases toks.len() - i, 5nat,
{
    match sp_token(toks, i, TokenKind::OpenBrace) {
        Ok(j) => match sp_block(toks, j) {
            Ok((body, k)) => if k < j || k > toks.len() {
                Err(ParseFailure::Unhandled)
            } else {
                match sp_token(toks, k, TokenKind::CloseBrace) {
                    Ok(k2) => Ok((body, k2)),
                    Err(f) => Err(f),
                }
            },
            Err(f) => Err(f),
        },
        Err(f) => Err(f),
    }
}

/// A statement at `i`, with its semicolon (optional after `if` and `while`).
pub open spec fn sp_stmt(toks: Seq<Token>, i: int) -> Parsed<SStmt>
    decreases toks.len() - i, 3nat,
{
    if i < 0 || i >= toks.len() {
        Err(ParseFailure::Unhandled)
    } else {
        let (res, scoped): (Parsed<SStmt>, bool) = match toks[i] {
            Token::Exit => (match sp_token(toks, i + 1, TokenKind::OpenParen) {
                Ok(j1) => match sp_expr(toks, j1) {
                    Ok((e, j2)) => match sp_token(toks, j2, TokenKind::CloseParen) {
                        Ok(j3) => Ok((SStmt::Exit(e), j3)),
                        Err(f) => Err(f),
                    },
                    Err(f) => Err(f),
                },
                Err(f) => Err(f),
            }, false),
            Token::Let => (match sp_ident(toks, i + 1) {
                Ok((id, j1)) => match sp_token(toks, j1, TokenKind::Equal) {
                    Ok(j2) => match sp_expr(toks, j2) {
                        Ok((e, j3)) => Ok((SStmt::Let(id, e), j3)),
                        Err(f) => Err(f),
                    },
                    Err(f) => Err(f),
                },
                Err(f) => Err(f),
            }, false),
            Token::If => (match sp_expr(toks, i + 1) {
                Ok((c, j1)) => if j1 <= i || j1 > toks.len() {
                    Err(ParseFailure::Unhandled)
                } else {
                    match sp_braced(toks, j1) {
                        Ok((body, j2)) => if j2 <= i || j2 > toks.len() {
                            Err(ParseFailure::Unhandled)
                        } else {
                            match sp_else(toks, j2) {
                                Ok((els, j3)) => Ok((SStmt::If(c, body, els), j3)),
                                Err(f) => Err(f),
                            }
                        },
                        Err(f) => Err(f),
                    }
                },
                Err(f) => Err(f),
            }, true),
            Token::While => (match sp_expr(toks, i + 1) {
                Ok((c, j1)) => if j1 <= i || j1 > toks.len() {
                    Err(ParseFailure::Unhandled)
                } else {
                    match sp_braced(toks, j1) {
                        Ok((body, j2)) => Ok((SStmt::While(c, body), j2)),
                        Err(f) => Err(f),
                    }
                },
                Err(f) => Err(f),
            }, true),
            Token::Ident(name) => (if kind_at(toks, i + 1) == Some(TokenKind::OpenParen) {
                match sp_call_args(toks, i + 2) {
                    Ok((args, j)) => Ok((SStmt::Call(Identifier { name }, args), j + 1)),
                    Err(f) => Err(f),
                }
            } else {
                match sp_token(toks, i + 1, TokenKind::Equal) {
                    Ok(j1) => match sp_expr(toks, j1) {
                        Ok((e, j2)) => Ok((SStmt::Assign(Identifier { name }, e), j2)),
                        Err(f) => Err(f),
                    },
                    Err(f) => Err(f),
                }
            }, false),
            Token::Return => (match sp_expr(toks, i + 1) {
                Ok((e, j1)) => Ok((SStmt::Return(e), j1)),
                Err(f) => Err(f),
            }, false),
            _ => (Err(ParseFailure::Unhandled), false),
        };
        match res {
            Ok((st, j)) => if kind_at(toks, j) == Some(TokenKind::Semi) {
                Ok((st, j + 1))
            } else if scoped {
                Ok((st, j))
            } else {
                Err(ParseFailure::Unhandled)
            },
            Err(f) => Err(f),
        }
    }
}

/// An optional else clause at `i`.
pub open spec fn sp_else(toks: Seq<Token>, i: int) -> Parsed<Option<SElse>>
    decreases toks.len() - i, 3nat,
{
    if kind_at(toks, i) == Some(TokenKind::Else) {
        let c: Parsed<Option<SExpr>> = if kind_at(toks, i + 1) == Some(TokenKind::If) {
            match sp_expr(toks, i + 2) {
                Ok((e, j)) => Ok((Some(e), j)),
                Err(f) => Err(f),
            }
        } else {
            Ok((None, i + 1))
        };
        match c {
            Ok((cond, j1)) => if j1 <= i || j1 > toks.len() {
                Err(ParseFailure::Unhandled)
            } else {
                match sp_braced(toks, j1) {
                    Ok((body, j2)) => if j2 <= i || j2 > toks.len() {
                        Err(ParseFailure::Unhandled)
                    } else {
                        match sp_else(toks, j2) {
                            Ok((els, j3)) => Ok((
                                Some(SElse {
                                    cond,
                                    body,
                                    els: match els {
                                        Some(n) => Some(Box::new(n)),
                                        None => None,
                                    },
                                }),
                                j3,
                            )),
                            Err(f) => Err(f),
                        }
                    },
                    Err(f) => Err(f),
                }
            },
            Err(f) => Err(f),
        }
    } else {
        Ok((None, i))
    }
}

/// A function definition at `i`: `fn name(params) [= type] { body }`.
pub open spec fn sp_function(toks: Seq<Token>, i: int) -> Parsed<SFunction> {
    match sp_token(toks, i, TokenKind::Fn) {
        Ok(j1) => match sp_ident(toks, j1) {
            Ok((name, j2)) => match sp_token(toks, j2, TokenKind::OpenParen) {
                Ok(j3) => match sp_fn_args(toks, j3) {
                    Ok((args, j4)) => match sp_token(toks, j4, TokenKind::CloseParen) {
                        Ok(j5) => match sp_ret_sig(toks, j5) {
                            Ok((ret_sig, j6)) => match sp_braced(toks, j6) {
                                Ok((body, j7)) => Ok((SFunction { name, args, ret_sig, body }, j7)),
                                Err(f) => Err(f),
                            },
                            Err(f) => Err(f),
                        },
                        Err(f) => Err(f),
                    },
                    Err(f) => Err(f),
                },
                Err(f) => Err(f),
            },
            Err(f) => Err(f),
        },
        Err(f) => Err(f),
    }
}

/// Function definitions from `i` to the end of the tokens.
pub open spec fn sp_functions(toks: Seq<Token>, i: int) -> Parsed<Seq<SFunction>>
    decreases toks.len() - i,
{
    if i < 0 || i >= toks.len() {
        Ok((Seq::empty(), i))
    } else {
        match sp_function(toks, i) {
            Ok((f, j)) => if j <= i || j > toks.len() {
                Err(ParseFailure::Unhandled)
            } else {
                match sp_functions(toks, j) {
                    Ok((rest, k)) => Ok((seq![f] + rest, k)),
                    Err(e) => Err(e),
                }
            },
            Err(e) => Err(e),
        }
    }
}

/// The identifier `main`.
pub open spec fn is_main_name(id: Identifier) -> bool {
    id.name@ == seq!['m', 'a', 'i', 'n']
}

/// The program made of the first `n` functions of `fs`: the first one named `main` is the entry
/// point, the others are kept in order.
pub open spec fn split_main(fs: Seq<SFunction>, n: int) -> SProgram
    decreases n,
{
    if n <= 0 {
        SProgram { main: None, functions: Seq::empty() }
    } else {
        let p = split_main(fs, n - 1);
        let f = fs[n - 1];
        if p.main is None && is_main_name(f.name) {
            SProgram { main: Some(f), functions: p.functions }
        } else {
            SProgram { main: p.main, functions: p.functions.push(f) }
        }
    }
}

/// The program the tokens spell.
pub open spec fn sp_parse(toks: Seq<Token>) -> Result<SProgram, ParseFailure> {
    match sp_functions(toks, 0) {
        Ok((fs, _)) => Ok(split_main(fs, fs.len() as int)),
        Err(f) => Err(f),
    }
}

/// A copy of `t`.
pub fn copy_token(t: &Token) -> (r: Token)
    ensures
        r == *t,
{
    match t {
        Token::Int(n) => Token::Int(*n),
        Token::Ident(s) => Token::Ident(s.clone()),
        Token::Exit => Token::Exit,
        Token::OpenParen => Token::OpenParen,
        Token::CloseParen => Token::CloseParen,
        Token::OpenBrace => Token::OpenBrace,
        Token::CloseBrace => Token::CloseBrace,
        Token::Semi => Token::Semi,
        Token::Let => Token::Let,
        Token::Equal => Token::Equal,
        Token::Plus => Token::Plus,
        Token::Minus => Token::Minus,
        Token::Star => Token::Star,
        Token::If => Token::If,
        Token::Else => Token::Else,
        Token::Lt => Token::Lt,
        Token::Leq => Token::Leq,
        Token::Gt => Token::Gt,
        Token::Geq => Token::Geq,
        Token::EqEq => Token::EqEq,
        Token::Neq => Token::Neq,
        Token::Bang => Token::Bang,
        Token::True => Token::True,
        Token::False => Token::False,
        Token::Ampersand => Token::Ampersand,
        Token::Pipe => Token::Pipe,
        Token::LogicalAnd => Token::LogicalAnd,
        Token::LogicalOr => Token::LogicalOr,
        Token::Fn => Token::Fn,
        Token::While => Token::While,
        Token::Return => Token::Return,
        Token::Colon => Token::Colon,
        Token::Comma => Token::Comma,
        Token::IntType => Token::IntType,
        Token::BoolType => Token::BoolType,
    }
}

/// A recursive-descent parser over a token sequence.
pub struct Parser {
    tokens: Vec<Token>,
    index: usize,
}

impl Parser {
    /// The tokens being parsed.
    pub closed spec fn toks(&self) -> Seq<Token> {
        self.tokens@
    }

    /// The position of the next token.
    pub closed spec fn pos(&self) -> int {
        self.index as int
    }

    pub closed spec fn wf(&self) -> bool {
        self.index <= self.tokens@.len()
    }

    pub fn new(tokens: Vec<Token>) -> (p: Self)
        ensures
            p.wf(),
            p.toks() == tokens@,
            p.pos() == 0,
    {
        Self { tokens, index: 0 }
    }

    fn peek(&self) -> (r: Option<&Token>)
        requires
            self.wf(),
        ensures
            r is None <==> self.index >= self.tokens@.len(),
            r matches Some(t) ==> *t == self.tokens@[self.index as int],
    {
        if self.index < self.tokens.len() {
            Some(&self.tokens[self.index])
        } else {
            None
        }
    }

    fn peek_kind(&self) -> (r: Option<TokenKind>)
        requires
            self.wf(),
        ensures
            r == kind_at(self.tokens@, self.index as int),
    {
        if self.index < self.tokens.len() {
            Some(self.tokens[self.index].kind())
        } else {
            None
        }
    }

    fn inc(&mut self)
        requires
            old(self).index < old(self).tokens@.len(),
        ensures
            final(self).tokens@ == old(self).tokens@,
            final(self).index == old(self).index + 1,
    {
        let _n = self.tokens.len();
        self.index = self.index + 1;
    }

    fn parse_token(&mut self, expected: TokenKind) -> (r: Result<(), ParseFailure>)
        requires
            old(self).wf(),
        ensures
            final(self).wf(),
            final(self).tokens@ == old(self).tokens@,
            final(self).index >= old(self).index,
            match r {
                Ok(_) => sp_token(old(self).tokens@, old(self).index as int, expected) == Ok::<int, ParseFailure>(final(self).index as int),
                Err(f) => sp_token(old(self).tokens@, old(self).index as int, expected) == Err::<int, ParseFailure>(f),
            },
    {
        match self.peek() {
            Some(token) => {
                if token.kind() == expected {
                    self.inc();
                    Ok(())
                } else {
                    Err(ParseFailure::Error(ParseError::UnexpectedToken(copy_token(token), expected)))
                }
            },
            None => Err(ParseFailure::Error(ParseError::MissingToken(expected))),
        }
    }

    fn parse_ident(&mut self) -> (r: Result<Identifier, ParseFailure>)
        requires
            old(self).wf(),
        ensures
            final(self).wf(),
            final(self).tokens@ == old(self).tokens@,
            final(self).index >= old(self).index,
            match r {
                Ok(id) => sp_ident(old(self).tokens@, old(self).index as int) == Ok::<(Identifier, int), ParseFailure>((id, final(self).index as int)),
                Err(f) => sp_ident(old(self).tokens@, old(self).index as int) == Err::<(Identifier, int), ParseFailure>(f),
            },
    {
        match self.peek() {
            Some(Token::Ident(name)) => {
                let name = name.clone();
                self.inc();
                Ok(Identifier { name })
            },
            Some(token) => Err(ParseFailure::Error(ParseError::UnexpectedToken(copy_token(token), TokenKind::Identifier))),
            None => Err(ParseFailure::Error(ParseError::MissingToken(TokenKind::Identifier))),
        }
    }

    fn parse_type(&mut self) -> (r: Result<Type, ParseFailure>)
        requires
            old(self).wf(),
        ensures
            final(self).wf(),
            final(self).tokens@ == old(self).tokens@,
            final(self).index >= old(self).index,
            match r {
                Ok(t) => sp_type(old(self).tokens@, old(self).index as int) == Ok::<(Type, int), ParseFailure>((t, final(self).index as int)),
                Err(f) => sp_type(old(self).tokens@, old(self).index as int) == Err::<(Type, int), ParseFailure>(f),
            },
    {
        match self.peek() {
            Some(Token::IntType) => {
                self.inc();
                Ok(Type::Int)
            },
            Some(Token::BoolType) => {
                self.inc();
                Ok(Type::Bool)
            },
            Some(token) => Err(ParseFailure::Error(ParseError::UnexpectedToken(copy_token(token), TokenKind::Type))),
            None => Err(ParseFailure::Unhandled),
        }
    }

    fn parse_term(&mut self) -> (r: Result<Term, ParseFailure>)
        requires
            old(self).wf(),
        ensures
            final(self).wf(),
            final(self).tokens@ == old(self).tokens@,
            final(self).index >= old(self).index,
            match r {
                Ok(t) => sp_term(old(self).tokens@, old(self).index as int) == Ok::<(Term, int), ParseFailure>((t, final(self).index as int)),
                Err(f) => sp_term(old(self).tokens@, old(self).index as int) == Err::<(Term, int), ParseFailure>(f),
            },
    {
        match self.peek() {
            Some(Token::Int(value)) => {
                let v = *value;
                self.inc();
                Ok(Term::IntLit(v))
            },
            Some(Token::Ident(name)) => {
                let name = name.clone();
                self.inc();
                Ok(Term::Identifier(name))
            },
            Some(Token::True) => {
                self.inc();
                Ok(Term::Bool(true))
            },
            Some(Token::False) => {
                self.inc();
                Ok(Term::Bool(false))
            },
            Some(token) => Err(ParseFailure::Error(ParseError::UnexpectedToken(copy_token(token), TokenKind::Int))),
            None => Err(ParseFailure::Error(ParseError::MissingToken(TokenKind::Term))),
        }
    }

    fn parse_return_signature(&mut self) -> (r: Result<Type, ParseFailure>)
        requires
            old(self).wf(),
        ensures
            final(self).wf(),
            final(self).tokens@ == old(self).tokens@,
            final(self).index >= old(self).index,
            match r {
                Ok(t) => sp_ret_sig(old(self).tokens@, old(self).index as int) == Ok::<(Type, int), ParseFailure>((t, final(self).index as int)),
                Err(f) => sp_ret_sig(old(self).tokens@, old(self).index as int) == Err::<(Type, int), ParseFailure>(f),
            },
    {
        if self.peek_kind() == Some(TokenKind::Equal) {
            self.inc();
            let ty = match self.parse_type() {
            Ok(v) => v,
            Err(f) => {
                return Err(f);
            },
        };
            return Ok(ty);
        }
        Ok(Type::Void)
    }

    fn parse_fn_args(&mut self) -> (r: Result<Vec<Argument>, ParseFailure>)
        requires
            old(self).wf(),
        ensures
            final(self).wf(),
            final(self).tokens@ == old(self).tokens@,
            final(self).index >= old(self).index,
            match r {
                Ok(args) => sp_fn_args(old(self).tokens@, old(self).index as int) == Ok::<(Seq<Argument>, int), ParseFailure>((args@, final(self).index as int)),
                Err(f) => sp_fn_args(old(self).tokens@, old(self).index as int) == Err::<(Seq<Argument>, int), ParseFailure>(f),
            },
    {
        let ghost toks = self.tokens@;
        let ghost i0 = self.index as int;
        let mut args: Vec<Argument> = Vec::new();
        while self.peek_kind() != Some(TokenKind::CloseParen)
            invariant
                self.wf(),
                self.tokens@ == toks,
                toks == old(self).tokens@,
                i0 == old(self).index,
                self.index >= i0,
                sp_fn_args(toks, i0) == prepend_seq(args@, sp_fn_args(toks, self.index as int)),
            decreases toks.len() - self.index,
        {
            let ghost i = self.index as int;
            let arg_name = match self.parse_ident() {
            Ok(v) => v,
            Err(f) => {
                return Err(f);
            },
        };
            match self.parse_token(TokenKind::Colon) {
                Ok(_) => {},
                Err(f) => {
                    return Err(f);
                },
            }
            let arg_type = match self.parse_type() {
            Ok(v) => v,
            Err(f) => {
                return Err(f);
            },
        };
            let ghost a0 = args@;
            args.push(Argument { name: arg_name, ty: arg_type });
            if self.peek_kind() == Some(TokenKind::Comma) {
                self.inc();
            }
            proof {
                lemma_prepend_seq(a0, Argument { name: arg_name, ty: arg_type }, sp_fn_args(toks, self.index as int));
            }
        }
        proof {
            assert(args@ + Seq::<Argument>::empty() =~= args@);
        }
        Ok(args)
    }
}

/// `p` followed by the parsed sequence of `rest`, or the failure of `rest`.
pub open spec fn prepend_seq<T>(p: Seq<T>, rest: Parsed<Seq<T>>) -> Parsed<Seq<T>> {
    match rest {
        Ok((ts, k)) => Ok((p + ts, k)),
        Err(f) => Err(f),
    }
}

proof fn lemma_prepend_seq<T>(p: Seq<T>, x: T, rest: Parsed<Seq<T>>)
    ensures
        prepend_seq(p, match rest {
            Ok((ts, k)) => Ok((seq![x] + ts, k)),
            Err(f) => Err(f),
        }) == prepend_seq(p.push(x), rest),
{
    match rest {
        Ok((ts, k)) => {
            assert(p + (seq![x] + ts) =~= p.push(x) + ts);
        },
        Err(f) => {},
    }
}

/// The operator a token of kind `k` denotes; only called on operator kinds.
fn binop_from_kind(k: TokenKind) -> (op: BinOp)
    requires
        binop_of(k) is Some,
    ensures
        binop_of(k) == Some(op),
{
    match k {
        TokenKind::Plus => BinOp::Add,
        TokenKind::Minus => BinOp::Sub,
        TokenKind::Star => BinOp::Mul,
        TokenKind::Lt => BinOp::Lt,
        TokenKind::Leq => BinOp::Leq,
        TokenKind::Gt => BinOp::Gt,
        TokenKind::Geq => BinOp::Geq,
        TokenKind::EqEq => BinOp::Eq,
        TokenKind::Neq => BinOp::Neq,
        TokenKind::LogicalAnd => BinOp::And,
        _ => BinOp::Or,
    }
}

fn kind_is_arith(k: TokenKind) -> (b: bool)
    ensures
        b == is_arith_kind(k),
{
    match k {
        TokenKind::Plus | TokenKind::Minus | TokenKind::Star => true,
        _ => false,
    }
}

fn kind_is_bool(k: TokenKind) -> (b: bool)
    ensures
        b == is_bool_kind(k),
        b ==> binop_of(k) is Some,
{
    match k {
        TokenKind::Lt | TokenKind::Leq | TokenKind::Gt | TokenKind::Geq | TokenKind::EqEq | TokenKind::Neq
        | TokenKind::LogicalAnd | TokenKind::LogicalOr => true,
        _ => false,
    }
}

fn kind_prec(k: TokenKind) -> (p: usize)
    ensures
        p == kind_precedence(k),
{
    match k {
        TokenKind::Star => 1,
        _ => 0,
    }
}

impl Parser {
    /// Precedence climbing over the arithmetic operators of precedence at least
    /// `min_precedence`, starting from the left operand `lhs`.
    fn climb_precedence(&mut self, lhs: Expression, min_precedence: usize) -> (r: Result<Expression, ParseFailure>)
        requires
            old(self).wf(),
        ensures
            final(self).wf(),
            final(self).tokens@ == old(self).tokens@,
            final(self).index >= old(self).index,
            match r {
                Ok(e) => sp_outer(old(self).tokens@, old(self).index as int, expr_view(lhs), min_precedence)
                    == Ok::<(SExpr, int), ParseFailure>((expr_view(e), final(self).index as int)),
                Err(f) => sp_outer(old(self).tokens@, old(self).index as int, expr_view(lhs), min_precedence)
                    == Err::<(SExpr, int), ParseFailure>(f),
            },
            (r is Ok && old(self).index < old(self).tokens@.len()
                && is_arith_kind(token_kind(old(self).tokens@[old(self).index as int]))
                && kind_precedence(token_kind(old(self).tokens@[old(self).index as int])) >= min_precedence)
                ==> final(self).index > old(self).index,
        decreases old(self).tokens@.len() - old(self).index, 0nat,
    {
        let ghost toks = self.tokens@;
        let ghost i0 = self.index as int;
        let ghost l0 = expr_view(lhs);
        let mut cur = lhs;
        let mut lookahead = match self.peek_kind() {
            Some(k) => k,
            None => {
                return Err(ParseFailure::Unhandled);
            },
        };
        while kind_is_arith(lookahead) && kind_prec(lookahead) >= min_precedence
            invariant
                self.wf(),
                self.tokens@ == toks,
                toks == old(self).tokens@,
                i0 == old(self).index,
                self.index >= i0,
                self.index < toks.len(),
                lookahead == token_kind(toks[self.index as int]),
                self.index == i0 ==> expr_view(cur) == l0,
                l0 == expr_view(lhs),
                sp_outer(toks, i0, l0, min_precedence) == sp_outer(toks, self.index as int, expr_view(cur), min_precedence),
            decreases toks.len() - self.index,
        {
            let ghost i = self.index as int;
            let op_kind = lookahead;
            let op = binop_from_kind(op_kind);
            self.inc();
            let t = match self.parse_term() {
                Ok(v) => v,
                Err(f) => {
                    return Err(f);
                },
            };
            let ghost j = self.index as int;
            let rhs = Expression { variant: ExpressionVariant::Term(t) };
            let rhs = match self.climb_operand(rhs, op_kind) {
            Ok(v) => v,
            Err(f) => {
                return Err(f);
            },
        };
            cur = Expression { variant: ExpressionVariant::BinaryExpr(Box::new(cur), Box::new(rhs), op) };
            lookahead = match self.peek_kind() {
                Some(k) => k,
                None => {
                    return Err(ParseFailure::Unhandled);
                },
            };
        }
        Ok(cur)
    }

    /// Extends the right operand `rhs` of the operator of kind `op` with the operators that
    /// bind tighter than `op`.
    fn climb_operand(&mut self, rhs: Expression, op: TokenKind) -> (r: Result<Expression, ParseFailure>)
        requires
            old(self).wf(),
        ensures
            final(self).wf(),
            final(self).tokens@ == old(self).tokens@,
            final(self).index >= old(self).index,
            match r {
                Ok(e) => sp_inner(old(self).tokens@, old(self).index as int, expr_view(rhs), op)
                    == Ok::<(SExpr, int), ParseFailure>((expr_view(e), final(self).index as int)),
                Err(f) => sp_inner(old(self).tokens@, old(self).index as int, expr_view(rhs), op)
                    == Err::<(SExpr, int), ParseFailure>(f),
            },
        decreases old(self).tokens@.len() - old(self).index, 1nat,
    {
        let ghost toks = self.tokens@;
        let ghost i0 = self.index as int;
        let ghost r0 = expr_view(rhs);
        let mut cur = rhs;
        let mut lookahead = match self.peek_kind() {
            Some(k) => k,
            None => {
                return Err(ParseFailure::Unhandled);
            },
        };
        let op_prec = kind_prec(op);
        while kind_is_arith(lookahead) && kind_prec(lookahead) > op_prec
            invariant
                self.wf(),
                self.tokens@ == toks,
                toks == old(self).tokens@,
                i0 == old(self).index,
                self.index >= i0,
                self.index < toks.len(),
                op_prec == kind_precedence(op),
                lookahead == token_kind(toks[self.index as int]),
                sp_inner(toks, i0, r0, op) == sp_inner(toks, self.index as int, expr_view(cur), op),
                r0 == expr_view(rhs),
            decreases toks.len() - self.index,
        {
            cur = match self.climb_precedence(cur, op_prec + 1) {
            Ok(v) => v,
            Err(f) => {
                return Err(f);
            },
        };
            lookahead = match self.peek_kind() {
                Some(k) => k,
                None => {
                    return Err(ParseFailure::Unhandled);
                },
            };
        }
        Ok(cur)
    }
}

impl Parser {
    /// An expression, as `sp_expr` describes.
    fn parse_expr(&mut self) -> (r: Result<Expression, ParseFailure>)
        requires
            old(self).wf(),
        ensures
            final(self).wf(),
            final(self).tokens@ == old(self).tokens@,
            final(self).index >= old(self).index,
            r is Ok ==> final(self).index > old(self).index,
            match r {
                Ok(e) => sp_expr(old(self).tokens@, old(self).index as int) == Ok::<(SExpr, int), ParseFailure>((expr_view(e), final(self).index as int)),
                Err(f) => sp_expr(old(self).tokens@, old(self).index as int) == Err::<(SExpr, int), ParseFailure>(f),
            },
        decreases old(self).tokens@.len() - old(self).index, 2nat,
    {
        let ghost toks = self.tokens@;
        let ghost i = self.index as int;
        let first = match self.peek() {
            None => {
                return Err(ParseFailure::Unhandled);
            },
            Some(Token::Ident(name)) => {
                let name = name.clone();
                self.inc();
                if self.peek_kind() == Some(TokenKind::OpenParen) {
                    self.inc();
                    let args = match self.parse_call_args() {
                        Ok(v) => v,
                        Err(f) => {
                            return Err(f);
                        },
                    };
                    self.inc();
                    Expression { variant: ExpressionVariant::FunctionCall { name: Identifier { name }, args } }
                } else {
                    Expression { variant: ExpressionVariant::Term(Term::Identifier(name)) }
                }
            },
            Some(Token::Int(n)) => {
                let n = *n;
                self.inc();
                Expression { variant: ExpressionVariant::Term(Term::IntLit(n)) }
            },
            Some(Token::True) => {
                self.inc();
                Expression { variant: ExpressionVariant::Term(Term::Bool(true)) }
            },
            Some(Token::False) => {
                self.inc();
                Expression { variant: ExpressionVariant::Term(Term::Bool(false)) }
            },
            Some(_) => {
                return Err(ParseFailure::Unhandled);
            },
        };
        let ghost k = self.index as int;
        match self.peek_kind() {
            Some(kind) => {
                if kind_is_arith(kind) {
                    let expr = match self.climb_precedence(first, 0) {
                        Ok(v) => v,
                        Err(f) => {
                            return Err(f);
                        },
                    };
                    match self.peek_kind() {
                        Some(op_kind) => {
                            if kind_is_bool(op_kind) {
                                let op = binop_from_kind(op_kind);
                                self.inc();
                                let rhs = match self.parse_expr() {
                                    Ok(v) => v,
                                    Err(f) => {
                                        return Err(f);
                                    },
                                };
                                return Ok(Expression { variant: ExpressionVariant::BinaryExpr(Box::new(expr), Box::new(rhs), op) });
                            }
                        },
                        None => {},
                    }
                    return Ok(expr);
                } else if kind_is_bool(kind) {
                    let op = binop_from_kind(kind);
                    self.inc();
                    let rhs = match self.parse_expr() {
                        Ok(v) => v,
                        Err(f) => {
                            return Err(f);
                        },
                    };
                    return Ok(Expression { variant: ExpressionVariant::BinaryExpr(Box::new(first), Box::new(rhs), op) });
                }
            },
            None => {},
        }
        Ok(first)
    }

    /// Call arguments up to the closing parenthesis, which is left in place.
    fn parse_call_args(&mut self) -> (r: Result<Vec<Expression>, ParseFailure>)
        requires
            old(self).wf(),
        ensures
            final(self).wf(),
            final(self).tokens@ == old(self).tokens@,
            final(self).index >= old(self).index,
            r is Ok ==> kind_at(final(self).tokens@, final(self).index as int) == Some(TokenKind::CloseParen),
            match r {
                Ok(args) => sp_call_args(old(self).tokens@, old(self).index as int) == Ok::<(Seq<SExpr>, int), ParseFailure>((exprs_view(args@), final(self).index as int)),
                Err(f) => sp_call_args(old(self).tokens@, old(self).index as int) == Err::<(Seq<SExpr>, int), ParseFailure>(f),
            },
        decreases old(self).tokens@.len() - old(self).index, 3nat,
    {
        let ghost toks = self.tokens@;
        let ghost i0 = self.index as int;
        let mut args: Vec<Expression> = Vec::new();
        while self.peek_kind() != Some(TokenKind::CloseParen)
            invariant
                self.wf(),
                self.tokens@ == toks,
                toks == old(self).tokens@,
                i0 == old(self).index,
                self.index >= i0,
                sp_call_args(toks, i0) == prepend_seq(exprs_view(args@), sp_call_args(toks, self.index as int)),
            decreases toks.len() - self.index,
        {
            let expr = match self.parse_expr() {
                Ok(v) => v,
                Err(f) => {
                    return Err(f);
                },
            };
            let ghost a0 = args@;
            args.push(expr);
            if self.peek_kind() == Some(TokenKind::Comma) {
                self.inc();
            }
            proof {
                assert(exprs_view(args@) == exprs_view(a0).push(expr_view(expr))) by {
                    assert(args@.drop_last() == a0);
                }
                lemma_prepend_seq(exprs_view(a0), expr_view(expr), sp_call_args(toks, self.index as int));
            }
        }
        proof {
            assert(exprs_view(args@) + Seq::<SExpr>::empty() =~= exprs_view(args@));
        }
        Ok(args)
    }
}

impl Parser {
    /// A statement with its semicolon, as `sp_stmt` describes.
    fn parse_statement(&mut self) -> (r: Result<Statement, ParseFailure>)
        requires
            old(self).wf(),
        ensures
            final(self).wf(),
            final(self).tokens@ == old(self).tokens@,
            final(self).index >= old(self).index,
            match r {
                Ok(v) => sp_stmt(old(self).tokens@, old(self).index as int) == Ok::<(SStmt, int), ParseFailure>((stmt_view(v), final(self).index as int)),
                Err(f) => sp_stmt(old(self).tokens@, old(self).index as int) == Err::<(SStmt, int), ParseFailure>(f),
            },
            r is Ok ==> final(self).index > old(self).index,
        decreases old(self).tokens@.len() - old(self).index, 3nat,
    {
        let ghost toks = self.tokens@;
        let ghost i = self.index as int;
        let mut end_of_scope = false;
        let statement = match self.peek() {
            None => {
                return Err(ParseFailure::Unhandled);
            },
            Some(Token::Exit) => {
                self.inc();
                match self.parse_token(TokenKind::OpenParen) {
                    Ok(_) => {},
                    Err(f) => {
                        return Err(f);
                    },
                }
                let expr = match self.parse_expr() {
                    Ok(v) => v,
                    Err(f) => {
                        return Err(f);
                    },
                };
                match self.parse_token(TokenKind::CloseParen) {
                    Ok(_) => {},
                    Err(f) => {
                        return Err(f);
                    },
                }
                Statement { variant: StatementVariant::Exit(expr) }
            },
            Some(Token::Let) => {
                self.inc();
                let ident = match self.parse_ident() {
                    Ok(v) => v,
                    Err(f) => {
                        return Err(f);
                    },
                };
                match self.parse_token(TokenKind::Equal) {
                    Ok(_) => {},
                    Err(f) => {
                        return Err(f);
                    },
                }
                let expr = match self.parse_expr() {
                    Ok(v) => v,
                    Err(f) => {
                        return Err(f);
                    },
                };
                Statement { variant: StatementVariant::Let { ident, expr } }
            },
            Some(Token::If) => {
                self.inc();
                let cond = match self.parse_expr() {
                    Ok(v) => v,
                    Err(f) => {
                        return Err(f);
                    },
                };
                let body = match self.parse_braced() {
                    Ok(v) => v,
                    Err(f) => {
                        return Err(f);
                    },
                };
                end_of_scope = true;
                let els = match self.parse_else() {
                    Ok(v) => v,
                    Err(f) => {
                        return Err(f);
                    },
                };
                Statement { variant: StatementVariant::If { cond, then: body, els } }
            },
            Some(Token::While) => {
                self.inc();
                let cond = match self.parse_expr() {
                    Ok(v) => v,
                    Err(f) => {
                        return Err(f);
                    },
                };
                let body = match self.parse_braced() {
                    Ok(v) => v,
                    Err(f) => {
                        return Err(f);
                    },
                };
                end_of_scope = true;
                Statement { variant: StatementVariant::While { cond, body } }
            },
            Some(Token::Ident(name)) => {
                let name = name.clone();
                self.inc();
                if self.peek_kind() == Some(TokenKind::OpenParen) {
                    self.inc();
                    let args = match self.parse_call_args() {
                        Ok(v) => v,
                        Err(f) => {
                            return Err(f);
                        },
                    };
                    self.inc();
                    Statement { variant: StatementVariant::FunctionCall { name: Identifier { name }, args } }
                } else {
                    match self.parse_token(TokenKind::Equal) {
                        Ok(_) => {},
                        Err(f) => {
                            return Err(f);
                        },
                    }
                    let expr = match self.parse_expr() {
                        Ok(v) => v,
                        Err(f) => {
                            return Err(f);
                        },
                    };
                    Statement { variant: StatementVariant::Assignment { ident: Identifier { name }, expr } }
                }
            },
            Some(Token::Return) => {
                self.inc();
                let expr = match self.parse_expr() {
                    Ok(v) => v,
                    Err(f) => {
                        return Err(f);
                    },
                };
                Statement { variant: StatementVariant::Return(expr) }
            },
            Some(_) => {
                return Err(ParseFailure::Unhandled);
            },
        };
        if self.peek_kind() == Some(TokenKind::Semi) {
            self.inc();
        } else if !end_of_scope {
            return Err(ParseFailure::Unhandled);
        }
        Ok(statement)
    }

    /// Statements up to the closing brace, which is left in place.
    fn parse_block(&mut self) -> (r: Result<Vec<Statement>, ParseFailure>)
        requires
            old(self).wf(),
        ensures
            final(self).wf(),
            final(self).tokens@ == old(self).tokens@,
            final(self).index >= old(self).index,
            match r {
                Ok(v) => sp_block(old(self).tokens@, old(self).index as int) == Ok::<(Seq<SStmt>, int), ParseFailure>((stmts_view(v@), final(self).index as int)),
                Err(f) => sp_block(old(self).tokens@, old(self).index as int) == Err::<(Seq<SStmt>, int), ParseFailure>(f),
            },
            r is Ok ==> kind_at(final(self).tokens@, final(self).index as int) == Some(TokenKind::CloseBrace),
        decreases old(self).tokens@.len() - old(self).index, 4nat,
    {
        let ghost toks = self.tokens@;
        let ghost i0 = self.index as int;
        let mut body: Vec<Statement> = Vec::new();
        while self.peek_kind() != Some(TokenKind::CloseBrace)
            invariant
                self.wf(),
                self.tokens@ == toks,
                toks == old(self).tokens@,
                i0 == old(self).index,
                self.index >= i0,
                sp_block(toks, i0) == prepend_seq(stmts_view(body@), sp_block(toks, self.index as int)),
            decreases toks.len() - self.index,
        {
            let statement = match self.parse_statement() {
                Ok(v) => v,
                Err(f) => {
                    return Err(f);
                },
            };
            let ghost b0 = body@;
            body.push(statement);
            proof {
                assert(stmts_view(body@) == stmts_view(b0).push(stmt_view(statement))) by {
                    assert(body@.drop_last() == b0);
                }
                lemma_prepend_seq(stmts_view(b0), stmt_view(statement), sp_block(toks, self.index as int));
            }
        }
        proof {
            assert(stmts_view(body@) + Seq::<SStmt>::empty() =~= stmts_view(body@));
        }
        Ok(body)
    }

    /// `{ statements }`.
    fn parse_braced(&mut self) -> (r: Result<Vec<Statement>, ParseFailure>)
        requires
            old(self).wf(),
        ensures
            final(self).wf(),
            final(self).tokens@ == old(self).tokens@,
            final(self).index >= old(self).index,
            match r {
                Ok(v) => sp_braced(old(self).tokens@, old(self).index as int) == Ok::<(Seq<SStmt>, int), ParseFailure>((stmts_view(v@), final(self).index as int)),
                Err(f) => sp_braced(old(self).tokens@, old(self).index as int) == Err::<(Seq<SStmt>, int), ParseFailure>(f),
            },
            r is Ok ==> final(self).index > old(self).index,
        decreases old(self).tokens@.len() - old(self).index, 5nat,
    {
        match self.parse_token(TokenKind::OpenBrace) {
            Ok(_) => {},
            Err(f) => {
                return Err(f);
            },
        }
        let body = match self.parse_block() {
            Ok(v) => v,
            Err(f) => {
                return Err(f);
            },
        };
        match self.parse_token(TokenKind::CloseBrace) {
            Ok(_) => {},
            Err(f) => {
                return Err(f);
            },
        }
        Ok(body)
    }

    /// An optional chain of else clauses.
    fn parse_else(&mut self) -> (r: Result<Option<ElseClause>, ParseFailure>)
        requires
            old(self).wf(),
        ensures
            final(self).wf(),
            final(self).tokens@ == old(self).tokens@,
            final(self).index >= old(self).index,
            match r {
                Ok(v) => sp_else(old(self).tokens@, old(self).index as int) == Ok::<(Option<SElse>, int), ParseFailure>((match v { Some(c) => Some(else_view(c)), None => None }, final(self).index as int)),
                Err(f) => sp_else(old(self).tokens@, old(self).index as int) == Err::<(Option<SElse>, int), ParseFailure>(f),
            },
        decreases old(self).tokens@.len() - old(self).index, 3nat,
    {
        if self.peek_kind() == Some(TokenKind::Else) {
            self.inc();
            let mut cond: Option<Expression> = None;
            if self.peek_kind() == Some(TokenKind::If) {
                self.inc();
                cond = match self.parse_expr() {
                    Ok(v) => Some(v),
                    Err(f) => {
                        return Err(f);
                    },
                };
            }
            let body = match self.parse_braced() {
                Ok(v) => v,
                Err(f) => {
                    return Err(f);
                },
            };
            let els = match self.parse_else() {
                Ok(v) => v,
                Err(f) => {
                    return Err(f);
                },
            };
            Ok(Some(ElseClause { cond, body, els: Box::new(els) }))
        } else {
            Ok(None)
        }
    }
}

/// Whether `id` is `main`.
fn is_main(id: &Identifier) -> (b: bool)
    ensures
        b == is_main_name(*id),
{
    let name = id.name.as_str();
    if name.unicode_len() != 4 {
        return false;
    }
    let b = name.get_char(0) == 'm' && name.get_char(1) == 'a' && name.get_char(2) == 'i' && name.get_char(3) == 'n';
    proof {
        if b {
            assert(id.name@ =~= seq!['m', 'a', 'i', 'n']);
        }
    }
    b
}

impl Parser {
    /// A function definition, as `sp_function` describes.
    fn parse_function(&mut self) -> (r: Result<Function, ParseFailure>)
        requires
            old(self).wf(),
        ensures
            final(self).wf(),
            final(self).tokens@ == old(self).tokens@,
            final(self).index >= old(self).index,
            r is Ok ==> final(self).index > old(self).index,
            match r {
                Ok(v) => sp_function(old(self).tokens@, old(self).index as int) == Ok::<(SFunction, int), ParseFailure>((function_view(v), final(self).index as int)),
                Err(f) => sp_function(old(self).tokens@, old(self).index as int) == Err::<(SFunction, int), ParseFailure>(f),
            },
    {
        match self.parse_token(TokenKind::Fn) {
            Ok(_) => {},
            Err(f) => {
                return Err(f);
            },
        }
        let fn_name = match self.parse_ident() {
            Ok(v) => v,
            Err(f) => {
                return Err(f);
            },
        };
        match self.parse_token(TokenKind::OpenParen) {
            Ok(_) => {},
            Err(f) => {
                return Err(f);
            },
        }
        let args = match self.parse_fn_args() {
            Ok(v) => v,
            Err(f) => {
                return Err(f);
            },
        };
        match self.parse_token(TokenKind::CloseParen) {
            Ok(_) => {},
            Err(f) => {
                return Err(f);
            },
        }
        let ret_sig = match self.parse_return_signature() {
            Ok(v) => v,
            Err(f) => {
                return Err(f);
            },
        };
        let body = match self.parse_braced() {
            Ok(v) => v,
            Err(f) => {
                return Err(f);
            },
        };
        Ok(Function { name: fn_name, args, ret_sig, body })
    }

    /// Parses the whole token sequence, as `sp_parse` describes; the failure tells an error
    /// from an input the parser gives up on.
    pub fn try_parse(&mut self) -> (r: Result<Program, ParseFailure>)
        requires
            old(self).wf(),
        ensures
            final(self).wf(),
            final(self).toks() == old(self).toks(),
            match r {
                Ok(p) => sp_parse(old(self).toks()) == Ok::<SProgram, ParseFailure>(program_view(p)),
                Err(f) => sp_parse(old(self).toks()) == Err::<SProgram, ParseFailure>(f),
            },
    {
        self.index = 0;
        let ghost toks = self.tokens@;
        let mut main: Option<Function> = None;
        let mut functions: Vec<Function> = Vec::new();
        let ghost mut parsed: Seq<SFunction> = Seq::empty();
        proof {
            assert(functions_view(functions@) =~= Seq::<SFunction>::empty());
        }
        while self.peek().is_some()
            invariant
                self.wf(),
                self.tokens@ == toks,
                toks == old(self).tokens@,
                sp_functions(toks, 0) == prepend_seq(parsed, sp_functions(toks, self.index as int)),
                split_main(parsed, parsed.len() as int) == program_view((Program { main, functions })),
            decreases toks.len() - self.index,
        {
            let f = match self.parse_function() {
                Ok(v) => v,
                Err(f) => {
                    return Err(f);
                },
            };
            let ghost p0 = parsed;
            let ghost fv = function_view(f);
            proof {
                lemma_prepend_seq(p0, fv, sp_functions(toks, self.index as int));
                parsed = p0.push(fv);
                assert(parsed[parsed.len() - 1] == fv);
                assert(parsed.take(parsed.len() - 1) == p0);
                lemma_split_main_prefix(parsed, p0.len() as int);
            }
            let ghost fs0 = functions@;
            if main.is_none() && is_main(&f.name) {
                main = Some(f);
            } else {
                functions.push(f);
                proof {
                    assert(functions_view(functions@) =~= functions_view(fs0).push(fv));
                }
            }
        }
        proof {
            assert(parsed + Seq::<SFunction>::empty() =~= parsed);
        }
        Ok(Program { main, functions })
    }

    /// Parses the whole token sequence, as `sp_parse` describes. The parser must not give up on
    /// the tokens (see `try_parse`).
    pub fn parse(&mut self) -> (r: Result<Program, ParseError>)
        requires
            old(self).wf(),
            !(sp_parse(old(self).toks()) matches Err(ParseFailure::Unhandled)),
        ensures
            final(self).wf(),
            final(self).toks() == old(self).toks(),
            match r {
                Ok(p) => sp_parse(old(self).toks()) == Ok::<SProgram, ParseFailure>(program_view(p)),
                Err(e) => sp_parse(old(self).toks()) == Err::<SProgram, ParseFailure>(ParseFailure::Error(e)),
            },
    {
        match self.try_parse() {
            Ok(p) => Ok(p),
            Err(ParseFailure::Error(e)) => Err(e),
            Err(ParseFailure::Unhandled) => {
                proof {
                    assert(false);
                }
                Err(ParseError::MissingToken(TokenKind::Term))
            },
        }
    }
}

/// The split of a sequence of functions agrees with the split of its prefixes.
proof fn lemma_split_main_prefix(fs: Seq<SFunction>, n: int)
    requires
        0 <= n < fs.len(),
        n == fs.len() - 1,
    ensures
        split_main(fs, fs.len() as int) == ({
            let p = split_main(fs.take(n), n);
            let f = fs[n];
            if p.main is None && is_main_name(f.name) {
                SProgram { main: Some(f), functions: p.functions }
            } else {
                SProgram { main: p.main, functions: p.functions.push(f) }
            }
        }),
{
    lemma_split_main_take(fs, fs.take(n), n);
}

proof fn lemma_split_main_take(fs: Seq<SFunction>, gs: Seq<SFunction>, n: int)
    requires
        0 <= n <= gs.len(),
        n <= fs.len(),
        forall|k: int| 0 <= k < n ==> fs[k] == gs[k],
    ensures
        split_main(fs, n) == split_main(gs, n),
    decreases n,
{
    if n > 0 {
        lemma_split_main_take(fs, gs, n - 1);
    }
}

/// The tokens from `i` on spell `a op1 b op2 c` followed by a token that is no operator (such as
/// `)` or `;`), for integer literals `a`, `b` and `c`.
pub open spec fn spells_three_operands(toks: Seq<Token>, i: int, a: usize, op1: Token, b: usize, op2: Token, c: usize) -> bool {
    &&& 0 <= i
    &&& i + 5 < toks.len()
    &&& toks[i] == Token::Int(a)
    &&& toks[i + 1] == op1
    &&& toks[i + 2] == Token::Int(b)
    &&& toks[i + 3] == op2
    &&& toks[i + 4] == Token::Int(c)
    &&& !is_arith_kind(token_kind(toks[i + 5]))
    &&& !is_bool_kind(token_kind(toks[i + 5]))
}

/// `*` binds tighter than `+` and `-`: `a + b * c` parses as `a + (b * c)`, and `a - b * c` as
/// `a - (b * c)`.
pub proof fn lemma_mul_binds_tighter_right(toks: Seq<Token>, i: int, a: usize, op: Token, b: usize, c: usize)
    requires
        op == Token::Plus || op == Token::Minus,
        spells_three_operands(toks, i, a, op, b, Token::Star, c),
    ensures
        sp_expr(toks, i) == Ok::<(SExpr, int), ParseFailure>((
            SExpr::Binary(
                Box::new(SExpr::Term(Term::IntLit(a))),
                Box::new(SExpr::Binary(Box::new(SExpr::Term(Term::IntLit(b))), Box::new(SExpr::Term(Term::IntLit(c))), BinOp::Mul)),
                if op == Token::Plus { BinOp::Add } else { BinOp::Sub },
            ),
            i + 5,
        )),
{
    let ta = SExpr::Term(Term::IntLit(a));
    let tb = SExpr::Term(Term::IntLit(b));
    let tc = SExpr::Term(Term::IntLit(c));
    let k = token_kind(op);
    let prod = SExpr::Binary(Box::new(tb), Box::new(tc), BinOp::Mul);
    let whole = SExpr::Binary(Box::new(ta), Box::new(prod), binop_of(k).unwrap());
    assert(sp_inner(toks, i + 5, tc, TokenKind::Star) == Ok::<(SExpr, int), ParseFailure>((tc, i + 5)));
    assert(sp_outer(toks, i + 5, prod, 1) == Ok::<(SExpr, int), ParseFailure>((prod, i + 5)));
    assert(sp_term(toks, i + 4) == Ok::<(Term, int), ParseFailure>((Term::IntLit(c), i + 5)));
    assert(sp_outer(toks, i + 3, tb, 1) == Ok::<(SExpr, int), ParseFailure>((prod, i + 5)));
    assert(sp_inner(toks, i + 5, prod, k) == Ok::<(SExpr, int), ParseFailure>((prod, i + 5)));
    assert(sp_inner(toks, i + 3, tb, k) == Ok::<(SExpr, int), ParseFailure>((prod, i + 5)));
    assert(sp_term(toks, i + 2) == Ok::<(Term, int), ParseFailure>((Term::IntLit(b), i + 3)));
    assert(sp_outer(toks, i + 5, whole, 0) == Ok::<(SExpr, int), ParseFailure>((whole, i + 5)));
    assert(sp_outer(toks, i + 1, ta, 0) == Ok::<(SExpr, int), ParseFailure>((whole, i + 5)));
}

/// `*` binds tighter than `+` and `-` on its left too: `a * b + c` parses as `(a * b) + c`, and
/// `a * b - c` as `(a * b) - c`.
pub proof fn lemma_mul_binds_tighter_left(toks: Seq<Token>, i: int, a: usize, op: Token, b: usize, c: usize)
    requires
        op == Token::Plus || op == Token::Minus,
        spells_three_operands(toks, i, a, Token::Star, b, op, c),
    ensures
        sp_expr(toks, i) == Ok::<(SExpr, int), ParseFailure>((
            SExpr::Binary(
                Box::new(SExpr::Binary(Box::new(SExpr::Term(Term::IntLit(a))), Box::new(SExpr::Term(Term::IntLit(b))), BinOp::Mul)),
                Box::new(SExpr::Term(Term::IntLit(c))),
                if op == Token::Plus { BinOp::Add } else { BinOp::Sub },
            ),
            i + 5,
        )),
{
    let ta = SExpr::Term(Term::IntLit(a));
    let tb = SExpr::Term(Term::IntLit(b));
    let tc = SExpr::Term(Term::IntLit(c));
    let k = token_kind(op);
    let prod = SExpr::Binary(Box::new(ta), Box::new(tb), BinOp::Mul);
    let whole = SExpr::Binary(Box::new(prod), Box::new(tc), binop_of(k).unwrap());
    assert(sp_inner(toks, i + 5, tc, k) == Ok::<(SExpr, int), ParseFailure>((tc, i + 5)));
    assert(sp_term(toks, i + 4) == Ok::<(Term, int), ParseFailure>((Term::IntLit(c), i + 5)));
    assert(sp_outer(toks, i + 5, whole, 0) == Ok::<(SExpr, int), ParseFailure>((whole, i + 5)));
    assert(sp_outer(toks, i + 3, prod, 0) == Ok::<(SExpr, int), ParseFailure>((whole, i + 5)));
    assert(sp_inner(toks, i + 3, tb, TokenKind::Star) == Ok::<(SExpr, int), ParseFailure>((tb, i + 3)));
    assert(sp_term(toks, i + 2) == Ok::<(Term, int), ParseFailure>((Term::IntLit(b), i + 3)));
    assert(sp_outer(toks, i + 1, ta, 0) == Ok::<(SExpr, int), ParseFailure>((whole, i + 5)));
}

/// Operators of equal strength group to the left: `a - b - c` parses as `(a - b) - c`.
pub proof fn lemma_minus_groups_left(toks: Seq<Token>, i: int, a: usize, b: usize, c: usize)
    requires
        spells_three_operands(toks, i, a, Token::Minus, b, Token::Minus, c),
    ensures
        sp_expr(toks, i) == Ok::<(SExpr, int), ParseFailure>((
            SExpr::Binary(
                Box::new(SExpr::Binary(Box::new(SExpr::Term(Term::IntLit(a))), Box::new(SExpr::Term(Term::IntLit(b))), BinOp::Sub)),
                Box::new(SExpr::Term(Term::IntLit(c))),
                BinOp::Sub,
            ),
            i + 5,
        )),
{
    let ta = SExpr::Term(Term::IntLit(a));
    let tb = SExpr::Term(Term::IntLit(b));
    let tc = SExpr::Term(Term::IntLit(c));
    let diff = SExpr::Binary(Box::new(ta), Box::new(tb), BinOp::Sub);
    let whole = SExpr::Binary(Box::new(diff), Box::new(tc), BinOp::Sub);
    assert(sp_inner(toks, i + 5, tc, TokenKind::Minus) == Ok::<(SExpr, int), ParseFailure>((tc, i + 5)));
    assert(sp_term(toks, i + 4) == Ok::<(Term, int), ParseFailure>((Term::IntLit(c), i + 5)));
    assert(sp_outer(toks, i + 5, whole, 0) == Ok::<(SExpr, int), ParseFailure>((whole, i + 5)));
    assert(sp_outer(toks, i + 3, diff, 0) == Ok::<(SExpr, int), ParseFailure>((whole, i + 5)));
    assert(sp_inner(toks, i + 3, tb, TokenKind::Minus) == Ok::<(SExpr, int), ParseFailure>((tb, i + 3)));
    assert(sp_term(toks, i + 2) == Ok::<(Term, int), ParseFailure>((Term::IntLit(b), i + 3)));
    assert(sp_outer(toks, i + 1, ta, 0) == Ok::<(SExpr, int), ParseFailure>((whole, i + 5)));
}

/// A single binary operator between two integer literals, `a op b` followed by a token that is
/// no operator, parses as that operator applied to `a` and `b` in order: `+` is addition, `-`
/// subtraction, `*` multiplication, `<`, `<=`, `>`, `>=`, `==` and `!=` the comparisons of
/// the same names, `&&` conjunction and `||` disjunction.
pub proof fn lemma_operator_parses_as_named(toks: Seq<Token>, i: int, a: usize, op: Token, b: usize) -> (o: BinOp)
    requires
        binop_of(token_kind(op)) is Some,
        0 <= i,
        i + 3 < toks.len(),
        toks[i] == Token::Int(a),
        toks[i + 1] == op,
        toks[i + 2] == Token::Int(b),
        !is_arith_kind(token_kind(toks[i + 3])),
        !is_bool_kind(token_kind(toks[i + 3])),
    ensures
        sp_expr(toks, i) == Ok::<(SExpr, int), ParseFailure>((
            SExpr::Binary(Box::new(SExpr::Term(Term::IntLit(a))), Box::new(SExpr::Term(Term::IntLit(b))), o),
            i + 3,
        )),
        op == Token::Plus ==> o == BinOp::Add,
        op == Token::Minus ==> o == BinOp::Sub,
        op == Token::Star ==> o == BinOp::Mul,
        op == Token::Lt ==> o == BinOp::Lt,
        op == Token::Leq ==> o == BinOp::Leq,
        op == Token::Gt ==> o == BinOp::Gt,
        op == Token::Geq ==> o == BinOp::Geq,
        op == Token::EqEq ==> o == BinOp::Eq,
        op == Token::Neq ==> o == BinOp::Neq,
        op == Token::LogicalAnd ==> o == BinOp::And,
        op == Token::LogicalOr ==> o == BinOp::Or,
{
    let ta = SExpr::Term(Term::IntLit(a));
    let tb = SExpr::Term(Term::IntLit(b));
    let k = token_kind(op);
    let o = binop_of(k).unwrap();
    let whole = SExpr::Binary(Box::new(ta), Box::new(tb), o);
    if is_arith_kind(k) {
        assert(sp_inner(toks, i + 3, tb, k) == Ok::<(SExpr, int), ParseFailure>((tb, i + 3)));
        assert(sp_term(toks, i + 2) == Ok::<(Term, int), ParseFailure>((Term::IntLit(b), i + 3)));
        assert(sp_outer(toks, i + 3, whole, 0) == Ok::<(SExpr, int), ParseFailure>((whole, i + 3)));
        assert(sp_outer(toks, i + 1, ta, 0) == Ok::<(SExpr, int), ParseFailure>((whole, i + 3)));
    } else {
        assert(sp_expr(toks, i + 2) == Ok::<(SExpr, int), ParseFailure>((tb, i + 3)));
    }
    o
}

} // verus!
