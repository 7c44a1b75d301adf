use vstd::prelude::*;

verus! {

/// A lexical token.
#[derive(Debug, Clone, PartialEq, Eq)]
pub enum Token {
    Exit,
    OpenParen,
    CloseParen,
    OpenBrace,
    CloseBrace,
    Int(usize),
    Semi,
    Let,
    Ident(String),
    Equal,
    Plus,
    Minus,
    Star,
    If,
    Else,
    Lt,
    Leq,
    Gt,
    Geq,
    EqEq,
    Neq,
    Bang,
    True,
    False,
    Ampersand,
    Pipe,
    LogicalAnd,
    LogicalOr,
    Fn,
    While,
    Return,
    Colon,
    Comma,
    IntType,
    BoolType,
}

/// The kind of a token, without its payload.
#[derive(Debug, Clone, Copy, PartialEq, Eq, Structural)]
pub enum TokenKind {
    Term,
    Exit,
    OpenParen,
    CloseParen,
    OpenBrace,
    CloseBrace,
    Int,
    Semi,
    Let,
    Identifier,
    Equal,
    Plus,
    Minus,
    Star,
    If,
    Else,
    Lt,
    Leq,
    Gt,
    Geq,
    EqEq,
    Neq,
    Bang,
    True,
    False,
    Ampersand,
    Pipe,
    LogicalAnd,
    LogicalOr,
    Fn,
    While,
    Return,
    Colon,
    Comma,
    IntType,
    BoolType,
    Type,
}

/// The kind of token `t`.
pub open spec fn token_kind(t: Token) -> TokenKind {
    match t {
        Token::Exit => TokenKind::Exit,
        Token::OpenParen => TokenKind::OpenParen,
        Token::CloseParen => TokenKind::CloseParen,
        Token::OpenBrace => TokenKind::OpenBrace,
        Token::CloseBrace => TokenKind::CloseBrace,
        Token::Int(_) => TokenKind::Int,
        Token::Semi => TokenKind::Semi,
        Token::Let => TokenKind::Let,
        Token::Ident(_) => TokenKind::Identifier,
        Token::Equal => TokenKind::Equal,
        Token::Plus => TokenKind::Plus,
        Token::Minus => TokenKind::Minus,
        Token::Star => TokenKind::Star,
        Token::If => TokenKind::If,
        Token::Else => TokenKind::Else,
        Token::Lt => TokenKind::Lt,
        Token::Leq => TokenKind::Leq,
        Token::Gt => TokenKind::Gt,
        Token::Geq => TokenKind::Geq,
        Token::EqEq => TokenKind::EqEq,
        Token::Neq => TokenKind::Neq,
        Token::Bang => TokenKind::Bang,
        Token::True => TokenKind::True,
        Token::False => TokenKind::False,
        Token::Ampersand => TokenKind::Ampersand,
        Token::Pipe => TokenKind::Pipe,
        Token::LogicalAnd => TokenKind::LogicalAnd,
        Token::LogicalOr => TokenKind::LogicalOr,
        Token::Fn => TokenKind::Fn,
        Token::While => TokenKind::While,
        Token::Return => TokenKind::Return,
        Token::Colon => TokenKind::Colon,
        Token::Comma => TokenKind::Comma,
        Token::IntType => TokenKind::IntType,
        Token::BoolType => TokenKind::BoolType,
    }
}

impl View for Token {
    /// A token as its kind, the characters of an identifier and the value of an integer.
    type V = (TokenKind, Seq<char>, usize);

    open spec fn view(&self) -> (TokenKind, Seq<char>, usize) {
        (
            token_kind(*self),
            match self {
                Token::Ident(s) => s@,
                _ => Seq::empty(),
            },
            match self {
                Token::Int(n) => *n,
                _ => 0,
            },
        )
    }
}

/// A comparison or logical operator: its result is a boolean.
pub open spec fn is_bool_kind(k: TokenKind) -> bool {
    match k {
        TokenKind::Lt | TokenKind::Leq | TokenKind::Gt | TokenKind::Geq | TokenKind::EqEq | TokenKind::Neq
        | TokenKind::LogicalAnd | TokenKind::LogicalOr => true,
        _ => false,
    }
}

/// A comparison operator.
pub open spec fn is_comparison_kind(k: TokenKind) -> bool {
    match k {
        TokenKind::Lt | TokenKind::Leq | TokenKind::Gt | TokenKind::Geq | TokenKind::EqEq | TokenKind::Neq => true,
        _ => false,
    }
}

/// An arithmetic operator.
pub open spec fn is_arith_kind(k: TokenKind) -> bool {
    match k {
        TokenKind::Plus | TokenKind::Minus | TokenKind::Star => true,
        _ => false,
    }
}

/// The binding strength of an arithmetic operator: `*` binds tighter than `+` and `-`.
pub open spec fn kind_precedence(k: TokenKind) -> usize {
    match k {
        TokenKind::Star => 1,
        _ => 0,
    }
}

impl Token {
    /// Whether this token is a comparison operator.
    pub fn is_cmp(&self) -> (b: bool)
        ensures
            b == is_comparison_kind(token_kind(*self)),
    {
        match self {
            Token::Lt | Token::Leq | Token::Gt | Token::Geq | Token::EqEq | Token::Neq => true,
            _ => false,
        }
    }

    /// Whether this token is an operator with a boolean result (comparison or logical).
    pub fn is_bool(&self) -> (b: bool)
        ensures
            b == is_bool_kind(token_kind(*self)),
    {
        match self {
            Token::Lt | Token::Leq | Token::Gt | Token::Geq | Token::EqEq | Token::Neq | Token::LogicalAnd
            | Token::LogicalOr => true,
            _ => false,
        }
    }

    /// Whether this token is an arithmetic operator.
    pub fn is_binary_op(&self) -> (b: bool)
        ensures
            b == is_arith_kind(token_kind(*self)),
    {
        match self {
            Token::Plus | Token::Minus | Token::Star => true,
            _ => false,
        }
    }

    /// The binding strength of this token as an arithmetic operator.
    pub fn precedence(&self) -> (p: usize)
        ensures
            p == kind_precedence(token_kind(*self)),
    {
        match self {
            Token::Plus | Token::Minus => 0,
            Token::Star => 1,
            _ => 0,
        }
    }

    /// The kind of this token.
    pub fn kind(&self) -> (k: TokenKind)
        ensures
            k == token_kind(*self),
    {
        match self {
            Token::Exit => TokenKind::Exit,
            Token::OpenParen => TokenKind::OpenParen,
            Token::CloseParen => TokenKind::CloseParen,
            Token::OpenBrace => TokenKind::OpenBrace,
            Token::CloseBrace => TokenKind::CloseBrace,
            Token::Int(_) => TokenKind::Int,
            Token::Semi => TokenKind::Semi,
            Token::Let => TokenKind::Let,
            Token::Ident(_) => TokenKind::Identifier,
            Token::Equal => TokenKind::Equal,
            Token::Plus => TokenKind::Plus,
            Token::Minus => TokenKind::Minus,
            Token::Star => TokenKind::Star,
            Token::If => TokenKind::If,
            Token::Else => TokenKind::Else,
            Token::Lt => TokenKind::Lt,
            Token::Leq => TokenKind::Leq,
            Token::Gt => TokenKind::Gt,
            Token::Geq => TokenKind::Geq,
            Token::EqEq => TokenKind::EqEq,
            Token::Neq => TokenKind::Neq,
            Token::Bang => TokenKind::Bang,
            Token::True => TokenKind::True,
            Token::False => TokenKind::False,
            Token::Ampersand => TokenKind::Ampersand,
            Token::Pipe => TokenKind::Pipe,
            Token::LogicalAnd => TokenKind::LogicalAnd,
            Token::LogicalOr => TokenKind::LogicalOr,
            Token::Fn => TokenKind::Fn,
            Token::While => TokenKind::While,
            Token::Return => TokenKind::Return,
            Token::Colon => TokenKind::Colon,
            Token::Comma => TokenKind::Comma,
            Token::IntType => TokenKind::IntType,
            Token::BoolType => TokenKind::BoolType,
        }
    }
}

} // verus!
