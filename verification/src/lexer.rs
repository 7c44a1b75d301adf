use vstd::prelude::*;
use vstd::std_specs::iter::IteratorSpec;
use vstd::string::StrSliceExecFns;

pub mod token;

pub use token::{Token, TokenKind};

verus! {

broadcast use vstd::string::group_string_axioms;

/// Whether `c` has the Unicode `Alphabetic` property, as `char::is_alphabetic` decides it.
pub uninterp spec fn char_is_alphabetic(c: char) -> bool;

/// Whether `c` is alphabetic or numeric, as `char::is_alphanumeric` decides it.
pub uninterp spec fn char_is_alphanumeric(c: char) -> bool;

/// Whether `c` has the Unicode `White_Space` property: tab, line feed, vertical tab, form
/// feed, carriage return, space, next line, no-break space, ogham space mark, the spaces from
/// en quad to hair space, line and paragraph separators, narrow no-break space, medium
/// mathematical space and ideographic space.
pub open spec fn char_is_whitespace(c: char) -> bool {
    ||| ('\u{9}' <= c && c <= '\u{d}')
    ||| c == ' '
    ||| c == '\u{85}'
    ||| c == '\u{a0}'
    ||| c == '\u{1680}'
    ||| ('\u{2000}' <= c && c <= '\u{200a}')
    ||| c == '\u{2028}'
    ||| c == '\u{2029}'
    ||| c == '\u{202f}'
    ||| c == '\u{205f}'
    ||| c == '\u{3000}'
}

/// Calls `char::is_alphabetic`; its result is named `char_is_alphabetic`.
#[verifier::external_body]
fn is_alphabetic(c: char) -> (b: bool)
    ensures
        b == char_is_alphabetic(c),
{
    c.is_alphabetic()
}

/// Calls `char::is_alphanumeric`; its result is named `char_is_alphanumeric`.
#[verifier::external_body]
fn is_alphanumeric(c: char) -> (b: bool)
    ensures
        b == char_is_alphanumeric(c),
{
    c.is_alphanumeric()
}

/// Whether `c` is whitespace, as `char_is_whitespace` lists it.
fn is_whitespace(c: char) -> (b: bool)
    ensures
        b == char_is_whitespace(c),
{
    ('\u{9}' <= c && c <= '\u{d}') || c == ' ' || c == '\u{85}' || c == '\u{a0}' || c == '\u{1680}'
        || ('\u{2000}' <= c && c <= '\u{200a}') || c == '\u{2028}' || c == '\u{2029}' || c == '\u{202f}'
        || c == '\u{205f}' || c == '\u{3000}'
}

/// Why the input could not be split into tokens.
#[derive(Debug, Clone, Copy, PartialEq, Eq, Structural)]
pub enum LexError {
    /// A character that starts no token.
    UnknownToken(char),
    /// An integer literal too large for `usize`.
    InvalidNumber,
}

/// A token as the lexer describes it: kind, identifier characters, integer value.
pub type TokView = (TokenKind, Seq<char>, usize);

/// An ASCII decimal digit.
pub open spec fn is_digit(c: char) -> bool {
    '0' <= c && c <= '9'
}

/// The end of the run of identifier characters starting at `i`: alphanumeric ones (as `an`
/// classifies the characters of `s`) and underscores.
pub open spec fn ident_end(s: Seq<char>, an: Seq<bool>, i: int) -> int
    decreases s.len() - i,
{
    if 0 <= i < s.len() && (an[i] || s[i] == '_') {
        ident_end(s, an, i + 1)
    } else {
        i
    }
}

/// The end of the run of digits starting at `i`.
pub open spec fn digits_end(s: Seq<char>, i: int) -> int
    decreases s.len() - i,
{
    if 0 <= i < s.len() && is_digit(s[i]) {
        digits_end(s, i + 1)
    } else {
        i
    }
}

/// The position of the first line break at or after `i`, or the end of `s`.
pub open spec fn line_end(s: Seq<char>, i: int) -> int
    decreases s.len() - i,
{
    if 0 <= i < s.len() && s[i] != '\n' {
        line_end(s, i + 1)
    } else {
        i
    }
}

/// The decimal value of the digits `s[i..j]`.
pub open spec fn digits_value(s: Seq<char>, i: int, j: int) -> nat
    decreases j - i,
{
    if j <= i {
        0
    } else {
        digits_value(s, i, j - 1) * 10 + ((s[j - 1] as int - '0' as int) as nat)
    }
}

pub proof fn lemma_ends(s: Seq<char>, an: Seq<bool>, i: int)
    ensures
        ident_end(s, an, i) >= i,
        digits_end(s, i) >= i,
        line_end(s, i) >= i,
        i <= s.len() ==> ident_end(s, an, i) <= s.len() && digits_end(s, i) <= s.len() && line_end(s, i) <= s.len(),
    decreases s.len() - i,
{
    if 0 <= i < s.len() {
        lemma_ends(s, an, i + 1);
    }
}

/// The kind of the word `w`: a keyword, or else an identifier.
pub open spec fn word_kind(w: Seq<char>) -> TokenKind {
    if w == seq!['e', 'x', 'i', 't'] {
        TokenKind::Exit
    } else if w == seq!['l', 'e', 't'] {
        TokenKind::Let
    } else if w == seq!['i', 'f'] {
        TokenKind::If
    } else if w == seq!['e', 'l', 's', 'e'] {
        TokenKind::Else
    } else if w == seq!['t', 'r', 'u', 'e'] {
        TokenKind::True
    } else if w == seq!['f', 'a', 'l', 's', 'e'] {
        TokenKind::False
    } else if w == seq!['f', 'n'] {
        TokenKind::Fn
    } else if w == seq!['w', 'h', 'i', 'l', 'e'] {
        TokenKind::While
    } else if w == seq!['r', 'e', 't', 'u', 'r', 'n'] {
        TokenKind::Return
    } else if w == seq!['i', 'n', 't'] {
        TokenKind::IntType
    } else if w == seq!['b', 'o', 'o', 'l'] {
        TokenKind::BoolType
    } else {
        TokenKind::Identifier
    }
}

/// A token without payload.
pub open spec fn plain(k: TokenKind) -> TokView {
    (k, Seq::empty(), 0)
}

/// `t` followed by the tokens of `rest`, or the error of `rest`.
pub open spec fn prepend(t: TokView, rest: Result<Seq<TokView>, LexError>) -> Result<Seq<TokView>, LexError> {
    match rest {
        Ok(ts) => Ok(seq![t] + ts),
        Err(e) => Err(e),
    }
}

/// `p` followed by the tokens of `rest`, or the error of `rest`.
pub open spec fn prepend_all(p: Seq<TokView>, rest: Result<Seq<TokView>, LexError>) -> Result<Seq<TokView>, LexError> {
    match rest {
        Ok(ts) => Ok(p + ts),
        Err(e) => Err(e),
    }
}

/// The tokens of `s` from position `i` on. A word starting with a letter is a keyword or an
/// identifier; a run of digits an integer; `==`, `<=`, `>=`, `!=`, `&&` and `||` are single
/// tokens; `//` starts a comment up to the end of the line, and a lone `/` is skipped, as is
/// whitespace. Any other character is an error. `al`, `an` and `ws` say which characters of `s`
/// are alphabetic, alphanumeric and whitespace.
pub open spec fn lex_from(s: Seq<char>, al: Seq<bool>, an: Seq<bool>, ws: Seq<bool>, i: int) -> Result<Seq<TokView>, LexError>
    decreases s.len() - i,
{
    if i < 0 || i >= s.len() {
        Ok(Seq::empty())
    } else {
        let c = s[i];
        let next = if i + 1 < s.len() { Some(s[i + 1]) } else { None };
        if al[i] {
            proof {
                lemma_ends(s, an, i + 1);
            }
            let j = ident_end(s, an, i + 1);
            let w = s.subrange(i, j);
            let k = word_kind(w);
            prepend((k, if k == TokenKind::Identifier { w } else { Seq::empty() }, 0), lex_from(s, al, an, ws, j))
        } else if is_digit(c) {
            proof {
                lemma_ends(s, an, i + 1);
            }
            let j = digits_end(s, i + 1);
            let v = digits_value(s, i, j);
            if v > usize::MAX {
                Err(LexError::InvalidNumber)
            } else {
                prepend((TokenKind::Int, Seq::empty(), v as usize), lex_from(s, al, an, ws, j))
            }
        } else if c == '(' {
            prepend(plain(TokenKind::OpenParen), lex_from(s, al, an, ws, i + 1))
        } else if c == ')' {
            prepend(plain(TokenKind::CloseParen), lex_from(s, al, an, ws, i + 1))
        } else if c == '{' {
            prepend(plain(TokenKind::OpenBrace), lex_from(s, al, an, ws, i + 1))
        } else if c == '}' {
            prepend(plain(TokenKind::CloseBrace), lex_from(s, al, an, ws, i + 1))
        } else if c == ';' {
            prepend(plain(TokenKind::Semi), lex_from(s, al, an, ws, i + 1))
        } else if c == ':' {
            prepend(plain(TokenKind::Colon), lex_from(s, al, an, ws, i + 1))
        } else if c == ',' {
            prepend(plain(TokenKind::Comma), lex_from(s, al, an, ws, i + 1))
        } else if c == '+' {
            prepend(plain(TokenKind::Plus), lex_from(s, al, an, ws, i + 1))
        } else if c == '-' {
            prepend(plain(TokenKind::Minus), lex_from(s, al, an, ws, i + 1))
        } else if c == '*' {
            prepend(plain(TokenKind::Star), lex_from(s, al, an, ws, i + 1))
        } else if c == '=' {
            if next == Some('=') {
                prepend(plain(TokenKind::EqEq), lex_from(s, al, an, ws, i + 2))
            } else {
                prepend(plain(TokenKind::Equal), lex_from(s, al, an, ws, i + 1))
            }
        } else if c == '<' {
            if next == Some('=') {
                prepend(plain(TokenKind::Leq), lex_from(s, al, an, ws, i + 2))
            } else {
                prepend(plain(TokenKind::Lt), lex_from(s, al, an, ws, i + 1))
            }
        } else if c == '>' {
            if next == Some('=') {
                prepend(plain(TokenKind::Geq), lex_from(s, al, an, ws, i + 2))
            } else {
                prepend(plain(TokenKind::Gt), lex_from(s, al, an, ws, i + 1))
            }
        } else if c == '!' {
            if next == Some('=') {
                prepend(plain(TokenKind::Neq), lex_from(s, al, an, ws, i + 2))
            } else {
                prepend(plain(TokenKind::Bang), lex_from(s, al, an, ws, i + 1))
            }
        } else if c == '&' {
            if next == Some('&') {
                prepend(plain(TokenKind::LogicalAnd), lex_from(s, al, an, ws, i + 2))
            } else {
                prepend(plain(TokenKind::Ampersand), lex_from(s, al, an, ws, i + 1))
            }
        } else if c == '|' {
            if next == Some('|') {
                prepend(plain(TokenKind::LogicalOr), lex_from(s, al, an, ws, i + 2))
            } else {
                prepend(plain(TokenKind::Pipe), lex_from(s, al, an, ws, i + 1))
            }
        } else if c == '/' {
            if next == Some('/') {
                proof {
                    lemma_ends(s, an, i + 1);
                }
                lex_from(s, al, an, ws, line_end(s, i + 1))
            } else {
                lex_from(s, al, an, ws, i + 1)
            }
        } else if ws[i] {
            lex_from(s, al, an, ws, i + 1)
        } else {
            Err(LexError::UnknownToken(c))
        }
    }
}

/// The tokens of `s`, when `al`, `an` and `ws` say which of its characters are alphabetic,
/// alphanumeric and whitespace.
pub open spec fn lex_classified(s: Seq<char>, al: Seq<bool>, an: Seq<bool>, ws: Seq<bool>) -> Result<Seq<TokView>, LexError> {
    lex_from(s, al, an, ws, 0)
}

/// Which characters of `s` are alphabetic.
pub open spec fn alphabetic_classes(s: Seq<char>) -> Seq<bool> {
    s.map_values(|c: char| char_is_alphabetic(c))
}

/// Which characters of `s` are alphanumeric.
pub open spec fn alphanumeric_classes(s: Seq<char>) -> Seq<bool> {
    s.map_values(|c: char| char_is_alphanumeric(c))
}

/// Which characters of `s` are whitespace.
pub open spec fn whitespace_classes(s: Seq<char>) -> Seq<bool> {
    s.map_values(|c: char| char_is_whitespace(c))
}

/// The tokens of `s`.
pub open spec fn lex(s: Seq<char>) -> Result<Seq<TokView>, LexError> {
    lex_classified(s, alphabetic_classes(s), alphanumeric_classes(s), whitespace_classes(s))
}

/// The view of each token.
pub open spec fn views(ts: Seq<Token>) -> Seq<TokView> {
    ts.map_values(|t: Token| t@)
}

/// The characters of `text`, in order.
fn chars_of(text: &str) -> (v: Vec<char>)
    ensures
        v@ == text@,
{
    let mut it = text.chars();
    let mut v: Vec<char> = Vec::new();
    let mut done = false;
    while !done
        invariant
            v@ + it.remaining() == text@,
            done ==> it.remaining().len() == 0,
            it.decrease() is Some,
        decreases (if done { 0int } else { 1int }), it.decrease()->0,
    {
        let ghost rem = it.remaining();
        match it.next() {
            Some(c) => {
                v.push(c);
                proof {
                    assert(v@ + it.remaining() =~= text@) by {
                        assert(rem == seq![c] + rem.drop_first());
                    }
                }
            },
            None => {
                done = true;
            },
        }
    }
    proof {
        assert(v@ =~= text@);
    }
    v
}

/// Whether `chars[i..j]` spells `w`.
fn is_word(chars: &Vec<char>, i: usize, j: usize, w: &Vec<char>) -> (b: bool)
    requires
        i <= j <= chars@.len(),
    ensures
        b == (chars@.subrange(i as int, j as int) == w@),
{
    if j - i != w.len() {
        return false;
    }
    let mut k: usize = 0;
    while k < w.len()
        invariant
            0 <= k <= w@.len(),
            j - i == w@.len(),
            i <= j <= chars@.len(),
            forall|t: int| 0 <= t < k ==> chars@[i + t] == w@[t],
        decreases w@.len() - k,
    {
        if chars[i + k] != w[k] {
            proof {
                assert(chars@.subrange(i as int, j as int)[k as int] != w@[k as int]);
            }
            return false;
        }
        k = k + 1;
    }
    proof {
        assert(chars@.subrange(i as int, j as int) =~= w@);
    }
    true
}

/// The keyword spelled by `chars[i..j]`, or `Identifier`.
fn word_kind_of(chars: &Vec<char>, i: usize, j: usize) -> (k: TokenKind)
    requires
        i <= j <= chars@.len(),
    ensures
        k == word_kind(chars@.subrange(i as int, j as int)),
{
    if is_word(chars, i, j, &vec!['e', 'x', 'i', 't']) {
        TokenKind::Exit
    } else if is_word(chars, i, j, &vec!['l', 'e', 't']) {
        TokenKind::Let
    } else if is_word(chars, i, j, &vec!['i', 'f']) {
        TokenKind::If
    } else if is_word(chars, i, j, &vec!['e', 'l', 's', 'e']) {
        TokenKind::Else
    } else if is_word(chars, i, j, &vec!['t', 'r', 'u', 'e']) {
        TokenKind::True
    } else if is_word(chars, i, j, &vec!['f', 'a', 'l', 's', 'e']) {
        TokenKind::False
    } else if is_word(chars, i, j, &vec!['f', 'n']) {
        TokenKind::Fn
    } else if is_word(chars, i, j, &vec!['w', 'h', 'i', 'l', 'e']) {
        TokenKind::While
    } else if is_word(chars, i, j, &vec!['r', 'e', 't', 'u', 'r', 'n']) {
        TokenKind::Return
    } else if is_word(chars, i, j, &vec!['i', 'n', 't']) {
        TokenKind::IntType
    } else if is_word(chars, i, j, &vec!['b', 'o', 'o', 'l']) {
        TokenKind::BoolType
    } else {
        TokenKind::Identifier
    }
}

proof fn lemma_prepend_all(p: Seq<TokView>, t: TokView, rest: Result<Seq<TokView>, LexError>)
    ensures
        prepend_all(p, prepend(t, rest)) == prepend_all(p.push(t), rest),
{
    match rest {
        Ok(ts) => {
            assert(p + (seq![t] + ts) =~= p.push(t) + ts);
        },
        Err(e) => {},
    }
}

/// Splits source text into tokens.
pub struct Lexer<'a> {
    text: &'a str,
}

impl<'a> Lexer<'a> {
    /// The characters of the text being split.
    pub closed spec fn text(&self) -> Seq<char> {
        self.text@
    }

    pub fn new(text: &'a str) -> (l: Self)
        ensures
            l.text() == text@,
    {
        Self { text }
    }

    /// The identifier or keyword starting at `i`, which is a letter, and the position after it.
    fn string(&self, chars: &Vec<char>, alnum: &Vec<bool>, i: usize) -> (r: (Token, usize))
        requires
            chars@ == self.text(),
            alnum@.len() == chars@.len(),
            i < chars@.len(),
        ensures
            r.1 == ident_end(chars@, alnum@, i + 1),
            r.0@ == ({
                let w = chars@.subrange(i as int, r.1 as int);
                let k = word_kind(w);
                (k, if k == TokenKind::Identifier { w } else { Seq::<char>::empty() }, 0usize)
            }),
    {
        let n = chars.len();
        let mut j: usize = i + 1;
        while j < chars.len() && (alnum[j] || chars[j] == '_')
            invariant
                i < j <= chars@.len(),
                alnum@.len() == chars@.len(),
                ident_end(chars@, alnum@, j as int) == ident_end(chars@, alnum@, i + 1),
            decreases chars@.len() - j,
        {
            j = j + 1;
        }
        let k = word_kind_of(chars, i, j);
        let tok = match k {
            TokenKind::Exit => Token::Exit,
            TokenKind::Let => Token::Let,
            TokenKind::If => Token::If,
            TokenKind::Else => Token::Else,
            TokenKind::True => Token::True,
            TokenKind::False => Token::False,
            TokenKind::Fn => Token::Fn,
            TokenKind::While => Token::While,
            TokenKind::Return => Token::Return,
            TokenKind::IntType => Token::IntType,
            TokenKind::BoolType => Token::BoolType,
            _ => Token::Ident(self.text.substring_char(i, j).to_owned()),
        };
        (tok, j)
    }

    /// The integer literal starting at `i`, which is a digit, and the position after it.
    fn number(&self, chars: &Vec<char>, i: usize) -> (r: Result<(Token, usize), LexError>)
        requires
            i < chars@.len(),
            is_digit(chars@[i as int]),
        ensures
            match r {
                Ok((t, j)) => j == digits_end(chars@, i + 1) && digits_value(chars@, i as int, j as int) <= usize::MAX
                    && t@ == (TokenKind::Int, Seq::<char>::empty(), digits_value(chars@, i as int, j as int) as usize),
                Err(e) => e == LexError::InvalidNumber && digits_value(chars@, i as int, digits_end(chars@, i + 1)) > usize::MAX,
            },
    {
        let mut j: usize = i;
        let mut value: usize = 0;
        let mut overflow = false;
        while j < chars.len() && (j == i || ('0' <= chars[j] && chars[j] <= '9'))
            invariant
                i <= j <= chars@.len(),
                j > i ==> digits_end(chars@, j as int) == digits_end(chars@, i + 1),
                overflow ==> digits_value(chars@, i as int, j as int) > usize::MAX,
                !overflow ==> value == digits_value(chars@, i as int, j as int),
                is_digit(chars@[i as int]),
            decreases chars@.len() - j,
        {
            let d = (chars[j] as u32 - '0' as u32) as usize;
            if !overflow {
                match value.checked_mul(10) {
                    Some(v10) => match v10.checked_add(d) {
                        Some(v) => {
                            value = v;
                        },
                        None => {
                            overflow = true;
                        },
                    },
                    None => {
                        overflow = true;
                    },
                }
            }
            j = j + 1;
        }
        if overflow {
            Err(LexError::InvalidNumber)
        } else {
            Ok((Token::Int(value), j))
        }
    }

    /// Splits the text into tokens, as `lex` describes.
    pub fn tokenize(&mut self) -> (r: Result<Vec<Token>, LexError>)
        ensures
            *final(self) == *old(self),
            match r {
                Ok(ts) => lex(old(self).text()) == Ok::<Seq<TokView>, LexError>(views(ts@)),
                Err(e) => lex(old(self).text()) == Err::<Seq<TokView>, LexError>(e),
            },
    {
        let chars = chars_of(self.text);
        let mut alpha: Vec<bool> = Vec::new();
        let mut alnum: Vec<bool> = Vec::new();
        let mut ws: Vec<bool> = Vec::new();
        let mut i: usize = 0;
        while i < chars.len()
            invariant
                0 <= i <= chars@.len(),
                alpha@ == alphabetic_classes(chars@).take(i as int),
                alnum@ == alphanumeric_classes(chars@).take(i as int),
                ws@ == whitespace_classes(chars@).take(i as int),
            decreases chars@.len() - i,
        {
            alpha.push(is_alphabetic(chars[i]));
            alnum.push(is_alphanumeric(chars[i]));
            ws.push(is_whitespace(chars[i]));
            proof {
                assert(alpha@ =~= alphabetic_classes(chars@).take(i + 1));
                assert(alnum@ =~= alphanumeric_classes(chars@).take(i + 1));
                assert(ws@ =~= whitespace_classes(chars@).take(i + 1));
            }
            i = i + 1;
        }
        proof {
            assert(alpha@ =~= alphabetic_classes(chars@));
            assert(alnum@ =~= alphanumeric_classes(chars@));
            assert(ws@ =~= whitespace_classes(chars@));
        }
        self.tokenize_classified(&alpha, &alnum, &ws)
    }

    /// Splits the text into tokens, as `lex_classified` describes, where `alpha`, `alnum` and
    /// `ws` say which of its characters are alphabetic, alphanumeric and whitespace.
    pub fn tokenize_classified(&self, alpha: &Vec<bool>, alnum: &Vec<bool>, ws: &Vec<bool>) -> (r: Result<Vec<Token>, LexError>)
        requires
            alpha@.len() == self.text().len(),
            alnum@.len() == self.text().len(),
            ws@.len() == self.text().len(),
        ensures
            match r {
                Ok(ts) => lex_classified(self.text(), alpha@, alnum@, ws@) == Ok::<Seq<TokView>, LexError>(views(ts@)),
                Err(e) => lex_classified(self.text(), alpha@, alnum@, ws@) == Err::<Seq<TokView>, LexError>(e),
            },
    {
        let chars = chars_of(self.text);
        let ghost s = chars@;
        let ghost al = alpha@;
        let ghost an = alnum@;
        let ghost wsv = ws@;
        let n = chars.len();
        let mut tokens: Vec<Token> = Vec::new();
        let mut i: usize = 0;
        while i < n
            invariant
                0 <= i <= n,
                n == s.len(),
                chars@ == s,
                s == self.text(),
                al == alpha@ && an == alnum@ && wsv == ws@,
                al.len() == s.len() && an.len() == s.len() && wsv.len() == s.len(),
                lex_classified(s, al, an, wsv) == prepend_all(views(tokens@), lex_from(s, al, an, wsv, i as int)),
            decreases n - i,
        {
            let c = chars[i];
            let ghost t0 = tokens@;
            if alpha[i] {
                let (tok, j) = self.string(&chars, alnum, i);
                proof {
                    lemma_ends(s, an, i + 1);
                    lemma_prepend_all(views(t0), tok@, lex_from(s, al, an, wsv, j as int));
                    assert(views(t0.push(tok)) =~= views(t0).push(tok@));
                }
                tokens.push(tok);
                i = j;
            } else if '0' <= c && c <= '9' {
                match self.number(&chars, i) {
                    Ok((tok, j)) => {
                        proof {
                            lemma_ends(s, an, i + 1);
                            lemma_prepend_all(views(t0), tok@, lex_from(s, al, an, wsv, j as int));
                            assert(views(t0.push(tok)) =~= views(t0).push(tok@));
                        }
                        tokens.push(tok);
                        i = j;
                    },
                    Err(e) => {
                        return Err(e);
                    },
                }
            } else {
                let next: Option<char> = if i + 1 < n { Some(chars[i + 1]) } else { None };
                let (tok, j): (Option<Token>, usize) = if c == '(' {
                    (Some(Token::OpenParen), i + 1)
                } else if c == ')' {
                    (Some(Token::CloseParen), i + 1)
                } else if c == '{' {
                    (Some(Token::OpenBrace), i + 1)
                } else if c == '}' {
                    (Some(Token::CloseBrace), i + 1)
                } else if c == ';' {
                    (Some(Token::Semi), i + 1)
                } else if c == ':' {
                    (Some(Token::Colon), i + 1)
                } else if c == ',' {
                    (Some(Token::Comma), i + 1)
                } else if c == '+' {
                    (Some(Token::Plus), i + 1)
                } else if c == '-' {
                    (Some(Token::Minus), i + 1)
                } else if c == '*' {
                    (Some(Token::Star), i + 1)
                } else if c == '=' {
                    if next == Some('=') {
                        (Some(Token::EqEq), i + 2)
                    } else {
                        (Some(Token::Equal), i + 1)
                    }
                } else if c == '<' {
                    if next == Some('=') {
                        (Some(Token::Leq), i + 2)
                    } else {
                        (Some(Token::Lt), i + 1)
                    }
                } else if c == '>' {
                    if next == Some('=') {
                        (Some(Token::Geq), i + 2)
                    } else {
                        (Some(Token::Gt), i + 1)
                    }
                } else if c == '!' {
                    if next == Some('=') {
                        (Some(Token::Neq), i + 2)
                    } else {
                        (Some(Token::Bang), i + 1)
                    }
                } else if c == '&' {
                    if next == Some('&') {
                        (Some(Token::LogicalAnd), i + 2)
                    } else {
                        (Some(Token::Ampersand), i + 1)
                    }
                } else if c == '|' {
                    if next == Some('|') {
                        (Some(Token::LogicalOr), i + 2)
                    } else {
                        (Some(Token::Pipe), i + 1)
                    }
                } else if c == '/' {
                    if next == Some('/') {
                        let mut k: usize = i + 1;
                        while k < n && chars[k] != '\n'
                            invariant
                                i < k <= n,
                                n == s.len(),
                                chars@ == s,
                                line_end(s, k as int) == line_end(s, i + 1),
                            decreases n - k,
                        {
                            k = k + 1;
                        }
                        (None, k)
                    } else {
                        (None, i + 1)
                    }
                } else if ws[i] {
                    (None, i + 1)
                } else {
                    return Err(LexError::UnknownToken(c));
                };
                match tok {
                    Some(tok) => {
                        proof {
                            lemma_prepend_all(views(t0), tok@, lex_from(s, al, an, wsv, j as int));
                            assert(views(t0.push(tok)) =~= views(t0).push(tok@));
                        }
                        tokens.push(tok);
                    },
                    None => {},
                }
                i = j;
            }
        }
        proof {
            assert(prepend_all(views(tokens@), Ok(Seq::empty())) == Ok::<Seq<TokView>, LexError>(views(tokens@))) by {
                assert(views(tokens@) + Seq::<TokView>::empty() =~= views(tokens@));
            }
        }
        Ok(tokens)
    }
}

} // verus!
