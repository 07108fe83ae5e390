//! The `tp0` lexer: turns source characters into tokens one at a time.
use vstd::prelude::*;

use crate::text::{
    char_digit_value, digits_value, is_alnum, is_alpha, is_digit, is_whitespace,
    lemma_digits_value_prefix, lemma_digits_value_push, spec_is_alnum, spec_is_alpha,
    spec_is_digit, spec_is_whitespace, str_to_chars,
};

verus! {

/// A token of the `tp0` language.
#[derive(Debug)]
pub enum Token {
    Fn,
    Let,
    If,
    Else,
    Return,
    IntType,
    StrType,
    Ident(String),
    Number(i64),
    StringLit(String),
    Assign,
    Plus,
    Minus,
    Star,
    Slash,
    Arrow,
    LParen,
    RParen,
    LBrace,
    RBrace,
    Colon,
    Semi,
    Comma,
    EOF,
}

/// The mathematical value of a token: its text payloads as character sequences.
pub enum TokenV {
    Fn,
    Let,
    If,
    Else,
    Return,
    IntType,
    StrType,
    Ident(Seq<char>),
    Number(i64),
    StringLit(Seq<char>),
    Assign,
    Plus,
    Minus,
    Star,
    Slash,
    Arrow,
    LParen,
    RParen,
    LBrace,
    RBrace,
    Colon,
    Semi,
    Comma,
    EOF,
}

impl View for Token {
    type V = TokenV;

    open spec fn view(&self) -> TokenV {
        match self {
            Token::Fn => TokenV::Fn,
            Token::Let => TokenV::Let,
            Token::If => TokenV::If,
            Token::Else => TokenV::Else,
            Token::Return => TokenV::Return,
            Token::IntType => TokenV::IntType,
            Token::StrType => TokenV::StrType,
            Token::Ident(s) => TokenV::Ident(s@),
            Token::Number(n) => TokenV::Number(*n),
            Token::StringLit(s) => TokenV::StringLit(s@),
            Token::Assign => TokenV::Assign,
            Token::Plus => TokenV::Plus,
            Token::Minus => TokenV::Minus,
            Token::Star => TokenV::Star,
            Token::Slash => TokenV::Slash,
            Token::Arrow => TokenV::Arrow,
            Token::LParen => TokenV::LParen,
            Token::RParen => TokenV::RParen,
            Token::LBrace => TokenV::LBrace,
            Token::RBrace => TokenV::RBrace,
            Token::Colon => TokenV::Colon,
            Token::Semi => TokenV::Semi,
            Token::Comma => TokenV::Comma,
            Token::EOF => TokenV::EOF,
        }
    }
}

impl Token {
    /// A copy of the token with equal text payloads.
    pub fn duplicate(&self) -> (t: Token)
        ensures
            t@ == self@,
    {
        match self {
            Token::Fn => Token::Fn,
            Token::Let => Token::Let,
            Token::If => Token::If,
            Token::Else => Token::Else,
            Token::Return => Token::Return,
            Token::IntType => Token::IntType,
            Token::StrType => Token::StrType,
            Token::Ident(s) => Token::Ident(s.clone()),
            Token::Number(n) => Token::Number(*n),
            Token::StringLit(s) => Token::StringLit(s.clone()),
            Token::Assign => Token::Assign,
            Token::Plus => Token::Plus,
            Token::Minus => Token::Minus,
            Token::Star => Token::Star,
            Token::Slash => Token::Slash,
            Token::Arrow => Token::Arrow,
            Token::LParen => Token::LParen,
            Token::RParen => Token::RParen,
            Token::LBrace => Token::LBrace,
            Token::RBrace => Token::RBrace,
            Token::Colon => Token::Colon,
            Token::Semi => Token::Semi,
            Token::Comma => Token::Comma,
            Token::EOF => Token::EOF,
        }
    }

    /// Token equality: same kind and equal payloads.
    pub fn same(&self, other: &Token) -> (r: bool)
        ensures
            r == (self@ == other@),
    {
        match (self, other) {
            (Token::Fn, Token::Fn) => true,
            (Token::Let, Token::Let) => true,
            (Token::If, Token::If) => true,
            (Token::Else, Token::Else) => true,
            (Token::Return, Token::Return) => true,
            (Token::IntType, Token::IntType) => true,
            (Token::StrType, Token::StrType) => true,
            (Token::Ident(a), Token::Ident(b)) => *a == *b,
            (Token::Number(a), Token::Number(b)) => *a == *b,
            (Token::StringLit(a), Token::StringLit(b)) => *a == *b,
            (Token::Assign, Token::Assign) => true,
            (Token::Plus, Token::Plus) => true,
            (Token::Minus, Token::Minus) => true,
            (Token::Star, Token::Star) => true,
            (Token::Slash, Token::Slash) => true,
            (Token::Arrow, Token::Arrow) => true,
            (Token::LParen, Token::LParen) => true,
            (Token::RParen, Token::RParen) => true,
            (Token::LBrace, Token::LBrace) => true,
            (Token::RBrace, Token::RBrace) => true,
            (Token::Colon, Token::Colon) => true,
            (Token::Semi, Token::Semi) => true,
            (Token::Comma, Token::Comma) => true,
            (Token::EOF, Token::EOF) => true,
            _ => false,
        }
    }

    /// Is this the end-of-input token?
    pub fn is_eof(&self) -> (r: bool)
        ensures
            r == (self@ == TokenV::EOF),
    {
        match self {
            Token::EOF => true,
            _ => false,
        }
    }
}

/// Why the lexer rejects its input.
#[derive(Debug, Clone, Copy, PartialEq, Eq)]
pub enum LexError {
    /// A character that starts no token.
    UnknownChar(char),
    /// A number literal whose value does not fit in `i64`.
    NumberTooLarge,
}

// ---------------------------------------------------------------------------
// Specification of one lexing step
// ---------------------------------------------------------------------------

/// The position after the white space and `//` comments that start at `p`.
pub open spec fn trivia_end(c: Seq<char>, p: int) -> int
    decreases c.len() - p, 0int,
{
    if p < c.len() && spec_is_whitespace(c[p]) {
        trivia_end(c, p + 1)
    } else if 0 <= p && p + 1 < c.len() && c[p] == '/' && c[p + 1] == '/' {
        comment_end(c, p + 2)
    } else {
        p
    }
}

/// Inside a `//` comment at `p`: the position after the comment and the trivia
/// that follows it.
pub open spec fn comment_end(c: Seq<char>, p: int) -> int
    decreases c.len() - p, 1int,
{
    if p < 0 || p >= c.len() {
        p
    } else if c[p] == '\n' {
        trivia_end(c, p)
    } else {
        comment_end(c, p + 1)
    }
}

/// The end of the run of identifier characters (ASCII letters, digits, `_`) from `p`.
pub open spec fn ident_end(c: Seq<char>, p: int) -> int
    decreases c.len() - p,
{
    if 0 <= p < c.len() && (spec_is_alnum(c[p]) || c[p] == '_') {
        ident_end(c, p + 1)
    } else {
        p
    }
}

/// The end of the run of ASCII digits from `p`.
pub open spec fn digits_end(c: Seq<char>, p: int) -> int
    decreases c.len() - p,
{
    if 0 <= p < c.len() && spec_is_digit(c[p]) {
        digits_end(c, p + 1)
    } else {
        p
    }
}

/// The position of the first `"` at or after `p`, or the end of input.
pub open spec fn string_end(c: Seq<char>, p: int) -> int
    decreases c.len() - p,
{
    if 0 <= p < c.len() && c[p] != '"' {
        string_end(c, p + 1)
    } else {
        p
    }
}

/// A word is a keyword token or an identifier.
pub open spec fn keyword_or_ident(w: Seq<char>) -> TokenV {
    if w == seq!['f', 'n'] {
        TokenV::Fn
    } else if w == seq!['l', 'e', 't'] {
        TokenV::Let
    } else if w == seq!['i', 'f'] {
        TokenV::If
    } else if w == seq!['e', 'l', 's', 'e'] {
        TokenV::Else
    } else if w == seq!['r', 'e', 't', 'u', 'r', 'n'] {
        TokenV::Return
    } else if w == seq!['i', 'n', 't'] {
        TokenV::IntType
    } else if w == seq!['s', 't', 'r'] {
        TokenV::StrType
    } else {
        TokenV::Ident(w)
    }
}

/// The token of a one-character operator or punctuation mark.
pub open spec fn symbol_token(ch: char) -> Option<TokenV> {
    if ch == '+' {
        Some(TokenV::Plus)
    } else if ch == '*' {
        Some(TokenV::Star)
    } else if ch == '/' {
        Some(TokenV::Slash)
    } else if ch == '=' {
        Some(TokenV::Assign)
    } else if ch == '(' {
        Some(TokenV::LParen)
    } else if ch == ')' {
        Some(TokenV::RParen)
    } else if ch == '{' {
        Some(TokenV::LBrace)
    } else if ch == '}' {
        Some(TokenV::RBrace)
    } else if ch == ':' {
        Some(TokenV::Colon)
    } else if ch == ';' {
        Some(TokenV::Semi)
    } else if ch == ',' {
        Some(TokenV::Comma)
    } else {
        None
    }
}

/// One lexing step from position `p`: the next token and the position after it.
pub open spec fn lex_step(c: Seq<char>, p: int) -> Result<(TokenV, int), LexError> {
    let q = trivia_end(c, p);
    if q >= c.len() {
        Ok((TokenV::EOF, q))
    } else {
        let ch = c[q];
        if spec_is_alpha(ch) || ch == '_' {
            let e = ident_end(c, q);
            Ok((keyword_or_ident(c.subrange(q, e)), e))
        } else if spec_is_digit(ch) {
            let e = digits_end(c, q);
            let v = digits_value(c.subrange(q, e));
            if v <= i64::MAX {
                Ok((TokenV::Number(v as i64), e))
            } else {
                Err(LexError::NumberTooLarge)
            }
        } else if ch == '"' {
            let e = string_end(c, q + 1);
            Ok((TokenV::StringLit(c.subrange(q + 1, e)), e + 1))
        } else if ch == '-' {
            if q + 1 < c.len() && c[q + 1] == '>' {
                Ok((TokenV::Arrow, q + 2))
            } else {
                Ok((TokenV::Minus, q + 1))
            }
        } else {
            match symbol_token(ch) {
                Some(t) => Ok((t, q + 1)),
                None => Err(LexError::UnknownChar(ch)),
            }
        }
    }
}

// ---------------------------------------------------------------------------
// Facts about the specification
// ---------------------------------------------------------------------------

/// Trivia skipping never moves backwards nor past the end.
pub proof fn lemma_trivia_end(c: Seq<char>, p: int)
    requires
        0 <= p <= c.len(),
    ensures
        p <= trivia_end(c, p) <= c.len(),
    decreases c.len() - p, 0int,
{
    if p < c.len() && spec_is_whitespace(c[p]) {
        lemma_trivia_end(c, p + 1);
    } else if 0 <= p && p + 1 < c.len() && c[p] == '/' && c[p + 1] == '/' {
        lemma_comment_end(c, p + 2);
    }
}

/// Comment skipping never moves backwards nor past the end.
pub proof fn lemma_comment_end(c: Seq<char>, p: int)
    requires
        0 <= p <= c.len(),
    ensures
        p <= comment_end(c, p) <= c.len(),
    decreases c.len() - p, 1int,
{
    if p < c.len() {
        if c[p] == '\n' {
            lemma_trivia_end(c, p);
        } else {
            lemma_comment_end(c, p + 1);
        }
    }
}

/// Bounds of the identifier run.
pub proof fn lemma_ident_end(c: Seq<char>, p: int)
    requires
        0 <= p <= c.len(),
    ensures
        p <= ident_end(c, p) <= c.len(),
        forall|i: int| p <= i < ident_end(c, p) ==> spec_is_alnum(#[trigger] c[i]) || c[i] == '_',
    decreases c.len() - p,
{
    if p < c.len() && (spec_is_alnum(c[p]) || c[p] == '_') {
        lemma_ident_end(c, p + 1);
    }
}

/// Bounds of the digit run.
pub proof fn lemma_digits_end(c: Seq<char>, p: int)
    requires
        0 <= p <= c.len(),
    ensures
        p <= digits_end(c, p) <= c.len(),
        forall|i: int| p <= i < digits_end(c, p) ==> spec_is_digit(#[trigger] c[i]),
    decreases c.len() - p,
{
    if p < c.len() && spec_is_digit(c[p]) {
        lemma_digits_end(c, p + 1);
    }
}

/// Bounds of a string literal's body.
pub proof fn lemma_string_end(c: Seq<char>, p: int)
    requires
        0 <= p <= c.len(),
    ensures
        p <= string_end(c, p) <= c.len(),
        string_end(c, p) < c.len() ==> c[string_end(c, p)] == '"',
    decreases c.len() - p,
{
    if p < c.len() && c[p] != '"' {
        lemma_string_end(c, p + 1);
    }
}

/// A lexing step stays within the input, never moves backwards, and moves
/// forwards whenever it produces a token other than end of input.
pub proof fn lemma_lex_step_advances(c: Seq<char>, p: int)
    requires
        0 <= p <= c.len() + 1,
    ensures
        lex_step(c, p) matches Ok((t, q)) ==> {
            &&& p <= q <= c.len() + 1
            &&& (t != TokenV::EOF ==> p < q)
        },
{
    if p <= c.len() {
        lemma_trivia_end(c, p);
    }
    let q = trivia_end(c, p);
    if q < c.len() {
        lemma_ident_end(c, q + 1);
        lemma_digits_end(c, q + 1);
        lemma_string_end(c, q + 1);
    }
}

/// Once the lexer reports end of input it keeps reporting it, without moving.
pub proof fn lemma_lex_step_eof_stable(c: Seq<char>, p: int)
    requires
        0 <= p <= c.len() + 1,
        lex_step(c, p) matches Ok((t, _)) && t == TokenV::EOF,
    ensures
        lex_step(c, lex_step(c, p)->Ok_0.1) == lex_step(c, p),
{
    if p <= c.len() {
        lemma_trivia_end(c, p);
    }
    let q = trivia_end(c, p);
    assert(q >= c.len());
    assert(trivia_end(c, q) == q);
}

/// Where trivia skipping stops there is neither white space nor a `//`.
pub proof fn lemma_trivia_end_stops(c: Seq<char>, p: int)
    requires
        0 <= p <= c.len(),
    ensures
        ({
            let q = trivia_end(c, p);
            &&& !(q < c.len() && spec_is_whitespace(c[q]))
            &&& !(q + 1 < c.len() && c[q] == '/' && c[q + 1] == '/')
        }),
    decreases c.len() - p, 0int,
{
    if p < c.len() && spec_is_whitespace(c[p]) {
        lemma_trivia_end_stops(c, p + 1);
    } else if p + 1 < c.len() && c[p] == '/' && c[p + 1] == '/' {
        lemma_comment_end_stops(c, p + 2);
    }
}

/// Where comment skipping stops there is neither white space nor a `//`.
pub proof fn lemma_comment_end_stops(c: Seq<char>, p: int)
    requires
        0 <= p <= c.len(),
    ensures
        ({
            let q = comment_end(c, p);
            &&& !(q < c.len() && spec_is_whitespace(c[q]))
            &&& !(q + 1 < c.len() && c[q] == '/' && c[q + 1] == '/')
        }),
    decreases c.len() - p, 1int,
{
    if p < c.len() {
        if c[p] == '\n' {
            lemma_trivia_end_stops(c, p);
        } else {
            lemma_comment_end_stops(c, p + 1);
        }
    }
}

/// Law: white space and `//` comments before a token do not change it: lexing
/// from any position gives what lexing from the end of its trivia gives.
pub proof fn lemma_lex_step_skips_trivia(c: Seq<char>, p: int)
    requires
        0 <= p <= c.len() + 1,
    ensures
        trivia_end(c, trivia_end(c, p)) == trivia_end(c, p),
        lex_step(c, trivia_end(c, p)) == lex_step(c, p),
{
    if p <= c.len() {
        lemma_trivia_end(c, p);
        lemma_trivia_end_stops(c, p);
    }
}

/// The exact spelling of a keyword token; `None` for every other token.
pub open spec fn keyword_spelling(t: TokenV) -> Option<Seq<char>> {
    match t {
        TokenV::Fn => Some(seq!['f', 'n']),
        TokenV::Let => Some(seq!['l', 'e', 't']),
        TokenV::If => Some(seq!['i', 'f']),
        TokenV::Else => Some(seq!['e', 'l', 's', 'e']),
        TokenV::Return => Some(seq!['r', 'e', 't', 'u', 'r', 'n']),
        TokenV::IntType => Some(seq!['i', 'n', 't']),
        TokenV::StrType => Some(seq!['s', 't', 'r']),
        _ => None,
    }
}

/// An identifier character: an ASCII letter or digit, or `_`.
pub open spec fn is_ident_char(ch: char) -> bool {
    spec_is_alnum(ch) || ch == '_'
}

/// The identifier run from `p` stops at the end of input or at a character
/// that cannot continue it.
proof fn lemma_ident_end_stops(c: Seq<char>, p: int)
    requires
        0 <= p <= c.len(),
    ensures
        ident_end(c, p) == c.len() || !is_ident_char(c[ident_end(c, p)]),
    decreases c.len() - p,
{
    if p < c.len() && is_ident_char(c[p]) {
        lemma_ident_end_stops(c, p + 1);
    }
}

/// Law: a token that starts with a letter or `_` takes the whole run of
/// identifier characters that follows, and it is the keyword that the run
/// spells exactly, or else the identifier of the whole run, which then
/// spells no keyword.
pub proof fn lemma_lex_word(c: Seq<char>, p: int)
    requires
        0 <= p <= c.len() + 1,
        trivia_end(c, p) < c.len(),
        spec_is_alpha(c[trivia_end(c, p)]) || c[trivia_end(c, p)] == '_',
    ensures
        lex_step(c, p) matches Ok((t, e)) && {
            let q = trivia_end(c, p);
            let w = c.subrange(q, e);
            &&& q < e <= c.len()
            &&& forall|i: int| q <= i < e ==> is_ident_char(#[trigger] c[i])
            &&& (e == c.len() || !is_ident_char(c[e]))
            &&& (keyword_spelling(t) == Some(w) || (t == TokenV::Ident(w) && forall|k: TokenV|
                #[trigger] keyword_spelling(k) != Some(w)))
        },
{
    let q = trivia_end(c, p);
    if p <= c.len() {
        lemma_trivia_end(c, p);
    }
    lemma_ident_end(c, q);
    lemma_ident_end_stops(c, q);
    let e = ident_end(c, q);
    let w = c.subrange(q, e);
    assert(e > q);
    if keyword_or_ident(w) == TokenV::Ident(w) {
        assert forall|k: TokenV| #[trigger] keyword_spelling(k) != Some(w) by {
            match k {
                TokenV::Fn => {},
                TokenV::Let => {},
                TokenV::If => {},
                TokenV::Else => {},
                TokenV::Return => {},
                TokenV::IntType => {},
                TokenV::StrType => {},
                _ => {},
            }
        }
    }
}

// ---------------------------------------------------------------------------
// The lexer
// ---------------------------------------------------------------------------

/// The lexer: the source characters and the position of the next unread one.
pub struct Lexer {
    pub chars: Vec<char>,
    pub pos: usize,
}

impl Lexer {
    /// The lexer's invariant: the position lies within the input.
    pub open spec fn wf(&self) -> bool {
        &&& self.chars@.len() < usize::MAX
        &&& self.pos <= self.chars@.len() + 1
    }

    /// A lexer at the start of `input`.
    pub fn new(input: &str) -> (l: Lexer)
        requires
            input@.len() < usize::MAX,
        ensures
            l.wf(),
            l.chars@ == input@,
            l.pos == 0,
    {
        Lexer { chars: str_to_chars(input), pos: 0 }
    }

    /// Do the characters `chars[start..end]` spell `word`?
    fn spells(&self, start: usize, end: usize, word: &[char]) -> (r: bool)
        requires
            start <= end <= self.chars@.len(),
        ensures
            r == (self.chars@.subrange(start as int, end as int) == word@),
    {
        if end - start != word.len() {
            return false;
        }
        let mut i: usize = 0;
        while i < word.len()
            invariant
                end - start == word@.len(),
                start <= end <= self.chars@.len(),
                i <= word@.len(),
                forall|j: int| 0 <= j < i ==> self.chars@[start + j] == word@[j],
            decreases word@.len() - i,
        {
            if self.chars[start + i] != word[i] {
                assert(self.chars@.subrange(start as int, end as int)[i as int] != word@[i as int]);
                return false;
            }
            i = i + 1;
        }
        assert(self.chars@.subrange(start as int, end as int) =~= word@);
        true
    }

    /// Skips white space and `//` comments.
    fn skip_trivia(&mut self)
        requires
            old(self).wf(),
        ensures
            final(self).wf(),
            final(self).chars@ == old(self).chars@,
            final(self).pos == trivia_end(old(self).chars@, old(self).pos as int),
    {
        let ghost c = self.chars@;
        let ghost target = trivia_end(c, self.pos as int);
        let len = self.chars.len();
        loop
            invariant
                self.chars@ == c,
                c == old(self).chars@,
                target == trivia_end(c, old(self).pos as int),
                len == c.len(),
                len < usize::MAX,
                self.pos <= len + 1,
                trivia_end(c, self.pos as int) == target,
            decreases len + 1 - self.pos,
        {
            if self.pos < len && is_whitespace(self.chars[self.pos]) {
                self.pos = self.pos + 1;
            } else if self.pos < len && self.pos + 1 < len && self.chars[self.pos] == '/' && self.chars[self.pos + 1] == '/' {
                let ghost before = self.pos;
                self.pos = self.pos + 2;
                while self.pos < len && self.chars[self.pos] != '\n'
                    invariant
                        self.pos >= before + 2,
                        self.chars@ == c,
                        c == old(self).chars@,
                        target == trivia_end(c, old(self).pos as int),
                        len == c.len(),
                        self.pos <= len,
                        comment_end(c, self.pos as int) == target,
                    decreases len - self.pos,
                {
                    self.pos = self.pos + 1;
                }
                assert(trivia_end(c, self.pos as int) == target);
                if self.pos == len {
                    return;
                }
            } else {
                return;
            }
        }
    }

    /// Reads the next token, which must lex: the lexer aborts on a character
    /// that starts no token or a number beyond `i64`, and `try_next_token`
    /// reports which.  At the end of input it returns `EOF`, again and again.
    pub fn next_token(&mut self) -> (t: Token)
        requires
            old(self).wf(),
            lex_step(old(self).chars@, old(self).pos as int) is Ok,
        ensures
            final(self).wf(),
            final(self).chars@ == old(self).chars@,
            (t@, final(self).pos as int) == lex_step(old(self).chars@, old(self).pos as int)->Ok_0,
    {
        self.try_next_token().unwrap()
    }

    /// Reads the next token, or the error that rejects the input.  At the end
    /// of input it returns `EOF`, again and again.
    pub fn try_next_token(&mut self) -> (r: Result<Token, LexError>)
        requires
            old(self).wf(),
        ensures
            final(self).wf(),
            final(self).chars@ == old(self).chars@,
            match lex_step(old(self).chars@, old(self).pos as int) {
                Ok((t, q)) => r matches Ok(tok) && tok@ == t && final(self).pos == q,
                Err(e) => r == Err::<Token, LexError>(e),
            },
    {
        let ghost c = self.chars@;
        let ghost p0 = self.pos as int;
        self.skip_trivia();
        proof {
            if p0 <= c.len() {
                lemma_trivia_end(c, p0);
            }
        }
        let len = self.chars.len();
        if self.pos >= len {
            return Ok(Token::EOF);
        }
        let start = self.pos;
        let ch = self.chars[start];
        if is_alpha(ch) || ch == '_' {
            let mut id = String::new();
            while self.pos < len && (is_alnum(self.chars[self.pos]) || self.chars[self.pos] == '_')
                invariant
                    self.chars@ == c,
                    c == old(self).chars@,
                    len == c.len(),
                    start <= self.pos <= len,
                    ident_end(c, start as int) == ident_end(c, self.pos as int),
                    id@ == c.subrange(start as int, self.pos as int),
                decreases len - self.pos,
            {
                id.push(self.chars[self.pos]);
                self.pos = self.pos + 1;
                assert(id@ =~= c.subrange(start as int, self.pos as int));
            }
            let end = self.pos;
            let tok = if self.spells(start, end, &['f', 'n']) {
                Token::Fn
            } else if self.spells(start, end, &['l', 'e', 't']) {
                Token::Let
            } else if self.spells(start, end, &['i', 'f']) {
                Token::If
            } else if self.spells(start, end, &['e', 'l', 's', 'e']) {
                Token::Else
            } else if self.spells(start, end, &['r', 'e', 't', 'u', 'r', 'n']) {
                Token::Return
            } else if self.spells(start, end, &['i', 'n', 't']) {
                Token::IntType
            } else if self.spells(start, end, &['s', 't', 'r']) {
                Token::StrType
            } else {
                Token::Ident(id)
            };
            return Ok(tok);
        }
        if is_digit(ch) {
            let mut num: i64 = 0;
            proof {
                lemma_digits_end(c, start as int);
                assert(c.subrange(start as int, start as int) =~= Seq::<char>::empty());
            }
            while self.pos < len && is_digit(self.chars[self.pos])
                invariant
                    self.chars@ == c,
                    c == old(self).chars@,
                    len == c.len(),
                    len < usize::MAX,
                    start <= self.pos <= digits_end(c, start as int) <= len,
                    digits_end(c, start as int) == digits_end(c, self.pos as int),
                    forall|i: int| start <= i < digits_end(c, start as int) ==> spec_is_digit(#[trigger] c[i]),
                    num == digits_value(c.subrange(start as int, self.pos as int)),
                    trivia_end(c, p0) == start,
                    p0 == old(self).pos,
                decreases len - self.pos,
            {
                let ghost prev = c.subrange(start as int, self.pos as int);
                let d = char_digit_value(self.chars[self.pos]);
                proof {
                    lemma_digits_end(c, self.pos + 1);
                    assert(c.subrange(start as int, self.pos + 1) =~= prev.push(c[self.pos as int]));
                    lemma_digits_value_push(prev, c[self.pos as int]);
                }
                let next = num.checked_mul(10);
                match next {
                    Some(m) => {
                        let next2 = m.checked_add(d as i64);
                        match next2 {
                            Some(v) => {
                                num = v;
                                self.pos = self.pos + 1;
                            },
                            None => {
                                proof {
                                    let e = digits_end(c, start as int);
                                    let whole = c.subrange(start as int, e);
                                    assert(whole.take(self.pos + 1 - start) =~= c.subrange(start as int, self.pos + 1));
                                    lemma_digits_value_prefix(whole, self.pos + 1 - start);
                                    assert(digits_value(whole) > i64::MAX);
                                    assert(trivia_end(c, p0) == start);
                                }
                                return Err(LexError::NumberTooLarge);
                            },
                        }
                    },
                    None => {
                        proof {
                            let e = digits_end(c, start as int);
                            let whole = c.subrange(start as int, e);
                            assert(whole.take(self.pos + 1 - start) =~= c.subrange(start as int, self.pos + 1));
                            lemma_digits_value_prefix(whole, self.pos + 1 - start);
                            assert(digits_value(whole) > i64::MAX);
                            assert(trivia_end(c, p0) == start);
                        }
                        return Err(LexError::NumberTooLarge);
                    },
                }
            }
            return Ok(Token::Number(num));
        }
        if ch == '"' {
            self.pos = self.pos + 1;
            let mut s = String::new();
            while self.pos < len && self.chars[self.pos] != '"'
                invariant
                    self.chars@ == c,
                    c == old(self).chars@,
                    len == c.len(),
                    start < self.pos <= len,
                    string_end(c, start + 1) == string_end(c, self.pos as int),
                    s@ == c.subrange(start + 1, self.pos as int),
                decreases len - self.pos,
            {
                s.push(self.chars[self.pos]);
                self.pos = self.pos + 1;
                assert(s@ =~= c.subrange(start + 1, self.pos as int));
            }
            self.pos = self.pos + 1;
            return Ok(Token::StringLit(s));
        }
        self.pos = self.pos + 1;
        if ch == '-' {
            if self.pos < len && self.chars[self.pos] == '>' {
                self.pos = self.pos + 1;
                return Ok(Token::Arrow);
            }
            return Ok(Token::Minus);
        }
        if ch == '+' {
            Ok(Token::Plus)
        } else if ch == '*' {
            Ok(Token::Star)
        } else if ch == '/' {
            Ok(Token::Slash)
        } else if ch == '=' {
            Ok(Token::Assign)
        } else if ch == '(' {
            Ok(Token::LParen)
        } else if ch == ')' {
            Ok(Token::RParen)
        } else if ch == '{' {
            Ok(Token::LBrace)
        } else if ch == '}' {
            Ok(Token::RBrace)
        } else if ch == ':' {
            Ok(Token::Colon)
        } else if ch == ';' {
            Ok(Token::Semi)
        } else if ch == ',' {
            Ok(Token::Comma)
        } else {
            Err(LexError::UnknownChar(ch))
        }
    }
}

} // verus!
