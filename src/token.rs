//! Lexical tokens as plain values.

use vstd::prelude::*;

verus! {

/// The lexical class of a token. Comments and whitespace never reach the
/// parser, so they have no class here.
#[derive(Clone, Copy, Debug, PartialEq, Eq, Structural)]
pub enum TokenKind {
    Atom,
    Char,
    Float,
    Integer,
    Keyword,
    String,
    Symbol,
    Variable,
}

/// A place in the source text: a byte offset and its 1-based line and column.
#[derive(Clone, Copy, Debug, PartialEq, Eq, Structural)]
pub struct Position {
    pub offset: usize,
    pub line: usize,
    pub column: usize,
}

impl Position {
    pub fn new(offset: usize, line: usize, column: usize) -> (r: Position)
        ensures
            r.offset == offset,
            r.line == line,
            r.column == column,
    {
        Position { offset, line, column }
    }
}

/// One lexical token.
///
/// `text` is the token as written in the source; `value` is what it
/// denotes: the name of an atom or variable, the contents of a string,
/// the character of a char literal, the decimal digits of an integer, and
/// the written form of a keyword, symbol or float. `start` is the position
/// of its first byte and `end` the position just after its last byte.
#[derive(Debug)]
pub struct Token {
    pub kind: TokenKind,
    pub text: String,
    pub value: String,
    pub start: Position,
    pub end: Position,
}

impl Clone for Token {
    fn clone(&self) -> (r: Self)
        ensures
            r == *self,
    {
        Token {
            kind: self.kind,
            text: self.text.clone(),
            value: self.value.clone(),
            start: self.start,
            end: self.end,
        }
    }
}

/// Whether `t` is of class `kind` and denotes `value`.
pub open spec fn denotes(t: Token, kind: TokenKind, value: Seq<char>) -> bool {
    t.kind == kind && t.value@ == value
}

/// Whether `t` is the symbol written `s`.
pub open spec fn is_symbol_spec(t: Token, s: Seq<char>) -> bool {
    denotes(t, TokenKind::Symbol, s)
}

/// Whether `t` is the keyword written `s`.
pub open spec fn is_keyword_spec(t: Token, s: Seq<char>) -> bool {
    denotes(t, TokenKind::Keyword, s)
}

/// Compares a string with a string slice.
pub fn same_text(a: &String, b: &str) -> (r: bool)
    ensures
        r == (a@ == b@),
{
    let owned = b.to_owned();
    a.eq(&owned)
}

impl Token {
    pub fn new(kind: TokenKind, text: String, value: String, start: Position, end: Position) -> (r: Token)
        ensures
            r.kind == kind,
            r.text == text,
            r.value == value,
            r.start == start,
            r.end == end,
    {
        Token { kind, text, value, start, end }
    }

    /// Whether this token is of class `kind` and denotes `value`.
    pub fn is(&self, kind: TokenKind, value: &str) -> (r: bool)
        ensures
            r == denotes(*self, kind, value@),
    {
        self.kind == kind && same_text(&self.value, value)
    }

    pub fn is_symbol(&self, s: &str) -> (r: bool)
        ensures
            r == is_symbol_spec(*self, s@),
    {
        self.is(TokenKind::Symbol, s)
    }

    pub fn is_keyword(&self, s: &str) -> (r: bool)
        ensures
            r == is_keyword_spec(*self, s@),
    {
        self.is(TokenKind::Keyword, s)
    }
}

} // verus!
