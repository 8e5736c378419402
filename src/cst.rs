//! Literals, patterns, and the classification of what comes next.

use vstd::prelude::*;
use crate::token::{Position, Token, TokenKind};
use crate::error::{Error, ErrorKind, fails_eos, fails_unexpected};
use crate::parser::{Parser, advanced, unchanged, read_one, lemma_read_one_covers,
    lemma_unchanged_advanced, lemma_advanced_trans, lemma_abort_restores, lemma_advanced_refl};
use crate::traits::{Parse, Span};
use crate::exprs::{Expr, comprehension_at};

verus! {

/// Whether a token of class `k` is a literal on its own.
pub open spec fn is_literal_kind(k: TokenKind) -> bool {
    k == TokenKind::Atom || k == TokenKind::Char || k == TokenKind::Float || k == TokenKind::Integer
        || k == TokenKind::String
}

/// A literal: one atom, char, float, integer or string token.
#[derive(Debug)]
pub enum Literal {
    Atom(Token),
    Char(Token),
    Float(Token),
    Integer(Token),
    String(Token),
}

impl Literal {
    pub open spec fn token_spec(&self) -> Token {
        match self {
            Literal::Atom(t) => *t,
            Literal::Char(t) => *t,
            Literal::Float(t) => *t,
            Literal::Integer(t) => *t,
            Literal::String(t) => *t,
        }
    }

    /// The class of token that the variant stands for.
    pub open spec fn kind_spec(&self) -> TokenKind {
        match self {
            Literal::Atom(_) => TokenKind::Atom,
            Literal::Char(_) => TokenKind::Char,
            Literal::Float(_) => TokenKind::Float,
            Literal::Integer(_) => TokenKind::Integer,
            Literal::String(_) => TokenKind::String,
        }
    }

    pub fn token(&self) -> (r: &Token)
        ensures
            *r == self.token_spec(),
    {
        match self {
            Literal::Atom(t) => t,
            Literal::Char(t) => t,
            Literal::Float(t) => t,
            Literal::Integer(t) => t,
            Literal::String(t) => t,
        }
    }

    /// Reads a literal token; any other token is left in place.
    pub fn parse_literal(p: &mut Parser) -> (r: Result<Literal, Error>)
        ensures
            advanced(*old(p), *final(p)),
            old(p).stream().len() == 0 ==> fails_eos(r) && unchanged(*old(p), *final(p)),
            old(p).stream().len() > 0 && !is_literal_kind(old(p).stream()[0].kind) ==> fails_unexpected(
                r,
                old(p).stream()[0],
            ) && unchanged(*old(p), *final(p)),
            old(p).stream().len() > 0 && is_literal_kind(old(p).stream()[0].kind) ==> r is Ok
                && r->Ok_0.token_spec() == old(p).stream()[0] && r->Ok_0.kind_spec()
                == old(p).stream()[0].kind && read_one(*old(p), *final(p), old(p).stream()[0]),
    {
        let k = match p.look() {
            Some(t) => Some(t.kind),
            None => None,
        };
        match k {
            None => p.parse_token(TokenKind::Atom).map(|t| Literal::Atom(t)),
            Some(k) => {
                if is_literal(k) {
                    let t = p.parse_token(k);
                    match t {
                        Ok(t) => Ok(
                            match k {
                                TokenKind::Atom => Literal::Atom(t),
                                TokenKind::Char => Literal::Char(t),
                                TokenKind::Float => Literal::Float(t),
                                TokenKind::Integer => Literal::Integer(t),
                                _ => Literal::String(t),
                            },
                        ),
                        Err(e) => Err(e),
                    }
                } else {
                    let t = p.look().unwrap().clone();
                    proof {
                        lemma_unchanged_advanced(*p, *p);
                    }
                    Err(Error::new(ErrorKind::UnexpectedToken(t)))
                }
            },
        }
    }
}

fn is_literal(k: TokenKind) -> (r: bool)
    ensures
        r == is_literal_kind(k),
{
    match k {
        TokenKind::Atom | TokenKind::Char | TokenKind::Float | TokenKind::Integer | TokenKind::String => true,
        _ => false,
    }
}

impl Span for Literal {
    open spec fn start_spec(&self) -> Position {
        self.token_spec().start
    }

    open spec fn end_spec(&self) -> Position {
        self.token_spec().end
    }

    fn start_position(&self) -> (r: Position) {
        self.token().start
    }

    fn end_position(&self) -> (r: Position) {
        self.token().end
    }
}

impl Parse for Literal {
    open spec fn parse_len(s: Seq<Token>) -> Option<nat> {
        if s.len() > 0 && is_literal_kind(s[0].kind) {
            Some(1)
        } else {
            None
        }
    }

    fn parse(p: &mut Parser) -> (r: Result<Self, Error>)
        ensures
            old(p).stream().len() == 0 ==> fails_eos(r) && unchanged(*old(p), *final(p)),
            old(p).stream().len() > 0 && !is_literal_kind(old(p).stream()[0].kind) ==> fails_unexpected(
                r,
                old(p).stream()[0],
            ) && unchanged(*old(p), *final(p)),
            old(p).stream().len() > 0 && is_literal_kind(old(p).stream()[0].kind) ==> r is Ok
                && r->Ok_0.token_spec() == old(p).stream()[0] && r->Ok_0.kind_spec()
                == old(p).stream()[0].kind && read_one(*old(p), *final(p), old(p).stream()[0]),
    {
        let r = Literal::parse_literal(p);
        proof {
            if r is Ok {
                lemma_read_one_covers(*old(p), *p, old(p).stream()[0]);
            }
        }
        r
    }
}

/// The shapes that an expression or pattern may start with.
#[derive(Clone, Copy, Debug, PartialEq, Eq, Structural)]
pub enum LeftKind {
    Literal,
    Variable,
    Tuple,
    MapExpr,
    Record,
    List,
    ListComprehension,
    Block,
    Parenthesized,
    Catch,
}

/// The shape that a stream starting with `s` is classified as. For `[` it
/// is a list comprehension exactly when one expression follows the `[`
/// and `||` follows that expression.
pub open spec fn classifies(s: Seq<Token>, k: LeftKind) -> bool {
    s.len() > 0 && {
        let t = s[0];
        match t.kind {
            TokenKind::Symbol => if t.value@ == "{"@ {
                k == LeftKind::Tuple
            } else if t.value@ == "("@ {
                k == LeftKind::Parenthesized
            } else if t.value@ == "["@ {
                k == if comprehension_at(s) {
                    LeftKind::ListComprehension
                } else {
                    LeftKind::List
                }
            } else if t.value@ == "#"@ {
                s.len() > 1 && k == if s[1].kind == TokenKind::Atom {
                    LeftKind::Record
                } else {
                    LeftKind::MapExpr
                }
            } else {
                false
            },
            TokenKind::Keyword => if t.value@ == "begin"@ {
                k == LeftKind::Block
            } else if t.value@ == "catch"@ {
                k == LeftKind::Catch
            } else {
                false
            },
            TokenKind::Variable => k == LeftKind::Variable,
            _ => k == LeftKind::Literal,
        }
    }
}

/// No shape starts a stream that starts with `s`.
pub open spec fn unclassified(s: Seq<Token>) -> bool {
    s.len() == 0 || {
        let t = s[0];
        match t.kind {
            TokenKind::Symbol => !(t.value@ == "{"@ || t.value@ == "("@ || t.value@ == "["@ || t.value@
                == "#"@) || (t.value@ == "#"@ && s.len() < 2),
            TokenKind::Keyword => !(t.value@ == "begin"@ || t.value@ == "catch"@),
            _ => false,
        }
    }
}

impl LeftKind {
    /// Reads as far as needed to tell which shape the next expression has.
    /// For `[`, it parses one expression and looks for `||` after it; a
    /// failure there is only a sign that the shape is a plain list. Meant
    /// to run inside a transaction that is aborted afterwards.
    pub fn guess(p: &mut Parser) -> (r: Result<LeftKind, Error>)
        ensures
            advanced(*old(p), *final(p)),
            r matches Ok(k) ==> classifies(old(p).stream(), k),
            r is Err <==> unclassified(old(p).stream()),
            old(p).stream().len() == 0 ==> fails_eos(r),
            old(p).stream().len() == 1 && is_symbol_hash(old(p).stream()[0]) ==> fails_eos(r),
            unclassified(old(p).stream()) && old(p).stream().len() > 0 && !is_symbol_hash(
                old(p).stream()[0],
            ) ==> fails_unexpected(r, old(p).stream()[0]),
        decreases old(p).stream().len(), 2int,
    {
        proof {
            reveal_strlit("{");
            reveal_strlit("(");
            reveal_strlit("[");
            reveal_strlit("#");
            reveal_strlit("begin");
            reveal_strlit("catch");
            assert("{"@ =~= seq!['{']);
            assert("("@ =~= seq!['(']);
            assert("["@ =~= seq!['[']);
            assert("#"@ =~= seq!['#']);
            assert("begin"@ =~= seq!['b', 'e', 'g', 'i', 'n']);
            assert("catch"@ =~= seq!['c', 'a', 't', 'c', 'h']);
            assert("begin"@[0] != "catch"@[0]);
            assert("{"@[0] != "#"@[0] && "("@[0] != "#"@[0] && "["@[0] != "#"@[0]);
            assert("{"@[0] != "["@[0] && "("@[0] != "["@[0] && "{"@[0] != "("@[0]);
        }
        let ghost a = *p;
        let t = match p.read_token() {
            Ok(t) => t,
            Err(e) => {
                return Err(e);
            },
        };
        let ghost b = *p;
        proof {
            lemma_read_one_covers(a, b, t);
        }
        match t.kind {
            TokenKind::Symbol => {
                if t.is_symbol("{") {
                    Ok(LeftKind::Tuple)
                } else if t.is_symbol("(") {
                    Ok(LeftKind::Parenthesized)
                } else if t.is_symbol("[") {
                    proof {
                        lemma_read_one_covers(a, b, t);
                    }
                    let element = Expr::parse_expr(p);
                    let ghost c = *p;
                    proof {
                        lemma_advanced_refl(c);
                    }
                    let comprehension = match element {
                        Ok(_) => p.expect(TokenKind::Symbol, "||").is_ok(),
                        Err(_) => false,
                    };
                    proof {
                        lemma_advanced_trans(a, b, c);
                        lemma_advanced_trans(a, c, *p);
                    }
                    if comprehension {
                        Ok(LeftKind::ListComprehension)
                    } else {
                        Ok(LeftKind::List)
                    }
                } else if t.is_symbol("#") {
                    let n = p.read_token();
                    proof {
                        lemma_advanced_trans(a, b, *p);
                    }
                    match n {
                        Ok(n) => {
                            if n.kind == TokenKind::Atom {
                                Ok(LeftKind::Record)
                            } else {
                                Ok(LeftKind::MapExpr)
                            }
                        },
                        Err(e) => Err(e),
                    }
                } else {
                    Err(Error::new(ErrorKind::UnexpectedToken(t)))
                }
            },
            TokenKind::Keyword => {
                if t.is_keyword("begin") {
                    Ok(LeftKind::Block)
                } else if t.is_keyword("catch") {
                    Ok(LeftKind::Catch)
                } else {
                    Err(Error::new(ErrorKind::UnexpectedToken(t)))
                }
            },
            TokenKind::Variable => Ok(LeftKind::Variable),
            _ => Ok(LeftKind::Literal),
        }
    }
}

/// Whether `t` is the symbol `#`.
pub open spec fn is_symbol_hash(t: Token) -> bool {
    t.kind == TokenKind::Symbol && t.value@ == "#"@
}

/// What may follow a complete primary expression.
#[derive(Clone, Copy, Debug, PartialEq, Eq, Structural)]
pub enum RightKind {
    LocalCall,
    RemoteCall,
    Standalone,
}

/// What follows a primary expression at the head of `s`: `(` makes it the
/// callee of a local call, `:` the module of a remote call.
pub open spec fn right_kind_of(s: Seq<Token>) -> RightKind {
    if s.len() > 0 && s[0].kind == TokenKind::Symbol && s[0].value@ == "("@ {
        RightKind::LocalCall
    } else if s.len() > 0 && s[0].kind == TokenKind::Symbol && s[0].value@ == ":"@ {
        RightKind::RemoteCall
    } else {
        RightKind::Standalone
    }
}

impl RightKind {
    /// Reads one token to tell what follows. Meant to run inside a
    /// transaction that is aborted afterwards.
    pub fn guess(p: &mut Parser) -> (r: RightKind)
        ensures
            advanced(*old(p), *final(p)),
            r == right_kind_of(old(p).stream()),
    {
        match p.read_token() {
            Ok(t) => {
                if t.is_symbol("(") {
                    RightKind::LocalCall
                } else if t.is_symbol(":") {
                    RightKind::RemoteCall
                } else {
                    RightKind::Standalone
                }
            },
            Err(_) => RightKind::Standalone,
        }
    }
}

/// A pattern: a literal or a variable.
#[derive(Debug)]
pub enum Pattern {
    Literal(Literal),
    Variable(Token),
}

/// Whether a pattern may start with `t`.
pub open spec fn starts_pattern(t: Token) -> bool {
    is_literal_kind(t.kind) || t.kind == TokenKind::Variable
}

impl Pattern {
    pub open spec fn token_spec(&self) -> Token {
        match self {
            Pattern::Literal(l) => l.token_spec(),
            Pattern::Variable(t) => *t,
        }
    }

    pub fn token(&self) -> (r: &Token)
        ensures
            *r == self.token_spec(),
    {
        match self {
            Pattern::Literal(l) => l.token(),
            Pattern::Variable(t) => t,
        }
    }

    /// Classifies the next tokens as an expression would be, then reads a
    /// literal or a variable. Any other shape fails on its first token,
    /// which is left in place.
    pub fn parse_pattern(p: &mut Parser) -> (r: Result<Pattern, Error>)
        ensures
            advanced(*old(p), *final(p)),
            r is Ok <==> old(p).stream().len() > 0 && starts_pattern(old(p).stream()[0]),
            r is Ok ==> r->Ok_0.token_spec() == old(p).stream()[0] && read_one(
                *old(p),
                *final(p),
                old(p).stream()[0],
            ),
            r is Err ==> unchanged(*old(p), *final(p)),
            old(p).stream().len() == 0 ==> fails_eos(r),
            old(p).stream().len() > 0 && !starts_pattern(old(p).stream()[0]) && !is_symbol_hash(
                old(p).stream()[0],
            ) ==> fails_unexpected(r, old(p).stream()[0]),
        decreases old(p).stream().len(), 4int,
    {
        let ghost a = *p;
        p.start_transaction();
        let ghost b = *p;
        let kind = LeftKind::guess(p);
        let ghost c = *p;
        p.abort_transaction();
        proof {
            lemma_abort_restores(a, b, c, *p);
            lemma_unchanged_advanced(a, *p);
        }
        match kind {
            Err(e) => Err(e),
            Ok(LeftKind::Literal) => match Literal::parse_literal(p) {
                Ok(l) => Ok(Pattern::Literal(l)),
                Err(e) => Err(e),
            },
            Ok(LeftKind::Variable) => match p.parse_token(TokenKind::Variable) {
                Ok(t) => Ok(Pattern::Variable(t)),
                Err(e) => Err(e),
            },
            Ok(_) => {
                let t = p.look().unwrap().clone();
                Err(Error::new(ErrorKind::UnexpectedToken(t)))
            },
        }
    }
}

impl Span for Pattern {
    open spec fn start_spec(&self) -> Position {
        self.token_spec().start
    }

    open spec fn end_spec(&self) -> Position {
        self.token_spec().end
    }

    fn start_position(&self) -> (r: Position) {
        self.token().start
    }

    fn end_position(&self) -> (r: Position) {
        self.token().end
    }
}

impl Parse for Pattern {
    open spec fn parse_len(s: Seq<Token>) -> Option<nat> {
        if s.len() > 0 && starts_pattern(s[0]) {
            Some(1)
        } else {
            None
        }
    }

    fn parse(p: &mut Parser) -> (r: Result<Self, Error>)
        ensures
            r is Ok ==> r->Ok_0.token_spec() == old(p).stream()[0] && read_one(
                *old(p),
                *final(p),
                old(p).stream()[0],
            ),
            r is Err ==> unchanged(*old(p), *final(p)),
            old(p).stream().len() == 0 ==> fails_eos(r),
            old(p).stream().len() > 0 && !starts_pattern(old(p).stream()[0]) && !is_symbol_hash(
                old(p).stream()[0],
            ) ==> fails_unexpected(r, old(p).stream()[0]),
    {
        let r = Pattern::parse_pattern(p);
        proof {
            if r is Ok {
                lemma_read_one_covers(*old(p), *p, old(p).stream()[0]);
            }
        }
        r
    }
}

} // verus!
