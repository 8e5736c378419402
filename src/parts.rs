//! Small parts of clauses and forms.

use vstd::prelude::*;
use crate::token::{Position, Token, TokenKind, is_symbol_spec, is_keyword_spec};
use crate::error::{Error, fails_invalid};
use crate::parser::{Parser, after, sym_at, kw_at, kind_at, unchanged, lemma_advanced_trans,
    lemma_covers_join, lemma_read_one_covers};
use crate::traits::{Parse, Span};
use crate::primitives::{Clauses, Sequence};
use crate::exprs::{Expr, expr_end, expr_len, expr_start};

verus! {

/// The class of an exception and the colon after it: `throw:`, `Class:`.
#[derive(Debug)]
pub struct ExceptionClass {
    /// An atom or a variable.
    pub class: Token,
    pub colon: Token,
}

impl Span for ExceptionClass {
    open spec fn start_spec(&self) -> Position {
        self.class.start
    }

    open spec fn end_spec(&self) -> Position {
        self.colon.end
    }

    fn start_position(&self) -> (r: Position) {
        self.class.start
    }

    fn end_position(&self) -> (r: Position) {
        self.colon.end
    }
}

impl Parse for ExceptionClass {
    open spec fn parse_len(s: Seq<Token>) -> Option<nat> {
        if (kind_at(s, 0, TokenKind::Atom) || kind_at(s, 0, TokenKind::Variable)) && sym_at(s, 1, ":"@) {
            Some(2)
        } else {
            None
        }
    }

    fn parse(p: &mut Parser) -> (r: Result<Self, Error>)
        ensures
            r matches Ok(x) ==> (x.class.kind == TokenKind::Atom || x.class.kind == TokenKind::Variable)
                && is_symbol_spec(x.colon, ":"@) && x.class == old(p).stream()[0] && x.colon == old(p).stream()[1],
    {
        let ghost a = *p;
        let class = match p.parse_token(TokenKind::Atom) {
            Ok(t) => t,
            Err(_) => match p.parse_token(TokenKind::Variable) {
                Ok(t) => t,
                Err(e) => {
                    return Err(e);
                },
            },
        };
        let ghost b = *p;
        let colon = match p.expect(TokenKind::Symbol, ":") {
            Ok(t) => t,
            Err(e) => {
                proof {
                    lemma_advanced_trans(a, b, *p);
                }
                return Err(e);
            },
        };
        proof {
            lemma_read_one_covers(a, b, class);
            lemma_read_one_covers(b, *p, colon);
            lemma_covers_join(a, b, *p, class.start, class.end, colon.start, colon.end);
        }
        Ok(ExceptionClass { class, colon })
    }
}

/// The colon and the variable that receives a stack trace: `:Stack`.
#[derive(Debug)]
pub struct StackTrace {
    pub colon: Token,
    pub variable: Token,
}

impl Span for StackTrace {
    open spec fn start_spec(&self) -> Position {
        self.colon.start
    }

    open spec fn end_spec(&self) -> Position {
        self.variable.end
    }

    fn start_position(&self) -> (r: Position) {
        self.colon.start
    }

    fn end_position(&self) -> (r: Position) {
        self.variable.end
    }
}

impl Parse for StackTrace {
    open spec fn parse_len(s: Seq<Token>) -> Option<nat> {
        if sym_at(s, 0, ":"@) && kind_at(s, 1, TokenKind::Variable) {
            Some(2)
        } else {
            None
        }
    }

    fn parse(p: &mut Parser) -> (r: Result<Self, Error>)
        ensures
            r matches Ok(x) ==> is_symbol_spec(x.colon, ":"@) && x.variable.kind == TokenKind::Variable
                && x.colon == old(p).stream()[0] && x.variable == old(p).stream()[1],
    {
        let ghost a = *p;
        let colon = match p.expect(TokenKind::Symbol, ":") {
            Ok(t) => t,
            Err(e) => {
                return Err(e);
            },
        };
        let ghost b = *p;
        let variable = match p.parse_token(TokenKind::Variable) {
            Ok(t) => t,
            Err(e) => {
                proof {
                    lemma_advanced_trans(a, b, *p);
                }
                return Err(e);
            },
        };
        proof {
            lemma_read_one_covers(a, b, colon);
            lemma_read_one_covers(b, *p, variable);
            lemma_covers_join(a, b, *p, colon.start, colon.end, variable.start, variable.end);
        }
        Ok(StackTrace { colon, variable })
    }
}

/// `when` and a guard: tests parted by commas, alternatives by semicolons.
#[derive(Debug)]
pub struct WhenGuard {
    pub when: Token,
    pub seq: Clauses<Sequence<Expr>>,
}

impl Span for WhenGuard {
    open spec fn start_spec(&self) -> Position {
        self.when.start
    }

    open spec fn end_spec(&self) -> Position {
        self.seq.end_spec()
    }

    fn start_position(&self) -> (r: Position) {
        self.when.start
    }

    fn end_position(&self) -> (r: Position) {
        self.seq.end_position()
    }
}

impl Parse for WhenGuard {
    open spec fn parse_len(s: Seq<Token>) -> Option<nat> {
        if kw_at(s, 0, "when"@) {
            after(Clauses::<Sequence<Expr>>::parse_len(s.skip(1)), 1)
        } else {
            None
        }
    }

    fn parse(p: &mut Parser) -> (r: Result<Self, Error>)
        ensures
            old(p).stream().len() > 0 && old(p).stream()[0].kind == TokenKind::Keyword
                && old(p).stream()[0].value@ != "when"@ ==> fails_invalid(r, "when"@, old(p).stream()[0])
                && unchanged(*old(p), *final(p)),
            r matches Ok(x) ==> is_keyword_spec(x.when, "when"@) && x.seq.wf(),
    {
        let ghost a = *p;
        let when = match p.expect(TokenKind::Keyword, "when") {
            Ok(t) => t,
            Err(e) => {
                return Err(e);
            },
        };
        let ghost b = *p;
        let seq = match Clauses::<Sequence<Expr>>::parse(p) {
            Ok(x) => x,
            Err(e) => {
                proof {
                    lemma_advanced_trans(a, b, *p);
                }
                return Err(e);
            },
        };
        proof {
            lemma_read_one_covers(a, b, when);
            lemma_covers_join(a, b, *p, when.start, when.end, seq.start_spec(), seq.end_spec());
        }
        Ok(WhenGuard { when, seq })
    }
}

/// The default value of a record field: `=` expression.
#[derive(Debug)]
pub struct RecordFieldDefault {
    pub equals: Token,
    pub value: Expr,
}

impl Span for RecordFieldDefault {
    open spec fn start_spec(&self) -> Position {
        self.equals.start
    }

    open spec fn end_spec(&self) -> Position {
        expr_end(self.value)
    }

    fn start_position(&self) -> (r: Position) {
        self.equals.start
    }

    fn end_position(&self) -> (r: Position) {
        self.value.end_position()
    }
}

impl Parse for RecordFieldDefault {
    open spec fn parse_len(s: Seq<Token>) -> Option<nat> {
        if sym_at(s, 0, "="@) {
            after(expr_len(s.skip(1)), 1)
        } else {
            None
        }
    }

    fn parse(p: &mut Parser) -> (r: Result<Self, Error>)
        ensures
            r matches Ok(x) ==> is_symbol_spec(x.equals, "="@),
    {
        let ghost a = *p;
        let equals = match p.expect(TokenKind::Symbol, "=") {
            Ok(t) => t,
            Err(e) => {
                return Err(e);
            },
        };
        let ghost b = *p;
        let value = match Expr::parse_expr(p) {
            Ok(x) => x,
            Err(e) => {
                proof {
                    lemma_advanced_trans(a, b, *p);
                }
                return Err(e);
            },
        };
        proof {
            lemma_read_one_covers(a, b, equals);
            lemma_covers_join(a, b, *p, equals.start, equals.end, expr_start(value), expr_end(value));
        }
        Ok(RecordFieldDefault { equals, value })
    }
}

} // verus!
