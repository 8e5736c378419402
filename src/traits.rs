//! What every node offers: a span, and a parse routine.

use vstd::prelude::*;
use crate::token::{Position, Token};
use crate::error::{Error, ErrorKind, fails_invalid};
use crate::token::same_text;
use crate::parser::{Parser, advanced, covers, unchanged, parsed_as, consumed, aborted, committed,
    lemma_abort_restores,
    lemma_commit_advances, lemma_unchanged_advanced};

verus! {

/// A node that knows where it stands in the source.
pub trait Span {
    /// The start of the node's first token.
    spec fn start_spec(&self) -> Position;

    /// The end of the node's last token.
    spec fn end_spec(&self) -> Position;

    fn start_position(&self) -> (r: Position)
        ensures
            r == self.start_spec(),
    ;

    fn end_position(&self) -> (r: Position)
        ensures
            r == self.end_spec(),
    ;
}

/// A node that can be parsed from a token stream.
///
/// A parse only reads: the stream after it is the stream before it less
/// the tokens it read, which the innermost open transaction records. A
/// parse that succeeds has read at least one token, and its node spans
/// exactly from the first of them to the last.
///
/// `parse_len` is the grammar of the node: how many tokens a parse reads
/// from the head of a stream, or `None` where the stream does not start
/// with such a node. A parse succeeds exactly where the grammar accepts.
pub trait Parse: Span + Sized {
    spec fn parse_len(s: Seq<Token>) -> Option<nat>;

    fn parse(p: &mut Parser) -> (r: Result<Self, Error>)
        ensures
            advanced(*old(p), *final(p)),
            r is Ok ==> covers(*old(p), *final(p), r->Ok_0.start_spec(), r->Ok_0.end_spec()),
            parsed_as(*old(p), *final(p), r is Ok, Self::parse_len(old(p).stream())),
    ;
}

/// A node spanning the first `n` tokens of `s` starts where the first of
/// them starts and ends where the last of them ends.
pub open spec fn spans_prefix(s: Seq<Token>, n: nat, start: Position, end: Position) -> bool {
    &&& 0 < n <= s.len()
    &&& start == s[0].start
    &&& end == s[n - 1].end
}

/// A node that can be checked against the value it is expected to denote.
///
/// Values are compared as text: exactly for atoms, variables, strings,
/// keywords and symbols, and by their decimal digits for integers. A float
/// is compared by its written form, not within a floating-point tolerance,
/// so `1.0` does not match `1.00`.
pub trait Expect {
    /// Whether the node denotes `expected`.
    spec fn denotes_spec(&self, expected: Seq<char>) -> bool;

    /// Succeeds exactly when the node denotes `expected`.
    fn expect(&self, expected: &str) -> (r: Result<(), Error>)
        ensures
            r is Ok <==> self.denotes_spec(expected@),
    ;
}

impl Expect for Token {
    open spec fn denotes_spec(&self, expected: Seq<char>) -> bool {
        self.value@ == expected
    }

    fn expect(&self, expected: &str) -> (r: Result<(), Error>)
        ensures
            r is Err ==> fails_invalid(r, expected@, *self),
    {
        if same_text(&self.value, expected) {
            Ok(())
        } else {
            Err(Error::new(ErrorKind::InvalidInput { expected: expected.to_owned(), actual: self.clone() }))
        }
    }
}

impl Span for Token {
    open spec fn start_spec(&self) -> Position {
        self.start
    }

    open spec fn end_spec(&self) -> Position {
        self.end
    }

    fn start_position(&self) -> (r: Position) {
        self.start
    }

    fn end_position(&self) -> (r: Position) {
        self.end
    }
}

impl Parser {
    /// Parses a `P`.
    pub fn parse<P: Parse>(&mut self) -> (r: Result<P, Error>)
        ensures
            advanced(*old(self), *final(self)),
            r is Ok ==> covers(*old(self), *final(self), r->Ok_0.start_spec(), r->Ok_0.end_spec()),
            parsed_as(*old(self), *final(self), r is Ok, P::parse_len(old(self).stream())),
    {
        P::parse(self)
    }

    /// Parses a `P` inside a transaction that is always aborted: the result
    /// is kept and whatever was read is pending again.
    pub fn peek<P: Parse>(&mut self) -> (r: Result<P, Error>)
        ensures
            unchanged(*old(self), *final(self)),
            (r is Ok) == (P::parse_len(old(self).stream()) is Some),
            r is Ok ==> spans_prefix(
                old(self).stream(),
                P::parse_len(old(self).stream())->Some_0,
                r->Ok_0.start_spec(),
                r->Ok_0.end_spec(),
            ),
    {
        let ghost a0 = *self;
        self.start_transaction();
        let ghost a1 = *self;
        let r = P::parse(self);
        let ghost a2 = *self;
        self.abort_transaction();
        proof {
            lemma_abort_restores(a0, a1, a2, *self);
            if r is Ok {
                let c = consumed(a1, a2);
                assert(c[0] == a0.stream()[0]);
                assert(c.last() == a0.stream()[c.len() - 1]);
            }
        }
        r
    }

    /// Parses a `P` inside a transaction, committed if the parse succeeds
    /// and aborted if it fails, so that a failure reads nothing.
    pub fn transaction<P: Parse>(&mut self) -> (r: Result<P, Error>)
        ensures
            advanced(*old(self), *final(self)),
            r is Ok ==> covers(*old(self), *final(self), r->Ok_0.start_spec(), r->Ok_0.end_spec()),
            r is Err ==> unchanged(*old(self), *final(self)),
            parsed_as(*old(self), *final(self), r is Ok, P::parse_len(old(self).stream())),
    {
        let ghost a0 = *self;
        self.start_transaction();
        let ghost a1 = *self;
        let r = P::parse(self);
        let ghost a2 = *self;
        match r {
            Ok(x) => {
                self.commit_transaction();
                proof {
                    lemma_commit_advances(a0, a1, a2, *self);
                }
                Ok(x)
            },
            Err(e) => {
                self.abort_transaction();
                proof {
                    lemma_abort_restores(a0, a1, a2, *self);
                    lemma_unchanged_advanced(a0, *self);
                }
                Err(e)
            },
        }
    }
}

} // verus!
