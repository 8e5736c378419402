//! The transactional token reader.

use vstd::prelude::*;
use crate::token::{Token, TokenKind, Position, denotes, is_symbol_spec, is_keyword_spec, same_text};
use crate::error::{Error, ErrorKind, fails_eos, fails_unexpected, fails_invalid};
use crate::traits::Expect;

verus! {

/// `s` read from its end to its start.
pub open spec fn reversed(s: Seq<Token>) -> Seq<Token> {
    Seq::new(s.len(), |i: int| s[s.len() - 1 - i])
}

/// The pending tokens of a stream, with a one-token push back.
pub struct TokenReader {
    /// Pending tokens, the next one last.
    pending: Vec<Token>,
}

impl View for TokenReader {
    type V = Seq<Token>;

    /// The pending tokens, the next one first.
    closed spec fn view(&self) -> Seq<Token> {
        reversed(self.pending@)
    }
}

impl TokenReader {
    /// A reader that hands out `tokens` in order.
    pub fn new(tokens: Vec<Token>) -> (r: TokenReader)
        ensures
            r@ == tokens@,
    {
        let ghost all = tokens@;
        let mut tokens = tokens;
        let mut pending: Vec<Token> = Vec::new();
        while tokens.len() > 0
            invariant
                tokens@ == all.take(tokens@.len() as int),
                reversed(pending@) == all.skip(tokens@.len() as int),
                tokens@.len() <= all.len(),
            decreases tokens@.len(),
        {
            let t = tokens.pop().unwrap();
            proof {
                let k = tokens@.len() as int;
                assert(t == all[k]);
            }
            let ghost before = reversed(pending@);
            pending.push(t);
            proof {
                let k = tokens@.len() as int;
                assert(reversed(pending@) =~= seq![t] + before);
                assert(tokens@ =~= all.take(k));
                assert(reversed(pending@) =~= all.skip(k));
            }
        }
        proof {
            assert(all.skip(0) =~= all);
        }
        TokenReader { pending }
    }

    pub fn len(&self) -> (r: usize)
        ensures
            r == self@.len(),
    {
        self.pending.len()
    }

    /// The next token, left in place.
    pub fn peek_token(&self) -> (r: Option<&Token>)
        ensures
            self@.len() == 0 ==> r is None,
            self@.len() > 0 ==> r == Some(&self@[0]),
    {
        let n = self.pending.len();
        if n == 0 {
            None
        } else {
            Some(&self.pending[n - 1])
        }
    }

    /// Takes the next token.
    pub fn read_token(&mut self) -> (r: Result<Token, Error>)
        ensures
            old(self)@.len() == 0 ==> r == Err::<Token, Error>(Error { kind: ErrorKind::UnexpectedEos })
                && final(self)@ == old(self)@,
            old(self)@.len() > 0 ==> r == Ok::<Token, Error>(old(self)@[0])
                && final(self)@ == old(self)@.skip(1),
    {
        match self.pending.pop() {
            None => Err(Error::new(ErrorKind::UnexpectedEos)),
            Some(t) => {
                proof {
                    assert(self@ =~= old(self)@.skip(1));
                }
                Ok(t)
            }
        }
    }

    /// Puts `t` back in front of the pending tokens.
    pub fn unread_token(&mut self, t: Token)
        ensures
            final(self)@ == seq![t] + old(self)@,
    {
        self.pending.push(t);
        proof {
            assert(self@ =~= seq![t] + old(self)@);
        }
    }
}

/// A token stream read through a stack of transactions.
///
/// Each open transaction records the tokens read since it began, so that
/// aborting it puts them back in their original order, and committing it
/// hands them to the enclosing transaction.
pub struct Parser {
    reader: TokenReader,
    transactions: Vec<Vec<Token>>,
}

/// The tokens read on the way from `a` to `b`.
pub open spec fn consumed(a: Parser, b: Parser) -> Seq<Token> {
    a.stream().take(a.stream().len() - b.stream().len())
}

/// `b` is `a` after reading some tokens, none or more, in order; the
/// innermost open transaction, if any, has recorded them.
pub open spec fn advanced(a: Parser, b: Parser) -> bool {
    let n = a.stream().len() - b.stream().len();
    &&& b.stream().len() <= a.stream().len()
    &&& b.stream() == a.stream().skip(n)
    &&& b.buffers().len() == a.buffers().len()
    &&& a.buffers().len() == 0 ==> b.buffers() == a.buffers()
    &&& a.buffers().len() > 0 ==> b.buffers() == a.buffers().update(
        a.buffers().len() - 1,
        a.buffers().last() + consumed(a, b),
    )
}

/// `b` is `a` after reading exactly the token `t`.
pub open spec fn read_one(a: Parser, b: Parser, t: Token) -> bool {
    advanced(a, b) && consumed(a, b) == seq![t]
}

/// `b` is `a` with nothing read and nothing else changed.
pub open spec fn unchanged(a: Parser, b: Parser) -> bool {
    b.stream() == a.stream() && b.buffers() == a.buffers()
}

/// `b` is `a` with a new, empty transaction open.
pub open spec fn began(a: Parser, b: Parser) -> bool {
    b.stream() == a.stream() && b.buffers() == a.buffers().push(Seq::empty())
}

/// `b` is `a` with its innermost transaction committed: its tokens go to
/// the enclosing transaction, or are dropped where there is none.
pub open spec fn committed(a: Parser, b: Parser) -> bool {
    let n = a.buffers().len();
    &&& n > 0
    &&& b.stream() == a.stream()
    &&& n == 1 ==> b.buffers() == Seq::<Seq<Token>>::empty()
    &&& n > 1 ==> b.buffers() == a.buffers().drop_last().update(
        n - 2,
        a.buffers()[n - 2] + a.buffers()[n - 1],
    )
}

/// `b` is `a` with its innermost transaction aborted: its tokens are
/// pending again, in the order in which they were read.
pub open spec fn aborted(a: Parser, b: Parser) -> bool {
    &&& a.buffers().len() > 0
    &&& b.stream() == a.buffers().last() + a.stream()
    &&& b.buffers() == a.buffers().drop_last()
}

/// The first token of what was read from `a` to `b` starts at `start`, and
/// the last one ends at `end`.
pub open spec fn covers(a: Parser, b: Parser, start: Position, end: Position) -> bool {
    let c = consumed(a, b);
    &&& b.stream().len() < a.stream().len()
    &&& c.len() > 0
    &&& c[0].start == start
    &&& c.last().end == end
}

/// `ok` tells whether a parse succeeded; `n` is how many tokens the
/// grammar says it reads from the stream of `a`, or `None` where the
/// grammar rejects it. The parse succeeds exactly when the grammar accepts,
/// and then it has read exactly `n` tokens from `a` to `b`.
pub open spec fn parsed_as(a: Parser, b: Parser, ok: bool, n: Option<nat>) -> bool {
    &&& ok == (n is Some)
    &&& ok ==> consumed(a, b).len() == n->Some_0
}

/// `k` more tokens than `r` says, where `r` says anything.
pub open spec fn after(r: Option<nat>, k: nat) -> Option<nat> {
    match r {
        Some(m) => Some(k + m),
        None => None,
    }
}

/// The token at `i` of `s` is the symbol `text`.
pub open spec fn sym_at(s: Seq<Token>, i: int, text: Seq<char>) -> bool {
    0 <= i < s.len() && is_symbol_spec(s[i], text)
}

/// The token at `i` of `s` is the keyword `text`.
pub open spec fn kw_at(s: Seq<Token>, i: int, text: Seq<char>) -> bool {
    0 <= i < s.len() && is_keyword_spec(s[i], text)
}

/// The token at `i` of `s` is of class `kind`.
pub open spec fn kind_at(s: Seq<Token>, i: int, kind: TokenKind) -> bool {
    0 <= i < s.len() && s[i].kind == kind
}

/// Reading no token is a step.
pub proof fn lemma_advanced_refl(a: Parser)
    ensures
        advanced(a, a),
        consumed(a, a) == Seq::<Token>::empty(),
{
    assert(a.stream().skip(0) =~= a.stream());
    assert(consumed(a, a) =~= Seq::<Token>::empty());
    if a.buffers().len() > 0 {
        assert(a.buffers().last() + consumed(a, a) =~= a.buffers().last());
        assert(a.buffers().update(a.buffers().len() - 1, a.buffers().last()) =~= a.buffers());
    }
}

/// A reader left as it was has made a step that read nothing.
pub proof fn lemma_unchanged_advanced(a: Parser, b: Parser)
    requires
        unchanged(a, b),
    ensures
        advanced(a, b),
        consumed(a, b) == Seq::<Token>::empty(),
{
    lemma_advanced_refl(a);
    assert(consumed(a, b) =~= Seq::<Token>::empty());
    if a.buffers().len() > 0 {
        assert(a.buffers().last() + consumed(a, b) =~= a.buffers().last());
        assert(a.buffers().update(a.buffers().len() - 1, a.buffers().last()) =~= a.buffers());
    }
    assert(a.stream().skip(0) =~= a.stream());
}

/// Two steps make one, and what they read is read in turn.
pub proof fn lemma_advanced_trans(a: Parser, b: Parser, c: Parser)
    requires
        advanced(a, b),
        advanced(b, c),
    ensures
        advanced(a, c),
        consumed(a, c) == consumed(a, b) + consumed(b, c),
{
    let n1 = a.stream().len() - b.stream().len();
    let n2 = b.stream().len() - c.stream().len();
    assert(c.stream() =~= a.stream().skip(n1 + n2));
    assert(consumed(a, c) =~= consumed(a, b) + consumed(b, c));
    if a.buffers().len() > 0 {
        let k = a.buffers().len() - 1;
        assert(a.buffers().last() + consumed(a, b) + consumed(b, c) =~= a.buffers().last()
            + consumed(a, c));
        assert(c.buffers() =~= a.buffers().update(k, a.buffers().last() + consumed(a, c)));
    }
}

/// Reading one token covers exactly that token.
pub proof fn lemma_read_one_covers(a: Parser, b: Parser, t: Token)
    requires
        read_one(a, b, t),
    ensures
        covers(a, b, t.start, t.end),
        b.stream().len() == a.stream().len() - 1,
        b.stream() == a.stream().skip(1),
{
    assert(consumed(a, b).len() == 1);
}

/// Two steps that each cover a span cover, together, from the start of the
/// first to the end of the second.
pub proof fn lemma_covers_join(
    a: Parser,
    b: Parser,
    c: Parser,
    s1: Position,
    e1: Position,
    s2: Position,
    e2: Position,
)
    requires
        advanced(a, b),
        advanced(b, c),
        covers(a, b, s1, e1),
        covers(b, c, s2, e2),
    ensures
        advanced(a, c),
        covers(a, c, s1, e2),
{
    lemma_advanced_trans(a, b, c);
    let x = consumed(a, b);
    let y = consumed(b, c);
    assert((x + y)[0] == x[0]);
    assert((x + y).last() == y.last());
}

/// A step that reads nothing, after a step that covers a span, leaves that
/// span covered.
pub proof fn lemma_covers_then_nothing(a: Parser, b: Parser, c: Parser, s: Position, e: Position)
    requires
        advanced(a, b),
        advanced(b, c),
        consumed(b, c).len() == 0,
        covers(a, b, s, e),
    ensures
        advanced(a, c),
        covers(a, c, s, e),
{
    lemma_advanced_trans(a, b, c);
    assert(consumed(a, c) =~= consumed(a, b));
}

/// A step that reads nothing, before a step that covers a span, leaves that
/// span covered.
pub proof fn lemma_nothing_then_covers(a: Parser, b: Parser, c: Parser, s: Position, e: Position)
    requires
        advanced(a, b),
        advanced(b, c),
        consumed(a, b).len() == 0,
        covers(b, c, s, e),
    ensures
        advanced(a, c),
        covers(a, c, s, e),
{
    lemma_advanced_trans(a, b, c);
    assert(consumed(a, c) =~= consumed(b, c));
}

/// A transaction that begins, reads, and aborts leaves the stream and the
/// enclosing transactions as they were, whatever was read inside it.
pub proof fn lemma_abort_restores(a: Parser, b: Parser, c: Parser, d: Parser)
    requires
        began(a, b),
        advanced(b, c),
        aborted(c, d),
    ensures
        unchanged(a, d),
{
    let n = b.stream().len() - c.stream().len();
    assert(c.buffers().last() =~= consumed(b, c));
    assert(consumed(b, c) + c.stream() =~= a.stream());
    assert(d.buffers() =~= a.buffers());
}

/// Transactions nested in one that is aborted leave the stream and the
/// enclosing transactions as they were before the outer one began, whether
/// the inner one was committed or aborted, and whatever was read around it.
pub proof fn lemma_nested_abort_restores(
    a: Parser,
    b: Parser,
    c: Parser,
    d: Parser,
    e: Parser,
    f: Parser,
    g: Parser,
    h: Parser,
)
    requires
        began(a, b),
        advanced(b, c),
        began(c, d),
        advanced(d, e),
        committed(e, f) || aborted(e, f),
        advanced(f, g),
        aborted(g, h),
    ensures
        unchanged(a, h),
{
    if committed(e, f) {
        lemma_commit_advances(c, d, e, f);
    } else {
        lemma_abort_restores(c, d, e, f);
        lemma_unchanged_advanced(c, f);
    }
    lemma_advanced_trans(b, c, f);
    lemma_advanced_trans(b, f, g);
    lemma_abort_restores(a, b, g, h);
}

/// A transaction that begins, reads, and commits is one step of the
/// enclosing reader, which reads what the transaction read.
pub proof fn lemma_commit_advances(a: Parser, b: Parser, c: Parser, d: Parser)
    requires
        began(a, b),
        advanced(b, c),
        committed(c, d),
    ensures
        advanced(a, d),
        consumed(a, d) == consumed(b, c),
{
    assert(c.buffers().last() =~= consumed(b, c));
    assert(consumed(a, d) =~= consumed(b, c));
    if a.buffers().len() > 0 {
        assert(d.buffers() =~= a.buffers().update(
            a.buffers().len() - 1,
            a.buffers().last() + consumed(a, d),
        ));
    } else {
        assert(d.buffers() =~= a.buffers());
    }
}

impl Parser {
    /// The pending tokens, the next one first.
    pub closed spec fn stream(self) -> Seq<Token> {
        self.reader@
    }

    /// The tokens recorded by each open transaction, the innermost last.
    pub closed spec fn buffers(self) -> Seq<Seq<Token>> {
        Seq::new(self.transactions@.len(), |i: int| self.transactions@[i]@)
    }

    pub fn new(reader: TokenReader) -> (r: Parser)
        ensures
            r.stream() == reader@,
            r.buffers() == Seq::<Seq<Token>>::empty(),
    {
        let r = Parser { reader, transactions: Vec::new() };
        proof {
            assert(r.buffers() =~= Seq::<Seq<Token>>::empty());
        }
        r
    }

    /// A parser over `tokens`, in order.
    pub fn from_tokens(tokens: Vec<Token>) -> (r: Parser)
        ensures
            r.stream() == tokens@,
            r.buffers() == Seq::<Seq<Token>>::empty(),
    {
        Parser::new(TokenReader::new(tokens))
    }

    pub fn reader(&self) -> (r: &TokenReader)
        ensures
            r@ == self.stream(),
    {
        &self.reader
    }

    pub fn into_reader(self) -> (r: TokenReader)
        ensures
            r@ == self.stream(),
    {
        self.reader
    }

    /// The number of open transactions.
    pub fn depth(&self) -> (r: usize)
        ensures
            r == self.buffers().len(),
    {
        self.transactions.len()
    }

    /// The next token, left in place.
    pub fn look(&self) -> (r: Option<&Token>)
        ensures
            self.stream().len() == 0 ==> r is None,
            self.stream().len() > 0 ==> r == Some(&self.stream()[0]),
    {
        self.reader.peek_token()
    }

    /// Whether the stream is exhausted. Nothing is read.
    pub fn eos(&self) -> (r: bool)
        ensures
            r == (self.stream().len() == 0),
    {
        self.reader.len() == 0
    }

    /// Takes the next token; the innermost open transaction records it.
    pub fn read_token(&mut self) -> (r: Result<Token, Error>)
        ensures
            old(self).stream().len() == 0
                ==> r == Err::<Token, Error>(Error { kind: ErrorKind::UnexpectedEos })
                && unchanged(*old(self), *final(self)),
            old(self).stream().len() > 0 ==> r == Ok::<Token, Error>(old(self).stream()[0])
                && read_one(*old(self), *final(self), old(self).stream()[0]),
            advanced(*old(self), *final(self)),
    {
        let r = self.reader.read_token();
        match r {
            Err(e) => {
                proof {
                    lemma_advanced_refl(*self);
                }
                Err(e)
            }
            Ok(t) => {
                let n = self.transactions.len();
                if n > 0 {
                    let mut tail = self.transactions.pop().unwrap();
                    tail.push(t.clone());
                    let ghost tl = tail@;
                    self.transactions.push(tail);
                    proof {
                        let a = *old(self);
                        assert(tl == a.buffers().last() + seq![t]);
                        assert forall|i: int| 0 <= i < n - 1 implies self.buffers()[i] == a.buffers()[i] by {
                            assert(self.transactions@[i] == a.transactions@[i]);
                        }
                    }
                }
                proof {
                    let a = *old(self);
                    assert(consumed(a, *self) =~= seq![t]);
                    if n > 0 {
                        assert(self.buffers() =~= a.buffers().update(
                            a.buffers().len() - 1,
                            a.buffers().last() + consumed(a, *self),
                        ));
                    } else {
                        assert(self.buffers() =~= a.buffers());
                    }
                }
                Ok(t)
            }
        }
    }

    /// Opens a transaction.
    pub fn start_transaction(&mut self)
        ensures
            began(*old(self), *final(self)),
    {
        self.transactions.push(Vec::new());
        proof {
            assert(self.buffers() =~= old(self).buffers().push(Seq::empty()));
        }
    }

    /// Commits the innermost transaction.
    pub fn commit_transaction(&mut self)
        requires
            old(self).buffers().len() > 0,
        ensures
            committed(*old(self), *final(self)),
    {
        let mut last = self.transactions.pop().unwrap();
        let n = self.transactions.len();
        if n > 0 {
            let mut tail = self.transactions.pop().unwrap();
            tail.append(&mut last);
            self.transactions.push(tail);
            proof {
                let a = *old(self);
                assert(self.buffers() =~= a.buffers().drop_last().update(
                    n - 1,
                    a.buffers()[n - 1] + a.buffers()[n as int],
                ));
            }
        } else {
            proof {
                assert(self.buffers() =~= Seq::<Seq<Token>>::empty());
            }
        }
    }

    /// Aborts the innermost transaction: what it read is pending again.
    pub fn abort_transaction(&mut self)
        requires
            old(self).buffers().len() > 0,
        ensures
            aborted(*old(self), *final(self)),
    {
        let mut last = self.transactions.pop().unwrap();
        let ghost buf = last@;
        while last.len() > 0
            invariant
                self.transactions@ == old(self).transactions@.drop_last(),
                buf == old(self).buffers().last(),
                last@ == buf.take(last@.len() as int),
                last@.len() <= buf.len(),
                self.reader@ == buf.skip(last@.len() as int) + old(self).reader@,
            decreases last@.len(),
        {
            let t = last.pop().unwrap();
            proof {
                assert(t == buf[last@.len() as int]);
            }
            self.reader.unread_token(t);
            proof {
                let k = last@.len() as int;
                assert(last@ =~= buf.take(k));
                assert(buf.skip(k) =~= seq![t] + buf.skip(k + 1));
            }
        }
        proof {
            assert(buf.skip(0) =~= buf);
            assert(self.buffers() =~= old(self).buffers().drop_last());
        }
    }

    /// Reads the next token if it is of class `kind`; otherwise nothing is
    /// read.
    pub fn parse_token(&mut self, kind: TokenKind) -> (r: Result<Token, Error>)
        ensures
            advanced(*old(self), *final(self)),
            old(self).stream().len() == 0 ==> fails_eos(r) && unchanged(*old(self), *final(self)),
            old(self).stream().len() > 0 && old(self).stream()[0].kind != kind ==> fails_unexpected(
                r,
                old(self).stream()[0],
            ) && unchanged(*old(self), *final(self)),
            old(self).stream().len() > 0 && old(self).stream()[0].kind == kind ==> r == Ok::<
                Token,
                Error,
            >(old(self).stream()[0]) && read_one(*old(self), *final(self), old(self).stream()[0]),
    {
        let found = match self.look() {
            None => None,
            Some(t) => Some(t.kind),
        };
        match found {
            Some(k) => {
                if k == kind {
                    self.read_token()
                } else {
                    let t = self.look().unwrap().clone();
                    proof {
                        lemma_unchanged_advanced(*self, *self);
                    }
                    Err(Error::new(ErrorKind::UnexpectedToken(t)))
                }
            },
            None => self.read_token(),
        }
    }

    /// Reads the next token if it is the symbol written `s`; otherwise
    /// nothing is read.
    pub fn try_symbol(&mut self, s: &str) -> (r: Option<Token>)
        ensures
            advanced(*old(self), *final(self)),
            old(self).stream().len() > 0 && is_symbol_spec(old(self).stream()[0], s@) ==> r == Some(
                old(self).stream()[0],
            ) && read_one(*old(self), *final(self), old(self).stream()[0]),
            !(old(self).stream().len() > 0 && is_symbol_spec(old(self).stream()[0], s@)) ==> r is None
                && unchanged(*old(self), *final(self)),
    {
        let hit = match self.look() {
            None => false,
            Some(t) => t.is_symbol(s),
        };
        if hit {
            match self.read_token() {
                Ok(t) => Some(t),
                Err(_) => None,
            }
        } else {
            proof {
                lemma_unchanged_advanced(*self, *self);
            }
            None
        }
    }

    /// Reads a token of class `kind` that denotes `expected`, inside a
    /// transaction. On any failure the transaction is aborted, so that the
    /// stream is left as it was.
    pub fn expect(&mut self, kind: TokenKind, expected: &str) -> (r: Result<Token, Error>)
        ensures
            advanced(*old(self), *final(self)),
            old(self).stream().len() == 0 ==> fails_eos(r) && unchanged(*old(self), *final(self)),
            old(self).stream().len() > 0 && old(self).stream()[0].kind != kind ==> fails_unexpected(
                r,
                old(self).stream()[0],
            ) && unchanged(*old(self), *final(self)),
            old(self).stream().len() > 0 && old(self).stream()[0].kind == kind
                && old(self).stream()[0].value@ != expected@ ==> fails_invalid(
                r,
                expected@,
                old(self).stream()[0],
            ) && unchanged(*old(self), *final(self)),
            old(self).stream().len() > 0 && denotes(old(self).stream()[0], kind, expected@) ==> r
                == Ok::<Token, Error>(old(self).stream()[0]) && read_one(
                *old(self),
                *final(self),
                old(self).stream()[0],
            ),
    {
        let ghost a0 = *self;
        self.start_transaction();
        let ghost a1 = *self;
        let r = self.read_token();
        let ghost a2 = *self;
        match r {
            Err(e) => {
                self.abort_transaction();
                proof {
                    lemma_abort_restores(a0, a1, a2, *self);
                    lemma_unchanged_advanced(a0, *self);
                }
                Err(e)
            },
            Ok(t) => {
                if t.kind != kind {
                    self.abort_transaction();
                    proof {
                        lemma_abort_restores(a0, a1, a2, *self);
                        lemma_unchanged_advanced(a0, *self);
                    }
                    Err(Error::new(ErrorKind::UnexpectedToken(t)))
                } else {
                    match t.expect(expected) {
                        Err(e) => {
                            self.abort_transaction();
                            proof {
                                lemma_abort_restores(a0, a1, a2, *self);
                                lemma_unchanged_advanced(a0, *self);
                            }
                            Err(e)
                        },
                        Ok(()) => {
                            self.commit_transaction();
                            proof {
                                lemma_commit_advances(a0, a1, a2, *self);
                            }
                            Ok(t)
                        },
                    }
                }
            },
        }
    }

    /// Reads a token of class `kind` that denotes one of `candidates`,
    /// trying them in order, inside a transaction. When none matches, the
    /// failure names the last candidate; with no candidates nothing can
    /// match, and the token is reported as unexpected. A failure leaves the
    /// stream as it was.
    pub fn expect_any(&mut self, kind: TokenKind, candidates: &[&str]) -> (r: Result<Token, Error>)
        ensures
            advanced(*old(self), *final(self)),
            old(self).stream().len() == 0 ==> fails_eos(r) && unchanged(*old(self), *final(self)),
            old(self).stream().len() > 0 && old(self).stream()[0].kind != kind ==> fails_unexpected(
                r,
                old(self).stream()[0],
            ) && unchanged(*old(self), *final(self)),
            old(self).stream().len() > 0 && old(self).stream()[0].kind == kind && candidates@.len() == 0
                ==> fails_unexpected(r, old(self).stream()[0]) && unchanged(*old(self), *final(self)),
            old(self).stream().len() > 0 && old(self).stream()[0].kind == kind && (exists|i: int|
                0 <= i < candidates@.len() && old(self).stream()[0].value@ == (#[trigger] candidates@[i])@)
                ==> r == Ok::<Token, Error>(old(self).stream()[0]) && read_one(
                *old(self),
                *final(self),
                old(self).stream()[0],
            ),
            old(self).stream().len() > 0 && old(self).stream()[0].kind == kind && candidates@.len() > 0
                && (forall|i: int|
                0 <= i < candidates@.len() ==> old(self).stream()[0].value@ != (#[trigger] candidates@[i])@)
                ==> fails_invalid(r, candidates@.last()@, old(self).stream()[0]) && unchanged(
                *old(self),
                *final(self),
            ),
    {
        let ghost a0 = *self;
        self.start_transaction();
        let ghost a1 = *self;
        let r = self.read_token();
        let ghost a2 = *self;
        match r {
            Err(e) => {
                self.abort_transaction();
                proof {
                    lemma_abort_restores(a0, a1, a2, *self);
                    lemma_unchanged_advanced(a0, *self);
                }
                Err(e)
            },
            Ok(t) => {
                if t.kind != kind {
                    self.abort_transaction();
                    proof {
                        lemma_abort_restores(a0, a1, a2, *self);
                        lemma_unchanged_advanced(a0, *self);
                    }
                    return Err(Error::new(ErrorKind::UnexpectedToken(t)));
                }
                if candidates.len() == 0 {
                    self.abort_transaction();
                    proof {
                        lemma_abort_restores(a0, a1, a2, *self);
                        lemma_unchanged_advanced(a0, *self);
                    }
                    return Err(Error::new(ErrorKind::UnexpectedToken(t)));
                }
                let mut found = false;
                let mut i: usize = 0;
                while i < candidates.len() && !found
                    invariant
                        0 <= i <= candidates@.len(),
                        candidates@.len() > 0,
                        found == (exists|j: int| 0 <= j < i && t.value@ == (#[trigger] candidates@[j])@),
                    decreases candidates@.len() - i,
                {
                    if same_text(&t.value, candidates[i]) {
                        found = true;
                    }
                    i = i + 1;
                }
                if found {
                    self.commit_transaction();
                    proof {
                        lemma_commit_advances(a0, a1, a2, *self);
                    }
                    Ok(t)
                } else {
                    self.abort_transaction();
                    proof {
                        lemma_abort_restores(a0, a1, a2, *self);
                        lemma_unchanged_advanced(a0, *self);
                    }
                    let last = candidates[candidates.len() - 1];
                    Err(Error::new(ErrorKind::InvalidInput { expected: last.to_owned(), actual: t }))
                }
            },
        }
    }
}

} // verus!
