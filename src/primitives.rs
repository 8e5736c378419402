//! Generic shapes of repeated and delimited syntax.

use vstd::prelude::*;
use crate::token::{Position, Token, TokenKind, is_symbol_spec};
use crate::error::{Error, fails_eos};
use crate::parser::{Parser, advanced, covers, consumed, parsed_as, after, sym_at, kind_at,
    lemma_advanced_refl, lemma_advanced_trans,
    lemma_covers_join, lemma_covers_then_nothing, lemma_nothing_then_covers, lemma_read_one_covers,
    lemma_unchanged_advanced};
use crate::traits::{Expect, Parse, Span};

verus! {

/// An element followed by the delimiter that parted it from the next one,
/// if any.
pub trait Delimited: Span + Sized {
    /// The delimiter that follows the element, if any.
    spec fn delimiter_spec(&self) -> Option<Token>;

    /// The delimiter, if there is one, is the symbol of this kind of run.
    spec fn delimiter_ok(&self) -> bool;

    fn delimiter_token(&self) -> (r: Option<&Token>)
        ensures
            r == match self.delimiter_spec() {
                Some(d) => Some(&d),
                None => None::<&Token>,
            },
    ;
}

/// An element with its delimiter that can be built from the element and
/// the delimiter token, once both are read.
pub trait Wrap<T: Span>: Delimited {
    /// The symbol that parts elements of this kind of run.
    spec fn delim_spec() -> Seq<char>;

    fn delim() -> (r: &'static str)
        ensures
            r@ == Self::delim_spec(),
    ;

    fn wrap(x: T, d: Option<Token>) -> (r: Self)
        requires
            match d {
                Some(t) => is_symbol_spec(t, Self::delim_spec()),
                None => true,
            },
        ensures
            r.start_spec() == x.start_spec(),
            r.end_spec() == match d {
                Some(t) => t.end,
                None => x.end_spec(),
            },
            r.delimiter_spec() == d,
            r.delimiter_ok(),
    ;
}

/// `items` is a run of one or more elements in which every element but the
/// last is followed by its delimiter, and the last by nothing.
pub open spec fn is_run<I: Delimited>(items: Seq<I>) -> bool {
    &&& items.len() > 0
    &&& forall|i: int| 0 <= i < items.len() - 1 ==> (#[trigger] items[i].delimiter_spec()) is Some
    &&& forall|i: int| 0 <= i < items.len() ==> (#[trigger] items[i]).delimiter_ok()
    &&& items.last().delimiter_spec() is None
}

/// The position given to the span of an empty run, which no parse
/// produces.
pub open spec fn no_position() -> Position {
    Position { offset: 0, line: 0, column: 0 }
}

/// The grammar of a run of `T` parted by the symbol `d`: an element, then
/// either `d` and another run, or nothing.
pub open spec fn run_len<T: Parse>(s: Seq<Token>, d: Seq<char>) -> Option<nat>
    decreases s.len(),
{
    match T::parse_len(s) {
        Some(n) => if n < s.len() && is_symbol_spec(s[n as int], d) {
            after(run_len::<T>(s.skip(n + 1int), d), n + 1)
        } else {
            Some(n)
        },
        None => None,
    }
}

/// How many elements the run at the head of `s` holds.
pub open spec fn run_count<T: Parse>(s: Seq<Token>, d: Seq<char>) -> nat
    decreases s.len(),
{
    match T::parse_len(s) {
        Some(n) => if n < s.len() && is_symbol_spec(s[n as int], d) {
            1 + run_count::<T>(s.skip(n + 1int), d)
        } else {
            1
        },
        None => 0,
    }
}

/// How many elements stand between the brackets at the head of `s`.
pub open spec fn brack_count<T: Parse>(s: Seq<Token>, c: Seq<char>) -> nat {
    if sym_at(s, 1, c) {
        0
    } else {
        run_count::<T>(s.skip(1), ","@)
    }
}

/// The grammar of `o`, then either `c` at once, or a run of `T` parted by
/// commas and then `c`.
pub open spec fn brack_len<T: Parse>(s: Seq<Token>, o: Seq<char>, c: Seq<char>) -> Option<nat> {
    if !sym_at(s, 0, o) {
        None
    } else if sym_at(s, 1, c) {
        Some(2)
    } else {
        match run_len::<T>(s.skip(1), ","@) {
            Some(m) => if sym_at(s.skip(1), m as int, c) {
                Some(m + 2)
            } else {
                None
            },
            None => None,
        }
    }
}

pub proof fn lemma_after_after(r: Option<nat>, i: nat, j: nat)
    ensures
        after(after(r, i), j) == after(r, i + j),
{
}

/// Parses elements for as long as each is followed by the delimiter of
/// `I`. Fails if any element fails, the first one included.
pub fn parse_run<T: Parse, I: Wrap<T>>(p: &mut Parser) -> (r: Result<Vec<I>, Error>)
    ensures
        advanced(*old(p), *final(p)),
        parsed_as(*old(p), *final(p), r is Ok, run_len::<T>(old(p).stream(), I::delim_spec())),
        r matches Ok(v) ==> v@.len() == run_count::<T>(old(p).stream(), I::delim_spec()),
        r matches Ok(v) ==> is_run(v@) && covers(
            *old(p),
            *final(p),
            v@[0].start_spec(),
            v@.last().end_spec(),
        ),
{
    let ghost a = *p;
    let ghost d = I::delim_spec();
    let delim = I::delim();
    let mut items: Vec<I> = Vec::new();
    let mut done = false;
    proof {
        lemma_advanced_refl(a);
    }
    while !done
        invariant
            a == *old(p),
            d == I::delim_spec(),
            delim@ == d,
            advanced(a, *p),
            items@.len() == 0 ==> consumed(a, *p).len() == 0 && !done,
            items@.len() > 0 ==> covers(a, *p, items@[0].start_spec(), items@.last().end_spec()),
            done == (items@.len() > 0 && items@.last().delimiter_spec() is None),
            forall|i: int| 0 <= i < items@.len() - 1 ==> (#[trigger] items@[i].delimiter_spec()) is Some,
            forall|i: int| 0 <= i < items@.len() ==> (#[trigger] items@[i]).delimiter_ok(),
            !done ==> run_len::<T>(a.stream(), d) == after(
                run_len::<T>(p.stream(), d),
                consumed(a, *p).len(),
            ),
            done ==> run_len::<T>(a.stream(), d) == Some(consumed(a, *p).len()),
            !done ==> run_count::<T>(a.stream(), d) == items@.len() + run_count::<T>(p.stream(), d),
            done ==> run_count::<T>(a.stream(), d) == items@.len(),
        decreases p.stream().len(),
    {
        let ghost b = *p;
        let ghost t = p.stream();
        let x = match T::parse(p) {
            Ok(x) => x,
            Err(e) => {
                proof {
                    lemma_advanced_trans(a, b, *p);
                }
                return Err(e);
            },
        };
        let ghost c = *p;
        let ghost n = T::parse_len(t)->Some_0;
        let dt = p.try_symbol(delim);
        proof {
            match dt {
                Some(ref tk) => {
                    lemma_read_one_covers(c, *p, *tk);
                    lemma_covers_join(b, c, *p, x.start_spec(), x.end_spec(), tk.start, tk.end);
                },
                None => {
                    lemma_unchanged_advanced(c, *p);
                    lemma_covers_then_nothing(b, c, *p, x.start_spec(), x.end_spec());
                },
            }
            lemma_advanced_trans(a, b, *p);
            lemma_after_after(run_len::<T>(p.stream(), d), consumed(b, *p).len(), consumed(a, b).len());
            if dt is Some {
                assert(p.stream() =~= t.skip(n + 1int));
            }
        }
        let item = I::wrap(x, dt);
        proof {
            if items@.len() == 0 {
                lemma_nothing_then_covers(a, b, *p, item.start_spec(), item.end_spec());
            } else {
                lemma_covers_join(
                    a,
                    b,
                    *p,
                    items@[0].start_spec(),
                    items@.last().end_spec(),
                    item.start_spec(),
                    item.end_spec(),
                );
            }
        }
        done = item.delimiter_token().is_none();
        items.push(item);
    }
    Ok(items)
}

/// Parses `open`, then either `close` at once, or a run of elements and
/// then `close`.
pub fn parse_bracketed<T: Parse, I: Wrap<T>>(p: &mut Parser, open: &str, close: &str) -> (r: Result<
    (Token, Vec<I>, Token),
    Error,
>)
    requires
        I::delim_spec() == ","@,
    ensures
        advanced(*old(p), *final(p)),
        parsed_as(*old(p), *final(p), r is Ok, brack_len::<T>(old(p).stream(), open@, close@)),
        r matches Ok((o, v, c)) ==> v@.len() == brack_count::<T>(old(p).stream(), close@),
        r matches Ok((o, v, c)) ==> is_symbol_spec(o, open@) && is_symbol_spec(c, close@) && (v@.len()
            == 0 || is_run(v@)) && covers(*old(p), *final(p), o.start, c.end),
        old(p).stream().len() >= 2 && is_symbol_spec(old(p).stream()[0], open@) && is_symbol_spec(
            old(p).stream()[1],
            close@,
        ) ==> r is Ok && r->Ok_0.1@.len() == 0,
        old(p).stream().len() == 0 ==> fails_eos(r),
{
    let ghost a = *p;
    let o = match p.expect(TokenKind::Symbol, open) {
        Ok(t) => t,
        Err(e) => {
            return Err(e);
        },
    };
    let ghost b = *p;
    proof {
        lemma_read_one_covers(a, b, o);
    }
    match p.try_symbol(close) {
        Some(c) => {
            proof {
                lemma_read_one_covers(b, *p, c);
                lemma_covers_join(a, b, *p, o.start, o.end, c.start, c.end);
            }
            return Ok((o, Vec::new(), c));
        },
        None => {},
    }
    let elements = match parse_run::<T, I>(p) {
        Ok(v) => v,
        Err(e) => {
            proof {
                lemma_advanced_trans(a, b, *p);
            }
            return Err(e);
        },
    };
    let ghost d = *p;
    proof {
        lemma_covers_join(a, b, d, o.start, o.end, elements@[0].start_spec(), elements@.last().end_spec());
    }
    let c = match p.expect(TokenKind::Symbol, close) {
        Ok(t) => t,
        Err(e) => {
            proof {
                lemma_advanced_trans(a, d, *p);
            }
            return Err(e);
        },
    };
    proof {
        lemma_read_one_covers(d, *p, c);
        lemma_covers_join(a, d, *p, o.start, elements@.last().end_spec(), c.start, c.end);
    }
    Ok((o, elements, c))
}

/// An element of [`Sequence`], and a comma after it if one follows.
#[derive(Debug)]
pub struct SeqItem<T> {
    pub item: T,
    pub delimiter: Option<Token>,
}

impl<T: Span> Span for SeqItem<T> {
    open spec fn start_spec(&self) -> Position {
        self.item.start_spec()
    }

    open spec fn end_spec(&self) -> Position {
        match self.delimiter {
            Some(d) => d.end,
            None => self.item.end_spec(),
        }
    }

    fn start_position(&self) -> (r: Position) {
        self.item.start_position()
    }

    fn end_position(&self) -> (r: Position) {
        match &self.delimiter {
            Some(d) => d.end,
            None => self.item.end_position(),
        }
    }
}

impl<T: Span> Delimited for SeqItem<T> {
    open spec fn delimiter_spec(&self) -> Option<Token> {
        self.delimiter
    }

    open spec fn delimiter_ok(&self) -> bool {
        match self.delimiter {
            Some(d) => is_symbol_spec(d, seq![',']),
            None => true,
        }
    }

    fn delimiter_token(&self) -> (r: Option<&Token>) {
        match &self.delimiter {
            Some(d) => Some(d),
            None => None,
        }
    }
}

impl<T: Span> Wrap<T> for SeqItem<T> {
    open spec fn delim_spec() -> Seq<char> {
        seq![',']
    }

    fn delim() -> (r: &'static str) {
        proof {
            reveal_strlit(",");
            assert(","@ =~= seq![',']);
        }
        ","
    }

    fn wrap(x: T, d: Option<Token>) -> (r: Self) {
        SeqItem { item: x, delimiter: d }
    }
}

/// An element of [`Clauses`], and a semicolon after it if one follows.
#[derive(Debug)]
pub struct Clause<T> {
    pub clause: T,
    pub delimiter: Option<Token>,
}

impl<T: Span> Span for Clause<T> {
    open spec fn start_spec(&self) -> Position {
        self.clause.start_spec()
    }

    open spec fn end_spec(&self) -> Position {
        match self.delimiter {
            Some(d) => d.end,
            None => self.clause.end_spec(),
        }
    }

    fn start_position(&self) -> (r: Position) {
        self.clause.start_position()
    }

    fn end_position(&self) -> (r: Position) {
        match &self.delimiter {
            Some(d) => d.end,
            None => self.clause.end_position(),
        }
    }
}

impl<T: Span> Delimited for Clause<T> {
    open spec fn delimiter_spec(&self) -> Option<Token> {
        self.delimiter
    }

    open spec fn delimiter_ok(&self) -> bool {
        match self.delimiter {
            Some(d) => is_symbol_spec(d, seq![';']),
            None => true,
        }
    }

    fn delimiter_token(&self) -> (r: Option<&Token>) {
        match &self.delimiter {
            Some(d) => Some(d),
            None => None,
        }
    }
}

impl<T: Span> Wrap<T> for Clause<T> {
    open spec fn delim_spec() -> Seq<char> {
        seq![';']
    }

    fn delim() -> (r: &'static str) {
        proof {
            reveal_strlit(";");
            assert(";"@ =~= seq![';']);
        }
        ";"
    }

    fn wrap(x: T, d: Option<Token>) -> (r: Self) {
        Clause { clause: x, delimiter: d }
    }
}

/// An element of [`List`], and a comma after it if one follows.
#[derive(Debug)]
pub struct ListElement<T> {
    pub value: T,
    pub delimiter: Option<Token>,
}

impl<T: Span> Span for ListElement<T> {
    open spec fn start_spec(&self) -> Position {
        self.value.start_spec()
    }

    open spec fn end_spec(&self) -> Position {
        match self.delimiter {
            Some(d) => d.end,
            None => self.value.end_spec(),
        }
    }

    fn start_position(&self) -> (r: Position) {
        self.value.start_position()
    }

    fn end_position(&self) -> (r: Position) {
        match &self.delimiter {
            Some(d) => d.end,
            None => self.value.end_position(),
        }
    }
}

impl<T: Span> Delimited for ListElement<T> {
    open spec fn delimiter_spec(&self) -> Option<Token> {
        self.delimiter
    }

    open spec fn delimiter_ok(&self) -> bool {
        match self.delimiter {
            Some(d) => is_symbol_spec(d, seq![',']),
            None => true,
        }
    }

    fn delimiter_token(&self) -> (r: Option<&Token>) {
        match &self.delimiter {
            Some(d) => Some(d),
            None => None,
        }
    }
}

impl<T: Span> Wrap<T> for ListElement<T> {
    open spec fn delim_spec() -> Seq<char> {
        seq![',']
    }

    fn delim() -> (r: &'static str) {
        proof {
            reveal_strlit(",");
            assert(","@ =~= seq![',']);
        }
        ","
    }

    fn wrap(x: T, d: Option<Token>) -> (r: Self) {
        ListElement { value: x, delimiter: d }
    }
}

/// An element of [`Args`], and a comma after it if one follows.
#[derive(Debug)]
pub struct Arg<T> {
    pub arg: T,
    pub delimiter: Option<Token>,
}

impl<T: Span> Span for Arg<T> {
    open spec fn start_spec(&self) -> Position {
        self.arg.start_spec()
    }

    open spec fn end_spec(&self) -> Position {
        match self.delimiter {
            Some(d) => d.end,
            None => self.arg.end_spec(),
        }
    }

    fn start_position(&self) -> (r: Position) {
        self.arg.start_position()
    }

    fn end_position(&self) -> (r: Position) {
        match &self.delimiter {
            Some(d) => d.end,
            None => self.arg.end_position(),
        }
    }
}

impl<T: Span> Delimited for Arg<T> {
    open spec fn delimiter_spec(&self) -> Option<Token> {
        self.delimiter
    }

    open spec fn delimiter_ok(&self) -> bool {
        match self.delimiter {
            Some(d) => is_symbol_spec(d, seq![',']),
            None => true,
        }
    }

    fn delimiter_token(&self) -> (r: Option<&Token>) {
        match &self.delimiter {
            Some(d) => Some(d),
            None => None,
        }
    }
}

impl<T: Span> Wrap<T> for Arg<T> {
    open spec fn delim_spec() -> Seq<char> {
        seq![',']
    }

    fn delim() -> (r: &'static str) {
        proof {
            reveal_strlit(",");
            assert(","@ =~= seq![',']);
        }
        ","
    }

    fn wrap(x: T, d: Option<Token>) -> (r: Self) {
        Arg { arg: x, delimiter: d }
    }
}

/// A non-empty run of elements parted by commas.
#[derive(Debug)]
pub struct Sequence<T> {
    pub items: Vec<SeqItem<T>>,
}

impl<T: Span> Sequence<T> {
    /// There is at least one element; every one but the last is followed by
    /// its delimiter, and the last by nothing.
    pub open spec fn wf(&self) -> bool {
        is_run(self.items@)
    }

    /// The elements, without their delimiters.
    pub open spec fn elements(&self) -> Seq<T> {
        self.items@.map_values(|x: SeqItem<T>| x.item)
    }

    pub fn len(&self) -> (r: usize)
        ensures
            r == self.items@.len(),
    {
        self.items.len()
    }
}

impl<T: Span> Span for Sequence<T> {
    open spec fn start_spec(&self) -> Position {
        if self.items@.len() > 0 {
            self.items@[0].start_spec()
        } else {
            no_position()
        }
    }

    open spec fn end_spec(&self) -> Position {
        if self.items@.len() > 0 {
            self.items@.last().end_spec()
        } else {
            no_position()
        }
    }

    fn start_position(&self) -> (r: Position) {
        if self.items.len() == 0 {
            return Position::new(0, 0, 0);
        }
        self.items[0].start_position()
    }

    fn end_position(&self) -> (r: Position) {
        let n = self.items.len();
        if n == 0 {
            return Position::new(0, 0, 0);
        }
        self.items[n - 1].end_position()
    }
}

impl<T: Parse> Parse for Sequence<T> {
    open spec fn parse_len(s: Seq<Token>) -> Option<nat> {
        run_len::<T>(s, ","@)
    }

    fn parse(p: &mut Parser) -> (r: Result<Self, Error>)
        ensures
            r matches Ok(x) ==> x.wf(),
            r matches Ok(x) ==> x.items@.len() == run_count::<T>(old(p).stream(), ","@),
            old(p).stream().len() == 0 ==> r is Err,
    {
        proof {
            reveal_strlit(",");
            assert(","@ =~= seq![',']);
        }
        match parse_run::<T, SeqItem<T>>(p) {
            Ok(v) => Ok(Sequence { items: v }),
            Err(e) => Err(e),
        }
    }
}

/// A non-empty run of clauses parted by semicolons.
#[derive(Debug)]
pub struct Clauses<T> {
    pub clauses: Vec<Clause<T>>,
}

impl<T: Span> Clauses<T> {
    /// There is at least one element; every one but the last is followed by
    /// its delimiter, and the last by nothing.
    pub open spec fn wf(&self) -> bool {
        is_run(self.clauses@)
    }

    /// The elements, without their delimiters.
    pub open spec fn elements(&self) -> Seq<T> {
        self.clauses@.map_values(|x: Clause<T>| x.clause)
    }

    pub fn len(&self) -> (r: usize)
        ensures
            r == self.clauses@.len(),
    {
        self.clauses.len()
    }
}

impl<T: Span> Span for Clauses<T> {
    open spec fn start_spec(&self) -> Position {
        if self.clauses@.len() > 0 {
            self.clauses@[0].start_spec()
        } else {
            no_position()
        }
    }

    open spec fn end_spec(&self) -> Position {
        if self.clauses@.len() > 0 {
            self.clauses@.last().end_spec()
        } else {
            no_position()
        }
    }

    fn start_position(&self) -> (r: Position) {
        if self.clauses.len() == 0 {
            return Position::new(0, 0, 0);
        }
        self.clauses[0].start_position()
    }

    fn end_position(&self) -> (r: Position) {
        let n = self.clauses.len();
        if n == 0 {
            return Position::new(0, 0, 0);
        }
        self.clauses[n - 1].end_position()
    }
}

impl<T: Parse> Parse for Clauses<T> {
    open spec fn parse_len(s: Seq<Token>) -> Option<nat> {
        run_len::<T>(s, ";"@)
    }

    fn parse(p: &mut Parser) -> (r: Result<Self, Error>)
        ensures
            r matches Ok(x) ==> x.wf(),
            r matches Ok(x) ==> x.clauses@.len() == run_count::<T>(old(p).stream(), ";"@),
            old(p).stream().len() == 0 ==> r is Err,
    {
        proof {
            reveal_strlit(";");
            assert(";"@ =~= seq![';']);
        }
        match parse_run::<T, Clause<T>>(p) {
            Ok(v) => Ok(Clauses { clauses: v }),
            Err(e) => Err(e),
        }
    }
}

/// A list in square brackets: `[]`, or elements parted by commas.
#[derive(Debug)]
pub struct List<T> {
    pub open: Token,
    pub elements: Vec<ListElement<T>>,
    pub close: Token,
}

impl<T: Span> List<T> {
    /// The brackets are `[` and `]`, and the elements between them are
    /// none, or a run parted by commas.
    pub open spec fn wf(&self) -> bool {
        &&& is_symbol_spec(self.open, seq!['['])
        &&& is_symbol_spec(self.close, seq![']'])
        &&& self.elements@.len() == 0 || is_run(self.elements@)
    }

    pub fn len(&self) -> (r: usize)
        ensures
            r == self.elements@.len(),
    {
        self.elements.len()
    }
}

impl<T> Span for List<T> {
    open spec fn start_spec(&self) -> Position {
        self.open.start
    }

    open spec fn end_spec(&self) -> Position {
        self.close.end
    }

    fn start_position(&self) -> (r: Position) {
        self.open.start
    }

    fn end_position(&self) -> (r: Position) {
        self.close.end
    }
}

impl<T: Parse> Parse for List<T> {
    open spec fn parse_len(s: Seq<Token>) -> Option<nat> {
        brack_len::<T>(s, "["@, "]"@)
    }

    fn parse(p: &mut Parser) -> (r: Result<Self, Error>)
        ensures
            r matches Ok(x) ==> x.elements@.len() == brack_count::<T>(old(p).stream(), "]"@),
            r matches Ok(x) ==> x.wf(),
            old(p).stream().len() >= 2 && is_symbol_spec(old(p).stream()[0], seq!['['])
                && is_symbol_spec(old(p).stream()[1], seq![']']) ==> r is Ok && r->Ok_0.elements@.len() == 0

    {
        proof {
            reveal_strlit("[");
            reveal_strlit("]");
            assert("["@ =~= seq!['[']);
            assert("]"@ =~= seq![']']);
            reveal_strlit(",");
            assert(","@ =~= seq![',']);
        }
        match parse_bracketed::<T, ListElement<T>>(p, "[", "]") {
            Ok((open, elements, close)) => Ok(List { open, elements, close }),
            Err(e) => Err(e),
        }
    }
}

/// An argument list in parentheses: `()`, or arguments parted by commas.
#[derive(Debug)]
pub struct Args<T> {
    pub open: Token,
    pub args: Vec<Arg<T>>,
    pub close: Token,
}

impl<T: Span> Args<T> {
    /// The brackets are `(` and `)`, and the elements between them are
    /// none, or a run parted by commas.
    pub open spec fn wf(&self) -> bool {
        &&& is_symbol_spec(self.open, seq!['('])
        &&& is_symbol_spec(self.close, seq![')'])
        &&& self.args@.len() == 0 || is_run(self.args@)
    }

    pub fn len(&self) -> (r: usize)
        ensures
            r == self.args@.len(),
    {
        self.args.len()
    }
}

impl<T> Span for Args<T> {
    open spec fn start_spec(&self) -> Position {
        self.open.start
    }

    open spec fn end_spec(&self) -> Position {
        self.close.end
    }

    fn start_position(&self) -> (r: Position) {
        self.open.start
    }

    fn end_position(&self) -> (r: Position) {
        self.close.end
    }
}

impl<T: Parse> Parse for Args<T> {
    open spec fn parse_len(s: Seq<Token>) -> Option<nat> {
        brack_len::<T>(s, "("@, ")"@)
    }

    fn parse(p: &mut Parser) -> (r: Result<Self, Error>)
        ensures
            r matches Ok(x) ==> x.args@.len() == brack_count::<T>(old(p).stream(), ")"@),
            r matches Ok(x) ==> x.wf(),
            old(p).stream().len() >= 2 && is_symbol_spec(old(p).stream()[0], seq!['('])
                && is_symbol_spec(old(p).stream()[1], seq![')']) ==> r is Ok && r->Ok_0.args@.len() == 0

    {
        proof {
            reveal_strlit("(");
            reveal_strlit(")");
            assert("("@ =~= seq!['(']);
            assert(")"@ =~= seq![')']);
            reveal_strlit(",");
            assert(","@ =~= seq![',']);
        }
        match parse_bracketed::<T, Arg<T>>(p, "(", ")") {
            Ok((open, args, close)) => Ok(Args { open, args, close }),
            Err(e) => Err(e),
        }
    }
}

/// An atom.
#[derive(Debug)]
pub struct Atom {
    pub token: Token,
}

impl Atom {
    /// The token, which is of class `Atom`.
    pub fn token(&self) -> (r: &Token)
        ensures
            *r == self.token,
    {
        &self.token
    }

    /// What the token denotes.
    pub fn value(&self) -> (r: &String)
        ensures
            *r == self.token.value,
    {
        &self.token.value
    }
}

impl Span for Atom {
    open spec fn start_spec(&self) -> Position {
        self.token.start
    }

    open spec fn end_spec(&self) -> Position {
        self.token.end
    }

    fn start_position(&self) -> (r: Position) {
        self.token.start
    }

    fn end_position(&self) -> (r: Position) {
        self.token.end
    }
}

impl Parse for Atom {
    open spec fn parse_len(s: Seq<Token>) -> Option<nat> {
        if kind_at(s, 0, TokenKind::Atom) {
            Some(1)
        } else {
            None
        }
    }

    fn parse(p: &mut Parser) -> (r: Result<Self, Error>)
        ensures
            r is Ok <==> old(p).stream().len() > 0 && old(p).stream()[0].kind == TokenKind::Atom,
            r matches Ok(x) ==> x.token == old(p).stream()[0],
    {
        let ghost a = *p;
        match p.parse_token(TokenKind::Atom) {
            Ok(t) => {
                proof {
                    lemma_read_one_covers(a, *p, t);
                }
                Ok(Atom { token: t })
            },
            Err(e) => Err(e),
        }
    }
}

impl Expect for Atom {
    open spec fn denotes_spec(&self, expected: Seq<char>) -> bool {
        self.token.value@ == expected
    }

    fn expect(&self, expected: &str) -> (r: Result<(), Error>) {
        self.token.expect(expected)
    }
}

/// An integer literal.
#[derive(Debug)]
pub struct Integer {
    pub token: Token,
}

impl Integer {
    /// The token, which is of class `Integer`.
    pub fn token(&self) -> (r: &Token)
        ensures
            *r == self.token,
    {
        &self.token
    }

    /// What the token denotes.
    pub fn value(&self) -> (r: &String)
        ensures
            *r == self.token.value,
    {
        &self.token.value
    }
}

impl Span for Integer {
    open spec fn start_spec(&self) -> Position {
        self.token.start
    }

    open spec fn end_spec(&self) -> Position {
        self.token.end
    }

    fn start_position(&self) -> (r: Position) {
        self.token.start
    }

    fn end_position(&self) -> (r: Position) {
        self.token.end
    }
}

impl Parse for Integer {
    open spec fn parse_len(s: Seq<Token>) -> Option<nat> {
        if kind_at(s, 0, TokenKind::Integer) {
            Some(1)
        } else {
            None
        }
    }

    fn parse(p: &mut Parser) -> (r: Result<Self, Error>)
        ensures
            r is Ok <==> old(p).stream().len() > 0 && old(p).stream()[0].kind == TokenKind::Integer,
            r matches Ok(x) ==> x.token == old(p).stream()[0],
    {
        let ghost a = *p;
        match p.parse_token(TokenKind::Integer) {
            Ok(t) => {
                proof {
                    lemma_read_one_covers(a, *p, t);
                }
                Ok(Integer { token: t })
            },
            Err(e) => Err(e),
        }
    }
}

impl Expect for Integer {
    open spec fn denotes_spec(&self, expected: Seq<char>) -> bool {
        self.token.value@ == expected
    }

    fn expect(&self, expected: &str) -> (r: Result<(), Error>) {
        self.token.expect(expected)
    }
}

/// A module name and the colon after it: `m:`.
#[derive(Debug)]
pub struct ModuleAtom {
    pub module_name: Atom,
    pub colon: Token,
}

impl Span for ModuleAtom {
    open spec fn start_spec(&self) -> Position {
        self.module_name.token.start
    }

    open spec fn end_spec(&self) -> Position {
        self.colon.end
    }

    fn start_position(&self) -> (r: Position) {
        self.module_name.token.start
    }

    fn end_position(&self) -> (r: Position) {
        self.colon.end
    }
}

impl Parse for ModuleAtom {
    open spec fn parse_len(s: Seq<Token>) -> Option<nat> {
        if kind_at(s, 0, TokenKind::Atom) && sym_at(s, 1, ":"@) {
            Some(2)
        } else {
            None
        }
    }

    fn parse(p: &mut Parser) -> (r: Result<Self, Error>)
        ensures
            r matches Ok(x) ==> is_symbol_spec(x.colon, ":"@) && x.module_name.token == old(p).stream()[0]
                && x.colon == old(p).stream()[1],
    {
        let ghost a = *p;
        let module_name = match Atom::parse(p) {
            Ok(x) => x,
            Err(e) => {
                return Err(e);
            },
        };
        let ghost b = *p;
        let colon = match p.expect(TokenKind::Symbol, ":") {
            Ok(t) => t,
            Err(e) => {
                proof {
                    lemma_advanced_trans(a, b, *p);
                }
                return Err(e);
            },
        };
        proof {
            lemma_read_one_covers(b, *p, colon);
            lemma_covers_join(a, b, *p, module_name.token.start, module_name.token.end, colon.start, colon.end);
        }
        Ok(ModuleAtom { module_name, colon })
    }
}

/// An exported function: `name/arity`.
#[derive(Debug)]
pub struct Export {
    pub name: Atom,
    pub delimiter: Token,
    pub arity: Integer,
}

impl Span for Export {
    open spec fn start_spec(&self) -> Position {
        self.name.token.start
    }

    open spec fn end_spec(&self) -> Position {
        self.arity.token.end
    }

    fn start_position(&self) -> (r: Position) {
        self.name.token.start
    }

    fn end_position(&self) -> (r: Position) {
        self.arity.token.end
    }
}

impl Parse for Export {
    open spec fn parse_len(s: Seq<Token>) -> Option<nat> {
        if kind_at(s, 0, TokenKind::Atom) && sym_at(s, 1, "/"@) && kind_at(s, 2, TokenKind::Integer) {
            Some(3)
        } else {
            None
        }
    }

    fn parse(p: &mut Parser) -> (r: Result<Self, Error>)
        ensures
            r matches Ok(x) ==> is_symbol_spec(x.delimiter, "/"@) && x.name.token == old(p).stream()[0]
                && x.delimiter == old(p).stream()[1] && x.arity.token == old(p).stream()[2],
    {
        let ghost a = *p;
        let name = match Atom::parse(p) {
            Ok(x) => x,
            Err(e) => {
                return Err(e);
            },
        };
        let ghost b = *p;
        let delimiter = match p.expect(TokenKind::Symbol, "/") {
            Ok(t) => t,
            Err(e) => {
                proof {
                    lemma_advanced_trans(a, b, *p);
                }
                return Err(e);
            },
        };
        let ghost c = *p;
        proof {
            lemma_read_one_covers(b, c, delimiter);
            lemma_covers_join(a, b, c, name.token.start, name.token.end, delimiter.start, delimiter.end);
        }
        let arity = match Integer::parse(p) {
            Ok(x) => x,
            Err(e) => {
                proof {
                    lemma_advanced_trans(a, c, *p);
                }
                return Err(e);
            },
        };
        proof {
            lemma_covers_join(a, c, *p, name.token.start, delimiter.end, arity.token.start, arity.token.end);
        }
        Ok(Export { name, delimiter, arity })
    }
}

} // verus!
