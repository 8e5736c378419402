//! Expressions, parsed primary first and then, on one token of lookahead,
//! wrapped into a call.

use vstd::prelude::*;
use crate::token::{Position, Token, TokenKind, is_symbol_spec};
use crate::error::{Error, ErrorKind};
use crate::parser::{Parser, advanced, covers, unchanged, consumed, lemma_advanced_refl,
    lemma_advanced_trans, lemma_abort_restores, lemma_unchanged_advanced, lemma_read_one_covers,
    lemma_covers_join, lemma_covers_then_nothing, lemma_nothing_then_covers};
use crate::traits::{Parse, Span};
use crate::primitives::{lemma_after_after, Arg, Args, Delimited, List, ListElement, SeqItem,
    Sequence, Wrap, is_run};
use crate::cst::{is_literal_kind, LeftKind, Literal, Pattern, RightKind, right_kind_of, classifies,
    starts_pattern, unclassified, is_symbol_hash};
use crate::error::{fails_eos, fails_invalid, fails_unexpected};
use crate::parser::{read_one, parsed_as, after, sym_at, kw_at, kind_at};

verus! {

/// An expression.
#[derive(Debug)]
pub enum Expr {
    Literal(Literal),
    Variable(Token),
    Tuple(Box<Tuple>),
    MapExpr(Box<MapExpr>),
    Record(Box<Record>),
    List(Box<List<Expr>>),
    ListComprehension(Box<ListComprehension>),
    Block(Box<Block>),
    Parenthesized(Box<Parenthesized>),
    Catch(Box<Catch>),
    LocalCall(Box<LocalCall>),
    RemoteCall(Box<RemoteCall>),
}

/// `{` elements `}`
#[derive(Debug)]
pub struct Tuple {
    pub open: Token,
    pub elements: Vec<ListElement<Expr>>,
    pub close: Token,
}

/// `#` `{` fields `}`, each field `key => value`
#[derive(Debug)]
pub struct MapExpr {
    pub sharp: Token,
    pub open: Token,
    pub fields: Vec<ListElement<Binding>>,
    pub close: Token,
}

/// `#` name `{` fields `}`, each field `name = value`
#[derive(Debug)]
pub struct Record {
    pub sharp: Token,
    pub name: Token,
    pub open: Token,
    pub fields: Vec<ListElement<Binding>>,
    pub close: Token,
}

/// `[` element `||` generators `]`, each generator `pattern <- source`
#[derive(Debug)]
pub struct ListComprehension {
    pub open: Token,
    pub element: Expr,
    pub bar: Token,
    pub qualifiers: Vec<ListElement<Binding>>,
    pub close: Token,
}

/// `begin` body `end`
#[derive(Debug)]
pub struct Block {
    pub begin: Token,
    pub body: Sequence<Expr>,
    pub end: Token,
}

/// `(` expression `)`
#[derive(Debug)]
pub struct Parenthesized {
    pub open: Token,
    pub expr: Expr,
    pub close: Token,
}

/// `catch` expression
#[derive(Debug)]
pub struct Catch {
    pub catch: Token,
    pub expr: Expr,
}

/// function `(` arguments `)`
#[derive(Debug)]
pub struct LocalCall {
    pub function: Expr,
    pub args: Args<Expr>,
}

/// module `:` function `(` arguments `)`
#[derive(Debug)]
pub struct RemoteCall {
    pub module: Expr,
    pub colon: Token,
    pub function: Expr,
    pub args: Args<Expr>,
}

/// `left op right`: a map field (`=>`), a record field (`=`, its left an
/// atom), or a generator (`<-`, its left a pattern).
#[derive(Debug)]
pub struct Binding {
    pub left: Expr,
    pub op: Token,
    pub right: Expr,
}

/// The three uses of a [`Binding`].
#[derive(Clone, Copy, Debug, PartialEq, Eq, Structural)]
pub enum BindingKind {
    MapField,
    RecordField,
    Generator,
}

pub open spec fn expr_start(e: Expr) -> Position
    decreases e,
{
    match e {
        Expr::Literal(l) => l.start_spec(),
        Expr::Variable(t) => t.start,
        Expr::Tuple(x) => x.open.start,
        Expr::MapExpr(x) => x.sharp.start,
        Expr::Record(x) => x.sharp.start,
        Expr::List(x) => x.open.start,
        Expr::ListComprehension(x) => x.open.start,
        Expr::Block(x) => x.begin.start,
        Expr::Parenthesized(x) => x.open.start,
        Expr::Catch(x) => x.catch.start,
        Expr::LocalCall(x) => expr_start(x.function),
        Expr::RemoteCall(x) => expr_start(x.module),
    }
}

pub open spec fn expr_end(e: Expr) -> Position
    decreases e,
{
    match e {
        Expr::Literal(l) => l.end_spec(),
        Expr::Variable(t) => t.end,
        Expr::Tuple(x) => x.close.end,
        Expr::MapExpr(x) => x.close.end,
        Expr::Record(x) => x.close.end,
        Expr::List(x) => x.close.end,
        Expr::ListComprehension(x) => x.close.end,
        Expr::Block(x) => x.end.end,
        Expr::Parenthesized(x) => x.close.end,
        Expr::Catch(x) => expr_end(x.expr),
        Expr::LocalCall(x) => x.args.close.end,
        Expr::RemoteCall(x) => x.args.close.end,
    }
}

fn start_of(e: &Expr) -> (r: Position)
    ensures
        r == expr_start(*e),
    decreases e,
{
    match e {
        Expr::Literal(l) => l.start_position(),
        Expr::Variable(t) => t.start,
        Expr::Tuple(x) => x.open.start,
        Expr::MapExpr(x) => x.sharp.start,
        Expr::Record(x) => x.sharp.start,
        Expr::List(x) => x.open.start,
        Expr::ListComprehension(x) => x.open.start,
        Expr::Block(x) => x.begin.start,
        Expr::Parenthesized(x) => x.open.start,
        Expr::Catch(x) => x.catch.start,
        Expr::LocalCall(x) => start_of(&x.function),
        Expr::RemoteCall(x) => start_of(&x.module),
    }
}

fn end_of(e: &Expr) -> (r: Position)
    ensures
        r == expr_end(*e),
    decreases e,
{
    match e {
        Expr::Literal(l) => l.end_position(),
        Expr::Variable(t) => t.end,
        Expr::Tuple(x) => x.close.end,
        Expr::MapExpr(x) => x.close.end,
        Expr::Record(x) => x.close.end,
        Expr::List(x) => x.close.end,
        Expr::ListComprehension(x) => x.close.end,
        Expr::Block(x) => x.end.end,
        Expr::Parenthesized(x) => x.close.end,
        Expr::Catch(x) => end_of(&x.expr),
        Expr::LocalCall(x) => x.args.close.end,
        Expr::RemoteCall(x) => x.args.close.end,
    }
}

impl Span for Expr {
    open spec fn start_spec(&self) -> Position {
        expr_start(*self)
    }

    open spec fn end_spec(&self) -> Position {
        expr_end(*self)
    }

    fn start_position(&self) -> (r: Position) {
        start_of(self)
    }

    fn end_position(&self) -> (r: Position) {
        end_of(self)
    }
}

impl Span for Binding {
    open spec fn start_spec(&self) -> Position {
        expr_start(self.left)
    }

    open spec fn end_spec(&self) -> Position {
        expr_end(self.right)
    }

    fn start_position(&self) -> (r: Position) {
        start_of(&self.left)
    }

    fn end_position(&self) -> (r: Position) {
        end_of(&self.right)
    }
}

/// The operator of a binding of `kind`.
pub open spec fn op_of(kind: BindingKind) -> Seq<char> {
    match kind {
        BindingKind::MapField => "=>"@,
        BindingKind::RecordField => "="@,
        BindingKind::Generator => "<-"@,
    }
}

/// The grammar of an expression: a primary, then the argument list of a
/// local call if `(` follows, or `:`, a primary and an argument list if `:`
/// follows. It gives how many tokens at the head of `s` the expression
/// takes, or `None` where no expression starts `s`.
pub open spec fn expr_len(s: Seq<Token>) -> Option<nat>
    decreases s.len(), 4int,
{
    match primary_len(s) {
        None => None,
        Some(n) => if n > s.len() {
            None
        } else if sym_at(s.skip(n as int), 0, "("@) {
            after(expr_brack(s.skip(n as int), "("@, ")"@), n)
        } else if sym_at(s.skip(n as int), 0, ":"@) {
            match primary_len(s.skip(n + 1int)) {
                Some(k) => if k > s.skip(n + 1int).len() {
                    None
                } else {
                    after(expr_brack(s.skip(n + 1int).skip(k as int), "("@, ")"@), n + 1 + k)
                },
                None => None,
            }
        } else {
            Some(n)
        },
    }
}

/// The grammar of a primary expression, by the shape its first tokens
/// give.
#[verifier::opaque]
pub open spec fn primary_len(s: Seq<Token>) -> Option<nat>
    decreases s.len(), 3int,
{
    if s.len() == 0 {
        None
    } else if s[0].kind == TokenKind::Symbol {
        if s[0].value@ == "{"@ {
            expr_brack(s, "{"@, "}"@)
        } else if s[0].value@ == "("@ {
            paren_len(s)
        } else if s[0].value@ == "["@ {
            if comprehension_at(s) {
                comp_len(s)
            } else {
                expr_brack(s, "["@, "]"@)
            }
        } else if s[0].value@ == "#"@ {
            if kind_at(s, 1, TokenKind::Atom) {
                record_len(s)
            } else if s.len() > 1 {
                map_len(s)
            } else {
                None
            }
        } else {
            None
        }
    } else if s[0].kind == TokenKind::Keyword {
        if s[0].value@ == "begin"@ {
            block_len(s)
        } else if s[0].value@ == "catch"@ {
            catch_len(s)
        } else {
            None
        }
    } else {
        Some(1)
    }
}

/// `s` starts with `[`, one expression, and `||`.
pub open spec fn comprehension_at(s: Seq<Token>) -> bool
    decreases s.len(), 2int,
{
    s.len() > 0 && match expr_len(s.skip(1)) {
        Some(n) => sym_at(s.skip(1), n as int, "||"@),
        None => false,
    }
}

/// `(` expression `)`
pub open spec fn paren_len(s: Seq<Token>) -> Option<nat>
    decreases s.len(), 2int,
{
    if !sym_at(s, 0, "("@) {
        None
    } else {
        match expr_len(s.skip(1)) {
            Some(n) => if sym_at(s.skip(1), n as int, ")"@) {
                Some(n + 2)
            } else {
                None
            },
            None => None,
        }
    }
}

/// `catch` expression
pub open spec fn catch_len(s: Seq<Token>) -> Option<nat>
    decreases s.len(), 2int,
{
    if kw_at(s, 0, "catch"@) {
        after(expr_len(s.skip(1)), 1)
    } else {
        None
    }
}

/// `begin` expressions parted by commas `end`
pub open spec fn block_len(s: Seq<Token>) -> Option<nat>
    decreases s.len(), 2int,
{
    if !kw_at(s, 0, "begin"@) {
        None
    } else {
        match expr_run(s.skip(1)) {
            Some(m) => if kw_at(s.skip(1), m as int, "end"@) {
                Some(m + 2)
            } else {
                None
            },
            None => None,
        }
    }
}

/// `#` `{` map fields `}`
pub open spec fn map_len(s: Seq<Token>) -> Option<nat>
    decreases s.len(), 2int,
{
    if sym_at(s, 0, "#"@) {
        after(binding_brack(s.skip(1), BindingKind::MapField, "{"@, "}"@), 1)
    } else {
        None
    }
}

/// `#` atom `{` record fields `}`
pub open spec fn record_len(s: Seq<Token>) -> Option<nat>
    decreases s.len(), 2int,
{
    if sym_at(s, 0, "#"@) && kind_at(s, 1, TokenKind::Atom) {
        after(binding_brack(s.skip(2), BindingKind::RecordField, "{"@, "}"@), 2)
    } else {
        None
    }
}

/// `[` expression `||` generators parted by commas `]`
pub open spec fn comp_len(s: Seq<Token>) -> Option<nat>
    decreases s.len(), 2int,
{
    if !sym_at(s, 0, "["@) {
        None
    } else {
        match expr_len(s.skip(1)) {
            Some(n) => if !sym_at(s.skip(1), n as int, "||"@) {
                None
            } else {
                match binding_run(s.skip(n + 2int), BindingKind::Generator) {
                    Some(m) => if sym_at(s.skip(n + 2int), m as int, "]"@) {
                        Some(n + m + 3)
                    } else {
                        None
                    },
                    None => None,
                }
            },
            None => None,
        }
    }
}

/// Expressions parted by commas.
pub open spec fn expr_run(s: Seq<Token>) -> Option<nat>
    decreases s.len(), 5int,
{
    match expr_len(s) {
        Some(n) => if n < s.len() && is_symbol_spec(s[n as int], ","@) {
            after(expr_run(s.skip(n + 1int)), n + 1)
        } else {
            Some(n)
        },
        None => None,
    }
}

/// `s` opens `o`, holds a complete run of expressions, and ends there,
/// before any closing bracket.
pub open spec fn brack_runs_out(s: Seq<Token>, o: Seq<char>, c: Seq<char>) -> bool {
    &&& sym_at(s, 0, o)
    &&& !sym_at(s, 1, c)
    &&& expr_run(s.skip(1)) is Some
    &&& s.len() == expr_run(s.skip(1))->Some_0 + 1
}

/// `s` runs out inside a tuple or a list at its head, or inside the
/// argument list of a local call on the primary at its head.
pub open spec fn expr_runs_out(s: Seq<Token>) -> bool {
    ||| brack_runs_out(s, "{"@, "}"@)
    ||| brack_runs_out(s, "["@, "]"@) && !comprehension_at(s)
    ||| primary_len(s) matches Some(n) && n <= s.len() && brack_runs_out(s.skip(n as int), "("@, ")"@)
}

/// How many expressions the run at the head of `s` holds.
pub open spec fn expr_run_count(s: Seq<Token>) -> nat
    decreases s.len(),
{
    match expr_len(s) {
        Some(n) => if n < s.len() && is_symbol_spec(s[n as int], ","@) {
            1 + expr_run_count(s.skip(n + 1int))
        } else {
            1
        },
        None => 0,
    }
}

/// How many expressions stand between the brackets at the head of `s`.
pub open spec fn expr_brack_count(s: Seq<Token>, c: Seq<char>) -> nat {
    if sym_at(s, 1, c) {
        0
    } else {
        expr_run_count(s.skip(1))
    }
}

/// How many bindings of `kind` the run at the head of `s` holds.
pub open spec fn binding_run_count(s: Seq<Token>, kind: BindingKind) -> nat
    decreases s.len(),
{
    match binding_len(s, kind) {
        Some(n) => if n < s.len() && is_symbol_spec(s[n as int], ","@) {
            1 + binding_run_count(s.skip(n + 1int), kind)
        } else {
            1
        },
        None => 0,
    }
}

/// How many bindings of `kind` stand between the brackets at the head of
/// `s`.
pub open spec fn binding_brack_count(s: Seq<Token>, kind: BindingKind, c: Seq<char>) -> nat {
    if sym_at(s, 1, c) {
        0
    } else {
        binding_run_count(s.skip(1), kind)
    }
}

/// What a primary expression parsed from `s` holds, beyond its shape: the
/// token of a literal or variable, the name of a record, how many elements
/// a list or tuple has.
pub open spec fn primary_detail(s: Seq<Token>, e: Expr) -> bool {
    match e {
        Expr::Literal(l) => s.len() > 0 && l.token_spec() == s[0] && l.kind_spec() == s[0].kind,
        Expr::Variable(t) => s.len() > 0 && t == s[0],
        Expr::Tuple(x) => x.elements@.len() == expr_brack_count(s, "}"@),
        Expr::List(x) => x.elements@.len() == expr_brack_count(s, "]"@),
        Expr::Record(x) => s.len() > 1 && x.name == s[1] && x.fields@.len() == binding_brack_count(
            s.skip(2),
            BindingKind::RecordField,
            "}"@,
        ),
        Expr::MapExpr(x) => x.fields@.len() == binding_brack_count(s.skip(1), BindingKind::MapField, "}"@),
        Expr::ListComprehension(x) => x.qualifiers@.len() == binding_run_count(
            s.skip(expr_len(s.skip(1))->Some_0 + 2int),
            BindingKind::Generator,
        ),
        _ => true,
    }
}

/// The primary expression `e` parsed from `s` has the shape that `s` is
/// classified as, and holds what `primary_detail` says.
pub open spec fn primary_is(s: Seq<Token>, e: Expr) -> bool {
    (exists|k: LeftKind| classifies(s, k) && shape_of(e, k)) && primary_detail(s, e)
}

/// What an expression parsed from `s` is: a local call when `(` follows the
/// primary at its head, a remote call when `:` follows it, that primary
/// otherwise; with the primaries, and the number of arguments, that the
/// grammar reads.
pub open spec fn expr_detail(s: Seq<Token>, e: Expr) -> bool {
    let n = primary_len(s)->Some_0;
    let t = s.skip(n as int);
    match e {
        Expr::LocalCall(c) => sym_at(t, 0, "("@) && primary_is(s, c.function)
            && c.args.args@.len() == expr_brack_count(t, ")"@),
        Expr::RemoteCall(c) => {
            let u = s.skip(n + 1int);
            let k = primary_len(u)->Some_0;
            sym_at(t, 0, ":"@) && primary_is(s, c.module) && primary_is(u, c.function)
                && c.args.args@.len() == expr_brack_count(u.skip(k as int), ")"@)
        },
        _ => !sym_at(t, 0, "("@) && !sym_at(t, 0, ":"@) && primary_is(s, e),
    }
}

/// `o`, then `c` at once, or expressions parted by commas and `c`.
pub open spec fn expr_brack(s: Seq<Token>, o: Seq<char>, c: Seq<char>) -> Option<nat>
    decreases s.len(), 1int,
{
    if !sym_at(s, 0, o) {
        None
    } else if sym_at(s, 1, c) {
        Some(2)
    } else {
        match expr_run(s.skip(1)) {
            Some(m) => if sym_at(s.skip(1), m as int, c) {
                Some(m + 2)
            } else {
                None
            },
            None => None,
        }
    }
}

/// `left op right`, the left and the operator as `kind` asks.
pub open spec fn binding_len(s: Seq<Token>, kind: BindingKind) -> Option<nat>
    decreases s.len(), 6int,
{
    let left = match kind {
        BindingKind::MapField => expr_len(s),
        BindingKind::RecordField => if kind_at(s, 0, TokenKind::Atom) {
            Some(1nat)
        } else {
            None
        },
        BindingKind::Generator => if s.len() > 0 && starts_pattern(s[0]) {
            Some(1nat)
        } else {
            None
        },
    };
    match left {
        Some(n) => if sym_at(s, n as int, op_of(kind)) {
            after(expr_len(s.skip(n + 1int)), n + 1)
        } else {
            None
        },
        None => None,
    }
}

/// Bindings of `kind` parted by commas.
pub open spec fn binding_run(s: Seq<Token>, kind: BindingKind) -> Option<nat>
    decreases s.len(), 7int,
{
    match binding_len(s, kind) {
        Some(n) => if n < s.len() && is_symbol_spec(s[n as int], ","@) {
            after(binding_run(s.skip(n + 1int), kind), n + 1)
        } else {
            Some(n)
        },
        None => None,
    }
}

/// `o`, then `c` at once, or bindings of `kind` parted by commas and `c`.
pub open spec fn binding_brack(s: Seq<Token>, kind: BindingKind, o: Seq<char>, c: Seq<char>) -> Option<nat>
    decreases s.len(), 1int,
{
    if !sym_at(s, 0, o) {
        None
    } else if sym_at(s, 1, c) {
        Some(2)
    } else {
        match binding_run(s.skip(1), kind) {
            Some(m) => if sym_at(s.skip(1), m as int, c) {
                Some(m + 2)
            } else {
                None
            },
            None => None,
        }
    }
}

/// The grammar of the shape `k`.
pub open spec fn shape_len(s: Seq<Token>, k: LeftKind) -> Option<nat> {
    match k {
        LeftKind::Literal => Some(1),
        LeftKind::Variable => Some(1),
        LeftKind::Tuple => expr_brack(s, "{"@, "}"@),
        LeftKind::MapExpr => map_len(s),
        LeftKind::Record => record_len(s),
        LeftKind::List => expr_brack(s, "["@, "]"@),
        LeftKind::ListComprehension => comp_len(s),
        LeftKind::Block => block_len(s),
        LeftKind::Parenthesized => paren_len(s),
        LeftKind::Catch => catch_len(s),
    }
}

/// A primary expression is read as the shape that its first tokens
/// classify it as, and no shape is read where they classify none.
pub proof fn lemma_primary_by_shape(s: Seq<Token>, k: LeftKind)
    ensures
        classifies(s, k) ==> primary_len(s) == shape_len(s, k),
        unclassified(s) ==> primary_len(s) is None,
{
    reveal(primary_len);
    reveal_strlit("{");
    reveal_strlit("(");
    reveal_strlit("[");
    reveal_strlit("#");
    reveal_strlit("begin");
    reveal_strlit("catch");
    assert("{"@ =~= seq!['{']);
    assert("("@ =~= seq!['(']);
    assert("["@ =~= seq!['[']);
    assert("#"@ =~= seq!['#']);
    assert("begin"@ =~= seq!['b', 'e', 'g', 'i', 'n']);
    assert("catch"@ =~= seq!['c', 'a', 't', 'c', 'h']);
    assert("begin"@[0] != "catch"@[0]);
    assert("{"@[0] != "#"@[0] && "("@[0] != "#"@[0] && "["@[0] != "#"@[0]);
    assert("{"@[0] != "["@[0] && "("@[0] != "["@[0] && "{"@[0] != "("@[0]);
}

/// A stream that opens with `{` is a tuple, and one that opens with `[` a
/// list or a comprehension; neither is left unclassified.
pub proof fn lemma_open_bracket_kind(s: Seq<Token>, k: LeftKind)
    ensures
        sym_at(s, 0, "{"@) || sym_at(s, 0, "["@) ==> !unclassified(s),
        sym_at(s, 0, "{"@) && classifies(s, k) ==> k == LeftKind::Tuple,
        sym_at(s, 0, "["@) && classifies(s, k) && !comprehension_at(s) ==> k == LeftKind::List,
{
    reveal_strlit("{");
    reveal_strlit("(");
    reveal_strlit("[");
    reveal_strlit("#");
    assert("{"@ =~= seq!['{']);
    assert("("@ =~= seq!['(']);
    assert("["@ =~= seq!['[']);
    assert("#"@ =~= seq!['#']);
    assert("{"@[0] != "#"@[0] && "("@[0] != "#"@[0] && "["@[0] != "#"@[0]);
    assert("{"@[0] != "["@[0] && "("@[0] != "["@[0] && "{"@[0] != "("@[0]);
}

/// The expression that stands for a pattern: the same literal or variable.
fn pattern_expr(pat: Pattern) -> (r: Expr)
    ensures
        expr_start(r) == pat.token_spec().start,
        expr_end(r) == pat.token_spec().end,
{
    match pat {
        Pattern::Literal(l) => Expr::Literal(l),
        Pattern::Variable(t) => Expr::Variable(t),
    }
}

impl Expr {
    /// Parses expressions for as long as each is followed by the delimiter
    /// of `I`.
    #[verifier::spinoff_prover]
    #[verifier::rlimit(100)]
    fn parse_expr_run<I: Wrap<Expr>>(p: &mut Parser) -> (r: Result<Vec<I>, Error>)
        requires
            I::delim_spec() == ","@,
        ensures
            advanced(*old(p), *final(p)),
            r matches Ok(v) ==> v@.len() == expr_run_count(old(p).stream()),
            parsed_as(*old(p), *final(p), r is Ok, expr_run(old(p).stream())),
            r matches Ok(v) ==> is_run(v@) && covers(
                *old(p),
                *final(p),
                v@[0].start_spec(),
                v@.last().end_spec(),
            ),
        decreases old(p).stream().len(), 6int,
    {
        let ghost a = *p;
        let delim = I::delim();
        let mut items: Vec<I> = Vec::new();
        let mut done = false;
        proof {
            lemma_advanced_refl(a);
        }
        while !done
            invariant
                a == *old(p),
                advanced(a, *p),
                delim@ == I::delim_spec(),
                I::delim_spec() == ","@,
                !done ==> expr_run(a.stream()) == after(expr_run(p.stream()), consumed(a, *p).len()),
                done ==> expr_run(a.stream()) == Some(consumed(a, *p).len()),
                !done ==> expr_run_count(a.stream()) == items@.len() + expr_run_count(p.stream()),
                done ==> expr_run_count(a.stream()) == items@.len(),
                items@.len() == 0 ==> consumed(a, *p).len() == 0 && !done,
                items@.len() > 0 ==> covers(a, *p, items@[0].start_spec(), items@.last().end_spec()),
                done == (items@.len() > 0 && items@.last().delimiter_spec() is None),
                forall|i: int| 0 <= i < items@.len() - 1 ==> (#[trigger] items@[i].delimiter_spec()) is Some,
                forall|i: int| 0 <= i < items@.len() ==> (#[trigger] items@[i]).delimiter_ok(),
            decreases p.stream().len(),
        {
            let ghost b = *p;
            let ghost t = p.stream();
            let x = match Expr::parse_expr(p) {
                Ok(x) => x,
                Err(e) => {
                    proof {
                        lemma_advanced_trans(a, b, *p);
                    }
                    return Err(e);
                },
            };
            let ghost c = *p;
            let d = p.try_symbol(delim);
            proof {
                match d {
                    Some(ref t) => {
                        lemma_read_one_covers(c, *p, *t);
                        lemma_covers_join(b, c, *p, expr_start(x), expr_end(x), t.start, t.end);
                    },
                    None => {
                        lemma_unchanged_advanced(c, *p);
                        lemma_covers_then_nothing(b, c, *p, expr_start(x), expr_end(x));
                    },
                }
            }
            proof {
                lemma_advanced_trans(a, b, *p);
                lemma_after_after(expr_run(p.stream()), consumed(b, *p).len(), consumed(a, b).len());
                if d is Some {
                    assert(p.stream() =~= t.skip(consumed(b, c).len() + 1int));
                }
            }
            let item = I::wrap(x, d);
            proof {
                if items@.len() == 0 {
                    lemma_nothing_then_covers(a, b, *p, item.start_spec(), item.end_spec());
                } else {
                    lemma_covers_join(
                        a,
                        b,
                        *p,
                        items@[0].start_spec(),
                        items@.last().end_spec(),
                        item.start_spec(),
                        item.end_spec(),
                    );
                }
            }
            done = item.delimiter_token().is_none();
            items.push(item);
        }
        Ok(items)
    }

    /// Parses `open`, then either `close` at once, or a run of expressions
    /// parted by the delimiter of `I` and then `close`.
    fn parse_expr_bracketed<I: Wrap<Expr>>(p: &mut Parser, open: &str, close: &str) -> (r: Result<
        (Token, Vec<I>, Token),
        Error,
    >)
        requires
            I::delim_spec() == ","@,
        ensures
            advanced(*old(p), *final(p)),
            brack_runs_out(old(p).stream(), open@, close@) ==> fails_eos(r),
            r matches Ok((o, v, c)) ==> v@.len() == expr_brack_count(old(p).stream(), close@),
            parsed_as(*old(p), *final(p), r is Ok, expr_brack(old(p).stream(), open@, close@)),
            r matches Ok((o, v, c)) ==> is_symbol_spec(o, open@) && is_symbol_spec(c, close@) && (
            v@.len() == 0 || is_run(v@)) && covers(*old(p), *final(p), o.start, c.end),
        decreases old(p).stream().len(), 1int,
    {
        let ghost a = *p;
        let o = match p.expect(TokenKind::Symbol, open) {
            Ok(t) => t,
            Err(e) => {
                return Err(e);
            },
        };
        let ghost b = *p;
        proof {
            lemma_read_one_covers(a, b, o);
        }
        match p.try_symbol(close) {
            Some(c) => {
                proof {
                    lemma_read_one_covers(b, *p, c);
                    lemma_covers_join(a, b, *p, o.start, o.end, c.start, c.end);
                }
                return Ok((o, Vec::new(), c));
            },
            None => {},
        }
        let elements = match Expr::parse_expr_run::<I>(p) {
            Ok(v) => v,
            Err(e) => {
                proof {
                    lemma_advanced_trans(a, b, *p);
                }
                return Err(e);
            },
        };
        let ghost d = *p;
        proof {
            lemma_covers_join(a, b, d, o.start, o.end, elements@[0].start_spec(), elements@.last().end_spec());
        }
        let c = match p.expect(TokenKind::Symbol, close) {
            Ok(t) => t,
            Err(e) => {
                proof {
                    lemma_advanced_trans(a, d, *p);
                }
                return Err(e);
            },
        };
        proof {
            lemma_read_one_covers(d, *p, c);
            lemma_covers_join(a, d, *p, o.start, elements@.last().end_spec(), c.start, c.end);
        }
        Ok((o, elements, c))
    }

    /// Parses `left op right`, the left and the operator as `kind` asks.
    #[verifier::spinoff_prover]
    #[verifier::rlimit(100)]
    fn parse_binding(p: &mut Parser, kind: BindingKind) -> (r: Result<Binding, Error>)
        ensures
            advanced(*old(p), *final(p)),
            parsed_as(*old(p), *final(p), r is Ok, binding_len(old(p).stream(), kind)),
            r is Ok ==> covers(*old(p), *final(p), r->Ok_0.start_spec(), r->Ok_0.end_spec()),
        decreases old(p).stream().len(), 7int,
    {
        let ghost a = *p;
        let left = match kind {
            BindingKind::MapField => Expr::parse_expr(p),
            BindingKind::RecordField => match p.parse_token(TokenKind::Atom) {
                Ok(t) => {
                    proof {
                        lemma_read_one_covers(a, *p, t);
                    }
                    Ok(Expr::Literal(Literal::Atom(t)))
                },
                Err(e) => Err(e),
            },
            BindingKind::Generator => match Pattern::parse_pattern(p) {
                Ok(pat) => {
                    proof {
                        lemma_read_one_covers(a, *p, pat.token_spec());
                    }
                    Ok(pattern_expr(pat))
                },
                Err(e) => Err(e),
            },
        };
        let left = match left {
            Ok(x) => x,
            Err(e) => {
                return Err(e);
            },
        };
        let ghost b = *p;
        let op = match kind {
            BindingKind::MapField => p.expect(TokenKind::Symbol, "=>"),
            BindingKind::RecordField => p.expect(TokenKind::Symbol, "="),
            BindingKind::Generator => p.expect(TokenKind::Symbol, "<-"),
        };
        let op = match op {
            Ok(t) => t,
            Err(e) => {
                proof {
                    lemma_advanced_trans(a, b, *p);
                }
                return Err(e);
            },
        };
        let ghost c = *p;
        proof {
            lemma_read_one_covers(b, c, op);
            lemma_covers_join(a, b, c, expr_start(left), expr_end(left), op.start, op.end);
        }
        let right = match Expr::parse_expr(p) {
            Ok(x) => x,
            Err(e) => {
                proof {
                    lemma_advanced_trans(a, c, *p);
                }
                return Err(e);
            },
        };
        proof {
            lemma_covers_join(a, c, *p, expr_start(left), op.end, expr_start(right), expr_end(right));
        }
        Ok(Binding { left, op, right })
    }

    /// Parses bindings of `kind` for as long as each is followed by a comma.
    #[verifier::spinoff_prover]
    #[verifier::rlimit(100)]
    fn parse_binding_run(p: &mut Parser, kind: BindingKind) -> (r: Result<Vec<ListElement<Binding>>, Error>)
        ensures
            advanced(*old(p), *final(p)),
            r matches Ok(v) ==> v@.len() == binding_run_count(old(p).stream(), kind),
            parsed_as(*old(p), *final(p), r is Ok, binding_run(old(p).stream(), kind)),
            r matches Ok(v) ==> is_run(v@) && covers(
                *old(p),
                *final(p),
                v@[0].start_spec(),
                v@.last().end_spec(),
            ),
        decreases old(p).stream().len(), 8int,
    {
        let ghost a = *p;
        let delim = ListElement::<Binding>::delim();
        proof {
            reveal_strlit(",");
            assert(","@ =~= seq![',']);
        }
        let mut items: Vec<ListElement<Binding>> = Vec::new();
        let mut done = false;
        proof {
            lemma_advanced_refl(a);
        }
        while !done
            invariant
                a == *old(p),
                advanced(a, *p),
                delim@ == ListElement::<Binding>::delim_spec(),
                delim@ == ","@,
                !done ==> binding_run(a.stream(), kind) == after(
                    binding_run(p.stream(), kind),
                    consumed(a, *p).len(),
                ),
                done ==> binding_run(a.stream(), kind) == Some(consumed(a, *p).len()),
                !done
                    ==> binding_run_count(a.stream(), kind) == items@.len() + binding_run_count(p.stream(), kind),
                done ==> binding_run_count(a.stream(), kind) == items@.len(),
                items@.len() == 0 ==> consumed(a, *p).len() == 0 && !done,
                items@.len() > 0 ==> covers(a, *p, items@[0].start_spec(), items@.last().end_spec()),
                done == (items@.len() > 0 && items@.last().delimiter_spec() is None),
                forall|i: int| 0 <= i < items@.len() - 1 ==> (#[trigger] items@[i].delimiter_spec()) is Some,
                forall|i: int| 0 <= i < items@.len() ==> (#[trigger] items@[i]).delimiter_ok(),
            decreases p.stream().len(),
        {
            let ghost b = *p;
            let ghost t = p.stream();
            let x = match Expr::parse_binding(p, kind) {
                Ok(x) => x,
                Err(e) => {
                    proof {
                        lemma_advanced_trans(a, b, *p);
                    }
                    return Err(e);
                },
            };
            let ghost c = *p;
            let d = p.try_symbol(delim);
            proof {
                match d {
                    Some(ref t) => {
                        lemma_read_one_covers(c, *p, *t);
                        lemma_covers_join(b, c, *p, x.start_spec(), x.end_spec(), t.start, t.end);
                    },
                    None => {
                        lemma_unchanged_advanced(c, *p);
                        lemma_covers_then_nothing(b, c, *p, x.start_spec(), x.end_spec());
                    },
                }
            }
            proof {
                lemma_advanced_trans(a, b, *p);
                lemma_after_after(binding_run(p.stream(), kind), consumed(b, *p).len(), consumed(a, b).len());
                if d is Some {
                    assert(p.stream() =~= t.skip(consumed(b, c).len() + 1int));
                }
            }
            let item = ListElement::<Binding>::wrap(x, d);
            proof {
                if items@.len() == 0 {
                    lemma_nothing_then_covers(a, b, *p, item.start_spec(), item.end_spec());
                } else {
                    lemma_covers_join(
                        a,
                        b,
                        *p,
                        items@[0].start_spec(),
                        items@.last().end_spec(),
                        item.start_spec(),
                        item.end_spec(),
                    );
                }
            }
            done = item.delimiter_token().is_none();
            items.push(item);
        }
        Ok(items)
    }

    /// Parses `open`, then either `close` at once, or bindings of `kind`
    /// parted by commas and then `close`.
    fn parse_binding_bracketed(p: &mut Parser, kind: BindingKind, open: &str, close: &str) -> (r: Result<
        (Token, Vec<ListElement<Binding>>, Token),
        Error,
    >)
        ensures
            advanced(*old(p), *final(p)),
            r matches Ok((o, v, c)) ==> v@.len() == binding_brack_count(old(p).stream(), kind, close@),
            parsed_as(*old(p), *final(p), r is Ok, binding_brack(old(p).stream(), kind, open@, close@)),
            r matches Ok((o, v, c)) ==> is_symbol_spec(o, open@) && is_symbol_spec(c, close@) && (
            v@.len() == 0 || is_run(v@)) && covers(*old(p), *final(p), o.start, c.end),
        decreases old(p).stream().len(), 1int,
    {
        let ghost a = *p;
        let o = match p.expect(TokenKind::Symbol, open) {
            Ok(t) => t,
            Err(e) => {
                return Err(e);
            },
        };
        let ghost b = *p;
        proof {
            lemma_read_one_covers(a, b, o);
        }
        match p.try_symbol(close) {
            Some(c) => {
                proof {
                    lemma_read_one_covers(b, *p, c);
                    lemma_covers_join(a, b, *p, o.start, o.end, c.start, c.end);
                }
                return Ok((o, Vec::new(), c));
            },
            None => {},
        }
        let elements = match Expr::parse_binding_run(p, kind) {
            Ok(v) => v,
            Err(e) => {
                proof {
                    lemma_advanced_trans(a, b, *p);
                }
                return Err(e);
            },
        };
        let ghost d = *p;
        proof {
            lemma_covers_join(a, b, d, o.start, o.end, elements@[0].start_spec(), elements@.last().end_spec());
        }
        let c = match p.expect(TokenKind::Symbol, close) {
            Ok(t) => t,
            Err(e) => {
                proof {
                    lemma_advanced_trans(a, d, *p);
                }
                return Err(e);
            },
        };
        proof {
            lemma_read_one_covers(d, *p, c);
            lemma_covers_join(a, d, *p, o.start, elements@.last().end_spec(), c.start, c.end);
        }
        Ok((o, elements, c))
    }
}

impl Expr {
    /// `{` elements `}`
    fn parse_tuple(p: &mut Parser) -> (r: Result<Tuple, Error>)
        ensures
            advanced(*old(p), *final(p)),
            brack_runs_out(old(p).stream(), "{"@, "}"@) ==> fails_eos(r),
            r matches Ok(x) ==> x.elements@.len() == expr_brack_count(old(p).stream(), "}"@),
            parsed_as(*old(p), *final(p), r is Ok, expr_brack(old(p).stream(), "{"@, "}"@)),
            r matches Ok(x) ==> covers(*old(p), *final(p), x.open.start, x.close.end),
        decreases old(p).stream().len(), 2int,
    {
        proof {
            reveal_strlit(",");
            assert(","@ =~= seq![',']);
        }
        match Expr::parse_expr_bracketed::<ListElement<Expr>>(p, "{", "}") {
            Ok((open, elements, close)) => Ok(Tuple { open, elements, close }),
            Err(e) => Err(e),
        }
    }

    /// `[` elements `]`
    fn parse_list(p: &mut Parser) -> (r: Result<List<Expr>, Error>)
        ensures
            advanced(*old(p), *final(p)),
            brack_runs_out(old(p).stream(), "["@, "]"@) ==> fails_eos(r),
            r matches Ok(x) ==> x.elements@.len() == expr_brack_count(old(p).stream(), "]"@),
            parsed_as(*old(p), *final(p), r is Ok, expr_brack(old(p).stream(), "["@, "]"@)),
            r matches Ok(x) ==> covers(*old(p), *final(p), x.open.start, x.close.end),
        decreases old(p).stream().len(), 2int,
    {
        proof {
            reveal_strlit(",");
            assert(","@ =~= seq![',']);
        }
        match Expr::parse_expr_bracketed::<ListElement<Expr>>(p, "[", "]") {
            Ok((open, elements, close)) => Ok(List { open, elements, close }),
            Err(e) => Err(e),
        }
    }

    /// `(` arguments `)`
    fn parse_args(p: &mut Parser) -> (r: Result<Args<Expr>, Error>)
        ensures
            advanced(*old(p), *final(p)),
            brack_runs_out(old(p).stream(), "("@, ")"@) ==> fails_eos(r),
            r matches Ok(x) ==> x.args@.len() == expr_brack_count(old(p).stream(), ")"@),
            parsed_as(*old(p), *final(p), r is Ok, expr_brack(old(p).stream(), "("@, ")"@)),
            r matches Ok(x) ==> covers(*old(p), *final(p), x.open.start, x.close.end),
        decreases old(p).stream().len(), 2int,
    {
        proof {
            reveal_strlit(",");
            assert(","@ =~= seq![',']);
        }
        match Expr::parse_expr_bracketed::<Arg<Expr>>(p, "(", ")") {
            Ok((open, args, close)) => Ok(Args { open, args, close }),
            Err(e) => Err(e),
        }
    }

    /// `#` `{` fields `}`
    fn parse_map(p: &mut Parser) -> (r: Result<MapExpr, Error>)
        ensures
            advanced(*old(p), *final(p)),
            r matches Ok(x)
                ==> x.fields@.len() == binding_brack_count(old(p).stream().skip(1), BindingKind::MapField, "}"@),
            parsed_as(*old(p), *final(p), r is Ok, map_len(old(p).stream())),
            r matches Ok(x) ==> covers(*old(p), *final(p), x.sharp.start, x.close.end),
        decreases old(p).stream().len(), 2int,
    {
        let ghost a = *p;
        let sharp = match p.expect(TokenKind::Symbol, "#") {
            Ok(t) => t,
            Err(e) => {
                return Err(e);
            },
        };
        let ghost b = *p;
        let (open, fields, close) = match Expr::parse_binding_bracketed(p, BindingKind::MapField, "{", "}") {
            Ok(x) => x,
            Err(e) => {
                proof {
                    lemma_advanced_trans(a, b, *p);
                }
                return Err(e);
            },
        };
        proof {
            lemma_read_one_covers(a, b, sharp);
            lemma_covers_join(a, b, *p, sharp.start, sharp.end, open.start, close.end);
        }
        Ok(MapExpr { sharp, open, fields, close })
    }

    /// `#` name `{` fields `}`
    fn parse_record(p: &mut Parser) -> (r: Result<Record, Error>)
        ensures
            advanced(*old(p), *final(p)),
            r matches Ok(x)
                ==> x.fields@.len() == binding_brack_count(old(p).stream().skip(2), BindingKind::RecordField, "}"@),
            r matches Ok(x) ==> x.name == old(p).stream()[1],
            parsed_as(*old(p), *final(p), r is Ok, record_len(old(p).stream())),
            r matches Ok(x) ==> covers(*old(p), *final(p), x.sharp.start, x.close.end),
        decreases old(p).stream().len(), 2int,
    {
        let ghost a = *p;
        let sharp = match p.expect(TokenKind::Symbol, "#") {
            Ok(t) => t,
            Err(e) => {
                return Err(e);
            },
        };
        let ghost b = *p;
        let name = match p.parse_token(TokenKind::Atom) {
            Ok(t) => t,
            Err(e) => {
                proof {
                    lemma_advanced_trans(a, b, *p);
                }
                return Err(e);
            },
        };
        let ghost c = *p;
        proof {
            lemma_read_one_covers(a, b, sharp);
            lemma_read_one_covers(b, c, name);
            lemma_covers_join(a, b, c, sharp.start, sharp.end, name.start, name.end);
        }
        let (open, fields, close) = match Expr::parse_binding_bracketed(
            p,
            BindingKind::RecordField,
            "{",
            "}",
        ) {
            Ok(x) => x,
            Err(e) => {
                proof {
                    lemma_advanced_trans(a, c, *p);
                }
                return Err(e);
            },
        };
        proof {
            lemma_covers_join(a, c, *p, sharp.start, name.end, open.start, close.end);
        }
        Ok(Record { sharp, name, open, fields, close })
    }

    /// `[` element `||` generators `]`
    fn parse_comprehension(p: &mut Parser) -> (r: Result<ListComprehension, Error>)
        ensures
            advanced(*old(p), *final(p)),
            r matches Ok(x) ==> x.qualifiers@.len() == binding_run_count(
                old(p).stream().skip(expr_len(old(p).stream().skip(1))->Some_0 + 2int),
                BindingKind::Generator,
            ),
            parsed_as(*old(p), *final(p), r is Ok, comp_len(old(p).stream())),
            r matches Ok(x) ==> covers(*old(p), *final(p), x.open.start, x.close.end),
        decreases old(p).stream().len(), 2int,
    {
        let ghost a = *p;
        let open = match p.expect(TokenKind::Symbol, "[") {
            Ok(t) => t,
            Err(e) => {
                return Err(e);
            },
        };
        let ghost b = *p;
        proof {
            lemma_read_one_covers(a, b, open);
        }
        let element = match Expr::parse_expr(p) {
            Ok(x) => x,
            Err(e) => {
                proof {
                    lemma_advanced_trans(a, b, *p);
                }
                return Err(e);
            },
        };
        let ghost c = *p;
        proof {
            lemma_read_one_covers(a, b, open);
            lemma_covers_join(a, b, c, open.start, open.end, expr_start(element), expr_end(element));
        }
        let bar = match p.expect(TokenKind::Symbol, "||") {
            Ok(t) => t,
            Err(e) => {
                proof {
                    lemma_advanced_trans(a, c, *p);
                }
                return Err(e);
            },
        };
        let ghost d = *p;
        proof {
            lemma_read_one_covers(c, d, bar);
            lemma_covers_join(a, c, d, open.start, expr_end(element), bar.start, bar.end);
        }
        let qualifiers = match Expr::parse_binding_run(p, BindingKind::Generator) {
            Ok(v) => v,
            Err(e) => {
                proof {
                    lemma_advanced_trans(a, d, *p);
                }
                return Err(e);
            },
        };
        let ghost f = *p;
        proof {
            lemma_covers_join(a, d, f, open.start, bar.end, qualifiers@[0].start_spec(), qualifiers@.last().end_spec());
        }
        let close = match p.expect(TokenKind::Symbol, "]") {
            Ok(t) => t,
            Err(e) => {
                proof {
                    lemma_advanced_trans(a, f, *p);
                }
                return Err(e);
            },
        };
        proof {
            lemma_read_one_covers(f, *p, close);
            lemma_covers_join(a, f, *p, open.start, qualifiers@.last().end_spec(), close.start, close.end);
        }
        Ok(ListComprehension { open, element, bar, qualifiers, close })
    }

    /// `begin` body `end`
    fn parse_block(p: &mut Parser) -> (r: Result<Block, Error>)
        ensures
            advanced(*old(p), *final(p)),
            parsed_as(*old(p), *final(p), r is Ok, block_len(old(p).stream())),
            r matches Ok(x) ==> covers(*old(p), *final(p), x.begin.start, x.end.end),
        decreases old(p).stream().len(), 2int,
    {
        proof {
            reveal_strlit(",");
            assert(","@ =~= seq![',']);
        }
        let ghost a = *p;
        let begin = match p.expect(TokenKind::Keyword, "begin") {
            Ok(t) => t,
            Err(e) => {
                return Err(e);
            },
        };
        let ghost b = *p;
        proof {
            lemma_read_one_covers(a, b, begin);
        }
        let items = match Expr::parse_expr_run::<SeqItem<Expr>>(p) {
            Ok(v) => v,
            Err(e) => {
                proof {
                    lemma_advanced_trans(a, b, *p);
                }
                return Err(e);
            },
        };
        let ghost c = *p;
        proof {
            lemma_read_one_covers(a, b, begin);
            lemma_covers_join(a, b, c, begin.start, begin.end, items@[0].start_spec(), items@.last().end_spec());
        }
        let end = match p.expect(TokenKind::Keyword, "end") {
            Ok(t) => t,
            Err(e) => {
                proof {
                    lemma_advanced_trans(a, c, *p);
                }
                return Err(e);
            },
        };
        proof {
            lemma_read_one_covers(c, *p, end);
            lemma_covers_join(a, c, *p, begin.start, items@.last().end_spec(), end.start, end.end);
        }
        Ok(Block { begin, body: Sequence { items }, end })
    }

    /// `(` expression `)`
    fn parse_parenthesized(p: &mut Parser) -> (r: Result<Parenthesized, Error>)
        ensures
            advanced(*old(p), *final(p)),
            parsed_as(*old(p), *final(p), r is Ok, paren_len(old(p).stream())),
            r matches Ok(x) ==> covers(*old(p), *final(p), x.open.start, x.close.end),
        decreases old(p).stream().len(), 2int,
    {
        let ghost a = *p;
        let open = match p.expect(TokenKind::Symbol, "(") {
            Ok(t) => t,
            Err(e) => {
                return Err(e);
            },
        };
        let ghost b = *p;
        proof {
            lemma_read_one_covers(a, b, open);
        }
        let inner = match Expr::parse_expr(p) {
            Ok(x) => x,
            Err(e) => {
                proof {
                    lemma_advanced_trans(a, b, *p);
                }
                return Err(e);
            },
        };
        let ghost c = *p;
        proof {
            lemma_read_one_covers(a, b, open);
            lemma_covers_join(a, b, c, open.start, open.end, expr_start(inner), expr_end(inner));
        }
        let close = match p.expect(TokenKind::Symbol, ")") {
            Ok(t) => t,
            Err(e) => {
                proof {
                    lemma_advanced_trans(a, c, *p);
                }
                return Err(e);
            },
        };
        proof {
            lemma_read_one_covers(c, *p, close);
            lemma_covers_join(a, c, *p, open.start, expr_end(inner), close.start, close.end);
        }
        Ok(Parenthesized { open, expr: inner, close })
    }

    /// `catch` expression
    fn parse_catch(p: &mut Parser) -> (r: Result<Catch, Error>)
        ensures
            advanced(*old(p), *final(p)),
            parsed_as(*old(p), *final(p), r is Ok, catch_len(old(p).stream())),
            r matches Ok(x) ==> covers(*old(p), *final(p), x.catch.start, expr_end(x.expr)),
        decreases old(p).stream().len(), 2int,
    {
        let ghost a = *p;
        let catch = match p.expect(TokenKind::Keyword, "catch") {
            Ok(t) => t,
            Err(e) => {
                return Err(e);
            },
        };
        let ghost b = *p;
        proof {
            lemma_read_one_covers(a, b, catch);
        }
        let expr = match Expr::parse_expr(p) {
            Ok(x) => x,
            Err(e) => {
                proof {
                    lemma_advanced_trans(a, b, *p);
                }
                return Err(e);
            },
        };
        proof {
            lemma_read_one_covers(a, b, catch);
            lemma_covers_join(a, b, *p, catch.start, catch.end, expr_start(expr), expr_end(expr));
        }
        Ok(Catch { catch, expr })
    }

    /// Parses a primary expression: classifies it by lookahead inside a
    /// transaction that is then aborted, and parses the shape found.
    #[verifier::spinoff_prover]
    #[verifier::rlimit(100)]
    pub fn parse_primary(p: &mut Parser) -> (r: Result<Expr, Error>)
        ensures
            advanced(*old(p), *final(p)),
            brack_runs_out(old(p).stream(), "["@, "]"@) && !comprehension_at(old(p).stream())
                ==> fails_eos(r),
            brack_runs_out(old(p).stream(), "{"@, "}"@) ==> fails_eos(r),
            r matches Ok(e) ==> primary_is(old(p).stream(), e),
            parsed_as(*old(p), *final(p), r is Ok, primary_len(old(p).stream())),
            r is Ok ==> covers(*old(p), *final(p), expr_start(r->Ok_0), expr_end(r->Ok_0)),
            r matches Ok(e) ==> exists|k: LeftKind| classifies(old(p).stream(), k) && shape_of(e, k),
            old(p).stream().len() > 0 && starts_pattern(old(p).stream()[0]) ==> r is Ok && read_one(
                *old(p),
                *final(p),
                old(p).stream()[0],
            ),
            unclassified(old(p).stream()) ==> r is Err && unchanged(*old(p), *final(p)),
            unclassified(old(p).stream()) && old(p).stream().len() > 0 && !is_symbol_hash(old(p).stream()[0])
                ==> fails_unexpected(r, old(p).stream()[0]),
        decreases old(p).stream().len(), 4int,
    {
        let ghost a = *p;
        p.start_transaction();
        let ghost b = *p;
        let kind = LeftKind::guess(p);
        let ghost c = *p;
        p.abort_transaction();
        proof {
            lemma_abort_restores(a, b, c, *p);
            lemma_unchanged_advanced(a, *p);
        }
        let ghost m = *p;
        proof {
            if kind is Ok {
                lemma_primary_by_shape(a.stream(), kind->Ok_0);
                lemma_open_bracket_kind(a.stream(), kind->Ok_0);
            } else {
                lemma_open_bracket_kind(a.stream(), LeftKind::Literal);
                lemma_primary_by_shape(a.stream(), LeftKind::Literal);
            }
        }
        let kind = match kind {
            Ok(k) => k,
            Err(e) => {
                return Err(e);
            },
        };
        let r = Expr::parse_shape(p, kind);
        proof {
            lemma_advanced_trans(a, m, *p);
            assert(consumed(a, *p) =~= consumed(m, *p));
            if r is Ok {
                let e = r->Ok_0;
                lemma_nothing_then_covers(a, m, *p, expr_start(e), expr_end(e));
            }
        }
        r
    }

    /// Parses the shape `kind`, which the first tokens were classified as.
    #[verifier::spinoff_prover]
    #[verifier::rlimit(100)]
    fn parse_shape(p: &mut Parser, kind: LeftKind) -> (r: Result<Expr, Error>)
        requires
            kind == LeftKind::Literal
                ==> old(p).stream().len() > 0 && is_literal_kind(old(p).stream()[0].kind),
            kind == LeftKind::Variable ==> kind_at(old(p).stream(), 0, TokenKind::Variable),
        ensures
            advanced(*old(p), *final(p)),
            kind == LeftKind::List && brack_runs_out(old(p).stream(), "["@, "]"@) ==> fails_eos(r),
            kind == LeftKind::Tuple && brack_runs_out(old(p).stream(), "{"@, "}"@) ==> fails_eos(r),
            r matches Ok(e) ==> primary_detail(old(p).stream(), e),
            parsed_as(*old(p), *final(p), r is Ok, shape_len(old(p).stream(), kind)),
            r is Ok ==> covers(*old(p), *final(p), expr_start(r->Ok_0), expr_end(r->Ok_0)),
            r matches Ok(e) ==> shape_of(e, kind),
            (kind == LeftKind::Literal || kind == LeftKind::Variable) ==> r is Ok && read_one(
                *old(p),
                *final(p),
                old(p).stream()[0],
            ),
        decreases old(p).stream().len(), 3int,
    {
        let ghost m = *p;
        match kind {
            LeftKind::Literal => {
                proof {
                    assert(shape_len(m.stream(), kind) == Some(1nat));
                }
                match Literal::parse_literal(p) {
                    Ok(l) => {
                        proof {
                            lemma_read_one_covers(m, *p, l.token_spec());
                        }
                        Ok(Expr::Literal(l))
                    },
                    Err(e) => Err(e),
                }
            },
            LeftKind::Variable => {
                proof {
                    assert(shape_len(m.stream(), kind) == Some(1nat));
                }
                match p.parse_token(TokenKind::Variable) {
                    Ok(t) => {
                        proof {
                            lemma_read_one_covers(m, *p, t);
                        }
                        Ok(Expr::Variable(t))
                    },
                    Err(e) => Err(e),
                }
            },
            LeftKind::Tuple => {
                proof {
                    assert(shape_len(m.stream(), kind) == expr_brack(m.stream(), "{"@, "}"@));
                }
                match Expr::parse_tuple(p) {
                    Ok(x) => Ok(Expr::Tuple(Box::new(x))),
                    Err(e) => Err(e),
                }
            },
            LeftKind::MapExpr => {
                proof {
                    assert(shape_len(m.stream(), kind) == map_len(m.stream()));
                }
                match Expr::parse_map(p) {
                    Ok(x) => Ok(Expr::MapExpr(Box::new(x))),
                    Err(e) => Err(e),
                }
            },
            LeftKind::Record => {
                proof {
                    assert(shape_len(m.stream(), kind) == record_len(m.stream()));
                }
                match Expr::parse_record(p) {
                    Ok(x) => Ok(Expr::Record(Box::new(x))),
                    Err(e) => Err(e),
                }
            },
            LeftKind::List => {
                proof {
                    assert(shape_len(m.stream(), kind) == expr_brack(m.stream(), "["@, "]"@));
                }
                match Expr::parse_list(p) {
                    Ok(x) => Ok(Expr::List(Box::new(x))),
                    Err(e) => Err(e),
                }
            },
            LeftKind::ListComprehension => {
                proof {
                    assert(shape_len(m.stream(), kind) == comp_len(m.stream()));
                }
                match Expr::parse_comprehension(p) {
                    Ok(x) => Ok(Expr::ListComprehension(Box::new(x))),
                    Err(e) => Err(e),
                }
            },
            LeftKind::Block => {
                proof {
                    assert(shape_len(m.stream(), kind) == block_len(m.stream()));
                }
                match Expr::parse_block(p) {
                    Ok(x) => Ok(Expr::Block(Box::new(x))),
                    Err(e) => Err(e),
                }
            },
            LeftKind::Parenthesized => {
                proof {
                    assert(shape_len(m.stream(), kind) == paren_len(m.stream()));
                }
                match Expr::parse_parenthesized(p) {
                    Ok(x) => Ok(Expr::Parenthesized(Box::new(x))),
                    Err(e) => Err(e),
                }
            },
            LeftKind::Catch => {
                proof {
                    assert(shape_len(m.stream(), kind) == catch_len(m.stream()));
                }
                match Expr::parse_catch(p) {
                    Ok(x) => Ok(Expr::Catch(Box::new(x))),
                    Err(e) => Err(e),
                }
            },
        }
    }

    /// Parses an expression: a primary, then, on one token of lookahead,
    /// the argument list of a local call (`(`) or the rest of a remote call
    /// (`:`) whose head it is.
    #[verifier::spinoff_prover]
    #[verifier::rlimit(100)]
    pub fn parse_expr(p: &mut Parser) -> (r: Result<Expr, Error>)
        ensures
            advanced(*old(p), *final(p)),
            expr_runs_out(old(p).stream()) ==> fails_eos(r),
            r matches Ok(e) ==> expr_detail(old(p).stream(), e),
            parsed_as(*old(p), *final(p), r is Ok, expr_len(old(p).stream())),
            r is Ok ==> covers(*old(p), *final(p), expr_start(r->Ok_0), expr_end(r->Ok_0)),
            old(p).stream().len() > 0 && starts_pattern(old(p).stream()[0]) && right_kind_of(
                old(p).stream().skip(1),
            ) == RightKind::Standalone ==> r is Ok && read_one(*old(p), *final(p), old(p).stream()[0]),
            unclassified(old(p).stream()) ==> r is Err && unchanged(*old(p), *final(p)),
            r matches Ok(e) ==> (e is LocalCall || e is RemoteCall || !(sym_at(final(p).stream(), 0, "("@)
                || sym_at(final(p).stream(), 0, ":"@))),
            unclassified(old(p).stream()) && old(p).stream().len() > 0 && !is_symbol_hash(old(p).stream()[0])
                ==> fails_unexpected(r, old(p).stream()[0]),
        decreases old(p).stream().len(), 5int,
    {
        let ghost a = *p;
        let head = match Expr::parse_primary(p) {
            Ok(e) => e,
            Err(e) => {
                return Err(e);
            },
        };
        let ghost b = *p;
        proof {
            if a.stream().len() > 0 && starts_pattern(a.stream()[0]) {
                lemma_read_one_covers(a, b, a.stream()[0]);
            }
        }
        p.start_transaction();
        let ghost b1 = *p;
        let kind = RightKind::guess(p);
        let ghost b2 = *p;
        p.abort_transaction();
        proof {
            lemma_abort_restores(b, b1, b2, *p);
            lemma_unchanged_advanced(b, *p);
            lemma_covers_then_nothing(a, b, *p, expr_start(head), expr_end(head));
        }
        let ghost m = *p;
        match kind {
            RightKind::LocalCall => {
                let args = match Expr::parse_args(p) {
                    Ok(x) => x,
                    Err(e) => {
                        proof {
                            lemma_advanced_trans(a, m, *p);
                        }
                        return Err(e);
                    },
                };
                proof {
                    lemma_covers_join(a, m, *p, expr_start(head), expr_end(head), args.open.start, args.close.end);
                }
                Ok(Expr::LocalCall(Box::new(LocalCall { function: head, args })))
            },
            RightKind::RemoteCall => {
                let colon = match p.expect(TokenKind::Symbol, ":") {
                    Ok(t) => t,
                    Err(e) => {
                        proof {
                            lemma_advanced_trans(a, m, *p);
                        }
                        return Err(e);
                    },
                };
                let ghost c = *p;
                proof {
                    lemma_read_one_covers(m, c, colon);
                    lemma_covers_join(a, m, c, expr_start(head), expr_end(head), colon.start, colon.end);
                }
                let function = match Expr::parse_primary(p) {
                    Ok(e) => e,
                    Err(e) => {
                        proof {
                            lemma_advanced_trans(a, c, *p);
                        }
                        return Err(e);
                    },
                };
                let ghost d = *p;
                proof {
                    lemma_covers_join(a, c, d, expr_start(head), colon.end, expr_start(function), expr_end(function));
                }
                let args = match Expr::parse_args(p) {
                    Ok(x) => x,
                    Err(e) => {
                        proof {
                            lemma_advanced_trans(a, d, *p);
                        }
                        return Err(e);
                    },
                };
                proof {
                    lemma_covers_join(a, d, *p, expr_start(head), expr_end(function), args.open.start, args.close.end);
                }
                Ok(Expr::RemoteCall(Box::new(RemoteCall { module: head, colon, function, args })))
            },
            RightKind::Standalone => Ok(head),
        }
    }
}

/// `e` has the shape `k`.
pub open spec fn shape_of(e: Expr, k: LeftKind) -> bool {
    match e {
        Expr::Literal(_) => k == LeftKind::Literal,
        Expr::Variable(_) => k == LeftKind::Variable,
        Expr::Tuple(_) => k == LeftKind::Tuple,
        Expr::MapExpr(_) => k == LeftKind::MapExpr,
        Expr::Record(_) => k == LeftKind::Record,
        Expr::List(_) => k == LeftKind::List,
        Expr::ListComprehension(_) => k == LeftKind::ListComprehension,
        Expr::Block(_) => k == LeftKind::Block,
        Expr::Parenthesized(_) => k == LeftKind::Parenthesized,
        Expr::Catch(_) => k == LeftKind::Catch,
        Expr::LocalCall(_) => false,
        Expr::RemoteCall(_) => false,
    }
}

impl Expr {
    /// The local call that this expression is; any other expression fails
    /// with `InvalidInput`, naming its first token.
    pub fn into_local_call(self) -> (r: Result<LocalCall, Error>)
        ensures
            match self {
                Expr::LocalCall(c) => r == Ok::<LocalCall, Error>(*c),
                _ => fails_invalid(r, "local call"@, first_token(self)),
            },
    {
        match self {
            Expr::LocalCall(c) => Ok(*c),
            _ => {
                let t = first_token_of(&self).clone();
                Err(Error::new(ErrorKind::InvalidInput { expected: "local call".to_owned(), actual: t }))
            },
        }
    }
}

/// The first token of `e`.
pub open spec fn first_token(e: Expr) -> Token
    decreases e,
{
    match e {
        Expr::Literal(l) => l.token_spec(),
        Expr::Variable(t) => t,
        Expr::Tuple(x) => x.open,
        Expr::MapExpr(x) => x.sharp,
        Expr::Record(x) => x.sharp,
        Expr::List(x) => x.open,
        Expr::ListComprehension(x) => x.open,
        Expr::Block(x) => x.begin,
        Expr::Parenthesized(x) => x.open,
        Expr::Catch(x) => x.catch,
        Expr::LocalCall(x) => first_token(x.function),
        Expr::RemoteCall(x) => first_token(x.module),
    }
}

fn first_token_of(e: &Expr) -> (r: &Token)
    ensures
        *r == first_token(*e),
    decreases e,
{
    match e {
        Expr::Literal(l) => l.token(),
        Expr::Variable(t) => t,
        Expr::Tuple(x) => &x.open,
        Expr::MapExpr(x) => &x.sharp,
        Expr::Record(x) => &x.sharp,
        Expr::List(x) => &x.open,
        Expr::ListComprehension(x) => &x.open,
        Expr::Block(x) => &x.begin,
        Expr::Parenthesized(x) => &x.open,
        Expr::Catch(x) => &x.catch,
        Expr::LocalCall(x) => first_token_of(&x.function),
        Expr::RemoteCall(x) => first_token_of(&x.module),
    }
}

impl Parse for Expr {
    open spec fn parse_len(s: Seq<Token>) -> Option<nat> {
        expr_len(s)
    }

    fn parse(p: &mut Parser) -> (r: Result<Self, Error>)
        ensures
            r matches Ok(e) ==> (e is LocalCall || e is RemoteCall || !(sym_at(final(p).stream(), 0, "("@)
                || sym_at(final(p).stream(), 0, ":"@))),
            unclassified(old(p).stream()) ==> r is Err && unchanged(*old(p), *final(p)),
            unclassified(old(p).stream()) && old(p).stream().len() > 0 && !is_symbol_hash(old(p).stream()[0])
                ==> fails_unexpected(r, old(p).stream()[0]),
            r matches Ok(e) ==> expr_detail(old(p).stream(), e),
            expr_runs_out(old(p).stream()) ==> fails_eos(r),
    {
        Expr::parse_expr(p)
    }
}

} // verus!
