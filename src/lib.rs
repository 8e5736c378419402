//! A concrete syntax tree parser for Erlang token streams.
//!
//! Tokens come from any lexer (already macro-expanded) as plain [`Token`]
//! values. The [`Parser`] consumes them through a stack of transaction
//! buffers, so that speculative lookahead can be undone exactly, and the
//! generic combinators and expression grammar build nodes that keep the
//! source position of their first and last token.

pub mod token;
pub mod error;
pub mod parser;
pub mod traits;
pub mod primitives;
pub mod cst;
pub mod exprs;
pub mod parts;

pub use token::{Position, Token, TokenKind};
pub use error::{Error, ErrorKind};
pub use parser::{Parser, TokenReader};
pub use traits::{Expect, Parse, Span};
pub use primitives::{Arg, Args, Atom, Clause, Clauses, Export, Integer, List, ListElement, ModuleAtom,
    SeqItem, Sequence};
pub use cst::{LeftKind, Literal, Pattern, RightKind};
pub use exprs::{Binding, BindingKind, Block, Catch, Expr, ListComprehension, LocalCall, MapExpr,
    Parenthesized, Record, RemoteCall, Tuple};
pub use parts::{ExceptionClass, RecordFieldDefault, StackTrace, WhenGuard};
