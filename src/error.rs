//! Parse failures.

use vstd::prelude::*;
use crate::token::Token;

verus! {

/// The classes of failure.
#[derive(Debug)]
pub enum ErrorKind {
    /// A token of the expected class denoted another value than the one
    /// required.
    InvalidInput { expected: String, actual: Token },
    /// A token that no production accepts at this place.
    UnexpectedToken(Token),
    /// A token was required but the stream was exhausted.
    UnexpectedEos,
    Other,
    /// A failure of the lexer, passed on as its description.
    TokenizeError(String),
    /// A failure of the preprocessor, passed on as its description.
    PreprocessorError(String),
}

/// A parse failure.
#[derive(Debug)]
pub struct Error {
    pub kind: ErrorKind,
}

/// `r` failed because the stream was exhausted.
pub open spec fn fails_eos<T>(r: Result<T, Error>) -> bool {
    r matches Err(Error { kind: ErrorKind::UnexpectedEos })
}

/// `r` failed on the token `t`, which no production accepts there.
pub open spec fn fails_unexpected<T>(r: Result<T, Error>, t: Token) -> bool {
    match r {
        Err(Error { kind: ErrorKind::UnexpectedToken(u) }) => u == t,
        _ => false,
    }
}

/// `r` failed because `actual` does not denote `expected`.
pub open spec fn fails_invalid<T>(r: Result<T, Error>, expected: Seq<char>, actual: Token) -> bool {
    match r {
        Err(Error { kind: ErrorKind::InvalidInput { expected: e, actual: a } }) => e@ == expected && a == actual,
        _ => false,
    }
}

impl Error {
    pub fn new(kind: ErrorKind) -> (r: Error)
        ensures
            r.kind == kind,
    {
        Error { kind }
    }

    pub fn kind(&self) -> (r: &ErrorKind)
        ensures
            *r == self.kind,
    {
        &self.kind
    }
}

} // verus!
