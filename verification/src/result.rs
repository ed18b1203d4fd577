//! The structured error model shared by the scanner and the parser.
//!
//! Both layers fail by returning an [`Error`]: the scanner raises
//! `UnexpectedString` when a character matches no rule of the current
//! mode, and the parser raises `UnexpectedToken` when the next token does
//! not match the grammar.  [`Expected`] records what the parser wanted at
//! the failure point: one concrete token kind, or a set of alternatives.

use vstd::prelude::*;

use crate::scanner::{Span, SpecToken, Token, TokenKind};
use crate::util::StreamItem;

verus! {

/// What the parser expected at a failure point: a single concrete token
/// kind, or one of a set of alternatives.
#[derive(Debug, PartialEq, Eq)]
pub enum Expected {
    Tok(TokenKind),
    OneOf(Vec<TokenKind>),
}

/// The abstract value of an [`Expected`], with the alternative set as a
/// sequence.
pub enum SpecExpected {
    Tok(TokenKind),
    OneOf(Seq<TokenKind>),
}

impl DeepView for Expected {
    type V = SpecExpected;

    open spec fn deep_view(&self) -> SpecExpected {
        match self {
            Expected::Tok(k) => SpecExpected::Tok(*k),
            Expected::OneOf(ks) => SpecExpected::OneOf(ks@),
        }
    }
}

impl Expected {
    fn dup(&self) -> (r: Self)
        ensures
            r.deep_view() == self.deep_view(),
    {
        match self {
            Expected::Tok(k) => Expected::Tok(*k),
            Expected::OneOf(ks) => {
                let mut out: Vec<TokenKind> = Vec::new();
                let mut i: usize = 0;
                while i < ks.len()
                    invariant
                        i <= ks.len(),
                        out@ == ks@.take(i as int),
                    decreases ks.len() - i,
                {
                    out.push(ks[i]);
                    proof {
                        assert(out@ =~= ks@.take(i + 1));
                    }
                    i = i + 1;
                }
                proof {
                    assert(out@ =~= ks@);
                }
                Expected::OneOf(out)
            },
        }
    }
}

/// A failure raised by the scanner or the parser.  Both are immediately
/// fatal to the operation that raised them; no recovery is attempted.
#[derive(Debug, PartialEq, Eq)]
#[allow(inconsistent_fields)]
pub enum Error {
    /// The parser met `actual` where the grammar required `expected`.
    UnexpectedToken { actual: Token, expected: Expected },
    /// The scanner met a character that matches no rule of the current
    /// mode; `actual` holds that character and `span` the offsets of the
    /// failed token attempt.
    UnexpectedString { actual: String, span: Span },
}

/// The abstract value of an [`Error`].
#[allow(inconsistent_fields)]
pub enum SpecError {
    UnexpectedToken { actual: SpecToken, expected: SpecExpected },
    UnexpectedString { actual: Seq<char>, span: Span },
}

impl DeepView for Error {
    type V = SpecError;

    open spec fn deep_view(&self) -> SpecError {
        match self {
            Error::UnexpectedToken { actual, expected } => SpecError::UnexpectedToken {
                actual: actual.deep_view(),
                expected: expected.deep_view(),
            },
            Error::UnexpectedString { actual, span } => SpecError::UnexpectedString {
                actual: actual@,
                span: *span,
            },
        }
    }
}

impl Error {
    pub fn dup(&self) -> (r: Self)
        ensures
            r.deep_view() == self.deep_view(),
    {
        match self {
            Error::UnexpectedToken { actual, expected } => Error::UnexpectedToken {
                actual: actual.dup(),
                expected: expected.dup(),
            },
            Error::UnexpectedString { actual, span } => Error::UnexpectedString {
                actual: actual.clone(),
                span: *span,
            },
        }
    }
}

impl StreamItem for Result<Token, Error> {
    type A = Result<SpecToken, SpecError>;

    open spec fn abs(&self) -> Result<SpecToken, SpecError> {
        match self {
            Ok(t) => Ok(t.deep_view()),
            Err(e) => Err(e.deep_view()),
        }
    }

    fn dup(&self) -> (r: Self) {
        match self {
            Ok(t) => Ok(t.dup()),
            Err(e) => Err(e.dup()),
        }
    }
}

} // verus!
