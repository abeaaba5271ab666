use vstd::prelude::*;

use crate::token::Span;

verus! {

/// What went wrong while parsing an event schema.
#[derive(Clone, Copy, Debug, PartialEq, Eq, Structural)]
pub enum ErrorKind {
    /// More than one marker attribute precedes one declaration.
    TooManyMarkers,
    /// The keyword `fn` is missing.
    ExpectedKeyword,
    /// The event name is missing.
    ExpectedIdentifier,
    /// The parenthesised parameter list is missing, or one of its entries is
    /// empty or not a parameter.
    MalformedParameterList,
    /// Nothing after `->` reads as a type. Kept apart from `ExpectedTerminator`:
    /// the declaration fails before a `;` could be expected.
    ExpectedType,
    /// The `;` that ends a declaration is missing.
    ExpectedTerminator,
    /// The input does not start with a closed parenthesised group.
    MalformedEnclosure,
}

/// A diagnostic: what went wrong, and the source region to point at.
#[derive(Clone, Copy, Debug, PartialEq, Eq, Structural)]
pub struct Error {
    pub kind: ErrorKind,
    pub span: Span,
}

/// The text of the diagnostic for each kind.
pub open spec fn message_of(k: ErrorKind) -> Seq<char> {
    match k {
        ErrorKind::TooManyMarkers => "Multiple attributes found. Only one allowed."@,
        ErrorKind::ExpectedKeyword => "expected `fn`"@,
        ErrorKind::ExpectedIdentifier => "expected identifier"@,
        ErrorKind::MalformedParameterList => "expected a parenthesized list of parameters"@,
        ErrorKind::ExpectedType => "expected type"@,
        ErrorKind::ExpectedTerminator => "expected `;`"@,
        ErrorKind::MalformedEnclosure => "expected a parenthesized list of events"@,
    }
}

impl ErrorKind {
    /// The human-readable text of the diagnostic.
    pub fn message(&self) -> (r: &'static str)
        ensures
            r@ == message_of(*self),
    {
        match self {
            ErrorKind::TooManyMarkers => "Multiple attributes found. Only one allowed.",
            ErrorKind::ExpectedKeyword => "expected `fn`",
            ErrorKind::ExpectedIdentifier => "expected identifier",
            ErrorKind::MalformedParameterList => "expected a parenthesized list of parameters",
            ErrorKind::ExpectedType => "expected type",
            ErrorKind::ExpectedTerminator => "expected `;`",
            ErrorKind::MalformedEnclosure => "expected a parenthesized list of events",
        }
    }
}

impl Error {
    /// The human-readable text of the diagnostic.
    pub fn message(&self) -> (r: &'static str)
        ensures
            r@ == message_of(self.kind),
    {
        self.kind.message()
    }
}

} // verus!
