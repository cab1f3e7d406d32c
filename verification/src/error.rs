//! What a grammar reports when it rejects its input.

use vstd::prelude::*;
use crate::token::Span;

verus! {

/// Why a grammar rejected its input.
#[derive(Clone, Copy, Debug, PartialEq, Eq, Structural)]
pub enum ErrorKind {
    /// The next token is not the expected keyword.
    KeywordMismatch,
    /// The keyword (or name) stands alone: what must follow it is absent.
    MissingPayload,
    /// A payload follows, but behind the wrong marker: `=` or another bracket
    /// kind where parentheses are required.
    WrongDelimiter,
    /// A value or list item does not meet its own grammar.
    MalformedItem,
    /// Neither of the two accepted bracket kinds follows the keyword.
    AmbiguousBracket,
    /// A token stands where the input should end or a comma should follow.
    UnexpectedToken,
}

/// The value of a [`ParseError`].
pub struct Failure {
    pub kind: ErrorKind,
    pub span: Span,
    pub message: Seq<char>,
}

/// A failure as a grammar states it, before the place where the input ends is
/// known: `at` is the span of the offending token, or `None` where the input
/// ran out; `read` is the number of tokens that were read before the parser
/// gave up, which is where it leaves the cursor.
pub struct Fault {
    pub kind: ErrorKind,
    pub at: Option<Span>,
    pub message: Seq<char>,
    pub read: nat,
}

impl Fault {
    /// The failure that this fault is in an input that ends at `end`.
    pub open spec fn within(self, end: Span) -> Failure {
        Failure {
            kind: self.kind,
            span: match self.at {
                Some(span) => span,
                None => end,
            },
            message: self.message,
        }
    }

    /// The fault as it shows outside a group with span `group`, where it
    /// arose inside: where the group's tokens ran out, it points at the
    /// group. Outside, `read` tokens have been read, the group among them.
    pub open spec fn inside(self, group: Span, read: nat) -> Fault {
        Fault { kind: self.kind, at: Some(self.within(group).span), message: self.message, read }
    }

    /// The fault as it shows where `n` tokens were read before the grammar
    /// that found it began.
    pub open spec fn after(self, n: nat) -> Fault {
        Fault { kind: self.kind, at: self.at, message: self.message, read: self.read + n }
    }
}

/// The message for a token that should not be there.
pub open spec fn unexpected_token() -> Seq<char> {
    "unexpected token"@
}

/// A rejected parse: why, where, and a message for the reader.
#[derive(Debug)]
pub struct ParseError {
    pub kind: ErrorKind,
    pub span: Span,
    pub message: String,
}

impl View for ParseError {
    type V = Failure;

    open spec fn view(&self) -> Failure {
        Failure { kind: self.kind, span: self.span, message: self.message@ }
    }
}

impl ParseError {
    /// An error of kind `kind` at `span`.
    pub fn new(kind: ErrorKind, span: Span, message: String) -> (e: ParseError)
        ensures
            e@ == (Failure { kind, span, message: message@ }),
    {
        ParseError { kind, span, message }
    }

    /// The error for a token that should not be there, at `span`.
    pub fn unexpected(span: Span) -> (e: ParseError)
        ensures
            e@ == (Failure { kind: ErrorKind::UnexpectedToken, span, message: unexpected_token() }),
    {
        ParseError::new(ErrorKind::UnexpectedToken, span, "unexpected token".to_string())
    }

    /// Why the input was rejected.
    pub fn kind(&self) -> (k: ErrorKind)
        ensures
            k == self@.kind,
    {
        self.kind
    }

    /// The place in the source that the error points at.
    pub fn span(&self) -> (s: Span)
        ensures
            s == self@.span,
    {
        self.span
    }

    /// The message, as a string.
    pub fn to_string(&self) -> (s: String)
        ensures
            s@ == self@.message,
    {
        self.message.clone()
    }
}

} // verus!
