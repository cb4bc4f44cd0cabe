//! Error values surfaced by the calculator core.
//!
//! Every failure carries a structured kind, so callers can dispatch without
//! parsing prose, together with the human-readable message the interactive
//! layer shows.

use vstd::prelude::*;

verus! {

/// The kinds of failure the calculator core can report.
#[derive(Debug, Clone, Copy, PartialEq, Eq, Structural)]
pub enum ErrorKind {
    /// Invalid character, malformed number, or unknown identifier.
    Syntax,
    /// An identifier was neither reserved nor found in the variable store.
    UndefinedVariable,
    /// An unmatched `(` or `)`.
    ParenthesisMismatch,
    /// An operator, function or factorial found too few stack values, or the
    /// final stack did not hold exactly one value.
    InsufficientOperands,
    /// A function or factorial argument outside its mathematical domain.
    Domain,
    /// Division or modulo by zero, or a non-finite numeric result.
    Arithmetic,
    /// An invalid assignment: bad name, reserved name, or empty right side.
    Assignment,
    /// A token that the earlier pipeline stages can never emit.
    Internal,
}

/// An error of the calculator core: a structured kind plus the exact message.
#[derive(Debug, Clone)]
pub struct CalcError {
    pub kind: ErrorKind,
    pub message: String,
}

impl View for CalcError {
    type V = (ErrorKind, Seq<char>);

    open spec fn view(&self) -> (ErrorKind, Seq<char>) {
        (self.kind, self.message@)
    }
}

impl CalcError {
    /// Builds an error from a kind and a complete message.
    pub fn new(kind: ErrorKind, message: String) -> (r: CalcError)
        ensures
            r@ == (kind, message@),
    {
        CalcError { kind, message }
    }

    /// Builds an error whose message is a fixed phrase.
    pub fn from_parts(kind: ErrorKind, message: &str) -> (r: CalcError)
        ensures
            r@ == (kind, message@),
    {
        CalcError { kind, message: String::from_str(message) }
    }

    /// The human-readable message.
    pub fn message(&self) -> (r: &str)
        ensures
            r@ == self.message@,
    {
        self.message.as_str()
    }
}

} // verus!
