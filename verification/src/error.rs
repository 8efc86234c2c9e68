//! Typed errors of the toolkit.

use vstd::prelude::*;
use crate::text::push_str_of;

verus! {

/// Category of a failure, telling a caller fault from a fault elsewhere.
#[derive(Debug, Clone, Copy, PartialEq, Eq, Structural)]
pub enum ErrorCode {
    /// The caller supplied an input that is not acceptable.
    InvalidInput,
    /// A requested item does not exist.
    NotFound,
    /// An internal fault.
    Internal,
    /// An outside service returned an unusable response.
    ExternalService,
    /// An outside service could not be reached.
    ServiceUnavailable,
    /// An operation ran out of time.
    Timeout,
}

/// The message of an error with context put in front: the context, `: `,
/// then the original message.
pub open spec fn context_message(context: Seq<char>, message: Seq<char>) -> Seq<char> {
    context + ": "@ + message
}

/// An error with its category and a human-readable message.
#[derive(Debug, Clone, PartialEq, Eq)]
pub struct BenchError {
    /// Category of the failure.
    pub code: ErrorCode,
    /// Human-readable description.
    pub message: String,
}

impl BenchError {
    /// An error of category `code` with `message`.
    pub fn new(code: ErrorCode, message: &str) -> (e: Self)
        ensures
            e.code == code,
            e.message@ == message@,
    {
        BenchError { code, message: String::from_str(message) }
    }

    /// The same error with `context` put in front of its message; the
    /// category is kept.
    pub fn context(self, context: &str) -> (e: Self)
        ensures
            e.code == self.code,
            e.message@ == context_message(context@, self.message@),
    {
        let mut m = String::new();
        push_str_of(&mut m, context);
        push_str_of(&mut m, ": ");
        push_str_of(&mut m, self.message.as_str());
        BenchError { code: self.code, message: m }
    }

    /// The category of the error.
    pub fn code(&self) -> (c: ErrorCode)
        ensures
            c == self.code,
    {
        self.code
    }

    /// The message of the error.
    pub fn message(&self) -> (m: &str)
        ensures
            m@ == self.message@,
    {
        self.message.as_str()
    }
}

} // verus!
