//! The failure taxonomy shared by every component.

use vstd::prelude::*;

verus! {

/// The class of a failure.
#[derive(Clone, Copy, Debug, PartialEq, Eq, Structural)]
pub enum Kind {
    /// A route segment that no registered transport resolves, or a missing entry.
    NotFound,
    /// A peer rejected the request for good; never retried.
    BadRequest,
    /// A local condition that must hold before work starts does not hold.
    PreconditionFailed,
    /// Stored bytes that do not decode.
    Corruption,
    /// The overall time allowance ran out.
    Timeout,
    /// Any other transport or storage failure.
    Internal,
}

/// A failure: its class and a message for the user.
#[derive(Debug, PartialEq, Eq)]
pub struct Error {
    pub kind: Kind,
    pub message: String,
}

/// What a failure stands for: its class and the characters of its message.
pub struct ErrorView {
    pub kind: Kind,
    pub message: Seq<char>,
}

impl View for Error {
    type V = ErrorView;

    open spec fn view(&self) -> ErrorView {
        ErrorView { kind: self.kind, message: self.message@ }
    }
}

impl Clone for Error {
    fn clone(&self) -> (e: Error)
        ensures
            e@ == self@,
    {
        Error { kind: self.kind, message: self.message.clone() }
    }
}

impl Error {
    /// Builds a failure of class `kind` that carries `message`.
    pub fn new(kind: Kind, message: &str) -> (e: Error)
        ensures
            e.kind == kind,
            e.message@ == message@,
            e@ == (ErrorView { kind, message: message@ }),
    {
        Error { kind, message: message.to_owned() }
    }

    /// The class of this failure.
    pub fn kind(&self) -> (k: Kind)
        ensures
            k == self.kind,
    {
        self.kind
    }

    /// The message of this failure.
    pub fn message(&self) -> (m: &str)
        ensures
            m@ == self.message@,
    {
        self.message.as_str()
    }

    /// Whether a retry loop must stop on this failure whatever its cadence.
    pub open spec fn spec_is_fatal(&self) -> bool {
        self.kind == Kind::BadRequest || self.kind == Kind::PreconditionFailed
    }

    /// Whether a retry loop must stop on this failure whatever its cadence.
    #[verifier::when_used_as_spec(spec_is_fatal)]
    pub fn is_fatal(&self) -> (b: bool)
        ensures
            b == self.spec_is_fatal(),
    {
        match self.kind {
            Kind::BadRequest => true,
            Kind::PreconditionFailed => true,
            _ => false,
        }
    }
}

} // verus!
