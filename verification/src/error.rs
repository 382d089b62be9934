//! The library's error type.
use vstd::prelude::*;

verus! {

/// Errors raised by the library, each with a human-readable message.
#[derive(Debug)]
pub enum Error {
    /// Invalid configuration.
    Config(String),
    /// A caller-supplied argument is out of range or malformed.
    InvalidArgument(String),
    /// A component failed while doing its work.
    Internal(String),
    /// The thing asked for does not exist.
    NotFound(String),
    /// A dependency is not available right now.
    Unavailable(String),
}

impl Error {
    /// The text of the error's message.
    pub open spec fn message_text(&self) -> Seq<char> {
        match self {
            Error::Config(s) => s@,
            Error::InvalidArgument(s) => s@,
            Error::Internal(s) => s@,
            Error::NotFound(s) => s@,
            Error::Unavailable(s) => s@,
        }
    }

    /// The error's message.
    pub fn message(&self) -> (m: &String)
        ensures
            m@ == self.message_text(),
    {
        match self {
            Error::Config(s) => s,
            Error::InvalidArgument(s) => s,
            Error::Internal(s) => s,
            Error::NotFound(s) => s,
            Error::Unavailable(s) => s,
        }
    }
}

} // verus!
