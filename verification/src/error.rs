//! The errors shared by the grammar and the configuration.

use vstd::prelude::*;

verus! {

/// What went wrong, with a message for the operator.
#[derive(Debug, PartialEq, Eq)]
pub enum Error {
    /// Text that does not follow the grammar.
    Parse(String),
    /// Something required is absent: a URL, an encryption scheme.
    Null(String),
    /// A peer is unnamed, or named twice.
    Peer(String),
    /// A configuration file is where none should be, or missing.
    NotExists(String),
    /// The service is not set up to run.
    Misconfigured(String),
    /// An internal rule was broken.
    Bug(String),
    /// A key could not be made, or data could not be sealed or opened.
    Crypto(String),
}

impl Error {
    /// The message the error carries.
    pub fn message(&self) -> (r: &str)
        ensures
            r@ == self.text(),
    {
        match self {
            Error::Parse(m) => m.as_str(),
            Error::Null(m) => m.as_str(),
            Error::Peer(m) => m.as_str(),
            Error::NotExists(m) => m.as_str(),
            Error::Misconfigured(m) => m.as_str(),
            Error::Bug(m) => m.as_str(),
            Error::Crypto(m) => m.as_str(),
        }
    }

    /// The message as a sequence of characters.
    pub open spec fn text(&self) -> Seq<char> {
        match self {
            Error::Parse(m) => m@,
            Error::Null(m) => m@,
            Error::Peer(m) => m@,
            Error::NotExists(m) => m@,
            Error::Misconfigured(m) => m@,
            Error::Bug(m) => m@,
            Error::Crypto(m) => m@,
        }
    }
}

} // verus!
