//! The library's error: a message.
use vstd::prelude::*;

verus! {

/// An error with its message.
#[derive(Debug, Clone)]
pub enum Error {
    E(String),
}

impl Error {
    /// The message of the error, which is what it prints as.
    pub open spec fn text(&self) -> Seq<char> {
        match self {
            Error::E(s) => s@,
        }
    }

    /// An error whose message is `msg`.
    pub fn from_text(msg: &str) -> (e: Error)
        ensures
            e.text() == msg@,
    {
        Error::E(String::from_str(msg))
    }

    /// The message as a `String`.
    pub fn message(&self) -> (s: String)
        ensures
            s@ == self.text(),
    {
        match self {
            Error::E(s) => s.clone(),
        }
    }
}

} // verus!
