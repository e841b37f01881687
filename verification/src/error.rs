//! The single opaque error type the core hands to its callers.

use vstd::prelude::*;
use crate::strings::str_eq;

verus! {

/// An error surfaced by the library.  The payload is the underlying
/// failure's description; callers convert it to a transport-level status.
#[derive(Debug)]
pub enum Error {
    /// A stream or collaborator could not be processed.
    Io(String),
}

impl Error {
    /// The reason carried by the error.
    pub fn reason(&self) -> (r: &String)
        ensures
            *self matches Error::Io(m) && r@ == m@,
    {
        match self {
            Error::Io(m) => m,
        }
    }

    /// The error rendered as text for logs and responses.
    pub fn message(&self) -> (r: String)
        ensures
            *self matches Error::Io(m) && r@ == "Couldn't process the specified stream: "@
                + m@,
    {
        let mut out = String::new();
        out.append("Couldn't process the specified stream: ");
        out.append(self.reason().as_str());
        out
    }

    /// Whether two errors carry the same description.
    pub fn same_reason(&self, other: &Error) -> (r: bool)
        ensures
            r == (self.reason_view() == other.reason_view()),
    {
        match (self, other) {
            (Error::Io(a), Error::Io(b)) => str_eq(a.as_str(), b.as_str()),
        }
    }

    /// The description carried by the error.
    pub open spec fn reason_view(&self) -> Seq<char> {
        match self {
            Error::Io(m) => m@,
        }
    }
}

} // verus!
