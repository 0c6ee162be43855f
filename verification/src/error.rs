//! The error taxonomy of the library.

use vstd::prelude::*;

verus! {

/// An error surfaced by the store or the runner. Mismatched snapshots are not
/// errors: they are reported as an [`crate::test::Outcome`].
#[derive(Debug, Clone, PartialEq, Eq)]
pub enum Error {
    /// The snapshot file could not be created, opened, read or written.
    Io(String),
    /// The snapshot bytes do not decode to a mapping, or the mapping could
    /// not be encoded.
    Serialization(String),
    /// The test's own producer function failed; the store is never touched.
    Producer(String),
    /// A required builder field was never set: a programmer error.
    MissingField(String),
}

impl Error {
    /// The message carried by the error, whatever its variant.
    pub open spec fn text(self) -> Seq<char> {
        match self {
            Error::Io(m) => m@,
            Error::Serialization(m) => m@,
            Error::Producer(m) => m@,
            Error::MissingField(m) => m@,
        }
    }

    /// The human-readable message carried by the error.
    pub fn message(&self) -> (r: &String)
        ensures
            r@ == self.text(),
    {
        match self {
            Error::Io(m) => m,
            Error::Serialization(m) => m,
            Error::Producer(m) => m,
            Error::MissingField(m) => m,
        }
    }
}

} // verus!
