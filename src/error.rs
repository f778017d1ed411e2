//! The single error type of the library.
use vstd::prelude::*;

verus! {

/// What went wrong, as a category.
#[derive(Debug, Clone, Copy, PartialEq, Eq, Structural)]
pub enum ErrorKind {
    /// A required field was absent.
    MissingField,
    /// A `hash size path` line did not have three tokens, or the size was no `u64`.
    MalformedFiles,
    /// A version's epoch was not numeric, or a digit run overflowed.
    InvalidVersion,
    /// A relation atom had a malformed version annotation.
    InvalidRelation,
    /// A package list line had fewer than five tokens.
    MalformedPackageList,
    /// A date could not be parsed.
    BadDate,
    /// Bytes could not be decompressed or were not UTF-8.
    DecodeError,
    /// An operation was called before the state it needs existed.
    PreconditionFailed,
    /// Anything else.
    Other,
}

/// An error with a human-readable description.
#[derive(Debug, Clone)]
pub struct RaptoboError {
    kind: ErrorKind,
    details: String,
}

impl RaptoboError {
    /// A new error of kind `Other` with the given message as description.
    pub fn new(msg: &str) -> (r: RaptoboError)
        ensures
            r.spec_kind() == ErrorKind::Other,
            r.spec_details() == msg@,
    {
        RaptoboError { kind: ErrorKind::Other, details: msg.to_owned() }
    }

    /// A new error of the given kind.
    pub fn with_kind(kind: ErrorKind, msg: &str) -> (r: RaptoboError)
        ensures
            r.spec_kind() == kind,
            r.spec_details() == msg@,
    {
        RaptoboError { kind, details: msg.to_owned() }
    }

    /// The category, in specifications.
    pub closed spec fn spec_kind(&self) -> ErrorKind {
        self.kind
    }

    /// The description, in specifications.
    pub closed spec fn spec_details(&self) -> Seq<char> {
        self.details@
    }

    /// The category of the error.
    pub fn kind(&self) -> (r: ErrorKind)
        ensures
            r == self.spec_kind(),
    {
        self.kind
    }

    /// The description of the error.
    pub fn description(&self) -> (r: &str)
        ensures
            r@ == self.spec_details(),
    {
        self.details.as_str()
    }
}

} // verus!
