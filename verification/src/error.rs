//! The error type shared by the parsing and aggregation functions.
use vstd::prelude::*;

verus! {

/// A type alias for `Result<T, dpt::Error>`.
pub type Result<T> = core::result::Result<T, Error>;

/// The specific kind of an [`Error`].
#[derive(Debug)]
pub enum ErrorKind {
    /// A byte sequence is invalid for the selected character encoding.
    Decode(String),
    /// A required configuration entry is missing or malformed.
    Config(String),
    /// A field's text does not parse into the required type; carries the
    /// offending text and the name of the target type.
    FromStr(String, &'static str),
    /// A row-level failure together with its 1-based line number; raised only
    /// in strict mode.
    MalformedData(String, usize),
}

/// The mathematical shape of an [`ErrorKind`]: the same variants over
/// sequences of characters.
pub enum ErrorKindView {
    Decode(Seq<char>),
    Config(Seq<char>),
    FromStr(Seq<char>, Seq<char>),
    MalformedData(Seq<char>, int),
}

impl View for ErrorKind {
    type V = ErrorKindView;

    open spec fn view(&self) -> ErrorKindView {
        match self {
            ErrorKind::Decode(s) => ErrorKindView::Decode(s@),
            ErrorKind::Config(s) => ErrorKindView::Config(s@),
            ErrorKind::FromStr(s, t) => ErrorKindView::FromStr(s@, t@),
            ErrorKind::MalformedData(s, n) => ErrorKindView::MalformedData(s@, *n as int),
        }
    }
}

/// An error that can occur while resolving configuration, parsing rows, or
/// aggregating records.
#[derive(Debug)]
pub struct Error {
    kind: ErrorKind,
}

impl View for Error {
    type V = ErrorKindView;

    closed spec fn view(&self) -> ErrorKindView {
        self.kind@
    }
}

impl Error {
    /// Wraps an [`ErrorKind`] into an [`Error`].
    pub fn new(kind: ErrorKind) -> (e: Error)
        ensures
            e@ == kind@,
    {
        Error { kind }
    }

    /// Returns the specific kind of this error.
    pub fn kind(&self) -> (k: &ErrorKind)
        ensures
            k@ == self@,
    {
        &self.kind
    }

    /// Unwraps this error into its underlying kind.
    pub fn into_kind(self) -> (k: ErrorKind)
        ensures
            k@ == self@,
    {
        self.kind
    }
}

} // verus!
