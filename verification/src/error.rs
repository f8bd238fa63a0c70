use vstd::prelude::*;

verus! {

/// An error returned by unjar.
///
/// The variants that stand for a failure of a lower-level service carry the
/// text that service reported.
#[derive(Debug, Clone, PartialEq, Eq)]
#[non_exhaustive]
pub enum Error {
    /// A user-facing error without a lower-level source.
    Message(String),
    /// An I/O operation failed.
    Io(String),
    /// A browser database operation failed.
    Database(String),
    /// Text returned by a platform service was not valid UTF-8.
    Utf8(String),
}

/// The text an error is shown as.
pub open spec fn spec_error_text(e: Error) -> Seq<char> {
    match e {
        Error::Message(m) => m@,
        Error::Io(m) => m@,
        Error::Database(m) => m@,
        Error::Utf8(m) => m@,
    }
}

impl Error {
    /// A user-facing error with the given text.
    pub fn message(text: &str) -> (e: Error)
        ensures
            e matches Error::Message(m) && m@ == text@,
    {
        Error::Message(String::from_str(text))
    }

    /// The text this error is shown as (what `Display` shows).
    pub fn text(&self) -> (s: String)
        ensures
            s@ == spec_error_text(*self),
    {
        match self {
            Error::Message(m) => m.clone(),
            Error::Io(m) => m.clone(),
            Error::Database(m) => m.clone(),
            Error::Utf8(m) => m.clone(),
        }
    }
}

} // verus!

verus! {

impl From<String> for Error {
    /// A user-facing error with the given text.
    fn from(message: String) -> (e: Error) {
        Error::Message(message)
    }
}

impl vstd::std_specs::convert::FromSpecImpl<String> for Error {
    open spec fn obeys_from_spec() -> bool {
        true
    }

    open spec fn from_spec(message: String) -> Error {
        Error::Message(message)
    }
}

/// A result returned by unjar.
pub type Result<T> = std::result::Result<T, Error>;

} // verus!
