//! Error types and error conversions.

use vstd::prelude::*;
use vstd::std_specs::convert::FromSpecImpl;
use vstd::string::StringExecFns;

verus! {

/// What can go wrong while a dump is taken.
#[derive(Debug, PartialEq, Eq)]
pub enum Error {
    /// The dump file could not be created, or the dump could not be written
    /// into it.
    MiniDump(String),
    /// A read, write or open failed; holds the system's description.
    IO(String),
    /// A directory could not be listed, or a name in it could not be read,
    /// while a sequence number was picked.
    BadFormat(String),
}

/// An [`Error`] with its reason as a sequence of characters.
pub enum ErrorView {
    MiniDump(Seq<char>),
    IO(Seq<char>),
    BadFormat(Seq<char>),
}

impl View for Error {
    type V = ErrorView;

    open spec fn view(&self) -> ErrorView {
        match self {
            Error::MiniDump(s) => ErrorView::MiniDump(s@),
            Error::IO(s) => ErrorView::IO(s@),
            Error::BadFormat(s) => ErrorView::BadFormat(s@),
        }
    }
}

impl ErrorView {
    /// The text an error is shown as: what failed, a semicolon, the reason.
    pub open spec fn text(self) -> Seq<char> {
        match self {
            ErrorView::MiniDump(s) => "Unable to create minidump; "@ + s,
            ErrorView::IO(s) => "I/O error; "@ + s,
            ErrorView::BadFormat(s) => "Bad format error; "@ + s,
        }
    }
}

/// `std::io::Error`, carried as it is: nothing inside it is read.
#[verifier::external_type_specification]
#[verifier::external_body]
pub struct ExIoError(std::io::Error);

/// The description that `std::io::Error` gives of itself through `Display`.
/// It comes from the operating system, so nothing is claimed of it.
#[verifier::external_body]
fn io_error_text(err: &std::io::Error) -> (s: String) {
    err.to_string()
}

impl Error {
    /// The error of a failed read, write or open, with the system's
    /// description as it is: nothing is cut off or put before it.
    pub fn io(reason: String) -> (e: Error)
        ensures
            e@ == ErrorView::IO(reason@),
    {
        Error::IO(reason)
    }

    /// The error as text: what failed, a semicolon, the reason.
    pub fn to_string(&self) -> (s: String)
        ensures
            s@ == self@.text(),
    {
        match self {
            Error::MiniDump(r) => String::from_str("Unable to create minidump; ").concat(
                r.as_str(),
            ),
            Error::IO(r) => String::from_str("I/O error; ").concat(r.as_str()),
            Error::BadFormat(r) => String::from_str("Bad format error; ").concat(r.as_str()),
        }
    }
}

impl From<std::io::Error> for Error {
    /// An I/O error becomes [`Error::IO`]; [`Error::io`] is handed the
    /// description that the error gives of itself.
    fn from(err: std::io::Error) -> (e: Error)
        ensures
            e is IO,
    {
        Error::io(io_error_text(&err))
    }
}

impl FromSpecImpl<std::io::Error> for Error {
    open spec fn obeys_from_spec() -> bool {
        false
    }

    open spec fn from_spec(err: std::io::Error) -> Error {
        arbitrary()
    }
}

} // verus!
