//! The errors of the library and how they read.
use vstd::prelude::*;
use vstd::string::*;

verus! {

/// What can go wrong.
#[derive(Debug)]
pub enum Error {
    InvalidWindow,
    InvalidConfig(String),
    ConfigurationWatcher(String),
    NotFound(String),
    /// A permission error.
    PermissionDenied(String),
    /// A problem with input.
    InvalidInput(String),
    /// An I/O error.
    IO(String),
    Generic(String),
}

impl Error {
    /// How the error reads: its kind, then its own message.
    pub open spec fn spec_text(self) -> Seq<char> {
        match self {
            Error::InvalidWindow => "Invalid window"@,
            Error::InvalidConfig(msg) => "Invalid configuration: "@ + msg@,
            Error::ConfigurationWatcher(msg) => "Watching config file: "@ + msg@,
            Error::NotFound(msg) => "Not found: "@ + msg@,
            Error::PermissionDenied(msg) => "Permission denied: "@ + msg@,
            Error::InvalidInput(msg) => "Invalid input: "@ + msg@,
            Error::IO(msg) => "IO error: "@ + msg@,
            Error::Generic(msg) => "Generic error: "@ + msg@,
        }
    }

    /// A "not found" error with this message.
    pub open spec fn is_not_found(self, message: Seq<char>) -> bool {
        self matches Error::NotFound(text) && text@ == message
    }

    /// An "invalid input" error with this message.
    pub open spec fn is_invalid_input(self, message: Seq<char>) -> bool {
        self matches Error::InvalidInput(text) && text@ == message
    }

    /// A permission error with this message.
    pub open spec fn is_permission_denied(self, message: Seq<char>) -> bool {
        self matches Error::PermissionDenied(text) && text@ == message
    }

    /// A generic error of the given flavor, as the words of an I/O error kind.
    pub fn new(flavor: &str, msg: &str) -> (error: Self)
        ensures
            error matches Error::Generic(text) && text@ == flavor@ + ": "@ + msg@,
    {
        let mut text = flavor.to_owned();
        text.append(": ");
        text.append(msg);
        Error::Generic(text)
    }

    /// An invalid window error. The message is for the log only.
    pub fn invalid_window(message: &str) -> (error: Self)
        ensures
            error == Error::InvalidWindow,
    {
        Error::InvalidWindow
    }

    /// A "not found" error with this message.
    pub(crate) fn not_found(message: &str) -> (error: Self)
        ensures
            error.is_not_found(message@),
    {
        Error::NotFound(message.to_owned())
    }

    /// How the error reads.
    pub fn text(&self) -> (text: String)
        ensures
            text@ == self.spec_text(),
    {
        let (head, message) = match self {
            Error::InvalidWindow => return "Invalid window".to_owned(),
            Error::InvalidConfig(msg) => ("Invalid configuration: ", msg),
            Error::ConfigurationWatcher(msg) => ("Watching config file: ", msg),
            Error::NotFound(msg) => ("Not found: ", msg),
            Error::PermissionDenied(msg) => ("Permission denied: ", msg),
            Error::InvalidInput(msg) => ("Invalid input: ", msg),
            Error::IO(msg) => ("IO error: ", msg),
            Error::Generic(msg) => ("Generic error: ", msg),
        };
        let mut text = head.to_owned();
        text.append(message.as_str());
        text
    }
}

} // verus!
