//! The error that reading terminal input reports.
use vstd::prelude::*;

verus! {

/// What went wrong. Only the first three kinds make a difference here; the others are carried to
/// the callers.
#[derive(Debug, Clone, Copy, PartialEq, Eq, Structural)]
pub enum ErrorKind {
    /// The operation was interrupted and can be tried again.
    Interrupted,
    /// No data is available on a non-blocking descriptor.
    WouldBlock,
    /// The platform cannot do it.
    Unsupported,
    NotFound,
    PermissionDenied,
    ConnectionRefused,
    ConnectionReset,
    ConnectionAborted,
    NotConnected,
    AddrInUse,
    AddrNotAvailable,
    BrokenPipe,
    AlreadyExists,
    InvalidInput,
    InvalidData,
    TimedOut,
    WriteZero,
    UnexpectedEof,
    OutOfMemory,
    /// Anything else.
    Other,
}

/// A failure with its kind, its text and, where the operating system reported it, its code.
#[derive(Debug, Clone, PartialEq, Eq)]
pub struct Error {
    pub kind: ErrorKind,
    pub os_code: Option<i32>,
    pub message: String,
}

/// What an [`Error`] says.
pub struct ErrorView {
    pub kind: ErrorKind,
    pub os_code: Option<i32>,
    pub message: Seq<char>,
}

impl View for Error {
    type V = ErrorView;

    open spec fn view(&self) -> ErrorView {
        ErrorView { kind: self.kind, os_code: self.os_code, message: self.message@ }
    }
}

impl Error {
    /// A failure that the operating system did not report.
    pub fn new(kind: ErrorKind, message: &str) -> (r: Error)
        ensures
            r@ == (ErrorView { kind, os_code: None, message: message@ }),
    {
        Error { kind, os_code: None, message: message.to_owned() }
    }

    pub fn kind(&self) -> (r: ErrorKind)
        ensures
            r == self.kind,
    {
        self.kind
    }
}

} // verus!
