//! Error values shared by the storage layer and the commands.

use vstd::prelude::*;

verus! {

/// The category of a storage or service failure.
#[derive(Clone, Copy, Debug, PartialEq, Eq, Structural)]
pub enum ErrorKind {
    /// A drive, file or scheme is not there.
    NotFound,
    /// A drive name or scheme is already taken.
    AlreadyExists,
    /// The drive is the current working drive and cannot be released.
    Busy,
    /// The backend refuses the operation, e.g. a write to a read-only drive.
    PermissionDenied,
    /// A name, URI, target or token is malformed.
    InvalidInput,
    /// The backend does not offer the operation.
    Unsupported,
    /// The drive's contents are held by the remote service and must be reached through it.
    Remote,
    /// Any other failure reported by a backend or the service.
    Other,
}

/// A failure of a storage operation or of the remote service.
#[derive(Debug)]
pub struct IoError {
    pub kind: ErrorKind,
    pub message: String,
}

impl IoError {
    pub fn new(kind: ErrorKind, message: String) -> (r: IoError)
        ensures
            r.kind == kind,
            r.message@ == message@,
    {
        IoError { kind, message }
    }
}

/// A position in the source text of a statement.
#[derive(Clone, Copy, Debug, PartialEq, Eq, Structural)]
pub struct LineCol {
    pub line: usize,
    pub col: usize,
}

/// The failure of a command.
#[derive(Debug)]
pub enum CommandError {
    /// The command was used out of turn, e.g. a second login.
    Usage(String),
    /// An argument is malformed; carries the position of the argument.
    Syntax(LineCol, String),
    /// A storage or service failure, passed through.
    Io(IoError),
}

} // verus!
