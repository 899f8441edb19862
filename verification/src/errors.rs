//! Error types for tar operations.

use vstd::prelude::*;
use vstd::string::StringExecFns;

verus! {

/// The classification of an operating-system I/O failure that the
/// surrounding program hands to the library: the two kinds the library
/// distinguishes, and everything else.
#[derive(Debug, Clone, Copy, PartialEq, Eq, Structural)]
pub enum IoKind {
    /// The referenced file or directory does not exist.
    NotFound,
    /// Filesystem access was refused.
    PermissionDenied,
    /// Any other I/O failure.
    Other,
}

/// An operating-system I/O failure as the library sees it: its
/// classification and its message text.
#[derive(Debug)]
pub struct IoFailure {
    pub kind: IoKind,
    pub message: String,
}

/// Error types for tar operations.
#[derive(Debug)]
pub enum TarError {
    /// I/O error occurred
    IoError(String),
    /// Invalid archive format or corrupted archive
    InvalidArchive(String),
    /// File or directory not found
    FileNotFound(String),
    /// Permission denied
    PermissionDenied(String),
    /// General tar operation error
    TarOperationError(String),
}

impl TarError {
    /// The user-facing message of this error.
    pub open spec fn message_spec(&self) -> Seq<char> {
        match self {
            TarError::IoError(msg) => msg@,
            TarError::InvalidArchive(msg) => "Invalid archive: "@ + msg@,
            TarError::FileNotFound(path) => "File not found: "@ + path@,
            TarError::PermissionDenied(path) => "Permission denied: "@ + path@,
            TarError::TarOperationError(msg) => "tar: "@ + msg@,
        }
    }

    /// Formats the error for display to users.
    pub fn message(&self) -> (r: String)
        ensures
            r@ == self.message_spec(),
    {
        match self {
            TarError::IoError(msg) => msg.clone(),
            TarError::InvalidArchive(msg) => "Invalid archive: ".to_owned().concat(msg.as_str()),
            TarError::FileNotFound(path) => "File not found: ".to_owned().concat(path.as_str()),
            TarError::PermissionDenied(path) => {
                "Permission denied: ".to_owned().concat(path.as_str())
            },
            TarError::TarOperationError(msg) => "tar: ".to_owned().concat(msg.as_str()),
        }
    }

    /// The process exit code that this error asks for.
    pub open spec fn code_spec(&self) -> i32 {
        match self {
            TarError::IoError(_) => 2,
            TarError::InvalidArchive(_) => 2,
            TarError::FileNotFound(_) => 1,
            TarError::PermissionDenied(_) => 1,
            TarError::TarOperationError(_) => 1,
        }
    }

    /// Returns the exit code for this error type.
    pub fn code(&self) -> (r: i32)
        ensures
            r == self.code_spec(),
    {
        match self {
            TarError::IoError(_) => 2,
            TarError::InvalidArchive(_) => 2,
            TarError::FileNotFound(_) => 1,
            TarError::PermissionDenied(_) => 1,
            TarError::TarOperationError(_) => 1,
        }
    }

    /// Returns the underlying error message, if any: only an I/O error
    /// carries one.
    pub fn source(&self) -> (r: Option<String>)
        ensures
            match self {
                TarError::IoError(msg) => r matches Some(s) && s@ == msg@,
                _ => r is None,
            },
    {
        match self {
            TarError::IoError(msg) => Some(msg.clone()),
            _ => None,
        }
    }

    /// Converts an I/O failure into the appropriate `TarError` variant,
    /// carrying the failure's own message.
    pub fn from(err: IoFailure) -> (r: TarError)
        ensures
            match err.kind {
                IoKind::NotFound => (r matches TarError::FileNotFound(m) && m@ == err.message@),
                IoKind::PermissionDenied => (r matches TarError::PermissionDenied(m) && m@
                    == err.message@),
                IoKind::Other => (r matches TarError::IoError(m) && m@ == err.message@),
            },
    {
        match err.kind {
            IoKind::NotFound => TarError::FileNotFound(err.message),
            IoKind::PermissionDenied => TarError::PermissionDenied(err.message),
            IoKind::Other => TarError::IoError(err.message),
        }
    }

    /// Creates a `TarError` from an I/O failure with file path context: the
    /// not-found and permission kinds report the path, anything else keeps
    /// the failure's message.
    pub fn from_io_error(err: IoFailure, path: &str) -> (r: TarError)
        ensures
            match err.kind {
                IoKind::NotFound => (r matches TarError::FileNotFound(m) && m@ == path@),
                IoKind::PermissionDenied => (r matches TarError::PermissionDenied(m) && m@
                    == path@),
                IoKind::Other => (r matches TarError::IoError(m) && m@ == err.message@),
            },
    {
        match err.kind {
            IoKind::NotFound => TarError::FileNotFound(path.to_owned()),
            IoKind::PermissionDenied => TarError::PermissionDenied(path.to_owned()),
            IoKind::Other => TarError::IoError(err.message),
        }
    }
}

} // verus!
