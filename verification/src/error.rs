//! The library's error type.

use vstd::prelude::*;

verus! {

/// Primary error type.
#[derive(Debug, Clone, PartialEq)]
pub enum GhostwriterError {
    /// File was not found on disk.
    FileNotFound,
    /// Operation failed due to insufficient permissions.
    PermissionDenied,
    /// Any network related error.
    Network(String),
    /// Catch-all for other I/O errors, carrying their message.
    Io(String),
    /// Invalid argument or input.
    InvalidArgument(String),
}

impl GhostwriterError {
    /// The user-facing description of the error.
    pub fn message(&self) -> (r: String)
        ensures
            *self == GhostwriterError::FileNotFound ==> r@ == "file not found"@,
            *self == GhostwriterError::PermissionDenied ==> r@ == "permission denied"@,
            self matches GhostwriterError::Network(m) ==> r@ == "network error: "@ + m@,
            self matches GhostwriterError::Io(m) ==> r@ == "io error: "@ + m@,
            self matches GhostwriterError::InvalidArgument(m) ==> r@ == "invalid argument: "@
                + m@,
    {
        match self {
            GhostwriterError::FileNotFound => {
                let s = "file not found";
                s.to_owned()
            },
            GhostwriterError::PermissionDenied => {
                let s = "permission denied";
                s.to_owned()
            },
            GhostwriterError::Network(m) => {
                let s = "network error: ";
                s.to_owned().concat(m.as_str())
            },
            GhostwriterError::Io(m) => {
                let s = "io error: ";
                s.to_owned().concat(m.as_str())
            },
            GhostwriterError::InvalidArgument(m) => {
                let s = "invalid argument: ";
                s.to_owned().concat(m.as_str())
            },
        }
    }
}

} // verus!
