//! Command line arguments for the editor process.

use vstd::prelude::*;

verus! {

use crate::error::GhostwriterError;

/// Parsed command line arguments.
#[derive(Debug, Clone, PartialEq)]
pub struct Args {
    /// Open a local file or directory.
    pub path: Option<String>,
    /// Start in server mode with the given workspace directory.
    pub server: Option<String>,
    /// Connect to a remote server WebSocket URL.
    pub connect: Option<String>,
    /// Bind address for server mode.
    pub bind: String,
    /// Port for server mode.
    pub port: u16,
    /// Optional authentication key.
    pub key: Option<String>,
}

impl Args {
    /// Validate the arguments against what the file system reports: a given
    /// path must exist, and a server workspace must be a directory.
    pub fn validate(&self, path_exists: bool, server_is_dir: bool) -> (r: Result<
        (),
        GhostwriterError,
    >)
        ensures
            r is Ok <==> ((self.path is Some ==> path_exists) && (self.server is Some
                ==> server_is_dir)),
            self.path is Some && !path_exists ==> r == Result::<(), GhostwriterError>::Err(
                GhostwriterError::FileNotFound,
            ),
            (self.path is None || path_exists) && self.server is Some && !server_is_dir ==> (
            r matches Err(e) && e matches GhostwriterError::InvalidArgument(m) && m@
                == "server path must be a directory"@),
    {
        match &self.path {
            Some(_) => {
                if !path_exists {
                    return Err(GhostwriterError::FileNotFound);
                }
            },
            None => {},
        }
        match &self.server {
            Some(_) => {
                if !server_is_dir {
                    let m = "server path must be a directory";
                    return Err(GhostwriterError::InvalidArgument(m.to_owned()));
                }
            },
            None => {},
        }
        Ok(())
    }
}

} // verus!
