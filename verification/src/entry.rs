//! Top-level mode selection: which of the three roles the process runs.

use vstd::prelude::*;

verus! {

use crate::error::GhostwriterError;

/// The launch flags that pick the mode.
#[derive(Debug, Clone, PartialEq)]
pub struct Args {
    /// Run in server mode hosting the given workspace directory.
    pub server: Option<String>,
    /// Connect to a remote server at the given URL.
    pub connect: Option<String>,
}

/// The role the process runs in.
#[derive(Debug, Clone, PartialEq)]
pub enum Mode {
    Local,
    Server { root: String },
    Connect { url: String },
}

impl Args {
    /// The mode the flags select: local by default, server or connect when
    /// exactly one of the two flags is given, and an error when both are.
    pub fn mode(&self) -> (r: Result<Mode, GhostwriterError>)
        ensures
            self.server is Some && self.connect is Some ==> r is Err,
            self.server matches Some(root) ==> (self.connect is None ==> (r matches Ok(m) && (
            m matches Mode::Server { root: rr } && rr@ == root@))),
            self.connect matches Some(u) ==> (self.server is None ==> (r matches Ok(m) && (
            m matches Mode::Connect { url: uu } && uu@ == u@))),
            self.server is None && self.connect is None ==> r == Result::<
                Mode,
                GhostwriterError,
            >::Ok(Mode::Local),
    {
        match (&self.server, &self.connect) {
            (Some(_), Some(_)) => {
                let m = "the server and connect flags are mutually exclusive";
                Err(GhostwriterError::InvalidArgument(m.to_owned()))
            },
            (Some(root), None) => Ok(Mode::Server { root: root.clone() }),
            (None, Some(url)) => Ok(Mode::Connect { url: url.clone() }),
            (None, None) => Ok(Mode::Local),
        }
    }
}

/// The role each mode dispatches to.
pub fn dispatch(mode: &Mode) -> (r: &'static str)
    ensures
        mode matches Mode::Server { .. } ==> r@ == "server"@,
        !(mode matches Mode::Server { .. }) ==> r@ == "client"@,
{
    match mode {
        Mode::Local => crate::client::run(),
        Mode::Server { .. } => crate::server::run(),
        Mode::Connect { .. } => crate::client::run(),
    }
}

} // verus!
