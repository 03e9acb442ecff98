//! Workspace directory entries as the protocol reports them.

use vstd::prelude::*;

verus! {

/// File or directory entry information.
#[derive(Debug, Clone, PartialEq)]
pub struct DirEntryInfo {
    pub name: String,
    pub is_dir: bool,
    pub size: u64,
}

} // verus!
