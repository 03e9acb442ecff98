//! Persisted application state.

use vstd::prelude::*;

verus! {

/// What the editor remembers across runs.
#[derive(Debug, PartialEq)]
pub struct AppState {
    pub recent_files: Vec<String>,
}

impl Default for AppState {
    /// A fresh state remembers nothing.
    fn default() -> (r: AppState)
        ensures
            r.recent_files@ == Seq::<String>::empty(),
    {
        AppState { recent_files: Vec::new() }
    }
}

} // verus!
