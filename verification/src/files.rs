//! File-level facilities: diffs, the open-file history, content checks and
//! conflict resolution.

pub mod diff;
pub mod file_history;
pub mod file_manager;
pub mod file_watcher;
pub mod search;
