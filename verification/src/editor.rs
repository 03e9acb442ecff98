//! The interactive editing layer: a character-indexed rope, cursor and
//! selection model, key handling, undo and incremental search.

pub mod cursor;
pub mod key_handler;
pub mod rope;
pub mod search;
pub mod selection;
pub mod undo;
