pub mod acceptor;
pub mod buffer;
pub mod cli;
pub mod client;
pub mod editor;
pub mod entry;
pub mod error;
pub mod files;
pub mod grapheme;
pub mod hex;
pub mod keymap;
pub mod linecol;
pub mod network;
pub mod proto;
pub mod security;
pub mod server;
pub mod state;
pub mod session;
pub mod strutil;
pub mod ui;
pub mod undo;
pub mod viewport;
pub mod wal;
pub mod workspace;

use vstd::prelude::*;

verus! {

/// Sum of two machine integers, used by callers as a smoke-test entry point.
pub fn add(a: i32, b: i32) -> (r: i32)
    requires
        i32::MIN <= a + b <= i32::MAX,
    ensures
        r == a + b,
{
    a + b
}

} // verus!
