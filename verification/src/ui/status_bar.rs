//! The status bar model: what the bottom line of the screen reports.

use vstd::prelude::*;

verus! {

use crate::strutil::{dec_rep, push_dec, str_to_chars, chars_to_string};

/// Whether the open file is locked or read-only.
#[derive(Debug, Clone, Copy, PartialEq, Eq, Structural)]
pub enum LockStatus {
    Unlocked,
    Locked,
    ReadOnly,
}

/// The connection state shown to the user.
#[derive(Debug, Clone, Copy, PartialEq, Eq, Structural)]
pub enum ConnectionStatus {
    Online,
    Connecting,
    Offline,
}

/// Whether the editor works on a local or a remote document.
#[derive(Debug, Clone, Copy, PartialEq, Eq, Structural)]
pub enum Mode {
    Local,
    Remote,
}

/// Everything the status bar displays.
#[derive(Debug, Clone)]
pub struct StatusBar {
    pub file_path: String,
    pub cursor_line: usize,
    pub cursor_col: usize,
    pub lock_status: LockStatus,
    pub connection_status: ConnectionStatus,
    pub dirty: bool,
    pub mode: Mode,
}

impl StatusBar {
    /// The icon for the lock state.
    pub fn lock_icon(&self) -> (r: &'static str)
        ensures
            self.lock_status == LockStatus::Locked ==> r@ == "\u{1F512}"@,
            self.lock_status == LockStatus::ReadOnly ==> r@ == "\u{1F441}"@,
            self.lock_status == LockStatus::Unlocked ==> r@ == ""@,
    {
        match self.lock_status {
            LockStatus::Locked => "\u{1F512}",
            LockStatus::ReadOnly => "\u{1F441}",
            LockStatus::Unlocked => "",
        }
    }

    /// The icon for the connection state.
    pub fn connection_icon(&self) -> (r: &'static str)
        ensures
            self.connection_status == ConnectionStatus::Online ==> r@ == "\u{1F7E2}"@,
            self.connection_status == ConnectionStatus::Connecting ==> r@ == "\u{1F7E1}"@,
            self.connection_status == ConnectionStatus::Offline ==> r@ == "\u{1F534}"@,
    {
        match self.connection_status {
            ConnectionStatus::Online => "\u{1F7E2}",
            ConnectionStatus::Connecting => "\u{1F7E1}",
            ConnectionStatus::Offline => "\u{1F534}",
        }
    }

    /// The word for the mode.
    pub fn mode_text(&self) -> (r: &'static str)
        ensures
            self.mode == Mode::Local ==> r@ == "local"@,
            self.mode == Mode::Remote ==> r@ == "remote"@,
    {
        match self.mode {
            Mode::Local => "local",
            Mode::Remote => "remote",
        }
    }

    /// The dirty marker.
    pub fn dirty_marker(&self) -> (r: &'static str)
        ensures
            self.dirty ==> r@ == "*"@,
            !self.dirty ==> r@ == ""@,
    {
        if self.dirty {
            "*"
        } else {
            ""
        }
    }

    /// What the bar shows: the path and dirty marker, the cursor position,
    /// and the lock, connection and mode indicators.
    pub fn status_text(&self) -> (r: String)
        ensures
            r@ == self.spec_status_text(),
    {
        let mut chars: Vec<char> = Vec::new();
        append_str(&mut chars, self.file_path.as_str());
        append_str(&mut chars, self.dirty_marker());
        append_str(&mut chars, " | ");
        proof {
            reveal_strlit(" | ");
            reveal_strlit(":");
            reveal_strlit(" ");
        }
        push_dec(&mut chars, self.cursor_line as u64);
        append_str(&mut chars, ":");
        push_dec(&mut chars, self.cursor_col as u64);
        append_str(&mut chars, " ");
        append_str(&mut chars, self.lock_icon());
        append_str(&mut chars, " ");
        append_str(&mut chars, self.connection_icon());
        append_str(&mut chars, " ");
        append_str(&mut chars, self.mode_text());
        chars_to_string(&chars)
    }

    /// The exact character sequence of the status line.
    pub open spec fn spec_status_text(&self) -> Seq<char> {
        self.file_path@ + (if self.dirty {
            "*"@
        } else {
            ""@
        }) + " | "@ + dec_rep(self.cursor_line as int) + ":"@ + dec_rep(self.cursor_col as int)
            + " "@ + (match self.lock_status {
            LockStatus::Locked => "\u{1F512}"@,
            LockStatus::ReadOnly => "\u{1F441}"@,
            LockStatus::Unlocked => ""@,
        }) + " "@ + (match self.connection_status {
            ConnectionStatus::Online => "\u{1F7E2}"@,
            ConnectionStatus::Connecting => "\u{1F7E1}"@,
            ConnectionStatus::Offline => "\u{1F534}"@,
        }) + " "@ + (match self.mode {
            Mode::Local => "local"@,
            Mode::Remote => "remote"@,
        })
    }
}

/// Append a string's characters.
fn append_str(out: &mut Vec<char>, s: &str)
    ensures
        final(out)@ == old(out)@ + s@,
{
    let extra = str_to_chars(s);
    let n = extra.len();
    let mut i: usize = 0;
    let ghost base = out@;
    while i < n
        invariant
            i <= n,
            n == extra@.len(),
            extra@ == s@,
            out@ == base + extra@.subrange(0, i as int),
        decreases n - i,
    {
        out.push(extra[i]);
        proof {
            assert(out@ =~= base + extra@.subrange(0, i as int + 1));
        }
        i = i + 1;
    }
    proof {
        assert(extra@.subrange(0, n as int) =~= extra@);
    }
}

} // verus!
