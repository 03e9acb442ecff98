//! Browser-like history of open files with branching.

use vstd::prelude::*;

verus! {

use crate::editor::cursor::Cursor;
use crate::editor::undo::UndoStack;

/// State of an open file including editor context.
#[derive(Debug)]
pub struct FileState {
    pub path: String,
    pub cursor: Cursor,
    pub scroll_x: u16,
    pub scroll_y: u16,
    pub undo: UndoStack,
}

/// Browser-like file history with branching support.
pub struct FileHistory {
    entries: Vec<FileState>,
    position: usize,
}

impl FileHistory {
    /// The recorded states.
    pub closed spec fn entries_view(&self) -> Seq<FileState> {
        self.entries@
    }

    /// The index of the current state.
    pub closed spec fn pos(&self) -> int {
        self.position as int
    }

    /// The position points at an entry, or at zero when there is none.
    pub open spec fn wf(&self) -> bool {
        if self.entries_view().len() == 0 {
            self.pos() == 0
        } else {
            self.pos() < self.entries_view().len()
        }
    }

    /// Create an empty file history.
    pub fn new() -> (r: FileHistory)
        ensures
            r.wf(),
            r.entries_view() == Seq::<FileState>::empty(),
            r.pos() == 0,
    {
        FileHistory { entries: Vec::new(), position: 0 }
    }

    /// Push a new file state onto the history, truncating any forward
    /// entries past the current one.
    pub fn push(&mut self, state: FileState)
        requires
            old(self).wf(),
        ensures
            final(self).wf(),
            final(self).entries_view() == (if old(self).pos() + 1 < old(self).entries_view().len() {
                old(self).entries_view().take(old(self).pos() + 1)
            } else {
                old(self).entries_view()
            }).push(state),
            final(self).pos() == final(self).entries_view().len() - 1,
    {
        let n = self.entries.len();
        if n > 0 && self.position < n - 1 {
            self.entries.truncate(self.position + 1);
        }
        self.entries.push(state);
        self.position = self.entries.len() - 1;
    }

    /// Move backward in history, returning the new current state.
    pub fn back(&mut self) -> (r: Option<&FileState>)
        requires
            old(self).wf(),
        ensures
            final(self).wf(),
            final(self).entries_view() == old(self).entries_view(),
            old(self).pos() == 0 ==> r is None && final(self).pos() == 0,
            old(self).pos() > 0 ==> (r matches Some(st) && final(self).pos() == old(self).pos() - 1
                && *st == final(self).entries_view()[final(self).pos()]),
    {
        if self.position == 0 {
            return None;
        }
        self.position = self.position - 1;
        Some(&self.entries[self.position])
    }

    /// Move forward in history, returning the new current state.
    pub fn forward(&mut self) -> (r: Option<&FileState>)
        requires
            old(self).wf(),
        ensures
            final(self).wf(),
            final(self).entries_view() == old(self).entries_view(),
            old(self).pos() + 1 >= old(self).entries_view().len() ==> r is None && final(self).pos() == old(self).pos(),
            old(self).pos() + 1 < old(self).entries_view().len() ==> (r matches Some(st) && final(self).pos() == old(self).pos() + 1 && *st == final(self).entries_view()[final(self).pos()]),
    {
        let n = self.entries.len();
        if n == 0 || self.position >= n - 1 {
            return None;
        }
        self.position = self.position + 1;
        Some(&self.entries[self.position])
    }

    /// Get the current file state.
    pub fn current(&self) -> (r: Option<&FileState>)
        requires
            self.wf(),
        ensures
            self.entries_view().len() == 0 ==> r is None,
            self.entries_view().len() > 0 ==> (r matches Some(st) && *st
                == self.entries_view()[self.pos()]),
    {
        if self.entries.len() == 0 {
            None
        } else {
            Some(&self.entries[self.position])
        }
    }

    /// Number of entries stored.
    pub fn len(&self) -> (r: usize)
        ensures
            r == self.entries_view().len(),
    {
        self.entries.len()
    }

    /// Whether history is empty.
    pub fn is_empty(&self) -> (r: bool)
        ensures
            r == (self.entries_view().len() == 0),
    {
        self.entries.len() == 0
    }
}

} // verus!
