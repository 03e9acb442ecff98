//! The interactive editing layer's undo system: a bounded history of edits
//! with a position marking how far it has been undone.

use vstd::prelude::*;

verus! {

use crate::editor::cursor::Cursor;
use crate::editor::rope::Rope;
use crate::editor::selection::{rope_clamped_removed};

/// Undo operation types.
#[derive(Debug, Clone)]
pub enum UndoOperation {
    Insert { index: usize, text: String },
    Delete { index: usize, text: String },
}

/// One recorded edit with the cursor before and after it.
#[derive(Debug, Clone)]
pub struct UndoRecord {
    pub op: UndoOperation,
    pub before: Cursor,
    pub after: Cursor,
}

/// Mathematical image of an operation.
#[verifier::ext_equal]
pub enum UndoOpV {
    Insert { index: usize, text: Seq<char> },
    Delete { index: usize, text: Seq<char> },
}

/// Mathematical image of a record.
#[verifier::ext_equal]
pub struct UndoRecordV {
    pub op: UndoOpV,
    pub before: Cursor,
    pub after: Cursor,
}

impl View for UndoOperation {
    type V = UndoOpV;

    open spec fn view(&self) -> UndoOpV {
        match self {
            UndoOperation::Insert { index, text } => UndoOpV::Insert {
                index: *index,
                text: text@,
            },
            UndoOperation::Delete { index, text } => UndoOpV::Delete {
                index: *index,
                text: text@,
            },
        }
    }
}

impl View for UndoRecord {
    type V = UndoRecordV;

    open spec fn view(&self) -> UndoRecordV {
        UndoRecordV { op: self.op@, before: self.before, after: self.after }
    }
}

/// The images of a record list.
pub open spec fn rec_views(v: Seq<UndoRecord>) -> Seq<UndoRecordV> {
    v.map_values(|r: UndoRecord| r@)
}

/// The end of an operation's range, saturating at the machine bound as the
/// executable code does.
pub open spec fn sat_end(index: usize, len: int) -> int {
    if index + len > usize::MAX {
        usize::MAX as int
    } else {
        index + len
    }
}

/// The rope text after undoing an operation: an insert is removed, a delete
/// is re-inserted, with the rope's clamping semantics.
pub open spec fn undo_applied(t: Seq<char>, op: UndoOpV) -> Seq<char> {
    match op {
        UndoOpV::Insert { index, text } => rope_clamped_removed(
            t,
            index as int,
            sat_end(index, text.len() as int),
        ),
        UndoOpV::Delete { index, text } => {
            let i = vstd::math::min(index as int, t.len() as int);
            t.subrange(0, i) + text + t.subrange(i, t.len() as int)
        },
    }
}

/// The rope text after re-applying an operation.
pub open spec fn redo_applied(t: Seq<char>, op: UndoOpV) -> Seq<char> {
    match op {
        UndoOpV::Insert { index, text } => {
            let i = vstd::math::min(index as int, t.len() as int);
            t.subrange(0, i) + text + t.subrange(i, t.len() as int)
        },
        UndoOpV::Delete { index, text } => rope_clamped_removed(
            t,
            index as int,
            sat_end(index, text.len() as int),
        ),
    }
}

/// Bounded undo history.
#[derive(Debug)]
pub struct UndoStack {
    limit: usize,
    entries: Vec<UndoRecord>,
    position: usize,
}

impl UndoStack {
    /// The recorded edits.
    pub closed spec fn entries_view(&self) -> Seq<UndoRecordV> {
        rec_views(self.entries@)
    }

    /// How many of the recorded edits are applied.
    pub closed spec fn pos(&self) -> int {
        self.position as int
    }

    /// The capacity bound.
    pub closed spec fn spec_limit(&self) -> int {
        self.limit as int
    }

    /// The position never runs past the entries.
    pub open spec fn wf(&self) -> bool {
        0 <= self.pos() <= self.entries_view().len()
    }

    /// Create an empty history with the given capacity.
    pub fn new(limit: usize) -> (r: UndoStack)
        ensures
            r.wf(),
            r.entries_view() == Seq::<UndoRecordV>::empty(),
            r.pos() == 0,
            r.spec_limit() == limit,
    {
        proof {
            assert(rec_views(Seq::<UndoRecord>::empty()) =~= Seq::<UndoRecordV>::empty());
        }
        UndoStack { limit, entries: Vec::new(), position: 0 }
    }

    /// Create an empty history with the given capacity.
    pub fn with_limit(limit: usize) -> (r: UndoStack)
        ensures
            r.wf(),
            r.entries_view() == Seq::<UndoRecordV>::empty(),
            r.pos() == 0,
            r.spec_limit() == limit,
    {
        Self::new(limit)
    }

    /// Record an edit: discard anything undone past the current position,
    /// drop the oldest entries when the capacity is reached, and append.
    pub fn push(&mut self, record: UndoRecord)
        requires
            old(self).wf(),
        ensures
            final(self).wf(),
            final(self).spec_limit() == old(self).spec_limit(),
            final(self).entries_view() == ({
                let kept = old(self).entries_view().take(old(self).pos());
                let bounded = if old(self).spec_limit() > 0 && kept.len()
                    >= old(self).spec_limit() {
                    kept.skip(kept.len() - (old(self).spec_limit() - 1))
                } else {
                    kept
                };
                bounded.push(record@)
            }),
            final(self).pos() == final(self).entries_view().len(),
    {
        let ghost pre = self.entries_view();
        if self.position < self.entries.len() {
            self.entries.truncate(self.position);
            proof {
                assert(rec_views(self.entries@) =~= pre.take(old(self).pos()));
            }
        } else {
            proof {
                assert(self.entries@.take(self.position as int) =~= self.entries@);
                assert(rec_views(self.entries@) =~= pre.take(old(self).pos()));
            }
        }
        let ghost kept = rec_views(self.entries@);
        if self.limit > 0 && self.entries.len() >= self.limit {
            let drop_n = self.entries.len() - self.limit + 1;
            let mut d: usize = 0;
            while d < drop_n
                invariant
                    d <= drop_n,
                    self.spec_limit() == old(self).spec_limit(),
                    drop_n <= kept.len(),
                    self.entries@.len() == kept.len() - d,
                    rec_views(self.entries@) == kept.skip(d as int),
                decreases drop_n - d,
            {
                let ghost pre_e = self.entries@;
                self.entries.remove(0);
                proof {
                    assert(self.entries@ =~= pre_e.subrange(1, pre_e.len() as int));
                    assert(rec_views(self.entries@) =~= rec_views(pre_e).skip(1));
                    assert(kept.skip(d as int).skip(1) =~= kept.skip(d as int + 1));
                }
                d = d + 1;
            }
            proof {
                assert(rec_views(self.entries@) =~= kept.skip(
                    kept.len() - (old(self).spec_limit() - 1),
                ));
            }
        }
        let ghost bounded = rec_views(self.entries@);
        self.entries.push(record);
        self.position = self.entries.len();
        proof {
            assert(rec_views(self.entries@) =~= bounded.push(record@));
        }
    }

    /// Undo the edit before the position. Returns `true` if one was undone;
    /// the rope gets the inverse edit and the cursor returns to where it was
    /// before the edit.
    pub fn undo(&mut self, rope: &mut Rope, cursor: &mut Cursor) -> (r: bool)
        requires
            old(self).wf(),
            old(rope).wf(),
        ensures
            final(self).wf(),
            final(rope).wf(),
            final(self).entries_view() == old(self).entries_view(),
            final(self).spec_limit() == old(self).spec_limit(),
            old(self).pos() == 0 ==> !r && final(self).pos() == 0 && final(rope).text() == old(
                rope,
            ).text() && *final(cursor) == *old(cursor),
            old(self).pos() > 0 ==> ({
                let rec = old(self).entries_view()[old(self).pos() - 1];
                &&& r
                &&& final(self).pos() == old(self).pos() - 1
                &&& final(rope).text() == undo_applied(old(rope).text(), rec.op)
                &&& *final(cursor) == rec.before
            }),
    {
        if self.position == 0 {
            return false;
        }
        self.position = self.position - 1;
        let record = &self.entries[self.position];
        let before = record.before;
        match &record.op {
            UndoOperation::Insert { index, text } => {
                let tlen = crate::strutil::str_to_chars(text.as_str()).len();
                let hi = if *index > usize::MAX - tlen {
                    usize::MAX
                } else {
                    *index + tlen
                };
                rope.delete(*index..hi);
            },
            UndoOperation::Delete { index, text } => {
                rope.insert(*index, text.as_str());
            },
        }
        *cursor = before;
        true
    }

    /// Redo the edit at the position. Returns `true` if one was redone; the
    /// rope gets the edit again and the cursor moves to where the edit left
    /// it.
    pub fn redo(&mut self, rope: &mut Rope, cursor: &mut Cursor) -> (r: bool)
        requires
            old(self).wf(),
            old(rope).wf(),
        ensures
            final(self).wf(),
            final(rope).wf(),
            final(self).entries_view() == old(self).entries_view(),
            final(self).spec_limit() == old(self).spec_limit(),
            old(self).pos() == old(self).entries_view().len() ==> !r && final(self).pos() == old(
                self,
            ).pos() && final(rope).text() == old(rope).text() && *final(cursor) == *old(cursor),
            old(self).pos() < old(self).entries_view().len() ==> ({
                let rec = old(self).entries_view()[old(self).pos()];
                &&& r
                &&& final(self).pos() == old(self).pos() + 1
                &&& final(rope).text() == redo_applied(old(rope).text(), rec.op)
                &&& *final(cursor) == rec.after
            }),
    {
        if self.position >= self.entries.len() {
            return false;
        }
        let record = &self.entries[self.position];
        let after = record.after;
        match &record.op {
            UndoOperation::Insert { index, text } => {
                rope.insert(*index, text.as_str());
            },
            UndoOperation::Delete { index, text } => {
                let tlen = crate::strutil::str_to_chars(text.as_str()).len();
                let hi = if *index > usize::MAX - tlen {
                    usize::MAX
                } else {
                    *index + tlen
                };
                rope.delete(*index..hi);
            },
        }
        *cursor = after;
        self.position = self.position + 1;
        true
    }

    /// Forget the whole history.
    pub fn clear(&mut self)
        ensures
            final(self).wf(),
            final(self).entries_view() == Seq::<UndoRecordV>::empty(),
            final(self).pos() == 0,
            final(self).spec_limit() == old(self).spec_limit(),
    {
        self.entries.clear();
        self.position = 0;
        proof {
            assert(rec_views(self.entries@) =~= Seq::<UndoRecordV>::empty());
        }
    }
}

} // verus!
