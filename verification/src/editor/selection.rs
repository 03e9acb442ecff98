//! Text selections: a pair of cursors over the document.

use vstd::prelude::*;

verus! {

use crate::editor::cursor::{Cursor, norm_eols, spec_line_col_to_index, line_col_to_index,
    normalized_text};
use crate::editor::rope::Rope;

/// A selection between two cursor positions.
#[derive(Debug, Clone, Copy, PartialEq, Eq, Structural)]
pub struct Selection {
    pub start: Cursor,
    pub end: Cursor,
}

/// Whether `b` comes before `a` in document order.
pub open spec fn pos_before(a: Cursor, b: Cursor) -> bool {
    b.line < a.line || (b.line == a.line && b.column < a.column)
}

/// The selection's character range in `t`: the indices of its two ends, in
/// order.
pub open spec fn sel_range(sel: Selection, t: Seq<char>) -> (int, int) {
    let a = spec_line_col_to_index(t, sel.start.line as int, sel.start.column as int);
    let b = spec_line_col_to_index(t, sel.end.line as int, sel.end.column as int);
    if a <= b {
        (a, b)
    } else {
        (b, a)
    }
}

impl Selection {
    /// An empty selection at the cursor.
    pub fn new(cursor: Cursor) -> (r: Selection)
        ensures
            r.start == cursor,
            r.end == cursor,
    {
        Selection { start: cursor, end: cursor }
    }

    /// Whether the selection is empty.
    pub fn is_empty(&self) -> (r: bool)
        ensures
            r == (self.start == self.end),
    {
        self.start.line == self.end.line && self.start.column == self.end.column
    }

    /// Extend the selection to the cursor.
    pub fn extend(&mut self, cursor: Cursor)
        ensures
            final(self).start == old(self).start,
            final(self).end == cursor,
    {
        self.end = cursor;
    }

    /// Put the two ends in document order.
    pub fn normalize(&mut self)
        ensures
            pos_before(old(self).start, old(self).end) ==> final(self).start == old(self).end
                && final(self).end == old(self).start,
            !pos_before(old(self).start, old(self).end) ==> *final(self) == *old(self),
    {
        if self.end.line < self.start.line || (self.end.line == self.start.line
            && self.end.column < self.start.column) {
            let tmp = self.start;
            self.start = self.end;
            self.end = tmp;
        }
    }

    /// The selection's character range within the rope's normalized text.
    fn range(&self, rope: &Rope) -> (r: (usize, usize))
        ensures
            (r.0 as int, r.1 as int) == sel_range(*self, norm_eols(rope.text())),
            r.0 <= r.1 <= norm_eols(rope.text()).len(),
    {
        let text = normalized_text(rope);
        let a = line_col_to_index(text.as_str(), self.start.line, self.start.column);
        let b = line_col_to_index(text.as_str(), self.end.line, self.end.column);
        if a <= b {
            (a, b)
        } else {
            (b, a)
        }
    }

    /// The selected text.
    pub fn copy(&self, rope: &Rope) -> (r: String)
        ensures
            self.start == self.end ==> r@ == Seq::<char>::empty(),
            self.start != self.end ==> r@ == ({
                let (a, b) = sel_range(*self, norm_eols(rope.text()));
                if a >= b {
                    Seq::<char>::empty()
                } else {
                    rope_clamped_slice(rope.text(), a, b)
                }
            }),
    {
        if self.is_empty() {
            String::new()
        } else {
            let (a, b) = self.range(rope);
            rope.slice(a..b)
        }
    }

    /// Delete the selected text from the rope.
    pub fn delete(&self, rope: &mut Rope)
        requires
            old(rope).wf(),
        ensures
            final(rope).wf(),
            self.start == self.end ==> final(rope).text() == old(rope).text(),
            self.start != self.end ==> final(rope).text() == ({
                let (a, b) = sel_range(*self, norm_eols(old(rope).text()));
                rope_clamped_removed(old(rope).text(), a, b)
            }),
    {
        if !self.is_empty() {
            let (a, b) = self.range(rope);
            rope.delete(a..b);
        }
    }

    /// Delete the selected text and return it.
    pub fn cut(&self, rope: &mut Rope) -> (r: String)
        requires
            old(rope).wf(),
        ensures
            final(rope).wf(),
            self.start == self.end ==> r@ == Seq::<char>::empty() && final(rope).text() == old(
                rope,
            ).text(),
            self.start != self.end ==> ({
                let (a, b) = sel_range(*self, norm_eols(old(rope).text()));
                (if a >= b {
                    r@ == Seq::<char>::empty()
                } else {
                    r@ == rope_clamped_slice(old(rope).text(), a, b)
                }) && final(rope).text() == rope_clamped_removed(old(rope).text(), a, b)
            }),
    {
        let text = self.copy(rope);
        self.delete(rope);
        text
    }
}

/// The rope's slice semantics: the characters in `[a, b)` clamped to the
/// text.
pub open spec fn rope_clamped_slice(t: Seq<char>, a: int, b: int) -> Seq<char> {
    let n = t.len() as int;
    let s = vstd::math::min(a, n);
    let e = vstd::math::min(b, n);
    if s >= e {
        Seq::<char>::empty()
    } else {
        t.subrange(s, e)
    }
}

/// The rope's delete semantics: the text with `[a, b)` removed, clamped.
pub open spec fn rope_clamped_removed(t: Seq<char>, a: int, b: int) -> Seq<char> {
    let n = t.len() as int;
    let s = vstd::math::min(a, n);
    let e = vstd::math::min(b, n);
    if s >= e {
        t
    } else {
        t.subrange(0, s) + t.subrange(e, n)
    }
}

} // verus!
