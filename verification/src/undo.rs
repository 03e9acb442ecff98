//! Linear undo/redo stack over the text buffer, with adjacent-insert
//! coalescing.

use vstd::prelude::*;

verus! {

use vstd::utf8::{valid_utf8, encode_utf8, decode_utf8, is_char_boundary, encode_utf8_valid_utf8,
    decode_utf8_encode_utf8, valid_utf8_concat, valid_utf8_split,
    is_char_boundary_start_end_of_seq, is_char_boundary_iff_not_is_continuation_byte};
use crate::buffer::RopeBuffer;

/// Edit operation that can be undone and redone.
pub enum Edit {
    Insert { idx: usize, text: String },
    Delete { idx: usize, text: String },
}

/// Mathematical image of an edit.
#[verifier::ext_equal]
pub enum EditV {
    Insert { idx: usize, text: Seq<char> },
    Delete { idx: usize, text: Seq<char> },
}

impl View for Edit {
    type V = EditV;

    open spec fn view(&self) -> EditV {
        match self {
            Edit::Insert { idx, text } => EditV::Insert { idx: *idx, text: text@ },
            Edit::Delete { idx, text } => EditV::Delete { idx: *idx, text: text@ },
        }
    }
}

/// The images of a stack of edits.
pub open spec fn edit_views(v: Seq<Edit>) -> Seq<EditV> {
    v.map_values(|e: Edit| e@)
}

/// `t` with `m` spliced in at `i`.
pub open spec fn splice_in(t: Seq<u8>, i: int, m: Seq<u8>) -> Seq<u8> {
    t.subrange(0, i) + m + t.subrange(i, t.len() as int)
}

/// `t` with `[s, e)` removed.
pub open spec fn remove_range(t: Seq<u8>, s: int, e: int) -> Seq<u8> {
    t.subrange(0, s) + t.subrange(e, t.len() as int)
}

/// Inserting and then deleting exactly the inserted range restores the
/// original text.
pub proof fn lemma_insert_delete_id(t: Seq<u8>, i: int, m: Seq<u8>)
    requires
        0 <= i <= t.len(),
    ensures
        remove_range(splice_in(t, i, m), i, i + m.len()) == t,
{
    assert(remove_range(splice_in(t, i, m), i, i + m.len()) =~= t);
}

/// Consecutive splices at the growing caret compose into one splice, so
/// undoing the one coalesced record removes exactly what the whole run
/// inserted.
pub proof fn lemma_splice_compose(t: Seq<u8>, i: int, a: Seq<u8>, b: Seq<u8>)
    requires
        0 <= i <= t.len(),
    ensures
        splice_in(splice_in(t, i, a), i + a.len(), b) == splice_in(t, i, a + b),
{
    assert(splice_in(splice_in(t, i, a), i + a.len(), b) =~= splice_in(t, i, a + b));
}

/// How one insert changes the past stack: it extends the top record when it
/// continues it byte-for-byte, and pushes a fresh record otherwise.
pub open spec fn push_insert(p: Seq<EditV>, idx: usize, text: Seq<char>) -> Seq<EditV> {
    if p.len() > 0 && (p.last() matches EditV::Insert { idx: i0, text: t0 } && idx == i0
        + encode_utf8(t0).len()) {
        p.drop_last().push(
            EditV::Insert {
                idx: p.last()->Insert_idx,
                text: p.last()->Insert_text + text,
            },
        )
    } else {
        p.push(EditV::Insert { idx, text })
    }
}

/// Linear undo/redo stack.
pub struct UndoStack {
    past: Vec<Edit>,
    future: Vec<Edit>,
}

impl UndoStack {
    /// The recorded history, oldest first.
    pub closed spec fn past_view(&self) -> Seq<EditV> {
        edit_views(self.past@)
    }

    /// The undone edits available for redo.
    pub closed spec fn future_view(&self) -> Seq<EditV> {
        edit_views(self.future@)
    }

    /// Create a new empty stack.
    pub fn new() -> (r: UndoStack)
        ensures
            r.past_view() == Seq::<EditV>::empty(),
            r.future_view() == Seq::<EditV>::empty(),
    {
        proof {
            assert(edit_views(Seq::<Edit>::empty()) =~= Seq::<EditV>::empty());
        }
        UndoStack { past: Vec::new(), future: Vec::new() }
    }

    /// Apply an insert to the buffer and record it, coalescing with an
    /// immediately preceding adjacent insert; any recorded redo history is
    /// discarded.
    pub fn insert(&mut self, buf: &mut RopeBuffer, idx: usize, s: &str)
        requires
            old(buf).wf(),
            idx <= old(buf).bytes().len(),
            is_char_boundary(old(buf).bytes(), idx as int),
        ensures
            final(buf).wf(),
            final(buf).bytes() == splice_in(old(buf).bytes(), idx as int, encode_utf8(s@)),
            final(self).past_view() == push_insert(old(self).past_view(), idx, s@),
            final(self).future_view() == Seq::<EditV>::empty(),
            final(buf).spec_eol() == old(buf).spec_eol(),
            final(buf).spec_has_invalid() == old(buf).spec_has_invalid(),
    {
        buf.insert(idx, s);
        let ghost p = self.past_view();
        let last = self.past.pop();
        match last {
            Some(Edit::Insert { idx: i0, text: t0 }) => {
                proof {
                    assert(p.last() == EditV::Insert { idx: i0, text: t0@ });
                    assert(edit_views(self.past@) =~= p.drop_last());
                }
                let blen = t0.as_str().as_bytes().len();
                proof {
                    assert(blen == encode_utf8(t0@).len());
                }
                if idx >= i0 && idx - i0 == blen {
                    let mut grown = t0;
                    grown.append(s);
                    self.past.push(Edit::Insert { idx: i0, text: grown });
                    proof {
                        assert(edit_views(self.past@) =~~= p.drop_last().push(
                            EditV::Insert { idx: i0, text: t0@ + s@ },
                        ));
                        assert(idx == i0 + encode_utf8(t0@).len());
                        assert(push_insert(p, idx, s@) == p.drop_last().push(
                            EditV::Insert { idx: i0, text: t0@ + s@ },
                        ));
                        assert(edit_views(self.past@) =~~= push_insert(p, idx, s@));
                    }
                } else {
                    self.past.push(Edit::Insert { idx: i0, text: t0 });
                    self.past.push(Edit::Insert { idx, text: s.to_owned() });
                    proof {
                        assert(edit_views(self.past@) =~~= p.push(EditV::Insert { idx, text: s@ }));
                        assert(edit_views(self.past@) =~~= push_insert(p, idx, s@));
                    }
                }
            },
            Some(e) => {
                proof {
                    assert(edit_views(self.past@) =~= p.drop_last());
                }
                self.past.push(e);
                proof {
                    assert(edit_views(self.past@) =~= p);
                }
                self.past.push(Edit::Insert { idx, text: s.to_owned() });
                proof {
                    assert(edit_views(self.past@) =~~= push_insert(p, idx, s@));
                }
            },
            None => {
                self.past.push(Edit::Insert { idx, text: s.to_owned() });
                proof {
                    assert(p =~= Seq::<EditV>::empty());
                    assert(edit_views(self.past@) =~~= push_insert(p, idx, s@));
                }
            },
        }
        self.future.clear();
        proof {
            assert(edit_views(self.future@) =~= Seq::<EditV>::empty());
        }
    }

    /// Apply a delete to the buffer, capturing the removed text so the edit
    /// can be undone; any recorded redo history is discarded.
    pub fn delete(&mut self, buf: &mut RopeBuffer, range: core::ops::Range<usize>)
        requires
            old(buf).wf(),
            range.start <= range.end <= old(buf).bytes().len(),
            is_char_boundary(old(buf).bytes(), range.start as int),
            is_char_boundary(old(buf).bytes(), range.end as int),
        ensures
            final(buf).wf(),
            final(buf).bytes() == remove_range(
                old(buf).bytes(),
                range.start as int,
                range.end as int,
            ),
            final(self).past_view() == old(self).past_view().push(
                EditV::Delete {
                    idx: range.start,
                    text: decode_utf8(
                        old(buf).bytes().subrange(range.start as int, range.end as int),
                    ),
                },
            ),
            final(self).future_view() == Seq::<EditV>::empty(),
            final(buf).spec_eol() == old(buf).spec_eol(),
            final(buf).spec_has_invalid() == old(buf).spec_has_invalid(),
    {
        let ghost p = self.past_view();
        let removed = buf.slice(range.start..range.end);
        buf.delete(range.start..range.end);
        self.past.push(Edit::Delete { idx: range.start, text: removed });
        self.future.clear();
        proof {
            assert(edit_views(self.future@) =~= Seq::<EditV>::empty());
            assert(edit_views(self.past@) =~~= p.push(
                EditV::Delete {
                    idx: range.start,
                    text: decode_utf8(
                        old(buf).bytes().subrange(range.start as int, range.end as int),
                    ),
                },
            ));
        }
    }

    /// Whether the inverse of `e` can be applied to text `t`.
    pub open spec fn undoable(t: Seq<u8>, e: EditV) -> bool {
        match e {
            EditV::Insert { idx, text } => idx + encode_utf8(text).len() <= t.len()
                && is_char_boundary(t, idx as int) && is_char_boundary(
                t,
                idx + encode_utf8(text).len(),
            ),
            EditV::Delete { idx, text } => idx <= t.len() && is_char_boundary(t, idx as int),
        }
    }

    /// The text after applying the inverse of `e`.
    pub open spec fn undo_text(t: Seq<u8>, e: EditV) -> Seq<u8> {
        match e {
            EditV::Insert { idx, text } => remove_range(
                t,
                idx as int,
                idx + encode_utf8(text).len(),
            ),
            EditV::Delete { idx, text } => splice_in(t, idx as int, encode_utf8(text)),
        }
    }

    /// Whether `e` can be re-applied to text `t`.
    pub open spec fn redoable(t: Seq<u8>, e: EditV) -> bool {
        match e {
            EditV::Insert { idx, text } => idx <= t.len() && is_char_boundary(t, idx as int),
            EditV::Delete { idx, text } => idx + encode_utf8(text).len() <= t.len()
                && is_char_boundary(t, idx as int) && is_char_boundary(
                t,
                idx + encode_utf8(text).len(),
            ),
        }
    }

    /// The text after re-applying `e`.
    pub open spec fn redo_text(t: Seq<u8>, e: EditV) -> Seq<u8> {
        match e {
            EditV::Insert { idx, text } => splice_in(t, idx as int, encode_utf8(text)),
            EditV::Delete { idx, text } => remove_range(
                t,
                idx as int,
                idx + encode_utf8(text).len(),
            ),
        }
    }

    /// Undo the most recent edit. Returns `true` if an edit was undone.
    pub fn undo(&mut self, buf: &mut RopeBuffer) -> (r: bool)
        requires
            old(buf).wf(),
        ensures
            final(buf).wf(),
            old(self).past_view().len() == 0 ==> !r && final(self).past_view() == old(self).past_view()
                && final(self).future_view() == old(self).future_view() && *final(buf)
                == *old(buf),
            old(self).past_view().len() > 0 ==> {
                let e = old(self).past_view().last();
                if Self::undoable(old(buf).bytes(), e) {
                    &&& r
                    &&& final(buf).bytes() == Self::undo_text(old(buf).bytes(), e)
                    &&& final(self).past_view() == old(self).past_view().drop_last()
                    &&& final(self).future_view() == old(self).future_view().push(e)
                } else {
                    !r && final(self).past_view() == old(self).past_view()
                        && final(self).future_view() == old(self).future_view()
                        && *final(buf) == *old(buf)
                }
            },
            final(buf).spec_eol() == old(buf).spec_eol(),
            final(buf).spec_has_invalid() == old(buf).spec_has_invalid(),
    {
        let ghost p = self.past_view();
        let ghost f = self.future_view();
        let n = buf.len_bytes();
        match self.past.pop() {
            None => {
                proof {
                    assert(p.len() == 0);
                    assert(edit_views(self.past@) =~= p);
                }
                false
            },
            Some(edit) => {
                proof {
                    assert(edit@ == p.last());
                    assert(edit_views(self.past@) =~= p.drop_last());
                }
                let ok: bool;
                match &edit {
                    Edit::Insert { idx, text } => {
                        let blen = text.as_str().as_bytes().len();
                        if *idx <= n && n - *idx >= blen && buf.is_boundary(*idx) && buf.is_boundary(
                            *idx + blen,
                        ) {
                            buf.delete(*idx..*idx + blen);
                            ok = true;
                        } else {
                            ok = false;
                        }
                    },
                    Edit::Delete { idx, text } => {
                        if *idx <= n && buf.is_boundary(*idx) {
                            buf.insert(*idx, text.as_str());
                            ok = true;
                        } else {
                            ok = false;
                        }
                    },
                }
                if ok {
                    self.future.push(edit);
                    proof {
                        assert(edit_views(self.future@) =~~= f.push(p.last()));
                    }
                    true
                } else {
                    self.past.push(edit);
                    proof {
                        assert(edit_views(self.past@) =~= p);
                    }
                    false
                }
            },
        }
    }

    /// Redo the most recently undone edit. Returns `true` if an edit was
    /// redone.
    pub fn redo(&mut self, buf: &mut RopeBuffer) -> (r: bool)
        requires
            old(buf).wf(),
        ensures
            final(buf).wf(),
            old(self).future_view().len() == 0 ==> !r && final(self).past_view() == old(self).past_view()
                && final(self).future_view() == old(self).future_view() && *final(buf)
                == *old(buf),
            old(self).future_view().len() > 0 ==> {
                let e = old(self).future_view().last();
                if Self::redoable(old(buf).bytes(), e) {
                    &&& r
                    &&& final(buf).bytes() == Self::redo_text(old(buf).bytes(), e)
                    &&& final(self).future_view() == old(self).future_view().drop_last()
                    &&& final(self).past_view() == old(self).past_view().push(e)
                } else {
                    !r && final(self).past_view() == old(self).past_view()
                        && final(self).future_view() == old(self).future_view()
                        && *final(buf) == *old(buf)
                }
            },
            final(buf).spec_eol() == old(buf).spec_eol(),
            final(buf).spec_has_invalid() == old(buf).spec_has_invalid(),
    {
        let ghost p = self.past_view();
        let ghost f = self.future_view();
        let n = buf.len_bytes();
        match self.future.pop() {
            None => {
                proof {
                    assert(f.len() == 0);
                    assert(edit_views(self.future@) =~= f);
                }
                false
            },
            Some(edit) => {
                proof {
                    assert(edit@ == f.last());
                    assert(edit_views(self.future@) =~= f.drop_last());
                }
                let ok: bool;
                match &edit {
                    Edit::Insert { idx, text } => {
                        if *idx <= n && buf.is_boundary(*idx) {
                            buf.insert(*idx, text.as_str());
                            ok = true;
                        } else {
                            ok = false;
                        }
                    },
                    Edit::Delete { idx, text } => {
                        let blen = text.as_str().as_bytes().len();
                        if *idx <= n && n - *idx >= blen && buf.is_boundary(*idx) && buf.is_boundary(
                            *idx + blen,
                        ) {
                            buf.delete(*idx..*idx + blen);
                            ok = true;
                        } else {
                            ok = false;
                        }
                    },
                }
                if ok {
                    self.past.push(edit);
                    proof {
                        assert(edit_views(self.past@) =~~= p.push(f.last()));
                    }
                    true
                } else {
                    self.future.push(edit);
                    proof {
                        assert(edit_views(self.future@) =~= f);
                    }
                    false
                }
            },
        }
    }
}

/// The junction of two valid UTF-8 texts is a character boundary of their
/// concatenation.
pub proof fn lemma_boundary_at_concat(a: Seq<u8>, b: Seq<u8>)
    requires
        valid_utf8(a),
        valid_utf8(b),
    ensures
        is_char_boundary(a + b, a.len() as int),
{
    valid_utf8_concat(a, b);
    let c = a + b;
    if b.len() == 0 {
        assert(c.len() == a.len());
        is_char_boundary_start_end_of_seq(c);
    } else {
        assert(c[a.len() as int] == b[0]);
        assert(vstd::utf8::valid_first_scalar(b));
        assert(!vstd::utf8::is_continuation_byte(b[0]));
        is_char_boundary_iff_not_is_continuation_byte(c, a.len() as int);
    }
}

/// Undo then redo restores exactly the text the original edit produced (and,
/// by the undo/redo contracts, the stack depths): re-applying an edit to the
/// text its inverse produced yields the text back.
pub proof fn lemma_undo_redo_round_trip(t: Seq<u8>, e: EditV)
    requires
        valid_utf8(t),
        UndoStack::undoable(t, e),
        e matches EditV::Insert { idx, text } ==> t.subrange(
            idx as int,
            idx + encode_utf8(text).len(),
        ) == encode_utf8(text),
    ensures
        UndoStack::redoable(UndoStack::undo_text(t, e), e),
        UndoStack::redo_text(UndoStack::undo_text(t, e), e) == t,
{
    match e {
        EditV::Insert { idx, text } => {
            let m = encode_utf8(text);
            let i = idx as int;
            let u = remove_range(t, i, i + m.len());
            let pre = t.subrange(0, i);
            let suf = t.subrange(i + m.len(), t.len() as int);
            valid_utf8_split(t, i + m.len());
            crate::buffer::is_char_boundary_prefix(t, i + m.len(), i);
            valid_utf8_split(t.subrange(0, i + m.len()), i);
            assert(t.subrange(0, i + m.len()).subrange(0, i) =~= pre);
            lemma_boundary_at_concat(pre, suf);
            assert(u =~= pre + suf);
            assert(u.subrange(0, i) =~= pre);
            assert(u.subrange(i, u.len() as int) =~= suf);
            assert(splice_in(u, i, m) =~= t);
        },
        EditV::Delete { idx, text } => {
            let m = encode_utf8(text);
            let i = idx as int;
            let u = splice_in(t, i, m);
            encode_utf8_valid_utf8(text);
            let pre = t.subrange(0, i);
            let suf = t.subrange(i, t.len() as int);
            valid_utf8_split(t, i);
            valid_utf8_concat(m, suf);
            lemma_boundary_at_concat(pre, m + suf);
            assert(u =~= pre + (m + suf));
            assert(is_char_boundary(u, i));
            valid_utf8_concat(pre, m);
            lemma_boundary_at_concat(pre + m, suf);
            assert(u =~= (pre + m) + suf);
            assert(is_char_boundary(u, i + m.len()));
            lemma_insert_delete_id(t, i, m);
        },
    }
}

/// A run of inserts where each begins exactly where the previous one ended
/// grows a single past record holding the whole run, so one undo removes
/// everything the run inserted. `parts` are the texts of the run in order;
/// the first of them must not itself continue an older record.
pub proof fn lemma_adjacent_inserts_coalesce(
    p0: Seq<EditV>,
    idx: usize,
    first: Seq<char>,
    more: Seq<Seq<char>>,
)
    requires
        p0.len() == 0 || !(p0.last() matches EditV::Insert { idx: i0, text: t0 } && idx == i0
            + encode_utf8(t0).len()),
        idx + encode_utf8(first + concat_chars(more)).len() <= usize::MAX,
    ensures
        chain_inserts(push_insert(p0, idx, first), idx + encode_utf8(first).len(), more) == p0.push(
            EditV::Insert { idx, text: first + concat_chars(more) },
        ),
    decreases more.len(),
{
    crate::strutil::lemma_encode_concat(first, concat_chars(more));
    if more.len() == 0 {
        assert(concat_chars(more) == Seq::<char>::empty());
        assert(first + concat_chars(more) =~= first);
        assert(push_insert(p0, idx, first) =~= p0.push(EditV::Insert { idx, text: first }));
    } else {
        let p1 = push_insert(p0, idx, first);
        assert(p1 == p0.push(EditV::Insert { idx, text: first }));
        let j = idx + encode_utf8(first).len();
        assert(p1.last() == EditV::Insert { idx, text: first });
        crate::strutil::lemma_encode_concat(first, more[0]);
        assert(push_insert(p1, (j as usize), more[0]) == p0.push(
            EditV::Insert { idx, text: first + more[0] },
        )) by {
            assert(p1.drop_last() =~= p0);
        }
        crate::strutil::lemma_encode_concat(first + more[0], concat_chars(more.skip(1)));
        assert((first + more[0]) + concat_chars(more.skip(1)) =~= first + concat_chars(more));
        lemma_adjacent_inserts_coalesce(p0, idx, first + more[0], more.skip(1));
    }
}

/// All the texts of a run of inserts, joined.
pub open spec fn concat_chars(parts: Seq<Seq<char>>) -> Seq<char>
    decreases parts.len(),
{
    if parts.len() == 0 {
        Seq::<char>::empty()
    } else {
        parts[0] + concat_chars(parts.skip(1))
    }
}

/// The past stack after a run of inserts at a growing caret.
pub open spec fn chain_inserts(p: Seq<EditV>, idx: int, parts: Seq<Seq<char>>) -> Seq<EditV>
    decreases parts.len(),
{
    if parts.len() == 0 {
        p
    } else {
        chain_inserts(
            push_insert(p, idx as usize, parts[0]),
            idx + encode_utf8(parts[0]).len(),
            parts.skip(1),
        )
    }
}

} // verus!
