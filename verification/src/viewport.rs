//! Viewport composer: turns the buffer, a selection and cursors into a Frame.
//!
//! Columns are character columns. Every line of the frame is the horizontal
//! slice `[hscroll, hscroll + cols)` of the corresponding buffer line; style
//! spans are clipped to that window, and cursors outside the window are
//! dropped.

use vstd::prelude::*;

verus! {

use vstd::utf8::{valid_utf8, encode_utf8, decode_utf8, is_char_boundary, encode_utf8_valid_utf8,
    decode_utf8_encode_utf8, valid_utf8_split, is_char_boundary_start_end_of_seq,
    is_char_boundary_iff_not_is_continuation_byte, is_continuation_byte, valid_first_scalar,
    pop_first_scalar, length_of_first_scalar, is_leading_byte_width_1, is_leading_byte_width_2,
    is_leading_byte_width_3, is_leading_byte_width_4};
use crate::buffer::RopeBuffer;
use crate::linecol::{num_lines, line_bytes, line_of, col_of, line_start, line_start_of,
    line_end_from, nl_count, lemma_line_start_of, lemma_line_start_agree, lemma_line_end_from,
    lemma_nl_count_mono, lemma_line_start_from};
use crate::proto::{Frame, Line, StyleSpan, Cursor};

/// Number of character-start (non-continuation) bytes in `t[i..j)`: in valid
/// UTF-8, the number of characters.
pub open spec fn cc(t: Seq<u8>, i: int, j: int) -> int
    decreases j - i,
{
    if j <= i {
        0
    } else {
        cc(t, i, j - 1) + if is_continuation_byte(t[j - 1]) {
            0int
        } else {
            1int
        }
    }
}

/// The first character-start position at or after `j`, or the end of `t`.
pub open spec fn next_start(t: Seq<u8>, j: int) -> int
    decreases t.len() - j,
{
    if j >= t.len() {
        t.len() as int
    } else if !is_continuation_byte(t[j]) {
        j
    } else {
        next_start(t, j + 1)
    }
}

/// The byte position reached by skipping `k` characters forward from `i`.
pub open spec fn adv(t: Seq<u8>, i: int, k: int) -> int
    decreases k,
{
    if k <= 0 || i >= t.len() {
        if i >= t.len() {
            t.len() as int
        } else {
            i
        }
    } else {
        adv(t, next_start(t, i + 1), k - 1)
    }
}

/// The visible slice of line `l`: its bytes from character column `h`, at
/// most `c` characters wide.
pub open spec fn line_view(t: Seq<u8>, l: int, h: int, c: int) -> Seq<u8> {
    let lb = line_bytes(t, l);
    lb.subrange(adv(lb, 0, h), adv(lb, adv(lb, 0, h), c))
}

/// A span lies within the window and never extends past the visible text.
pub open spec fn span_ok(s: StyleSpan, vis_len: int, c: int) -> bool {
    s.start_col <= s.end_col <= c && s.end_col <= vis_len
}

/// A span with the given columns and class appears in the list.
pub open spec fn has_span(spans: Seq<StyleSpan>, a: int, b: int, class: Seq<char>) -> bool {
    exists|k: int|
        0 <= k < spans.len() && (#[trigger] spans[k]).start_col == a && spans[k].end_col == b
            && spans[k].class_name@ == class
}

/// A span survives appending further spans.
pub proof fn lemma_has_span_push(spans: Seq<StyleSpan>, x: StyleSpan, a: int, b: int, class: Seq<
    char,
>)
    requires
        has_span(spans, a, b, class),
    ensures
        has_span(spans.push(x), a, b, class),
{
    let k = choose|k: int|
        0 <= k < spans.len() && (#[trigger] spans[k]).start_col == a && spans[k].end_col == b
            && spans[k].class_name@ == class;
    assert(spans.push(x)[k] == spans[k]);
}

/// Whether a byte is a space or a tab.
pub open spec fn is_ws_byte(b: u8) -> bool {
    b == 32 || b == 9
}

/// Where the trailing whitespace of a line begins: the length of the line
/// without its trailing spaces and tabs.
pub open spec fn ws_start(t: Seq<u8>) -> int
    decreases t.len(),
{
    if t.len() == 0 || !is_ws_byte(t.last()) {
        t.len() as int
    } else {
        ws_start(t.drop_last())
    }
}

/// The trailing-whitespace span the composer owes a line: when the line has
/// a whitespace tail and its clip to the window is non-empty, a `ws` span
/// covers exactly the clipped, shifted tail.
pub open spec fn ws_claim(lb: Seq<u8>, h: int, c: int, spans: Seq<StyleSpan>, vis_len: int) -> bool {
    let wsb = ws_start(lb);
    let ws_col = cc(lb, 0, wsb);
    let full_cols = cc(lb, 0, lb.len() as int);
    let rel_end = if full_cols - h > c {
        c
    } else {
        full_cols - h
    };
    let rel_start = if ws_col > h {
        if ws_col - h > c {
            c
        } else {
            ws_col - h
        }
    } else {
        0
    };
    (wsb < lb.len() && full_cols > h && rel_start < rel_end && rel_end <= vis_len) ==> has_span(
        spans,
        rel_start,
        rel_end,
        "ws"@,
    )
}

/// The selection span the composer owes a line: when the selection's byte
/// range overlaps the line and its projection, clipped to the window, is
/// non-empty, a `sel` span covers exactly the clipped, shifted columns.
pub open spec fn sel_claim(
    t: Seq<u8>,
    l: int,
    h: int,
    c: int,
    sel: Option<core::ops::Range<usize>>,
    spans: Seq<StyleSpan>,
    vis_len: int,
) -> bool {
    match sel {
        Option::None => true,
        Option::Some(se) => {
            let ls = line_start(t, l);
            let lb = line_bytes(t, l);
            let n = lb.len() as int;
            let sstart = if se.start > ls {
                se.start - ls
            } else {
                0
            };
            let send = if se.end - ls > n {
                n
            } else {
                se.end - ls
            };
            let c1 = cc(lb, 0, sstart);
            let c2 = cc(lb, 0, send);
            let a = if c1 > h {
                if c1 - h > c {
                    c
                } else {
                    c1 - h
                }
            } else {
                0
            };
            let b = if c2 - h > c {
                c
            } else {
                c2 - h
            };
            let bcap = if b > vis_len {
                vis_len
            } else {
                b
            };
            (se.end > ls && se.start <= ls + n && sstart < send && c2 > h && a < bcap)
                ==> has_span(spans, a, bcap, "sel"@)
        },
    }
}

/// The selection span's claim survives appending a further span.
proof fn lemma_sel_claim_push(
    t: Seq<u8>,
    l: int,
    h: int,
    c: int,
    sel: Option<core::ops::Range<usize>>,
    spans: Seq<StyleSpan>,
    x: StyleSpan,
    vl: int,
)
    requires
        sel_claim(t, l, h, c, sel, spans, vl),
    ensures
        sel_claim(t, l, h, c, sel, spans.push(x), vl),
{
    match sel {
        Option::None => {},
        Option::Some(se) => {
            let ls = line_start(t, l);
            let lb = line_bytes(t, l);
            let n = lb.len() as int;
            let sstart = if se.start > ls {
                se.start - ls
            } else {
                0
            };
            let send = if se.end - ls > n {
                n
            } else {
                se.end - ls
            };
            let c1 = cc(lb, 0, sstart);
            let c2 = cc(lb, 0, send);
            let a = if c1 > h {
                if c1 - h > c {
                    c
                } else {
                    c1 - h
                }
            } else {
                0
            };
            let b = if c2 - h > c {
                c
            } else {
                c2 - h
            };
            let bcap = if b > vl {
                vl
            } else {
                b
            };
            if se.end > ls && se.start <= ls + n && sstart < send && c2 > h && a < bcap {
                lemma_has_span_push(spans, x, a, bcap, "sel"@);
            }
        },
    }
}

/// Every replacement character in the visible text carries a one-column
/// `err` span.
pub open spec fn err_claim(text: Seq<char>, spans: Seq<StyleSpan>) -> bool {
    forall|q: int|
        0 <= q < text.len() && text[q] == '\u{FFFD}' ==> has_span(spans, q, q + 1, "err"@)
}

/// The whitespace span's claim survives appending a further span.
proof fn lemma_ws_claim_push(
    lb: Seq<u8>,
    h: int,
    c: int,
    spans: Seq<StyleSpan>,
    x: StyleSpan,
    vl: int,
)
    requires
        ws_claim(lb, h, c, spans, vl),
    ensures
        ws_claim(lb, h, c, spans.push(x), vl),
{
    let wsb = ws_start(lb);
    let ws_col = cc(lb, 0, wsb);
    let full_cols = cc(lb, 0, lb.len() as int);
    let rel_end = if full_cols - h > c {
        c
    } else {
        full_cols - h
    };
    let rel_start = if ws_col > h {
        if ws_col - h > c {
            c
        } else {
            ws_col - h
        }
    } else {
        0
    };
    if wsb < lb.len() && full_cols > h && rel_start < rel_end && rel_end <= vl {
        lemma_has_span_push(spans, x, rel_start, rel_end, "ws"@);
    }
}

/// The error spans recorded so far survive appending a further span.
proof fn lemma_err_preserved(text: Seq<char>, spans: Seq<StyleSpan>, x: StyleSpan, upto: int)
    requires
        forall|q: int|
            0 <= q < upto && text[q] == '\u{FFFD}' ==> has_span(spans, q, q + 1, "err"@),
    ensures
        forall|q: int|
            0 <= q < upto && text[q] == '\u{FFFD}' ==> has_span(spans.push(x), q, q + 1, "err"@),
{
    assert forall|q: int|
        0 <= q < upto && text[q] == '\u{FFFD}' implies has_span(
        spans.push(x),
        q,
        q + 1,
        "err"@,
    ) by {
        lemma_has_span_push(spans, x, q, q + 1, "err"@);
    }
}

/// What the composer guarantees of each emitted line: its text is exactly
/// the visible slice of the buffer line, fits the window, and all its spans
/// are in bounds.
pub open spec fn frame_line_ok(t: Seq<u8>, line: Line, l: int, h: int, c: int) -> bool {
    &&& encode_utf8(line.text@) == line_view(t, l, h, c)
    &&& line.text@.len() <= c
    &&& forall|k: int|
        0 <= k < line.spans@.len() ==> span_ok(#[trigger] line.spans@[k], line.text@.len() as int, c)
    &&& ws_claim(line_bytes(t, l), h, c, line.spans@, line.text@.len() as int)
    &&& err_claim(line.text@, line.spans@)
}

/// Everything the composer guarantees of an emitted line, selection
/// included.
pub open spec fn frame_line_full(
    t: Seq<u8>,
    line: Line,
    l: int,
    h: int,
    c: int,
    sel: Option<core::ops::Range<usize>>,
) -> bool {
    &&& frame_line_ok(t, line, l, h, c)
    &&& sel_claim(t, l, h, c, sel, line.spans@, line.text@.len() as int)
}

proof fn lemma_next_start_props(t: Seq<u8>, j: int)
    requires
        0 <= j <= t.len(),
    ensures
        j <= next_start(t, j) <= t.len(),
        next_start(t, j) == t.len() || !is_continuation_byte(t[next_start(t, j)]),
    decreases t.len() - j,
{
    if j < t.len() && is_continuation_byte(t[j]) {
        lemma_next_start_props(t, j + 1);
    }
}

/// Advancing lands at or after the start, within the text, on a character
/// start or the end.
pub proof fn lemma_adv_props(t: Seq<u8>, i: int, k: int)
    requires
        0 <= i <= t.len(),
        k >= 0,
    ensures
        i <= adv(t, i, k) <= t.len(),
        adv(t, i, k) == t.len() || adv(t, i, k) == i || !is_continuation_byte(t[adv(t, i, k)]),
    decreases k,
{
    if k > 0 && i < t.len() {
        lemma_next_start_props(t, i + 1);
        lemma_adv_props(t, next_start(t, i + 1), k - 1);
    }
}

/// In valid UTF-8, advancing from a boundary lands on a boundary.
pub proof fn lemma_adv_boundary(t: Seq<u8>, i: int, k: int)
    requires
        valid_utf8(t),
        0 <= i <= t.len(),
        is_char_boundary(t, i),
        k >= 0,
    ensures
        is_char_boundary(t, adv(t, i, k)),
{
    lemma_adv_props(t, i, k);
    let v = adv(t, i, k);
    if v == t.len() {
        is_char_boundary_start_end_of_seq(t);
    } else if v == i {
    } else {
        is_char_boundary_iff_not_is_continuation_byte(t, v);
    }
}

/// Count the character starts in `lb[from..to)`.
pub fn char_count_range(lb: &[u8], from: usize, to: usize) -> (r: usize)
    requires
        from <= to <= lb@.len(),
    ensures
        r == cc(lb@, from as int, to as int),
{
    let mut n: usize = 0;
    let mut j: usize = from;
    while j < to
        invariant
            from <= j <= to <= lb@.len(),
            n == cc(lb@, from as int, j as int),
            n <= j - from,
        decreases to - j,
    {
        let b = *vstd::slice::slice_index_get(lb, j);
        if !(0x80u8 <= b && b <= 0xbfu8) {
            n = n + 1;
        }
        j = j + 1;
    }
    n
}

/// Skip `k` characters forward from `from`.
fn advance_from(lb: &[u8], from: usize, k: usize) -> (r: usize)
    requires
        from <= lb@.len(),
    ensures
        r == adv(lb@, from as int, k as int),
        from <= r <= lb@.len(),
{
    let n = lb.len();
    let mut i: usize = from;
    let mut rem: usize = k;
    proof {
        lemma_adv_props(lb@, from as int, k as int);
    }
    while rem > 0 && i < n
        invariant
            from <= i <= n,
            n == lb@.len(),
            adv(lb@, i as int, rem as int) == adv(lb@, from as int, k as int),
        decreases rem,
    {
        let mut j: usize = i + 1;
        while j < n && 0x80u8 <= *vstd::slice::slice_index_get(lb, j) && *vstd::slice::slice_index_get(
            lb,
            j,
        ) <= 0xbfu8
            invariant
                i + 1 <= j <= n,
                n == lb@.len(),
                next_start(lb@, i as int + 1) == next_start(lb@, j as int),
            decreases n - j,
        {
            j = j + 1;
        }
        proof {
            assert(next_start(lb@, j as int) == j as int);
            lemma_adv_props(lb@, j as int, rem as int - 1);
        }
        i = j;
        rem = rem - 1;
    }
    proof {
        if rem == 0 {
            assert(adv(lb@, i as int, 0) == i as int);
        } else {
            assert(i == n);
        }
    }
    i
}

/// A valid scalar's encoding starts with one character-start byte and
/// continues with continuation bytes, so character starts count characters.
pub proof fn lemma_cc_counts_chars(v: Seq<u8>)
    requires
        valid_utf8(v),
    ensures
        cc(v, 0, v.len() as int) == decode_utf8(v).len(),
    decreases v.len(),
{
    if v.len() > 0 {
        assert(valid_first_scalar(v));
        let ln = length_of_first_scalar(v);
        let rest = pop_first_scalar(v);
        lemma_cc_counts_chars(rest);
        assert(rest =~= v.subrange(ln, v.len() as int));
        assert(!is_continuation_byte(v[0])) by {
            if is_leading_byte_width_1(v[0]) {
            }
        }
        assert(forall|q: int| 1 <= q < ln ==> is_continuation_byte(#[trigger] v[q]));
        lemma_cc_shift(v, ln);
        lemma_cc_split(v, 0, ln, v.len() as int);
        assert(cc(v, 0, ln) == 1) by {
            lemma_cc_one_scalar(v, ln);
        }
    }
}

/// Character-start counts add over adjacent ranges.
pub proof fn lemma_cc_split(t: Seq<u8>, i: int, m: int, j: int)
    requires
        i <= m <= j,
    ensures
        cc(t, i, j) == cc(t, i, m) + cc(t, m, j),
    decreases j - m,
{
    if m < j {
        lemma_cc_split(t, i, m, j - 1);
    }
}

proof fn lemma_cc_one_scalar(v: Seq<u8>, ln: int)
    requires
        1 <= ln <= v.len(),
        !is_continuation_byte(v[0]),
        forall|q: int| 1 <= q < ln ==> is_continuation_byte(#[trigger] v[q]),
    ensures
        cc(v, 0, ln) == 1,
    decreases ln,
{
    if ln == 1 {
        assert(cc(v, 0, 0) == 0);
        assert(cc(v, 0, 1) == 1);
    } else {
        lemma_cc_one_scalar(v, ln - 1);
        assert(is_continuation_byte(v[ln - 1]));
        assert(cc(v, 0, ln) == cc(v, 0, ln - 1));
    }
}

/// Character-start counts are invariant under shifting out a prefix.
proof fn lemma_cc_shift(v: Seq<u8>, ln: int)
    requires
        0 <= ln <= v.len(),
    ensures
        cc(v, ln, v.len() as int) == cc(
            v.subrange(ln, v.len() as int),
            0,
            v.len() - ln,
        ),
    decreases v.len() - ln,
{
    lemma_cc_shift_aux(v, ln, v.len() as int);
}

proof fn lemma_cc_shift_aux(v: Seq<u8>, ln: int, j: int)
    requires
        0 <= ln <= j <= v.len(),
    ensures
        cc(v, ln, j) == cc(v.subrange(ln, v.len() as int), 0, j - ln),
    decreases j - ln,
{
    if j > ln {
        lemma_cc_shift_aux(v, ln, j - 1);
        assert(v.subrange(ln, v.len() as int)[j - 1 - ln] == v[j - 1]);
    }
}

/// Advancing `k` characters passes at most `k` character starts.
pub proof fn lemma_adv_cc(t: Seq<u8>, i: int, k: int)
    requires
        0 <= i <= t.len(),
        k >= 0,
        i == t.len() || !is_continuation_byte(t[i]),
    ensures
        cc(t, i, adv(t, i, k)) <= k,
    decreases k,
{
    if k > 0 && i < t.len() {
        lemma_next_start_props(t, i + 1);
        let j = next_start(t, i + 1);
        lemma_adv_cc(t, j, k - 1);
        lemma_adv_props(t, j, k - 1);
        lemma_cc_split(t, i, j, adv(t, j, k - 1));
        assert(cc(t, i, j) == 1) by {
            lemma_cc_one_scalar_between(t, i, j);
        }
    }
}

proof fn lemma_cc_one_scalar_between(t: Seq<u8>, i: int, j: int)
    requires
        0 <= i < j <= t.len(),
        !is_continuation_byte(t[i]),
        j == next_start(t, i + 1),
    ensures
        cc(t, i, j) == 1,
{
    lemma_next_start_cont(t, i + 1, j);
    lemma_cc_cont_range(t, i + 1, j);
    lemma_cc_split(t, i, i + 1, j);
    assert(cc(t, i, i + 1) == 1) by {
        assert(cc(t, i, i) == 0);
    }
}

proof fn lemma_next_start_cont(t: Seq<u8>, a: int, j: int)
    requires
        0 <= a <= t.len(),
        j == next_start(t, a),
    ensures
        forall|q: int| a <= q < j ==> is_continuation_byte(#[trigger] t[q]),
    decreases t.len() - a,
{
    if a < t.len() && is_continuation_byte(t[a]) {
        lemma_next_start_cont(t, a + 1, j);
    }
}

proof fn lemma_cc_cont_range(t: Seq<u8>, a: int, j: int)
    requires
        0 <= a <= j <= t.len(),
        forall|q: int| a <= q < j ==> is_continuation_byte(#[trigger] t[q]),
    ensures
        cc(t, a, j) == 0,
    decreases j - a,
{
    if a < j {
        lemma_cc_cont_range(t, a, j - 1);
    }
}

/// The byte column of a position within its line never exceeds the line's
/// length.
pub proof fn lemma_col_within_line(t: Seq<u8>, b: int)
    requires
        0 <= b <= t.len(),
    ensures
        line_start(t, line_of(t, b)) == line_start_of(t, b),
        col_of(t, b) <= line_bytes(t, line_of(t, b)).len(),
    decreases b,
{
    lemma_line_start_agree(t, b);
    lemma_line_start_of(t, b);
    let s = line_start_of(t, b);
    lemma_line_end_from(t, s);
    let e = line_end_from(t, s);
    if e < b {
        assert(t[e] == 10u8);
        assert(nl_count(t, e + 1) == nl_count(t, e) + 1);
        lemma_nl_count_mono(t, e + 1, b);
        assert(nl_count(t, e) == nl_count(t, s));
        assert(nl_count(t, s) == nl_count(t, b));
        assert(false);
    }
}

/// A cursor at the given absolute position appears in the list.
pub open spec fn has_cursor(out: Seq<Cursor>, line: int, col: int) -> bool {
    exists|k: int| 0 <= k < out.len() && (#[trigger] out[k]).line == line && out[k].col == col
}

/// The cursors the composer owes the frame: every given byte index whose
/// line lies in the viewport and whose character column lies in the window
/// appears, in absolute coordinates (the column saturating at the field's
/// width).
pub open spec fn cursor_claim(
    t: Seq<u8>,
    first: int,
    rows: int,
    h: int,
    c: int,
    cursors: Seq<usize>,
    out: Seq<Cursor>,
) -> bool {
    forall|ci: int|
        0 <= ci < cursors.len() ==> {
            let b = #[trigger] cursors[ci];
            let cl = line_of(t, b as int);
            let col = cc(line_bytes(t, cl), 0, col_of(t, b as int));
            (first <= cl < first + rows && h <= col && col < h + c) ==> has_cursor(
                out,
                cl,
                if col > 0xffff {
                    0xffff
                } else {
                    col
                },
            )
        }
}

/// A recorded cursor survives appending further cursors.
proof fn lemma_has_cursor_push(out: Seq<Cursor>, x: Cursor, line: int, col: int)
    requires
        has_cursor(out, line, col),
    ensures
        has_cursor(out.push(x), line, col),
{
    let k = choose|k: int|
        0 <= k < out.len() && (#[trigger] out[k]).line == line && out[k].col == col;
    assert(out.push(x)[k] == out[k]);
}

/// Compose an editor frame.
#[verifier::rlimit(100)]
pub fn compose(
    buf: &RopeBuffer,
    first_line: usize,
    cols: u16,
    rows: u16,
    hscroll: usize,
    selection: Option<core::ops::Range<usize>>,
    cursors: &Vec<usize>,
    doc_v: u64,
    status_left: &str,
    status_right: &str,
) -> (r: Frame)
    requires
        buf.wf(),
        buf.bytes().len() < usize::MAX,
        first_line + rows <= usize::MAX,
        selection matches Some(sel) ==> sel.start <= sel.end <= buf.bytes().len(),
        forall|ci: int| 0 <= ci < cursors@.len() ==> #[trigger] cursors@[ci] <= buf.bytes().len(),
    ensures
        r.id@ == "editor"@,
        r.kind@ == "editor"@,
        r.doc_v == doc_v,
        r.first_line == first_line as u64,
        r.cols == cols,
        r.rows == rows,
        r.status_left@ == status_left@,
        r.status_right@ == status_right@,
        r.lines@.len() == if (first_line as int) < num_lines(buf.bytes()) {
            vstd::math::min(rows as int, num_lines(buf.bytes()) - first_line)
        } else {
            0
        },
        forall|li: int|
            0 <= li < r.lines@.len() ==> frame_line_full(
                buf.bytes(),
                #[trigger] r.lines@[li],
                first_line + li,
                hscroll as int,
                cols as int,
                selection,
            ),
        forall|ci: int|
            0 <= ci < r.cursors@.len() ==> first_line <= (#[trigger] r.cursors@[ci]).line
                < first_line + rows,
        cursor_claim(
            buf.bytes(),
            first_line as int,
            rows as int,
            hscroll as int,
            cols as int,
            cursors@,
            r.cursors@,
        ),
{
    let ghost t = buf.bytes();
    let total = buf.len_lines();
    let shown: usize = if first_line >= total {
        0
    } else if total - first_line < rows as usize {
        total - first_line
    } else {
        rows as usize
    };
    let mut lines: Vec<Line> = Vec::new();
    let mut off: usize = 0;
    while off < shown
        invariant
            buf.wf(),
            t == buf.bytes(),
            t.len() < usize::MAX,
            total == num_lines(t),
            shown > 0 ==> first_line + shown <= total,
            off <= shown,
            lines@.len() == off,
            forall|li: int|
                0 <= li < lines@.len() ==> frame_line_full(
                    t,
                    #[trigger] lines@[li],
                    first_line + li,
                    hscroll as int,
                    cols as int,
                    selection,
                ),
        decreases shown - off,
    {
        let l = first_line + off;
        let line_string = buf.line_text(l);
        let lb = line_string.as_str().as_bytes();
        let ghost lbs = line_bytes(t, l as int);
        proof {
            assert(lb@ == lbs);
            encode_utf8_valid_utf8(line_string@);
            is_char_boundary_start_end_of_seq(lbs);
        }
        let n = lb.len();
        let full_cols = char_count_range(lb, 0, n);
        let sb = advance_from(lb, 0, hscroll);
        let eb = advance_from(lb, sb, cols as usize);
        proof {
            lemma_adv_boundary(lbs, 0, hscroll as int);
            lemma_adv_boundary(lbs, sb as int, cols as int);
            valid_utf8_split(lbs, eb as int);
            crate::buffer::is_char_boundary_prefix(lbs, eb as int, sb as int);
            valid_utf8_split(lbs.subrange(0, eb as int), sb as int);
            assert(lbs.subrange(0, eb as int).subrange(sb as int, eb as int) =~= lbs.subrange(
                sb as int,
                eb as int,
            ));
        }
        let vis = vstd::slice::slice_subrange(lb, sb, eb);
        let text = crate::strutil::decode_valid(vis);
        let ghost vis_len = cc(lbs, sb as int, eb as int);
        proof {
            lemma_cc_counts_chars(vis@);
            lemma_cc_shift_to_subrange(lbs, sb as int, eb as int);
            lemma_adv_props(lbs, 0, hscroll as int);
            lemma_adv_cc(lbs, sb as int, cols as int);
            assert(text@.len() == vis_len <= cols as int);
        }
        let vis_chars = crate::strutil::str_to_chars(text.as_str());
        let mut spans: Vec<StyleSpan> = Vec::new();
        // Trailing-whitespace span over the full line, clipped to the window.
        let mut wsb: usize = n;
        proof {
            assert(lbs.take(n as int) =~= lbs);
        }
        while wsb > 0 && (*vstd::slice::slice_index_get(lb, wsb - 1) == 32u8
            || *vstd::slice::slice_index_get(lb, wsb - 1) == 9u8)
            invariant
                wsb <= n,
                n == lbs.len(),
                lb@ == lbs,
                ws_start(lbs) == ws_start(lbs.take(wsb as int)),
            decreases wsb,
        {
            proof {
                assert(lbs.take(wsb as int).last() == lbs[wsb as int - 1]);
                assert(lbs.take(wsb as int).drop_last() =~= lbs.take(wsb as int - 1));
            }
            wsb = wsb - 1;
        }
        proof {
            if wsb > 0 {
                assert(lbs.take(wsb as int).last() == lbs[wsb as int - 1]);
            } else {
                assert(lbs.take(0).len() == 0);
            }
            assert(ws_start(lbs) == wsb as int);
        }
        if wsb < n {
            let ws_col = char_count_range(lb, 0, wsb);
            // clip [ws_col, full_cols) to the window [hscroll, hscroll+cols)
            if full_cols > hscroll {
                let rel_end_u = full_cols - hscroll;
                let rel_end: usize = if rel_end_u > cols as usize {
                    cols as usize
                } else {
                    rel_end_u
                };
                let rel_start: usize = if ws_col > hscroll {
                    let rs = ws_col - hscroll;
                    if rs > cols as usize {
                        cols as usize
                    } else {
                        rs
                    }
                } else {
                    0
                };
                if rel_start < rel_end && rel_end <= vis_chars.len() {
                    proof {
                        assert(text@.len() == vis_chars@.len());
                    }
                    let ghost before_spans = spans@;
                    spans.push(
                        StyleSpan {
                            start_col: rel_start as u16,
                            end_col: rel_end as u16,
                            class_name: ws_class(),
                        },
                    );
                    proof {
                        assert(spans@[spans@.len() - 1].start_col == rel_start);
                        assert(spans@[spans@.len() - 1].end_col == rel_end);
                        assert(spans@[spans@.len() - 1].class_name@ == "ws"@);
                        assert(has_span(spans@, rel_start as int, rel_end as int, "ws"@));
                    }
                }
            }
        }
        proof {
            assert(ws_claim(lbs, hscroll as int, cols as int, spans@, text@.len() as int));
        }
        // Selection span, projected onto this line and clipped to the window.
        match &selection {
            Some(sel) => {
                let ls = buf.line_to_byte(l);
                proof {
                    lemma_line_sub(t, l as int);
                }
                if sel.end > ls && sel.start <= ls + n {
                    let sstart = if sel.start > ls {
                        sel.start - ls
                    } else {
                        0
                    };
                    let send_u = if sel.end - ls > n {
                        n
                    } else {
                        sel.end - ls
                    };
                    if sstart < send_u {
                        let c1 = char_count_range(lb, 0, sstart);
                        let c2 = char_count_range(lb, 0, send_u);
                        if c2 > hscroll {
                            let a: usize = if c1 > hscroll {
                                c1 - hscroll
                            } else {
                                0
                            };
                            let b: usize = if c2 - hscroll > cols as usize {
                                cols as usize
                            } else {
                                c2 - hscroll
                            };
                            let bcap: usize = if b > vis_chars.len() {
                                vis_chars.len()
                            } else {
                                b
                            };
                            if a < bcap {
                                proof {
                                    assert(text@.len() == vis_chars@.len());
                                }
                                let ghost before_spans = spans@;
                                let sel_span = StyleSpan {
                                    start_col: a as u16,
                                    end_col: bcap as u16,
                                    class_name: sel_class(),
                                };
                                proof {
                                    lemma_ws_claim_push(
                                        lbs,
                                        hscroll as int,
                                        cols as int,
                                        before_spans,
                                        sel_span,
                                        text@.len() as int,
                                    );
                                }
                                spans.push(sel_span);
                                proof {
                                    assert(spans@ =~= before_spans.push(sel_span));
                                    assert(spans@[spans@.len() - 1].start_col == a);
                                    assert(spans@[spans@.len() - 1].end_col == bcap);
                                    assert(spans@[spans@.len() - 1].class_name@ == "sel"@);
                                    assert(has_span(spans@, a as int, bcap as int, "sel"@));
                                }
                            }
                        }
                    }
                }
            },
            None => {},
        }
        proof {
            assert(sel_claim(
                t,
                (first_line + off) as int,
                hscroll as int,
                cols as int,
                selection,
                spans@,
                text@.len() as int,
            ));
        }
        // One-column error span for each visible U+FFFD.
        let vn = vis_chars.len();
        let mut k: usize = 0;
        proof {
            assert(vn <= cols as usize);
        }
        while k < vn
            invariant
                k <= vn,
                vn == vis_chars@.len() <= cols as int,
                vis_chars@.len() == text@.len(),
                vis_chars@ == text@,
                lb@ == lbs,
                forall|q: int|
                    0 <= q < spans@.len() ==> span_ok(
                        #[trigger] spans@[q],
                        text@.len() as int,
                        cols as int,
                    ),
                ws_claim(lbs, hscroll as int, cols as int, spans@, text@.len() as int),
                sel_claim(
                    t,
                    (first_line + off) as int,
                    hscroll as int,
                    cols as int,
                    selection,
                    spans@,
                    text@.len() as int,
                ),
                forall|q: int|
                    0 <= q < k && text@[q] == '\u{FFFD}' ==> has_span(spans@, q, q + 1, "err"@),
            decreases vn - k,
        {
            if vis_chars[k] == '\u{FFFD}' {
                let ghost before_spans = spans@;
                let err_span = StyleSpan {
                    start_col: k as u16,
                    end_col: (k + 1) as u16,
                    class_name: err_class(),
                };
                proof {
                    lemma_ws_claim_push(
                        lbs,
                        hscroll as int,
                        cols as int,
                        before_spans,
                        err_span,
                        text@.len() as int,
                    );
                    lemma_sel_claim_push(
                        t,
                        (first_line + off) as int,
                        hscroll as int,
                        cols as int,
                        selection,
                        before_spans,
                        err_span,
                        text@.len() as int,
                    );
                    lemma_err_preserved(text@, before_spans, err_span, k as int);
                }
                spans.push(err_span);
                proof {
                    assert(spans@ =~= before_spans.push(err_span));
                    assert(spans@[spans@.len() - 1].start_col == k);
                    assert(has_span(spans@, k as int, k as int + 1, "err"@));
                }
            }
            k = k + 1;
        }
        proof {
            decode_utf8_encode_utf8(vis@);
            assert(encode_utf8(text@) == lbs.subrange(sb as int, eb as int));
            assert(lbs.subrange(sb as int, eb as int) == line_view(
                t,
                first_line + off,
                hscroll as int,
                cols as int,
            ));
        }
        lines.push(Line { text, spans });
        off = off + 1;
    }
    // Cursors: absolute coordinates, emitted only inside the viewport.
    let mut out_cursors: Vec<Cursor> = Vec::new();
    let cn = cursors.len();
    let mut ci: usize = 0;
    while ci < cn
        invariant
            buf.wf(),
            t == buf.bytes(),
            t.len() < usize::MAX,
            first_line + rows <= usize::MAX,
            ci <= cn,
            cn == cursors@.len(),
            forall|q: int| 0 <= q < cursors@.len() ==> #[trigger] cursors@[q] <= t.len(),
            forall|q: int|
                0 <= q < out_cursors@.len() ==> first_line <= (#[trigger] out_cursors@[q]).line
                    < first_line + rows,
            cursor_claim(
                t,
                first_line as int,
                rows as int,
                hscroll as int,
                cols as int,
                cursors@.take(ci as int),
                out_cursors@,
            ),
        decreases cn - ci,
    {
        let b = cursors[ci];
        let (cl, bcol) = buf.byte_to_line_col(b);
        if cl >= first_line && cl < first_line + rows as usize {
            proof {
                lemma_col_within_line(t, b as int);
                lemma_line_of_in_range(t, b as int);
            }
            let line_string = buf.line_text(cl);
            let lb = line_string.as_str().as_bytes();
            proof {
                encode_utf8_valid_utf8(line_string@);
            }
            let ccol = char_count_range(lb, 0, bcol);
            if ccol >= hscroll && ccol - hscroll < cols as usize {
                let shown_col: u16 = if ccol > 0xffff {
                    0xffffu16
                } else {
                    ccol as u16
                };
                let ghost before_cursors = out_cursors@;
                out_cursors.push(Cursor { line: cl as u64, col: shown_col });
                proof {
                    assert(out_cursors@[out_cursors@.len() - 1].line == cl);
                    assert(has_cursor(out_cursors@, cl as int, shown_col as int));
                    assert forall|q: int|
                        0 <= q < before_cursors.len() implies out_cursors@[q]
                        == before_cursors[q] by {}
                }
            }
        }
        proof {
            assert(cursors@.take(ci as int + 1).drop_last() =~= cursors@.take(ci as int));
            assert(cursors@.take(ci as int + 1)[ci as int] == cursors@[ci as int]);
        }
        ci = ci + 1;
    }
    proof {
        assert(cursors@.take(cn as int) =~= cursors@);
    }
    Frame {
        id: editor_id(),
        kind: editor_id(),
        doc_v,
        first_line: first_line as u64,
        cols,
        rows,
        lines,
        cursors: out_cursors,
        status_left: status_left.to_owned(),
        status_right: status_right.to_owned(),
    }
}

/// The line holding an in-range byte index is an in-range line.
pub proof fn lemma_line_of_in_range(t: Seq<u8>, b: int)
    requires
        0 <= b <= t.len(),
    ensures
        0 <= line_of(t, b) < num_lines(t),
{
    lemma_nl_count_mono(t, 0, b);
    lemma_nl_count_mono(t, b, t.len() as int);
}

/// A line lies within the text: its start plus its length is in range.
proof fn lemma_line_sub(t: Seq<u8>, l: int)
    requires
        0 <= l,
    ensures
        0 <= line_start(t, l) <= t.len(),
        line_start(t, l) + line_bytes(t, l).len() <= t.len(),
{
    crate::linecol::lemma_lsf_bounds(t, 0, l);
    lemma_line_end_from(t, line_start(t, l));
}

/// Character-start counts over a subrange equal the count over the copied
/// slice.
pub proof fn lemma_cc_shift_to_subrange(t: Seq<u8>, a: int, b: int)
    requires
        0 <= a <= b <= t.len(),
    ensures
        cc(t, a, b) == cc(t.subrange(a, b), 0, b - a),
    decreases b - a,
{
    if b > a {
        lemma_cc_shift_to_subrange_aux(t, a, b, b);
    }
}

proof fn lemma_cc_shift_to_subrange_aux(t: Seq<u8>, a: int, b: int, j: int)
    requires
        0 <= a <= j <= b <= t.len(),
    ensures
        cc(t, a, j) == cc(t.subrange(a, b), 0, j - a),
    decreases j - a,
{
    if j > a {
        lemma_cc_shift_to_subrange_aux(t, a, b, j - 1);
        assert(t.subrange(a, b)[j - 1 - a] == t[j - 1]);
    }
}

/// The class name of selection spans.
fn sel_class() -> (r: String)
    ensures
        r@ == "sel"@,
{
    let s = "sel";
    s.to_owned()
}

/// The class name of trailing-whitespace spans.
fn ws_class() -> (r: String)
    ensures
        r@ == "ws"@,
{
    let s = "ws";
    s.to_owned()
}

/// The class name of replacement-character spans.
fn err_class() -> (r: String)
    ensures
        r@ == "err"@,
{
    let s = "err";
    s.to_owned()
}

/// The frame id and kind of editor frames.
fn editor_id() -> (r: String)
    ensures
        r@ == "editor"@,
{
    let s = "editor";
    s.to_owned()
}

} // verus!
