//! Line and column arithmetic over byte sequences.
//!
//! Text is kept with LF line separators, so line structure is fully determined
//! by the positions of the byte 0x0A. These spec functions define, and the
//! lemmas relate, the two directions of the byte index <-> (line, column)
//! correspondence that the buffer exposes.

use vstd::prelude::*;

verus! {

/// Number of newline bytes among the first `i` bytes of `t`.
pub open spec fn nl_count(t: Seq<u8>, i: int) -> int
    decreases i,
{
    if i <= 0 {
        0
    } else {
        nl_count(t, i - 1) + if t[i - 1] == 10u8 {
            1int
        } else {
            0int
        }
    }
}

/// A position is a line start when it is the beginning of the text or follows
/// a newline byte.
pub open spec fn is_line_start(t: Seq<u8>, j: int) -> bool {
    j == 0 || t[j - 1] == 10u8
}

/// The start of the line containing byte position `b`: the nearest line start
/// at or before `b`.
pub open spec fn line_start_of(t: Seq<u8>, b: int) -> int
    decreases b,
{
    if b <= 0 {
        0
    } else if t[b - 1] == 10u8 {
        b
    } else {
        line_start_of(t, b - 1)
    }
}

/// The start of line `l`, scanning forward from position `i`; clamps to the
/// end of the text when fewer than `l` lines follow.
pub open spec fn line_start_from(t: Seq<u8>, i: int, l: int) -> int
    decreases t.len() - i,
{
    if l <= 0 {
        i
    } else if i >= t.len() {
        t.len() as int
    } else if t[i] == 10u8 {
        line_start_from(t, i + 1, l - 1)
    } else {
        line_start_from(t, i + 1, l)
    }
}

/// The byte index where line `l` begins.
pub open spec fn line_start(t: Seq<u8>, l: int) -> int {
    line_start_from(t, 0, l)
}

/// The first newline position at or after `i`, or the end of the text.
pub open spec fn line_end_from(t: Seq<u8>, i: int) -> int
    decreases t.len() - i,
{
    if i >= t.len() {
        t.len() as int
    } else if t[i] == 10u8 {
        i
    } else {
        line_end_from(t, i + 1)
    }
}

/// Total number of lines: one more than the number of newline bytes.
pub open spec fn num_lines(t: Seq<u8>) -> int {
    nl_count(t, t.len() as int) + 1
}

/// The line holding byte position `b`.
pub open spec fn line_of(t: Seq<u8>, b: int) -> int {
    nl_count(t, b)
}

/// The column of byte position `b`, counted in bytes from its line start.
pub open spec fn col_of(t: Seq<u8>, b: int) -> int {
    b - line_start_of(t, b)
}

/// The bytes of line `l`, without its trailing newline.
pub open spec fn line_bytes(t: Seq<u8>, l: int) -> Seq<u8> {
    t.subrange(line_start(t, l), line_end_from(t, line_start(t, l)))
}

/// Newline counts never decrease along the text, and grow by at most one per
/// byte.
pub proof fn lemma_nl_count_mono(t: Seq<u8>, i: int, j: int)
    requires
        i <= j,
    ensures
        nl_count(t, i) <= nl_count(t, j) <= nl_count(t, i) + (j - i),
    decreases j - i,
{
    if i < j {
        lemma_nl_count_mono(t, i, j - 1);
    }
}

/// The nearest line start before `b` really is a line start, lies at or before
/// `b`, and no newline falls between it and `b`.
pub proof fn lemma_line_start_of(t: Seq<u8>, b: int)
    requires
        0 <= b <= t.len(),
    ensures
        0 <= line_start_of(t, b) <= b,
        is_line_start(t, line_start_of(t, b)),
        nl_count(t, line_start_of(t, b)) == nl_count(t, b),
    decreases b,
{
    if b > 0 && t[b - 1] != 10u8 {
        lemma_line_start_of(t, b - 1);
    }
}

/// Forward characterization of `line_start_from`: starting from `i`, skipping
/// `l` newlines lands on a position whose newline count exceeds that of `i` by
/// exactly `l`, and which is either `i` itself or just after a newline.
pub proof fn lemma_line_start_from(t: Seq<u8>, i: int, l: int)
    requires
        0 <= i <= t.len(),
        0 <= l <= nl_count(t, t.len() as int) - nl_count(t, i),
    ensures
        i <= line_start_from(t, i, l) <= t.len(),
        nl_count(t, line_start_from(t, i, l)) == nl_count(t, i) + l,
        line_start_from(t, i, l) == i || t[line_start_from(t, i, l) - 1] == 10u8,
    decreases t.len() - i,
{
    if l <= 0 {
    } else {
        assert(i < t.len()) by {
            if i == t.len() {
                assert(nl_count(t, t.len() as int) - nl_count(t, i) == 0);
            }
        }
        assert(nl_count(t, i + 1) == nl_count(t, i) + if t[i] == 10u8 {
            1int
        } else {
            0int
        });
        if t[i] == 10u8 {
            lemma_line_start_from(t, i + 1, l - 1);
        } else {
            lemma_line_start_from(t, i + 1, l);
            let j = line_start_from(t, i + 1, l);
            assert(j != i + 1) by {
                if j == i + 1 {
                    assert(nl_count(t, j) == nl_count(t, i + 1) + l);
                }
            }
        }
    }
}

/// Scanning for any line start stays within the text.
pub proof fn lemma_lsf_bounds(t: Seq<u8>, i: int, l: int)
    requires
        0 <= i <= t.len(),
    ensures
        i <= line_start_from(t, i, l) <= t.len(),
    decreases t.len() - i,
{
    if l > 0 && i < t.len() {
        if t[i] == 10u8 {
            lemma_lsf_bounds(t, i + 1, l - 1);
        } else {
            lemma_lsf_bounds(t, i + 1, l);
        }
    }
}

/// Two line starts on the same line coincide.
pub proof fn lemma_line_start_unique(t: Seq<u8>, s1: int, s2: int)
    requires
        0 <= s1 <= t.len(),
        0 <= s2 <= t.len(),
        is_line_start(t, s1),
        is_line_start(t, s2),
        nl_count(t, s1) == nl_count(t, s2),
    ensures
        s1 == s2,
{
    if s1 < s2 {
        assert(t[s2 - 1] == 10u8);
        lemma_nl_count_mono(t, s1, s2 - 1);
        assert(nl_count(t, s2) == nl_count(t, s2 - 1) + 1);
    } else if s2 < s1 {
        assert(t[s1 - 1] == 10u8);
        lemma_nl_count_mono(t, s2, s1 - 1);
        assert(nl_count(t, s1) == nl_count(t, s1 - 1) + 1);
    }
}

/// Scanning forward for line `line_of(t, b)` finds exactly the line start
/// that the backward scan from `b` finds: the two directions of the byte <->
/// (line, column) correspondence agree.
pub proof fn lemma_line_start_agree(t: Seq<u8>, b: int)
    requires
        0 <= b <= t.len(),
    ensures
        line_start(t, line_of(t, b)) == line_start_of(t, b),
{
    lemma_line_start_of(t, b);
    lemma_nl_count_mono(t, 0, b);
    lemma_nl_count_mono(t, b, t.len() as int);
    lemma_line_start_from(t, 0, nl_count(t, b));
    lemma_line_start_unique(t, line_start_from(t, 0, nl_count(t, b)), line_start_of(t, b));
}

/// A line's end comes no earlier than its position argument, stays within the
/// text, and everything between carries no newline.
pub proof fn lemma_line_end_from(t: Seq<u8>, i: int)
    requires
        0 <= i <= t.len(),
    ensures
        i <= line_end_from(t, i) <= t.len(),
        nl_count(t, line_end_from(t, i)) == nl_count(t, i),
        line_end_from(t, i) == t.len() || t[line_end_from(t, i)] == 10u8,
    decreases t.len() - i,
{
    if i < t.len() && t[i] != 10u8 {
        assert(nl_count(t, i + 1) == nl_count(t, i));
        lemma_line_end_from(t, i + 1);
    }
}


/// The byte index <-> (line, column) conversions are mutual inverses on
/// in-range positions: any in-range byte index decomposes into a line and a
/// column that recompose to it, and any in-range (line, column) pair
/// recomposes into a byte index that decomposes back to it.
pub proof fn lemma_line_col_round_trip(t: Seq<u8>, b: int, l: int, c: int)
    requires
        0 <= b <= t.len(),
        0 <= l < num_lines(t),
        0 <= c <= line_bytes(t, l).len(),
    ensures
        line_start(t, line_of(t, b)) + col_of(t, b) == b,
        line_of(t, line_start(t, l) + c) == l,
        col_of(t, line_start(t, l) + c) == c,
{
    lemma_line_start_agree(t, b);
    lemma_nl_count_mono(t, 0, t.len() as int);
    lemma_line_start_from(t, 0, l);
    let ls = line_start(t, l);
    lemma_line_end_from(t, ls);
    let le = line_end_from(t, ls);
    assert(line_bytes(t, l).len() == le - ls);
    let pos = ls + c;
    assert(nl_count(t, ls) == l);
    lemma_nl_count_mono(t, ls, pos);
    lemma_nl_count_mono(t, pos, le);
    assert(nl_count(t, pos) == l);
    lemma_line_start_of(t, pos);
    lemma_line_start_unique(t, ls, line_start_of(t, pos));
}

} // verus!
