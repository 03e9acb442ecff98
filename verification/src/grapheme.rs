//! Grapheme-cluster navigation over the buffer.
//!
//! The segmentation itself comes from the unicode-segmentation crate; the
//! buffer navigates between the cluster start offsets it reports, so stepping
//! left and right are provably mutual inverses on the reported boundaries.

use vstd::prelude::*;

verus! {

use vstd::utf8::{is_char_boundary, encode_utf8, decode_utf8, valid_utf8, decode_utf8_encode_utf8};
use vstd::string::StringSliceAdditionalSpecFns;
use crate::buffer::RopeBuffer;

/// The start offsets of the extended grapheme clusters of a UTF-8 text: a
/// function of the bytes alone.
pub uninterp spec fn grapheme_starts(bytes: Seq<u8>) -> Seq<usize>;

/// Relies on unicode_segmentation::UnicodeSegmentation::grapheme_indices:
/// extended grapheme clusters partition the string, so their start offsets
/// begin at 0, increase strictly, lie within the text on character
/// boundaries, and depend on the text alone.
#[verifier::external_body]
fn grapheme_starts_of(s: &str) -> (r: Vec<usize>)
    ensures
        r@ == grapheme_starts(s.spec_bytes()),
        s.spec_bytes().len() == 0 ==> r@.len() == 0,
        s.spec_bytes().len() > 0 ==> r@.len() > 0 && r@[0] == 0,
        forall|i: int| 0 <= i < r@.len() ==> (#[trigger] r@[i]) < s.spec_bytes().len(),
        forall|i: int, j: int| 0 <= i < j < r@.len() ==> #[trigger] r@[i] < #[trigger] r@[j],
        forall|i: int|
            0 <= i < r@.len() ==> is_char_boundary(s.spec_bytes(), #[trigger] r@[i] as int),
{
    unicode_segmentation::UnicodeSegmentation::grapheme_indices(s, true)
        .map(|p: (usize, &str)| p.0)
        .collect()
}

/// The largest element of `s` below `b`, or 0 when none is.
pub open spec fn last_below(s: Seq<usize>, b: int) -> int
    decreases s.len(),
{
    if s.len() == 0 {
        0
    } else if s.last() < b {
        s.last() as int
    } else {
        last_below(s.drop_last(), b)
    }
}

/// The smallest element of `s` above `b`, or `d` when none is.
pub open spec fn first_above(s: Seq<usize>, b: int, d: int) -> int
    decreases s.len(),
{
    if s.len() == 0 {
        d
    } else if s.first() > b {
        s.first() as int
    } else {
        first_above(s.skip(1), b, d)
    }
}

/// Whether `s` increases strictly, as a grapheme start table does.
pub open spec fn strictly_increasing(s: Seq<usize>) -> bool {
    forall|i: int, j: int| 0 <= i < j < s.len() ==> #[trigger] s[i] < #[trigger] s[j]
}

/// Stepping to the previous boundary from a boundary lands on the boundary
/// just before it.
pub proof fn lemma_last_below_at(s: Seq<usize>, i: int)
    requires
        strictly_increasing(s),
        1 <= i < s.len(),
    ensures
        last_below(s, s[i] as int) == s[i - 1],
    decreases s.len(),
{
    if s.last() < s[i] {
        assert(i == s.len() - 1) by {
            if i < s.len() - 1 {
                assert(s[i] < s[s.len() - 1]);
            }
        }
    } else if i == s.len() - 1 {
        assert(s.drop_last().last() == s[i - 1]);
        assert(s[i - 1] < s[i]);
        assert(last_below(s.drop_last(), s[i] as int) == s[i - 1]);
    } else {
        assert(strictly_increasing(s.drop_last())) by {
            assert(forall|p: int, q: int|
                0 <= p < q < s.drop_last().len() ==> #[trigger] s.drop_last()[p]
                    < #[trigger] s.drop_last()[q]) by {
                assert(forall|p: int|
                    0 <= p < s.drop_last().len() ==> #[trigger] s.drop_last()[p] == s[p]);
            }
        }
        lemma_last_below_at(s.drop_last(), i);
        assert(s.drop_last()[i] == s[i]);
        assert(s.drop_last()[i - 1] == s[i - 1]);
    }
}

/// Stepping to the next boundary from a boundary lands on the boundary just
/// after it.
pub proof fn lemma_first_above_at(s: Seq<usize>, i: int, d: int)
    requires
        strictly_increasing(s),
        0 <= i < s.len() - 1,
    ensures
        first_above(s, s[i] as int, d) == s[i + 1],
    decreases s.len(),
{
    if s.first() > s[i] {
        assert(i == 0 ==> s.first() == s[i]);
        assert(s[0] <= s[i]);
        assert(false);
    } else {
        if i == 0 {
            assert(s.first() == s[0]);
            assert(s.skip(1)[0] == s[1]);
            assert(first_above(s.skip(1), s[0] as int, d) == s[1]) by {
                lemma_first_above_skip_all_gt(s.skip(1), s[0] as int, d, s);
            }
        } else {
            assert(strictly_increasing(s.skip(1))) by {
                assert(forall|p: int|
                    0 <= p < s.skip(1).len() ==> #[trigger] s.skip(1)[p] == s[p + 1]);
            }
            lemma_first_above_at(s.skip(1), i - 1, d);
            assert(s.skip(1)[i - 1] == s[i]);
            assert(s.skip(1)[i] == s[i + 1]);
        }
    }
}

/// In a strictly increasing table whose first element already exceeds `b`,
/// the first element above `b` is the head.
proof fn lemma_first_above_skip_all_gt(s: Seq<usize>, b: int, d: int, whole: Seq<usize>)
    requires
        strictly_increasing(whole),
        s == whole.skip(1),
        whole.len() >= 2,
        b == whole[0],
    ensures
        first_above(s, b, d) == whole[1],
{
    assert(forall|p: int| 0 <= p < s.len() ==> #[trigger] s[p] == whole[p + 1]);
    assert(s.first() == whole[1]);
    assert(whole[0] < whole[1]);
}

impl RopeBuffer {
    /// The byte index of the grapheme boundary immediately to the left of
    /// `byte_idx`, or `None` at the start of the buffer.
    pub fn grapheme_left(&self, byte_idx: usize) -> (r: Option<usize>)
        requires
            self.wf(),
            byte_idx <= self.bytes().len(),
        ensures
            byte_idx == 0 ==> r is None,
            byte_idx > 0 ==> r == Some(last_below(grapheme_starts(self.bytes()), byte_idx as int)
                as usize),
            r matches Some(p) ==> p < byte_idx,
    {
        if byte_idx == 0 {
            return None;
        }
        let s = self.text();
        proof {
            decode_utf8_encode_utf8(self.bytes());
        }
        let starts = grapheme_starts_of(s.as_str());
        let ghost gs = grapheme_starts(self.bytes());
        let mut idx: usize = starts.len();
        proof {
            assert(gs.take(gs.len() as int) =~= gs);
        }
        while idx > 0
            invariant
                byte_idx > 0,
                idx <= starts.len(),
                starts@ == gs,
                gs == grapheme_starts(self.bytes()),
                last_below(gs, byte_idx as int) == last_below(gs.take(idx as int), byte_idx as int),
                forall|q: int| 0 <= q < gs.len() ==> #[trigger] gs[q] >= 0,
            decreases idx,
        {
            proof {
                assert(gs.take(idx as int).drop_last() =~= gs.take(idx as int - 1));
                assert(gs.take(idx as int).last() == gs[idx as int - 1]);
            }
            if starts[idx - 1] < byte_idx {
                proof {
                    assert(last_below(gs.take(idx as int), byte_idx as int) == gs[idx as int - 1]);
                    assert(last_below(gs, byte_idx as int) as usize == gs[idx as int - 1]);
                }
                return Some(starts[idx - 1]);
            }
            idx = idx - 1;
        }
        proof {
            assert(gs.take(0) =~= Seq::<usize>::empty());
            assert(last_below(gs, byte_idx as int) == 0);
        }
        Some(0)
    }

    /// The byte index of the grapheme boundary immediately to the right of
    /// `byte_idx`, or `None` at the end of the buffer.
    pub fn grapheme_right(&self, byte_idx: usize) -> (r: Option<usize>)
        requires
            self.wf(),
            byte_idx <= self.bytes().len(),
        ensures
            byte_idx == self.bytes().len() ==> r is None,
            byte_idx < self.bytes().len() ==> r == Some(first_above(
                grapheme_starts(self.bytes()),
                byte_idx as int,
                self.bytes().len() as int,
            ) as usize),
            r matches Some(p) ==> byte_idx < p <= self.bytes().len(),
    {
        let n = self.len_bytes();
        if byte_idx >= n {
            return None;
        }
        let s = self.text();
        proof {
            decode_utf8_encode_utf8(self.bytes());
        }
        let starts = grapheme_starts_of(s.as_str());
        let ghost gs = grapheme_starts(self.bytes());
        let m = starts.len();
        let mut j: usize = 0;
        proof {
            assert(gs.skip(0) =~= gs);
        }
        while j < m
            invariant
                j <= m,
                m == gs.len(),
                starts@ == gs,
                gs == grapheme_starts(self.bytes()),
                byte_idx < n == self.bytes().len(),
                forall|q: int| 0 <= q < gs.len() ==> #[trigger] gs[q] < n,
                first_above(gs, byte_idx as int, n as int) == first_above(
                    gs.skip(j as int),
                    byte_idx as int,
                    n as int,
                ),
            decreases m - j,
        {
            proof {
                assert(gs.skip(j as int).first() == gs[j as int]);
                assert(gs.skip(j as int).skip(1) =~= gs.skip(j as int + 1));
            }
            if starts[j] > byte_idx {
                proof {
                    assert(first_above(gs.skip(j as int), byte_idx as int, n as int) == gs[
                        j as int
                    ]);
                    assert(first_above(gs, byte_idx as int, n as int) as usize == gs[j as int]);
                }
                return Some(starts[j]);
            }
            j = j + 1;
        }
        proof {
            assert(gs.skip(m as int) =~= Seq::<usize>::empty());
            assert(first_above(gs, byte_idx as int, n as int) == n);
        }
        Some(n)
    }
}


/// Grapheme navigation steps are mutual inverses on interior boundaries:
/// in any strictly increasing boundary table (as every grapheme start table
/// is), stepping left from an interior boundary and then right returns to
/// it, and stepping right from its predecessor and then left returns there.
pub proof fn lemma_grapheme_mutual_inverse(s: Seq<usize>, i: int, d: int)
    requires
        strictly_increasing(s),
        1 <= i < s.len(),
    ensures
        first_above(s, last_below(s, s[i] as int), d) == s[i],
        last_below(s, first_above(s, s[i - 1] as int, d)) == s[i - 1],
{
    lemma_last_below_at(s, i);
    lemma_first_above_at(s, i - 1, d);
}

} // verus!
