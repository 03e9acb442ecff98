//! A character-indexed rope storing text in bounded chunks.

use vstd::prelude::*;

verus! {

use crate::strutil::{str_to_chars, chars_to_string};

/// The largest number of characters one chunk holds.
pub const CHUNK_SIZE: usize = 65536;

/// The characters of the chunk list from position `i` on, joined.
pub open spec fn cat(cs: Seq<Vec<char>>, i: int) -> Seq<char>
    decreases cs.len() - i,
{
    if i < 0 || i >= cs.len() {
        Seq::<char>::empty()
    } else {
        cs[i]@ + cat(cs, i + 1)
    }
}

/// Appending a chunk appends its characters.
pub proof fn lemma_cat_push(cs: Seq<Vec<char>>, c: Vec<char>, i: int)
    requires
        0 <= i <= cs.len(),
    ensures
        cat(cs.push(c), i) == cat(cs, i) + c@,
    decreases cs.len() - i,
{
    if i == cs.len() {
        assert(cs.push(c)[i] == c);
        assert(cat(cs.push(c), i + 1) =~= Seq::<char>::empty());
        assert(cat(cs.push(c), i) =~= c@ + Seq::<char>::empty());
        assert(cat(cs, i) + c@ =~= c@ + Seq::<char>::empty());
    } else {
        lemma_cat_push(cs, c, i + 1);
        assert(cs.push(c)[i] == cs[i]);
        assert(cat(cs.push(c), i) =~= cat(cs, i) + c@);
    }
}

/// The position of the first newline at or after `i`, or the end.
pub open spec fn nl_pos(s: Seq<char>, i: int) -> int
    decreases s.len() - i,
{
    if i >= s.len() {
        s.len() as int
    } else if s[i] == '\n' {
        i
    } else {
        nl_pos(s, i + 1)
    }
}

/// A line with a trailing carriage return stripped.
pub open spec fn strip_cr(l: Seq<char>) -> Seq<char> {
    if l.len() > 0 && l.last() == '\r' {
        l.drop_last()
    } else {
        l
    }
}

/// The first newline of `s`, clamped into the text (the clamp never fires:
/// the scan stays in range).
pub open spec fn first_nl(s: Seq<char>) -> int {
    vstd::math::max(0, vstd::math::min(nl_pos(s, 0), s.len() as int))
}

/// The lines of a text: split at newlines, with no trailing empty line for a
/// text that ends in a newline, and any trailing carriage return stripped.
pub open spec fn lines_of(s: Seq<char>) -> Seq<Seq<char>>
    decreases s.len(),
{
    if s.len() == 0 {
        Seq::<Seq<char>>::empty()
    } else {
        let e = first_nl(s);
        if e < s.len() {
            seq![strip_cr(s.subrange(0, e))] + lines_of(s.skip(e + 1))
        } else {
            seq![strip_cr(s)]
        }
    }
}

proof fn lemma_nl_pos_bounds(s: Seq<char>, i: int)
    requires
        0 <= i <= s.len(),
    ensures
        i <= nl_pos(s, i) <= s.len(),
        nl_pos(s, i) == s.len() || s[nl_pos(s, i)] == '\n',
    decreases s.len() - i,
{
    if i < s.len() && s[i] != '\n' {
        lemma_nl_pos_bounds(s, i + 1);
    }
}

/// Rope data structure storing text in bounded chunks.
#[derive(Debug, Clone)]
pub struct Rope {
    chunks: Vec<Vec<char>>,
}

impl Rope {
    /// The rope's characters.
    pub closed spec fn text(&self) -> Seq<char> {
        cat(self.chunks@, 0)
    }

    /// The number of chunks.
    pub closed spec fn spec_chunks(&self) -> int {
        self.chunks@.len() as int
    }

    /// Every chunk is non-empty and within the chunk bound.
    pub closed spec fn wf(&self) -> bool {
        forall|i: int|
            0 <= i < self.chunks@.len() ==> 0 < (#[trigger] self.chunks@[i])@.len() <= CHUNK_SIZE
    }

    /// Create an empty rope.
    pub fn new() -> (r: Rope)
        ensures
            r.wf(),
            r.text() == Seq::<char>::empty(),
            r.spec_chunks() == 0,
    {
        let r = Rope { chunks: Vec::new() };
        proof {
            assert(r.text() =~= Seq::<char>::empty());
        }
        r
    }

    /// Create a rope from a string.
    pub fn from_str(s: &str) -> (r: Rope)
        ensures
            r.wf(),
            r.text() == s@,
    {
        let chars = str_to_chars(s);
        Self::from_chars(chars)
    }

    /// Build a rope by splitting a character vector into chunks.
    fn from_chars(v: Vec<char>) -> (r: Rope)
        ensures
            r.wf(),
            r.text() == v@,
            r.spec_chunks() == (v@.len() + CHUNK_SIZE - 1) / (CHUNK_SIZE as int),
    {
        let n = v.len();
        let mut chunks: Vec<Vec<char>> = Vec::new();
        let mut pos: usize = 0;
        while pos < n
            invariant
                pos <= n,
                n == v@.len(),
                cat(chunks@, 0) == v@.take(pos as int),
                forall|i: int|
                    0 <= i < chunks@.len() ==> 0 < (#[trigger] chunks@[i])@.len() <= CHUNK_SIZE,
                pos == chunks@.len() * (CHUNK_SIZE as int) || (pos == n && chunks@.len() == (
                n + CHUNK_SIZE - 1) / (CHUNK_SIZE as int)),
                chunks@.len() * (CHUNK_SIZE as int) <= pos + CHUNK_SIZE - 1,
            decreases n - pos,
        {
            let take = if n - pos > CHUNK_SIZE {
                CHUNK_SIZE
            } else {
                n - pos
            };
            let mut chunk: Vec<char> = Vec::new();
            let mut j: usize = 0;
            while j < take
                invariant
                    j <= take,
                    pos + take <= n == v@.len(),
                    chunk@ == v@.subrange(pos as int, pos as int + j as int),
                decreases take - j,
            {
                chunk.push(v[pos + j]);
                proof {
                    assert(chunk@ =~= v@.subrange(pos as int, pos as int + j as int + 1));
                }
                j = j + 1;
            }
            proof {
                lemma_cat_push(chunks@, chunk, 0);
                assert(cat(chunks@, 0) + chunk@ =~= v@.take(pos as int + take as int));
                if pos + take < n {
                    assert(take == CHUNK_SIZE);
                    assert((chunks@.len() + 1) * (CHUNK_SIZE as int) == chunks@.len() * (
                    CHUNK_SIZE as int) + CHUNK_SIZE) by (nonlinear_arith);
                } else {
                    assert(pos + take == n);
                    assert((chunks@.len() + 1) * (CHUNK_SIZE as int) == chunks@.len() * (
                    CHUNK_SIZE as int) + CHUNK_SIZE) by (nonlinear_arith);
                }
            }
            chunks.push(chunk);
            pos = pos + take;
        }
        proof {
            assert(v@.take(n as int) =~= v@);
            if n == 0 {
                assert(chunks@.len() == 0);
            }
        }
        let r = Rope { chunks };
        r
    }

    /// Copy the rope's characters into one vector.
    pub fn to_chars(&self) -> (r: Vec<char>)
        ensures
            r@ == self.text(),
    {
        let m = self.chunks.len();
        let mut out: Vec<char> = Vec::new();
        let mut i: usize = 0;
        proof {
            assert(Seq::<char>::empty() + cat(self.chunks@, 0) =~= cat(self.chunks@, 0));
        }
        while i < m
            invariant
                i <= m,
                m == self.chunks@.len(),
                out@ + cat(self.chunks@, i as int) == cat(self.chunks@, 0),
            decreases m - i,
        {
            let ghost before = out@;
            let chunk = &self.chunks[i];
            let cl = chunk.len();
            let mut j: usize = 0;
            while j < cl
                invariant
                    j <= cl,
                    cl == chunk@.len(),
                    chunk@ == self.chunks@[i as int]@,
                    i < self.chunks@.len(),
                    out@ == before + chunk@.subrange(0, j as int),
                decreases cl - j,
            {
                out.push(chunk[j]);
                proof {
                    assert(out@ =~= before + chunk@.subrange(0, j as int + 1));
                }
                j = j + 1;
            }
            proof {
                assert(chunk@.subrange(0, cl as int) =~= chunk@);
                assert((before + self.chunks@[i as int]@) + cat(self.chunks@, i as int + 1)
                    =~= before + (self.chunks@[i as int]@ + cat(self.chunks@, i as int + 1)));
            }
            i = i + 1;
        }
        proof {
            assert(cat(self.chunks@, m as int) =~= Seq::<char>::empty());
            assert(out@ + Seq::<char>::empty() =~= out@);
        }
        out
    }

    /// The entire text, materialized.
    pub fn cached_text(&self) -> (r: String)
        ensures
            r@ == self.text(),
    {
        let v = self.to_chars();
        chars_to_string(&v)
    }

    /// Convert the rope into a single `String`.
    pub fn as_string(&self) -> (r: String)
        ensures
            r@ == self.text(),
    {
        self.cached_text()
    }

    /// Number of chunks currently used.
    pub fn chunk_count(&self) -> (r: usize)
        ensures
            r == self.spec_chunks(),
    {
        self.chunks.len()
    }

    /// Total number of characters in the rope.
    pub fn len_chars(&self) -> (r: usize)
        ensures
            r == self.text().len(),
    {
        let v = self.to_chars();
        v.len()
    }

    /// Append text to the end of the rope.
    pub fn append(&mut self, text: &str)
        ensures
            final(self).wf(),
            final(self).text() == old(self).text() + text@,
    {
        let mut v = self.to_chars();
        let extra = str_to_chars(text);
        let el = extra.len();
        let mut j: usize = 0;
        let ghost base = v@;
        while j < el
            invariant
                j <= el,
                el == extra@.len(),
                v@ == base + extra@.subrange(0, j as int),
            decreases el - j,
        {
            v.push(extra[j]);
            proof {
                assert(v@ =~= base + extra@.subrange(0, j as int + 1));
            }
            j = j + 1;
        }
        proof {
            assert(extra@.subrange(0, el as int) =~= extra@);
        }
        *self = Self::from_chars(v);
    }

    /// Insert text at the given character index; an index past the end
    /// appends.
    pub fn insert(&mut self, index: usize, text: &str)
        ensures
            final(self).wf(),
            final(self).text() == {
                let i = vstd::math::min(index as int, old(self).text().len() as int);
                old(self).text().subrange(0, i) + text@ + old(self).text().subrange(
                    i,
                    old(self).text().len() as int,
                )
            },
    {
        let v = self.to_chars();
        let n = v.len();
        let at = if index > n {
            n
        } else {
            index
        };
        let extra = str_to_chars(text);
        let mut out: Vec<char> = Vec::new();
        let mut i: usize = 0;
        while i < at
            invariant
                i <= at <= n,
                n == v@.len(),
                out@ == v@.subrange(0, i as int),
            decreases at - i,
        {
            out.push(v[i]);
            proof {
                assert(out@ =~= v@.subrange(0, i as int + 1));
            }
            i = i + 1;
        }
        let el = extra.len();
        let mut j: usize = 0;
        proof {
            assert(extra@.subrange(0, 0) =~= Seq::<char>::empty());
            assert(out@ + Seq::<char>::empty() =~= out@);
        }
        while j < el
            invariant
                j <= el,
                el == extra@.len(),
                at <= n == v@.len(),
                out@ == v@.subrange(0, at as int) + extra@.subrange(0, j as int),
            decreases el - j,
        {
            out.push(extra[j]);
            proof {
                assert(out@ =~= v@.subrange(0, at as int) + extra@.subrange(0, j as int + 1));
            }
            j = j + 1;
        }
        proof {
            assert(extra@.subrange(0, el as int) =~= extra@);
        }
        let mut k: usize = at;
        while k < n
            invariant
                at <= k <= n,
                n == v@.len(),
                out@ == v@.subrange(0, at as int) + extra@ + v@.subrange(at as int, k as int),
            decreases n - k,
        {
            out.push(v[k]);
            proof {
                assert(out@ =~= v@.subrange(0, at as int) + extra@ + v@.subrange(
                    at as int,
                    k as int + 1,
                ));
            }
            k = k + 1;
        }
        *self = Self::from_chars(out);
    }

    /// Delete the text within the given character range, clamped to the
    /// text; an empty or inverted range is a no-op.
    pub fn delete(&mut self, range: core::ops::Range<usize>)
        requires
            old(self).wf(),
        ensures
            final(self).wf(),
            final(self).text() == {
                let n = old(self).text().len() as int;
                let s = vstd::math::min(range.start as int, n);
                let e = vstd::math::min(range.end as int, n);
                if s >= e {
                    old(self).text()
                } else {
                    old(self).text().subrange(0, s) + old(self).text().subrange(e, n)
                }
            },
    {
        let v = self.to_chars();
        let n = v.len();
        let s = if range.start > n {
            n
        } else {
            range.start
        };
        let e = if range.end > n {
            n
        } else {
            range.end
        };
        if s >= e {
            proof {
                assert(self.text() =~= v@);
            }
            return ;
        }
        let mut out: Vec<char> = Vec::new();
        let mut i: usize = 0;
        while i < s
            invariant
                i <= s <= n,
                n == v@.len(),
                out@ == v@.subrange(0, i as int),
            decreases s - i,
        {
            out.push(v[i]);
            proof {
                assert(out@ =~= v@.subrange(0, i as int + 1));
            }
            i = i + 1;
        }
        let mut k: usize = e;
        while k < n
            invariant
                s <= e <= k <= n,
                n == v@.len(),
                out@ == v@.subrange(0, s as int) + v@.subrange(e as int, k as int),
            decreases n - k,
        {
            out.push(v[k]);
            proof {
                assert(out@ =~= v@.subrange(0, s as int) + v@.subrange(e as int, k as int + 1));
            }
            k = k + 1;
        }
        *self = Self::from_chars(out);
    }

    /// The characters within the range, clamped to the text, as a `String`.
    pub fn slice(&self, range: core::ops::Range<usize>) -> (r: String)
        ensures
            r@ == {
                let n = self.text().len() as int;
                let s = vstd::math::min(range.start as int, n);
                let e = vstd::math::min(range.end as int, n);
                if s >= e {
                    Seq::<char>::empty()
                } else {
                    self.text().subrange(s, e)
                }
            },
    {
        let v = self.to_chars();
        let n = v.len();
        let s = if range.start > n {
            n
        } else {
            range.start
        };
        let e = if range.end > n {
            n
        } else {
            range.end
        };
        if s >= e {
            return String::new();
        }
        let mut out: Vec<char> = Vec::new();
        let mut i: usize = s;
        while i < e
            invariant
                s <= i <= e <= n,
                n == v@.len(),
                out@ == v@.subrange(s as int, i as int),
            decreases e - i,
        {
            out.push(v[i]);
            proof {
                assert(out@ =~= v@.subrange(s as int, i as int + 1));
            }
            i = i + 1;
        }
        chars_to_string(&out)
    }

    /// The character at the given index, if it is in range.
    pub fn char_at(&self, index: usize) -> (r: Option<char>)
        ensures
            index < self.text().len() ==> r == Some(self.text()[index as int]),
            index >= self.text().len() ==> r is None,
    {
        let v = self.to_chars();
        if index < v.len() {
            Some(v[index])
        } else {
            None
        }
    }

    /// The lines of the text, in order.
    pub fn all_lines(&self) -> (r: Vec<String>)
        ensures
            r@.len() == lines_of(self.text()).len(),
            forall|i: int|
                0 <= i < r@.len() ==> (#[trigger] r@[i])@ == lines_of(self.text())[i],
    {
        let v = self.to_chars();
        split_lines(&v)
    }
}

/// The lines of a character vector, in order, as owned strings.
pub fn split_lines(v: &Vec<char>) -> (r: Vec<String>)
    ensures
        r@.len() == lines_of(v@).len(),
        forall|i: int| 0 <= i < r@.len() ==> (#[trigger] r@[i])@ == lines_of(v@)[i],
{
    {
        let n = v.len();
        let mut out: Vec<String> = Vec::new();
        let mut i: usize = 0;
        let ghost whole = v@;
        proof {
            assert(whole.skip(0) =~= whole);
            assert(out@.map_values(|x: String| x@) =~= Seq::<Seq<char>>::empty());
            assert(Seq::<Seq<char>>::empty() + lines_of(whole) =~= lines_of(whole));
        }
        while i < n
            invariant
                i <= n,
                n == whole.len(),
                whole == v@,
                lines_of(whole) == out@.map_values(|x: String| x@) + lines_of(
                    whole.skip(i as int),
                ),
            decreases n - i,
        {
            let ghost rest = whole.skip(i as int);
            let mut e: usize = i;
            while e < n && v[e] != '\n'
                invariant
                    i <= e <= n,
                    n == whole.len(),
                    whole == v@,
                    nl_pos(rest, 0) == nl_pos(rest, e - i),
                    rest == whole.skip(i as int),
                decreases n - e,
            {
                proof {
                    assert(rest[e - i] == whole[e as int]);
                }
                e = e + 1;
            }
            proof {
                if e < n {
                    assert(rest[e - i] == whole[e as int]);
                }
                assert(nl_pos(rest, e - i) == e - i);
                lemma_nl_pos_bounds(rest, 0);
                assert(first_nl(rest) == e - i);
            }
            // the line is rest[0 .. e-i], possibly with a trailing '\r'
            let line_end: usize = if e > i && v[e - 1] == '\r' {
                e - 1
            } else {
                e
            };
            let mut lv: Vec<char> = Vec::new();
            let mut q: usize = i;
            while q < line_end
                invariant
                    i <= q <= line_end <= n,
                    n == whole.len(),
                    whole == v@,
                    lv@ == whole.subrange(i as int, q as int),
                decreases line_end - q,
            {
                lv.push(v[q]);
                proof {
                    assert(lv@ =~= whole.subrange(i as int, q as int + 1));
                }
                q = q + 1;
            }
            proof {
                assert(rest.subrange(0, e - i) =~= whole.subrange(i as int, e as int));
                if e > i && whole[e - 1] == '\r' {
                    assert(strip_cr(rest.subrange(0, e - i)) =~= whole.subrange(
                        i as int,
                        e as int - 1,
                    ));
                } else {
                    assert(strip_cr(rest.subrange(0, e - i)) =~= whole.subrange(i as int, e as int));
                }
                assert(lv@ == strip_cr(rest.subrange(0, e - i)));
            }
            let ghost out_before = out@.map_values(|x: String| x@);
            let line_str = chars_to_string(&lv);
            out.push(line_str);
            proof {
                assert(out@.map_values(|x: String| x@) =~= out_before.push(lv@));
                assert(rest.len() > 0);
                if (e as int) - (i as int) < rest.len() {
                    assert(lines_of(rest) == seq![strip_cr(rest.subrange(0, e - i))] + lines_of(
                        rest.skip(e - i + 1),
                    ));
                    assert(rest.skip(e - i + 1) =~= whole.skip(e as int + 1));
                } else {
                    assert(rest.subrange(0, e - i) =~= rest);
                    assert(lines_of(rest) == seq![strip_cr(rest)]);
                    assert(lines_of(whole.skip(n as int)) =~= Seq::<Seq<char>>::empty());
                }
                assert(out_before.push(lv@) =~= out_before + seq![lv@]);
                if (e as int) - (i as int) < rest.len() {
                    let nxt = lines_of(whole.skip(e as int + 1));
                    assert((out_before + seq![lv@]) + nxt =~= out_before + (seq![lv@] + nxt));
                } else {
                    assert((out_before + seq![lv@]) + Seq::<Seq<char>>::empty() =~= out_before + (
                    seq![lv@] + Seq::<Seq<char>>::empty()));
                    assert(seq![lv@] + Seq::<Seq<char>>::empty() =~= seq![lv@]);
                }
            }
            if e < n {
                i = e + 1;
            } else {
                i = n;
            }
        }
        proof {
            assert(lines_of(whole.skip(n as int)) =~= Seq::<Seq<char>>::empty());
            assert(out@.map_values(|x: String| x@) + Seq::<Seq<char>>::empty()
                =~= out@.map_values(|x: String| x@));
        }
        out
    }
}

impl Rope {
    /// The specified line, if it exists.
    pub fn line_at(&self, line_idx: usize) -> (r: Option<String>)
        ensures
            line_idx < lines_of(self.text()).len() ==> (r matches Some(s) && s@ == lines_of(
                self.text(),
            )[line_idx as int]),
            line_idx >= lines_of(self.text()).len() ==> r is None,
    {
        let lines = self.all_lines();
        if line_idx < lines.len() {
            Some(lines[line_idx].clone())
        } else {
            None
        }
    }

    /// Up to `count` lines starting at line `start`, as owned strings.
    pub fn lines_range(&self, start: usize, count: usize) -> (r: Vec<String>)
        ensures
            r@.len() == {
                let total = lines_of(self.text()).len() as int;
                if start as int >= total {
                    0
                } else {
                    vstd::math::min(count as int, total - start)
                }
            },
            forall|i: int|
                0 <= i < r@.len() ==> (#[trigger] r@[i])@ == lines_of(self.text())[start + i],
    {
        let lines = self.all_lines();
        let total = lines.len();
        let mut out: Vec<String> = Vec::new();
        let s0 = if start > total {
            total
        } else {
            start
        };
        let mut i: usize = s0;
        while i < total && i - s0 < count
            invariant
                s0 <= i,
                i <= total,
                s0 == if start > total {
                    total as int
                } else {
                    start as int
                },
                total == lines@.len(),
                i - s0 <= count,
                out@.len() == i - s0,
                forall|q: int|
                    0 <= q < out@.len() ==> (#[trigger] out@[q])@ == lines_of(self.text())[s0 + q],
                forall|q: int|
                    0 <= q < lines@.len() ==> (#[trigger] lines@[q])@ == lines_of(self.text())[q],
            decreases total - i,
        {
            out.push(lines[i].clone());
            i = i + 1;
        }
        out
    }
}

} // verus!
