//! Text buffer: UTF-8 text held as bytes with LF line separators, an
//! end-of-line style remembered from loading, and a flag recording whether the
//! loaded file held invalid UTF-8.

use vstd::prelude::*;

verus! {

use vstd::utf8::*;
use crate::linecol::{nl_count, line_start_of, line_start_from, line_start, line_end_from,
    num_lines, line_of, col_of, line_bytes, lemma_nl_count_mono, lemma_line_start_from};
use crate::strutil::{lossy_utf8, try_decode, decode_lossy, chars_to_string, str_to_chars,
    str_to_bytes, decode_valid, lemma_boundary_after_ascii};

/// Line ending style.
#[derive(Clone, Copy, Debug, PartialEq, Eq, Structural)]
pub enum Eol {
    Lf,
    CrLf,
}

/// Text buffer with invalid UTF-8 tracking.
///
/// The stored bytes are always valid UTF-8 and use LF line endings; the
/// original style is restored when the buffer is materialized for saving.
pub struct RopeBuffer {
    text: Vec<u8>,
    has_invalid: bool,
    eol: Eol,
}

/// `s` with every CR LF pair replaced by a single LF.
pub open spec fn normalize_crlf(s: Seq<char>) -> Seq<char>
    decreases s.len(),
{
    if s.len() == 0 {
        seq![]
    } else if s.len() >= 2 && s[0] == '\r' && s[1] == '\n' {
        seq!['\n'] + normalize_crlf(s.skip(2))
    } else {
        seq![s[0]] + normalize_crlf(s.skip(1))
    }
}

/// Whether `s` holds a CR LF pair anywhere.
pub open spec fn has_crlf(s: Seq<char>) -> bool {
    exists|k: int| 0 <= k && k + 1 < s.len() && s[k] == '\r' && #[trigger] s[k + 1] == '\n'
}

/// `t` with every LF expanded to CR LF.
pub open spec fn expand_crlf(t: Seq<u8>) -> Seq<u8>
    decreases t.len(),
{
    if t.len() == 0 {
        seq![]
    } else if t[0] == 10u8 {
        seq![13u8, 10u8] + expand_crlf(t.skip(1))
    } else {
        seq![t[0]] + expand_crlf(t.skip(1))
    }
}

/// Replace CR LF pairs by LF in a character vector, reporting whether any
/// pair was found.
fn normalize_chars(v: &Vec<char>) -> (r: (Vec<char>, bool))
    ensures
        r.0@ == normalize_crlf(v@),
        r.1 == has_crlf(v@),
{
    let n = v.len();
    let mut out: Vec<char> = Vec::new();
    let mut found = false;
    let mut i: usize = 0;
    proof {
        assert(v@.skip(0) =~= v@);
        assert(out@ + normalize_crlf(v@) =~= normalize_crlf(v@));
    }
    while i < n
        invariant
            i <= n,
            n == v@.len(),
            normalize_crlf(v@) == out@ + normalize_crlf(v@.skip(i as int)),
            found <==> exists|k: int|
                0 <= k < i && k + 1 < n && v@[k] == '\r' && #[trigger] v@[k + 1] == '\n',
        decreases n - i,
    {
        if v[i] == '\r' && i + 1 < n && v[i + 1] == '\n' {
            out.push('\n');
            found = true;
            proof {
                assert(v@.skip(i as int)[0] == '\r');
                assert(v@.skip(i as int)[1] == '\n');
                assert(v@.skip(i as int).skip(2) =~= v@.skip(i as int + 2));
                assert(normalize_crlf(v@.skip(i as int)) == seq!['\n'] + normalize_crlf(
                    v@.skip(i as int + 2),
                ));
            }
            i = i + 2;
        } else {
            let c = v[i];
            out.push(c);
            proof {
                assert(v@.skip(i as int)[0] == c);
                if v@.skip(i as int).len() >= 2 {
                    assert(v@.skip(i as int)[1] == v@[i as int + 1]);
                }
                assert(v@.skip(i as int).skip(1) =~= v@.skip(i as int + 1));
                assert(normalize_crlf(v@.skip(i as int)) == seq![c] + normalize_crlf(
                    v@.skip(i as int + 1),
                ));
            }
            i = i + 1;
        }
    }
    proof {
        assert(v@.skip(n as int) =~= Seq::<char>::empty());
        assert(normalize_crlf(v@.skip(n as int)) == Seq::<char>::empty());
        assert(out@ + Seq::<char>::empty() =~= out@);
    }
    (out, found)
}

/// Copy `v[start..end]` into a fresh vector.
pub fn bytes_range(v: &Vec<u8>, start: usize, end: usize) -> (r: Vec<u8>)
    requires
        start <= end <= v@.len(),
    ensures
        r@ == v@.subrange(start as int, end as int),
{
    let mut out: Vec<u8> = Vec::new();
    let mut i: usize = start;
    while i < end
        invariant
            start <= i <= end <= v@.len(),
            out@ == v@.subrange(start as int, i as int),
        decreases end - i,
    {
        out.push(v[i]);
        proof {
            assert(out@ =~= v@.subrange(start as int, i as int + 1));
        }
        i = i + 1;
    }
    out
}

impl RopeBuffer {
    /// The buffer's text as a byte sequence.
    pub closed spec fn bytes(&self) -> Seq<u8> {
        self.text@
    }

    /// The remembered end-of-line style.
    pub closed spec fn spec_eol(&self) -> Eol {
        self.eol
    }

    /// Whether the loaded bytes held invalid UTF-8.
    pub closed spec fn spec_has_invalid(&self) -> bool {
        self.has_invalid
    }

    /// The stored bytes are always valid UTF-8.
    pub open spec fn wf(&self) -> bool {
        valid_utf8(self.bytes())
    }

    /// Create a buffer from the provided text.
    pub fn from_text(s: &str) -> (r: RopeBuffer)
        ensures
            r.wf(),
            r.bytes() == encode_utf8(s@),
            r.spec_eol() == Eol::Lf,
            !r.spec_has_invalid(),
    {
        let text = str_to_bytes(s);
        proof {
            encode_utf8_valid_utf8(s@);
        }
        RopeBuffer { text, has_invalid: false, eol: Eol::Lf }
    }

    /// Build a buffer from the raw bytes of a file: decode them (marking the
    /// buffer invalid when they are not UTF-8, in which case ill-formed
    /// sequences become U+FFFD), then normalize CR LF line endings to LF
    /// while remembering the style.
    pub fn load_from_bytes(data: &[u8]) -> (r: RopeBuffer)
        ensures
            r.wf(),
            r.spec_has_invalid() == !valid_utf8(data@),
            r.bytes() == encode_utf8(normalize_crlf(lossy_utf8(data@))),
            valid_utf8(data@) ==> r.bytes() == encode_utf8(normalize_crlf(decode_utf8(data@))),
            r.spec_eol() == Eol::CrLf <==> has_crlf(lossy_utf8(data@)),
    {
        let invalid = match try_decode(data) {
            Some(_) => false,
            None => true,
        };
        let s = decode_lossy(data);
        let chars = str_to_chars(s.as_str());
        let (norm, found) = normalize_chars(&chars);
        let ns = chars_to_string(&norm);
        let text = str_to_bytes(ns.as_str());
        proof {
            encode_utf8_valid_utf8(norm@);
        }
        RopeBuffer {
            text,
            has_invalid: invalid,
            eol: if found {
                Eol::CrLf
            } else {
                Eol::Lf
            },
        }
    }

    /// Returns true if the loaded bytes contained invalid UTF-8.
    pub fn has_invalid(&self) -> (r: bool)
        ensures
            r == self.spec_has_invalid(),
    {
        self.has_invalid
    }

    /// The line ending style of this buffer.
    pub fn eol(&self) -> (r: Eol)
        ensures
            r == self.spec_eol(),
    {
        self.eol
    }

    /// Total number of bytes.
    pub fn len_bytes(&self) -> (r: usize)
        ensures
            r == self.bytes().len(),
    {
        self.text.len()
    }

    /// Total number of lines: one more than the number of newlines.
    pub fn len_lines(&self) -> (r: usize)
        requires
            self.bytes().len() < usize::MAX,
        ensures
            r == num_lines(self.bytes()),
    {
        let n = self.text.len();
        let mut count: usize = 0;
        let mut i: usize = 0;
        while i < n
            invariant
                i <= n,
                n == self.bytes().len() < usize::MAX,
                count == nl_count(self.bytes(), i as int),
                count <= i,
        decreases n - i,
        {
            if self.text[i] == 10u8 {
                count = count + 1;
            }
            i = i + 1;
        }
        count + 1
    }

    /// The entire text as a `String`.
    pub fn text(&self) -> (r: String)
        requires
            self.wf(),
        ensures
            r@ == decode_utf8(self.bytes()),
            encode_utf8(r@) == self.bytes(),
    {
        proof {
            decode_utf8_encode_utf8(self.bytes());
        }
        decode_valid(self.text.as_slice())
    }

    /// Whether `byte_idx` falls on a character boundary.
    pub fn is_boundary(&self, byte_idx: usize) -> (r: bool)
        requires
            self.wf(),
            byte_idx <= self.bytes().len(),
        ensures
            r == is_char_boundary(self.bytes(), byte_idx as int),
    {
        proof {
            is_char_boundary_start_end_of_seq(self.bytes());
        }
        if byte_idx == self.text.len() {
            true
        } else {
            proof {
                is_char_boundary_iff_not_is_continuation_byte(self.bytes(), byte_idx as int);
            }
            let b = self.text[byte_idx];
            !(0x80u8 <= b && b <= 0xbfu8)
        }
    }

    /// Insert `s` at the given byte index.
    pub fn insert(&mut self, byte_idx: usize, s: &str)
        requires
            old(self).wf(),
            byte_idx <= old(self).bytes().len(),
            is_char_boundary(old(self).bytes(), byte_idx as int),
        ensures
            final(self).wf(),
            final(self).bytes() == old(self).bytes().subrange(0, byte_idx as int) + encode_utf8(
                s@,
            ) + old(self).bytes().subrange(byte_idx as int, old(self).bytes().len() as int),
            final(self).spec_eol() == old(self).spec_eol(),
            final(self).spec_has_invalid() == old(self).spec_has_invalid(),
    {
        let ghost pre = old(self).bytes().subrange(0, byte_idx as int);
        let ghost mid = encode_utf8(s@);
        let ghost suf = old(self).bytes().subrange(
            byte_idx as int,
            old(self).bytes().len() as int,
        );
        let sb = s.as_bytes();
        let n = self.text.len();
        let mut out: Vec<u8> = Vec::new();
        let mut i: usize = 0;
        while i < byte_idx
            invariant
                i <= byte_idx <= n,
                n == self.bytes().len(),
                self == old(self),
                out@ == self.bytes().subrange(0, i as int),
            decreases byte_idx - i,
        {
            out.push(self.text[i]);
            proof {
                assert(out@ =~= self.bytes().subrange(0, i as int + 1));
            }
            i = i + 1;
        }
        let m = sb.len();
        let mut j: usize = 0;
        while j < m
            invariant
                j <= m,
                m == sb@.len(),
                sb@ == mid,
                self == old(self),
                byte_idx <= self.bytes().len(),
                out@ == pre + sb@.subrange(0, j as int),
            decreases m - j,
        {
            out.push(sb[j]);
            proof {
                assert(out@ =~= pre + sb@.subrange(0, j as int + 1));
            }
            j = j + 1;
        }
        proof {
            assert(sb@.subrange(0, m as int) =~= sb@);
        }
        let mut k: usize = byte_idx;
        while k < n
            invariant
                byte_idx <= k <= n,
                n == self.bytes().len(),
                self == old(self),
                out@ == pre + mid + self.bytes().subrange(byte_idx as int, k as int),
            decreases n - k,
        {
            out.push(self.text[k]);
            proof {
                assert(out@ =~= pre + mid + self.bytes().subrange(byte_idx as int, k as int + 1));
            }
            k = k + 1;
        }
        proof {
            valid_utf8_split(old(self).bytes(), byte_idx as int);
            encode_utf8_valid_utf8(s@);
            valid_utf8_concat(pre, mid);
            valid_utf8_concat(pre + mid, suf);
            assert(out@ =~= (pre + mid) + suf);
            assert(out@ =~= pre + mid + suf);
        }
        self.text = out;
    }

    /// Delete the bytes in `range`.
    pub fn delete(&mut self, range: core::ops::Range<usize>)
        requires
            old(self).wf(),
            range.start <= range.end <= old(self).bytes().len(),
            is_char_boundary(old(self).bytes(), range.start as int),
            is_char_boundary(old(self).bytes(), range.end as int),
        ensures
            final(self).wf(),
            final(self).bytes() == old(self).bytes().subrange(0, range.start as int) + old(
                self,
            ).bytes().subrange(range.end as int, old(self).bytes().len() as int),
            final(self).spec_eol() == old(self).spec_eol(),
            final(self).spec_has_invalid() == old(self).spec_has_invalid(),
    {
        let ghost pre = old(self).bytes().subrange(0, range.start as int);
        let ghost suf = old(self).bytes().subrange(
            range.end as int,
            old(self).bytes().len() as int,
        );
        let n = self.text.len();
        let start = range.start;
        let end = range.end;
        let mut out: Vec<u8> = Vec::new();
        let mut i: usize = 0;
        while i < start
            invariant
                i <= start <= n,
                n == self.bytes().len(),
                self == old(self),
                out@ == self.bytes().subrange(0, i as int),
            decreases start - i,
        {
            out.push(self.text[i]);
            proof {
                assert(out@ =~= self.bytes().subrange(0, i as int + 1));
            }
            i = i + 1;
        }
        let mut k: usize = end;
        while k < n
            invariant
                end <= k <= n,
                n == self.bytes().len(),
                self == old(self),
                out@ == pre + self.bytes().subrange(end as int, k as int),
            decreases n - k,
        {
            out.push(self.text[k]);
            proof {
                assert(out@ =~= pre + self.bytes().subrange(end as int, k as int + 1));
            }
            k = k + 1;
        }
        proof {
            let t = old(self).bytes();
            valid_utf8_split(t, range.end as int);
            let head = t.subrange(0, range.end as int);
            is_char_boundary_prefix(t, range.end as int, range.start as int);
            valid_utf8_split(head, range.start as int);
            assert(head.subrange(0, range.start as int) =~= pre);
            valid_utf8_concat(pre, suf);
            assert(out@ =~= pre + suf);
        }
        self.text = out;
    }

    /// The text within `range` as a `String`.
    pub fn slice(&self, range: core::ops::Range<usize>) -> (r: String)
        requires
            self.wf(),
            range.start <= range.end <= self.bytes().len(),
            is_char_boundary(self.bytes(), range.start as int),
            is_char_boundary(self.bytes(), range.end as int),
        ensures
            encode_utf8(r@) == self.bytes().subrange(range.start as int, range.end as int),
            r@ == decode_utf8(self.bytes().subrange(range.start as int, range.end as int)),
    {
        let part = bytes_range(&self.text, range.start, range.end);
        proof {
            let t = self.bytes();
            valid_utf8_split(t, range.end as int);
            let head = t.subrange(0, range.end as int);
            is_char_boundary_prefix(t, range.end as int, range.start as int);
            valid_utf8_split(head, range.start as int);
            assert(head.subrange(range.start as int, head.len() as int) =~= part@);
            decode_utf8_encode_utf8(part@);
        }
        decode_valid(part.as_slice())
    }

    /// Convert a byte index to a zero-based (line, column) pair; the column
    /// counts bytes from the start of the line.
    pub fn byte_to_line_col(&self, byte_idx: usize) -> (r: (usize, usize))
        requires
            byte_idx <= self.bytes().len(),
        ensures
            r.0 == line_of(self.bytes(), byte_idx as int),
            r.1 == col_of(self.bytes(), byte_idx as int),
    {
        let mut count: usize = 0;
        let mut ls: usize = 0;
        let mut i: usize = 0;
        while i < byte_idx
            invariant
                i <= byte_idx <= self.bytes().len(),
                count == nl_count(self.bytes(), i as int),
                ls == line_start_of(self.bytes(), i as int),
                count <= i,
                ls <= i,
            decreases byte_idx - i,
        {
            if self.text[i] == 10u8 {
                count = count + 1;
                ls = i + 1;
            }
            i = i + 1;
        }
        (count, byte_idx - ls)
    }

    /// Convert a zero-based (line, column) pair back to a byte index.
    pub fn line_col_to_byte(&self, line: usize, col: usize) -> (r: usize)
        requires
            line < num_lines(self.bytes()),
            line_start(self.bytes(), line as int) + col <= usize::MAX,
        ensures
            r == line_start(self.bytes(), line as int) + col,
    {
        let s = self.line_to_byte(line);
        s + col
    }

    /// The byte index at which `line` starts; clamps to the end of the text
    /// for lines past the last.
    pub fn line_to_byte(&self, line: usize) -> (r: usize)
        ensures
            r == line_start(self.bytes(), line as int),
    {
        let ghost t = self.bytes();
        let n = self.text.len();
        let mut i: usize = 0;
        let mut rem: usize = line;
        while rem > 0 && i < n
            invariant
                t == self.bytes(),
                i <= n,
                n == t.len(),
                rem <= line,
                line_start_from(t, i as int, rem as int) == line_start(t, line as int),
            decreases n - i,
        {
            if self.text[i] == 10u8 {
                rem = rem - 1;
            }
            i = i + 1;
        }
        i
    }

    /// Up to `max_lines` lines starting from `first_line`, each without its
    /// trailing newline.
    pub fn slice_lines(&self, first_line: usize, max_lines: usize) -> (r: Vec<String>)
        requires
            self.wf(),
            self.bytes().len() < usize::MAX,
        ensures
            r@.len() == if first_line < num_lines(self.bytes()) {
                vstd::math::min(max_lines as int, num_lines(self.bytes()) - first_line)
            } else {
                0
            },
            forall|k: int|
                0 <= k < r@.len() ==> encode_utf8(r@[k]@) == line_bytes(
                    self.bytes(),
                    first_line + k,
                ),
    {
        let total = self.len_lines();
        let mut out: Vec<String> = Vec::new();
        let stop = if first_line <= total && total - first_line < max_lines {
            total
        } else if first_line > total {
            first_line
        } else {
            first_line + max_lines
        };
        let mut l = first_line;
        while l < stop && l < total
            invariant
                self.wf(),
                self.bytes().len() < usize::MAX,
                total == num_lines(self.bytes()),
                first_line <= l,
                l <= stop,
                stop as int == vstd::math::max(
                    first_line as int,
                    vstd::math::min(first_line as int + max_lines as int, total as int),
                ),
                out@.len() == l - first_line,
                forall|k: int|
                    0 <= k < out@.len() ==> encode_utf8(out@[k]@) == line_bytes(
                        self.bytes(),
                        first_line + k,
                    ),
            decreases total - l,
        {
            let line_text = self.line_text(l);
            out.push(line_text);
            l = l + 1;
        }
        out
    }

    /// The text of line `l`, without its trailing newline.
    pub fn line_text(&self, l: usize) -> (r: String)
        requires
            self.wf(),
            l < num_lines(self.bytes()),
        ensures
            encode_utf8(r@) == line_bytes(self.bytes(), l as int),
            r@ == decode_utf8(line_bytes(self.bytes(), l as int)),
    {
        let ghost t = self.bytes();
        let start = self.line_to_byte(l);
        proof {
            lemma_nl_count_mono(t, 0, t.len() as int);
            lemma_line_start_from(t, 0, l as int);
        }
        let n = self.text.len();
        let mut e: usize = start;
        while e < n && self.text[e] != 10u8
            invariant
                t == self.bytes(),
                self.wf(),
                start <= e <= n,
                n == t.len(),
                line_end_from(t, start as int) == line_end_from(t, e as int),
            decreases n - e,
        {
            e = e + 1;
        }
        proof {
            let s = start as int;
            let end = e as int;
            assert(line_end_from(t, end) == end);
            if s == 0 {
                is_char_boundary_start_end_of_seq(t);
            } else {
                assert(t[s - 1] == 10u8);
                lemma_boundary_after_ascii(t, s);
            }
            if end == t.len() {
                is_char_boundary_start_end_of_seq(t);
            } else {
                assert(t[end] == 10u8);
                is_char_boundary_iff_not_is_continuation_byte(t, end);
            }
        }
        let part = bytes_range(&self.text, start, e);
        proof {
            let s = start as int;
            let end = e as int;
            valid_utf8_split(t, end);
            let head = t.subrange(0, end);
            is_char_boundary_prefix(t, end, s);
            valid_utf8_split(head, s);
            assert(head.subrange(s, head.len() as int) =~= part@);
            decode_utf8_encode_utf8(part@);
        }
        decode_valid(part.as_slice())
    }

    /// The bytes to write when saving: the text with the remembered EOL style
    /// restored.
    pub fn save_bytes(&self) -> (r: Vec<u8>)
        ensures
            self.spec_eol() == Eol::CrLf ==> r@ == expand_crlf(self.bytes()),
            self.spec_eol() == Eol::Lf ==> r@ == self.bytes(),
    {
        match self.eol {
            Eol::Lf => bytes_range(&self.text, 0, self.text.len()),
            Eol::CrLf => {
                let ghost t = self.bytes();
                let n = self.text.len();
                let mut out: Vec<u8> = Vec::new();
                let mut i: usize = 0;
                proof {
                    assert(t.skip(0) =~= t);
                    assert(out@ + expand_crlf(t) =~= expand_crlf(t));
                }
                while i < n
                    invariant
                        i <= n,
                        n == t.len(),
                        t == self.bytes(),
                        expand_crlf(t) == out@ + expand_crlf(t.skip(i as int)),
                    decreases n - i,
                {
                    let b = self.text[i];
                    if b == 10u8 {
                        out.push(13u8);
                        out.push(10u8);
                    } else {
                        out.push(b);
                    }
                    proof {
                        assert(t.skip(i as int)[0] == b);
                        assert(t.skip(i as int).skip(1) =~= t.skip(i as int + 1));
                    }
                    i = i + 1;
                }
                proof {
                    assert(t.skip(n as int) =~= Seq::<u8>::empty());
                    assert(out@ + Seq::<u8>::empty() =~= out@);
                }
                out
            },
        }
    }
}

/// A character boundary of a prefix is determined by the boundary in the full
/// sequence: splitting at an outer boundary keeps inner boundaries.
pub proof fn is_char_boundary_prefix(t: Seq<u8>, cut: int, j: int)
    requires
        valid_utf8(t),
        0 <= j <= cut <= t.len(),
        is_char_boundary(t, cut),
        is_char_boundary(t, j),
    ensures
        is_char_boundary(t.subrange(0, cut), j),
{
    let head = t.subrange(0, cut);
    valid_utf8_split(t, cut);
    if j == 0 {
        is_char_boundary_start_end_of_seq(head);
    } else if j == cut {
        is_char_boundary_start_end_of_seq(head);
    } else {
        is_char_boundary_iff_not_is_continuation_byte(t, j);
        assert(head[j] == t[j]);
        is_char_boundary_iff_not_is_continuation_byte(head, j);
    }
}

} // verus!
