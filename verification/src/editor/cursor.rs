//! Cursor positions within a document and the movements between them.
//!
//! Positions are (line, column) pairs over the document text with its line
//! endings normalized to LF; columns count characters.

use vstd::prelude::*;

verus! {

use crate::editor::rope::{Rope, lines_of, split_lines};
use crate::strutil::{str_to_chars, chars_to_string};

/// Whether a character is alphanumeric: a property of the character alone.
pub uninterp spec fn char_alphanumeric(c: char) -> bool;

/// Relies on char::is_alphanumeric: the Unicode alphanumeric property of the
/// character.
#[verifier::external_body]
fn alphanumeric(c: char) -> (r: bool)
    ensures
        r == char_alphanumeric(c),
{
    c.is_alphanumeric()
}

/// A word character: alphanumeric or underscore.
pub open spec fn is_word_char(c: char) -> bool {
    char_alphanumeric(c) || c == '_'
}

fn word_char(c: char) -> (r: bool)
    ensures
        r == is_word_char(c),
{
    alphanumeric(c) || c == '_'
}

/// The text with CR LF pairs and lone CRs turned into LF.
pub open spec fn norm_eols(s: Seq<char>) -> Seq<char>
    decreases s.len(),
{
    if s.len() == 0 {
        Seq::<char>::empty()
    } else if s[0] == '\r' && s.len() >= 2 && s[1] == '\n' {
        seq!['\n'] + norm_eols(s.skip(2))
    } else if s[0] == '\r' {
        seq!['\n'] + norm_eols(s.skip(1))
    } else {
        seq![s[0]] + norm_eols(s.skip(1))
    }
}

/// The rope's characters with normalized line endings.
pub fn normalized_chars(rope: &Rope) -> (r: Vec<char>)
    ensures
        r@ == norm_eols(rope.text()),
{
    let v = rope.to_chars();
    let n = v.len();
    let mut out: Vec<char> = Vec::new();
    let mut i: usize = 0;
    proof {
        assert(v@.skip(0) =~= v@);
        assert(out@ + norm_eols(v@) =~= norm_eols(v@));
    }
    while i < n
        invariant
            i <= n,
            n == v@.len(),
            norm_eols(v@) == out@ + norm_eols(v@.skip(i as int)),
        decreases n - i,
    {
        let c = v[i];
        if c == '\r' && i + 1 < n && v[i + 1] == '\n' {
            out.push('\n');
            proof {
                assert(v@.skip(i as int)[0] == '\r');
                assert(v@.skip(i as int)[1] == '\n');
                assert(v@.skip(i as int).skip(2) =~= v@.skip(i as int + 2));
            }
            i = i + 2;
        } else if c == '\r' {
            out.push('\n');
            proof {
                assert(v@.skip(i as int)[0] == '\r');
                if v@.skip(i as int).len() >= 2 {
                    assert(v@.skip(i as int)[1] == v@[i as int + 1]);
                }
                assert(v@.skip(i as int).skip(1) =~= v@.skip(i as int + 1));
            }
            i = i + 1;
        } else {
            out.push(c);
            proof {
                assert(v@.skip(i as int)[0] == c);
                assert(v@.skip(i as int).skip(1) =~= v@.skip(i as int + 1));
            }
            i = i + 1;
        }
    }
    proof {
        assert(v@.skip(n as int) =~= Seq::<char>::empty());
        assert(out@ + Seq::<char>::empty() =~= out@);
    }
    out
}

/// The rope's text with normalized line endings, as a string.
pub fn normalized_text(rope: &Rope) -> (r: String)
    ensures
        r@ == norm_eols(rope.text()),
{
    let v = normalized_chars(rope);
    chars_to_string(&v)
}

/// Scan for the character index of (line, col): step through the text
/// keeping a line and column count until both match; a position never
/// reached maps to the end of the text.
pub open spec fn lci_scan(s: Seq<char>, i: int, l: int, c: int, line: int, col: int) -> int
    decreases s.len() - i,
{
    if l == line && c == col {
        i
    } else if i >= s.len() {
        s.len() as int
    } else if s[i] == '\n' {
        lci_scan(s, i + 1, l + 1, 0, line, col)
    } else {
        lci_scan(s, i + 1, l, c + 1, line, col)
    }
}

/// The character index of a (line, column) position.
pub open spec fn spec_line_col_to_index(s: Seq<char>, line: int, col: int) -> int {
    lci_scan(s, 0, 0, 0, line, col)
}

/// Scan for the (line, column) of character index `idx`.
pub open spec fn ilc_scan(s: Seq<char>, i: int, l: int, c: int, idx: int) -> (int, int)
    decreases s.len() - i,
{
    if i >= s.len() || i >= idx {
        (l, c)
    } else if s[i] == '\n' {
        ilc_scan(s, i + 1, l + 1, 0, idx)
    } else {
        ilc_scan(s, i + 1, l, c + 1, idx)
    }
}

/// The (line, column) of a character index.
pub open spec fn spec_index_to_line_col(s: Seq<char>, idx: int) -> (int, int) {
    ilc_scan(s, 0, 0, 0, idx)
}

/// Convert a (line, column) position to a character index in `text`.
pub fn line_col_to_index(text: &str, line: usize, column: usize) -> (r: usize)
    ensures
        r == spec_line_col_to_index(text@, line as int, column as int),
        r <= text@.len(),
{
    let v = str_to_chars(text);
    let n = v.len();
    let mut i: usize = 0;
    let mut l: usize = 0;
    let mut c: usize = 0;
    loop
        invariant
            i <= n,
            n == v@.len(),
            v@ == text@,
            l <= i,
            c <= i,
            lci_scan(text@, i as int, l as int, c as int, line as int, column as int)
                == spec_line_col_to_index(text@, line as int, column as int),
        ensures
            i <= text@.len(),
            i == spec_line_col_to_index(text@, line as int, column as int),
        decreases n - i,
    {
        if l == line && c == column {
            break ;
        }
        if i >= n {
            break ;
        }
        if v[i] == '\n' {
            l = l + 1;
            c = 0;
        } else {
            c = c + 1;
        }
        i = i + 1;
    }
    i
}

/// Convert a character index in `text` to a (line, column) position.
pub fn index_to_line_col(text: &str, idx: usize) -> (r: (usize, usize))
    ensures
        (r.0 as int, r.1 as int) == spec_index_to_line_col(text@, idx as int),
{
    let v = str_to_chars(text);
    let n = v.len();
    let mut i: usize = 0;
    let mut l: usize = 0;
    let mut c: usize = 0;
    while i < n && i < idx
        invariant
            i <= n,
            n == v@.len(),
            v@ == text@,
            l <= i,
            c <= i,
            ilc_scan(text@, i as int, l as int, c as int, idx as int) == spec_index_to_line_col(
                text@,
                idx as int,
            ),
        decreases n - i,
    {
        if v[i] == '\n' {
            l = l + 1;
            c = 0;
        } else {
            c = c + 1;
        }
        i = i + 1;
    }
    (l, c)
}

/// Skip word characters backward from position `p`.
pub open spec fn skip_word_back(s: Seq<char>, p: int) -> int
    decreases p,
{
    if p > 0 && is_word_char(s[p - 1]) {
        skip_word_back(s, p - 1)
    } else {
        p
    }
}

/// Skip non-word characters backward from position `p`.
pub open spec fn skip_nonword_back(s: Seq<char>, p: int) -> int
    decreases p,
{
    if p > 0 && !is_word_char(s[p - 1]) {
        skip_nonword_back(s, p - 1)
    } else {
        p
    }
}

/// Skip non-word characters forward from position `p`.
pub open spec fn skip_nonword_fwd(s: Seq<char>, p: int) -> int
    decreases s.len() - p,
{
    if p < s.len() && !is_word_char(s[p]) {
        skip_nonword_fwd(s, p + 1)
    } else {
        p
    }
}

/// Skip word characters forward from position `p`.
pub open spec fn skip_word_fwd(s: Seq<char>, p: int) -> int
    decreases s.len() - p,
{
    if p < s.len() && is_word_char(s[p]) {
        skip_word_fwd(s, p + 1)
    } else {
        p
    }
}

/// The document-end position: the last line and its length.
pub open spec fn doc_end_pos(s: Seq<char>) -> (int, int) {
    if s.len() == 0 {
        (0int, 0int)
    } else {
        ((lines_of(s).len() - 1) as int, lines_of(s).last().len() as int)
    }
}

/// A position clamped into the document.
pub open spec fn clamped_pos(s: Seq<char>, line: int, col: int) -> (int, int) {
    let ls = if lines_of(s).len() == 0 {
        seq![Seq::<char>::empty()]
    } else {
        lines_of(s)
    };
    let l2 = if line >= ls.len() {
        (ls.len() - 1) as int
    } else {
        line
    };
    let c2 = if col > ls[l2].len() {
        ls[l2].len() as int
    } else {
        col
    };
    (l2, c2)
}

/// Represents a cursor position within a text document.
#[derive(Debug, Clone, Copy, PartialEq, Eq, Structural)]
pub struct Cursor {
    pub line: usize,
    pub column: usize,
}

impl Cursor {
    /// Create a new cursor at the beginning of the document.
    pub fn new() -> (r: Cursor)
        ensures
            r.line == 0 && r.column == 0,
    {
        Cursor { line: 0, column: 0 }
    }

    /// Get the current cursor position as `(line, column)`.
    pub fn position(&self) -> (r: (usize, usize))
        ensures
            r.0 == self.line,
            r.1 == self.column,
    {
        (self.line, self.column)
    }

    /// Move the cursor to the start of the document.
    pub fn move_doc_start(&mut self)
        ensures
            final(self).line == 0 && final(self).column == 0,
    {
        self.line = 0;
        self.column = 0;
    }

    /// Move the cursor to the end of the document.
    pub fn move_doc_end(&mut self, rope: &Rope)
        ensures
            (final(self).line as int, final(self).column as int) == doc_end_pos(
                norm_eols(rope.text()),
            ),
    {
        let v = normalized_chars(rope);
        if v.len() == 0 {
            self.line = 0;
            self.column = 0;
            return ;
        }
        let lines = split_lines(&v);
        proof {
            assert(lines_of(v@).len() > 0);
        }
        self.line = lines.len() - 1;
        let last_chars = str_to_chars(lines[lines.len() - 1].as_str());
        self.column = last_chars.len();
    }

    /// Move the cursor to the start of the current line.
    pub fn move_line_start(&mut self)
        ensures
            final(self).line == old(self).line,
            final(self).column == 0,
    {
        self.column = 0;
    }

    /// Move the cursor to the end of the current line.
    pub fn move_line_end(&mut self, rope: &Rope)
        ensures
            final(self).line == old(self).line,
            old(self).line < lines_of(norm_eols(rope.text())).len() ==> final(self).column
                == lines_of(norm_eols(rope.text()))[old(self).line as int].len(),
            old(self).line >= lines_of(norm_eols(rope.text())).len() ==> final(self).column == old(
                self,
            ).column,
    {
        let v = normalized_chars(rope);
        let lines = split_lines(&v);
        if self.line < lines.len() {
            let line_chars = str_to_chars(lines[self.line].as_str());
            self.column = line_chars.len();
        }
    }

    /// Move the cursor one character to the left.
    pub fn move_left(&mut self, rope: &Rope)
        ensures
            ({
                let t = norm_eols(rope.text());
                let idx = spec_line_col_to_index(t, old(self).line as int, old(self).column as int);
                if idx == 0 {
                    *final(self) == *old(self)
                } else {
                    (final(self).line as int, final(self).column as int)
                        == spec_index_to_line_col(t, idx - 1)
                }
            }),
    {
        let text = normalized_text(rope);
        let idx = line_col_to_index(text.as_str(), self.line, self.column);
        if idx == 0 {
            return ;
        }
        let (l, c) = index_to_line_col(text.as_str(), idx - 1);
        self.line = l;
        self.column = c;
    }

    /// Move the cursor one character to the right.
    pub fn move_right(&mut self, rope: &Rope)
        ensures
            ({
                let t = norm_eols(rope.text());
                let idx = spec_line_col_to_index(t, old(self).line as int, old(self).column as int);
                if idx >= t.len() {
                    *final(self) == *old(self)
                } else {
                    (final(self).line as int, final(self).column as int)
                        == spec_index_to_line_col(t, idx + 1)
                }
            }),
    {
        let v = normalized_chars(rope);
        let text = chars_to_string(&v);
        let idx = line_col_to_index(text.as_str(), self.line, self.column);
        if idx >= v.len() {
            return ;
        }
        let (l, c) = index_to_line_col(text.as_str(), idx + 1);
        self.line = l;
        self.column = c;
    }

    /// Move the cursor up one line, keeping the column if possible.
    pub fn move_up(&mut self, rope: &Rope)
        ensures
            old(self).line == 0 ==> final(self).line == 0 && final(self).column == 0,
            old(self).line > 0 ==> (final(self).line as int, final(self).column as int)
                == clamped_pos(
                norm_eols(rope.text()),
                old(self).line - 1,
                old(self).column as int,
            ),
    {
        if self.line == 0 {
            self.column = 0;
            return ;
        }
        self.line = self.line - 1;
        self.validate(rope);
    }

    /// Move the cursor down one line, keeping the column if possible.
    pub fn move_down(&mut self, rope: &Rope)
        ensures
            ({
                let t = norm_eols(rope.text());
                if old(self).line + 1 >= lines_of(t).len() {
                    (final(self).line as int, final(self).column as int) == doc_end_pos(t)
                } else {
                    (final(self).line as int, final(self).column as int) == clamped_pos(
                        t,
                        old(self).line + 1,
                        old(self).column as int,
                    )
                }
            }),
    {
        let v = normalized_chars(rope);
        let lines = split_lines(&v);
        if lines.len() == 0 || self.line >= lines.len() - 1 {
            self.move_doc_end(rope);
            return ;
        }
        self.line = self.line + 1;
        self.validate(rope);
    }

    /// Move the cursor to the previous word start.
    pub fn move_prev_word(&mut self, rope: &Rope)
        ensures
            ({
                let t = norm_eols(rope.text());
                let idx = spec_line_col_to_index(t, old(self).line as int, old(self).column as int);
                if idx == 0 {
                    *final(self) == *old(self)
                } else {
                    let p = skip_word_back(t, skip_nonword_back(t, idx));
                    (final(self).line as int, final(self).column as int)
                        == spec_index_to_line_col(t, p)
                }
            }),
    {
        let v = normalized_chars(rope);
        let text = chars_to_string(&v);
        let idx = line_col_to_index(text.as_str(), self.line, self.column);
        if idx == 0 {
            return ;
        }
        let mut pos: usize = idx;
        while pos > 0 && !word_char(v[pos - 1])
            invariant
                pos <= v@.len(),
                v@ == norm_eols(rope.text()),
                skip_nonword_back(v@, pos as int) == skip_nonword_back(v@, idx as int),
                idx <= v@.len(),
            decreases pos,
        {
            pos = pos - 1;
        }
        while pos > 0 && word_char(v[pos - 1])
            invariant
                pos <= v@.len(),
                v@ == norm_eols(rope.text()),
                skip_word_back(v@, pos as int) == skip_word_back(
                    v@,
                    skip_nonword_back(v@, idx as int),
                ),
                idx <= v@.len(),
            decreases pos,
        {
            pos = pos - 1;
        }
        let (l, c) = index_to_line_col(text.as_str(), pos);
        self.line = l;
        self.column = c;
    }

    /// Move the cursor to the next word end.
    pub fn move_next_word(&mut self, rope: &Rope)
        ensures
            ({
                let t = norm_eols(rope.text());
                let idx = spec_line_col_to_index(t, old(self).line as int, old(self).column as int);
                let start = if idx + 1 > t.len() {
                    t.len() as int
                } else {
                    idx + 1
                };
                let p = skip_nonword_fwd(t, start);
                if p >= t.len() {
                    (final(self).line as int, final(self).column as int) == doc_end_pos(t)
                } else {
                    (final(self).line as int, final(self).column as int)
                        == spec_index_to_line_col(t, skip_word_fwd(t, p) - 1)
                }
            }),
    {
        let v = normalized_chars(rope);
        let text = chars_to_string(&v);
        let idx = line_col_to_index(text.as_str(), self.line, self.column);
        let n = v.len();
        let mut pos: usize = if idx >= n {
            n
        } else {
            idx + 1
        };
        while pos < n && !word_char(v[pos])
            invariant
                pos <= n,
                n == v@.len(),
                v@ == norm_eols(rope.text()),
                skip_nonword_fwd(v@, pos as int) == skip_nonword_fwd(
                    v@,
                    if idx + 1 > v@.len() {
                        v@.len() as int
                    } else {
                        idx as int + 1
                    },
                ),
            decreases n - pos,
        {
            pos = pos + 1;
        }
        if pos >= n {
            self.move_doc_end(rope);
            return ;
        }
        let mut end: usize = pos;
        while end < n && word_char(v[end])
            invariant
                pos <= end <= n,
                n == v@.len(),
                v@ == norm_eols(rope.text()),
                skip_word_fwd(v@, end as int) == skip_word_fwd(v@, pos as int),
            decreases n - end,
        {
            end = end + 1;
        }
        proof {
            assert(is_word_char(v@[pos as int]));
            assert(end > pos);
        }
        let (l, c) = index_to_line_col(text.as_str(), end - 1);
        self.line = l;
        self.column = c;
    }

    /// Ensure the cursor is within valid bounds of the document.
    pub fn validate(&mut self, rope: &Rope)
        ensures
            (final(self).line as int, final(self).column as int) == clamped_pos(
                norm_eols(rope.text()),
                old(self).line as int,
                old(self).column as int,
            ),
    {
        let v = normalized_chars(rope);
        let lines = split_lines(&v);
        let count = lines.len();
        if count == 0 {
            if self.line >= 1 {
                self.line = 0;
            }
            self.column = 0;
            proof {
                assert(clamped_pos(v@, old(self).line as int, old(self).column as int) == (
                0int,
                0int,
                ));
            }
            return ;
        }
        if self.line >= count {
            self.line = count - 1;
        }
        let line_chars = str_to_chars(lines[self.line].as_str());
        let max_col = line_chars.len();
        if self.column > max_col {
            self.column = max_col;
        }
    }
}

} // verus!
