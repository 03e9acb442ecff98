//! Incremental text search over the document, plain or by regular
//! expression, with match navigation.

use vstd::prelude::*;

verus! {

use crate::editor::rope::Rope;
use crate::strutil::{str_to_chars, chars_to_string};
use crate::viewport::cc;

/// What case folding yields on a text: a function of the characters alone.
pub uninterp spec fn lower_of(s: Seq<char>) -> Seq<char>;

/// Relies on str::to_lowercase: the folded text depends on the characters
/// alone, and an empty string stays empty.
#[verifier::external_body]
pub(crate) fn to_lower(s: &str) -> (r: String)
    ensures
        r@ == lower_of(s@),
        s@.len() == 0 ==> r@.len() == 0,
{
    s.to_lowercase()
}

/// Whether the pattern is a valid regular expression.
pub uninterp spec fn regex_ok(pat: Seq<char>) -> bool;

/// The byte spans that the regular expression matches in the text, in order:
/// a function of pattern and text alone.
pub uninterp spec fn regex_spans(pat: Seq<char>, text: Seq<char>) -> Seq<(usize, usize)>;

/// Relies on regex::Regex::new and Regex::find_iter: compilation succeeds on
/// exactly the valid patterns, and the iterator yields the successive
/// non-overlapping match ranges left to right, as in-range byte offsets on
/// character boundaries.
#[verifier::external_body]
fn regex_find_all(pat: &str, text: &str) -> (r: Option<Vec<(usize, usize)>>)
    ensures
        r is Some <==> regex_ok(pat@),
        r matches Some(v) ==> v@ == regex_spans(pat@, text@),
        r matches Some(v) ==> forall|i: int|
            0 <= i < v@.len() ==> ((#[trigger] v@[i]).0 <= v@[i].1 <= vstd::utf8::encode_utf8(
                text@,
            ).len() && vstd::utf8::is_char_boundary(
                vstd::utf8::encode_utf8(text@),
                v@[i].0 as int,
            ) && vstd::utf8::is_char_boundary(vstd::utf8::encode_utf8(text@), v@[i].1 as int)),
{
    match regex::Regex::new(pat) {
        Ok(re) => Some(re.find_iter(text).map(|m| (m.start(), m.end())).collect()),
        Err(_) => None,
    }
}

/// Whether `q` occurs in `s` at position `i`.
pub open spec fn occurs_at(s: Seq<char>, q: Seq<char>, i: int) -> bool {
    0 <= i && i + q.len() <= s.len() && s.subrange(i, i + q.len()) == q
}

/// All matches of `q` in `s` from position `i` on, greedy and
/// non-overlapping, as character ranges.
pub open spec fn find_all(s: Seq<char>, q: Seq<char>, i: int) -> Seq<(usize, usize)>
    decreases s.len() - i,
{
    if q.len() == 0 || i < 0 || i + q.len() > s.len() {
        Seq::<(usize, usize)>::empty()
    } else if occurs_at(s, q, i) {
        seq![(i as usize, (i + q.len()) as usize)] + find_all(s, q, i + q.len())
    } else {
        seq![] + find_all(s, q, i + 1)
    }
}

/// Incremental search state: the query, its options, and the matches found
/// in the document, as character ranges.
pub struct Search {
    query: String,
    pub case_sensitive: bool,
    pub regex: bool,
    matches: Vec<(usize, usize)>,
    current: usize,
}

impl Search {
    /// The found matches, as character ranges.
    pub closed spec fn matches_view(&self) -> Seq<(usize, usize)> {
        self.matches@
    }

    /// Which match the navigation stands on.
    pub closed spec fn current_at(&self) -> int {
        self.current as int
    }

    /// The navigation index stays within the matches (or at zero).
    pub open spec fn wf(&self) -> bool {
        if self.matches_view().len() == 0 {
            self.current_at() == 0
        } else {
            self.current_at() < self.matches_view().len()
        }
    }

    /// An empty search.
    pub fn new() -> (r: Search)
        ensures
            r.matches_view() == Seq::<(usize, usize)>::empty(),
            r.current_at() == 0,
    {
        Search {
            query: String::new(),
            case_sensitive: false,
            regex: false,
            matches: Vec::new(),
            current: 0,
        }
    }

    /// Run the query over the document: plain queries find every greedy
    /// non-overlapping occurrence (case-folded first when insensitive);
    /// regular expressions report the engine's byte spans converted to
    /// character positions. An invalid pattern is reported and an empty
    /// query clears the matches.
    pub fn update(&mut self, rope: &Rope, query: &str, regex: bool, case_sensitive: bool) -> (r:
        Result<(), crate::error::GhostwriterError>)
        ensures
            final(self).wf(),
            final(self).current_at() == 0,
            query@.len() == 0 ==> final(self).matches_view() == Seq::<(usize, usize)>::empty()
                && r is Ok,
            query@.len() > 0 && !regex && case_sensitive ==> final(self).matches_view()
                == find_all(rope.text(), query@, 0) && r is Ok,
            query@.len() > 0 && !regex && !case_sensitive ==> final(self).matches_view()
                == find_all(lower_of(rope.text()), lower_of(query@), 0) && r is Ok,
            query@.len() > 0 && regex ==> (r is Ok <==> regex_ok(query@)),
            query@.len() > 0 && regex && regex_ok(query@) ==> ({
                let spans = regex_spans(query@, rope.text());
                let tb = vstd::utf8::encode_utf8(rope.text());
                &&& final(self).matches_view().len() == spans.len()
                &&& forall|i: int|
                    0 <= i < spans.len() ==> (#[trigger] final(self).matches_view()[i]) == (
                    (crate::viewport::cc(tb, 0, spans[i].0 as int) as usize),
                    (crate::viewport::cc(tb, 0, spans[i].1 as int) as usize),
                    )
            }),
    {
        self.query = query.to_owned();
        self.regex = regex;
        self.case_sensitive = case_sensitive;
        self.current = 0;
        self.matches = Vec::new();
        let query_chars = str_to_chars(query);
        if query_chars.len() == 0 {
            return Ok(());
        }
        let text = rope.cached_text();
        if regex {
            match regex_find_all(query, text.as_str()) {
                Some(spans) => {
                    let tb = text.as_str().as_bytes();
                    let m = spans.len();
                    let mut i: usize = 0;
                    while i < m
                        invariant
                            i <= m,
                            self.current_at() == 0,
                            m == spans@.len(),
                            spans@ == regex_spans(query@, rope.text()),
                            tb@ == vstd::utf8::encode_utf8(rope.text()),
                            self.matches_view().len() == i,
                            forall|k: int|
                                0 <= k < i ==> (#[trigger] self.matches_view()[k]) == (
                                (cc(tb@, 0, spans@[k].0 as int) as usize),
                                (cc(tb@, 0, spans@[k].1 as int) as usize),
                                ),
                            forall|k: int|
                                0 <= k < spans@.len() ==> ((#[trigger] spans@[k]).0 <= spans@[k].1
                                    <= tb@.len()),
                        decreases m - i,
                    {
                        let (a, b) = spans[i];
                        let ca = crate::viewport::char_count_range(tb, 0, a);
                        let cb = crate::viewport::char_count_range(tb, 0, b);
                        self.matches.push((ca, cb));
                        i = i + 1;
                    }
                    Ok(())
                },
                None => {
                    let m = "invalid regular expression";
                    Err(crate::error::GhostwriterError::InvalidArgument(m.to_owned()))
                },
            }
        } else {
            if case_sensitive {
                let hay = str_to_chars(text.as_str());
                let needle = str_to_chars(query);
                self.matches = find_occurrences(&hay, &needle);
                proof {
                    assert(query@.len() > 0);
                }
            } else {
                let hay_l = to_lower(text.as_str());
                let needle_l = to_lower(query);
                let hay = str_to_chars(hay_l.as_str());
                let needle = str_to_chars(needle_l.as_str());
                self.matches = find_occurrences(&hay, &needle);
            }
            Ok(())
        }
    }

    /// The current match, stepping the navigation forward with wraparound.
    pub fn next(&mut self) -> (r: Option<core::ops::Range<usize>>)
        requires
            old(self).wf(),
            old(self).matches_view().len() > 0 ==> old(self).current_at() < old(
                self,
            ).matches_view().len(),
        ensures
            final(self).wf(),
            final(self).matches_view() == old(self).matches_view(),
            old(self).matches_view().len() == 0 ==> r is None && final(self).current_at() == old(
                self,
            ).current_at(),
            old(self).matches_view().len() > 0 ==> ({
                let cur = old(self).matches_view()[old(self).current_at()];
                &&& r matches Some(rng) && rng.start == cur.0 && rng.end == cur.1
                &&& final(self).current_at() == (old(self).current_at() + 1) % (old(
                    self,
                ).matches_view().len() as int)
            }),
    {
        if self.matches.len() == 0 {
            return None;
        }
        let (a, b) = self.matches[self.current];
        self.current = (self.current + 1) % self.matches.len();
        Some(a..b)
    }

    /// The previous match, stepping the navigation backward with wraparound.
    pub fn prev(&mut self) -> (r: Option<core::ops::Range<usize>>)
        requires
            old(self).wf(),
            old(self).matches_view().len() > 0 ==> old(self).current_at() < old(
                self,
            ).matches_view().len(),
        ensures
            final(self).wf(),
            final(self).matches_view() == old(self).matches_view(),
            old(self).matches_view().len() == 0 ==> r is None && final(self).current_at() == old(
                self,
            ).current_at(),
            old(self).matches_view().len() > 0 ==> ({
                let n = old(self).matches_view().len() as int;
                let nc = if old(self).current_at() == 0 {
                    n - 1
                } else {
                    old(self).current_at() - 1
                };
                &&& final(self).current_at() == nc
                &&& r matches Some(rng) && rng.start == old(self).matches_view()[nc].0 && rng.end
                    == old(self).matches_view()[nc].1
            }),
    {
        if self.matches.len() == 0 {
            return None;
        }
        if self.current == 0 {
            self.current = self.matches.len() - 1;
        } else {
            self.current = self.current - 1;
        }
        let (a, b) = self.matches[self.current];
        Some(a..b)
    }

    /// All matches, as ranges.
    pub fn matches(&self) -> (r: Vec<core::ops::Range<usize>>)
        ensures
            r@.len() == self.matches_view().len(),
            forall|i: int|
                0 <= i < r@.len() ==> (#[trigger] r@[i]).start == self.matches_view()[i].0
                    && r@[i].end == self.matches_view()[i].1,
    {
        let n = self.matches.len();
        let mut out: Vec<core::ops::Range<usize>> = Vec::new();
        let mut i: usize = 0;
        while i < n
            invariant
                i <= n,
                n == self.matches@.len(),
                out@.len() == i,
                forall|k: int|
                    0 <= k < out@.len() ==> (#[trigger] out@[k]).start == self.matches@[k].0
                        && out@[k].end == self.matches@[k].1,
            decreases n - i,
        {
            let (a, b) = self.matches[i];
            out.push(a..b);
            i = i + 1;
        }
        out
    }
}

/// Find every greedy non-overlapping occurrence of `q` in `s`.
pub fn find_occurrences(s: &Vec<char>, q: &Vec<char>) -> (r: Vec<(usize, usize)>)
    ensures
        r@ == find_all(s@, q@, 0),
{
    let n = s.len();
    let m = q.len();
    let mut out: Vec<(usize, usize)> = Vec::new();
    let mut i: usize = 0;
    proof {
        assert(Seq::<(usize, usize)>::empty() + find_all(s@, q@, 0) =~= find_all(s@, q@, 0));
    }
    while m > 0 && m <= n && i <= n - m
        invariant
            i <= n + 1,
            n == s@.len(),
            m == q@.len(),
            find_all(s@, q@, 0) == out@ + find_all(s@, q@, i as int),
        decreases n - i,
    {
        let mut k: usize = 0;
        while k < m && s[i + k] == q[k]
            invariant
                k <= m,
                m == q@.len(),
                i + m <= n == s@.len(),
                s@.subrange(i as int, i as int + k as int) == q@.subrange(0, k as int),
            decreases m - k,
        {
            proof {
                assert(s@.subrange(i as int, i as int + k as int + 1).drop_last()
                    =~= s@.subrange(i as int, i as int + k as int));
                assert(q@.subrange(0, k as int + 1).drop_last() =~= q@.subrange(0, k as int));
                assert(s@.subrange(i as int, i as int + k as int + 1).last() == s@[i + k]);
                assert(q@.subrange(0, k as int + 1).last() == q@[k as int]);
                assert(s@.subrange(i as int, i as int + k as int + 1) =~= q@.subrange(
                    0,
                    k as int + 1,
                ));
            }
            k = k + 1;
        }
        let hit = k == m;
        proof {
            if hit {
                assert(s@.subrange(i as int, i as int + m as int) =~= q@.subrange(0, m as int));
                assert(q@.subrange(0, m as int) =~= q@);
                assert(occurs_at(s@, q@, i as int));
            } else {
                assert(s@[i + k] != q@[k as int]);
                assert(s@.subrange(i as int, i as int + m as int)[k as int] == s@[i + k]);
                assert(!occurs_at(s@, q@, i as int)) by {
                    if occurs_at(s@, q@, i as int) {
                        assert(s@.subrange(i as int, i as int + m as int)[k as int] == q@[k as int]);
                    }
                }
            }
        }
        if hit {
            let ghost prev = out@;
            out.push((i, i + m));
            proof {
                assert(out@ =~= prev.push((i, (i + m) as usize)));
                assert(find_all(s@, q@, i as int) == seq![(i, (i + m) as usize)] + find_all(
                    s@,
                    q@,
                    i as int + m as int,
                ));
                assert(out@ + find_all(s@, q@, i as int + m as int) =~= prev + find_all(
                    s@,
                    q@,
                    i as int,
                ));
            }
            i = i + m;
        } else {
            proof {
                assert(!occurs_at(s@, q@, i as int));
                assert(find_all(s@, q@, i as int) == seq![] + find_all(s@, q@, i as int + 1));
                assert(seq![] + find_all(s@, q@, i as int + 1) =~= find_all(s@, q@, i as int + 1));
            }
            i = i + 1;
        }
    }
    proof {
        assert(find_all(s@, q@, i as int) =~= Seq::<(usize, usize)>::empty());
        assert(out@ + Seq::<(usize, usize)>::empty() =~= out@);
    }
    out
}

} // verus!
