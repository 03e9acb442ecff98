//! Cross-file search results and the per-line match test.

use vstd::prelude::*;

verus! {

use crate::editor::search::{find_all, find_occurrences, lower_of};
use crate::strutil::str_to_chars;

/// One match found in a workspace file.
#[derive(Debug, Clone, PartialEq)]
pub struct SearchResult {
    pub path: String,
    pub line: usize,
    pub context: String,
}

/// Whether a line matches a plain pattern, case-folding both sides when the
/// search is insensitive. The match list is the greedy left-to-right one; a
/// line matches when it is non-empty.
pub fn line_matches(line: &str, pattern: &str, case_sensitive: bool) -> (r: bool)
    ensures
        case_sensitive ==> r == (find_all(line@, pattern@, 0).len() > 0),
        !case_sensitive ==> r == (find_all(lower_of(line@), lower_of(pattern@), 0).len() > 0),
{
    if case_sensitive {
        let hay = str_to_chars(line);
        let needle = str_to_chars(pattern);
        let found = find_occurrences(&hay, &needle);
        found.len() > 0
    } else {
        let hay_l = crate::editor::search::to_lower(line);
        let needle_l = crate::editor::search::to_lower(pattern);
        let hay = str_to_chars(hay_l.as_str());
        let needle = str_to_chars(needle_l.as_str());
        let found = find_occurrences(&hay, &needle);
        found.len() > 0
    }
}

} // verus!
