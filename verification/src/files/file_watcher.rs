//! External-change records and conflict resolution between local and
//! external file contents.

use vstd::prelude::*;

verus! {

use crate::editor::rope::lines_of;
use crate::editor::search::{occurs_at, find_all, find_occurrences};
use crate::strutil::{lossy_utf8, decode_lossy, str_to_chars, chars_to_string, str_to_bytes};

/// Represents an external modification to a file; times are milliseconds.
#[derive(Debug, Clone, PartialEq)]
pub struct ExternalChange {
    pub path: String,
    pub old_modified: u64,
    pub new_modified: u64,
}

/// Possible strategies when a conflict is detected.
#[derive(Debug, Clone, Copy, PartialEq, Eq, Structural)]
pub enum ConflictResolution {
    /// Keep the local version of the file.
    KeepLocal,
    /// Overwrite with the external version of the file.
    AcceptExternal,
    /// Simple manual merge strategy.
    ManualMerge,
}

/// Whether `q` occurs anywhere in `s`.
pub open spec fn contains_seq(s: Seq<char>, q: Seq<char>) -> bool {
    exists|i: int| occurs_at(s, q, i)
}

/// The manual merge of the decoded local text with the external lines:
/// every external line not already contained in the text so far is appended
/// with a newline.
pub open spec fn merge_step(acc: Seq<char>, ls: Seq<Seq<char>>) -> Seq<char>
    decreases ls.len(),
{
    if ls.len() == 0 {
        acc
    } else if contains_seq(acc, ls[0]) {
        merge_step(acc, ls.skip(1))
    } else {
        merge_step(acc + ls[0] + seq!['\n'], ls.skip(1))
    }
}

/// A reported occurrence really is one.
proof fn lemma_find_all_sound(s: Seq<char>, q: Seq<char>, st: int)
    requires
        find_all(s, q, st).len() > 0,
    ensures
        contains_seq(s, q),
    decreases s.len() - st,
{
    if !(q.len() == 0 || st < 0 || st + q.len() > s.len()) {
        if occurs_at(s, q, st) {
        } else {
            assert(find_all(s, q, st) == seq![] + find_all(s, q, st + 1));
            assert(seq![] + find_all(s, q, st + 1) =~= find_all(s, q, st + 1));
            lemma_find_all_sound(s, q, st + 1);
        }
    }
}

/// Every occurrence is found: a text with an occurrence at or after the scan
/// start yields at least one match.
proof fn lemma_find_all_complete(s: Seq<char>, q: Seq<char>, st: int, w: int)
    requires
        q.len() > 0,
        0 <= st <= w,
        occurs_at(s, q, w),
    ensures
        find_all(s, q, st).len() > 0,
    decreases w - st,
{
    assert(st + q.len() <= s.len());
    if occurs_at(s, q, st) {
    } else {
        assert(st < w);
        lemma_find_all_complete(s, q, st + 1, w);
        assert(find_all(s, q, st) == seq![] + find_all(s, q, st + 1));
    }
}

/// Whether `q` occurs in `s`.
fn contains_chars(s: &Vec<char>, q: &Vec<char>) -> (r: bool)
    ensures
        r == contains_seq(s@, q@),
{
    if q.len() == 0 {
        proof {
            assert(s@.subrange(0, 0) =~= q@);
            assert(occurs_at(s@, q@, 0));
        }
        return true;
    }
    let found = find_occurrences(s, q);
    if found.len() > 0 {
        proof {
            lemma_find_all_sound(s@, q@, 0);
        }
        true
    } else {
        proof {
            if contains_seq(s@, q@) {
                let w = choose|i: int| occurs_at(s@, q@, i);
                lemma_find_all_complete(s@, q@, 0, w);
            }
        }
        false
    }
}

/// Resolve a conflict between local and external contents: keep one side
/// whole, or merge by appending every external line the local text does not
/// already contain.
pub fn resolve_conflict(choice: ConflictResolution, local: &[u8], external: &[u8]) -> (r: Vec<u8>)
    ensures
        choice == ConflictResolution::KeepLocal ==> r@ == local@,
        choice == ConflictResolution::AcceptExternal ==> r@ == external@,
        choice == ConflictResolution::ManualMerge ==> r@ == vstd::utf8::encode_utf8(
            merge_step(lossy_utf8(local@), lines_of(lossy_utf8(external@))),
        ),
{
    match choice {
        ConflictResolution::KeepLocal => vstd::slice::slice_to_vec(local),
        ConflictResolution::AcceptExternal => vstd::slice::slice_to_vec(external),
        ConflictResolution::ManualMerge => {
            let local_s = decode_lossy(local);
            let external_s = decode_lossy(external);
            let mut acc = str_to_chars(local_s.as_str());
            let ext_chars = str_to_chars(external_s.as_str());
            let ext_lines = crate::editor::rope::split_lines(&ext_chars);
            let m = ext_lines.len();
            let ghost ls = lines_of(lossy_utf8(external@));
            let mut k: usize = 0;
            proof {
                assert(ls.skip(0) =~= ls);
            }
            while k < m
                invariant
                    k <= m,
                    m == ls.len() == ext_lines@.len(),
                    forall|q: int| 0 <= q < m ==> (#[trigger] ext_lines@[q])@ == ls[q],
                    merge_step(lossy_utf8(local@), ls) == merge_step(acc@, ls.skip(k as int)),
                decreases m - k,
            {
                let line = str_to_chars(ext_lines[k].as_str());
                proof {
                    assert(ls.skip(k as int)[0] == ls[k as int]);
                    assert(ls.skip(k as int).skip(1) =~= ls.skip(k as int + 1));
                }
                if !contains_chars(&acc, &line) {
                    let ghost acc0 = acc@;
                    let ln = line.len();
                    let mut w: usize = 0;
                    while w < ln
                        invariant
                            w <= ln,
                            ln == line@.len(),
                            acc@ == acc0 + line@.subrange(0, w as int),
                        decreases ln - w,
                    {
                        acc.push(line[w]);
                        proof {
                            assert(acc@ =~= acc0 + line@.subrange(0, w as int + 1));
                        }
                        w = w + 1;
                    }
                    acc.push('\n');
                    proof {
                        assert(line@.subrange(0, ln as int) =~= line@);
                        assert(acc@ =~= acc0 + line@ + seq!['\n']);
                    }
                }
                k = k + 1;
            }
            proof {
                assert(ls.skip(m as int) =~= Seq::<Seq<char>>::empty());
            }
            let merged = chars_to_string(&acc);
            str_to_bytes(merged.as_str())
        },
    }
}

} // verus!
