//! Path input checks that guard against traversal and control characters.

use vstd::prelude::*;

verus! {

use crate::error::GhostwriterError;

/// Whether the character separates path components.
pub open spec fn is_sep(c: char) -> bool {
    c == '/' || c == '\\'
}

/// Whether a whole path component at position `k` is exactly `..`.
pub open spec fn dotdot_component_at(s: Seq<char>, k: int) -> bool {
    &&& 0 <= k && k + 1 < s.len()
    &&& s[k] == '.' && s[k + 1] == '.'
    &&& (k == 0 || is_sep(s[k - 1]))
    &&& (k + 2 == s.len() || is_sep(s[k + 2]))
}

/// Whether the path holds a character the sanitizer rejects.
pub open spec fn has_forbidden_char(s: Seq<char>) -> bool {
    exists|i: int|
        0 <= i < s.len() && ((#[trigger] s[i]) == '\0' || s[i] == '\n' || s[i] == '\r' || s[i]
            == '\t')
}

/// Whether the path is accepted: non-empty, free of control characters, and
/// with no `..` component.
pub open spec fn path_ok(s: Seq<char>) -> bool {
    &&& s.len() > 0
    &&& !has_forbidden_char(s)
    &&& !(exists|k: int| dotdot_component_at(s, k))
}

/// Check a path input: rejects empty paths, control characters, and any
/// `..` component, which would escape the workspace.
pub fn sanitize_path(path: &str) -> (r: Result<(), GhostwriterError>)
    ensures
        r is Ok <==> path_ok(path@),
{
    let chars = crate::strutil::str_to_chars(path);
    let n = chars.len();
    if n == 0 {
        let m = "empty path";
        return Err(GhostwriterError::InvalidArgument(m.to_owned()));
    }
    let mut i: usize = 0;
    while i < n
        invariant
            i <= n,
            n == chars@.len(),
            chars@ == path@,
            forall|q: int|
                0 <= q < i ==> !((#[trigger] chars@[q]) == '\0' || chars@[q] == '\n' || chars@[q]
                    == '\r' || chars@[q] == '\t'),
        decreases n - i,
    {
        let c = chars[i];
        if c == '\0' || c == '\n' || c == '\r' || c == '\t' {
            let m = "invalid characters";
            return Err(GhostwriterError::InvalidArgument(m.to_owned()));
        }
        i = i + 1;
    }
    let mut k: usize = 0;
    while n >= 2 && k < n - 1
        invariant
            k <= n,
            n == chars@.len(),
            n > 0,
            chars@ == path@,
            forall|q: int| 0 <= q < k ==> !dotdot_component_at(path@, q),
        decreases n - k,
    {
        let start_ok = k == 0 || chars[k - 1] == '/' || chars[k - 1] == '\\';
        let end_ok = k + 2 == n || chars[k + 2] == '/' || chars[k + 2] == '\\';
        if chars[k] == '.' && chars[k + 1] == '.' && start_ok && end_ok {
            proof {
                assert(dotdot_component_at(path@, k as int));
            }
            let m = "path traversal detected";
            return Err(GhostwriterError::InvalidArgument(m.to_owned()));
        }
        k = k + 1;
    }
    proof {
        assert(forall|q: int| dotdot_component_at(path@, q) ==> 0 <= q && q + 1 < n);
        assert(!(exists|q: int| dotdot_component_at(path@, q)));
    }
    Ok(())
}

} // verus!
