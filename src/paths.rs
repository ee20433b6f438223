//! Relative paths and whether they stay below the directory they are relative to.
//! `/` always separates components; a host may have a second separator.

use vstd::prelude::*;
use vstd::string::*;

verus! {

/// Whether `c` separates path components, where `sep` is the host's separator
/// (`/` on Unix, `\` on Windows).
pub open spec fn is_separator(c: char, sep: char) -> bool {
    c == '/' || c == sep
}

/// Whether a `..` component starts at position `k`.
pub open spec fn parent_at(d: Seq<char>, k: int, sep: char) -> bool {
    0 <= k && k + 1 < d.len() && (k == 0 || is_separator(d[k - 1], sep)) && d[k] == '.' && d[k + 1] == '.'
        && (k + 2 == d.len() || is_separator(d[k + 2], sep))
}

/// Whether a relative path would leave the directory it is relative to: it starts
/// with a separator, or has a `..` component.
pub open spec fn escapes_root(d: Seq<char>, sep: char) -> bool {
    (d.len() > 0 && is_separator(d[0], sep)) || exists|k: int| parent_at(d, k, sep)
}

/// Whether `d` would leave the directory it is relative to (see `escapes_root`).
pub fn escapes(d: &str, sep: char) -> (r: bool)
    ensures
        r == escapes_root(d@, sep),
{
    let n = d.unicode_len();
    if n > 0 && (d.get_char(0) == '/' || d.get_char(0) == sep) {
        return true;
    }
    let mut k: usize = 0;
    while n > 0 && k < n - 1
        invariant
            n == d@.len(),
            k <= n,
            !(n > 0 && is_separator(d@[0], sep)),
            forall|m: int| 0 <= m < k ==> !parent_at(d@, m, sep),
        decreases n - k,
    {
        let before_ok = k == 0 || d.get_char(k - 1) == '/' || d.get_char(k - 1) == sep;
        let after_ok = k + 2 == n || d.get_char(k + 2) == '/' || d.get_char(k + 2) == sep;
        if before_ok && d.get_char(k) == '.' && d.get_char(k + 1) == '.' && after_ok {
            assert(parent_at(d@, k as int, sep));
            return true;
        }
        k = k + 1;
    }
    assert forall|m: int| !parent_at(d@, m, sep) by {
        if 0 <= m && m >= k {
            assert(!(m + 1 < n));
        }
    }
    false
}

} // verus!
