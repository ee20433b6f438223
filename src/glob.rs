//! Glob patterns over relative paths with `/` separators: `*` and `?` stay within
//! one path component, `**` crosses components, and `**/` may also match nothing.

use vstd::prelude::*;
use vstd::string::*;

verus! {

/// Whether `s[j..]` matches `p[i..]`.
pub open spec fn glob_from(p: Seq<char>, i: int, s: Seq<char>, j: int) -> bool
    decreases (p.len() - i) + (s.len() - j),
{
    if i < 0 || j < 0 || i > p.len() || j > s.len() {
        false
    } else if i == p.len() {
        j == s.len()
    } else if p[i] == '*' && i + 1 < p.len() && p[i + 1] == '*' {
        glob_from(p, i + 2, s, j)
            || (i + 2 < p.len() && p[i + 2] == '/' && glob_from(p, i + 3, s, j))
            || (j < s.len() && glob_from(p, i, s, j + 1))
    } else if p[i] == '*' {
        glob_from(p, i + 1, s, j) || (j < s.len() && s[j] != '/' && glob_from(p, i, s, j + 1))
    } else if p[i] == '?' {
        j < s.len() && s[j] != '/' && glob_from(p, i + 1, s, j + 1)
    } else {
        j < s.len() && s[j] == p[i] && glob_from(p, i + 1, s, j + 1)
    }
}

/// Whether the whole path `s` matches the pattern `p`.
pub open spec fn glob_match(p: Seq<char>, s: Seq<char>) -> bool {
    glob_from(p, 0, s, 0)
}

/// Whether the character is a wildcard.
pub open spec fn is_wild(c: char) -> bool {
    c == '*' || c == '?'
}

/// The length of the literal prefix of `p` up to its first wildcard.
pub open spec fn literal_len(p: Seq<char>) -> nat
    decreases p.len(),
{
    if p.len() == 0 {
        0
    } else if is_wild(p.last()) {
        literal_len(p.drop_last())
    } else if literal_len(p.drop_last()) == p.len() - 1 {
        p.len()
    } else {
        literal_len(p.drop_last())
    }
}

/// The length of `p[..k]` up to and including its last `/` (0 when it has none).
pub open spec fn dir_prefix_len(p: Seq<char>, k: int) -> nat
    decreases k,
{
    if k <= 0 || k > p.len() {
        0
    } else if p[k - 1] == '/' {
        k as nat
    } else {
        dir_prefix_len(p, k - 1)
    }
}

/// The length of a pattern's match root: the directories before its first wildcard.
/// A path that the pattern matches keeps, below the destination, what follows it.
pub open spec fn match_root_len(p: Seq<char>) -> nat {
    dir_prefix_len(p, literal_len(p) as int)
}

/// The characters of a string.
pub fn chars_of(s: &str) -> (r: Vec<char>)
    ensures
        r@ == s@,
{
    let n = s.unicode_len();
    let mut r: Vec<char> = Vec::new();
    let mut i: usize = 0;
    while i < n
        invariant
            n == s@.len(),
            i <= n,
            r@ == s@.subrange(0, i as int),
        decreases n - i,
    {
        r.push(s.get_char(i));
        assert(r@ =~= s@.subrange(0, i + 1));
        i = i + 1;
    }
    assert(r@ =~= s@);
    r
}

fn glob_at(p: &Vec<char>, i: usize, s: &Vec<char>, j: usize) -> (r: bool)
    requires
        i <= p@.len(),
        j <= s@.len(),
    ensures
        r == glob_from(p@, i as int, s@, j as int),
    decreases (p@.len() - i) + (s@.len() - j),
{
    let pn = p.len();
    let sn = s.len();
    if i == pn {
        j == sn
    } else if p[i] == '*' && i + 1 < pn && p[i + 1] == '*' {
        if glob_at(p, i + 2, s, j) {
            true
        } else if i + 2 < pn && p[i + 2] == '/' && glob_at(p, i + 3, s, j) {
            true
        } else {
            j < sn && glob_at(p, i, s, j + 1)
        }
    } else if p[i] == '*' {
        if glob_at(p, i + 1, s, j) {
            true
        } else {
            j < sn && s[j] != '/' && glob_at(p, i, s, j + 1)
        }
    } else if p[i] == '?' {
        j < sn && s[j] != '/' && glob_at(p, i + 1, s, j + 1)
    } else {
        j < sn && s[j] == p[i] && glob_at(p, i + 1, s, j + 1)
    }
}

/// Whether `path` matches `pattern`.
pub fn glob_matches(pattern: &str, path: &str) -> (r: bool)
    ensures
        r == glob_match(pattern@, path@),
{
    let p = chars_of(pattern);
    let s = chars_of(path);
    glob_at(&p, 0, &s, 0)
}

/// The length of `pattern`'s match root (see `match_root_len`).
pub fn match_root(pattern: &str) -> (r: usize)
    ensures
        r == match_root_len(pattern@),
        r <= pattern@.len(),
{
    let p = chars_of(pattern);
    let n = p.len();
    let mut k: usize = 0;
    while k < n && !(p[k] == '*' || p[k] == '?')
        invariant
            n == p@.len(),
            k <= n,
            forall|m: int| 0 <= m < k ==> !is_wild(p@[m]),
        decreases n - k,
    {
        k = k + 1;
    }
    proof {
        lemma_literal_len(p@, k as int);
    }
    let mut d: usize = k;
    while d > 0 && p[d - 1] != '/'
        invariant
            n == p@.len(),
            d <= k <= n,
            dir_prefix_len(p@, k as int) == dir_prefix_len(p@, d as int),
        decreases d,
    {
        d = d - 1;
    }
    proof {
        lemma_dir_prefix_le(p@, k as int);
    }
    d
}

proof fn lemma_literal_len(p: Seq<char>, k: int)
    requires
        0 <= k <= p.len(),
        forall|m: int| 0 <= m < k ==> !is_wild(p[m]),
        k < p.len() ==> is_wild(p[k]),
    ensures
        literal_len(p) == k,
    decreases p.len(),
{
    if p.len() > 0 {
        let q = p.drop_last();
        if k == p.len() {
            lemma_literal_len(q, k - 1);
        } else {
            lemma_literal_len(q, k);
        }
    }
}

proof fn lemma_dir_prefix_le(p: Seq<char>, k: int)
    ensures
        dir_prefix_len(p, k) <= if k < 0 { 0 } else { k },
    decreases k,
{
    if k > 0 && k <= p.len() && p[k - 1] != '/' {
        lemma_dir_prefix_le(p, k - 1);
    }
}

} // verus!
