//! Small operations on text, over the character sequences that `String`s view as.

use vstd::prelude::*;
use vstd::string::{StrSliceExecFns, StringExecFns};

verus! {

/// Splits `s` at the first occurrence of `c`, or gives `None` where `s`
/// holds none.
pub(crate) fn split_once_char(s: &str, c: char) -> (r: Option<(String, String)>)
    ensures
        r is None <==> !s@.contains(c),
        r matches Some((a, b)) ==> s@ == a@ + seq![c] + b@ && !a@.contains(c),
{
    let n = s.unicode_len();
    let mut i: usize = 0;
    while i < n
        invariant
            n == s@.len(),
            i <= n,
            forall|j: int| 0 <= j < i ==> s@[j] != c,
        decreases n - i,
    {
        if s.get_char(i) == c {
            let a = s.substring_char(0, i).to_owned();
            let b = s.substring_char(i + 1, n).to_owned();
            assert(s@ =~= a@ + seq![c] + b@);
            return Some((a, b));
        }
        i = i + 1;
    }
    None
}

/// Whether `s` holds `p` from index `at` on.
fn holds_at(s: &str, p: &str, at: usize) -> (r: bool)
    requires
        at + p@.len() <= s@.len(),
    ensures
        r == (s@.subrange(at as int, at + p@.len()) == p@),
{
    let ns = s.unicode_len();
    let np = p.unicode_len();
    let mut j: usize = 0;
    while j < np
        invariant
            ns == s@.len(),
            np == p@.len(),
            at + np <= s@.len(),
            j <= np,
            forall|k: int| 0 <= k < j ==> s@[at + k] == p@[k],
        decreases np - j,
    {
        if s.get_char(at + j) != p.get_char(j) {
            assert(s@.subrange(at as int, at + p@.len())[j as int] != p@[j as int]);
            return false;
        }
        j = j + 1;
    }
    assert(s@.subrange(at as int, at + p@.len()) =~= p@);
    true
}

/// What follows `p` where `s` starts with it.
pub(crate) fn strip_prefix(s: &str, p: &str) -> (r: Option<String>)
    ensures
        r is Some <==> p@.is_prefix_of(s@),
        r matches Some(t) ==> s@ == p@ + t@,
{
    let n = s.unicode_len();
    let np = p.unicode_len();
    if np > n || !holds_at(s, p, 0) {
        return None;
    }
    let t = s.substring_char(np, n).to_owned();
    assert(s@ =~= p@ + t@);
    Some(t)
}

/// What precedes `p` where `s` ends with it.
pub(crate) fn strip_suffix(s: &str, p: &str) -> (r: Option<String>)
    ensures
        r is Some <==> p@.is_suffix_of(s@),
        r matches Some(t) ==> s@ == t@ + p@,
{
    let n = s.unicode_len();
    let np = p.unicode_len();
    if np > n || !holds_at(s, p, n - np) {
        return None;
    }
    let t = s.substring_char(0, n - np).to_owned();
    assert(s@ =~= t@ + p@);
    Some(t)
}

/// Joins two pieces of text.
pub(crate) fn join(a: &str, b: &str) -> (r: String)
    ensures
        r@ == a@ + b@,
{
    let s = a.to_owned();
    s.concat(b)
}

} // verus!
