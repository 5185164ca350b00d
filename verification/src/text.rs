//! Verified helpers over strings: trimming, equality, lexicographic order,
//! and membership in vectors of strings.

use vstd::prelude::*;
use vstd::string::*;

verus! {

/// The whitespace characters that trimming removes.
pub open spec fn is_space(c: char) -> bool {
    c == ' ' || c == '\t' || c == '\n' || c == '\r'
}

/// `s` with every leading and trailing whitespace character removed.
pub open spec fn trimmed(s: Seq<char>) -> Seq<char>
    decreases s.len(),
{
    if s.len() > 0 && is_space(s[0]) {
        trimmed(s.drop_first())
    } else if s.len() > 0 && is_space(s.last()) {
        trimmed(s.drop_last())
    } else {
        s
    }
}

/// The views of the strings in `v`.
pub open spec fn str_views(v: Seq<String>) -> Seq<Seq<char>> {
    v.map_values(|s: String| s@)
}

/// No two elements of `s` are equal.
pub open spec fn distinct_seq(s: Seq<Seq<char>>) -> bool {
    forall|i: int, j: int| 0 <= i < j < s.len() ==> s[i] != s[j]
}

/// Strict lexicographic order on the suffixes of `a` and `b` that start at
/// position `i`, comparing characters by scalar value.
pub open spec fn lex_lt_from(a: Seq<char>, b: Seq<char>, i: int) -> bool
    decreases b.len() - i,
{
    if i >= b.len() {
        false
    } else if i >= a.len() {
        true
    } else if a[i] != b[i] {
        (a[i] as u32) < (b[i] as u32)
    } else {
        lex_lt_from(a, b, i + 1)
    }
}

/// Strict lexicographic order on character sequences: a proper prefix comes
/// first, otherwise the first differing character decides.
pub open spec fn lex_lt(a: Seq<char>, b: Seq<char>) -> bool {
    lex_lt_from(a, b, 0)
}

fn is_space_char(c: char) -> (b: bool)
    ensures
        b == is_space(c),
{
    c == ' ' || c == '\t' || c == '\n' || c == '\r'
}

/// Removes leading and trailing whitespace from `s`.
pub fn trim(s: &str) -> (r: &str)
    ensures
        r@ == trimmed(s@),
{
    let mut t: &str = s;
    loop
        invariant
            trimmed(t@) == trimmed(s@),
        ensures
            t@ == trimmed(s@),
        decreases t@.len(),
    {
        let n = t.unicode_len();
        if n > 0 && is_space_char(t.get_char(0)) {
            t = t.substring_char(1, n);
        } else if n > 0 && is_space_char(t.get_char(n - 1)) {
            t = t.substring_char(0, n - 1);
        } else {
            break;
        }
    }
    t
}

/// Character-for-character equality of two string slices.
pub fn str_eq(a: &str, b: &str) -> (r: bool)
    ensures
        r == (a@ == b@),
{
    let n = a.unicode_len();
    let m = b.unicode_len();
    if n != m {
        return false;
    }
    let mut i: usize = 0;
    while i < n
        invariant
            i <= n,
            n == a@.len(),
            n == b@.len(),
            forall|j: int| 0 <= j < i ==> a@[j] == b@[j],
        decreases n - i,
    {
        if a.get_char(i) != b.get_char(i) {
            return false;
        }
        i += 1;
    }
    proof {
        assert(a@ =~= b@);
    }
    true
}

/// Whether some string in `v` has the same characters as `x`.
pub fn contains_str(v: &Vec<String>, x: &str) -> (r: bool)
    ensures
        r == str_views(v@).contains(x@),
{
    let mut i: usize = 0;
    while i < v.len()
        invariant
            i <= v.len(),
            forall|j: int| 0 <= j < i ==> v@[j]@ != x@,
        decreases v.len() - i,
    {
        if str_eq(v[i].as_str(), x) {
            proof {
                assert(str_views(v@)[i as int] == x@);
            }
            return true;
        }
        i += 1;
    }
    proof {
        assert forall|k: int| 0 <= k < str_views(v@).len() implies str_views(v@)[k] != x@ by {
            assert(v@[k]@ != x@);
        }
    }
    false
}

/// Whether `a` precedes `b` in strict lexicographic order.
pub fn str_lex_lt(a: &str, b: &str) -> (r: bool)
    ensures
        r == lex_lt(a@, b@),
{
    let n = a.unicode_len();
    let m = b.unicode_len();
    let mut i: usize = 0;
    while i < n && i < m
        invariant
            i <= n,
            i <= m,
            n == a@.len(),
            m == b@.len(),
            lex_lt(a@, b@) == lex_lt_from(a@, b@, i as int),
        decreases n - i,
    {
        let ca = a.get_char(i);
        let cb = b.get_char(i);
        if ca != cb {
            return (ca as u32) < (cb as u32);
        }
        i += 1;
    }
    n < m
}

} // verus!
