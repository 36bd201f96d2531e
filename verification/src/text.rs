//! Character-level tests on market symbols and messages: prefixes,
//! suffixes and substrings, counted in characters.

use vstd::prelude::*;

verus! {

/// `p` is a prefix of `s`.
pub open spec fn is_prefix(p: Seq<char>, s: Seq<char>) -> bool {
    p.len() <= s.len() && s.subrange(0, p.len() as int) == p
}

/// `p` is a suffix of `s`.
pub open spec fn is_suffix(p: Seq<char>, s: Seq<char>) -> bool {
    p.len() <= s.len() && s.subrange(s.len() - p.len(), s.len() as int) == p
}

/// `n` occurs in `s` starting at `i`.
pub open spec fn occurs_at(n: Seq<char>, s: Seq<char>, i: int) -> bool {
    0 <= i && i + n.len() <= s.len() && s.subrange(i, i + n.len()) == n
}

/// `n` occurs somewhere in `s`.
pub open spec fn occurs_in(n: Seq<char>, s: Seq<char>) -> bool {
    exists|i: int| occurs_at(n, s, i)
}

/// Whether the characters of `s` from `start` on begin with those of `n`.
fn matches_at(s: &str, n: &str, start: usize) -> (r: bool)
    requires
        start <= s@.len(),
    ensures
        r == occurs_at(n@, s@, start as int),
{
    let slen = s.unicode_len();
    let nlen = n.unicode_len();
    if nlen > slen - start {
        return false;
    }
    let mut j: usize = 0;
    while j < nlen
        invariant
            slen == s@.len(),
            nlen == n@.len(),
            start + nlen <= slen,
            j <= nlen,
            forall|k: int| 0 <= k < j ==> s@[start + k] == n@[k],
        decreases nlen - j,
    {
        if s.get_char(start + j) != n.get_char(j) {
            proof {
                assert(s@.subrange(start as int, start + nlen)[j as int] != n@[j as int]);
            }
            return false;
        }
        j = j + 1;
    }
    proof {
        assert(s@.subrange(start as int, start + nlen) =~= n@);
    }
    true
}

/// `s.starts_with(p)`.
pub fn starts_with(s: &str, p: &str) -> (r: bool)
    ensures
        r == is_prefix(p@, s@),
{
    matches_at(s, p, 0)
}

/// `s.ends_with(p)`.
pub fn ends_with(s: &str, p: &str) -> (r: bool)
    ensures
        r == is_suffix(p@, s@),
{
    let slen = s.unicode_len();
    let plen = p.unicode_len();
    if plen > slen {
        return false;
    }
    matches_at(s, p, slen - plen)
}

/// `s.strip_prefix(p)`: the rest of `s` when it starts with `p`.
pub fn strip_prefix(s: &str, p: &str) -> (r: Option<String>)
    ensures
        r is Some <==> is_prefix(p@, s@),
        r is Some ==> r->0@ == s@.subrange(p@.len() as int, s@.len() as int),
{
    if starts_with(s, p) {
        let slen = s.unicode_len();
        let plen = p.unicode_len();
        Some(s.substring_char(plen, slen).to_owned())
    } else {
        None
    }
}

/// `s.strip_suffix(p)`: the start of `s` when it ends with `p`.
pub fn strip_suffix(s: &str, p: &str) -> (r: Option<String>)
    ensures
        r is Some <==> is_suffix(p@, s@),
        r is Some ==> r->0@ == s@.subrange(0, s@.len() - p@.len()),
{
    if ends_with(s, p) {
        let slen = s.unicode_len();
        let plen = p.unicode_len();
        Some(s.substring_char(0, slen - plen).to_owned())
    } else {
        None
    }
}

/// `s.contains(n)`.
pub fn contains(s: &str, n: &str) -> (r: bool)
    ensures
        r == occurs_in(n@, s@),
{
    let slen = s.unicode_len();
    let nlen = n.unicode_len();
    if nlen > slen {
        return false;
    }
    if nlen == 0 {
        proof {
            assert(s@.subrange(0, 0) =~= n@);
            assert(occurs_at(n@, s@, 0));
        }
        return true;
    }
    let last = slen - nlen;
    let mut i: usize = 0;
    while i <= last
        invariant
            slen == s@.len(),
            nlen == n@.len(),
            last == slen - nlen,
            0 < nlen,
            i <= last + 1,
            forall|k: int| 0 <= k < i ==> !occurs_at(n@, s@, k),
        decreases last + 1 - i,
    {
        if matches_at(s, n, i) {
            return true;
        }
        i = i + 1;
    }
    proof {
        assert forall|k: int| !occurs_at(n@, s@, k) by {
            if 0 <= k && k + nlen <= slen {
                assert(k < i);
            }
        }
    }
    false
}

} // verus!
