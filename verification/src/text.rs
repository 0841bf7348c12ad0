//! Verified character-level string helpers.

use vstd::prelude::*;

verus! {

/// True when `s` ends in `suffix`.
pub open spec fn spec_ends_with(s: Seq<char>, suffix: Seq<char>) -> bool {
    suffix.len() <= s.len() && s.skip(s.len() - suffix.len()) == suffix
}

/// Character-by-character string equality.
pub fn str_eq(a: &str, b: &str) -> (r: bool)
    ensures
        r == (a@ == b@),
{
    let a_len = a.unicode_len();
    let b_len = b.unicode_len();
    if a_len != b_len {
        return false;
    }
    let mut i: usize = 0;
    while i < a_len
        invariant
            i <= a_len,
            a_len == a@.len(),
            a_len == b@.len(),
            forall|j: int| 0 <= j < i ==> a@[j] == b@[j],
        decreases a_len - i,
    {
        if a.get_char(i) != b.get_char(i) {
            return false;
        }
        i = i + 1;
    }
    assert(a@ =~= b@);
    true
}

/// True when `pat` occurs contiguously inside `s`.
pub open spec fn spec_contains(s: Seq<char>, pat: Seq<char>) -> bool {
    exists|i: int| 0 <= i <= s.len() - pat.len() && #[trigger] s.subrange(i, i + pat.len()) == pat
}

/// Character-by-character substring search.
pub fn str_contains(s: &str, pat: &str) -> (r: bool)
    ensures
        r == spec_contains(s@, pat@),
{
    let s_len = s.unicode_len();
    let p_len = pat.unicode_len();
    if p_len > s_len {
        return false;
    }
    if p_len == 0 {
        assert(s@.subrange(0, 0 + pat@.len() as int) =~= pat@);
        return true;
    }
    let mut i: usize = 0;
    while i <= s_len - p_len
        invariant
            0 <= i <= s_len - p_len + 1,
            0 < p_len <= s_len,
            s_len == s@.len(),
            p_len == pat@.len(),
            forall|x: int| 0 <= x < i ==> #[trigger] s@.subrange(x, x + pat@.len()) != pat@,
        decreases s_len - i,
    {
        let mut k: usize = 0;
        let mut hit = true;
        while hit && k < p_len
            invariant
                0 <= k <= p_len,
                i + p_len <= s_len,
                s_len == s@.len(),
                p_len == pat@.len(),
                hit ==> forall|y: int| 0 <= y < k ==> s@[i + y] == pat@[y],
                !hit ==> s@.subrange(i as int, i + pat@.len()) != pat@,
            decreases p_len - k + if hit {
                1int
            } else {
                0int
            },
        {
            if s.get_char(i + k) != pat.get_char(k) {
                proof {
                    assert(s@.subrange(i as int, i + pat@.len())[k as int] != pat@[k as int]);
                }
                hit = false;
            } else {
                k = k + 1;
            }
        }
        if hit {
            assert(s@.subrange(i as int, i + pat@.len()) =~= pat@);
            return true;
        }
        i = i + 1;
    }
    false
}

/// Character-by-character trailing match.
pub fn str_ends_with(s: &str, suffix: &str) -> (r: bool)
    ensures
        r == spec_ends_with(s@, suffix@),
{
    let s_len = s.unicode_len();
    let n = suffix.unicode_len();
    if n > s_len {
        return false;
    }
    let start = s_len - n;
    let mut i: usize = 0;
    while i < n
        invariant
            i <= n,
            n <= s_len,
            start == s_len - n,
            s_len == s@.len(),
            n == suffix@.len(),
            forall|j: int| 0 <= j < i ==> s@[start + j] == suffix@[j],
        decreases n - i,
    {
        if s.get_char(start + i) != suffix.get_char(i) {
            assert(s@.skip(s@.len() - suffix@.len())[i as int] != suffix@[i as int]);
            return false;
        }
        i = i + 1;
    }
    assert(s@.skip(s@.len() - suffix@.len()) =~= suffix@);
    true
}

} // verus!
