//! Character-level text scanning: substring occurrence, first-occurrence
//! search, and string equality, shared by the ranking parser and the
//! attachment handling.

use vstd::prelude::*;

verus! {

/// `pat` occurs in `s` starting at position `i`.
pub open spec fn occurs_at(s: Seq<char>, pat: Seq<char>, i: int) -> bool {
    0 <= i && i + pat.len() <= s.len() && s.subrange(i, i + pat.len()) == pat
}

/// The position of the first occurrence of `pat` in `s` at or after `i`, or
/// -1 when there is none.
pub open spec fn find_pat_from(s: Seq<char>, pat: Seq<char>, i: int) -> int
    decreases s.len() - i,
{
    if i < 0 || i >= s.len() || i + pat.len() > s.len() {
        -1
    } else if occurs_at(s, pat, i) {
        i
    } else {
        find_pat_from(s, pat, i + 1)
    }
}

/// A found occurrence lies at or after the search start, and the pattern
/// does occur there.
pub proof fn lemma_find_pat_from_props(s: Seq<char>, pat: Seq<char>, i: int)
    ensures
        find_pat_from(s, pat, i) >= 0 ==> i <= find_pat_from(s, pat, i) && occurs_at(
            s,
            pat,
            find_pat_from(s, pat, i),
        ),
    decreases s.len() - i,
{
    if i < 0 || i >= s.len() || i + pat.len() > s.len() {
    } else if occurs_at(s, pat, i) {
    } else {
        lemma_find_pat_from_props(s, pat, i + 1);
    }
}

/// Whether `pat` occurs in `text` at character position `i`.
pub fn matches_at(text: &str, i: usize, pat: &str) -> (r: bool)
    requires
        i + pat@.len() <= text@.len(),
    ensures
        r <==> occurs_at(text@, pat@, i as int),
{
    let text_len = text.unicode_len();
    let pat_len = pat.unicode_len();
    let mut k: usize = 0;
    while k < pat_len
        invariant
            k <= pat_len,
            pat_len == pat@.len(),
            text_len == text@.len(),
            i + pat@.len() <= text@.len(),
            forall|t: int| 0 <= t < k ==> text@[i + t] == pat@[t],
        decreases pat_len - k,
    {
        if text.get_char(i + k) != pat.get_char(k) {
            proof {
                assert(text@.subrange(i as int, i as int + pat@.len()) != pat@) by {
                    assert(text@.subrange(i as int, i as int + pat@.len())[k as int] == text@[i
                        + k]);
                }
            }
            return false;
        }
        k = k + 1;
    }
    proof {
        assert(text@.subrange(i as int, i as int + pat@.len()) =~= pat@);
    }
    true
}

/// The position of the first occurrence of `pat` in `text` at or after
/// `from`, if any.
pub fn find_pat(text: &str, pat: &str, from: usize) -> (r: Option<usize>)
    requires
        pat@.len() > 0,
    ensures
        match r {
            Option::Some(m) => find_pat_from(text@, pat@, from as int) == m as int,
            Option::None => find_pat_from(text@, pat@, from as int) == -1,
        },
{
    let n = text.unicode_len();
    let pat_len = pat.unicode_len();
    if from >= n || n < pat_len || from > n - pat_len {
        return None;
    }
    let mut i: usize = from;
    while i <= n - pat_len
        invariant
            n == text@.len(),
            pat_len == pat@.len(),
            1 <= pat_len <= n,
            from <= i <= n - pat_len + 1,
            find_pat_from(text@, pat@, from as int) == find_pat_from(text@, pat@, i as int),
        decreases n - i,
    {
        if matches_at(text, i, pat) {
            return Some(i);
        }
        i = i + 1;
    }
    None
}

/// Whether the two strings hold the same characters.
pub fn str_eq(a: &str, b: &str) -> (r: bool)
    ensures
        r <==> a@ == b@,
{
    let na = a.unicode_len();
    let nb = b.unicode_len();
    if na != nb {
        proof {
            assert(a@ != b@) by {
                assert(a@.len() != b@.len());
            }
        }
        return false;
    }
    let r = matches_at(a, 0, b);
    proof {
        if r {
            assert(a@.subrange(0, b@.len() as int) =~= a@);
        } else {
            assert(a@.subrange(0, b@.len() as int) =~= a@);
        }
    }
    r
}

/// Whether `text` starts with `pat`.
pub fn starts_with(text: &str, pat: &str) -> (r: bool)
    ensures
        r <==> occurs_at(text@, pat@, 0),
{
    let n = text.unicode_len();
    let pat_len = pat.unicode_len();
    if pat_len > n {
        return false;
    }
    matches_at(text, 0, pat)
}

} // verus!
