//! Substring search over character sequences: the specification of "pattern
//! occurs at position i", leftmost-match search, and an executable scanner
//! proved against it.  The section editor locates its begin/end markers with
//! these functions.

use vstd::prelude::*;

verus! {

/// `pat` occurs in `s` starting at position `i`.
pub open spec fn match_at(s: Seq<char>, pat: Seq<char>, i: int) -> bool {
    0 <= i && i + pat.len() <= s.len() && s.subrange(i, i + pat.len() as int) == pat
}

/// `pat` occurs somewhere in `s`.
pub open spec fn contains_seq(s: Seq<char>, pat: Seq<char>) -> bool {
    exists|i: int| match_at(s, pat, i)
}

/// The leftmost position at or after `i` where `pat` matches in `s`.
pub open spec fn find_from(s: Seq<char>, pat: Seq<char>, i: int) -> Option<int>
    decreases s.len() + 1 - i,
{
    if i + pat.len() > s.len() {
        None
    } else if match_at(s, pat, i) {
        Some(i)
    } else {
        find_from(s, pat, i + 1)
    }
}

/// The leftmost position where `pat` matches in `s`.
pub open spec fn find_first(s: Seq<char>, pat: Seq<char>) -> Option<int> {
    find_from(s, pat, 0)
}

/// A successful search returns the leftmost match at or after the start.
pub proof fn lemma_find_from_some(s: Seq<char>, pat: Seq<char>, i: int, k: int)
    requires
        0 <= i,
        find_from(s, pat, i) == Some(k),
    ensures
        i <= k,
        match_at(s, pat, k),
        forall|j: int| i <= j < k ==> !match_at(s, pat, j),
    decreases s.len() + 1 - i,
{
    if i + pat.len() > s.len() {
    } else if match_at(s, pat, i) {
    } else {
        lemma_find_from_some(s, pat, i + 1, k);
    }
}

/// A failed search means no match anywhere at or after the start.
pub proof fn lemma_find_from_none(s: Seq<char>, pat: Seq<char>, i: int)
    requires
        0 <= i,
        find_from(s, pat, i) is None,
    ensures
        forall|j: int| i <= j ==> !match_at(s, pat, j),
    decreases s.len() + 1 - i,
{
    if i + pat.len() > s.len() {
        assert forall|j: int| i <= j implies !match_at(s, pat, j) by {
            assert(j + pat.len() > s.len());
        }
    } else if match_at(s, pat, i) {
    } else {
        lemma_find_from_none(s, pat, i + 1);
    }
}

/// Conversely: a match at `k` with none before it is what the search finds.
pub proof fn lemma_find_from_of_first(s: Seq<char>, pat: Seq<char>, i: int, k: int)
    requires
        0 <= i <= k,
        match_at(s, pat, k),
        forall|j: int| i <= j < k ==> !match_at(s, pat, j),
    ensures
        find_from(s, pat, i) == Some(k),
    decreases s.len() + 1 - i,
{
    if i == k {
    } else {
        lemma_find_from_of_first(s, pat, i + 1, k);
    }
}

/// No match at or after `i` means the search fails.
pub proof fn lemma_find_from_of_no_match(s: Seq<char>, pat: Seq<char>, i: int)
    requires
        0 <= i,
        forall|j: int| i <= j ==> !match_at(s, pat, j),
    ensures
        find_from(s, pat, i) is None,
    decreases s.len() + 1 - i,
{
    if i + pat.len() > s.len() {
    } else {
        lemma_find_from_of_no_match(s, pat, i + 1);
    }
}

/// Executable leftmost search for `pat` in `s`, starting at `from`.
pub fn find_sub_from(s: &str, pat: &str, from: usize) -> (r: Option<usize>)
    requires
        from <= s@.len(),
    ensures
        r is Some ==> find_from(s@, pat@, from as int) == Some(r->0 as int),
        r is None ==> find_from(s@, pat@, from as int) is None,
{
    let n = s.unicode_len();
    let m = pat.unicode_len();
    if m > n {
        proof {
            assert forall|j: int| from <= j implies !match_at(s@, pat@, j) by {
                assert(j + pat@.len() > s@.len());
            }
            lemma_find_from_of_no_match(s@, pat@, from as int);
        }
        return None;
    }
    let limit = n - m;
    let mut i = from;
    while i <= limit
        invariant
            from <= i,
            i <= n,
            limit == n - m,
            m <= n,
            n == s@.len(),
            m == pat@.len(),
            forall|j: int| from <= j < i ==> !match_at(s@, pat@, j),
        decreases n - i,
    {
        let mut j: usize = 0;
        let mut mismatch = false;
        while j < m && !mismatch
            invariant
                0 <= j <= m,
                i <= limit,
                limit == n - m,
                m <= n,
                n == s@.len(),
                m == pat@.len(),
                !mismatch ==> forall|t: int| 0 <= t < j ==> s@[i + t] == pat@[t],
                mismatch ==> !match_at(s@, pat@, i as int),
                mismatch ==> m > 0,
            decreases m - j + (if mismatch { 0int } else { 1int }),
        {
            let sc = s.get_char(i + j);
            let pc = pat.get_char(j);
            if sc == pc {
                j = j + 1;
            } else {
                proof {
                    if match_at(s@, pat@, i as int) {
                        assert(s@.subrange(i as int, i + m as int)[j as int] == pat@[j as int]);
                    }
                }
                mismatch = true;
            }
        }
        if !mismatch {
            proof {
                assert(s@.subrange(i as int, i + m as int) =~= pat@);
                lemma_find_from_of_first(s@, pat@, from as int, i as int);
            }
            return Some(i);
        }
        i = i + 1;
    }
    proof {
        assert forall|j: int| from <= j implies !match_at(s@, pat@, j) by {
            if j < i {
            } else {
                assert(j + pat@.len() > s@.len());
            }
        }
        lemma_find_from_of_no_match(s@, pat@, from as int);
    }
    None
}

/// Executable leftmost search from the start of `s`.
pub fn find_sub(s: &str, pat: &str) -> (r: Option<usize>)
    ensures
        r is Some ==> find_first(s@, pat@) == Some(r->0 as int),
        r is None ==> find_first(s@, pat@) is None,
{
    find_sub_from(s, pat, 0)
}

/// A found position witnesses containment; a failed search refutes it.
pub proof fn lemma_find_first_contains(s: Seq<char>, pat: Seq<char>)
    ensures
        find_first(s, pat) is Some <==> contains_seq(s, pat),
{
    match find_first(s, pat) {
        Some(k) => {
            lemma_find_from_some(s, pat, 0, k);
        },
        None => {
            lemma_find_from_none(s, pat, 0);
            assert forall|i: int| !match_at(s, pat, i) by {
                if i >= 0 {
                    assert(!match_at(s, pat, i));
                }
            }
        },
    }
}

/// Executable containment test.
pub fn str_contains_sub(s: &str, pat: &str) -> (r: bool)
    ensures
        r == contains_seq(s@, pat@),
{
    proof {
        lemma_find_first_contains(s@, pat@);
    }
    match find_sub(s, pat) {
        Some(_) => true,
        None => false,
    }
}

/// No character of `pat` is a newline.
pub open spec fn no_newline(pat: Seq<char>) -> bool {
    forall|i: int| 0 <= i < pat.len() ==> pat[i] != '\n'
}

/// A match inside the right part of a concatenation, shifted.
pub proof fn lemma_match_at_concat_right(u: Seq<char>, v: Seq<char>, pat: Seq<char>, j: int)
    requires
        0 <= j,
    ensures
        match_at(v, pat, j) <==> match_at(u + v, pat, u.len() + j),
{
    if match_at(v, pat, j) {
        assert((u + v).subrange(u.len() + j, u.len() + j + pat.len() as int) =~= v.subrange(
            j,
            j + pat.len() as int,
        ));
    }
    if match_at(u + v, pat, u.len() + j) {
        assert(v.subrange(j, j + pat.len() as int) =~= (u + v).subrange(
            u.len() + j,
            u.len() + j + pat.len() as int,
        ));
    }
}

/// A match wholly inside the left part of a concatenation.
pub proof fn lemma_match_at_prefix(u: Seq<char>, v: Seq<char>, pat: Seq<char>, i: int)
    requires
        0 <= i,
        i + pat.len() <= u.len(),
    ensures
        match_at(u + v, pat, i) <==> match_at(u, pat, i),
{
    assert((u + v).subrange(i, i + pat.len() as int) =~= u.subrange(i, i + pat.len() as int));
}

/// A match wholly inside a prefix of `s`.
pub proof fn lemma_match_at_take(s: Seq<char>, k: int, pat: Seq<char>, i: int)
    requires
        0 <= i,
        i + pat.len() <= k <= s.len(),
    ensures
        match_at(s.take(k), pat, i) <==> match_at(s, pat, i),
{
    assert(s.take(k).subrange(i, i + pat.len() as int) =~= s.subrange(i, i + pat.len() as int));
}

/// A newline-free pattern cannot straddle a boundary whose left side ends
/// in a newline.
pub proof fn lemma_no_cross(u: Seq<char>, v: Seq<char>, pat: Seq<char>, i: int)
    requires
        no_newline(pat),
        u.len() > 0,
        u.last() == '\n',
        i < u.len(),
        i + pat.len() > u.len(),
    ensures
        !match_at(u + v, pat, i),
{
    if match_at(u + v, pat, i) {
        assert((u + v).subrange(i, i + pat.len() as int)[u.len() - 1 - i] == (u + v)[u.len() - 1]);
    }
}

/// A newline-free pattern cannot straddle a boundary whose right side
/// starts with a newline.
pub proof fn lemma_no_cross_into(u: Seq<char>, v: Seq<char>, pat: Seq<char>, i: int)
    requires
        no_newline(pat),
        v.len() > 0,
        v[0] == '\n',
        0 <= i < u.len(),
        i + pat.len() > u.len(),
    ensures
        !match_at(u + v, pat, i),
{
    if match_at(u + v, pat, i) {
        assert((u + v).subrange(i, i + pat.len() as int)[u.len() - i] == (u + v)[u.len() as int]);
    }
}

/// Executable prefix test: `pat` matches at position 0.
pub fn str_starts_with(s: &str, pat: &str) -> (r: bool)
    ensures
        r == match_at(s@, pat@, 0),
{
    let n = s.unicode_len();
    let m = pat.unicode_len();
    if m > n {
        return false;
    }
    let mut j: usize = 0;
    while j < m
        invariant
            0 <= j <= m,
            m <= n,
            n == s@.len(),
            m == pat@.len(),
            forall|t: int| 0 <= t < j ==> s@[t] == pat@[t],
        decreases m - j,
    {
        if s.get_char(j) != pat.get_char(j) {
            proof {
                if match_at(s@, pat@, 0) {
                    assert(s@.subrange(0, m as int)[j as int] == pat@[j as int]);
                }
            }
            return false;
        }
        j = j + 1;
    }
    proof {
        assert(s@.subrange(0, m as int) =~= pat@);
    }
    true
}

} // verus!
