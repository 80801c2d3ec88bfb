//! Whitespace trimming over character sequences, and executable trimmers
//! proved against it.  The section editor normalizes the text on either side
//! of the spliced block with these functions.

use vstd::prelude::*;
use crate::chars::is_space;
use crate::chars::is_space_char;

verus! {

/// Every character of `s` is whitespace.
pub open spec fn all_space(s: Seq<char>) -> bool {
    forall|i: int| 0 <= i < s.len() ==> is_space(s[i])
}

/// The length of `s` once trailing whitespace is dropped.
pub open spec fn trim_end_len(s: Seq<char>) -> int
    decreases s.len(),
{
    if s.len() == 0 {
        0
    } else if is_space(s.last()) {
        trim_end_len(s.drop_last())
    } else {
        s.len() as int
    }
}

/// `s` without its trailing whitespace.
pub open spec fn trim_end(s: Seq<char>) -> Seq<char> {
    s.take(trim_end_len(s))
}

/// The number of leading whitespace characters of `s`.
pub open spec fn trim_start_len(s: Seq<char>) -> int
    decreases s.len(),
{
    if s.len() == 0 {
        0
    } else if is_space(s[0]) {
        1 + trim_start_len(s.drop_first())
    } else {
        0
    }
}

/// `s` without its leading whitespace.
pub open spec fn trim_start(s: Seq<char>) -> Seq<char> {
    s.skip(trim_start_len(s))
}

/// Where the trimmed end falls: in bounds, all whitespace after it, and a
/// non-whitespace character just before it (unless nothing remains).
pub proof fn lemma_trim_end_len_bounds(s: Seq<char>)
    ensures
        0 <= trim_end_len(s) <= s.len(),
        forall|i: int| trim_end_len(s) <= i < s.len() ==> is_space(s[i]),
        trim_end_len(s) > 0 ==> !is_space(s[trim_end_len(s) - 1]),
    decreases s.len(),
{
    if s.len() == 0 {
    } else if is_space(s.last()) {
        lemma_trim_end_len_bounds(s.drop_last());
        assert forall|i: int| trim_end_len(s) <= i < s.len() implies is_space(s[i]) by {
            if i < s.len() - 1 {
                assert(s.drop_last()[i] == s[i]);
            }
        }
    } else {
    }
}

/// The characterization is exact: any cut with whitespace after it and a
/// non-whitespace character before it is the trimmed end.
pub proof fn lemma_trim_end_len_of_range(s: Seq<char>, k: int)
    requires
        0 <= k <= s.len(),
        forall|i: int| k <= i < s.len() ==> is_space(s[i]),
        k > 0 ==> !is_space(s[k - 1]),
    ensures
        trim_end_len(s) == k,
    decreases s.len(),
{
    if s.len() == 0 {
    } else if is_space(s.last()) {
        assert(k < s.len());
        assert forall|i: int| k <= i < s.drop_last().len() implies is_space(s.drop_last()[i]) by {
            assert(s.drop_last()[i] == s[i]);
        }
        lemma_trim_end_len_of_range(s.drop_last(), k);
    } else {
        assert(k == s.len());
    }
}

/// Where the trimmed start falls: in bounds, all whitespace before it, and a
/// non-whitespace character at it (unless nothing remains).
pub proof fn lemma_trim_start_len_bounds(s: Seq<char>)
    ensures
        0 <= trim_start_len(s) <= s.len(),
        forall|i: int| 0 <= i < trim_start_len(s) ==> is_space(s[i]),
        trim_start_len(s) < s.len() ==> !is_space(s[trim_start_len(s)]),
    decreases s.len(),
{
    if s.len() == 0 {
    } else if is_space(s[0]) {
        lemma_trim_start_len_bounds(s.drop_first());
        assert forall|i: int| 0 <= i < trim_start_len(s) implies is_space(s[i]) by {
            if i > 0 {
                assert(s.drop_first()[i - 1] == s[i]);
            }
        }
    } else {
    }
}

/// The characterization is exact: any cut with whitespace before it and a
/// non-whitespace character at it is the trimmed start.
pub proof fn lemma_trim_start_len_of_range(s: Seq<char>, k: int)
    requires
        0 <= k <= s.len(),
        forall|i: int| 0 <= i < k ==> is_space(s[i]),
        k < s.len() ==> !is_space(s[k]),
    ensures
        trim_start_len(s) == k,
    decreases s.len(),
{
    if s.len() == 0 {
    } else if is_space(s[0]) {
        assert(k > 0);
        assert forall|i: int| 0 <= i < k - 1 implies is_space(s.drop_first()[i]) by {
            assert(s.drop_first()[i] == s[i + 1]);
        }
        assert(k - 1 < s.drop_first().len() ==> !is_space(s.drop_first()[k - 1]));
        lemma_trim_start_len_of_range(s.drop_first(), k - 1);
    } else {
        assert(k == 0);
    }
}

/// End-trimming twice trims no more than once.
pub proof fn lemma_trim_end_idempotent(s: Seq<char>)
    ensures
        trim_end(trim_end(s)) == trim_end(s),
{
    lemma_trim_end_len_bounds(s);
    let t = trim_end(s);
    lemma_trim_end_len_of_range(t, t.len() as int);
    assert(trim_end(t) =~= t);
}

/// A whitespace suffix never survives end-trimming.
pub proof fn lemma_trim_end_concat_space(x: Seq<char>, t: Seq<char>)
    requires
        all_space(t),
    ensures
        trim_end(x + t) == trim_end(x),
{
    lemma_trim_end_len_bounds(x);
    let k = trim_end_len(x);
    assert forall|i: int| k <= i < (x + t).len() implies is_space((x + t)[i]) by {
        if i < x.len() {
            assert(is_space(x[i]));
        } else {
            assert(is_space(t[i - x.len()]));
        }
    }
    lemma_trim_end_len_of_range(x + t, k);
    assert(trim_end(x + t) =~= trim_end(x));
}

/// Start-trimming twice trims no more than once.
pub proof fn lemma_trim_start_idempotent(s: Seq<char>)
    ensures
        trim_start(trim_start(s)) == trim_start(s),
{
    lemma_trim_start_len_bounds(s);
    let t = trim_start(s);
    lemma_trim_start_len_of_range(t, 0);
    assert(trim_start(t) =~= t);
}

/// A whitespace prefix never survives start-trimming.
pub proof fn lemma_trim_start_concat_space(t: Seq<char>, x: Seq<char>)
    requires
        all_space(t),
    ensures
        trim_start(t + x) == trim_start(x),
{
    lemma_trim_start_len_bounds(x);
    let k = t.len() + trim_start_len(x);
    assert forall|i: int| 0 <= i < k implies is_space((t + x)[i]) by {
        if i < t.len() {
            assert(is_space(t[i]));
        } else {
            assert(is_space(x[i - t.len()]));
        }
    }
    lemma_trim_start_len_of_range(t + x, k);
    assert(trim_start(t + x) =~= trim_start(x));
}

/// Executable test that `s` is entirely whitespace.
pub fn is_all_space(s: &str) -> (r: bool)
    ensures
        r == all_space(s@),
{
    let n = s.unicode_len();
    let mut i: usize = 0;
    while i < n
        invariant
            0 <= i <= n,
            n == s@.len(),
            forall|t: int| 0 <= t < i ==> is_space(s@[t]),
        decreases n - i,
    {
        if !is_space_char(s.get_char(i)) {
            return false;
        }
        i = i + 1;
    }
    true
}

/// Executable trailing-whitespace trimmer.
pub fn trim_end_str<'a>(s: &'a str) -> (r: &'a str)
    ensures
        r@ == trim_end(s@),
{
    let n = s.unicode_len();
    let mut e = n;
    loop
        invariant
            0 <= e <= n,
            n == s@.len(),
            forall|i: int| e <= i < n ==> is_space(s@[i]),
        ensures
            0 <= e <= n,
            e as int == trim_end_len(s@),
        decreases e,
    {
        if e == 0 {
            proof {
                lemma_trim_end_len_of_range(s@, 0);
            }
            break;
        }
        let c = s.get_char(e - 1);
        if !is_space_char(c) {
            proof {
                lemma_trim_end_len_of_range(s@, e as int);
            }
            break;
        }
        e = e - 1;
    }
    s.substring_char(0, e)
}

/// Executable leading-whitespace trimmer.
pub fn trim_start_str<'a>(s: &'a str) -> (r: &'a str)
    ensures
        r@ == trim_start(s@),
{
    let n = s.unicode_len();
    let mut b: usize = 0;
    loop
        invariant
            0 <= b <= n,
            n == s@.len(),
            forall|i: int| 0 <= i < b ==> is_space(s@[i]),
        ensures
            0 <= b <= n,
            b as int == trim_start_len(s@),
        decreases n - b,
    {
        if b == n {
            proof {
                lemma_trim_start_len_of_range(s@, b as int);
            }
            break;
        }
        let c = s.get_char(b);
        if !is_space_char(c) {
            proof {
                lemma_trim_start_len_of_range(s@, b as int);
            }
            break;
        }
        b = b + 1;
    }
    s.substring_char(b, n)
}

} // verus!
