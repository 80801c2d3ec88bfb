//! Whitespace tokenization of a person's full name: an alias resolves to a
//! single name string, and the ledger wants it split into a first name and
//! the remainder joined by single spaces.

use vstd::prelude::*;
use crate::chars::is_space;
use crate::chars::is_space_char;

verus! {

/// The position of the first non-whitespace character at or after `i`, or
/// the length of `s`.
pub open spec fn nonspace_from(s: Seq<char>, i: int) -> int
    decreases s.len() + 1 - i,
{
    if i < 0 || i >= s.len() {
        s.len() as int
    } else if is_space(s[i]) {
        nonspace_from(s, i + 1)
    } else {
        i
    }
}

/// The position of the first whitespace character at or after `i`, or the
/// length of `s`.
pub open spec fn space_from(s: Seq<char>, i: int) -> int
    decreases s.len() + 1 - i,
{
    if i < 0 || i >= s.len() {
        s.len() as int
    } else if is_space(s[i]) {
        i
    } else {
        space_from(s, i + 1)
    }
}

/// Basic bounds for [`nonspace_from`].
pub proof fn lemma_nonspace_from_bounds(s: Seq<char>, i: int)
    requires
        0 <= i <= s.len(),
    ensures
        i <= nonspace_from(s, i) <= s.len(),
        nonspace_from(s, i) < s.len() ==> !is_space(s[nonspace_from(s, i)]),
        forall|j: int| i <= j < nonspace_from(s, i) ==> is_space(s[j]),
    decreases s.len() - i,
{
    if i >= s.len() {
    } else if is_space(s[i]) {
        lemma_nonspace_from_bounds(s, i + 1);
    } else {
    }
}

/// Basic bounds for [`space_from`].
pub proof fn lemma_space_from_bounds(s: Seq<char>, i: int)
    requires
        0 <= i <= s.len(),
    ensures
        i <= space_from(s, i) <= s.len(),
        space_from(s, i) < s.len() ==> is_space(s[space_from(s, i)]),
        forall|j: int| i <= j < space_from(s, i) ==> !is_space(s[j]),
    decreases s.len() - i,
{
    if i >= s.len() {
    } else if is_space(s[i]) {
    } else {
        lemma_space_from_bounds(s, i + 1);
    }
}

/// The exact characterization of [`space_from`].
pub proof fn lemma_space_from_of_range(s: Seq<char>, i: int, k: int)
    requires
        0 <= i <= k <= s.len(),
        forall|j: int| i <= j < k ==> !is_space(s[j]),
        k < s.len() ==> is_space(s[k]),
    ensures
        space_from(s, i) == k,
    decreases s.len() - i,
{
    if i >= s.len() {
    } else if is_space(s[i]) {
    } else {
        lemma_space_from_of_range(s, i + 1, k);
    }
}

/// The whitespace-separated tokens of `s` from position `i` on.
pub open spec fn tokens_from(s: Seq<char>, i: int) -> Seq<Seq<char>>
    decreases s.len() + 1 - i,
    via tokens_from_decreases
{
    if i < 0 || i >= s.len() {
        Seq::<Seq<char>>::empty()
    } else if is_space(s[i]) {
        tokens_from(s, nonspace_from(s, i))
    } else {
        let e = space_from(s, i);
        seq![s.subrange(i, e)] + tokens_from(s, e)
    }
}

#[via_fn]
proof fn tokens_from_decreases(s: Seq<char>, i: int) {
    if 0 <= i < s.len() {
        if is_space(s[i]) {
            lemma_nonspace_from_bounds(s, i + 1);
            assert(nonspace_from(s, i) == nonspace_from(s, i + 1));
        } else {
            lemma_space_from_bounds(s, i + 1);
            assert(space_from(s, i) == space_from(s, i + 1));
        }
    }
}

/// The whitespace-separated tokens of `s`, in order.
pub open spec fn tokens(s: Seq<char>) -> Seq<Seq<char>> {
    tokens_from(s, 0)
}

/// Skipping one whitespace character does not change the tokens.
proof fn lemma_tokens_skip_space(s: Seq<char>, i: int)
    requires
        0 <= i < s.len(),
        is_space(s[i]),
    ensures
        tokens_from(s, i) == tokens_from(s, i + 1),
{
    lemma_nonspace_from_bounds(s, i + 1);
    assert(nonspace_from(s, i) == nonspace_from(s, i + 1));
    if i + 1 < s.len() && !is_space(s[i + 1]) {
        assert(nonspace_from(s, i + 1) == i + 1);
    }
}

/// Parts joined by single spaces.
pub open spec fn join_spaces(parts: Seq<Seq<char>>) -> Seq<char>
    decreases parts.len(),
{
    if parts.len() == 0 {
        Seq::<char>::empty()
    } else if parts.len() == 1 {
        parts[0]
    } else {
        parts[0] + " "@ + join_spaces(parts.drop_first())
    }
}

/// Appending one part appends one separator and the part.
pub proof fn lemma_join_spaces_push(parts: Seq<Seq<char>>, x: Seq<char>)
    ensures
        join_spaces(parts.push(x)) == if parts.len() == 0 {
            x
        } else {
            join_spaces(parts) + " "@ + x
        },
    decreases parts.len(),
{
    if parts.len() == 0 {
        assert(parts.push(x).len() == 1);
        assert(parts.push(x)[0] == x);
    } else if parts.len() == 1 {
        assert(parts.push(x)[0] == parts[0]);
        assert(parts.push(x).drop_first() =~= seq![x]);
        assert(join_spaces(seq![x]) == x);
    } else {
        assert(parts.push(x).drop_first() =~= parts.drop_first().push(x));
        lemma_join_spaces_push(parts.drop_first(), x);
        assert(parts.push(x)[0] == parts[0]);
    }
}

/// The first name an alias's full name splits into: the first token when
/// there are at least two, else the full string unchanged.
pub open spec fn first_name_of(name: Seq<char>) -> Seq<char> {
    if tokens(name).len() >= 2 {
        tokens(name)[0]
    } else {
        name
    }
}

/// The remainder of an alias's full name: the tokens after the first joined
/// by single spaces when there are at least two, else empty.
pub open spec fn last_name_of(name: Seq<char>) -> Seq<char> {
    if tokens(name).len() >= 2 {
        join_spaces(tokens(name).drop_first())
    } else {
        Seq::<char>::empty()
    }
}

/// The whitespace-separated tokens of `s`, as owned strings.
pub fn split_tokens(s: &str) -> (r: Vec<String>)
    ensures
        r.deep_view() == tokens(s@),
{
    let n = s.unicode_len();
    let mut out: Vec<String> = Vec::new();
    let mut i: usize = 0;
    while i < n
        invariant
            0 <= i <= n,
            n == s@.len(),
            tokens(s@) == out.deep_view() + tokens_from(s@, i as int),
        decreases n - i,
    {
        let c = s.get_char(i);
        if is_space_char(c) {
            proof {
                lemma_tokens_skip_space(s@, i as int);
            }
            i = i + 1;
        } else {
            let ghost prev = out.deep_view();
            let mut e = i;
            loop
                invariant
                    i <= e <= n,
                    n == s@.len(),
                    forall|j: int| i <= j < e ==> !is_space(s@[j]),
                ensures
                    i <= e <= n,
                    e as int == space_from(s@, i as int),
                decreases n - e,
            {
                if e == n {
                    proof {
                        lemma_space_from_of_range(s@, i as int, e as int);
                    }
                    break;
                }
                if is_space_char(s.get_char(e)) {
                    proof {
                        lemma_space_from_of_range(s@, i as int, e as int);
                    }
                    break;
                }
                e = e + 1;
            }
            let tok = s.substring_char(i, e);
            out.push(tok.to_owned());
            proof {
                assert(out.deep_view() =~= prev.push(tok@));
                assert(prev.push(tok@) + tokens_from(s@, e as int) =~= prev + (seq![
                    s@.subrange(i as int, e as int),
                ] + tokens_from(s@, e as int)));
            }
            proof {
                assert(e > i);
            }
            i = e;
        }
    }
    proof {
        assert(out.deep_view() + tokens_from(s@, i as int) =~= out.deep_view());
    }
    out
}

/// Splits a full name into a first name and the joined remainder, the way
/// an alias's name is carried into the ledger.
pub fn split_full_name(name: &str) -> (r: (String, String))
    ensures
        r.0@ == first_name_of(name@),
        r.1@ == last_name_of(name@),
{
    let toks = split_tokens(name);
    let ghost dv = toks.deep_view();
    proof {
        assert(dv.len() == toks@.len());
    }
    if toks.len() >= 2 {
        let first = toks[0].clone();
        proof {
            assert(dv[0] == toks@[0]@);
        }
        let mut last = toks[1].clone();
        proof {
            assert(dv[1] == toks@[1]@);
            assert(dv.subrange(1, 2).len() == 1);
            assert(dv.subrange(1, 2)[0] == dv[1]);
        }
        let mut i: usize = 2;
        while i < toks.len()
            invariant
                2 <= i <= toks.len(),
                dv == toks.deep_view(),
                dv.len() == toks@.len(),
                toks@.len() >= 2,
                last@ == join_spaces(dv.subrange(1, i as int)),
            decreases toks.len() - i,
        {
            proof {
                assert(dv[i as int] == toks@[i as int]@);
                lemma_join_spaces_push(dv.subrange(1, i as int), dv[i as int]);
                assert(dv.subrange(1, i + 1) =~= dv.subrange(1, i as int).push(dv[i as int]));
            }
            last.append(" ");
            last.append(toks[i].as_str());
            i = i + 1;
        }
        proof {
            assert(dv.subrange(1, dv.len() as int) =~= dv.drop_first());
        }
        (first, last)
    } else {
        (name.to_owned(), String::new())
    }
}

} // verus!
