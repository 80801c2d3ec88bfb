//! Splitting text into lines, the way the ledger and roster files are read:
//! lines end at `'\n'`, and a trailing newline does not open an empty final
//! line.  An executable splitter is proved against the specification, and a
//! helper lemma lets loops build up filtered views line by line.

use vstd::prelude::*;

verus! {

/// The position of the first `'\n'` at or after `i`, or the length of `s`.
pub open spec fn line_end_from(s: Seq<char>, i: int) -> int
    decreases s.len() - i,
{
    if i < 0 || i >= s.len() {
        s.len() as int
    } else if s[i] == '\n' {
        i
    } else {
        line_end_from(s, i + 1)
    }
}

/// The line end lies between `i` and the end, on a newline unless it is the
/// end, with no newline before it.
pub proof fn lemma_line_end_from_bounds(s: Seq<char>, i: int)
    requires
        0 <= i <= s.len(),
    ensures
        i <= line_end_from(s, i) <= s.len(),
        line_end_from(s, i) < s.len() ==> s[line_end_from(s, i)] == '\n',
        forall|j: int| i <= j < line_end_from(s, i) ==> s[j] != '\n',
    decreases s.len() - i,
{
    if i >= s.len() {
    } else if s[i] == '\n' {
    } else {
        lemma_line_end_from_bounds(s, i + 1);
    }
}

/// The characterization is exact: a newline (or the end) with none before it
/// is the line end.
pub proof fn lemma_line_end_from_of_range(s: Seq<char>, i: int, k: int)
    requires
        0 <= i <= k <= s.len(),
        forall|j: int| i <= j < k ==> s[j] != '\n',
        k < s.len() ==> s[k] == '\n',
    ensures
        line_end_from(s, i) == k,
    decreases s.len() - i,
{
    if i >= s.len() {
    } else if s[i] == '\n' {
    } else {
        lemma_line_end_from_of_range(s, i + 1, k);
    }
}

/// The lines of `s` from position `i` on.
pub open spec fn lines_from(s: Seq<char>, i: int) -> Seq<Seq<char>>
    decreases s.len() + 1 - i,
    via lines_from_decreases
{
    if i < 0 || i >= s.len() {
        Seq::<Seq<char>>::empty()
    } else {
        let e = line_end_from(s, i);
        seq![s.subrange(i, e)] + lines_from(s, e + 1)
    }
}

#[via_fn]
proof fn lines_from_decreases(s: Seq<char>, i: int) {
    if 0 <= i < s.len() {
        lemma_line_end_from_bounds(s, i);
    }
}

/// The lines of `s`, in order, without their newline terminators.
pub open spec fn lines_spec(s: Seq<char>) -> Seq<Seq<char>> {
    lines_from(s, 0)
}

/// Executable line splitter, exactly [`lines_spec`].
pub fn split_lines(content: &str) -> (r: Vec<String>)
    ensures
        r.deep_view() == lines_spec(content@),
{
    let n = content.unicode_len();
    let mut out: Vec<String> = Vec::new();
    let mut i: usize = 0;
    while i < n
        invariant
            0 <= i <= n,
            n == content@.len(),
            lines_spec(content@) == out.deep_view() + lines_from(content@, i as int),
        decreases n - i,
    {
        let ghost prev = out.deep_view();
        let mut e = i;
        loop
            invariant
                i <= e <= n,
                n == content@.len(),
                forall|j: int| i <= j < e ==> content@[j] != '\n',
            ensures
                i <= e <= n,
                e as int == line_end_from(content@, i as int),
            decreases n - e,
        {
            if e == n {
                proof {
                    lemma_line_end_from_of_range(content@, i as int, e as int);
                }
                break;
            }
            if content.get_char(e) == '\n' {
                proof {
                    lemma_line_end_from_of_range(content@, i as int, e as int);
                }
                break;
            }
            e = e + 1;
        }
        let line = content.substring_char(i, e);
        out.push(line.to_owned());
        proof {
            assert(out.deep_view() =~= prev.push(line@));
            assert(prev.push(line@) + lines_from(content@, e as int + 1) =~= prev + (seq![
                content@.subrange(i as int, e as int),
            ] + lines_from(content@, e as int + 1)));
        }
        if e == n {
            proof {
                assert(out.deep_view() + lines_from(content@, e as int + 1) =~= out.deep_view());
            }
            return out;
        }
        i = e + 1;
    }
    proof {
        assert(out.deep_view() + lines_from(content@, i as int) =~= out.deep_view());
    }
    out
}

/// Splitting from position `i` is splitting the remainder from its start.
pub proof fn lemma_lines_from_skip(s: Seq<char>, i: int)
    requires
        0 <= i <= s.len(),
    ensures
        lines_from(s, i) == lines_spec(s.skip(i)),
    decreases s.len() - i,
{
    let r = s.skip(i);
    if i >= s.len() {
        assert(lines_from(s, i) =~= lines_spec(r));
    } else {
        lemma_line_end_from_bounds(s, i);
        let e = line_end_from(s, i);
        assert forall|j: int| 0 <= j < e - i implies r[j] != '\n' by {
            assert(r[j] == s[i + j]);
        }
        lemma_line_end_from_of_range(r, 0, e - i);
        assert(r.subrange(0, e - i) =~= s.subrange(i, e));
        if e + 1 <= s.len() {
            lemma_lines_from_skip(s, e + 1);
            assert(r.skip(e - i + 1) =~= s.skip(e + 1));
            lemma_lines_from_skip(r, e - i + 1);
        } else {
            assert(lines_from(s, e + 1) =~= Seq::<Seq<char>>::empty());
            assert(lines_from(r, e - i + 1) =~= Seq::<Seq<char>>::empty());
        }
        assert(lines_from(s, i) =~= lines_spec(r));
    }
}

/// Lines split at a newline-terminated boundary: the lines of the whole
/// are the lines of each part.
pub proof fn lemma_lines_concat(a: Seq<char>, b: Seq<char>)
    requires
        a.len() == 0 || a.last() == '\n',
    ensures
        lines_spec(a + b) == lines_spec(a) + lines_spec(b),
    decreases a.len(),
{
    if a.len() == 0 {
        assert(a + b =~= b);
        assert(lines_spec(a) + lines_spec(b) =~= lines_spec(b));
    } else {
        lemma_line_end_from_bounds(a, 0);
        let q = line_end_from(a, 0);
        assert(q < a.len()) by {
            if q == a.len() {
                assert(a[a.len() - 1] != '\n');
            }
        }
        assert forall|j: int| 0 <= j < q implies (a + b)[j] != '\n' by {
            assert((a + b)[j] == a[j]);
        }
        lemma_line_end_from_of_range(a + b, 0, q);
        assert((a + b).subrange(0, q) =~= a.subrange(0, q));
        let a2 = a.skip(q + 1);
        lemma_lines_from_skip(a + b, q + 1);
        assert((a + b).skip(q + 1) =~= a2 + b);
        lemma_lines_concat(a2, b);
        lemma_lines_from_skip(a, q + 1);
        assert(lines_spec(a + b) =~= lines_spec(a) + lines_spec(b));
    }
}

/// A newline-free text closed by one newline is exactly one line.
pub proof fn lemma_single_line(l: Seq<char>)
    requires
        forall|i: int| 0 <= i < l.len() ==> l[i] != '\n',
    ensures
        lines_spec(l + "\n"@) == seq![l],
    decreases l.len(),
{
    reveal_strlit("\n");
    let s = l + "\n"@;
    assert forall|j: int| 0 <= j < l.len() implies s[j] != '\n' by {
        assert(s[j] == l[j]);
    }
    assert(s[l.len() as int] == '\n');
    lemma_line_end_from_of_range(s, 0, l.len() as int);
    assert(s.subrange(0, l.len() as int) =~= l);
    assert(lines_from(s, l.len() as int + 1) =~= Seq::<Seq<char>>::empty());
    assert(lines_spec(s) =~= seq![l]);
}

/// Filtering distributes over appending one element at the back: the shape
/// every collecting loop in this crate steps through.
pub proof fn lemma_filter_push<A>(s: Seq<A>, pred: spec_fn(A) -> bool, x: A)
    ensures
        (s.push(x)).filter(pred) == if pred(x) {
            s.filter(pred).push(x)
        } else {
            s.filter(pred)
        },
{
    reveal(Seq::filter);
    assert((s.push(x)).drop_last() =~= s);
    assert((s.push(x)).last() == x);
}

} // verus!
