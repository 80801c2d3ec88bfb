//! The laws the section editor obeys: merging and stripping are inverse up
//! to whitespace normalization at the splice point, and merging never
//! leaves more than one marker pair behind.  These are stated over the same
//! specification functions the editor's contracts use, for any section that
//! is well formed in the sense below.

use vstd::prelude::*;
use crate::PairError;
use crate::chars::is_space;
use crate::search::find_first;
use crate::search::find_from;
use crate::search::lemma_find_from_of_first;
use crate::search::lemma_find_from_of_no_match;
use crate::search::lemma_find_from_some;
use crate::search::lemma_match_at_concat_right;
use crate::search::lemma_match_at_prefix;
use crate::search::lemma_match_at_take;
use crate::search::lemma_no_cross;
use crate::search::lemma_no_cross_into;
use crate::search::match_at;
use crate::search::no_newline;
use crate::section::begin_marker;
use crate::section::effectively_empty;
use crate::section::end_marker;
use crate::section::merge_spec;
use crate::section::shebang_line;
use crate::section::strip_spec;
use crate::trim::all_space;
use crate::trim::lemma_trim_end_concat_space;
use crate::trim::lemma_trim_end_idempotent;
use crate::trim::lemma_trim_end_len_bounds;
use crate::trim::lemma_trim_end_len_of_range;
use crate::trim::lemma_trim_start_concat_space;
use crate::trim::lemma_trim_start_idempotent;
use crate::trim::lemma_trim_start_len_bounds;
use crate::trim::trim_end;
use crate::trim::trim_end_len;
use crate::trim::trim_start;
use crate::trim::trim_start_len;

verus! {

/// A section the editor can own outright: it opens with the begin marker,
/// closes with the end marker, and neither marker occurs anywhere else in
/// it.
pub open spec fn well_formed_section(s: Seq<char>) -> bool {
    &&& match_at(s, begin_marker(), 0)
    &&& match_at(s, end_marker(), s.len() - end_marker().len())
    &&& forall|j: int| match_at(s, begin_marker(), j) ==> j == 0
    &&& forall|j: int| match_at(s, end_marker(), j) ==> j == s.len() - end_marker().len()
}

/// The concrete characters of the marker and shebang literals, as far as
/// the proofs below lean on them.
pub proof fn lemma_marker_facts()
    ensures
        begin_marker().len() == 16,
        end_marker().len() == 14,
        no_newline(begin_marker()),
        no_newline(end_marker()),
        begin_marker()[0] == '#',
        shebang_line().len() == 10,
        shebang_line()[9] == '\n',
{
    reveal_strlit("# BEGIN git-pair");
    reveal_strlit("# END git-pair");
    reveal_strlit("#!/bin/sh\n");
}

/// In `a + rest` where `a` is free of the pattern and newline-terminated
/// (or empty), and `rest` opens with the pattern, the first occurrence of
/// the pattern sits exactly at the boundary.
pub proof fn lemma_find_first_at_boundary(a: Seq<char>, rest: Seq<char>, pat: Seq<char>)
    requires
        no_newline(pat),
        match_at(rest, pat, 0),
        a.len() == 0 || a.last() == '\n',
        forall|i: int| i + pat.len() <= a.len() ==> !match_at(a, pat, i),
    ensures
        find_first(a + rest, pat) == Some(a.len() as int),
{
    let m = a + rest;
    lemma_match_at_concat_right(a, rest, pat, 0);
    assert(match_at(m, pat, a.len() as int));
    assert forall|i: int| 0 <= i < a.len() implies !match_at(m, pat, i) by {
        if i + pat.len() <= a.len() {
            lemma_match_at_prefix(a, rest, pat, i);
        } else {
            lemma_no_cross(a, rest, pat, i);
        }
    }
    lemma_find_from_of_first(m, pat, 0, a.len() as int);
}

/// Searching for the end marker from the boundary of `a + s + b` finds the
/// closing marker of `s`: `s` closes with it and holds no earlier one, and
/// no occurrence can straddle into `b`, which is empty or opens with a
/// newline.
pub proof fn lemma_find_end_from_boundary(a: Seq<char>, s: Seq<char>, b: Seq<char>)
    requires
        end_marker().len() <= s.len(),
        match_at(s, end_marker(), s.len() - end_marker().len()),
        forall|j: int| match_at(s, end_marker(), j) ==> j == s.len() - end_marker().len(),
        b.len() == 0 || b[0] == '\n',
    ensures
        find_from(a + s + b, end_marker(), a.len() as int) == Some(
            a.len() + s.len() - end_marker().len(),
        ),
{
    lemma_marker_facts();
    let m = a + s + b;
    let pat = end_marker();
    let k = a.len() + s.len() - pat.len();
    assert(m =~= a + (s + b));
    lemma_match_at_prefix(s, b, pat, s.len() - pat.len() as int);
    lemma_match_at_concat_right(a, s + b, pat, s.len() - pat.len() as int);
    assert(match_at(m, pat, k));
    assert forall|i: int| a.len() <= i < k implies !match_at(m, pat, i) by {
        let j = i - a.len();
        lemma_match_at_concat_right(a, s + b, pat, j);
        if j + pat.len() <= s.len() {
            lemma_match_at_prefix(s, b, pat, j);
        } else {
            if b.len() == 0 {
                if match_at(s + b, pat, j) {
                    assert(j + pat.len() <= (s + b).len());
                }
            } else {
                lemma_no_cross_into(s, b, pat, j);
            }
        }
    }
    lemma_find_from_of_first(m, pat, a.len() as int, k);
}

/// Merge then strip, append mode: splicing a well-formed section into
/// content free of both markers and not all whitespace, then stripping it
/// back out, returns exactly the content end-trimmed — merge and strip are
/// inverse up to whitespace normalization at the splice point.
pub proof fn lemma_merge_strip_inverse_append(existing: Seq<char>, section: Seq<char>)
    requires
        well_formed_section(section),
        forall|i: int| !match_at(existing, begin_marker(), i),
        forall|i: int| !match_at(existing, end_marker(), i),
        !all_space(existing),
    ensures
        merge_spec(existing, section) is Ok,
        strip_spec(merge_spec(existing, section)->Ok_0) == Ok::<Option<Seq<char>>, PairError>(
            Some(trim_end(existing)),
        ),
{
    lemma_marker_facts();
    reveal_strlit("\n\n");
    lemma_find_from_of_no_match(existing, begin_marker(), 0);
    let t = trim_end(existing);
    let a = t + "\n\n"@;
    let merged = a + section;
    assert(merge_spec(existing, section)->Ok_0 == merged);
    lemma_trim_end_len_bounds(existing);
    assert forall|i: int| i + begin_marker().len() <= a.len() implies !match_at(
        a,
        begin_marker(),
        i,
    ) by {
        if i >= 0 {
            if i + begin_marker().len() <= t.len() {
                lemma_match_at_prefix(t, "\n\n"@, begin_marker(), i);
                lemma_match_at_take(existing, trim_end_len(existing), begin_marker(), i);
            } else {
                if match_at(a, begin_marker(), i) {
                    assert(a.subrange(i, i + begin_marker().len() as int)[t.len() - i] == a[t.len() as int]);
                    assert(a[t.len() as int] == '\n');
                }
            }
        }
    }
    assert(a.last() == '\n');
    lemma_find_first_at_boundary(a, section, begin_marker());
    assert(merged =~= a + section + Seq::<char>::empty());
    lemma_find_end_from_boundary(a, section, Seq::<char>::empty());
    let e = a.len() + section.len() - end_marker().len();
    assert(merged.take(a.len() as int) =~= a);
    assert(all_space("\n\n"@));
    lemma_trim_end_concat_space(t, "\n\n"@);
    lemma_trim_end_idempotent(existing);
    assert(trim_end(a) == t);
    assert(merged.skip(e + end_marker().len()) =~= Seq::<char>::empty());
    lemma_trim_start_len_bounds(Seq::<char>::empty());
    assert(trim_start(Seq::<char>::empty()) =~= Seq::<char>::empty());
    assert(t.len() > 0) by {
        if trim_end_len(existing) == 0 {
            assert(all_space(existing));
        }
    }
    assert(strip_spec(merged)->Ok_0->0 =~= t);
}

/// Merge then strip, splice mode: replacing the delimited span of a hook
/// file that already carries one, then stripping, returns exactly what a
/// strip of the untouched file returns — the user's surrounding text rides
/// through a replace-then-strip unchanged.
pub proof fn lemma_merge_strip_inverse_splice(existing: Seq<char>, section: Seq<char>)
    requires
        well_formed_section(section),
        find_first(existing, begin_marker()) is Some,
        find_from(existing, end_marker(), find_first(existing, begin_marker())->0) is Some,
    ensures
        merge_spec(existing, section) is Ok,
        strip_spec(existing) is Ok,
        strip_spec(merge_spec(existing, section)->Ok_0) == strip_spec(existing),
{
    lemma_marker_facts();
    reveal_strlit("\n");
    let b = find_first(existing, begin_marker())->0;
    let e = find_from(existing, end_marker(), b)->0;
    lemma_find_from_some(existing, begin_marker(), 0, b);
    lemma_find_from_some(existing, end_marker(), b, e);
    let before = existing.take(b);
    let bt = trim_end(before);
    let at = trim_start(existing.skip(e + end_marker().len()));
    let f = if bt.len() > 0 {
        bt + "\n"@
    } else {
        Seq::<char>::empty()
    };
    let bb = if at.len() > 0 {
        "\n"@ + at
    } else {
        Seq::<char>::empty()
    };
    let merged = f + section + bb;
    assert(merge_spec(existing, section)->Ok_0 =~= merged);
    lemma_trim_end_len_bounds(before);
    assert forall|i: int| i + begin_marker().len() <= f.len() implies !match_at(
        f,
        begin_marker(),
        i,
    ) by {
        if i >= 0 && bt.len() > 0 {
            if i + begin_marker().len() <= bt.len() {
                lemma_match_at_prefix(bt, "\n"@, begin_marker(), i);
                lemma_match_at_take(before, trim_end_len(before), begin_marker(), i);
                lemma_match_at_take(existing, b, begin_marker(), i);
            } else {
                if match_at(f, begin_marker(), i) {
                    assert(f.subrange(i, i + begin_marker().len() as int)[bt.len() - i] == f[bt.len() as int]);
                    assert(f[bt.len() as int] == '\n');
                }
            }
        }
    }
    assert(f.len() == 0 || f.last() == '\n');
    lemma_match_at_prefix(section, bb, begin_marker(), 0);
    assert(merged =~= f + (section + bb));
    lemma_find_first_at_boundary(f, section + bb, begin_marker());
    assert(find_first(merged, begin_marker()) == Some(f.len() as int));
    lemma_find_end_from_boundary(f, section, bb);
    let e2 = f.len() + section.len() - end_marker().len();
    assert(merged.take(f.len() as int) =~= f);
    if bt.len() > 0 {
        assert(all_space("\n"@));
        lemma_trim_end_concat_space(bt, "\n"@);
        lemma_trim_end_idempotent(before);
        assert(trim_end(f) == bt);
    } else {
        lemma_trim_end_len_bounds(f);
        assert(trim_end(f) =~= bt);
    }
    assert(merged.skip(e2 + end_marker().len()) =~= bb);
    if at.len() > 0 {
        lemma_trim_start_concat_space("\n"@, at);
        lemma_trim_start_idempotent(existing.skip(e + end_marker().len()));
        assert(trim_start(bb) == at);
    } else {
        lemma_trim_start_len_bounds(Seq::<char>::empty());
        assert(trim_start(Seq::<char>::empty()) =~= Seq::<char>::empty());
        assert(trim_start(bb) == at);
    }
    assert(strip_spec(merged)->Ok_0->0 == strip_spec(existing)->Ok_0->0);
}

/// A hook file created for the section alone dies with it: installing into
/// blank content and then stripping the section leaves only the interpreter
/// line, which is effectively empty, so the whole file is deleted rather
/// than left as a dead stub.
pub proof fn lemma_install_blank_then_strip_deletes(existing: Seq<char>, section: Seq<char>)
    requires
        well_formed_section(section),
        all_space(existing),
    ensures
        merge_spec(existing, section) is Ok,
        strip_spec(merge_spec(existing, section)->Ok_0) is Ok,
        strip_spec(merge_spec(existing, section)->Ok_0)->Ok_0 is Some,
        effectively_empty(strip_spec(merge_spec(existing, section)->Ok_0)->Ok_0->0),
{
    lemma_marker_facts();
    reveal_strlit("#!/bin/sh\n");
    if find_first(existing, begin_marker()) is Some {
        let b = find_first(existing, begin_marker())->0;
        lemma_find_from_some(existing, begin_marker(), 0, b);
        assert(existing.subrange(b, b + begin_marker().len() as int)[0] == existing[b]);
        assert(is_space(existing[b]));
    }
    let a = shebang_line();
    let merged = a + section;
    assert(merge_spec(existing, section)->Ok_0 == merged);
    assert(a.last() == '\n');
    assert forall|i: int| i + begin_marker().len() <= a.len() implies !match_at(
        a,
        begin_marker(),
        i,
    ) by {}
    lemma_find_first_at_boundary(a, section, begin_marker());
    assert(merged =~= a + section + Seq::<char>::empty());
    lemma_find_end_from_boundary(a, section, Seq::<char>::empty());
    let e = a.len() + section.len() - end_marker().len();
    assert(merged.take(a.len() as int) =~= a);
    lemma_trim_end_len_of_range(a, 9);
    let t = trim_end(a);
    assert(merged.skip(e + end_marker().len()) =~= Seq::<char>::empty());
    lemma_trim_start_len_bounds(Seq::<char>::empty());
    assert(trim_start(Seq::<char>::empty()) =~= Seq::<char>::empty());
    let out = strip_spec(merged)->Ok_0->0;
    assert(out =~= t);
    assert(effectively_empty(t)) by {
        reveal_with_fuel(crate::section::effectively_empty_from, 12);
        assert(t.len() == 9);
        assert(t[0] == '#');
        assert(t[1] == '!');
        assert(t[2] == '/');
        assert(t[3] == 'b');
        assert(t[4] == 'i');
        assert(t[5] == 'n');
        assert(t[6] == '/');
        assert(t[7] == 's');
        assert(t[8] == 'h');
    }
}

/// `pat` occurs in `s` exactly once: at `k` and nowhere else.
pub open spec fn only_match_at(s: Seq<char>, pat: Seq<char>, k: int) -> bool {
    match_at(s, pat, k) && forall|j: int| match_at(s, pat, j) ==> j == k
}

/// A match inside the remainder after dropping a prefix, shifted.
pub proof fn lemma_match_at_skip(s: Seq<char>, d: int, pat: Seq<char>, i: int)
    requires
        0 <= i,
        0 <= d <= s.len(),
    ensures
        match_at(s.skip(d), pat, i) <==> match_at(s, pat, d + i),
{
    assert(s =~= s.take(d) + s.skip(d));
    lemma_match_at_concat_right(s.take(d), s.skip(d), pat, i);
}

/// In `a + s` where `a` is free of the pattern and newline-terminated (and
/// non-empty), and `s` holds the pattern exactly once, the concatenation
/// holds it exactly once.
pub proof fn lemma_only_match_boundary(a: Seq<char>, s: Seq<char>, pat: Seq<char>, p: int)
    requires
        no_newline(pat),
        a.len() == 0 || a.last() == '\n',
        forall|i: int| i + pat.len() <= a.len() ==> !match_at(a, pat, i),
        0 <= p,
        match_at(s, pat, p),
        forall|j: int| match_at(s, pat, j) ==> j == p,
    ensures
        only_match_at(a + s, pat, a.len() + p),
{
    lemma_match_at_concat_right(a, s, pat, p);
    assert forall|j: int| match_at(a + s, pat, j) implies j == a.len() + p by {
        if j < a.len() {
            if j + pat.len() <= a.len() {
                lemma_match_at_prefix(a, s, pat, j);
            } else if j >= 0 {
                lemma_no_cross(a, s, pat, j);
            }
        } else {
            lemma_match_at_concat_right(a, s, pat, j - a.len());
        }
    }
}

/// Merging into marker-free content leaves exactly one begin marker and
/// exactly one end marker: the section-count invariant on first install.
pub proof fn lemma_merge_single_pair_append(existing: Seq<char>, section: Seq<char>)
    requires
        well_formed_section(section),
        forall|i: int| !match_at(existing, begin_marker(), i),
        forall|i: int| !match_at(existing, end_marker(), i),
    ensures
        merge_spec(existing, section) is Ok,
        exists|k: int| only_match_at(merge_spec(existing, section)->Ok_0, begin_marker(), k),
        exists|k: int| only_match_at(merge_spec(existing, section)->Ok_0, end_marker(), k),
{
    lemma_marker_facts();
    lemma_find_from_of_no_match(existing, begin_marker(), 0);
    let merged = merge_spec(existing, section)->Ok_0;
    if all_space(existing) {
        let a = shebang_line();
        assert(merged == a + section);
        assert(a.last() == '\n');
        assert forall|i: int| i + begin_marker().len() <= a.len() implies !match_at(
            a,
            begin_marker(),
            i,
        ) by {}
        assert forall|i: int| i + end_marker().len() <= a.len() implies !match_at(
            a,
            end_marker(),
            i,
        ) by {}
        lemma_only_match_boundary(a, section, begin_marker(), 0);
        lemma_only_match_boundary(a, section, end_marker(), section.len() - end_marker().len());
        assert(only_match_at(merged, begin_marker(), a.len() as int));
        assert(only_match_at(merged, end_marker(), a.len() + section.len() - end_marker().len()));
    } else {
        reveal_strlit("\n\n");
        let t = trim_end(existing);
        let a = t + "\n\n"@;
        assert(merged == a + section);
        lemma_trim_end_len_bounds(existing);
        assert(a.last() == '\n');
        assert forall|i: int| i + begin_marker().len() <= a.len() implies !match_at(
            a,
            begin_marker(),
            i,
        ) by {
            if i >= 0 {
                if i + begin_marker().len() <= t.len() {
                    lemma_match_at_prefix(t, "\n\n"@, begin_marker(), i);
                    lemma_match_at_take(existing, trim_end_len(existing), begin_marker(), i);
                } else {
                    if match_at(a, begin_marker(), i) {
                        assert(a.subrange(i, i + begin_marker().len() as int)[t.len() - i]
                            == a[t.len() as int]);
                        assert(a[t.len() as int] == '\n');
                    }
                }
            }
        }
        assert forall|i: int| i + end_marker().len() <= a.len() implies !match_at(
            a,
            end_marker(),
            i,
        ) by {
            if i >= 0 {
                if i + end_marker().len() <= t.len() {
                    lemma_match_at_prefix(t, "\n\n"@, end_marker(), i);
                    lemma_match_at_take(existing, trim_end_len(existing), end_marker(), i);
                } else {
                    if match_at(a, end_marker(), i) {
                        assert(a.subrange(i, i + end_marker().len() as int)[t.len() - i]
                            == a[t.len() as int]);
                        assert(a[t.len() as int] == '\n');
                    }
                }
            }
        }
        lemma_only_match_boundary(a, section, begin_marker(), 0);
        lemma_only_match_boundary(a, section, end_marker(), section.len() - end_marker().len());
        assert(only_match_at(merged, begin_marker(), a.len() as int));
        assert(only_match_at(merged, end_marker(), a.len() + section.len() - end_marker().len()));
    }
}

/// Re-merging into a hook file that already carries exactly one marker
/// pair leaves again exactly one: with the append law above, any number of
/// installs into marker-free user content keeps exactly one begin marker
/// and one end marker.
pub proof fn lemma_merge_single_pair_splice(existing: Seq<char>, section: Seq<char>)
    requires
        well_formed_section(section),
        find_first(existing, begin_marker()) is Some,
        find_from(existing, end_marker(), find_first(existing, begin_marker())->0) is Some,
        forall|j: int|
            match_at(existing, begin_marker(), j) ==> j == find_first(existing, begin_marker())->0,
        forall|j: int|
            match_at(existing, end_marker(), j) ==> j == find_from(
                existing,
                end_marker(),
                find_first(existing, begin_marker())->0,
            )->0,
    ensures
        merge_spec(existing, section) is Ok,
        exists|k: int| only_match_at(merge_spec(existing, section)->Ok_0, begin_marker(), k),
        exists|k: int| only_match_at(merge_spec(existing, section)->Ok_0, end_marker(), k),
{
    lemma_marker_facts();
    reveal_strlit("\n");
    let b = find_first(existing, begin_marker())->0;
    let e = find_from(existing, end_marker(), b)->0;
    lemma_find_from_some(existing, begin_marker(), 0, b);
    lemma_find_from_some(existing, end_marker(), b, e);
    let before = existing.take(b);
    let bt = trim_end(before);
    let rest0 = existing.skip(e + end_marker().len());
    let at = trim_start(rest0);
    let a = if bt.len() > 0 {
        bt + "\n"@
    } else {
        Seq::<char>::empty()
    };
    let bb = if at.len() > 0 {
        "\n"@ + at
    } else {
        Seq::<char>::empty()
    };
    let sb = section + bb;
    let merged = merge_spec(existing, section)->Ok_0;
    assert(merged =~= a + sb);
    lemma_trim_end_len_bounds(before);
    lemma_trim_start_len_bounds(rest0);
    assert(a.len() == 0 || a.last() == '\n');
    assert forall|i: int| i + begin_marker().len() <= a.len() implies !match_at(
        a,
        begin_marker(),
        i,
    ) by {
        if i >= 0 && bt.len() > 0 {
            if i + begin_marker().len() <= bt.len() {
                lemma_match_at_prefix(bt, "\n"@, begin_marker(), i);
                lemma_match_at_take(before, trim_end_len(before), begin_marker(), i);
                lemma_match_at_take(existing, b, begin_marker(), i);
            } else {
                if match_at(a, begin_marker(), i) {
                    assert(a.subrange(i, i + begin_marker().len() as int)[bt.len() - i]
                        == a[bt.len() as int]);
                    assert(a[bt.len() as int] == '\n');
                }
            }
        }
    }
    assert forall|i: int| i + end_marker().len() <= a.len() implies !match_at(
        a,
        end_marker(),
        i,
    ) by {
        if i >= 0 && bt.len() > 0 {
            if i + end_marker().len() <= bt.len() {
                lemma_match_at_prefix(bt, "\n"@, end_marker(), i);
                lemma_match_at_take(before, trim_end_len(before), end_marker(), i);
                lemma_match_at_take(existing, b, end_marker(), i);
            } else {
                if match_at(a, end_marker(), i) {
                    assert(a.subrange(i, i + end_marker().len() as int)[bt.len() - i]
                        == a[bt.len() as int]);
                    assert(a[bt.len() as int] == '\n');
                }
            }
        }
    }
    assert forall|j: int| match_at(sb, begin_marker(), j) implies j == 0 by {
        if j + begin_marker().len() <= section.len() {
            lemma_match_at_prefix(section, bb, begin_marker(), j);
        } else if j < section.len() {
            if bb.len() > 0 {
                lemma_no_cross_into(section, bb, begin_marker(), j);
            } else {
                assert(j + begin_marker().len() <= sb.len());
            }
        } else {
            let k = j - section.len();
            lemma_match_at_concat_right(section, bb, begin_marker(), k);
            assert(bb.len() > 0);
            if k == 0 {
                assert(bb.subrange(0, begin_marker().len() as int)[0] == bb[0]);
            } else {
                lemma_match_at_concat_right("\n"@, at, begin_marker(), k - 1);
                lemma_match_at_skip(rest0, trim_start_len(rest0), begin_marker(), k - 1);
                lemma_match_at_skip(
                    existing,
                    e + end_marker().len(),
                    begin_marker(),
                    trim_start_len(rest0) + k - 1,
                );
            }
        }
    }
    assert forall|j: int| match_at(sb, end_marker(), j) implies j == section.len()
        - end_marker().len() by {
        if j + end_marker().len() <= section.len() {
            lemma_match_at_prefix(section, bb, end_marker(), j);
        } else if j < section.len() {
            if bb.len() > 0 {
                lemma_no_cross_into(section, bb, end_marker(), j);
            } else {
                assert(j + end_marker().len() <= sb.len());
            }
        } else {
            let k = j - section.len();
            lemma_match_at_concat_right(section, bb, end_marker(), k);
            assert(bb.len() > 0);
            if k == 0 {
                assert(bb.subrange(0, end_marker().len() as int)[0] == bb[0]);
            } else {
                lemma_match_at_concat_right("\n"@, at, end_marker(), k - 1);
                lemma_match_at_skip(rest0, trim_start_len(rest0), end_marker(), k - 1);
                lemma_match_at_skip(
                    existing,
                    e + end_marker().len(),
                    end_marker(),
                    trim_start_len(rest0) + k - 1,
                );
            }
        }
    }
    lemma_match_at_prefix(section, bb, begin_marker(), 0);
    lemma_match_at_prefix(section, bb, end_marker(), section.len() - end_marker().len());
    lemma_only_match_boundary(a, sb, begin_marker(), 0);
    lemma_only_match_boundary(a, sb, end_marker(), section.len() - end_marker().len());
    assert(only_match_at(merged, begin_marker(), a.len() as int));
    assert(only_match_at(merged, end_marker(), a.len() + section.len() - end_marker().len()));
}

} // verus!
