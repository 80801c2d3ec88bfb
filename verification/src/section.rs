//! The marker-delimited section editor: pure text transformations that
//! splice, append, or cut the one generated block this tool owns inside an
//! arbitrary hook file, never altering the surrounding content beyond
//! whitespace normalization at the splice point.
//!
//! A hook file with a begin marker but no end marker after it is treated as
//! corrupt: the editor fails closed rather than rewrite text it cannot
//! safely parse.

use vstd::prelude::*;
use crate::PairError;
use crate::chars::is_space;
use crate::chars::is_space_char;
use crate::lines::lemma_line_end_from_bounds;
use crate::lines::lemma_lines_from_skip;
use crate::lines::line_end_from;
use crate::lines::lines_from;
use crate::lines::lines_spec;
use crate::search::find_first;
use crate::search::find_from;
use crate::search::find_sub;
use crate::search::find_sub_from;
use crate::search::lemma_find_from_some;
use crate::trim::all_space;
use crate::trim::is_all_space;
use crate::trim::trim_end;
use crate::trim::trim_end_str;
use crate::trim::trim_start;
use crate::trim::trim_start_str;

verus! {

/// The literal line that opens the generated section.
pub open spec fn begin_marker() -> Seq<char> {
    "# BEGIN git-pair"@
}

/// The literal line that closes the generated section.
pub open spec fn end_marker() -> Seq<char> {
    "# END git-pair"@
}

/// The interpreter line given to a hook file this tool creates from nothing.
pub open spec fn shebang_line() -> Seq<char> {
    "#!/bin/sh\n"@
}

/// What merging the section into a hook file yields.
///
/// With no begin marker, the section is appended: onto a fresh interpreter
/// line if the file is blank, else after the file's trimmed content and one
/// blank line.  With a begin marker, the span from the first begin marker
/// through the first end marker after it is replaced by the section alone,
/// the text before joined by exactly one newline when non-empty, the text
/// after likewise; a begin marker with no end marker after it is corrupt.
pub open spec fn merge_spec(existing: Seq<char>, section: Seq<char>) -> Result<
    Seq<char>,
    PairError,
> {
    match find_first(existing, begin_marker()) {
        None => Ok(
            if all_space(existing) {
                shebang_line() + section
            } else {
                trim_end(existing) + "\n\n"@ + section
            },
        ),
        Some(b) => match find_from(existing, end_marker(), b) {
            None => Err(PairError::MalformedHook),
            Some(e) => {
                let before_t = trim_end(existing.take(b));
                let after_t = trim_start(existing.skip(e + end_marker().len()));
                let front = if before_t.len() > 0 {
                    before_t + "\n"@
                } else {
                    Seq::<char>::empty()
                };
                let back = if after_t.len() > 0 {
                    "\n"@ + after_t
                } else {
                    Seq::<char>::empty()
                };
                Ok(front + section + back)
            },
        },
    }
}

/// What cutting the section out of a hook file yields.
///
/// `Ok(None)` signals that no begin marker is present and the file is not
/// ours to touch.  Otherwise the span from the first begin marker through
/// the first end marker after it is removed, the two sides joined by one
/// newline only when both are non-empty; a begin marker with no end marker
/// after it is corrupt.
pub open spec fn strip_spec(content: Seq<char>) -> Result<Option<Seq<char>>, PairError> {
    match find_first(content, begin_marker()) {
        None => Ok(None),
        Some(b) => match find_from(content, end_marker(), b) {
            None => Err(PairError::MalformedHook),
            Some(e) => {
                let before_t = trim_end(content.take(b));
                let after_t = trim_start(content.skip(e + end_marker().len()));
                Ok(
                    Some(
                        if before_t.len() > 0 && after_t.len() > 0 {
                            before_t + "\n"@ + after_t
                        } else {
                            before_t + after_t
                        },
                    ),
                )
            },
        },
    }
}

/// The scanner state behind [`effectively_empty`]: from position `i` on,
/// with `in_comment` saying whether `i` sits inside a comment line, every
/// character is whitespace or part of a comment line.
pub open spec fn effectively_empty_from(s: Seq<char>, i: int, in_comment: bool) -> bool
    decreases s.len() - i,
{
    if i < 0 || i >= s.len() {
        true
    } else if in_comment {
        if s[i] == '\n' {
            effectively_empty_from(s, i + 1, false)
        } else {
            effectively_empty_from(s, i + 1, true)
        }
    } else if is_space(s[i]) {
        effectively_empty_from(s, i + 1, false)
    } else if s[i] == '#' {
        effectively_empty_from(s, i + 1, true)
    } else {
        false
    }
}

/// Every line of `s`, once trimmed, is blank or begins with `#`: deleting a
/// hook file with such content loses nothing but comments and whitespace.
pub open spec fn effectively_empty(s: Seq<char>) -> bool {
    effectively_empty_from(s, 0, false)
}

/// A single line passes when, after leading whitespace, it is empty or
/// opens with the comment character.
pub open spec fn line_ok(l: Seq<char>) -> bool
    decreases l.len(),
{
    if l.len() == 0 {
        true
    } else if is_space(l[0]) {
        line_ok(l.drop_first())
    } else {
        l[0] == '#'
    }
}

/// The scanner's position shifts with a dropped prefix.
proof fn lemma_scan_from_skip(s: Seq<char>, i: int, j: int, in_comment: bool)
    requires
        0 <= i <= s.len(),
        0 <= j,
    ensures
        effectively_empty_from(s, i + j, in_comment) == effectively_empty_from(
            s.skip(i),
            j,
            in_comment,
        ),
    decreases s.len() + 1 - (i + j),
{
    if i + j >= s.len() {
    } else {
        assert(s.skip(i)[j] == s[i + j]);
        lemma_scan_from_skip(s, i, j + 1, false);
        lemma_scan_from_skip(s, i, j + 1, true);
    }
}

/// Inside a comment, the scanner runs to the line's end and resumes there.
proof fn lemma_scan_comment(s: Seq<char>, i: int, q: int)
    requires
        0 <= i <= q <= s.len(),
        forall|j: int| i <= j < q ==> s[j] != '\n',
        q < s.len() ==> s[q] == '\n',
    ensures
        effectively_empty_from(s, i, true) == effectively_empty_from(s, q + 1, false),
    decreases q - i,
{
    if i == q {
    } else {
        lemma_scan_comment(s, i + 1, q);
    }
}

/// Across one whole line, the scanner accepts exactly when the line passes
/// and the rest is accepted.
proof fn lemma_scan_line(s: Seq<char>, i: int, q: int)
    requires
        0 <= i <= q <= s.len(),
        forall|j: int| i <= j < q ==> s[j] != '\n',
        q < s.len() ==> s[q] == '\n',
    ensures
        effectively_empty_from(s, i, false) == (line_ok(s.subrange(i, q))
            && effectively_empty_from(s, q + 1, false)),
    decreases q - i,
{
    let l = s.subrange(i, q);
    if i == q {
    } else {
        assert(l[0] == s[i]);
        assert(l.drop_first() =~= s.subrange(i + 1, q));
        if is_space(s[i]) {
            lemma_scan_line(s, i + 1, q);
        } else if s[i] == '#' {
            lemma_scan_comment(s, i + 1, q);
        } else {
        }
    }
}

/// The scanner means exactly the line-wise sentence: content is effectively
/// empty if and only if every one of its lines, once leading whitespace is
/// dropped, is blank or begins with `#`.
pub proof fn lemma_effectively_empty_by_lines(s: Seq<char>)
    ensures
        effectively_empty(s) <==> (forall|k: int|
            0 <= k < lines_spec(s).len() ==> line_ok(
                lines_spec(s)[k],
            )),
    decreases s.len(),
{
    if s.len() == 0 {
        assert(lines_spec(s) =~= Seq::<Seq<char>>::empty());
    } else {
        lemma_line_end_from_bounds(s, 0);
        let q = line_end_from(s, 0);
        let l0 = s.subrange(0, q);
        lemma_scan_line(s, 0, q);
        let ls = lines_spec(s);
        if q + 1 <= s.len() {
            lemma_lines_from_skip(s, q + 1);
            let r = s.skip(q + 1);
            lemma_scan_from_skip(s, q + 1, 0, false);
            lemma_effectively_empty_by_lines(r);
            let lr = lines_spec(r);
            assert(ls =~= seq![l0] + lr);
            assert(ls[0] == l0);
            if line_ok(l0) && (forall|k: int| 0 <= k < lr.len() ==> line_ok(lr[k])) {
                assert forall|k: int| 0 <= k < ls.len() implies line_ok(ls[k]) by {
                    if k > 0 {
                        assert(ls[k] == lr[k - 1]);
                    }
                }
            }
            if forall|k: int| 0 <= k < ls.len() ==> line_ok(ls[k]) {
                assert(line_ok(ls[0]));
                assert forall|k: int| 0 <= k < lr.len() implies line_ok(lr[k]) by {
                    assert(lr[k] == ls[k + 1]);
                    assert(line_ok(ls[k + 1]));
                }
            }
        } else {
            assert(lines_from(s, q + 1) =~= Seq::<Seq<char>>::empty());
            assert(ls =~= seq![l0]);
            assert(ls[0] == l0);
        }
    }
}

/// Executable test for [`effectively_empty`].
pub fn is_effectively_empty(content: &str) -> (r: bool)
    ensures
        r == effectively_empty(content@),
{
    let n = content.unicode_len();
    let mut i: usize = 0;
    let mut in_comment = false;
    while i < n
        invariant
            0 <= i <= n,
            n == content@.len(),
            effectively_empty(content@) == effectively_empty_from(
                content@,
                i as int,
                in_comment,
            ),
        decreases n - i,
    {
        let c = content.get_char(i);
        if in_comment {
            if c == '\n' {
                in_comment = false;
            }
        } else if c == '#' {
            in_comment = true;
        } else if !is_space_char(c) {
            return false;
        }
        i = i + 1;
    }
    true
}

/// Executable section merge, exactly [`merge_spec`].
pub fn merge_git_pair_section(existing: &str, section: &str) -> (r: Result<String, PairError>)
    ensures
        (match merge_spec(existing@, section@) {
            Ok(v) => r is Ok && r->Ok_0@ == v,
            Err(pe) => r is Err && r->Err_0 == pe,
        }),
{
    let begin = "# BEGIN git-pair";
    let end = "# END git-pair";
    match find_sub(existing, begin) {
        None => {
            let mut out = String::new();
            if is_all_space(existing) {
                out.append("#!/bin/sh\n");
                out.append(section);
            } else {
                out.append(trim_end_str(existing));
                out.append("\n\n");
                out.append(section);
            }
            Ok(out)
        },
        Some(b) => {
            proof {
                lemma_find_from_some(existing@, begin@, 0, b as int);
            }
            match find_sub_from(existing, end, b) {
                None => Err(PairError::MalformedHook),
                Some(e) => {
                    proof {
                        lemma_find_from_some(existing@, end@, b as int, e as int);
                    }
                    let endlen = end.unicode_len();
                    let n = existing.unicode_len();
                    let before = existing.substring_char(0, b);
                    let after = existing.substring_char(e + endlen, n);
                    let before_t = trim_end_str(before);
                    let after_t = trim_start_str(after);
                    let mut out = String::new();
                    if !before_t.is_empty() {
                        out.append(before_t);
                        out.append("\n");
                    }
                    out.append(section);
                    if !after_t.is_empty() {
                        out.append("\n");
                        out.append(after_t);
                    }
                    proof {
                        assert(out@ =~= merge_spec(existing@, section@)->Ok_0);
                    }
                    Ok(out)
                },
            }
        },
    }
}

/// Executable section removal, exactly [`strip_spec`].
pub fn remove_git_pair_section(content: &str) -> (r: Result<Option<String>, PairError>)
    ensures
        (match strip_spec(content@) {
            Ok(None) => r is Ok && r->Ok_0 is None,
            Ok(Some(v)) => r is Ok && r->Ok_0 is Some && r->Ok_0->0@ == v,
            Err(pe) => r is Err && r->Err_0 == pe,
        }),
{
    let begin = "# BEGIN git-pair";
    let end = "# END git-pair";
    match find_sub(content, begin) {
        None => Ok(None),
        Some(b) => {
            proof {
                lemma_find_from_some(content@, begin@, 0, b as int);
            }
            match find_sub_from(content, end, b) {
                None => Err(PairError::MalformedHook),
                Some(e) => {
                    proof {
                        lemma_find_from_some(content@, end@, b as int, e as int);
                    }
                    let endlen = end.unicode_len();
                    let n = content.unicode_len();
                    let before = content.substring_char(0, b);
                    let after = content.substring_char(e + endlen, n);
                    let before_t = trim_end_str(before);
                    let after_t = trim_start_str(after);
                    let mut out = String::new();
                    out.append(before_t);
                    if !before_t.is_empty() && !after_t.is_empty() {
                        out.append("\n");
                    }
                    out.append(after_t);
                    proof {
                        assert(out@ =~= strip_spec(content@)->Ok_0->0);
                    }
                    Ok(Some(out))
                },
            }
        },
    }
}

} // verus!
