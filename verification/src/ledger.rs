//! The per-branch co-author ledger: a two-line header comment followed by
//! one serialized record line per co-author, in insertion order.  The
//! functions here read and rewrite ledger content: extracting the record
//! lines, appending a record unless an identical one is already present,
//! filtering records out by a flexible matcher, and rendering the ledger
//! back from a header and the records that remain.

use vstd::prelude::*;
use crate::PairError;
use crate::lines::lemma_filter_push;
use crate::lines::lemma_lines_concat;
use crate::lines::lemma_single_line;
use crate::lines::lines_spec;
use crate::lines::split_lines;
use crate::roster::RosterEntry;
use crate::roster::RosterEntryV;
use crate::roster::find_alias;
use crate::roster::find_alias_spec;
use crate::search::contains_seq;
use crate::search::match_at;
use crate::search::no_newline;
use crate::search::str_contains_sub;
use crate::search::str_starts_with;
use crate::strutil::lower_of;
use crate::strutil::lowercase;

verus! {

/// The prefix that marks a serialized co-author record line.
pub open spec fn coauthor_prefix() -> Seq<char> {
    "Co-authored-by:"@
}

/// The serialized record for one co-author, without a newline.
pub open spec fn coauthor_line_spec(name: Seq<char>, surname: Seq<char>, email: Seq<char>) -> Seq<
    char,
> {
    "Co-authored-by: "@ + name + " "@ + surname + " <"@ + email + ">"@
}

/// The two-line ledger header for a branch.
pub open spec fn header_spec(branch: Seq<char>) -> Seq<char> {
    "# git-pair configuration file for branch '"@ + branch
        + "'\n# Co-authors will be listed here\n"@
}

/// A line is a record when it carries the record prefix.
pub open spec fn is_record_line(l: Seq<char>) -> bool {
    match_at(l, coauthor_prefix(), 0)
}

/// The record lines of ledger content, in order.
pub open spec fn record_lines(s: Seq<char>) -> Seq<Seq<char>> {
    lines_spec(s).filter(|l: Seq<char>| is_record_line(l))
}

/// The identifier matches a record line when the line contains it with
/// Unicode case folded on both sides (as `str::to_lowercase` folds), or
/// contains it verbatim.
pub open spec fn matches_spec(line: Seq<char>, ident: Seq<char>) -> bool {
    contains_seq(lower_of(line), lower_of(ident)) || contains_seq(line, ident)
}

/// Executable matcher, exactly [`matches_spec`].
pub fn matches_coauthor(coauthor_line: &str, identifier: &str) -> (r: bool)
    ensures
        r == matches_spec(coauthor_line@, identifier@),
{
    let ll = lowercase(coauthor_line);
    let li = lowercase(identifier);
    if str_contains_sub(ll.as_str(), li.as_str()) {
        true
    } else {
        str_contains_sub(coauthor_line, identifier)
    }
}

/// Builds the serialized record line for one co-author.
pub fn make_coauthor_line(name: &str, surname: &str, email: &str) -> (r: String)
    ensures
        r@ == coauthor_line_spec(name@, surname@, email@),
{
    let mut out = String::new();
    out.append("Co-authored-by: ");
    out.append(name);
    out.append(" ");
    out.append(surname);
    out.append(" <");
    out.append(email);
    out.append(">");
    proof {
        assert(out@ =~= coauthor_line_spec(name@, surname@, email@));
    }
    out
}

/// Builds the two-line ledger header for a branch; fresh and cleared ledgers
/// hold exactly this.
pub fn ledger_header(branch: &str) -> (r: String)
    ensures
        r@ == header_spec(branch@),
{
    let mut out = String::new();
    out.append("# git-pair configuration file for branch '");
    out.append(branch);
    out.append("'\n# Co-authors will be listed here\n");
    proof {
        assert(out@ =~= header_spec(branch@));
    }
    out
}

/// The record lines of ledger content, in order: the pure core of listing
/// co-authors.
pub fn extract_coauthors(content: &str) -> (r: Vec<String>)
    ensures
        r.deep_view() == record_lines(content@),
{
    let ls = split_lines(content);
    let ghost dv = ls.deep_view();
    let mut out: Vec<String> = Vec::new();
    let mut i: usize = 0;
    proof {
        reveal(Seq::filter);
        assert(dv.take(0) =~= Seq::<Seq<char>>::empty());
        assert(out.deep_view() =~= dv.take(0).filter(|l: Seq<char>| is_record_line(l)));
    }
    while i < ls.len()
        invariant
            0 <= i <= ls.len(),
            dv == ls.deep_view(),
            dv.len() == ls.len(),
            dv == lines_spec(content@),
            out.deep_view() == dv.take(i as int).filter(|l: Seq<char>| is_record_line(l)),
        decreases ls.len() - i,
    {
        let ghost prev = out.deep_view();
        proof {
            assert(dv[i as int] == ls@[i as int]@);
            assert(dv.take(i + 1) =~= dv.take(i as int).push(dv[i as int]));
            lemma_filter_push(dv.take(i as int), |l: Seq<char>| is_record_line(l), dv[i as int]);
        }
        if str_starts_with(ls[i].as_str(), "Co-authored-by:") {
            out.push(ls[i].clone());
            proof {
                assert(out.deep_view() =~= prev.push(dv[i as int]));
            }
        }
        i = i + 1;
    }
    proof {
        assert(dv.take(dv.len() as int) =~= dv);
    }
    out
}

/// The outcome of appending one co-author to ledger content.
pub enum AddOutcome {
    /// The identical serialized record is already present: no mutation.
    AlreadyExists,
    /// The record was appended; the new ledger content is carried.
    Added(String),
}

/// Appends a co-author record to ledger content unless the identical
/// serialized record is already present somewhere in it.
pub fn add_coauthor_content(content: &str, name: &str, surname: &str, email: &str) -> (r:
    AddOutcome)
    ensures
        contains_seq(content@, coauthor_line_spec(name@, surname@, email@)) ==> r
            is AlreadyExists,
        !contains_seq(content@, coauthor_line_spec(name@, surname@, email@)) ==> (r matches
            AddOutcome::Added(out) && out@ == content@ + coauthor_line_spec(
            name@,
            surname@,
            email@,
        ) + "\n"@),
{
    let line = make_coauthor_line(name, surname, email);
    if str_contains_sub(content, line.as_str()) {
        AddOutcome::AlreadyExists
    } else {
        let mut out = String::new();
        out.append(content);
        out.append(line.as_str());
        out.append("\n");
        proof {
            assert(out@ =~= content@ + coauthor_line_spec(name@, surname@, email@) + "\n"@);
        }
        AddOutcome::Added(out)
    }
}

/// Appending a record plants its serialized line in the content, so a
/// second add of the same co-author finds it and reports that it already
/// exists rather than appending again.
pub proof fn lemma_add_twice(
    content: Seq<char>,
    name: Seq<char>,
    surname: Seq<char>,
    email: Seq<char>,
)
    ensures
        contains_seq(
            content + coauthor_line_spec(name, surname, email) + "\n"@,
            coauthor_line_spec(name, surname, email),
        ),
{
    let line = coauthor_line_spec(name, surname, email);
    let c2 = content + line + "\n"@;
    assert(c2.subrange(content.len() as int, content.len() + line.len() as int) =~= line);
    assert(match_at(c2, line, content.len() as int));
}

/// One successful add appends exactly one record: with newline-terminated
/// (or empty) ledger content and newline-free fields, the record lines of
/// the grown content are the old record lines with the new serialized line
/// at the back.  Together with the duplicate check this is all an add can
/// do: one new record, or none.
pub proof fn lemma_add_appends_record(
    content: Seq<char>,
    name: Seq<char>,
    surname: Seq<char>,
    email: Seq<char>,
)
    requires
        content.len() == 0 || content.last() == '\n',
        no_newline(name),
        no_newline(surname),
        no_newline(email),
    ensures
        record_lines(content + coauthor_line_spec(name, surname, email) + "\n"@)
            == record_lines(content).push(coauthor_line_spec(name, surname, email)),
{
    reveal_strlit("Co-authored-by: ");
    reveal_strlit("Co-authored-by:");
    reveal_strlit(" ");
    reveal_strlit(" <");
    reveal_strlit(">");
    reveal_strlit("\n");
    let line = coauthor_line_spec(name, surname, email);
    assert(no_newline(line));
    assert(match_at(line, coauthor_prefix(), 0)) by {
        assert(line.subrange(0, 15) =~= coauthor_prefix());
    }
    let c2 = content + line + "\n"@;
    assert(c2 =~= content + (line + "\n"@));
    lemma_lines_concat(content, line + "\n"@);
    lemma_single_line(line);
    Seq::<Seq<char>>::filter_distributes_over_add(
        lines_spec(content),
        seq![line],
        |l: Seq<char>| is_record_line(l),
    );
    assert(seq![line].filter(|l: Seq<char>| is_record_line(l)) =~= seq![line]) by {
        reveal(Seq::filter);
        assert(seq![line].drop_last() =~= Seq::<Seq<char>>::empty());
        assert(seq![line].last() == line);
    }
    assert(record_lines(c2) =~= record_lines(content).push(line));
}

/// The records that survive a remove by direct identifier match.
pub open spec fn keep_direct(records: Seq<Seq<char>>, ident: Seq<char>) -> Seq<Seq<char>> {
    records.filter(|l: Seq<char>| !matches_spec(l, ident))
}

/// A record falls to the alias path when it contains the resolved name or
/// the resolved email verbatim.
pub open spec fn alias_hit(l: Seq<char>, name: Seq<char>, email: Seq<char>) -> bool {
    contains_seq(l, name) || contains_seq(l, email)
}

/// The records that survive a remove by resolved alias.
pub open spec fn keep_alias(records: Seq<Seq<char>>, name: Seq<char>, email: Seq<char>) -> Seq<
    Seq<char>,
> {
    records.filter(|l: Seq<char>| !alias_hit(l, name, email))
}

/// Drops every record the identifier matches directly.
pub fn filter_records(records: &Vec<String>, identifier: &str) -> (r: Vec<String>)
    ensures
        r.deep_view() == keep_direct(records.deep_view(), identifier@),
{
    let ghost dv = records.deep_view();
    let mut out: Vec<String> = Vec::new();
    let mut i: usize = 0;
    proof {
        reveal(Seq::filter);
        assert(dv.take(0) =~= Seq::<Seq<char>>::empty());
        assert(out.deep_view() =~= dv.take(0).filter(|l: Seq<char>| !matches_spec(l, identifier@)));
    }
    while i < records.len()
        invariant
            0 <= i <= records.len(),
            dv == records.deep_view(),
            dv.len() == records.len(),
            out.deep_view() == dv.take(i as int).filter(
                |l: Seq<char>| !matches_spec(l, identifier@),
            ),
        decreases records.len() - i,
    {
        let ghost prev = out.deep_view();
        proof {
            assert(dv[i as int] == records@[i as int]@);
            assert(dv.take(i + 1) =~= dv.take(i as int).push(dv[i as int]));
            lemma_filter_push(
                dv.take(i as int),
                |l: Seq<char>| !matches_spec(l, identifier@),
                dv[i as int],
            );
        }
        if !matches_coauthor(records[i].as_str(), identifier) {
            out.push(records[i].clone());
            proof {
                assert(out.deep_view() =~= prev.push(dv[i as int]));
            }
        }
        i = i + 1;
    }
    proof {
        assert(dv.take(dv.len() as int) =~= dv);
    }
    out
}

/// Drops every record that contains the resolved name or email.
pub fn filter_alias_records(records: &Vec<String>, name: &str, email: &str) -> (r: Vec<String>)
    ensures
        r.deep_view() == keep_alias(records.deep_view(), name@, email@),
{
    let ghost dv = records.deep_view();
    let mut out: Vec<String> = Vec::new();
    let mut i: usize = 0;
    proof {
        reveal(Seq::filter);
        assert(dv.take(0) =~= Seq::<Seq<char>>::empty());
        assert(out.deep_view() =~= dv.take(0).filter(|l: Seq<char>| !alias_hit(l, name@, email@)));
    }
    while i < records.len()
        invariant
            0 <= i <= records.len(),
            dv == records.deep_view(),
            dv.len() == records.len(),
            out.deep_view() == dv.take(i as int).filter(
                |l: Seq<char>| !alias_hit(l, name@, email@),
            ),
        decreases records.len() - i,
    {
        let ghost prev = out.deep_view();
        proof {
            assert(dv[i as int] == records@[i as int]@);
            assert(dv.take(i + 1) =~= dv.take(i as int).push(dv[i as int]));
            lemma_filter_push(
                dv.take(i as int),
                |l: Seq<char>| !alias_hit(l, name@, email@),
                dv[i as int],
            );
        }
        let hit_name = str_contains_sub(records[i].as_str(), name);
        let hit_email = str_contains_sub(records[i].as_str(), email);
        if !hit_name && !hit_email {
            out.push(records[i].clone());
            proof {
                assert(out.deep_view() =~= prev.push(dv[i as int]));
            }
        }
        i = i + 1;
    }
    proof {
        assert(dv.take(dv.len() as int) =~= dv);
    }
    out
}

/// Record lines joined back into ledger text, one newline after each.
pub open spec fn joined_records(records: Seq<Seq<char>>) -> Seq<char>
    decreases records.len(),
{
    if records.len() == 0 {
        Seq::<char>::empty()
    } else {
        records[0] + "\n"@ + joined_records(records.drop_first())
    }
}

/// Renders ledger content: the branch header, then the given records.
pub fn render_ledger(branch: &str, records: &Vec<String>) -> (r: String)
    ensures
        r@ == header_spec(branch@) + joined_records(records.deep_view()),
{
    let ghost dv = records.deep_view();
    let mut out = ledger_header(branch);
    let mut i: usize = 0;
    proof {
        assert(dv.skip(0) =~= dv);
    }
    while i < records.len()
        invariant
            0 <= i <= records.len(),
            dv == records.deep_view(),
            dv.len() == records.len(),
            out@ + joined_records(dv.skip(i as int)) == header_spec(branch@) + joined_records(dv),
        decreases records.len() - i,
    {
        let ghost prev = out@;
        proof {
            assert(dv.skip(i as int).drop_first() =~= dv.skip(i + 1));
            assert(dv.skip(i as int)[0] == dv[i as int]);
            assert(dv[i as int] == records@[i as int]@);
        }
        out.append(records[i].as_str());
        out.append("\n");
        proof {
            assert(out@ + joined_records(dv.skip(i + 1)) =~= prev + joined_records(
                dv.skip(i as int),
            ));
        }
        i = i + 1;
    }
    proof {
        assert(joined_records(dv.skip(dv.len() as int)) =~= Seq::<char>::empty());
        assert(out@ =~= out@ + joined_records(dv.skip(dv.len() as int)));
    }
    out
}

/// Which records a remove keeps: by direct match when it removes anything,
/// else by alias resolution; `None` when neither path removes a record.
pub open spec fn remove_plan(
    records: Seq<Seq<char>>,
    ident: Seq<char>,
    roster: Seq<RosterEntryV>,
) -> Option<Seq<Seq<char>>> {
    let direct = keep_direct(records, ident);
    if direct.len() < records.len() {
        Some(direct)
    } else {
        match find_alias_spec(roster, ident) {
            None => None,
            Some(en) => {
                let kept = keep_alias(records, en.name, en.email);
                if kept.len() < records.len() {
                    Some(kept)
                } else {
                    None
                }
            },
        }
    }
}

/// A remove that succeeded: the rewritten ledger content and how many
/// records went.
pub struct RemovedLedger {
    /// The new ledger content: header then surviving records.
    pub content: String,
    /// How many records the identifier removed.
    pub removed: usize,
}

/// Removes every record the identifier matches from ledger content.
///
/// The identifier is first matched directly against each record line; when
/// that removes nothing, it is resolved as an alias against the roster and
/// the resolved name and email are matched instead.  When neither path
/// removes a record the ledger is untouched and the remove fails.
pub fn remove_coauthor_content(
    content: &str,
    branch: &str,
    identifier: &str,
    roster: &Vec<RosterEntry>,
) -> (r: Result<RemovedLedger, PairError>)
    ensures
        (match remove_plan(record_lines(content@), identifier@, roster.deep_view()) {
            Some(kept) => r is Ok && r->Ok_0.content@ == header_spec(branch@) + joined_records(
                kept,
            ) && r->Ok_0.removed == record_lines(content@).len() - kept.len(),
            None => r == Err::<RemovedLedger, PairError>(PairError::NotFound),
        }),
{
    let records = extract_coauthors(content);
    let total = records.len();
    let kept = filter_records(&records, identifier);
    proof {
        records.deep_view().lemma_filter_len(|l: Seq<char>| !matches_spec(l, identifier@));
        assert(kept.deep_view().len() == kept.len());
        assert(records.deep_view().len() == records.len());
    }
    if kept.len() < total {
        let out = render_ledger(branch, &kept);
        return Ok(RemovedLedger { content: out, removed: total - kept.len() });
    }
    match find_alias(roster, identifier) {
        None => Err(PairError::NotFound),
        Some(ix) => {
            let kept2 = filter_alias_records(
                &records,
                roster[ix].name.as_str(),
                roster[ix].email.as_str(),
            );
            proof {
                records.deep_view().lemma_filter_len(
                    |l: Seq<char>|
                        !alias_hit(l, roster@[ix as int].name@, roster@[ix as int].email@),
                );
                assert(kept2.deep_view().len() == kept2.len());
            }
            if kept2.len() < total {
                let out = render_ledger(branch, &kept2);
                Ok(RemovedLedger { content: out, removed: total - kept2.len() })
            } else {
                Err(PairError::NotFound)
            }
        },
    }
}

} // verus!
