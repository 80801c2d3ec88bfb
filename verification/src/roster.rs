//! The global alias roster: a flat pipe-delimited line store mapping an
//! alias to a person's name and email, shared across branches.  The
//! functions here parse roster content into entries, look an alias up,
//! append a new entry, and add a co-author to a branch ledger by alias.

use vstd::prelude::*;
use crate::PairError;
use crate::ledger::AddOutcome;
use crate::ledger::add_coauthor_content;
use crate::ledger::coauthor_line_spec;
use crate::lines::lines_spec;
use crate::lines::split_lines;
use crate::names::first_name_of;
use crate::names::last_name_of;
use crate::names::split_full_name;
use crate::search::contains_seq;
use crate::search::find_first;
use crate::search::find_from;
use crate::search::find_sub;
use crate::search::find_sub_from;
use crate::search::lemma_find_from_some;
use crate::search::match_at;
use crate::search::str_starts_with;
use crate::strutil::str_eq;
use crate::trim::all_space;
use crate::trim::is_all_space;

verus! {

/// The mathematical shadow of a roster entry.
pub ghost struct RosterEntryV {
    pub alias: Seq<char>,
    pub name: Seq<char>,
    pub email: Seq<char>,
}

/// One alias of the global roster: who it stands for.
pub struct RosterEntry {
    /// The short alias keyed on.
    pub alias: String,
    /// The person's full name.
    pub name: String,
    /// The person's email address.
    pub email: String,
}

impl View for RosterEntry {
    type V = RosterEntryV;

    open spec fn view(&self) -> RosterEntryV {
        RosterEntryV { alias: self.alias@, name: self.name@, email: self.email@ }
    }
}

impl DeepView for RosterEntry {
    type V = RosterEntryV;

    open spec fn deep_view(&self) -> RosterEntryV {
        self.view()
    }
}

/// What one roster line means: comment lines and blank lines carry nothing,
/// and only a line with exactly two pipes is an entry.
pub open spec fn parse_roster_line(l: Seq<char>) -> Option<RosterEntryV> {
    if match_at(l, "#"@, 0) || all_space(l) {
        None
    } else {
        match find_first(l, "|"@) {
            None => None,
            Some(p1) => match find_from(l, "|"@, p1 + 1) {
                None => None,
                Some(p2) => match find_from(l, "|"@, p2 + 1) {
                    Some(p3) => None,
                    None => Some(
                        RosterEntryV {
                            alias: l.subrange(0, p1),
                            name: l.subrange(p1 + 1, p2),
                            email: l.subrange(p2 + 1, l.len() as int),
                        },
                    ),
                },
            },
        }
    }
}

/// The entries carried by a sequence of roster lines, in order.
pub open spec fn roster_from_lines(ls: Seq<Seq<char>>) -> Seq<RosterEntryV>
    decreases ls.len(),
{
    if ls.len() == 0 {
        Seq::<RosterEntryV>::empty()
    } else {
        let rest = roster_from_lines(ls.drop_first());
        match parse_roster_line(ls[0]) {
            Some(en) => seq![en] + rest,
            None => rest,
        }
    }
}

/// The entries of roster content, in order.
pub open spec fn roster_spec(content: Seq<char>) -> Seq<RosterEntryV> {
    roster_from_lines(lines_spec(content))
}

/// Executable parse of one roster line, exactly [`parse_roster_line`].
pub fn parse_roster_entry(line: &str) -> (r: Option<RosterEntry>)
    ensures
        (match parse_roster_line(line@) {
            Some(v) => r is Some && r->0@ == v,
            None => r is None,
        }),
{
    if str_starts_with(line, "#") {
        return None;
    }
    if is_all_space(line) {
        return None;
    }
    proof {
        reveal_strlit("|");
    }
    let n = line.unicode_len();
    match find_sub(line, "|") {
        None => None,
        Some(p1) => {
            proof {
                lemma_find_from_some(line@, "|"@, 0, p1 as int);
                assert("|"@.len() == 1) by {
                    reveal_strlit("|");
                }
            }
            match find_sub_from(line, "|", p1 + 1) {
                None => None,
                Some(p2) => {
                    proof {
                        lemma_find_from_some(line@, "|"@, p1 as int + 1, p2 as int);
                    }
                    match find_sub_from(line, "|", p2 + 1) {
                        Some(_) => None,
                        None => {
                            let alias = line.substring_char(0, p1).to_owned();
                            let name = line.substring_char(p1 + 1, p2).to_owned();
                            let email = line.substring_char(p2 + 1, n).to_owned();
                            Some(RosterEntry { alias, name, email })
                        },
                    }
                },
            }
        },
    }
}

/// Executable roster parse, exactly [`roster_spec`].
pub fn parse_roster(content: &str) -> (r: Vec<RosterEntry>)
    ensures
        r.deep_view() == roster_spec(content@),
{
    let ls = split_lines(content);
    let ghost ldv = ls.deep_view();
    let mut out: Vec<RosterEntry> = Vec::new();
    let mut i: usize = 0;
    proof {
        assert(ldv.skip(0) =~= ldv);
        assert(out.deep_view() =~= Seq::<RosterEntryV>::empty());
        assert(Seq::<RosterEntryV>::empty() + roster_from_lines(ldv) =~= roster_from_lines(ldv));
    }
    while i < ls.len()
        invariant
            0 <= i <= ls.len(),
            ldv == ls.deep_view(),
            ldv.len() == ls.len(),
            ldv == lines_spec(content@),
            roster_spec(content@) == out.deep_view() + roster_from_lines(ldv.skip(i as int)),
        decreases ls.len() - i,
    {
        let ghost prev = out.deep_view();
        proof {
            assert(ldv[i as int] == ls@[i as int]@);
            assert(ldv.skip(i as int)[0] == ldv[i as int]);
            assert(ldv.skip(i as int).drop_first() =~= ldv.skip(i + 1));
        }
        match parse_roster_entry(ls[i].as_str()) {
            Some(en) => {
                proof {
                    let v = parse_roster_line(ldv[i as int])->0;
                    assert(prev.push(v) + roster_from_lines(ldv.skip(i + 1)) =~= prev + (seq![v]
                        + roster_from_lines(ldv.skip(i + 1))));
                }
                out.push(en);
                proof {
                    assert(out.deep_view() =~= prev.push(en@));
                }
            },
            None => {
            },
        }
        i = i + 1;
    }
    proof {
        assert(roster_from_lines(ldv.skip(ldv.len() as int)) =~= Seq::<RosterEntryV>::empty());
        assert(out.deep_view() + Seq::<RosterEntryV>::empty() =~= out.deep_view());
    }
    out
}

/// The first entry whose alias is exactly the one sought.
pub open spec fn find_alias_spec(entries: Seq<RosterEntryV>, alias: Seq<char>) -> Option<
    RosterEntryV,
>
    decreases entries.len(),
{
    if entries.len() == 0 {
        None
    } else if entries[0].alias == alias {
        Some(entries[0])
    } else {
        find_alias_spec(entries.drop_first(), alias)
    }
}

/// Executable alias lookup: the index of the first entry with that alias.
pub fn find_alias(roster: &Vec<RosterEntry>, alias: &str) -> (r: Option<usize>)
    ensures
        (match r {
            Some(ix) => ix < roster.len() && find_alias_spec(roster.deep_view(), alias@) == Some(
                roster.deep_view()[ix as int],
            ),
            None => find_alias_spec(roster.deep_view(), alias@) is None,
        }),
{
    let ghost dv = roster.deep_view();
    let mut i: usize = 0;
    proof {
        assert(dv.skip(0) =~= dv);
    }
    while i < roster.len()
        invariant
            0 <= i <= roster.len(),
            dv == roster.deep_view(),
            dv.len() == roster.len(),
            find_alias_spec(dv, alias@) == find_alias_spec(dv.skip(i as int), alias@),
        decreases roster.len() - i,
    {
        proof {
            assert(dv[i as int] == roster@[i as int]@);
            assert(dv.skip(i as int)[0] == dv[i as int]);
            assert(dv.skip(i as int).drop_first() =~= dv.skip(i + 1));
        }
        if str_eq(roster[i].alias.as_str(), alias) {
            return Some(i);
        }
        i = i + 1;
    }
    None
}

/// Some line of the roster content opens with `alias|`: the alias is taken.
pub open spec fn roster_has_alias(content: Seq<char>, alias: Seq<char>) -> bool {
    exists|k: int|
        0 <= k < lines_spec(content).len() && match_at(
            lines_spec(content)[k],
            alias + "|"@,
            0,
        )
}

/// Executable test for [`roster_has_alias`].
pub fn has_global_alias(content: &str, alias: &str) -> (r: bool)
    ensures
        r == roster_has_alias(content@, alias@),
{
    let mut needle = String::new();
    needle.append(alias);
    needle.append("|");
    proof {
        assert(needle@ =~= alias@ + "|"@);
    }
    let ls = split_lines(content);
    let ghost ldv = ls.deep_view();
    let mut i: usize = 0;
    while i < ls.len()
        invariant
            0 <= i <= ls.len(),
            ldv == ls.deep_view(),
            ldv.len() == ls.len(),
            ldv == lines_spec(content@),
            needle@ == alias@ + "|"@,
            forall|k: int| 0 <= k < i ==> !match_at(ldv[k], alias@ + "|"@, 0),
        decreases ls.len() - i,
    {
        proof {
            assert(ldv[i as int] == ls@[i as int]@);
        }
        if str_starts_with(ls[i].as_str(), needle.as_str()) {
            return true;
        }
        i = i + 1;
    }
    false
}

/// One serialized roster entry line.
pub open spec fn roster_line_spec(alias: Seq<char>, name: Seq<char>, email: Seq<char>) -> Seq<
    char,
> {
    alias + "|"@ + name + "|"@ + email + "\n"@
}

/// The comment header a fresh roster file opens with.
pub open spec fn roster_header_text() -> Seq<char> {
    "# Global git-pair roster\n# Format: alias|name|email\n"@
}

/// Builds the comment header for a fresh roster file.
pub fn roster_header() -> (r: String)
    ensures
        r@ == roster_header_text(),
{
    let mut out = String::new();
    out.append("# Global git-pair roster\n# Format: alias|name|email\n");
    proof {
        assert(out@ =~= roster_header_text());
    }
    out
}

/// Appends one alias entry to roster content, unless a line already opens
/// with that alias.
pub fn add_global_entry(content: &str, alias: &str, name: &str, email: &str) -> (r: Result<
    String,
    PairError,
>)
    ensures
        roster_has_alias(content@, alias@) ==> r == Err::<String, PairError>(
            PairError::AlreadyExists,
        ),
        !roster_has_alias(content@, alias@) ==> r is Ok && r->Ok_0@ == content@ + roster_line_spec(
            alias@,
            name@,
            email@,
        ),
{
    if has_global_alias(content, alias) {
        return Err(PairError::AlreadyExists);
    }
    let mut out = String::new();
    out.append(content);
    out.append(alias);
    out.append("|");
    out.append(name);
    out.append("|");
    out.append(email);
    out.append("\n");
    proof {
        assert(out@ =~= content@ + roster_line_spec(alias@, name@, email@));
    }
    Ok(out)
}

/// Adds a co-author to ledger content by roster alias: the alias resolves
/// to a name and email, the name splits into first and last, and the record
/// is appended unless already present.
pub fn add_coauthor_from_global(roster: &Vec<RosterEntry>, alias: &str, ledger: &str) -> (r:
    Result<AddOutcome, PairError>)
    ensures
        find_alias_spec(roster.deep_view(), alias@) is None ==> r == Err::<AddOutcome, PairError>(
            PairError::NotFound,
        ),
        (match find_alias_spec(roster.deep_view(), alias@) {
            Some(en) => {
                let line = coauthor_line_spec(
                    first_name_of(en.name),
                    last_name_of(en.name),
                    en.email,
                );
                &&& contains_seq(ledger@, line) ==> (r matches Ok(AddOutcome::AlreadyExists))
                &&& !contains_seq(ledger@, line) ==> (r matches Ok(AddOutcome::Added(out))
                    && out@ == ledger@ + line + "\n"@)
            },
            None => true,
        }),
{
    match find_alias(roster, alias) {
        None => Err(PairError::NotFound),
        Some(ix) => {
            let split = split_full_name(roster[ix].name.as_str());
            Ok(
                add_coauthor_content(
                    ledger,
                    split.0.as_str(),
                    split.1.as_str(),
                    roster[ix].email.as_str(),
                ),
            )
        },
    }
}

} // verus!
