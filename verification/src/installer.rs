//! The hook content generator and the install/remove decision logic.
//!
//! The generated section is one fixed block of shell script: at run time it
//! re-derives the active branch and reads that branch's ledger, so a single
//! installed section serves every branch without regeneration on checkout.
//! Installing merges this block into whatever hook file is present;
//! removing cuts it back out and decides whether the remainder still earns
//! a file of its own.

use vstd::prelude::*;
use crate::PairError;
use crate::laws::lemma_marker_facts;
use crate::laws::lemma_merge_strip_inverse_append;
use crate::laws::lemma_merge_strip_inverse_splice;
use crate::laws::well_formed_section;
use crate::search::find_first;
use crate::search::find_from;
use crate::search::match_at;
use crate::ledger::extract_coauthors;
use crate::ledger::record_lines;
use crate::section::begin_marker;
use crate::section::effectively_empty;
use crate::section::end_marker;
use crate::section::is_effectively_empty;
use crate::section::merge_git_pair_section;
use crate::section::merge_spec;
use crate::section::remove_git_pair_section;
use crate::section::strip_spec;
use crate::trim::all_space;
use crate::trim::trim_end;

verus! {

/// The full text of the generated section, begin marker through end marker.
pub open spec fn hook_section_text() -> Seq<char> {
    "# BEGIN git-pair\n# git-pair hook to automatically add co-authors\n\nCOMMIT_MSG_FILE=$1\nCOMMIT_SOURCE=$2\n\n# Only add co-authors for regular commits (not merges, rebases, etc.)\nif [ -z \"$COMMIT_SOURCE\" ] || [ \"$COMMIT_SOURCE\" = \"message\" ]; then\n  # Check if co-authors are already present\n  if ! grep -q \"Co-authored-by:\" \"$COMMIT_MSG_FILE\"; then\n    # Get current branch and config file\n    CURRENT_BRANCH=$(git branch --show-current)\n    SAFE_BRANCH=$(echo \"$CURRENT_BRANCH\" | sed 's/[/\\\\:]/_/g')\n    CONFIG_FILE=\".git/git-pair/config-$SAFE_BRANCH\"\n\n    # Add co-authors from branch-specific config if it exists\n    if [ -f \"$CONFIG_FILE\" ]; then\n      COAUTHORS=$(grep '^Co-authored-by:' \"$CONFIG_FILE\")\n      if [ -n \"$COAUTHORS\" ]; then\n        echo \"\" >> \"$COMMIT_MSG_FILE\"\n        echo \"$COAUTHORS\" >> \"$COMMIT_MSG_FILE\"\n      fi\n    fi\n  fi\nfi\n# END git-pair"@
}

/// Produces the generated section, exactly [`hook_section_text`].
pub fn hook_section() -> (r: String)
    ensures
        r@ == hook_section_text(),
{
    let mut out = String::new();
    out.append(
        "# BEGIN git-pair\n# git-pair hook to automatically add co-authors\n\nCOMMIT_MSG_FILE=$1\nCOMMIT_SOURCE=$2\n\n# Only add co-authors for regular commits (not merges, rebases, etc.)\nif [ -z \"$COMMIT_SOURCE\" ] || [ \"$COMMIT_SOURCE\" = \"message\" ]; then\n  # Check if co-authors are already present\n  if ! grep -q \"Co-authored-by:\" \"$COMMIT_MSG_FILE\"; then\n    # Get current branch and config file\n    CURRENT_BRANCH=$(git branch --show-current)\n    SAFE_BRANCH=$(echo \"$CURRENT_BRANCH\" | sed 's/[/\\\\:]/_/g')\n    CONFIG_FILE=\".git/git-pair/config-$SAFE_BRANCH\"\n\n    # Add co-authors from branch-specific config if it exists\n    if [ -f \"$CONFIG_FILE\" ]; then\n      COAUTHORS=$(grep '^Co-authored-by:' \"$CONFIG_FILE\")\n      if [ -n \"$COAUTHORS\" ]; then\n        echo \"\" >> \"$COMMIT_MSG_FILE\"\n        echo \"$COAUTHORS\" >> \"$COMMIT_MSG_FILE\"\n      fi\n    fi\n  fi\nfi\n# END git-pair",
    );
    proof {
        assert(out@ =~= hook_section_text());
    }
    out
}

/// The generated section is well formed: it opens with the begin marker,
/// closes with the end marker, and contains no other occurrence of either,
/// so the editor's round-trip and single-pair laws apply to every install.
#[verifier::rlimit(100)]
pub proof fn lemma_hook_section_well_formed()
    ensures
        well_formed_section(hook_section_text()),
{
    lemma_marker_facts();
    reveal_strlit("# BEGIN git-pair");
    reveal_strlit("# END git-pair");
    reveal_strlit(
        "# BEGIN git-pair\n# git-pair hook to automatically add co-authors\n\nCOMMIT_MSG_FILE=$1\nCOMMIT_SOURCE=$2\n\n# Only add co-authors for regular commits (not merges, rebases, etc.)\nif [ -z \"$COMMIT_SOURCE\" ] || [ \"$COMMIT_SOURCE\" = \"message\" ]; then\n  # Check if co-authors are already present\n  if ! grep -q \"Co-authored-by:\" \"$COMMIT_MSG_FILE\"; then\n    # Get current branch and config file\n    CURRENT_BRANCH=$(git branch --show-current)\n    SAFE_BRANCH=$(echo \"$CURRENT_BRANCH\" | sed 's/[/\\\\:]/_/g')\n    CONFIG_FILE=\".git/git-pair/config-$SAFE_BRANCH\"\n\n    # Add co-authors from branch-specific config if it exists\n    if [ -f \"$CONFIG_FILE\" ]; then\n      COAUTHORS=$(grep '^Co-authored-by:' \"$CONFIG_FILE\")\n      if [ -n \"$COAUTHORS\" ]; then\n        echo \"\" >> \"$COMMIT_MSG_FILE\"\n        echo \"$COAUTHORS\" >> \"$COMMIT_MSG_FILE\"\n      fi\n    fi\n  fi\nfi\n# END git-pair",
    );
    let s = hook_section_text();
    assert(s.len() == 863);
    assert(s.subrange(0, 16) =~= begin_marker());
    assert(s.subrange(849, 863) =~= end_marker());
    assert forall|j: int| match_at(s, begin_marker(), j) implies j == 0 by {
        if 0 < j && j + 16 <= 863 {
            assert(s.subrange(j, j + 16)[0] == s[j]);
            assert(s.subrange(j, j + 16)[2] == s[j + 2]);
            assert(s[j] == '#' && s[j + 2] == 'B');
            assert(false);
        }
    }
    assert forall|j: int| match_at(s, end_marker(), j) implies j == 849 by {
        if 0 <= j && j != 849 && j + 14 <= 863 {
            assert(s.subrange(j, j + 14)[0] == s[j]);
            assert(s.subrange(j, j + 14)[2] == s[j + 2]);
            assert(s[j] == '#' && s[j + 2] == 'E');
            assert(false);
        }
    }
}

/// The round-trip law at the generated section itself: installing the hook
/// into marker-free, non-blank content and then stripping it returns the
/// content end-trimmed — an install can always be undone.
pub proof fn lemma_install_then_strip(existing: Seq<char>)
    requires
        forall|i: int| !match_at(existing, begin_marker(), i),
        forall|i: int| !match_at(existing, end_marker(), i),
        !all_space(existing),
    ensures
        merge_spec(existing, hook_section_text()) is Ok,
        strip_spec(merge_spec(existing, hook_section_text())->Ok_0) == Ok::<
            Option<Seq<char>>,
            PairError,
        >(Some(trim_end(existing))),
{
    lemma_hook_section_well_formed();
    lemma_merge_strip_inverse_append(existing, hook_section_text());
}

/// The round-trip law for a re-install: replacing an already-installed
/// section and then stripping returns exactly what a strip of the
/// untouched hook file returns.
pub proof fn lemma_reinstall_then_strip(existing: Seq<char>)
    requires
        find_first(existing, begin_marker()) is Some,
        find_from(existing, end_marker(), find_first(existing, begin_marker())->0) is Some,
    ensures
        merge_spec(existing, hook_section_text()) is Ok,
        strip_spec(existing) is Ok,
        strip_spec(merge_spec(existing, hook_section_text())->Ok_0) == strip_spec(existing),
{
    lemma_hook_section_well_formed();
    lemma_merge_strip_inverse_splice(existing, hook_section_text());
}

/// The new hook file content an install writes: the generated section
/// merged into whatever was there.
pub fn install_hook_content(existing: &str) -> (r: Result<String, PairError>)
    ensures
        (match merge_spec(existing@, hook_section_text()) {
            Ok(v) => r is Ok && r->Ok_0@ == v,
            Err(pe) => r is Err && r->Err_0 == pe,
        }),
{
    let section = hook_section();
    merge_git_pair_section(existing, section.as_str())
}

/// What a hook removal should do to the hook file.
pub enum HookRemoval {
    /// No section is present: leave the file untouched.
    NoSection,
    /// Only comments, whitespace or a shebang would remain: delete the file.
    DeleteFile,
    /// Write this content back in place of the old file.
    WriteBack(String),
}

/// Decides a hook removal: cut the section out, then delete the file when
/// nothing of substance remains, else write the remainder back.
pub fn remove_hook_content(content: &str) -> (r: Result<HookRemoval, PairError>)
    ensures
        (match strip_spec(content@) {
            Ok(None) => r is Ok && r->Ok_0 is NoSection,
            Ok(Some(v)) => r is Ok && (if effectively_empty(v) {
                r->Ok_0 is DeleteFile
            } else {
                r->Ok_0 matches HookRemoval::WriteBack(w) && w@ == v
            }),
            Err(pe) => r is Err && r->Err_0 == pe,
        }),
{
    match remove_git_pair_section(content) {
        Err(pe) => Err(pe),
        Ok(None) => Ok(HookRemoval::NoSection),
        Ok(Some(stripped)) => {
            if is_effectively_empty(stripped.as_str()) {
                Ok(HookRemoval::DeleteFile)
            } else {
                Ok(HookRemoval::WriteBack(stripped))
            }
        },
    }
}

/// Which hook operation a ledger mutation must be followed by: install
/// while records remain, removal once none do.
pub enum HookPlan {
    /// Records remain: the hook must be present and current.
    Install,
    /// No records remain: the generated section must go.
    Remove,
}

/// Decides the follow-up hook operation from ledger content.
pub fn plan_hook_update(ledger: &str) -> (r: HookPlan)
    ensures
        r is Install <==> record_lines(ledger@).len() > 0,
{
    let records = extract_coauthors(ledger);
    proof {
        assert(records.deep_view().len() == records@.len());
    }
    if records.len() > 0 {
        HookPlan::Install
    } else {
        HookPlan::Remove
    }
}

} // verus!
