//! Branch-name handling: sanitizing a branch name into a filename-safe
//! form, and the ledger path that branch scope lives at, relative to the
//! repository root.

use vstd::prelude::*;
use crate::strutil::push_char;

verus! {

/// Filename-hostile characters map to underscores; all else is kept.
pub open spec fn sanitize_char(c: char) -> char {
    if c == '/' || c == '\\' || c == ':' {
        '_'
    } else {
        c
    }
}

/// The filename-safe form of a branch name.
pub open spec fn sanitize_spec(branch: Seq<char>) -> Seq<char> {
    branch.map_values(|c: char| sanitize_char(c))
}

/// Executable branch-name sanitizer, exactly [`sanitize_spec`].
pub fn sanitize_branch_name(branch: &str) -> (r: String)
    ensures
        r@ == sanitize_spec(branch@),
{
    let n = branch.unicode_len();
    let mut out = String::new();
    let mut i: usize = 0;
    while i < n
        invariant
            0 <= i <= n,
            n == branch@.len(),
            out@ == sanitize_spec(branch@).take(i as int),
        decreases n - i,
    {
        let c = branch.get_char(i);
        if c == '/' || c == '\\' || c == ':' {
            push_char(&mut out, '_');
        } else {
            push_char(&mut out, c);
        }
        proof {
            assert(out@ =~= sanitize_spec(branch@).take(i + 1));
        }
        i = i + 1;
    }
    proof {
        assert(sanitize_spec(branch@).take(n as int) =~= sanitize_spec(branch@));
    }
    out
}

/// The ledger path for a branch, relative to the repository root.
pub open spec fn config_file_spec(branch: Seq<char>) -> Seq<char> {
    ".git/git-pair/config-"@ + sanitize_spec(branch)
}

/// The ledger path for a branch, relative to the repository root: the
/// sanitized branch name keyed under the tool's own directory.
pub fn get_branch_config_file(branch: &str) -> (r: String)
    ensures
        r@ == config_file_spec(branch@),
{
    let mut out = String::new();
    out.append(".git/git-pair/config-");
    let safe = sanitize_branch_name(branch);
    out.append(safe.as_str());
    proof {
        assert(out@ =~= config_file_spec(branch@));
    }
    out
}

} // verus!
