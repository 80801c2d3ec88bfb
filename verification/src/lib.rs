//! Per-branch co-author management for a version-control repository.
//!
//! The heart of the library is the marker-delimited section editor: pure
//! text transformations that install, update, or remove one delimited block
//! of generated automation script inside a user-editable hook file without
//! disturbing surrounding content.  Around it sit the hook content
//! generator, the install/remove decision logic, the per-branch co-author
//! ledger, and the global alias roster.  All functions here are pure: they
//! map file contents (handed in as strings) to new file contents and
//! decisions, so a thin I/O shell can carry the results to disk.

pub mod branch;
pub mod chars;
pub mod installer;
pub mod laws;
pub mod ledger;
pub mod lines;
pub mod names;
pub mod search;
pub mod strutil;
pub mod roster;
pub mod section;
pub mod trim;

use vstd::prelude::*;

verus! {

/// The failure kinds that the library's operations distinguish.
#[derive(Clone, Copy, Debug, PartialEq, Eq, Structural)]
pub enum PairError {
    /// The directory is not a repository root.
    NotARepository,
    /// The per-branch ledger has never been initialized.
    NotInitialized,
    /// The alias is already present in the roster.
    AlreadyExists,
    /// A remove matched no record, or an alias is unknown.
    NotFound,
    /// A begin marker without a matching end marker: fail closed.
    MalformedHook,
    /// A filesystem failure, reported by the I/O shell.
    IoError,
    /// The active branch name could not be resolved.
    BranchResolutionError,
}

} // verus!
