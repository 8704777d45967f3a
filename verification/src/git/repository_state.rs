//! The operation that a repository is in the middle of.

use vstd::prelude::*;

verus! {

/// A listing of the possible states that a repository can be in.
#[derive(Debug, PartialEq, Eq, Clone, Copy, Structural)]
pub enum RepositoryState {
    Clean,
    Merge,
    Revert,
    RevertSequence,
    CherryPick,
    CherryPickSequence,
    Bisect,
    Rebase,
    RebaseInteractive,
    RebaseMerge,
    ApplyMailbox,
    ApplyMailboxOrRebase,
}

} // verus!
