//! The state of a file of the index.

use vstd::prelude::*;

verus! {

/// `git2::Status`, the flags that say how a file differs from the index and
/// from the last commit. The library carries such a value to its caller and
/// never looks inside.
#[verifier::external_type_specification]
#[verifier::external_body]
pub struct ExStatus(git2::Status);

/// The State of a file
#[derive(Debug)]
pub struct FileStatus {
    /// Path to a file
    pub path: String,
    /// Status of a file
    pub status: git2::Status,
}

} // verus!
