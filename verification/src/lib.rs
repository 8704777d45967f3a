//! Attribution of the lines of a version-controlled source tree to the
//! contributors who last touched them, broken down by language.
//!
//! The library is the reckoning half of a detective that inspects a Git
//! repository. Whoever holds the repository reads it and hands over plain
//! values: the blame of a file as a [`Blame`], the kind of each of its lines by
//! line number, the change of each commit as a [`CommitChange`]. The library
//! combines them:
//!
//! - [`classifier`] tells the kind of each line of a text;
//! - [`attribution`] credits the lines of one file to their authors;
//! - [`snapshot`] merges the files of a tree into one [`ProjectStats`],
//!   passing over what could not be blamed or read;
//! - [`history`] adds up insertions, deletions and touched files over the
//!   commits of a walk, and stops at the first commit that failed;
//! - [`detective`] holds the set of excluded paths that the listing and the
//!   snapshot consult.
//!
//! What the statistics are is said over mathematical models: a [`stats::Tally`]
//! for a [`Stats`], a [`ledger::Ledger`] for a [`ProjectStats`]. Merging
//! ledgers is commutative and associative with the empty ledger as identity
//! ([`ledger`], [`laws`]), so a report does not depend on the order in which
//! its parts were computed or combined.

pub mod attribution;
pub mod classifier;
pub mod detective;
pub mod diff_stats;
pub mod error;
pub mod git;
pub mod history;
pub mod laws;
pub mod layout;
pub mod ledger;
pub mod project_stats;
pub mod remote;
pub mod snapshot;
pub mod stats;
pub mod string_map;
pub mod string_set;
pub mod text;
pub mod totals;

pub use detective::GitDetective;
pub use diff_stats::DiffStats;
pub use error::Error;
pub use git::{Blame, BlameHunk, Branch, Commit, FileStatus, RepositoryState, Signature, Tag};
pub use history::CommitChange;
pub use project_stats::ProjectStats;
pub use snapshot::FileSnapshot;
pub use stats::{LineKind, Stats};
pub use string_map::StringMap;
pub use string_set::StringSet;
