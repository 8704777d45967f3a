//! Plain-data pictures of what a repository reports.

pub mod blame;
pub mod branch;
pub mod commit;
pub mod file_status;
pub mod repository_state;
pub mod signature;
pub mod tag;

pub use blame::{Blame, BlameHunk};
pub use branch::Branch;
pub use commit::Commit;
pub use file_status::FileStatus;
pub use repository_state::RepositoryState;
pub use signature::Signature;
pub use tag::Tag;
