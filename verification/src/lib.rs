//! Commit-history extraction for a repository-visualization front end.
//!
//! The library produces immutable value records describing a repository's
//! commit history in two shapes: a linear log of `CommitInfo` records read
//! through the `git2` library, and a graph of `CommitDAG` nodes parsed from
//! the line-oriented output of the version-control tool's own log command.

pub mod config;
pub mod git_log;
pub mod parse;
pub mod scan;
pub mod types;

pub use config::identity_from_output;
pub use config::Config;
pub use git_log::get_git_log;
pub use git_log::make_commit_info;
pub use git_log::records_for_oids;
pub use parse::parse_commit_dag;
pub use parse::parse_dag_line;
pub use parse::parse_u64;
pub use parse::split_tokens;
pub use types::Commit;
pub use types::CommitDAG;
pub use types::CommitInfo;
