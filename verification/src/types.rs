//! Value records describing commits, handed to the presentation layer.

use vstd::prelude::*;

verus! {

/// One node of the commit graph, parsed from a delimited log line.
pub struct CommitDAG {
    /// Full commit hash.
    pub id: String,
    /// Parent commit hashes, in the order the log line reports them.
    pub parents: Vec<String>,
    /// Author display name.
    pub author: String,
    /// Author contact address.
    pub email: String,
    /// Author time, seconds since the epoch; zero when unparsable.
    pub timestamp: u64,
    /// Summary line of the commit message.
    pub message: String,
}

/// A commit with author and committer identities kept separate.
pub struct Commit {
    pub id: String,
    pub message: String,
    pub author_name: String,
    pub author_email: String,
    pub committer_name: String,
    pub committer_email: String,
    pub timestamp: i64,
    pub parent_ids: Vec<String>,
}

/// One record of the linear log view.
pub struct CommitInfo {
    /// Full commit hash.
    pub id: String,
    /// Summary line of the commit message; empty when the commit has none.
    pub message: String,
    /// Formatted author display string.
    pub author: String,
    /// Author time, seconds since the epoch.
    pub timestamp: i64,
    /// Parent commit hashes in the backend's reported order; empty for a root
    /// commit, two or more for a merge.
    pub parents: Vec<String>,
}

} // verus!
