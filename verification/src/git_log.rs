//! Linear log extraction through the `git2` library.
//!
//! Every call into `git2` stands behind a trusted wrapper.  What a wrapper
//! returns depends on the repository on disk, so no wrapper promises which
//! value comes back; the wrappers hand back raw backend errors, and verified
//! code turns each into a labeled, provably non-empty description.  The
//! record construction that follows the calls is the verified pair
//! [`make_commit_info`] and [`records_for_oids`], whose contracts are exact
//! for every value the backend can hand them.

use vstd::prelude::*;
use vstd::string::StringExecFns;
use crate::types::CommitInfo;

verus! {

#[verifier::external_type_specification]
#[verifier::external_body]
pub struct ExRepository(git2::Repository);

#[verifier::external_type_specification]
#[verifier::external_body]
pub struct ExRevwalk<'repo>(git2::Revwalk<'repo>);

#[verifier::external_type_specification]
#[verifier::external_body]
pub struct ExOid(git2::Oid);

#[verifier::external_type_specification]
#[verifier::external_body]
pub struct ExGitError(git2::Error);

/// Relies on git2::Repository::open: opens the repository at `path`, or
/// reports why it cannot; which of the two happens depends on the disk.
#[verifier::external_body]
fn open_repo(path: &str) -> Result<git2::Repository, git2::Error> {
    git2::Repository::open(path)
}

/// Relies on git2::Repository::revwalk: creates a traversal handle over the
/// repository's commit graph.
#[verifier::external_body]
fn new_revwalk<'r>(repo: &'r git2::Repository) -> Result<git2::Revwalk<'r>, git2::Error> {
    repo.revwalk()
}

/// Relies on git2::Revwalk::set_sorting with topological order: no commit is
/// yielded before all of its descendants.
#[verifier::external_body]
fn set_topological(walk: &mut git2::Revwalk<'_>) -> Result<(), git2::Error> {
    walk.set_sorting(git2::Sort::TOPOLOGICAL)
}

/// Relies on git2::Revwalk::push_head: starts the traversal at the
/// repository's head reference.
#[verifier::external_body]
fn push_head(walk: &mut git2::Revwalk<'_>) -> Result<(), git2::Error> {
    walk.push_head()
}

/// Relies on git2::Revwalk's iterator: it yields the ids of the commits
/// reachable from the pushed roots, in the configured order.  The ids are
/// collected in that order; the first failure of the walk is returned
/// instead, with no partial list.
#[verifier::external_body]
fn collect_oids(walk: git2::Revwalk<'_>) -> Result<Vec<git2::Oid>, git2::Error> {
    walk.collect()
}

/// Relies on git2::Repository::find_commit to look the commit up, and on the
/// accessors id, summary, author, time and parent_ids of the commit it
/// returns, each projected to a plain value: the hexadecimal id, the summary
/// line (absent when the commit has none or it is not valid text, as
/// git2::Commit::summary_bytes reports), the formatted author signature, the
/// commit time in seconds, and the parent ids in the commit's own order
/// (that iterator ends early if a parent cannot be looked up).
#[verifier::external_body]
fn read_commit(
    repo: &git2::Repository,
    oid: git2::Oid,
) -> Result<(String, Option<String>, String, i64, Vec<String>), git2::Error> {
    let c = repo.find_commit(oid)?;
    Ok((
        c.id().to_string(),
        c.summary().ok().flatten().map(|m| m.to_string()),
        format!("{}", c.author()),
        c.time().seconds(),
        c.parent_ids().map(|p| p.to_string()).collect(),
    ))
}

/// Relies on the display form of git2::Error: the backend's error rendered
/// as text.
#[verifier::external_body]
fn git_error_text(e: &git2::Error) -> String {
    e.to_string()
}

/// Describes a backend failure: the kind of failure, a separator, and the
/// backend's own words.  The description always extends past the label, so
/// it is never empty.
fn describe(kind: &str, e: &git2::Error) -> (r: String)
    ensures
        r@.len() >= kind@.len() + 2,
        r@.subrange(0, kind@.len() as int) == kind@,
{
    let text = git_error_text(e);
    let labeled = String::from_str(kind).concat(": ").concat(text.as_str());
    proof {
        reveal_strlit(": ");
        assert((kind@ + ": "@ + text@).subrange(0, kind@.len() as int) =~= kind@);
    }
    labeled
}

/// Builds the record for one commit from the plain values the backend
/// reported.  Every field is carried over unchanged; a missing summary
/// becomes an empty message, and the parent list keeps exactly the backend's
/// order and length — a root commit therefore yields an empty list, never an
/// absent one, and a merge commit keeps its parents in reported order.
pub fn make_commit_info(
    id: String,
    summary: Option<String>,
    author: String,
    timestamp: i64,
    parents: Vec<String>,
) -> (r: CommitInfo)
    ensures
        r.id@ == id@,
        r.message@ == (match summary {
            Option::Some(m) => m@,
            Option::None => Seq::<char>::empty(),
        }),
        r.author@ == author@,
        r.timestamp == timestamp,
        r.parents@ == parents@,
{
    let message = match summary {
        Option::Some(m) => m,
        Option::None => String::new(),
    };
    CommitInfo { id, message, author, timestamp, parents }
}

/// Walks the repository at `path` from its head in topological order and
/// returns one record per visited commit, in traversal order.  Fails when
/// the repository cannot be opened, the traversal cannot be initialized, the
/// head cannot be resolved, or any commit lookup fails; every failure
/// surfaces as a single non-empty description that names the kind of
/// failure, and no partial result accompanies it.  Which branch is taken
/// depends on the repository on disk, so beyond the error shape the outcome
/// is stated by the trusted wrappers above and the contract of
/// [`records_for_oids`].
pub fn get_git_log(path: String) -> (r: Result<Vec<CommitInfo>, String>)
    ensures
        r matches Err(e) ==> e@.len() > 0,
{
    let repo = match open_repo(path.as_str()) {
        Ok(opened) => opened,
        Err(e) => {
            return Err(describe("repository open error", &e));
        },
    };
    let mut walk = match new_revwalk(&repo) {
        Ok(w) => w,
        Err(e) => {
            return Err(describe("traversal init error", &e));
        },
    };
    match set_topological(&mut walk) {
        Ok(u) => u,
        Err(e) => {
            return Err(describe("traversal init error", &e));
        },
    };
    match push_head(&mut walk) {
        Ok(u) => u,
        Err(e) => {
            return Err(describe("reference resolution error", &e));
        },
    };
    let oids = match collect_oids(walk) {
        Ok(v) => v,
        Err(e) => {
            return Err(describe("commit lookup error", &e));
        },
    };
    records_for_oids(&repo, &oids)
}

/// Looks every listed commit up and builds its record: on success there is
/// exactly one record per listed id, in the list's order, and an empty list
/// always succeeds with an empty result.  The first lookup failure aborts
/// the extraction with a non-empty description and no partial result.
pub fn records_for_oids(repo: &git2::Repository, oids: &Vec<git2::Oid>) -> (r: Result<
    Vec<CommitInfo>,
    String,
>)
    ensures
        r matches Ok(v) ==> v@.len() == oids@.len(),
        oids@.len() == 0 ==> (r matches Ok(v) && v@.len() == 0),
        r matches Err(e) ==> e@.len() > 0,
{
    let mut commits: Vec<CommitInfo> = Vec::new();
    let mut i: usize = 0;
    while i < oids.len()
        invariant
            i <= oids.len(),
            commits.len() == i,
        decreases oids.len() - i,
    {
        let fields = match read_commit(repo, oids[i]) {
            Ok(f) => f,
            Err(e) => {
                return Err(describe("commit lookup error", &e));
            },
        };
        let (id, summary, author, timestamp, parents) = fields;
        let info = make_commit_info(id, summary, author, timestamp, parents);
        commits.push(info);
        i = i + 1;
    }
    Ok(commits)
}

} // verus!
