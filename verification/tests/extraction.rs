use neptune::get_git_log;
use neptune::identity_from_output;
use neptune::make_commit_info;
use neptune::records_for_oids;
use neptune::Config;

fn fixed_sig() -> git2::Signature<'static> {
    git2::Signature::new("Alice", "alice@x.com", &git2::Time::new(1700000000, 0)).unwrap()
}

fn empty_tree(repo: &git2::Repository) -> git2::Tree<'_> {
    let id = repo.treebuilder(None).unwrap().write().unwrap();
    repo.find_tree(id).unwrap()
}

fn commit(
    repo: &git2::Repository,
    message: &str,
    parents: &[git2::Oid],
) -> git2::Oid {
    let sig = fixed_sig();
    let tree = empty_tree(repo);
    let parent_commits: Vec<git2::Commit<'_>> =
        parents.iter().map(|p| repo.find_commit(*p).unwrap()).collect();
    let parent_refs: Vec<&git2::Commit<'_>> = parent_commits.iter().collect();
    let oid = repo.commit(None, &sig, &sig, message, &tree, &parent_refs).unwrap();
    repo.set_head_detached(oid).unwrap();
    oid
}

#[test]
fn log_of_linear_history() {
    let path = "/tmp/neptune_case_linear";
    let repo = git2::Repository::init(path).unwrap();
    let c1 = commit(&repo, "first", &[]);
    let c2 = commit(&repo, "second", &[c1]);
    let c3 = commit(&repo, "third", &[c2]);

    let records = get_git_log(path.to_string()).unwrap();
    assert_eq!(records.len(), 3);
    assert_eq!(records[0].id, c3.to_string());
    assert_eq!(records[1].id, c2.to_string());
    assert_eq!(records[2].id, c1.to_string());
    assert_ne!(records[0].id, records[1].id);
    assert_ne!(records[1].id, records[2].id);
    assert_ne!(records[0].id, records[2].id);
    assert_eq!(records[0].message, "third");
    assert_eq!(records[0].author, "Alice <alice@x.com>");
    assert_eq!(records[0].timestamp, 1700000000);
    assert_eq!(records[0].parents, vec![c2.to_string()]);
    assert_eq!(records[1].parents, vec![c1.to_string()]);
    assert!(records[2].parents.is_empty());
}

#[test]
fn log_of_merge_keeps_parent_order() {
    let path = "/tmp/neptune_case_merge";
    let repo = git2::Repository::init(path).unwrap();
    let root = commit(&repo, "root", &[]);
    let left = commit(&repo, "left", &[root]);
    let right = commit(&repo, "right", &[root]);
    let merge = commit(&repo, "merge", &[right, left]);

    let records = get_git_log(path.to_string()).unwrap();
    assert_eq!(records.len(), 4);
    assert_eq!(records[0].id, merge.to_string());
    assert_eq!(records[0].parents, vec![right.to_string(), left.to_string()]);
    assert!(records.iter().find(|r| r.id == root.to_string()).unwrap().parents.is_empty());
}

#[test]
fn log_of_missing_repository_is_an_error() {
    let result = get_git_log("/tmp/neptune_case_no_such_repository".to_string());
    let message = result.err().unwrap();
    assert!(!message.is_empty());
}

#[test]
fn logs_of_two_repositories_are_independent() {
    let path_a = "/tmp/neptune_case_pair_a";
    let path_b = "/tmp/neptune_case_pair_b";
    let repo_a = git2::Repository::init(path_a).unwrap();
    let repo_b = git2::Repository::init(path_b).unwrap();
    commit(&repo_a, "only in a", &[]);
    let b1 = commit(&repo_b, "b root", &[]);
    commit(&repo_b, "b tip", &[b1]);

    let records_a = get_git_log(path_a.to_string()).unwrap();
    let records_b = get_git_log(path_b.to_string()).unwrap();
    let records_a_again = get_git_log(path_a.to_string()).unwrap();
    assert_eq!(records_a.len(), 1);
    assert_eq!(records_b.len(), 2);
    assert_eq!(records_a_again.len(), 1);
    assert_eq!(records_a[0].message, "only in a");
    assert_eq!(records_b[0].message, "b tip");
    assert_eq!(records_a[0].id, records_a_again[0].id);
}

#[test]
fn make_commit_info_carries_fields_over() {
    let info = make_commit_info(
        "deadbeef".to_string(),
        Some("a summary".to_string()),
        "Alice <alice@x.com>".to_string(),
        42,
        vec!["p1".to_string(), "p2".to_string()],
    );
    assert_eq!(info.id, "deadbeef");
    assert_eq!(info.message, "a summary");
    assert_eq!(info.author, "Alice <alice@x.com>");
    assert_eq!(info.timestamp, 42);
    assert_eq!(info.parents, vec!["p1".to_string(), "p2".to_string()]);
}

#[test]
fn make_commit_info_without_summary_or_parents() {
    let info = make_commit_info(
        "c0ffee".to_string(),
        None,
        "A".to_string(),
        -7,
        Vec::new(),
    );
    assert_eq!(info.message, "");
    assert_eq!(info.timestamp, -7);
    assert!(info.parents.is_empty());
}

#[test]
fn records_for_empty_id_list_is_empty_success() {
    let path = "/tmp/neptune_case_empty_ids";
    let repo = git2::Repository::init(path).unwrap();
    let records = records_for_oids(&repo, &Vec::new()).unwrap();
    assert!(records.is_empty());
}

#[test]
fn records_for_listed_ids_come_in_list_order() {
    let path = "/tmp/neptune_case_listed_ids";
    let repo = git2::Repository::init(path).unwrap();
    let c1 = commit(&repo, "one", &[]);
    let c2 = commit(&repo, "two", &[c1]);
    let records = records_for_oids(&repo, &vec![c1, c2, c1]).unwrap();
    assert_eq!(records.len(), 3);
    assert_eq!(records[0].id, c1.to_string());
    assert_eq!(records[1].id, c2.to_string());
    assert_eq!(records[2].id, c1.to_string());
    assert_eq!(records[0].message, "one");
    assert_eq!(records[1].parents, vec![c1.to_string()]);
}

#[test]
fn identity_output_is_decoded_and_trimmed() {
    let value = identity_from_output(b"  Alice Smith \n".to_vec());
    assert_eq!(value, Some("Alice Smith".to_string()));
    let accented = identity_from_output("  R\u{e9}mi \n".as_bytes().to_vec());
    assert_eq!(accented, Some("R\u{e9}mi".to_string()));
    assert_eq!(identity_from_output(vec![0xff, 0xfe, 0x20]), None);
}

#[test]
fn config_path_names_the_document() {
    assert_eq!(Config::path("some/dir"), "some/dir/config.json");
    assert_eq!(Config::path(""), "/config.json");
}
