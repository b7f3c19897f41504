use git2::{Oid, Repository, Signature, Time};
use gitseries::metric::{CommitError, DiffCounts};
use gitseries::walk::{
    first_parent_diff, kind_of, process_commit, visit_object, KindCounts, ObjectKind, Visit,
};

const REPO_ID: &str = "github.com/influxdata/influxdb";

fn scratch_repo(name: &str) -> Repository {
    Repository::init(format!("/tmp/gitseries-tests/{}", name)).unwrap()
}

fn tree_with(repo: &Repository, content: &str) -> Oid {
    let blob = repo.blob(content.as_bytes()).unwrap();
    let mut builder = repo.treebuilder(None).unwrap();
    builder.insert("notes.txt", blob, 0o100644).unwrap();
    builder.write().unwrap()
}

fn commit_with(
    repo: &Repository,
    tree: Oid,
    parents: &[Oid],
    author: &Signature,
    committer: &Signature,
) -> Oid {
    let tree = repo.find_tree(tree).unwrap();
    let parents: Vec<git2::Commit> = parents.iter().map(|p| repo.find_commit(*p).unwrap()).collect();
    let refs: Vec<&git2::Commit> = parents.iter().collect();
    repo.commit(None, author, committer, "change", &tree, &refs).unwrap()
}

fn commit_on(repo: &Repository, tree: Oid, parents: &[Oid]) -> Oid {
    let sig = Signature::new("Ann Author", "a@example.com", &Time::new(1000, 0)).unwrap();
    commit_with(repo, tree, parents, &sig, &sig)
}

/// Two commits: the second turns one line into three.
fn two_commits(name: &str) -> (Repository, Oid, Oid) {
    let repo = scratch_repo(name);
    let first_tree = tree_with(&repo, "x\n");
    let first = commit_on(&repo, first_tree, &[]);
    let second_tree = tree_with(&repo, "y1\ny2\ny3\n");
    let second = commit_on(&repo, second_tree, &[first]);
    (repo, first, second)
}

#[test]
fn scenario_two_commit_repository() {
    let (repo, _, second) = two_commits("scenario");
    let commit = repo.find_commit(second).unwrap();
    assert_eq!(
        process_commit(&repo, &commit, REPO_ID),
        Ok(String::from(
            "commit,repository=github.com/influxdata/influxdb,author_email=a@example.com,author_name=Ann\\ Author files_modified=1i,deletions=1i,insertions=3i 1000000000000"
        ))
    );
}

#[test]
fn timestamp_is_authorship_time() {
    let repo = scratch_repo("author_time");
    let first_tree = tree_with(&repo, "x\n");
    let first = commit_on(&repo, first_tree, &[]);
    let second_tree = tree_with(&repo, "x\ny\n");
    let author = Signature::new("Ann Author", "a@example.com", &Time::new(1000, 0)).unwrap();
    let committer = Signature::new("Cy Committer", "c@example.com", &Time::new(5000, 0)).unwrap();
    let second = commit_with(&repo, second_tree, &[first], &author, &committer);
    let commit = repo.find_commit(second).unwrap();
    assert_eq!(
        process_commit(&repo, &commit, REPO_ID),
        Ok(String::from(
            "commit,repository=github.com/influxdata/influxdb,author_email=c@example.com,author_name=Cy\\ Committer files_modified=1i,deletions=0i,insertions=1i 1000000000000"
        ))
    );
}

#[test]
fn diff_runs_from_parent_to_commit() {
    let (repo, _, second) = two_commits("direction");
    let commit = repo.find_commit(second).unwrap();
    assert_eq!(
        first_parent_diff(&repo, &commit),
        Ok(Some(DiffCounts { files_changed: 1, insertions: 3, deletions: 1 }))
    );
}

#[test]
fn root_commit_has_no_diff() {
    let (repo, first, _) = two_commits("root_diff");
    let commit = repo.find_commit(first).unwrap();
    assert_eq!(first_parent_diff(&repo, &commit), Ok(None));
    assert_eq!(process_commit(&repo, &commit, REPO_ID), Err(CommitError::RootCommit));
}

#[test]
fn single_commit_repository_is_skipped() {
    let repo = scratch_repo("single");
    let tree = tree_with(&repo, "only\n");
    let root = commit_on(&repo, tree, &[]);
    let mut counts = KindCounts::new();
    let visit = visit_object(&repo, root, REPO_ID, &mut counts).unwrap();
    assert!(matches!(visit, Visit::Skipped(CommitError::RootCommit)));
    assert_eq!(counts.commits, 1);
    assert_eq!(counts.total, 1);
}

#[test]
fn non_commits_are_only_counted() {
    let (repo, first, _) = two_commits("kinds");
    let tree = repo.find_commit(first).unwrap().tree_id();
    let blob = repo.blob(b"x\n").unwrap();
    let mut counts = KindCounts::new();
    let visit = visit_object(&repo, tree, REPO_ID, &mut counts).unwrap();
    assert!(matches!(visit, Visit::Counted(ObjectKind::Tree)));
    let visit = visit_object(&repo, blob, REPO_ID, &mut counts).unwrap();
    assert!(matches!(visit, Visit::Counted(ObjectKind::Blob)));
    assert_eq!(counts.trees, 1);
    assert_eq!(counts.blobs, 1);
    assert_eq!(counts.total, 2);
    assert_eq!(counts.commits, 0);
}

#[test]
fn unknown_id_is_an_error_and_not_counted() {
    let repo = scratch_repo("unknown");
    let missing = Oid::from_str("0123456789abcdef0123456789abcdef01234567").unwrap();
    let mut counts = KindCounts::new();
    assert!(visit_object(&repo, missing, REPO_ID, &mut counts).is_err());
    assert_eq!(counts, KindCounts::new());
}

#[test]
fn object_kinds_map_one_to_one() {
    assert_eq!(kind_of(Some(git2::ObjectType::Commit)), ObjectKind::Commit);
    assert_eq!(kind_of(Some(git2::ObjectType::Tree)), ObjectKind::Tree);
    assert_eq!(kind_of(Some(git2::ObjectType::Blob)), ObjectKind::Blob);
    assert_eq!(kind_of(Some(git2::ObjectType::Tag)), ObjectKind::Tag);
    assert_eq!(kind_of(Some(git2::ObjectType::Any)), ObjectKind::Any);
    assert_eq!(kind_of(None), ObjectKind::Unknown);
}

#[test]
fn counters_record_each_kind() {
    let mut counts = KindCounts::new();
    counts.record(ObjectKind::Tag);
    counts.record(ObjectKind::Tag);
    counts.record(ObjectKind::Unknown);
    counts.record(ObjectKind::Any);
    assert_eq!(counts.tags, 2);
    assert_eq!(counts.unknowns, 1);
    assert_eq!(counts.anys, 1);
    assert_eq!(counts.total, 4);
}

fn walk_lines(repo: &Repository) -> Vec<String> {
    let odb = repo.odb().unwrap();
    let mut counts = KindCounts::new();
    let mut lines = Vec::new();
    odb.foreach(|oid| {
        if let Visit::Line(line) = visit_object(repo, *oid, REPO_ID, &mut counts).unwrap() {
            lines.push(line);
        }
        true
    })
    .unwrap();
    lines
}

#[test]
fn walking_twice_gives_same_output() {
    let (repo, _, _) = two_commits("twice");
    let first = walk_lines(&repo);
    let second = walk_lines(&repo);
    assert_eq!(first.len(), 1);
    assert_eq!(first, second);
}
