use vstd::prelude::*;

use crate::metric::{commit_line, commit_metric, CommitError, DiffCounts};

verus! {

/// git2's handle on an open repository; opaque here.
#[verifier::external_type_specification]
#[verifier::external_body]
pub struct ExRepository(git2::Repository);

/// git2's commit object; opaque here.
#[verifier::external_type_specification]
#[verifier::external_body]
pub struct ExCommit<'repo>(git2::Commit<'repo>);

/// git2's name, email and time of a signature; opaque here.
#[verifier::external_type_specification]
#[verifier::external_body]
pub struct ExSignature<'a>(git2::Signature<'a>);

/// git2's point in time with a zone offset; opaque here.
#[verifier::external_type_specification]
#[verifier::external_body]
pub struct ExTime(git2::Time);

/// git2's tree object; opaque here.
#[verifier::external_type_specification]
#[verifier::external_body]
pub struct ExTree<'repo>(git2::Tree<'repo>);

/// git2's diff between two trees; opaque here.
#[verifier::external_type_specification]
#[verifier::external_body]
pub struct ExDiff<'repo>(git2::Diff<'repo>);

/// git2's summary counters of a diff; opaque here.
#[verifier::external_type_specification]
#[verifier::external_body]
pub struct ExDiffStats(git2::DiffStats);

/// git2's error; opaque here.
#[verifier::external_type_specification]
#[verifier::external_body]
pub struct ExError(git2::Error);

/// git2's object id; opaque here.
#[verifier::external_type_specification]
#[verifier::external_body]
pub struct ExOid(git2::Oid);

/// git2's object of any kind; opaque here.
#[verifier::external_type_specification]
#[verifier::external_body]
pub struct ExObject<'repo>(git2::Object<'repo>);

/// git2's kinds of object, a public enum of unit variants, read as it is.
#[verifier::external_type_specification]
pub struct ExObjectType(git2::ObjectType);

/// Relies on `Commit::committer`, the commit's committer signature.
pub assume_specification<'repo, 'c>[ git2::Commit::<'repo>::committer ](
    c: &'c git2::Commit<'repo>,
) -> git2::Signature<'c>;

/// Relies on `Signature::email`, the email as UTF-8 text.
pub assume_specification<'a, 's>[ git2::Signature::<'a>::email ](
    s: &'s git2::Signature<'a>,
) -> Result<
    &'s str,
    git2::Error,
>;

/// Relies on `Signature::name`, the name as UTF-8 text.
pub assume_specification<'a, 's>[ git2::Signature::<'a>::name ](
    s: &'s git2::Signature<'a>,
) -> Result<
    &'s str,
    git2::Error,
>;

/// Relies on `Commit::author`, the commit's author signature.
pub assume_specification<'repo, 'c>[ git2::Commit::<'repo>::author ](
    c: &'c git2::Commit<'repo>,
) -> git2::Signature<'c>;

/// Relies on `Signature::when`, the time of a signature.
pub assume_specification<'a>[ git2::Signature::<'a>::when ](s: &git2::Signature<'a>) -> git2::Time;

/// Relies on `Time::seconds`, a time in seconds since the epoch.
pub assume_specification[ git2::Time::seconds ](t: &git2::Time) -> i64;

/// Relies on `Commit::parent_count`, the number of parents.
pub assume_specification<'repo>[ git2::Commit::<'repo>::parent_count ](
    c: &git2::Commit<'repo>,
) -> usize;

/// Relies on `Commit::parent`, the parent at an index.
pub assume_specification<'repo>[ git2::Commit::<'repo>::parent ](
    c: &git2::Commit<'repo>,
    i: usize,
) -> Result<git2::Commit<'repo>, git2::Error>;

/// Relies on `Commit::tree`, the tree the commit points at.
pub assume_specification<'repo>[ git2::Commit::<'repo>::tree ](c: &git2::Commit<'repo>) -> Result<
    git2::Tree<'repo>,
    git2::Error,
>;

/// Relies on `Diff::stats`, the summary of a diff.
pub assume_specification<'repo>[ git2::Diff::<'repo>::stats ](d: &git2::Diff<'repo>) -> Result<
    git2::DiffStats,
    git2::Error,
>;

/// Relies on `DiffStats::files_changed`.
pub assume_specification[ git2::DiffStats::files_changed ](s: &git2::DiffStats) -> usize;

/// Relies on `DiffStats::insertions`.
pub assume_specification[ git2::DiffStats::insertions ](s: &git2::DiffStats) -> usize;

/// Relies on `DiffStats::deletions`.
pub assume_specification[ git2::DiffStats::deletions ](s: &git2::DiffStats) -> usize;

/// Relies on `Repository::find_object`, which loads an object by its id.
pub assume_specification[ git2::Repository::find_object ](
    r: &git2::Repository,
    oid: git2::Oid,
    kind: Option<git2::ObjectType>,
) -> Result<git2::Object<'_>, git2::Error>;

/// Relies on `Object::kind`, the kind of an object.
pub assume_specification<'repo>[ git2::Object::<'repo>::kind ](o: &git2::Object<'repo>) -> Option<
    git2::ObjectType,
>;

/// Relies on `Object::as_commit`, the object seen as a commit where it is one.
pub assume_specification<'repo, 'o>[ git2::Object::<'repo>::as_commit ](
    o: &'o git2::Object<'repo>,
) -> Option<&'o git2::Commit<'repo>>;

/// Relies on `Repository::diff_tree_to_tree` with default options: the
/// changes that take `old` to `new`.
#[verifier::external_body]
fn diff_trees<'r>(repo: &'r git2::Repository, old: &git2::Tree, new: &git2::Tree) -> Result<
    git2::Diff<'r>,
    git2::Error,
> {
    repo.diff_tree_to_tree(Some(old), Some(new), None)
}

/// The counters of the diff from the first parent's tree (old side) to the
/// commit's own tree (new side); `None` for a commit without parents.
pub fn first_parent_diff(repo: &git2::Repository, commit: &git2::Commit) -> (r: Result<
    Option<DiffCounts>,
    CommitError,
>)
    ensures
        r matches Err(e) ==> e == CommitError::ParentLookup || e == CommitError::TreeLookup
            || e == CommitError::DiffFailed,
{
    if commit.parent_count() == 0 {
        return Ok(None);
    }
    let parent = match commit.parent(0) {
        Ok(p) => p,
        Err(_) => return Err(CommitError::ParentLookup),
    };
    let old_tree = match parent.tree() {
        Ok(t) => t,
        Err(_) => return Err(CommitError::TreeLookup),
    };
    let new_tree = match commit.tree() {
        Ok(t) => t,
        Err(_) => return Err(CommitError::TreeLookup),
    };
    let diff = match diff_trees(repo, &old_tree, &new_tree) {
        Ok(d) => d,
        Err(_) => return Err(CommitError::DiffFailed),
    };
    let stats = match diff.stats() {
        Ok(s) => s,
        Err(_) => return Err(CommitError::DiffFailed),
    };
    Ok(
        Some(
            DiffCounts {
                files_changed: stats.files_changed(),
                insertions: stats.insertions(),
                deletions: stats.deletions(),
            },
        ),
    )
}

/// The metric line of one commit, tagged with `repository`. The committer's
/// identity is the one that is written as `author_email` and `author_name`;
/// the timestamp is the authorship time, taken from the author's signature.
pub fn process_commit(repo: &git2::Repository, commit: &git2::Commit, repository: &str) -> (r:
    Result<String, CommitError>)
    ensures
        r matches Ok(line) ==> exists|email: Seq<char>, name: Seq<char>, counts: DiffCounts, seconds: i64|
            email.len() > 0 && name.len() > 0 && line@ == commit_metric(
                repository@,
                email,
                name,
                counts,
                seconds as int,
            ),
        r matches Err(e) ==> e == CommitError::MissingEmail || e == CommitError::MissingName || e
            == CommitError::RootCommit || e == CommitError::ParentLookup || e
            == CommitError::TreeLookup || e == CommitError::DiffFailed,
{
    let committer = commit.committer();
    let email = match committer.email() {
        Ok(e) => Some(e),
        Err(_) => None,
    };
    let name = match committer.name() {
        Ok(n) => Some(n),
        Err(_) => None,
    };
    let seconds = commit.author().when().seconds();
    let identified = match (email, name) {
        (Some(e), Some(n)) => !e.is_empty() && !n.is_empty(),
        _ => false,
    };
    let diff = if identified {
        first_parent_diff(repo, commit)?
    } else {
        None
    };
    commit_line(repository, email, name, diff, seconds)
}

/// The kind of a stored object, as the walk counts it.
#[derive(Clone, Copy, Debug, PartialEq, Eq, Structural)]
pub enum ObjectKind {
    Any,
    Commit,
    Tree,
    Blob,
    Tag,
    Unknown,
}

pub open spec fn kind_spec(t: Option<git2::ObjectType>) -> ObjectKind {
    match t {
        Some(git2::ObjectType::Any) => ObjectKind::Any,
        Some(git2::ObjectType::Commit) => ObjectKind::Commit,
        Some(git2::ObjectType::Tree) => ObjectKind::Tree,
        Some(git2::ObjectType::Blob) => ObjectKind::Blob,
        Some(git2::ObjectType::Tag) => ObjectKind::Tag,
        None => ObjectKind::Unknown,
    }
}

/// The walk's kind for what `Object::kind` reported.
pub fn kind_of(t: Option<git2::ObjectType>) -> (r: ObjectKind)
    ensures
        r == kind_spec(t),
{
    match t {
        Some(git2::ObjectType::Any) => ObjectKind::Any,
        Some(git2::ObjectType::Commit) => ObjectKind::Commit,
        Some(git2::ObjectType::Tree) => ObjectKind::Tree,
        Some(git2::ObjectType::Blob) => ObjectKind::Blob,
        Some(git2::ObjectType::Tag) => ObjectKind::Tag,
        None => ObjectKind::Unknown,
    }
}

/// One more, unless the counter is already at its largest value.
pub open spec fn bump(n: u64) -> u64 {
    if n < u64::MAX {
        (n + 1) as u64
    } else {
        n
    }
}

fn bumped(n: u64) -> (r: u64)
    ensures
        r == bump(n),
{
    if n < u64::MAX {
        n + 1
    } else {
        n
    }
}

/// How many objects of each kind the walk has seen. The counters are for
/// diagnostics only and never reach the output.
#[derive(Clone, Copy, Debug, PartialEq, Eq, Structural)]
pub struct KindCounts {
    pub total: u64,
    pub anys: u64,
    pub commits: u64,
    pub trees: u64,
    pub blobs: u64,
    pub tags: u64,
    pub unknowns: u64,
}

impl KindCounts {
    /// The counters after one more object of kind `k`.
    pub open spec fn counted(self, k: ObjectKind) -> KindCounts {
        let c = KindCounts { total: bump(self.total), ..self };
        match k {
            ObjectKind::Any => KindCounts { anys: bump(c.anys), ..c },
            ObjectKind::Commit => KindCounts { commits: bump(c.commits), ..c },
            ObjectKind::Tree => KindCounts { trees: bump(c.trees), ..c },
            ObjectKind::Blob => KindCounts { blobs: bump(c.blobs), ..c },
            ObjectKind::Tag => KindCounts { tags: bump(c.tags), ..c },
            ObjectKind::Unknown => KindCounts { unknowns: bump(c.unknowns), ..c },
        }
    }

    /// All counters at zero.
    pub fn new() -> (r: KindCounts)
        ensures
            r == (KindCounts {
                total: 0,
                anys: 0,
                commits: 0,
                trees: 0,
                blobs: 0,
                tags: 0,
                unknowns: 0,
            }),
    {
        KindCounts { total: 0, anys: 0, commits: 0, trees: 0, blobs: 0, tags: 0, unknowns: 0 }
    }

    /// Counts one object of kind `k`.
    pub fn record(&mut self, k: ObjectKind)
        ensures
            *final(self) == old(self).counted(k),
    {
        self.total = bumped(self.total);
        match k {
            ObjectKind::Any => self.anys = bumped(self.anys),
            ObjectKind::Commit => self.commits = bumped(self.commits),
            ObjectKind::Tree => self.trees = bumped(self.trees),
            ObjectKind::Blob => self.blobs = bumped(self.blobs),
            ObjectKind::Tag => self.tags = bumped(self.tags),
            ObjectKind::Unknown => self.unknowns = bumped(self.unknowns),
        }
    }
}

/// What the walk did with one object.
#[derive(Debug)]
pub enum Visit {
    /// A commit, and its metric line.
    Line(String),
    /// A commit for which no line could be made; the walk goes on.
    Skipped(CommitError),
    /// An object that is not a commit.
    Counted(ObjectKind),
}

/// Visits one object of the store: counts it by kind and, for a commit, makes
/// its metric line or says why there is none; only other kinds come back as
/// `Counted`. An id that names no object is an error of the store, for
/// the caller to stop on; nothing is counted then.
pub fn visit_object(
    repo: &git2::Repository,
    oid: git2::Oid,
    repository: &str,
    counts: &mut KindCounts,
) -> (r: Result<Visit, git2::Error>)
    ensures
        r is Err ==> *final(counts) == *old(counts),
        r matches Ok(Visit::Line(line)) ==> *final(counts) == old(counts).counted(
            ObjectKind::Commit,
        ) && exists|email: Seq<char>, name: Seq<char>, c: DiffCounts, seconds: i64|
            email.len() > 0 && name.len() > 0 && line@ == commit_metric(
                repository@,
                email,
                name,
                c,
                seconds as int,
            ),
        r matches Ok(Visit::Skipped(_)) ==> *final(counts) == old(counts).counted(
            ObjectKind::Commit,
        ),
        r matches Ok(Visit::Counted(k)) ==> k != ObjectKind::Commit && *final(counts) == old(
            counts,
        ).counted(k),
{
    let object = match repo.find_object(oid, None) {
        Ok(o) => o,
        Err(e) => return Err(e),
    };
    let kind = kind_of(object.kind());
    counts.record(kind);
    match kind {
        ObjectKind::Commit => match object.as_commit() {
            Some(commit) => match process_commit(repo, commit, repository) {
                Ok(line) => Ok(Visit::Line(line)),
                Err(e) => Ok(Visit::Skipped(e)),
            },
            None => Ok(Visit::Skipped(CommitError::NotACommit)),
        },
        _ => Ok(Visit::Counted(kind)),
    }
}

} // verus!
