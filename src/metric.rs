use vstd::prelude::*;

use crate::protocol::{field_push_u, int_field_entry, metric_line, render_line, tag_entry, tag_push};

verus! {

/// The three counters of a tree-to-tree diff.
#[derive(Clone, Copy, Debug, PartialEq, Eq, Structural)]
pub struct DiffCounts {
    pub files_changed: usize,
    pub insertions: usize,
    pub deletions: usize,
}

/// Why no line was written for a commit. Each is local to that commit: the
/// walk goes on with the next object.
#[derive(Clone, Copy, Debug, PartialEq, Eq, Structural)]
pub enum CommitError {
    /// The committer's email is empty or not valid UTF-8.
    MissingEmail,
    /// The committer's name is empty or not valid UTF-8.
    MissingName,
    /// The commit has no parent to compare with.
    RootCommit,
    /// The first parent could not be loaded.
    ParentLookup,
    /// The tree of the commit or of its first parent could not be loaded.
    TreeLookup,
    /// The diff between the two trees, or its statistics, failed.
    DiffFailed,
    /// The object is stored as a commit but could not be read as one.
    NotACommit,
}

/// The tag set of a commit, in its fixed order.
pub open spec fn commit_tags(repository: Seq<char>, email: Seq<char>, name: Seq<char>) -> Seq<
    Seq<char>,
> {
    seq![
        tag_entry("repository"@, repository),
        tag_entry("author_email"@, email),
        tag_entry("author_name"@, name),
    ]
}

/// The field set of a commit, in its fixed order.
pub open spec fn commit_fields(counts: DiffCounts) -> Seq<Seq<char>> {
    seq![
        int_field_entry("files_modified"@, counts.files_changed as int),
        int_field_entry("deletions"@, counts.deletions as int),
        int_field_entry("insertions"@, counts.insertions as int),
    ]
}

/// The metric line of one commit.
pub open spec fn commit_metric(
    repository: Seq<char>,
    email: Seq<char>,
    name: Seq<char>,
    counts: DiffCounts,
    seconds: int,
) -> Seq<char> {
    metric_line("commit"@, commit_tags(repository, email, name), commit_fields(counts), seconds)
}

/// A piece of the committer's identity that can be written: readable and not
/// empty.
pub open spec fn present(s: Option<Seq<char>>) -> bool {
    s matches Some(t) && t.len() > 0
}

/// What `commit_line` gives for a commit: the error comes from the first
/// missing piece, in the order email, name, first parent.
pub open spec fn commit_outcome(
    repository: Seq<char>,
    email: Option<Seq<char>>,
    name: Option<Seq<char>>,
    diff: Option<DiffCounts>,
    seconds: int,
) -> Result<Seq<char>, CommitError> {
    if !present(email) {
        Err(CommitError::MissingEmail)
    } else if !present(name) {
        Err(CommitError::MissingName)
    } else if diff is None {
        Err(CommitError::RootCommit)
    } else {
        Ok(commit_metric(repository, email->0, name->0, diff->0, seconds))
    }
}

pub open spec fn opt_view(s: Option<&str>) -> Option<Seq<char>> {
    match s {
        Some(t) => Some(t@),
        None => None,
    }
}

/// The text of a line, or the error that stands in its place.
pub open spec fn line_view(r: Result<String, CommitError>) -> Result<Seq<char>, CommitError> {
    match r {
        Ok(line) => Ok(line@),
        Err(e) => Err(e),
    }
}

/// The tag set of a commit.
pub fn commit_tag_set(repository: &str, email: &str, name: &str) -> (r: Vec<String>)
    ensures
        r.deep_view() == commit_tags(repository@, email@, name@),
{
    let mut tags: Vec<String> = Vec::new();
    tags = tag_push(tags, String::from_str("repository"), String::from_str(repository));
    tags = tag_push(tags, String::from_str("author_email"), String::from_str(email));
    tags = tag_push(tags, String::from_str("author_name"), String::from_str(name));
    assert(tags.deep_view() =~= commit_tags(repository@, email@, name@));
    tags
}

/// The field set of a commit.
pub fn commit_field_set(counts: DiffCounts) -> (r: Vec<String>)
    ensures
        r.deep_view() == commit_fields(counts),
{
    let mut fields: Vec<String> = Vec::new();
    fields = field_push_u(fields, String::from_str("files_modified"), counts.files_changed);
    fields = field_push_u(fields, String::from_str("deletions"), counts.deletions);
    fields = field_push_u(fields, String::from_str("insertions"), counts.insertions);
    assert(fields.deep_view() =~= commit_fields(counts));
    fields
}

/// The metric line of a commit, from the committer's email and name (`None`
/// where they are unreadable; an empty one counts as missing too), the diff
/// against the first parent (`None` for a commit without parents) and the
/// authorship time in seconds.
pub fn commit_line(
    repository: &str,
    email: Option<&str>,
    name: Option<&str>,
    first_parent_diff: Option<DiffCounts>,
    seconds: i64,
) -> (r: Result<String, CommitError>)
    ensures
        line_view(r) == commit_outcome(
            repository@,
            opt_view(email),
            opt_view(name),
            first_parent_diff,
            seconds as int,
        ),
{
    let email = match email {
        Some(e) if !e.is_empty() => e,
        _ => return Err(CommitError::MissingEmail),
    };
    let name = match name {
        Some(n) if !n.is_empty() => n,
        _ => return Err(CommitError::MissingName),
    };
    let counts = match first_parent_diff {
        Some(c) => c,
        None => return Err(CommitError::RootCommit),
    };
    let tags = commit_tag_set(repository, email, name);
    let fields = commit_field_set(counts);
    Ok(render_line("commit", &tags, &fields, seconds))
}

/// Two runs over the same commit data give byte-identical lines, or the same
/// error: the line is a function of the commit data alone.
pub proof fn lemma_commit_line_deterministic(
    first: Result<String, CommitError>,
    second: Result<String, CommitError>,
    repository: Seq<char>,
    email: Option<Seq<char>>,
    name: Option<Seq<char>>,
    diff: Option<DiffCounts>,
    seconds: int,
)
    requires
        line_view(first) == commit_outcome(repository, email, name, diff, seconds),
        line_view(second) == commit_outcome(repository, email, name, diff, seconds),
    ensures
        line_view(first) == line_view(second),
        first is Ok <==> second is Ok,
        first matches Ok(a) ==> second matches Ok(b) && a@ == b@,
{
}

} // verus!
