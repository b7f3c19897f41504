//! Per-commit change statistics of a git repository, written as metric lines
//! in a line protocol: `commit,<tags> <fields> <timestamp>`.
//!
//! - `protocol`: escaping and rendering of tags, fields, timestamps and lines.
//! - `parse`: how a line reads back, and the proof that it gives back what it
//!   was made from.
//! - `metric`: the tag and field sets of one commit, and its line.
//! - `walk`: the git2 side: the diff against the first parent, and the visit of
//!   one stored object.
pub mod metric;
pub mod parse;
pub mod protocol;
pub mod walk;
