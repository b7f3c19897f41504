use gitseries::metric::{commit_line, CommitError, DiffCounts};
use gitseries::protocol::{
    escape_tag_value, field_push_i, field_push_s, field_push_u, push_decimal, push_timestamp,
    render_line, tag_push, unescape_tag_value,
};

const REPO_ID: &str = "github.com/influxdata/influxdb";

#[test]
fn tag_value_spaces_are_escaped() {
    assert_eq!(escape_tag_value("Ann Author"), "Ann\\ Author");
    assert_eq!(escape_tag_value("  a b "), "\\ \\ a\\ b\\ ");
    assert_eq!(escape_tag_value("plain"), "plain");
    assert_eq!(escape_tag_value(""), "");
}

#[test]
fn tag_value_backslash_before_space() {
    assert_eq!(escape_tag_value("a\\ b"), "a\\\\ b");
}

#[test]
fn tag_push_appends_entry() {
    let tags = tag_push(Vec::new(), String::from("repository"), String::from("x y"));
    let tags = tag_push(tags, String::from("author_email"), String::from("a@example.com"));
    assert_eq!(tags, vec![String::from("repository=x\\ y"), String::from("author_email=a@example.com")]);
}

#[test]
fn integer_fields_have_suffix() {
    let fields = field_push_u(Vec::new(), String::from("files_modified"), 12);
    let fields = field_push_i(fields, String::from("delta"), -45);
    let fields = field_push_u(fields, String::from("zero"), 0);
    assert_eq!(
        fields,
        vec![String::from("files_modified=12i"), String::from("delta=-45i"), String::from("zero=0i")]
    );
}

#[test]
fn integer_field_extremes() {
    let fields = field_push_i(Vec::new(), String::from("min"), i64::MIN);
    let fields = field_push_i(fields, String::from("max"), i64::MAX);
    let fields = field_push_u(fields, String::from("umax"), usize::MAX);
    assert_eq!(fields[0], format!("min={}i", i64::MIN));
    assert_eq!(fields[1], format!("max={}i", i64::MAX));
    assert_eq!(fields[2], format!("umax={}i", usize::MAX));
}

#[test]
fn string_field_escapes_newlines() {
    let fields = field_push_s(Vec::new(), String::from("message"), String::from("first\nsecond"));
    assert_eq!(fields, vec![String::from("message=\"first\\nsecond\"")]);
}

#[test]
fn decimal_text() {
    let mut s = String::new();
    push_decimal(&mut s, 0);
    assert_eq!(s, "0");
    let mut s = String::new();
    push_decimal(&mut s, 1234567890);
    assert_eq!(s, "1234567890");
    let mut s = String::new();
    push_decimal(&mut s, -7);
    assert_eq!(s, "-7");
}

#[test]
fn timestamp_zero_gets_nine_zeros() {
    let mut s = String::new();
    push_timestamp(&mut s, 0);
    assert_eq!(s, "0000000000");
}

#[test]
fn timestamp_extremes_do_not_overflow() {
    let mut s = String::new();
    push_timestamp(&mut s, i64::MAX);
    assert_eq!(s, format!("{}000000000", i64::MAX));
    let mut s = String::new();
    push_timestamp(&mut s, i64::MIN);
    assert_eq!(s, format!("{}000000000", i64::MIN));
    let mut s = String::new();
    push_timestamp(&mut s, -1);
    assert_eq!(s, "-1000000000");
}

#[test]
fn line_shape() {
    let tags = vec![String::from("a=1"), String::from("b=2")];
    let fields = vec![String::from("x=3i"), String::from("y=4i")];
    assert_eq!(render_line("m", &tags, &fields, 5), "m,a=1,b=2 x=3i,y=4i 5000000000");
}

#[test]
fn scenario_second_commit_line() {
    let counts = DiffCounts { files_changed: 1, insertions: 3, deletions: 1 };
    let line = commit_line(REPO_ID, Some("a@example.com"), Some("Ann Author"), Some(counts), 1000);
    assert_eq!(
        line,
        Ok(String::from(
            "commit,repository=github.com/influxdata/influxdb,author_email=a@example.com,author_name=Ann\\ Author files_modified=1i,deletions=1i,insertions=3i 1000000000000"
        ))
    );
}

#[test]
fn root_commit_gives_no_line() {
    let line = commit_line(REPO_ID, Some("a@example.com"), Some("Ann Author"), None, 1000);
    assert_eq!(line, Err(CommitError::RootCommit));
}

#[test]
fn missing_identity_gives_no_line() {
    let counts = DiffCounts { files_changed: 1, insertions: 3, deletions: 1 };
    assert_eq!(commit_line(REPO_ID, None, Some("Ann"), Some(counts), 1), Err(CommitError::MissingEmail));
    assert_eq!(commit_line(REPO_ID, Some(""), Some("Ann"), Some(counts), 1), Err(CommitError::MissingEmail));
    assert_eq!(commit_line(REPO_ID, Some("a@b"), None, Some(counts), 1), Err(CommitError::MissingName));
    assert_eq!(commit_line(REPO_ID, Some("a@b"), Some(""), None, 1), Err(CommitError::MissingName));
}

#[test]
fn same_commit_twice_same_bytes() {
    let counts = DiffCounts { files_changed: 4, insertions: 10, deletions: 2 };
    let a = commit_line(REPO_ID, Some("b@example.com"), Some("Bo B"), Some(counts), 77);
    let b = commit_line(REPO_ID, Some("b@example.com"), Some("Bo B"), Some(counts), 77);
    assert!(a.is_ok());
    assert_eq!(a, b);
}

#[test]
fn escaped_line_splits_on_unescaped_spaces() {
    let counts = DiffCounts { files_changed: 2, insertions: 5, deletions: 6 };
    let line = commit_line("r id", Some("e@x"), Some("A B C"), Some(counts), 42).unwrap();
    let bytes: Vec<char> = line.chars().collect();
    let mut cuts = Vec::new();
    for i in 0..bytes.len() {
        if bytes[i] == ' ' && (i == 0 || bytes[i - 1] != '\\') {
            cuts.push(i);
        }
    }
    assert_eq!(cuts.len(), 2);
    let head: String = bytes[..cuts[0]].iter().collect();
    let fields: String = bytes[cuts[0] + 1..cuts[1]].iter().collect();
    let stamp: String = bytes[cuts[1] + 1..].iter().collect();
    assert_eq!(head, "commit,repository=r\\ id,author_email=e@x,author_name=A\\ B\\ C");
    assert_eq!(fields, "files_modified=2i,deletions=6i,insertions=5i");
    assert_eq!(stamp, "42000000000");
}

#[test]
fn escaping_round_trips() {
    for value in ["Ann Author", " lead", "trail ", "a\\ b", "a\\", "\\\\  x", "", "no-spaces"] {
        let escaped = escape_tag_value(value);
        assert_eq!(unescape_tag_value(&escaped), value);
    }
}

#[test]
fn unescape_reads_backslash_space() {
    assert_eq!(unescape_tag_value("Ann\\ Author"), "Ann Author");
    assert_eq!(unescape_tag_value("a\\b"), "a\\b");
    assert_eq!(unescape_tag_value("end\\"), "end\\");
}
