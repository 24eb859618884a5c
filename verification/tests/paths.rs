//! Paths, cut output and sums.

use minicoding::arithmetic::{add, sum};
use minicoding::path::{
    ancestor_splits, assert_within_workdir, ensure_dir, extension, file_name, is_under, join_path,
    resolve_path, DirProbe, PathProbe,
};
use minicoding::tool::ToolError;
use minicoding::util::truncate_output;

const WORKDIR: &str = "/tmp/w";

fn probe(target: Option<&str>, parent: Option<&str>) -> PathProbe {
    PathProbe {
        target: target.map(String::from),
        parent: parent.map(String::from),
        parent_is_dir: parent.is_some(),
    }
}

/// Checks a candidate of which only the working directory exists.
fn within(candidate: &str, existing: &[&str]) -> Result<(), ToolError> {
    let splits = ancestor_splits(candidate);
    let (anchor, tail) = splits
        .iter()
        .find(|(a, _)| existing.contains(&a.as_str()))
        .expect("an ancestor that exists");
    assert_within_workdir(WORKDIR, candidate, anchor, tail)
}

#[test]
fn resolve_relative_path_joins_workdir() {
    let resolved =
        resolve_path(WORKDIR, "somefile.txt", probe(None, Some(WORKDIR))).expect("resolve ok");
    assert_eq!(resolved, join_path(WORKDIR, "somefile.txt"));
    assert_eq!(resolved, "/tmp/w/somefile.txt");
}

#[test]
fn resolve_absolute_path_inside_workdir_passes() {
    let found = probe(Some("/tmp/w/inside.txt"), Some(WORKDIR));
    let resolved = resolve_path(WORKDIR, "/tmp/w/inside.txt", found).expect("resolve ok");
    assert_eq!(resolved, "/tmp/w/inside.txt");
}

#[test]
fn util_resolve_absolute_path_outside_workdir_rejected() {
    let found = probe(Some("/etc/passwd"), Some("/etc"));
    let err = resolve_path(WORKDIR, "/etc/passwd", found).unwrap_err();
    assert!(matches!(err, ToolError::PathEscaped(_)));
}

#[test]
fn resolve_dotdot_escape_rejected() {
    let err = resolve_path(WORKDIR, "../escape", probe(None, Some("/tmp"))).unwrap_err();
    assert!(matches!(err, ToolError::PathEscaped(_)));
}

#[test]
fn resolve_nonexistent_file_with_existing_parent_ok() {
    let resolved =
        resolve_path(WORKDIR, "newfile.txt", probe(None, Some(WORKDIR))).expect("resolve ok");
    assert_eq!(resolved, "/tmp/w/newfile.txt");
}

#[test]
fn resolve_nonexistent_parent_returns_not_found() {
    let err = resolve_path(WORKDIR, "no_such_dir/file.txt", probe(None, None)).unwrap_err();
    assert!(matches!(err, ToolError::NotFound(_)));
}

#[test]
fn resolve_symlink_escaping_workdir_rejected() {
    let err = resolve_path(WORKDIR, "evil_link", probe(Some("/tmp/outside"), Some(WORKDIR)))
        .unwrap_err();
    assert!(matches!(err, ToolError::PathEscaped(_)));
}

#[test]
fn resolve_below_a_file_returns_not_found() {
    let below = PathProbe {
        target: None,
        parent: Some("/tmp/w/a.txt".to_string()),
        parent_is_dir: false,
    };
    let err = resolve_path(WORKDIR, "a.txt/b", below).unwrap_err();
    assert!(matches!(err, ToolError::NotFound(_)));
}

#[test]
fn ensure_dir_existing_directory_ok() {
    ensure_dir(WORKDIR, DirProbe::Directory).expect("dir exists");
}

#[test]
fn ensure_dir_nonexistent_returns_not_found() {
    let err = ensure_dir("/nonexistent/path/that/does/not/exist", DirProbe::Missing).unwrap_err();
    assert!(matches!(err, ToolError::NotFound(_)));
}

#[test]
fn ensure_dir_file_returns_invalid_input() {
    let err = ensure_dir("/tmp/w/not_a_dir.txt", DirProbe::NotDirectory).unwrap_err();
    assert!(matches!(err, ToolError::InvalidInput(_)));
    let err = ensure_dir(WORKDIR, DirProbe::Failed("denied".to_string())).unwrap_err();
    assert!(matches!(err, ToolError::Io(_)));
}

#[test]
fn truncate_output_short_text_not_truncated() {
    let (result, truncated) = truncate_output("hello".to_string(), 100);
    assert_eq!(result, "hello");
    assert!(!truncated);
}

#[test]
fn truncate_output_exact_length_not_truncated() {
    let text = "hello".to_string();
    let (result, truncated) = truncate_output(text.clone(), text.len());
    assert_eq!(result, text);
    assert!(!truncated);
}

#[test]
fn truncate_output_long_text_truncated_with_indicator() {
    let text = "a".repeat(100);
    let (result, truncated) = truncate_output(text, 50);
    assert!(truncated);
    assert!(result.ends_with("\n...[output truncated]"));
    assert!(result.len() <= 50);
}

#[test]
fn truncate_output_multibyte_at_char_boundary() {
    let text = "中".repeat(20);
    let (result, truncated) = truncate_output(text, 50);
    assert!(truncated);
    let indicator = "\n...[output truncated]";
    assert!(result.ends_with(indicator));
    let prefix_len = result.len() - indicator.len();
    assert_eq!(prefix_len % 3, 0, "prefix should be whole 中 chars");
}

#[test]
fn truncate_output_empty_text_not_truncated() {
    let (result, truncated) = truncate_output(String::new(), 10);
    assert_eq!(result, "");
    assert!(!truncated);
}

#[test]
fn truncating_again_changes_nothing_more() {
    let (once, _) = truncate_output("b".repeat(200), 80);
    let (twice, again) = truncate_output(once.clone(), 80);
    assert_eq!(twice, once);
    assert!(!again);
    assert_eq!(once.len(), 80);
}

#[test]
fn within_workdir_ok() {
    assert!(within("/tmp/w/a/b/c.txt", &["/tmp/w"]).is_ok());
    assert!(within("/tmp/w/x/y/z", &["/tmp/w"]).is_ok());
}

#[test]
fn outside_workdir_rejected_even_nonexistent() {
    assert!(within("/tmp/s16-escape/a/b", &["/tmp"]).is_err());
}

#[test]
fn mkdir_escape_with_dotdot_rejected() {
    assert!(within("/tmp/w/nodir/../../tmp/fp_mkdir_escape/f.txt", &["/tmp/w"]).is_err());
    assert!(within("/tmp/w/../tmp/fp_mkdir_escape/x.txt", &["/tmp/w"]).is_err());
    assert!(within("/tmp/w/sub/new/file.txt", &["/tmp/w"]).is_ok());
}

#[test]
fn paths_are_compared_component_by_component() {
    assert!(is_under("/tmp/w/a", "/tmp/w"));
    assert!(is_under("/tmp/w", "/tmp/w"));
    assert!(!is_under("/tmp/wide", "/tmp/w"));
    assert!(!is_under("/tmp/w/../x", "/tmp/w"));
}

#[test]
fn names_and_extensions() {
    assert_eq!(file_name("/a/b.txt").as_deref(), Some("b.txt"));
    assert_eq!(extension("/a/b.tar.gz").as_deref(), Some("gz"));
    assert_eq!(extension("/a/.env"), None);
    assert_eq!(join_path("/a", "/b"), "/b");
    assert_eq!(join_path("/a/", "b"), "/a/b");
}

#[test]
fn add_works() {
    assert_eq!(add(2, 3), 5);
    assert_eq!(add(-1, 1), 0);
}

#[test]
fn sum_works() {
    assert_eq!(sum(&[1, 2, 3]), 6);
    assert_eq!(sum(&[]), 0);
    assert_eq!(sum(&[-1, 1]), 0);
}

#[test]
fn sums_of_parts_add_up() {
    assert_eq!(sum(&[4, 5, 6, 7]), add(sum(&[4, 5]), sum(&[6, 7])));
}
