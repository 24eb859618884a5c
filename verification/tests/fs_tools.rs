//! Reading, writing, editing, listing and searching files.

use minicoding::fs::change::{
    record_change, AncestorProbe, DeleteEvent, FileChange, FsDelete, FsWrite, WriteStep,
};
use minicoding::fs::edit::{Edit, EditOutcome, FsEdit, FsMultiEdit};
use minicoding::fs::grep::{non_empty_lines, FsGlob, FsGrep, SearchedFile};
use minicoding::fs::listing::{entry_type_of, sort_by_name, FsList, ListedEntry};
use minicoding::fs::read::{select_lines, FsRead, ReadEvent};
use minicoding::fs::sensitive::{is_sensitive_path, show_content};
use minicoding::path::{resolve_path, PathProbe};
use minicoding::shell::redact::redact_secrets;
use minicoding::tool::{ListKind, RenderIntent, SideEffect, ToolError, ToolResult};

const LIMIT: usize = 1024 * 1024;

fn absent(parent: Option<&str>) -> PathProbe {
    PathProbe { target: None, parent: parent.map(String::from), parent_is_dir: parent.is_some() }
}

fn file(name: &str, content: &str) -> SearchedFile {
    SearchedFile {
        rel: name.to_string(),
        basename: name.to_string(),
        path: format!("/w/{name}"),
        content: content.to_string(),
        hidden: redact_secrets(content),
    }
}

/// What looking up the beginning of a path found.
fn found(workdir: &str, anchor: &str, tail: &str) -> AncestorProbe {
    AncestorProbe::Found {
        workdir: workdir.to_string(),
        anchor: anchor.to_string(),
        tail: tail.to_string(),
    }
}

fn grep(pattern: &str, files: Vec<SearchedFile>) -> Result<ToolResult, ToolError> {
    FsGrep::new().execute(pattern.to_string(), None, 0, None, files, LIMIT)
}

fn written(outcome: EditOutcome) -> (String, ToolResult) {
    match outcome {
        EditOutcome::Write { content, result } => (content, result),
        EditOutcome::Refused(r) => panic!("refused: {}", r.content),
    }
}

fn refused(outcome: EditOutcome) -> ToolResult {
    match outcome {
        EditOutcome::Refused(r) => r,
        EditOutcome::Write { .. } => panic!("expected a refusal"),
    }
}

fn edits(pairs: &[(&str, &str)]) -> Vec<Edit> {
    pairs
        .iter()
        .map(|(a, b)| Edit { old_string: a.to_string(), new_string: b.to_string() })
        .collect()
}

fn read(content: &str, path: &str, offset: Option<usize>, limit: Option<usize>, max: usize) -> ToolResult {
    let tool = FsRead::new();
    let event = ReadEvent::Bytes(content.as_bytes().to_vec());
    let hidden = tool
        .text_to_hide(&event, path, offset, limit)
        .map(|t| redact_secrets(&t))
        .unwrap_or_default();
    tool.execute(event, path, path, offset, limit, hidden, LIMIT, max).expect("read ok")
}

#[test]
fn delete_file_succeeds_and_file_removed() {
    let (result, change) = FsDelete::new()
        .execute("target.txt", "/w/target.txt".to_string(), DeleteEvent::Deleted(b"data".to_vec()))
        .expect("delete ok");
    assert!(!result.is_error);
    assert!(result.content.contains("deleted target.txt"));
    match change {
        FileChange::Deleted { path, content } => {
            assert_eq!(path, "/w/target.txt");
            assert_eq!(content, b"data".to_vec());
        }
        other => panic!("expected Deleted, got {other:?}"),
    }
}

#[test]
fn delete_nonexistent_file_returns_not_found() {
    let err = FsDelete::new()
        .execute("no_such_file.txt", "/w/no_such_file.txt".to_string(), DeleteEvent::Missing)
        .unwrap_err();
    assert!(matches!(err, ToolError::NotFound(_)));
}

#[test]
fn delete_path_escaped_rejected() {
    let err = resolve_path("/t/w", "../escape.txt", absent(Some("/t"))).unwrap_err();
    assert!(matches!(err, ToolError::PathEscaped(_)));
}

#[test]
fn delete_side_effect_is_file_write() {
    let tool = FsDelete::new();
    assert_eq!(tool.side_effect(), SideEffect::FileWrite);
    assert!(!tool.side_effect().is_read_only());
}

#[test]
fn delete_schema_name_correct() {
    assert_eq!(FsDelete::new().name(), "fs.delete");
}

#[test]
fn delete_directory_returns_io_error() {
    let err = FsDelete::new()
        .execute("adir", "/w/adir".to_string(), DeleteEvent::Failed("is a directory".to_string()))
        .unwrap_err();
    assert!(matches!(err, ToolError::Io(_)));
}

#[test]
fn edit_simple_replace_succeeds() {
    let (content, result) =
        written(FsEdit::new().execute("a.txt", "hello world", "hello", "goodbye"));
    assert!(!result.is_error);
    assert!(result.content.contains("edited a.txt"));
    assert_eq!(content, "goodbye world");
}

#[test]
fn edit_is_recorded_with_both_contents() {
    match FsEdit::new().change("/w/a.txt".to_string(), "old é", "new") {
        FileChange::Edited { path, before, after } => {
            assert_eq!(path, "/w/a.txt");
            assert_eq!(before, "old é".as_bytes().to_vec());
            assert_eq!(after, b"new".to_vec());
        }
        other => panic!("expected Edited, got {other:?}"),
    }
}

#[test]
fn edit_old_string_not_found_returns_error_result() {
    let result = refused(FsEdit::new().execute("a.txt", "hello world", "nonexistent", "x"));
    assert!(result.is_error);
    assert!(result.content.contains("not found"));
}

#[test]
fn edit_multiple_matches_returns_not_unique_error() {
    let result = refused(FsEdit::new().execute("a.txt", "foo bar foo", "foo", "x"));
    assert!(result.is_error);
    assert!(result.content.contains("not unique"));
}

#[test]
fn edit_nonexistent_file_returns_not_found() {
    let err = resolve_path("/w", "gone/no_such.txt", absent(None)).unwrap_err();
    assert!(matches!(err, ToolError::NotFound(_)));
}

#[test]
fn edit_same_old_new_returns_nothing_to_do() {
    let result = FsEdit::new().check("hello", "hello").expect("refused");
    assert!(result.is_error);
    assert!(result.content.contains("nothing to do"));
    assert!(FsEdit::new().check("hello", "hallo").is_none());
}

#[test]
fn edit_path_escaped_rejected() {
    let err = resolve_path("/t/w", "../escape.txt", absent(Some("/t"))).unwrap_err();
    assert!(matches!(err, ToolError::PathEscaped(_)));
}

#[test]
fn edit_unique_match_with_context_replaces_correctly() {
    let (content, result) =
        written(FsEdit::new().execute("a.txt", "foo bar\nfoo baz", "foo bar", "X bar"));
    assert!(!result.is_error);
    assert_eq!(content, "X bar\nfoo baz");
}

#[test]
fn edit_side_effect_is_file_write() {
    let tool = FsEdit::new();
    assert_eq!(tool.side_effect(), SideEffect::FileWrite);
    assert!(!tool.side_effect().is_read_only());
}

#[test]
fn edit_schema_name_correct() {
    assert_eq!(FsEdit::new().name(), "fs.edit");
}

fn glob(pattern: &str, paths: &[&str]) -> Result<ToolResult, ToolError> {
    let paths: Vec<String> = paths.iter().map(|p| p.to_string()).collect();
    FsGlob::new().execute(pattern, &paths, LIMIT)
}

#[test]
fn glob_star_rs_matches_top_level_rs_files() {
    let result = glob("*.rs", &["a.rs", "b.rs", "c.txt"]).expect("glob ok");
    assert!(!result.is_error);
    let mut paths: Vec<&str> = result.content.lines().collect();
    paths.sort();
    assert_eq!(paths, vec!["a.rs", "b.rs"]);
}

#[test]
fn glob_double_star_matches_recursively() {
    let result = glob("**/*.rs", &["a.rs", "sub/b.rs", "sub/c.txt"]).expect("glob ok");
    let paths: Vec<&str> = result.content.lines().collect();
    assert!(paths.contains(&"a.rs"));
    assert!(paths.contains(&"sub/b.rs"));
    assert!(!paths.iter().any(|p| p.contains("c.txt")));
}

#[test]
fn glob_no_match_returns_empty() {
    let result = glob("*.rs", &["a.txt"]).expect("glob ok");
    assert!(!result.is_error);
    assert!(result.content.is_empty());
}

#[test]
fn glob_invalid_pattern_returns_invalid_input() {
    assert!(matches!(glob("[unclosed", &[]).unwrap_err(), ToolError::InvalidInput(_)));
    assert!(matches!(FsGlob::new().check("[unclosed").unwrap_err(), ToolError::InvalidInput(_)));
    assert!(FsGlob::new().check("*.rs").is_ok());
}

#[test]
fn glob_default_path_is_workdir() {
    let result = glob("*.rs", &["a.rs"]).expect("glob ok");
    assert_eq!(result.content, "a.rs");
}

#[test]
fn glob_side_effect_is_none() {
    let tool = FsGlob::new();
    assert_eq!(tool.side_effect(), SideEffect::Nothing);
    assert!(tool.side_effect().is_read_only());
}

#[test]
fn glob_schema_name_correct() {
    assert_eq!(FsGlob::new().name(), "fs.glob");
}

#[test]
fn render_output_projects_text_paths_to_file_list() {
    let result = ToolResult::ok_text("src/a.rs\nsrc/b.rs".to_string());
    match FsGlob::new().render_output(&result) {
        RenderIntent::List { items, kind } => {
            assert_eq!(kind, ListKind::Files);
            assert_eq!(items, vec!["src/a.rs", "src/b.rs"]);
        }
        other => panic!("expected List, got {other:?}"),
    }
}

#[test]
fn render_output_skips_empty_lines() {
    let result = ToolResult::ok_text("a.rs\n\nb.rs\n".to_string());
    match FsGlob::new().render_output(&result) {
        RenderIntent::List { items, .. } => assert_eq!(items, vec!["a.rs", "b.rs"]),
        other => panic!("expected List, got {other:?}"),
    }
    assert_eq!(non_empty_lines("\n\n"), Vec::<String>::new());
}

#[test]
fn grep_matches_pattern_returns_lines() {
    let result = grep("foo", vec![file("a.txt", "foo\nbar\nfoobar\n")]).expect("grep ok");
    assert!(!result.is_error);
    assert!(result.content.contains("a.txt:1:foo"));
    assert!(result.content.contains("a.txt:3:foobar"));
    assert!(!result.content.contains("a.txt:2:"));
}

#[test]
fn grep_no_match_returns_empty() {
    let result = grep("nonexistent_pattern", vec![file("a.txt", "hello\nworld\n")]).expect("ok");
    assert!(!result.is_error);
    assert!(result.content.is_empty());
}

#[test]
fn grep_regex_match_returns_matches() {
    let result = grep("[a-z]+[0-9]+", vec![file("a.txt", "abc123\ndef456\nxyz\n")]).expect("ok");
    assert!(result.content.contains("a.txt:1:abc123"));
    assert!(result.content.contains("a.txt:2:def456"));
    assert!(!result.content.contains("a.txt:3:"));
}

#[test]
fn grep_multiple_files_returns_all_matches() {
    let result = grep("target", vec![file("a.txt", "target\n"), file("b.txt", "target line\n")])
        .expect("grep ok");
    assert!(result.content.contains("a.txt:1:target"));
    assert!(result.content.contains("b.txt:1:target line"));
}

#[test]
fn grep_invalid_regex_returns_invalid_input() {
    assert!(matches!(grep("[unclosed", vec![]).unwrap_err(), ToolError::InvalidInput(_)));
}

#[test]
fn grep_include_filter_restricts_files() {
    let result = FsGrep::new()
        .execute(
            "match".to_string(),
            Some("*.rs".to_string()),
            0,
            None,
            vec![file("a.rs", "match\n"), file("b.txt", "match\n")],
            LIMIT,
        )
        .expect("grep ok");
    assert!(result.content.contains("a.rs:1:match"));
    assert!(!result.content.contains("b.txt"));
}

#[test]
fn grep_default_path_is_workdir() {
    let result = grep("findme", vec![file("a.txt", "findme\n")]).expect("grep ok");
    assert!(result.content.contains("a.txt:1:findme"));
}

#[test]
fn grep_context_lines_included() {
    let result = FsGrep::new()
        .execute(
            "HIT".to_string(),
            None,
            1,
            None,
            vec![file("a.txt", "l1\nl2\nHIT\nl4\nl5\n")],
            LIMIT,
        )
        .expect("grep ok");
    let text = result.content;
    assert!(text.contains("a.txt:2-l2"));
    assert!(text.contains("a.txt:3:HIT"));
    assert!(text.contains("a.txt:4-l4"));
    assert!(!text.contains("a.txt:1-"));
    assert!(!text.contains("a.txt:5-"));
}

fn grep_context(pattern: &str, context: usize, limit: Option<usize>, files: Vec<SearchedFile>) -> String {
    FsGrep::new()
        .execute(pattern.to_string(), None, context, limit, files, LIMIT)
        .expect("grep ok")
        .content
}

#[test]
fn one_range_of_lines_needs_no_mark() {
    assert_eq!(
        grep_context("HIT", 1, None, vec![file("a.txt", "l1\nl2\nHIT\nl4\nl5\n")]),
        "a.txt:2-l2\na.txt:3:HIT\na.txt:4-l4\n"
    );
    assert_eq!(
        grep_context("HIT", 1, None, vec![file("a.txt", "HIT\nx\ny\n"), file("b.txt", "x\ny\nHIT\nz\n")]),
        "a.txt:1:HIT\na.txt:2-x\nb.txt:2-y\nb.txt:3:HIT\nb.txt:4-z\n"
    );
}

#[test]
fn ranges_of_one_file_are_parted_by_a_mark() {
    let text = "HIT\n2\n3\n4\nHIT\nHIT\n7\n8\n9\nHIT\n";
    assert_eq!(
        grep_context("HIT", 1, None, vec![file("f", text)]),
        "f:1:HIT\nf:2-2\n--\nf:4-4\nf:5:HIT\nf:6:HIT\nf:7-7\n--\nf:9-9\nf:10:HIT\n"
    );
    assert_eq!(
        grep_context("HIT", 1, None, vec![file("f", "HIT\n2\n3\nHIT\n")]),
        "f:1:HIT\nf:2-2\nf:3-3\nf:4:HIT\n"
    );
    assert_eq!(grep_context("HIT", 1, Some(1), vec![file("f", text)]), "f:1:HIT\n");
}

#[test]
fn grep_head_limit_truncates_matches() {
    let result = FsGrep::new()
        .execute(
            "m[0-9]".to_string(),
            None,
            0,
            Some(2),
            vec![file("a.txt", "m1\nm2\nm3\n")],
            LIMIT,
        )
        .expect("grep ok");
    assert!(result.content.contains("a.txt:1:m1"));
    assert!(result.content.contains("a.txt:2:m2"));
    assert!(!result.content.contains("a.txt:3:m3"));
}

#[test]
fn grep_side_effect_is_none() {
    let tool = FsGrep::new();
    assert_eq!(tool.side_effect(), SideEffect::Nothing);
    assert!(tool.side_effect().is_read_only());
}

#[test]
fn grep_schema_name_correct() {
    assert_eq!(FsGrep::new().name(), "fs.grep");
}

#[test]
fn grep_hides_secrets_of_sensitive_files() {
    let result = grep("KEY", vec![file(".env", "API_KEY=sk-secret-12345\n")]).expect("grep ok");
    assert!(result.content.contains(".env:1:"));
    assert!(!result.content.contains("sk-secret-12345"));
}

#[test]
fn render_output_projects_match_lines_to_list() {
    let result = ToolResult::ok_text("a.rs:3:pub fn main()\nb.rs:1:use std::fmt".to_string());
    match FsGrep::new().render_output(&result) {
        RenderIntent::List { items, kind } => {
            assert_eq!(kind, ListKind::Generic);
            assert_eq!(items.len(), 2);
            assert_eq!(items[0], "a.rs:3:pub fn main()");
        }
        other => panic!("expected List, got {other:?}"),
    }
}

#[test]
fn render_output_empty_text_falls_back_to_default() {
    let result = ToolResult::ok_text(String::new());
    match FsGrep::new().render_output(&result) {
        RenderIntent::Text => {}
        other => panic!("expected Text fallback, got {other:?}"),
    }
}

#[test]
fn record_change_some_journal_records_entry() {
    let entry = record_change(FileChange::Created {
        path: "/tmp/test.txt".to_string(),
        content: b"hello".to_vec(),
    });
    assert_eq!(entry.files.len(), 1);
    assert_eq!(entry.op_id.len(), 26);
    assert!(entry.prompt_snippet.is_empty());
}

fn entry(name: &str, kind: &'static str, size: u64) -> ListedEntry {
    ListedEntry { name: name.to_string(), kind, size }
}

#[test]
fn list_empty_directory_returns_empty_array() {
    assert!(FsList::new().arrange(vec![], false).is_empty());
}

#[test]
fn list_directory_with_files_returns_filenames() {
    let entries =
        FsList::new().arrange(vec![entry("b.txt", "file", 5), entry("a.txt", "file", 5)], false);
    assert_eq!(entries.len(), 2);
    assert_eq!(entries[0].name, "a.txt");
    assert_eq!(entries[1].name, "b.txt");
    assert_eq!(entries[0].kind, "file");
    assert_eq!(entries[0].size, 5);
}

#[test]
fn list_directory_with_subdir_returns_subdir_entry() {
    assert_eq!(entry_type_of(true, false), "dir");
    assert_eq!(entry_type_of(false, true), "file");
    assert_eq!(entry_type_of(false, false), "symlink");
}

#[test]
fn list_recursive_includes_subdir_contents() {
    let walked = vec![entry("sub", "dir", 0), entry("sub/b.txt", "file", 1), entry("a.txt", "file", 1)];
    let names: Vec<String> =
        FsList::new().arrange(walked, true).into_iter().map(|e| e.name).collect();
    assert_eq!(names, vec!["sub", "sub/b.txt", "a.txt"]);
}

#[test]
fn list_path_escaped_rejected() {
    let err = resolve_path("/t/w", "../escape", absent(Some("/t"))).unwrap_err();
    assert!(matches!(err, ToolError::PathEscaped(_)));
}

#[test]
fn list_schema_name_correct() {
    assert_eq!(FsList::new().name(), "fs.list");
}

#[test]
fn sorting_keeps_equal_names_in_order() {
    let sorted = sort_by_name(vec![entry("b", "file", 1), entry("a", "file", 2), entry("b", "dir", 3)]);
    let sizes: Vec<u64> = sorted.iter().map(|e| e.size).collect();
    assert_eq!(sizes, vec![2, 1, 3]);
}

#[test]
fn listing_is_cut_to_the_limit() {
    let result = FsList::new().present("x".repeat(100), 50);
    assert!(result.truncated);
    assert!(result.content.len() <= 50);
}

#[test]
fn multiedit_multiple_edits_applied_atomically() {
    let (content, result) = written(FsMultiEdit::new().execute(
        "a.txt",
        "alpha beta gamma",
        &edits(&[("alpha", "A"), ("beta", "B"), ("gamma", "G")]),
    ));
    assert!(!result.is_error);
    assert!(result.content.contains("applied 3 edit(s)"));
    assert_eq!(content, "A B G");
}

#[test]
fn multiedit_one_edit_fails_no_write_back() {
    let result = refused(FsMultiEdit::new().execute(
        "a.txt",
        "alpha beta gamma",
        &edits(&[("alpha", "A"), ("nonexistent", "X")]),
    ));
    assert!(result.is_error);
    assert!(result.content.contains("edit #2"));
    assert!(result.content.contains("not found"));
}

#[test]
fn multiedit_empty_edits_writes_back_unchanged() {
    let (content, result) = written(FsMultiEdit::new().execute("a.txt", "hello", &vec![]));
    assert!(!result.is_error);
    assert!(result.content.contains("applied 0 edit(s)"));
    assert_eq!(content, "hello");
}

#[test]
fn multiedit_non_unique_returns_error_no_write() {
    let result = refused(FsMultiEdit::new().execute("a.txt", "foo foo", &edits(&[("foo", "x")])));
    assert!(result.is_error);
    assert!(result.content.contains("not unique"));
}

#[test]
fn multiedit_same_old_new_returns_error() {
    let result = refused(FsMultiEdit::new().execute("a.txt", "hello", &edits(&[("hello", "hello")])));
    assert!(result.is_error);
    assert!(result.content.contains("edit #1"));
    assert!(result.content.contains("nothing to do"));
}

#[test]
fn multiedit_sequential_edits_use_prior_result() {
    let (content, result) = written(FsMultiEdit::new().execute(
        "a.txt",
        "a",
        &edits(&[("a", "b"), ("b", "c"), ("c", "d")]),
    ));
    assert!(!result.is_error);
    assert_eq!(content, "d");
}

#[test]
fn multiedit_side_effect_is_file_write() {
    let tool = FsMultiEdit::new();
    assert_eq!(tool.side_effect(), SideEffect::FileWrite);
    assert!(!tool.side_effect().is_read_only());
}

#[test]
fn multiedit_schema_name_correct() {
    assert_eq!(FsMultiEdit::new().name(), "fs.multiedit");
}

#[test]
fn env_file_is_sensitive() {
    assert!(is_sensitive_path(".env"));
    assert!(is_sensitive_path("/home/user/.env"));
    assert!(is_sensitive_path("project/.env.local"));
}

#[test]
fn every_name_that_begins_like_an_env_file_is_sensitive() {
    assert!(is_sensitive_path(".envrc"));
    assert!(is_sensitive_path("project/.ENV_prod"));
    assert!(!is_sensitive_path("my.env.txt"));
}

#[test]
fn credentials_file_is_sensitive() {
    assert!(is_sensitive_path("credentials"));
    assert!(is_sensitive_path("/home/user/.minicoding/credentials"));
    assert!(is_sensitive_path("creds"));
}

#[test]
fn pem_key_files_are_sensitive() {
    assert!(is_sensitive_path("server.pem"));
    assert!(is_sensitive_path("id_rsa.key"));
    assert!(is_sensitive_path("cert.pfx"));
    assert!(is_sensitive_path("keystore.p12"));
}

#[test]
fn keyword_files_are_sensitive() {
    assert!(is_sensitive_path("my_secret.toml"));
    assert!(is_sensitive_path("password.txt"));
    assert!(is_sensitive_path("api_token.json"));
    assert!(is_sensitive_path("SECRET_CONFIG"));
}

#[test]
fn normal_files_not_sensitive() {
    assert!(!is_sensitive_path("README.md"));
    assert!(!is_sensitive_path("src/main.rs"));
    assert!(!is_sensitive_path("Cargo.toml"));
    assert!(!is_sensitive_path("config.yaml"));
}

#[test]
fn content_of_a_plain_file_is_shown_as_it_is() {
    let content = "TOKEN=abc".to_string();
    let hidden = redact_secrets(&content);
    assert_eq!(show_content("a.txt", content.clone(), hidden.clone()), "TOKEN=abc");
    assert_eq!(show_content(".env", content, hidden), "TOKEN=***");
}

#[test]
fn lines_of_sensitive_files_have_to_be_hidden() {
    let tool = FsRead::new();
    let event = ReadEvent::Bytes(b"A=1\nTOKEN=abc\nB=2\n".to_vec());
    assert_eq!(tool.text_to_hide(&event, "/w/.env", Some(1), Some(1)), Some("TOKEN=abc".to_string()));
    assert_eq!(tool.text_to_hide(&event, "/w/a.txt", Some(1), Some(1)), None);
    assert_eq!(tool.text_to_hide(&ReadEvent::Missing, "/w/.env", None, None), None);
    assert_eq!(tool.text_to_hide(&ReadEvent::Bytes(vec![0xff]), "/w/.env", None, None), None);
    let shown = tool
        .execute(event, ".env", "/w/.env", Some(1), Some(1), "gone".to_string(), LIMIT, LIMIT)
        .expect("read ok");
    assert_eq!(shown.content, "gone");
}

#[test]
fn execute_reads_file_content() {
    let result = read("line1\nline2\nline3\n", "test.txt", None, None, LIMIT);
    assert!(!result.is_error);
    assert!(result.content.contains("line1"));
    assert!(result.content.contains("line2"));
    assert!(result.content.contains("line3"));
}

#[test]
fn execute_reads_absolute_path() {
    let probe = PathProbe {
        target: Some("/w/abs.txt".to_string()),
        parent: Some("/w".to_string()),
        parent_is_dir: true,
    };
    assert_eq!(resolve_path("/w", "/w/abs.txt", probe).expect("resolve ok"), "/w/abs.txt");
    assert_eq!(read("absolute path content", "/w/abs.txt", None, None, LIMIT).content, "absolute path content");
}

#[test]
fn execute_returns_not_found_for_missing_file() {
    let err = FsRead::new()
        .execute(ReadEvent::Missing, "does_not_exist.txt", "/w/does_not_exist.txt", None, None, String::new(), LIMIT, LIMIT)
        .unwrap_err();
    assert!(matches!(err, ToolError::NotFound(_)));
}

#[test]
fn execute_with_offset_and_limit_returns_subset() {
    let result = read("l0\nl1\nl2\nl3\nl4\nl5\n", "lines.txt", Some(2), Some(2), LIMIT);
    assert!(result.content.contains("l2"));
    assert!(result.content.contains("l3"));
    assert!(!result.content.contains("l0"));
    assert!(!result.content.contains("l4"));
}

#[test]
fn execute_with_offset_beyond_end_returns_empty() {
    assert_eq!(read("only one line\n", "small.txt", Some(100), None, LIMIT).content, "");
}

#[test]
fn windows_of_lines_adjoin() {
    let text = "a\nb\nc\nd";
    assert_eq!(select_lines(text, 0, Some(2)), "a\nb");
    assert_eq!(select_lines(text, 2, Some(2)), "c\nd");
    assert_eq!(select_lines(text, 0, Some(4)), "a\nb\nc\nd");
}

#[test]
fn execute_redacts_sensitive_env_file() {
    let result = read("API_KEY=sk-secret-12345\nPASSWORD=mypass\n", ".env", None, None, LIMIT);
    assert!(!result.content.contains("sk-secret-12345"));
    assert!(!result.content.contains("mypass"));
}

#[test]
fn execute_truncates_large_output() {
    let result = read(&"x".repeat(10 * 1024), "large.txt", None, None, 1024);
    assert!(result.truncated);
    assert!(result.content.len() <= 1024);
}

#[test]
fn execute_metadata_includes_byte_count() {
    let result = read("hello", "bytes.txt", None, None, LIMIT);
    assert_eq!(result.bytes, 5);
    assert!(!result.truncated);
}

#[test]
fn bytes_that_are_no_text_cannot_be_read() {
    let result = FsRead::new()
        .execute(ReadEvent::Bytes(vec![0xff, 0xfe]), "a.bin", "/w/a.bin", None, None, String::new(), LIMIT, LIMIT)
        .expect("a result that says so");
    assert!(result.is_error);
    assert!(result.content.contains("2 字节"));
}

#[test]
fn files_that_are_too_large_are_refused() {
    let tool = FsRead::new();
    assert!(tool.may_read(10, 10));
    assert!(!tool.may_read(11, 10));
    let err = tool
        .execute(ReadEvent::TooLarge(11), "big", "/w/big", None, None, String::new(), 10, LIMIT)
        .unwrap_err();
    match err {
        ToolError::Io(m) => assert_eq!(
            m,
            "file too large: 11 bytes > limit 10 bytes; use offset/limit to read in segments"
        ),
        other => panic!("expected Io, got {other:?}"),
    }
    let err = tool
        .execute(ReadEvent::Failed("denied".to_string()), "f", "/w/f", None, None, String::new(), 10, LIMIT)
        .unwrap_err();
    assert!(matches!(err, ToolError::Io(_)));
}

#[test]
fn fs_read_default_equals_new() {
    assert_eq!(FsRead::new().name(), FsRead::default().name());
}

#[test]
fn fs_read_side_effect_is_none() {
    let tool = FsRead::new();
    assert_eq!(tool.side_effect(), SideEffect::Nothing);
    assert!(tool.side_effect().is_read_only());
}

#[test]
fn render_output_projects_text_to_code() {
    let result = ToolResult::ok_text("fn main() {\n}".to_string());
    match FsRead::new().render_output(&result) {
        RenderIntent::Code { language, content } => {
            assert_eq!(language, None);
            assert_eq!(content, "fn main() {\n}");
        }
        other => panic!("expected Code, got {other:?}"),
    }
}

#[test]
fn write_new_file_succeeds() {
    let tool = FsWrite::new();
    let resolved = resolve_path("/w", "new.txt", absent(Some("/w")));
    match tool.step("/w", "new.txt", resolved, true, found("/w", "/w", "new.txt")) {
        WriteStep::Write(p) => assert_eq!(p, "/w/new.txt"),
        other => panic!("expected Write, got {other:?}"),
    }
    assert!(tool.result("new.txt", "hello world").content.contains("wrote 11 bytes"));
    match tool.change("/w/new.txt".to_string(), None, "hello world") {
        FileChange::Created { path, content } => {
            assert_eq!(path, "/w/new.txt");
            assert_eq!(content, b"hello world".to_vec());
        }
        other => panic!("expected Created, got {other:?}"),
    }
}

#[test]
fn write_overwrite_existing_file_succeeds() {
    match FsWrite::new().change("/w/a.txt".to_string(), Some(b"old content".to_vec()), "new content") {
        FileChange::Written { before, after, .. } => {
            assert_eq!(before, b"old content".to_vec());
            assert_eq!(after, b"new content".to_vec());
        }
        other => panic!("expected Written, got {other:?}"),
    }
}

#[test]
fn write_to_nonexistent_subdir_creates_parent_dirs() {
    let tool = FsWrite::new();
    let missing = resolve_path("/w", "nodir/deep/file.txt", absent(None));
    let ancestor = || found("/w", "/w", "nodir/deep/file.txt");
    match tool.step("/w", "nodir/deep/file.txt", missing, true, ancestor()) {
        WriteStep::MakeParents(c) => assert_eq!(c, "/w/nodir/deep/file.txt"),
        other => panic!("expected MakeParents, got {other:?}"),
    }
    let made = resolve_path("/w", "nodir/deep/file.txt", absent(Some("/w/nodir/deep")));
    match tool.step("/w", "nodir/deep/file.txt", made, false, ancestor()) {
        WriteStep::Write(p) => assert_eq!(p, "/w/nodir/deep/file.txt"),
        other => panic!("expected Write, got {other:?}"),
    }
    let still_missing = resolve_path("/w", "nodir/deep/file.txt", absent(None));
    assert!(matches!(
        tool.step("/w", "nodir/deep/file.txt", still_missing, false, ancestor()),
        WriteStep::Fail(ToolError::NotFound(_))
    ));
}

#[test]
fn write_path_escaped_rejected() {
    let resolved = resolve_path("/t/w", "../escape.txt", absent(Some("/t")));
    assert!(matches!(
        FsWrite::new().step("/t/w", "../escape.txt", resolved, true, found("/t/w", "/t", "escape.txt")),
        WriteStep::Fail(ToolError::PathEscaped(_))
    ));
}

#[test]
fn no_directory_is_made_outside_the_workdir() {
    let input = "nodir/../../evil/f.txt";
    let missing = || resolve_path("/t/w", input, absent(None));
    assert!(matches!(missing(), Err(ToolError::NotFound(_))));
    match FsWrite::new().step("/t/w", input, missing(), true, found("/t/w", "/t/w", input)) {
        WriteStep::Fail(ToolError::PathEscaped(m)) => {
            assert_eq!(m, "path escapes workdir: /t/w/nodir/../../evil/f.txt");
        }
        other => panic!("expected Fail, got {other:?}"),
    }
    let linked = found("/t/w", "/elsewhere", "deep/f.txt");
    assert!(matches!(
        FsWrite::new().step("/t/w", "link/deep/f.txt", missing(), true, linked),
        WriteStep::Fail(ToolError::PathEscaped(_))
    ));
    let failed = AncestorProbe::Failed("no such file".to_string());
    match FsWrite::new().step("/t/w", input, missing(), true, failed) {
        WriteStep::Fail(ToolError::Exec(m)) => assert_eq!(m, "path normalize failed: no such file"),
        other => panic!("expected Fail, got {other:?}"),
    }
}

#[test]
fn write_empty_content_succeeds() {
    let result = FsWrite::new().result("empty.txt", "");
    assert!(!result.is_error);
    assert!(result.content.contains("wrote 0 bytes"));
}

#[test]
fn write_side_effect_is_file_write() {
    let tool = FsWrite::new();
    assert_eq!(tool.side_effect(), SideEffect::FileWrite);
    assert!(!tool.side_effect().is_read_only());
}

#[test]
fn write_schema_name_correct() {
    assert_eq!(FsWrite::new().name(), "fs.write");
}

#[test]
fn write_multibyte_content_byte_count_correct() {
    assert!(FsWrite::new().result("zh.txt", "你好").content.contains("wrote 6 bytes"));
}

#[test]
fn one_edit_of_many_is_that_edit() {
    let (alone, _) = written(FsEdit::new().execute("a.txt", "x y z", "y", "Y"));
    let (among, _) = written(FsMultiEdit::new().execute("a.txt", "x y z", &edits(&[("y", "Y")])));
    assert_eq!(alone, among);
    assert_eq!(alone, "x Y z");
    assert!(refused(FsEdit::new().execute("a.txt", "ab", "", "x")).content.contains("3 matches"));
}
