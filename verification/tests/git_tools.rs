//! Patches and differences.

use minicoding::git::apply::{patch_side_target_valid, validate_patch_paths, GitApply, GitEvent};
use minicoding::git::diff::GitDiff;
use minicoding::path::{resolve_path, PathProbe};
use minicoding::tool::{RenderIntent, SideEffect, ToolError, ToolResult};

#[test]
fn apply_missing_patch_returns_invalid_input() {
    let err = GitApply::new().patch(None).unwrap_err();
    assert!(matches!(err, ToolError::InvalidInput(_)));
}

#[test]
fn patch_with_parent_dir_target_rejected() {
    let patch = "--- a/../etc/passwd\n+++ b/../etc/passwd\n@@ -1 +1 @@\n-x\n+y\n";
    assert!(validate_patch_paths(patch).is_err());
}

#[test]
fn patch_with_absolute_target_rejected() {
    let patch = "--- /etc/passwd\n+++ /etc/passwd\n@@ -1 +1 @@\n-x\n+y\n";
    assert!(validate_patch_paths(patch).is_err());
}

#[test]
fn patch_with_devnull_and_relative_targets_accepted() {
    let patch = "--- /dev/null\n+++ b/new_file.txt\n@@ -0,0 +1 @@\n+hello\n";
    assert!(validate_patch_paths(patch).is_ok());
}

#[test]
fn patch_with_escaping_diff_git_line_rejected() {
    let patch = "\
diff --git a/../etc/passwd b/../etc/passwd
--- a/etc/passwd
+++ b/etc/passwd
@@ -1 +1 @@
-root:x:0:0:root:/root:/bin/bash
-root2:x:0:0:root:/root:/bin/bash
";
    assert!(validate_patch_paths(patch).is_err());
}

#[test]
fn patch_with_absolute_diff_git_line_rejected() {
    let patch = "\
diff --git a//etc/passwd b//etc/passwd
--- a/etc/passwd
+++ b/etc/passwd
@@ -1 +1 @@
-a
-b
";
    assert!(validate_patch_paths(patch).is_err());
}

#[test]
fn patch_with_normal_diff_git_line_accepted() {
    let patch = "\
diff --git a/src/main.rs b/src/main.rs
--- a/src/main.rs
+++ b/src/main.rs
@@ -1 +1 @@
-old
-new
";
    assert!(validate_patch_paths(patch).is_ok());
}

#[test]
fn patch_headers_are_read_up_to_a_tab() {
    assert!(validate_patch_paths("--- a/x.txt\t2026-01-01\n+++ b/x.txt\t../now\n").is_ok());
    match validate_patch_paths("+++ b/../x.txt\t2026\n").unwrap_err() {
        ToolError::InvalidInput(m) => assert!(m.contains("`b/../x.txt`"), "{m}"),
        other => panic!("expected InvalidInput, got {other:?}"),
    }
    assert!(validate_patch_paths("diff --git a/only_one\n").is_err());
}

#[test]
fn targets_of_a_side() {
    assert!(patch_side_target_valid("a/x..y/z"));
    assert!(patch_side_target_valid("/dev/null"));
    assert!(!patch_side_target_valid("\"a/x\""));
    assert!(!patch_side_target_valid("a/x\\y"));
    assert!(!patch_side_target_valid("a/"));
    assert!(!patch_side_target_valid(""));
}

#[test]
fn apply_valid_patch_succeeds() {
    let patch = "--- a/test.txt\n+++ b/test.txt\n@@ -1 +1 @@\n-hello\n+hello world\n";
    let tool = GitApply::new();
    assert_eq!(tool.patch(Some(patch.to_string())).expect("accepted"), patch);
    let done = GitEvent::Exited { success: true, code: Some(0), stdout: vec![], stderr: vec![] };
    assert_eq!(tool.finish(done).expect("applied").content, "patch 已应用");
}

#[test]
fn apply_timeout_returns_error_result() {
    let result = GitApply::new().finish(GitEvent::TimedOut("300ms".to_string())).expect("a result");
    assert!(result.is_error);
    assert!(result.content.contains("超时"));
}

#[test]
fn apply_failures_are_told_apart() {
    let tool = GitApply::new();
    let message = |e: GitEvent| match tool.finish(e) {
        Err(ToolError::Exec(m)) => m,
        other => panic!("expected Exec, got {other:?}"),
    };
    assert_eq!(message(GitEvent::SpawnFailed("x".to_string())), "git apply spawn 失败: x");
    assert_eq!(message(GitEvent::StdinFailed("x".to_string())), "stdin 写入失败: x");
    assert_eq!(message(GitEvent::WaitFailed("x".to_string())), "git apply 等待失败: x");
    let refused =
        GitEvent::Exited { success: false, code: Some(1), stdout: vec![], stderr: b"bad".to_vec() };
    assert_eq!(message(refused), "git apply 失败 (exit 1): bad");
    let killed =
        GitEvent::Exited { success: false, code: None, stdout: vec![], stderr: vec![0xff] };
    assert_eq!(message(killed), "git apply 失败 (exit -1): \u{fffd}");
}

#[test]
fn apply_side_effect_is_file_write() {
    assert_eq!(GitApply::new().side_effect(), SideEffect::FileWrite);
}

#[test]
fn apply_schema_has_correct_name() {
    assert_eq!(GitApply::new().name(), "git.apply");
}

#[test]
fn diff_returns_changes() {
    let tool = GitDiff::new();
    assert_eq!(tool.arguments(None, None), vec!["diff", "HEAD"]);
    let done = GitEvent::Exited {
        success: true,
        code: Some(0),
        stdout: b"-original\n+modified\n".to_vec(),
        stderr: vec![],
    };
    let text = tool.finish(done).expect("diff").content;
    assert!(text.contains("modified"));
}

#[test]
fn diff_with_path_filter() {
    let args = GitDiff::new().arguments(None, Some("a.txt".to_string()));
    assert_eq!(args, vec!["diff", "HEAD", "--", "a.txt"]);
}

#[test]
fn diff_against_a_ref_with_path_filter() {
    let args = GitDiff::new().arguments(Some("main".to_string()), Some("a.txt".to_string()));
    assert_eq!(args, vec!["diff", "main", "--", "a.txt"]);
}

#[test]
fn diff_path_escape_rejected() {
    let found = PathProbe {
        target: Some("/etc/passwd".to_string()),
        parent: Some("/etc".to_string()),
        parent_is_dir: true,
    };
    assert!(resolve_path("/tmp/r", "../../../etc/passwd", found).is_err());
}

#[test]
fn diff_timeout_returns_error_result() {
    let result = GitDiff::new().finish(GitEvent::TimedOut("300ms".to_string())).expect("a result");
    assert!(result.is_error);
    assert!(result.content.contains("超时"));
    let err = GitDiff::new().finish(GitEvent::SpawnFailed("x".to_string())).unwrap_err();
    assert!(matches!(err, ToolError::Exec(_)));
}

#[test]
fn diff_side_effect_is_none() {
    assert_eq!(GitDiff::new().side_effect(), SideEffect::Nothing);
}

#[test]
fn diff_schema_has_correct_name() {
    assert_eq!(GitDiff::new().name(), "git.diff");
}

#[test]
fn differences_are_shown_as_such() {
    match GitDiff::new().render_output(&ToolResult::ok_text("+a".to_string())) {
        RenderIntent::Code { language, content } => {
            assert_eq!(language.as_deref(), Some("diff"));
            assert_eq!(content, "+a");
        }
        other => panic!("expected Code, got {other:?}"),
    }
}
