//! Commands in the foreground and in the background, and what is hidden of
//! their output.

use minicoding::shell::background::{
    InMemoryBackgroundShellStore, ShellBackground, ShellKill, ShellOutput, StartFailure, StreamBuffer,
    BackgroundShellStatus, MAX_TRACKED_SHELLS,
};
use minicoding::shell::redact::{merge_edits, redact_line_precise, redact_secrets};
use minicoding::shell::run::{
    effective_timeout, keep_capped, present_run, truncate_chars, RunEvent, ShellRun,
};
use minicoding::tool::{RenderIntent, SideEffect, ToolError, ToolResult};

const SECOND: u128 = 1_000_000_000;

fn run(code: Option<i32>, stdout: &str, stderr: &str) -> ToolResult {
    present_run(code, stdout.to_string(), stderr.to_string(), false)
}

#[test]
fn run_echo_outputs_text() {
    let result = run(Some(0), "hello\n", "");
    assert!(!result.is_error);
    assert!(result.content.contains("hello"));
}

#[test]
fn run_nonexistent_command_exits_nonzero() {
    let result = run(Some(127), "", "sh: this_cmd_does_not_exist_xyz123: not found\n");
    assert!(result.content.contains("[exit code:"));
}

#[test]
fn run_timeout_returns_timeout_error() {
    let outcome = ShellRun::new().finish(RunEvent::TimedOut, SECOND / 10, 4096);
    assert!(outcome.kill_tree);
    assert!(matches!(outcome.result, Err(ToolError::Timeout(100_000_000))));
}

#[test]
fn run_long_output_truncated() {
    let mut stdout = String::new();
    for i in 1..=20000 {
        stdout.push_str(&format!("{i}\n"));
    }
    let result = run(Some(0), &stdout, "");
    assert!(result.truncated);
    assert!(result.content.contains("... [output truncated]"));
}

#[test]
fn timeout_clamped_to_context_limit() {
    let limit: u128 = 300_000_000;
    assert_eq!(effective_timeout(Some(18446744073709551615), limit), limit);
    assert_eq!(effective_timeout(None, limit), limit);
    assert_eq!(effective_timeout(Some(100), limit), 100_000_000);
}

#[test]
fn timeout_zero_clamped_to_nonzero() {
    let t: u128 = effective_timeout(Some(0), 500_000_000);
    assert!(t > 0);
    assert!(t <= 500_000_000);
}

#[test]
fn output_capped_at_max_output_bytes() {
    let mut buf: Vec<u8> = Vec::new();
    let chunk: Vec<u8> = vec![b'x'; 3000];
    keep_capped(&mut buf, &chunk, 4096);
    assert_eq!(buf.len(), 3000);
    keep_capped(&mut buf, &chunk, 4096);
    assert_eq!(buf.len(), 4096);
    keep_capped(&mut buf, &chunk, 4096);
    assert_eq!(buf.len(), 4096);

    let mut kept: Vec<u8> = Vec::new();
    for n in 1..=500_000 {
        keep_capped(&mut kept, format!("{n}\n").as_bytes(), 4096);
    }
    let event = RunEvent::Exited { code: Some(0), stdout: kept, stderr: Vec::new() };
    let result = ShellRun::new().finish(event, 1_000_000_000, 4096).result.expect("run ok");
    assert!(result.truncated);
    assert!(result.bytes < 8192, "{}", result.bytes);
    assert!(result.content.starts_with("1\n2\n3\n"));
}

#[test]
fn run_stderr_captured_in_output() {
    let text = run(Some(0), "out_msg\n", "err_msg\n").content;
    assert!(text.contains("out_msg"));
    assert!(text.contains("err_msg"));
    assert!(text.contains("--- stderr ---"));
}

#[test]
fn run_stderr_only_no_separator() {
    let text = run(Some(0), "", "err_only\n").content;
    assert!(text.contains("err_only"));
    assert!(!text.contains("--- stderr ---"));
}

#[test]
fn run_exit_code_zero_no_prefix() {
    let result = run(Some(0), "", "");
    assert!(!result.is_error);
    assert!(!result.content.contains("[exit code:"));
}

#[test]
fn run_side_effect_is_command() {
    let tool = ShellRun::new();
    assert_eq!(tool.side_effect(), SideEffect::Command);
    assert!(!tool.side_effect().is_read_only());
}

#[test]
fn run_schema_name_correct() {
    assert_eq!(ShellRun::new().name(), "shell.run");
}

#[test]
fn run_failures_are_told_apart() {
    let tool = ShellRun::new();
    let failed = tool.finish(RunEvent::SpawnFailed("no sh".to_string()), SECOND, 4096);
    assert!(!failed.kill_child);
    assert!(matches!(failed.result, Err(ToolError::Exec(_))));
    let lost = tool.finish(RunEvent::StdoutLost, SECOND, 4096);
    assert!(matches!(lost.result, Err(ToolError::Exec(_))));
    let refused = tool.finish(RunEvent::SandboxRefused("no".to_string()), SECOND, 4096);
    assert!(matches!(refused.result, Err(ToolError::Exec(_))));
}

#[test]
fn truncate_chars_short_text_not_truncated() {
    let (result, truncated) = truncate_chars("hello".to_string(), 100);
    assert_eq!(result, "hello");
    assert!(!truncated);
}

#[test]
fn truncate_chars_exact_length_not_truncated() {
    let text = "hello".to_string();
    let (result, truncated) = truncate_chars(text.clone(), text.chars().count());
    assert_eq!(result, text);
    assert!(!truncated);
}

#[test]
fn truncate_chars_long_text_truncated_with_indicator() {
    let text = "a".repeat(100);
    let (result, truncated) = truncate_chars(text, 50);
    assert!(truncated);
    assert!(result.ends_with("\n... [output truncated]"));
}

#[test]
fn truncate_chars_multibyte_at_char_boundary() {
    let text = "中".repeat(60);
    let (result, truncated) = truncate_chars(text, 50);
    assert!(truncated);
    assert!(result.ends_with("\n... [output truncated]"));
}

#[test]
fn truncate_chars_empty_text_not_truncated() {
    let (result, truncated) = truncate_chars(String::new(), 10);
    assert_eq!(result, "");
    assert!(!truncated);
}

#[test]
fn shell_output_redacts_api_keys() {
    let text = run(Some(0), "sk-test-key-12345\n", "").content;
    assert!(text.contains("***"));
    assert!(!text.contains("sk-test-key-12345"));
}

#[test]
fn redact_preserves_line_context_around_value() {
    let input = "2026-08-25 INFO request id=42 API_KEY=sk-secret-value-xyz done in 3ms";
    let out = redact_secrets(input);
    assert!(out.contains("id=42"), "{out}");
    assert!(out.contains("done in 3ms"), "{out}");
    assert!(!out.contains("sk-secret-value"), "{out}");
    assert!(out.contains("API_KEY=***"), "{out}");
}

#[test]
fn redact_json_field_and_quoted_value() {
    let out = redact_secrets("{\"api_key\": \"supersecret123\", \"level\": \"info\"}");
    assert!(!out.contains("supersecret123"), "{out}");
    assert!(out.contains("\"level\": \"info\""), "{out}");
}

#[test]
fn redact_prefix_token_only_not_whole_line() {
    let out = redact_secrets("token ghp_abcdef123 served 200 OK");
    assert!(out.contains("served 200 OK"), "{out}");
    assert!(!out.contains("ghp_abcdef"), "{out}");
}

#[test]
fn redact_non_sensitive_lines_untouched() {
    let input = "plain log line\ntokens=42 count\nno secrets here";
    assert_eq!(redact_secrets(input), input);
}

#[test]
fn merge_edits_takes_union_of_overlapping_ranges() {
    assert_eq!(merge_edits(vec![(5, 15), (10, 20)]), vec![(5, 20)]);
    assert_eq!(merge_edits(vec![(0, 5), (5, 8), (12, 20)]), vec![(0, 8), (12, 20)]);
    assert_eq!(merge_edits(vec![(0, 3), (4, 6)]), vec![(0, 3), (4, 6)]);
}

#[test]
fn redact_quoted_value_with_prefix_fully_redacts() {
    let out = redact_line_precise("export TOKEN=\"sk-abcdefghijklmnop\"", &["token"], &["sk-"]);
    assert_eq!(out, "export TOKEN=***", "{out}");
}

#[test]
fn token_starts_after_any_white_space_or_quotation_mark() {
    let hidden = |line: &str| redact_line_precise(line, &[], &["sk-"]);
    assert_eq!(hidden("x\u{3000}sk-abc y"), "x\u{3000}*** y");
    assert_eq!(hidden("x\u{2003}sk-abc"), "x\u{2003}***");
    assert_eq!(hidden("'sk-abc'"), "'***'");
    assert_eq!(hidden("\u{e0}sk-abc"), "\u{e0}sk-abc");
    assert_eq!(hidden("task-abc"), "task-abc");
}

#[test]
fn text_is_hidden_line_by_line() {
    let first = "API_KEY=abc x\r\nplain\n";
    let second = "= tail\nTOKEN: \"q r\"";
    assert_eq!(
        redact_secrets(&format!("{first}{second}")),
        format!("{}{}", redact_secrets(first), redact_secrets(second))
    );
    assert_eq!(redact_secrets("token\n=abc"), "token\n=abc");
    assert_eq!(redact_secrets("token=abc"), "token=***");
}

#[test]
fn merging_ranges_that_may_be_empty() {
    assert_eq!(merge_edits(vec![(1, 1), (1, 3), (4, 4), (6, 6)]), vec![(1, 3), (4, 4), (6, 6)]);
    assert_eq!(merge_edits(vec![(2, 5), (5, 5), (5, 7)]), vec![(2, 7)]);
}

#[test]
fn every_assigned_value_of_a_line_is_hidden() {
    let out = redact_line_precise("token=aaa x token=bbb", &["token"], &["sk-"]);
    assert_eq!(out, "token=*** x token=***");
}

#[test]
fn background_command_is_followed() {
    let mut store = InMemoryBackgroundShellStore::new();
    let (id, evicted) = store.spawn(1024 * 1024);
    assert!(evicted.is_none());
    assert_eq!(id.len(), 26);
    store.push_chunk(&id, false, b"hello\n");
    let status = store.output(id.clone()).expect("output");
    assert!(!status.exited);
    assert_eq!(status.exit_code, None);
    store.record_exit(&id, Some(0));
    let status = store.output(id).expect("output");
    assert!(status.exited);
    assert_eq!(status.exit_code, Some(0));
}

#[test]
fn store_spawn_and_output_basic() {
    let mut store = InMemoryBackgroundShellStore::new();
    let (id, _) = store.spawn(1024 * 1024);
    store.push_chunk(&id, false, b"hello\n");
    store.record_exit(&id, Some(0));
    let status = store.output(id).expect("output");
    assert!(status.stdout.contains("hello"));
    assert!(status.exited);
    assert_eq!(status.exit_code, Some(0));
}

#[test]
fn store_output_nonexistent_returns_not_found() {
    let store = InMemoryBackgroundShellStore::new();
    assert!(matches!(store.output("nonexistent".to_string()), Err(ToolError::NotFound(_))));
}

#[test]
fn store_kill_nonexistent_returns_not_found() {
    let store = InMemoryBackgroundShellStore::new();
    assert!(matches!(store.kill("nonexistent".to_string()), Err(ToolError::NotFound(_))));
}

#[test]
fn store_kill_stops_running_process() {
    let mut store = InMemoryBackgroundShellStore::new();
    let (id, _) = store.spawn(1024 * 1024);
    assert!(!store.output(id.clone()).expect("output").exited);
    assert!(store.kill(id).expect("kill"));
}

#[test]
fn store_output_truncates_beyond_cap() {
    let mut store = InMemoryBackgroundShellStore::new();
    let (id, _) = store.spawn(4096);
    for _ in 0..20 {
        store.push_chunk(&id, false, &[b'x'; 1000]);
    }
    let status = store.output(id).expect("output");
    assert!(status.stdout.contains("[output truncated"));
    assert!(status.stdout.len() < 20000);
}

#[test]
fn store_kill_exited_is_idempotent() {
    let mut store = InMemoryBackgroundShellStore::new();
    let (id, _) = store.spawn(1024 * 1024);
    store.record_exit(&id, Some(0));
    assert!(!store.kill(id.clone()).expect("kill exited shell"));
    assert!(!store.kill(id).expect("kill exited shell again"));
}

#[test]
fn store_spawn_accumulates_stderr() {
    let mut store = InMemoryBackgroundShellStore::new();
    let (id, _) = store.spawn(1024 * 1024);
    store.push_chunk(&id, true, b"err\n");
    let status = store.output(id).expect("output");
    assert!(status.stderr.contains("err"));
    assert_eq!(status.stdout, "");
}

#[test]
fn tool_missing_command_returns_invalid_input() {
    let err = ShellBackground::new().command(None).unwrap_err();
    assert!(matches!(err, ToolError::InvalidInput(_)));
}

#[test]
fn command_that_could_not_be_started_is_reported() {
    let tool = ShellBackground::new();
    let told = |why: StartFailure| -> (String, bool) {
        let refusal = tool.start_failed(why);
        match refusal.error {
            ToolError::Exec(m) => (m, refusal.kill_child),
            other => panic!("expected Exec, got {other:?}"),
        }
    };
    let e = || "no".to_string();
    assert_eq!(told(StartFailure::SandboxRefused(e())), ("sandbox apply failed: no".to_string(), false));
    assert_eq!(told(StartFailure::SpawnFailed(e())), ("spawn 失败: no".to_string(), false));
    assert_eq!(
        told(StartFailure::PostSpawnFailed(e())),
        ("sandbox post_spawn failed: no".to_string(), true)
    );
    assert_eq!(told(StartFailure::StdoutLost), ("stdout pipe 丢失".to_string(), false));
    assert_eq!(told(StartFailure::StderrLost), ("stderr pipe 丢失".to_string(), false));
}

#[test]
fn tool_spawn_returns_shell_id() {
    let result = ShellBackground::new().started("01ARZ3NDEKTSV4RRFFQ69G5FAV");
    assert!(!result.is_error);
    assert!(result.content.contains("shell_id"));
}

#[test]
fn store_evicts_oldest_beyond_cap() {
    let mut store = InMemoryBackgroundShellStore::new();
    let (first_id, _) = store.spawn(1024 * 1024);
    store.record_exit(&first_id, Some(0));
    let mut last_id = String::new();
    for _ in 0..(MAX_TRACKED_SHELLS + 2) {
        let (id, _) = store.spawn(1024 * 1024);
        store.record_exit(&id, Some(0));
        last_id = id;
    }
    assert!(store.output(first_id).is_err());
    assert!(store.output(last_id).expect("kept").exited);
    assert_eq!(store.len(), MAX_TRACKED_SHELLS);
}

#[test]
fn ended_commands_are_forgotten_before_running_ones() {
    let mut store = InMemoryBackgroundShellStore::new();
    let (oldest, _) = store.spawn(64);
    let (ended, _) = store.spawn(64);
    store.record_exit(&ended, Some(0));
    for _ in 2..MAX_TRACKED_SHELLS {
        assert!(store.spawn(64).1.is_none());
    }
    let (_, out) = store.spawn(64);
    let out = out.expect("one leaves");
    assert_eq!(out.id, ended);
    assert!(!out.running);
    let out = store.evict_oldest().expect("one leaves");
    assert_eq!(out.id, oldest);
    assert!(out.running);
    assert!(store.evict_oldest().is_none());
}

#[test]
fn store_drops_one_command_at_a_time_the_oldest_first() {
    let mut store = InMemoryBackgroundShellStore::new();
    let mut ids: Vec<String> = Vec::new();
    for n in 0..MAX_TRACKED_SHELLS {
        let (id, gone) = store.spawn(64);
        assert!(gone.is_none());
        ids.push(id);
        assert_eq!(store.len(), n + 1);
    }
    for k in 0..3 {
        let (id, gone) = store.spawn(64);
        assert_eq!(gone.expect("one leaves").id, ids[k]);
        assert!(matches!(store.output(ids[k].clone()), Err(ToolError::NotFound(_))));
        assert!(store.output(ids[k + 1].clone()).is_ok());
        assert!(store.output(id).is_ok());
        assert_eq!(store.len(), MAX_TRACKED_SHELLS);
    }
    store.record_exit(&ids[9], Some(0));
    store.record_exit(&ids[7], None);
    assert_eq!(store.spawn(64).1.expect("one leaves").id, ids[7]);
    assert_eq!(store.spawn(64).1.expect("one leaves").id, ids[9]);
    assert_eq!(store.spawn(64).1.expect("one leaves").id, ids[3]);
}

#[test]
fn command_under_a_known_id_counts_as_the_newest() {
    let mut store = InMemoryBackgroundShellStore::new();
    store.register("a".to_string(), 64);
    store.register("b".to_string(), 64);
    store.push_chunk(&"a".to_string(), false, b"old");
    store.register("a".to_string(), 64);
    assert_eq!(store.len(), 2);
    assert_eq!(store.output("a".to_string()).expect("kept").stdout, "");
    for n in 2..MAX_TRACKED_SHELLS {
        store.register(format!("c{n}"), 64);
    }
    assert_eq!(store.evict_oldest().expect("one leaves").id, "b");
}

#[test]
fn known_id_in_a_full_store_leaves_every_other_but_the_oldest() {
    let mut store = InMemoryBackgroundShellStore::new();
    for n in 0..MAX_TRACKED_SHELLS {
        store.register(format!("c{n}"), 64);
    }
    assert_eq!(store.register("c5".to_string(), 64).expect("one leaves").id, "c0");
    assert!(matches!(store.output("c0".to_string()), Err(ToolError::NotFound(_))));
    for n in 1..MAX_TRACKED_SHELLS {
        assert!(store.output(format!("c{n}")).is_ok());
    }
    assert_eq!(store.len(), MAX_TRACKED_SHELLS - 1);
}

#[test]
fn stream_is_marked_once() {
    let mut buf = StreamBuffer::new();
    buf.push_chunk(b"abcd", 4);
    assert!(!buf.marked);
    buf.push_chunk(b"e", 4);
    assert!(buf.marked);
    let once = buf.text.clone();
    buf.push_chunk(b"f", 4);
    assert_eq!(buf.text, once);
}

#[test]
fn tool_side_effect_is_command() {
    assert_eq!(ShellBackground::new().side_effect(), SideEffect::Command);
}

#[test]
fn tool_schema_has_correct_name() {
    assert_eq!(ShellBackground::new().name(), "shell.background");
}

#[test]
fn kill_missing_shell_id_returns_invalid_input() {
    let store = InMemoryBackgroundShellStore::new();
    assert!(matches!(ShellKill::new().execute(&store, None), Err(ToolError::InvalidInput(_))));
}

#[test]
fn kill_nonexistent_returns_not_found() {
    let store = InMemoryBackgroundShellStore::new();
    assert!(matches!(
        ShellKill::new().execute(&store, Some("nonexistent".to_string())),
        Err(ToolError::NotFound(_))
    ));
}

#[test]
fn kill_side_effect_is_command() {
    assert_eq!(ShellKill::new().side_effect(), SideEffect::Command);
}

#[test]
fn kill_schema_has_correct_name() {
    assert_eq!(ShellKill::new().name(), "shell.kill");
}

#[test]
fn output_missing_shell_id_returns_invalid_input() {
    let store = InMemoryBackgroundShellStore::new();
    assert!(matches!(ShellOutput::new().execute(&store, None, String::new(), String::new()), Err(ToolError::InvalidInput(_))));
}

#[test]
fn output_nonexistent_returns_not_found() {
    let store = InMemoryBackgroundShellStore::new();
    assert!(matches!(
        ShellOutput::new().execute(
            &store,
            Some("nonexistent".to_string()),
            String::new(),
            String::new()
        ),
        Err(ToolError::NotFound(_))
    ));
}

#[test]
fn output_returns_json_with_status() {
    let mut store = InMemoryBackgroundShellStore::new();
    let (id, _) = store.spawn(1024);
    store.push_chunk(&id, false, b"test\n");
    store.record_exit(&id, Some(0));
    let started = ShellBackground::new().started(&id).content;
    let shell_id = started
        .split("shell_id=")
        .nth(1)
        .and_then(|s| s.split(')').next())
        .expect("extract shell_id");
    let tool = ShellOutput::new();
    let (out, err) = tool.texts_to_hide(&store, Some(shell_id.to_string())).expect("known");
    let status = tool
        .execute(&store, Some(shell_id.to_string()), redact_secrets(&out), redact_secrets(&err))
        .expect("output");
    assert!(status.stdout.contains("test"));
    assert!(status.exited);
}

#[test]
fn output_of_a_command_is_hidden_before_it_is_shown() {
    let tool = ShellOutput::new();
    let mut store = InMemoryBackgroundShellStore::new();
    let (id, _) = store.spawn(1024);
    store.push_chunk(&id, false, b"TOKEN=abc");
    store.push_chunk(&id, true, b"bad");
    let (out, err) = tool.texts_to_hide(&store, Some(id.clone())).expect("known");
    assert_eq!((out.as_str(), err.as_str()), ("TOKEN=abc", "bad"));
    let status = tool
        .execute(&store, Some(id), redact_secrets(&out), redact_secrets(&err))
        .expect("output");
    assert_eq!(status.stdout, "TOKEN=***");
    assert_eq!(status.stderr, "bad");
    assert!(!status.exited);
    assert_eq!(tool.texts_to_hide(&store, None), None);
    assert_eq!(tool.texts_to_hide(&store, Some("nonexistent".to_string())), None);
}

#[test]
fn output_side_effect_is_none() {
    assert_eq!(ShellOutput::new().side_effect(), SideEffect::Nothing);
}

#[test]
fn output_schema_has_correct_name() {
    assert_eq!(ShellOutput::new().name(), "shell.output");
}

#[test]
fn output_render_output_defaults_to_json() {
    let status = BackgroundShellStatus {
        stdout: "hi".to_string(),
        stderr: String::new(),
        exited: true,
        exit_code: Some(0),
    };
    match ShellOutput::new().render_output(&status) {
        RenderIntent::Json => {}
        other => panic!("expected Json, got {other:?}"),
    }
}

#[test]
fn command_output_is_shown_as_source_text() {
    let result = ToolResult::ok_text("a\nb".to_string());
    assert!(matches!(ShellRun::new().render_output(&result), RenderIntent::Code { .. }));
}

#[test]
fn cut_text_keeps_to_its_limit() {
    let (text, cut) = truncate_chars("中".repeat(100), 40);
    assert!(cut);
    assert_eq!(text.chars().count(), 40);
}
