//! The terminal interface.

use minicoding::plan::PermissionMode;
use minicoding::task::model::{Task, TaskStatus};
use minicoding::tui::app::{App, PanelMode, SessionItem, SIDEBAR_ROWS};
use minicoding::tui::commands::{
    arrange_sessions, handle_ui_reply, plan_command, replay_history, toggle_plan, BridgeReply,
    BridgeStep, FailedFile, StoredMessage, UndoReport, MAX_SESSIONS,
};
use minicoding::tui::event::{
    AppAction, AppEvent, ChatLine, Decision, KeyCode, KeyEvent, PermissionPrompt, PromptOption,
    Risk, Role, RuntimeEvent, TermEvent, TurnOutcome, UiCommand,
};
use minicoding::tui::input::InputState;
use minicoding::tui::markdown::{parse_inline, parse_markdown, split_ordered_list_item};
use minicoding::tui::style::{Color, Line, Style, Theme};
use minicoding::tui::time::{relative_time, relative_time_at, show_date};
use minicoding::tui::view::{
    input_cursor, popup_area, render_chat, render_permission_popup, render_sidebar,
    render_task_panel, render_titlebar, render_tool_panel, scroll_position, short_id, status_mark,
    status_priority, task_line, truncate_str, Area,
};

const SECOND: i128 = 1_000_000_000;

fn text_of(line: &Line) -> String {
    line.spans.iter().map(|s| s.content.as_str()).collect()
}

fn press(code: KeyCode) -> KeyEvent {
    KeyEvent { code, control: false, other_modifier: false, press: true }
}

fn control(c: char) -> KeyEvent {
    KeyEvent { code: KeyCode::Char(c), control: true, other_modifier: false, press: true }
}

fn hit(app: &mut App, key: KeyEvent) -> AppAction {
    app.handle_term_event(TermEvent::Key(key))
}

fn type_in(app: &mut App, text: &str) {
    for c in text.chars() {
        app.handle_key(press(KeyCode::Char(c)));
    }
}

fn session(id: &str, at: i128) -> SessionItem {
    SessionItem { id: id.to_string(), message_count: 2, last_message_at: at, offset: 0 }
}

fn app() -> App {
    App::new(vec![session("one", 2), session("two", 1)], "one".to_string())
}

fn prompt(options: Vec<PromptOption>) -> PermissionPrompt {
    PermissionPrompt {
        tool: "shell.run".to_string(),
        summary: "run".to_string(),
        risk: Risk::High,
        options,
    }
}

#[test]
fn input_state_insert_and_backspace() {
    let mut s = InputState::default();
    s.insert_char('你');
    s.insert_char('好');
    assert_eq!(s.buffer, "你好");
    assert_eq!(s.cursor, 6);
    s.backspace();
    assert_eq!(s.buffer, "你");
    assert_eq!(s.cursor, 3);
}

#[test]
fn input_state_cursor_movement() {
    let mut s = InputState::default();
    s.insert_char('a');
    s.insert_char('b');
    s.insert_char('c');
    assert_eq!(s.cursor, 3);
    s.cursor_left();
    assert_eq!(s.cursor, 2);
    s.cursor_left();
    assert_eq!(s.cursor, 1);
    s.cursor_right();
    assert_eq!(s.cursor, 2);
    s.cursor_home();
    assert_eq!(s.cursor, 0);
    s.cursor_end();
    assert_eq!(s.cursor, 3);
}

#[test]
fn input_state_submit_records_history() {
    let mut s = InputState::default();
    s.insert_char('h');
    s.insert_char('i');
    let text = s.submit();
    assert_eq!(text.as_deref(), Some("hi"));
    assert!(s.buffer.is_empty(), "expected empty: s.buffer");
    assert_eq!(s.history, vec!["hi".to_string()]);
    s.insert_char('h');
    s.insert_char('i');
    s.submit();
    assert_eq!(s.history.len(), 1);
}

#[test]
fn input_state_submit_empty_returns_none() {
    let mut s = InputState::default();
    s.insert_char(' ');
    assert!(s.submit().is_none());
}

#[test]
fn input_state_history_navigation() {
    let mut s = InputState {
        buffer: "first".to_string(),
        cursor: 5,
        history: Vec::new(),
        history_idx: None,
    };
    s.submit();
    s.buffer = "second".to_string();
    s.cursor = 6;
    s.submit();
    assert_eq!(s.history.len(), 2);
    s.history_prev();
    assert_eq!(s.buffer, "second");
    s.history_prev();
    assert_eq!(s.buffer, "first");
    s.history_next();
    assert_eq!(s.buffer, "second");
    s.history_next();
    assert!(s.buffer.is_empty(), "expected empty: s.buffer");
}

#[test]
fn input_state_cursor_col_counts_chars_not_bytes() {
    let mut s = InputState::default();
    s.insert_char('a');
    s.insert_char('中');
    s.insert_char('b');
    assert_eq!(s.cursor_col(), 3);
    s.cursor_left();
    assert_eq!(s.cursor_col(), 2);
}

#[test]
fn delete_takes_the_character_at_the_cursor() {
    let mut s = InputState::default();
    s.insert_char('中');
    s.insert_char('b');
    s.cursor_home();
    s.delete();
    assert_eq!((s.buffer.as_str(), s.cursor), ("b", 0));
    s.cursor_end();
    s.delete();
    assert_eq!(s.buffer, "b");
}

#[test]
fn parse_headers() {
    let lines = parse_markdown("# Title\n## Sub\n### Subsub");
    assert_eq!(lines.len(), 3);
    assert_eq!(lines[0].spans.len(), 1);
    assert_eq!(lines[1].spans.len(), 1);
    assert_eq!(lines[2].spans.len(), 1);
}

#[test]
fn parse_code_block() {
    let lines = parse_markdown("```rust\nfn main() {}\n```\n");
    assert_eq!(lines.len(), 1);
    assert!(lines[0].spans.iter().any(|s| s.content.contains("[rust]")));
    assert!(lines[0].spans.iter().any(|s| s.content.contains("fn main() {}")));
}

#[test]
fn parse_streaming_unclosed_code_block() {
    let lines = parse_markdown("```python\nprint(1)\nprint(2)");
    assert_eq!(lines.len(), 1);
    assert!(lines[0].spans.iter().any(|s| s.content.contains("print(1)")));
    assert!(lines[0].spans.iter().any(|s| s.content.contains("print(2)")));
}

#[test]
fn parse_inline_bold() {
    let spans = parse_inline("hello **world** end");
    assert_eq!(spans.len(), 3);
    assert_eq!(spans[0].content, "hello ");
    assert_eq!(spans[1].content, "world");
    assert_eq!(spans[2].content, " end");
    assert!(spans[1].style.bold);
}

#[test]
fn parse_inline_italic() {
    let spans = parse_inline("a *b* c");
    assert_eq!(spans.len(), 3);
    assert_eq!(spans[0].content, "a ");
    assert_eq!(spans[1].content, "b");
    assert_eq!(spans[2].content, " c");
    assert!(spans[1].style.italic);
}

#[test]
fn parse_inline_code() {
    let spans = parse_inline("use `fmt` module");
    assert_eq!(spans.len(), 3);
    assert_eq!(spans[1].content, "fmt");
}

#[test]
fn unclosed_marks_are_plain_text() {
    let joined = |text: &str| -> String {
        parse_inline(text).iter().map(|s| s.content.as_str()).collect()
    };
    assert_eq!(joined("**bold"), "**bold");
    assert_eq!(parse_inline("**bold").len(), 1);
    assert_eq!(joined("a **b *c* d"), "a **b c d");
    assert_eq!(joined("*it"), "*it");
    assert_eq!(joined("`code"), "`code");
    assert_eq!(joined("**"), "**");
    let spans = parse_inline("***x*");
    assert_eq!(spans[0].content, "**");
    assert_eq!(spans[1].content, "x");
    assert!(spans[1].style.italic);
}

#[test]
fn parse_unordered_list() {
    let lines = parse_markdown("- item one\n- item two");
    assert_eq!(lines.len(), 2);
    assert!(lines[0].spans.iter().any(|s| s.content.contains("•")));
    assert!(lines[0].spans.iter().any(|s| s.content.contains("item one")));
}

#[test]
fn parse_ordered_list() {
    let lines = parse_markdown("1. first\n2. second");
    assert_eq!(lines.len(), 2);
    assert!(lines[0].spans.iter().any(|s| s.content.contains("1.")));
    assert!(lines[0].spans.iter().any(|s| s.content.contains("first")));
}

#[test]
fn parse_blockquote() {
    let lines = parse_markdown("> quoted text");
    assert_eq!(lines.len(), 1);
    assert!(lines[0].spans.iter().any(|s| s.content.contains("▌")));
    assert!(lines[0].spans.iter().any(|s| s.content.contains("quoted text")));
}

#[test]
fn parse_horizontal_rule() {
    let lines = parse_markdown("before\n---\nafter");
    assert_eq!(lines.len(), 3);
    assert!(lines[1].spans.iter().any(|s| s.content.starts_with('─')));
}

#[test]
fn parse_empty_input() {
    let lines = parse_markdown("");
    assert!(lines.is_empty(), "expected empty: lines");
}

#[test]
fn split_ordered_list_item_valid() {
    let (num, rest) = split_ordered_list_item("1. hello").unwrap();
    assert_eq!(num, "1");
    assert_eq!(rest, "hello");
}

#[test]
fn split_ordered_list_item_invalid() {
    assert!(split_ordered_list_item("not a list").is_none());
    assert!(split_ordered_list_item("a. not numeric").is_none());
}

#[test]
fn numbers_of_any_script_number_a_list() {
    assert_eq!(split_ordered_list_item("١. x"), Some(("١".to_string(), "x".to_string())));
}

#[test]
fn text_without_marks_is_one_piece() {
    let spans = parse_inline("plain text");
    assert_eq!(spans.len(), 1);
    assert_eq!(spans[0].style, Style::plain());
}

#[test]
fn dark_theme_default() {
    assert_eq!(Theme::default().status_idle, Theme::dark().status_idle);
}

#[test]
fn light_theme_differs_from_dark() {
    assert_ne!(Theme::light().titlebar_bg, Theme::dark().titlebar_bg);
}

#[test]
fn status_indicator_reflects_turning() {
    let t = Theme::default();
    assert_ne!(t.status_indicator(false), t.status_indicator(true));
}

#[test]
fn tool_mark_style_switches_on_done() {
    let t = Theme::default();
    assert_ne!(t.tool_mark_style(true), t.tool_mark_style(false));
}

#[test]
fn short_id_truncates() {
    assert_eq!(short_id("abcdefgh1234"), "abcdefgh");
    assert_eq!(short_id("abc"), "abc");
}

fn now() -> i128 {
    time::OffsetDateTime::now_utc().unix_timestamp_nanos()
}

#[test]
fn relative_time_recent() {
    assert_eq!(relative_time(now() - 30 * SECOND, 0), "刚刚");
}

#[test]
fn relative_time_minutes() {
    assert_eq!(relative_time(now() - 300 * SECOND, 0), "5m");
}

#[test]
fn relative_time_hours() {
    assert_eq!(relative_time(now() - 7200 * SECOND, 0), "2h");
}

#[test]
fn relative_time_days() {
    assert_eq!(relative_time(now() - 3 * 86_400 * SECOND, 0), "3d");
}

#[test]
fn long_ago_is_a_date() {
    let then: i128 = 1_700_000_000 * SECOND;
    assert_eq!(relative_time_at(then + 90 * 86_400 * SECOND, then, 0), "2023-11-14");
    assert_eq!(show_date(987, 1, 2), "0987-01-02");
}

#[test]
fn date_is_that_of_the_place_where_the_time_was_taken() {
    let hour: i32 = 3600;
    let weeks: i128 = 30 * 86_400 * SECOND;
    let midnight: i128 = 1_699_920_000 * SECOND;
    assert_eq!(relative_time_at(midnight + weeks, midnight, 0), "2023-11-14");
    assert_eq!(relative_time_at(midnight + weeks, midnight, -hour), "2023-11-13");
    let evening: i128 = midnight - 7 * 3600 * SECOND - 1800 * SECOND;
    assert_eq!(relative_time_at(evening + weeks, evening, 0), "2023-11-13");
    assert_eq!(relative_time_at(evening + weeks, evening, 8 * hour), "2023-11-14");
    assert_eq!(relative_time_at(evening + 300 * SECOND, evening, 8 * hour), "5m");
    let mut item = session("one", evening);
    item.offset = 8 * hour;
    let rows = render_sidebar(&vec![item], "x", evening + weeks);
    assert!(text_of(&rows[0].line).ends_with("2023-11-14"));
}

#[test]
fn date_of_a_time_agrees_with_the_calendar() {
    let offset = time::UtcOffset::from_hms(-9, -30, 0).expect("offset");
    for day in 0..800 {
        let then: i128 = (1_600_000_000 + i128::from(day) * 86_400) * SECOND;
        let t = time::OffsetDateTime::from_unix_timestamp_nanos(then).expect("time").to_offset(offset);
        assert_eq!(
            relative_time_at(then + 8 * 86_400 * SECOND, then, offset.whole_seconds()),
            format!("{:04}-{:02}-{:02}", t.year(), u8::from(t.month()), t.day())
        );
    }
}

#[test]
fn latest_list_keeps_the_place_of_each_time() {
    let mut late = session("late", 9);
    late.offset = -3600;
    let list = arrange_sessions(vec![session("early", 1), late]);
    assert_eq!((list[0].id.as_str(), list[0].offset), ("late", -3600));
    assert_eq!((list[1].id.as_str(), list[1].offset), ("early", 0));
}

#[test]
fn texts_parted_outside_a_code_block_are_shown_in_turn() {
    let shown = |text: &str| -> Vec<String> { parse_markdown(text).iter().map(text_of).collect() };
    let first = "# a\n```rust\nx\n```\nb\n";
    let second = "- c\n```\ny";
    let whole = format!("{first}{second}");
    let mut parts = shown(first);
    parts.extend(shown(second));
    assert_eq!(shown(&whole), parts);
    assert_eq!(shown(second).last().map(String::as_str), Some("y"));
}

fn make_task(content: &str, status: TaskStatus) -> Task {
    let mut t = Task::new("id".to_string(), content.to_string(), 0);
    t.status = status;
    t
}

#[test]
fn status_priority_orders_correctly() {
    assert!(status_priority(TaskStatus::InProgress) < status_priority(TaskStatus::Pending));
    assert!(status_priority(TaskStatus::Pending) < status_priority(TaskStatus::Completed));
    assert!(status_priority(TaskStatus::Completed) < status_priority(TaskStatus::Cancelled));
}

#[test]
fn truncate_str_short_unchanged() {
    assert_eq!(truncate_str("hi", 10), "hi");
}

#[test]
fn truncate_str_long_gets_ellipsis() {
    let long = "abcdefghij";
    let result = truncate_str(long, 5);
    assert_eq!(result.chars().count(), 5);
    assert!(result.ends_with('…'));
}

#[test]
fn truncate_str_empty_max_returns_unchanged() {
    assert_eq!(truncate_str("abc", 0), "abc");
}

#[test]
fn task_line_in_progress_uses_play_marker() {
    let theme = Theme::default();
    let task = make_task("demo", TaskStatus::InProgress);
    let line = task_line(&task, &theme, 40);
    assert!(!line.spans.is_empty(), "expected non-empty: line.spans");
    assert_eq!(text_of(&line), "▶ demo");
    assert_eq!(status_mark(TaskStatus::Cancelled, &theme).0, "✗");
}

#[test]
fn sort_puts_in_progress_first() {
    let now = now();
    let pending = Task {
        id: "1".to_string(),
        content: "p".to_string(),
        status: TaskStatus::Pending,
        summary: None,
        blocks: Vec::new(),
        blocked_by: Vec::new(),
        created_at: now,
        updated_at: now,
    };
    let in_prog = Task {
        id: "2".to_string(),
        content: "i".to_string(),
        status: TaskStatus::InProgress,
        summary: None,
        blocks: Vec::new(),
        blocked_by: Vec::new(),
        created_at: now,
        updated_at: now,
    };
    let mut sorted: Vec<&Task> = vec![&pending, &in_prog];
    sorted.sort_by_key(|t| status_priority(t.status));
    assert_eq!(sorted[0].status, TaskStatus::InProgress);
    let (title, lines) = render_task_panel(&vec![pending.copy(), in_prog.copy()], &Theme::dark(), 40);
    assert!(title.contains("2 项"));
    assert_eq!(text_of(&lines[0]), "▶ i");
    assert_eq!(text_of(&lines[1]), "○ p");
}

#[test]
fn text_is_typed_and_sent() {
    let mut app = app();
    type_in(&mut app, "hi");
    match app.handle_key(press(KeyCode::Enter)) {
        AppAction::Send(UiCommand::Submit(t)) => assert_eq!(t, "hi"),
        other => panic!("expected Submit, got {other:?}"),
    }
    assert!(app.is_turning);
    type_in(&mut app, "more");
    assert!(matches!(app.handle_key(press(KeyCode::Enter)), AppAction::Nothing));
}

#[test]
fn released_keys_do_nothing() {
    let mut app = app();
    let up = KeyEvent {
        code: KeyCode::Char('x'),
        control: false,
        other_modifier: false,
        press: false,
    };
    app.handle_term_event(TermEvent::Key(up));
    assert_eq!(app.input.buffer, "");
    app.handle_term_event(TermEvent::Key(press(KeyCode::Char('x'))));
    assert_eq!(app.input.buffer, "x");
}

#[test]
fn permission_keys_answer_the_prompt() {
    let mut app = app();
    app.handle_app_event(AppEvent::PermissionRequest(prompt(vec![
        PromptOption::AllowOnce,
        PromptOption::DenyOnce,
    ])));
    assert!(matches!(hit(&mut app, press(KeyCode::Char('x'))), AppAction::Nothing));
    assert!(app.pending_permission.is_some());
    assert!(matches!(
        hit(&mut app, press(KeyCode::Char('y'))),
        AppAction::Reply(Decision::Allow)
    ));
    assert!(app.pending_permission.is_none());
    app.handle_app_event(AppEvent::PermissionRequest(prompt(vec![PromptOption::AllowOnce])));
    assert!(matches!(
        hit(&mut app, press(KeyCode::Char('d'))),
        AppAction::Reply(Decision::Deny(_))
    ));
}

#[test]
fn panels_open_and_close() {
    let mut app = app();
    app.handle_key(press(KeyCode::F(3)));
    assert_eq!(app.panel_mode, PanelMode::Tool);
    app.handle_key(press(KeyCode::F(3)));
    assert_eq!(app.panel_mode, PanelMode::Off);
    app.handle_key(control('t'));
    assert_eq!(app.panel_mode, PanelMode::Task);
    let before = app.theme.titlebar_bg;
    app.handle_key(press(KeyCode::F(4)));
    app.handle_key(press(KeyCode::F(4)));
    assert_eq!(app.theme.titlebar_bg, before);
}

#[test]
fn sidebar_chooses_a_conversation() {
    let mut app = app();
    hit(&mut app, press(KeyCode::F(2)));
    assert!(app.sidebar_visible);
    hit(&mut app, press(KeyCode::Down));
    assert_eq!(app.selected, Some(1));
    hit(&mut app, press(KeyCode::Up));
    assert_eq!(app.selected, Some(0));
    hit(&mut app, press(KeyCode::Up));
    assert_eq!(app.selected, Some(1));
    match hit(&mut app, press(KeyCode::Enter)) {
        AppAction::Send(UiCommand::SwitchSession(id)) => assert_eq!(id, "two"),
        other => panic!("expected SwitchSession, got {other:?}"),
    }
    app.handle_app_event(AppEvent::SwitchSession("two".to_string()));
    assert_eq!(app.take_pending_switch().as_deref(), Some("two"));
    assert_eq!(app.take_pending_switch(), None);
}

#[test]
fn choice_stays_among_the_shown_conversations() {
    let many: Vec<SessionItem> = (0..40).map(|i| session(&format!("s{i}"), 0)).collect();
    let mut app = App::new(many, "x".to_string());
    hit(&mut app, press(KeyCode::F(2)));
    hit(&mut app, press(KeyCode::Up));
    assert_eq!(app.selected, Some(SIDEBAR_ROWS - 1));
    match hit(&mut app, press(KeyCode::Enter)) {
        AppAction::Send(UiCommand::SwitchSession(id)) => assert_eq!(id, "s19"),
        other => panic!("expected SwitchSession, got {other:?}"),
    }
    hit(&mut app, press(KeyCode::Down));
    assert_eq!(app.selected, Some(0));
}

#[test]
fn streamed_answer_is_shown_once() {
    let mut app = app();
    app.handle_runtime_event(RuntimeEvent::TurnStreamingStarted);
    app.handle_runtime_event(RuntimeEvent::Token("an".to_string()));
    app.handle_runtime_event(RuntimeEvent::Token("swer".to_string()));
    assert_eq!(app.streaming, "answer");
    app.handle_runtime_event(RuntimeEvent::MessageAppended {
        role: Role::Assistant,
        text: "answer".to_string(),
    });
    app.handle_runtime_event(RuntimeEvent::TurnEnd);
    assert_eq!(app.streaming, "");
    let answers = app
        .lines
        .iter()
        .filter(|l| matches!(l, ChatLine::Assistant(t) if t == "answer"))
        .count();
    assert_eq!(answers, 1);
}

#[test]
fn tool_calls_are_ticked_off() {
    let mut app = app();
    app.handle_runtime_event(RuntimeEvent::ToolCallStarted { tool: "fs.read".to_string() });
    assert!(matches!(&app.lines[0], ChatLine::Tool { done: false, .. }));
    app.handle_runtime_event(RuntimeEvent::ToolCallFinished { tool: "fs.read".to_string() });
    assert!(matches!(&app.lines[0], ChatLine::Tool { done: true, .. }));
    let panel = render_tool_panel(&app.lines, 10);
    assert_eq!(text_of(&panel[0]), "[✓] fs.read");
}

#[test]
fn finished_call_is_found_among_later_lines() {
    let mut app = app();
    app.handle_runtime_event(RuntimeEvent::ToolCallStarted { tool: "fs.read".to_string() });
    app.handle_runtime_event(RuntimeEvent::ToolCallStarted { tool: "fs.list".to_string() });
    app.handle_runtime_event(RuntimeEvent::MessageAppended {
        role: Role::Assistant,
        text: "working".to_string(),
    });
    app.handle_runtime_event(RuntimeEvent::ToolCallFinished { tool: "fs.read".to_string() });
    assert!(matches!(&app.lines[0], ChatLine::Tool { tool, done: true } if tool == "fs.read"));
    assert!(matches!(&app.lines[1], ChatLine::Tool { tool, done: false } if tool == "fs.list"));
    assert!(matches!(&app.lines[2], ChatLine::Assistant(t) if t == "working"));
    app.handle_runtime_event(RuntimeEvent::ToolCallFinished { tool: "fs.glob".to_string() });
    assert!(matches!(&app.lines[1], ChatLine::Tool { done: false, .. }));
    app.handle_runtime_event(RuntimeEvent::ToolCallFinished { tool: "fs.list".to_string() });
    assert!(matches!(&app.lines[1], ChatLine::Tool { done: true, .. }));
    assert_eq!(app.lines.len(), 3);
}

#[test]
fn last_call_of_a_tool_is_ticked_off() {
    let mut app = app();
    app.handle_runtime_event(RuntimeEvent::ToolCallStarted { tool: "fs.read".to_string() });
    app.handle_runtime_event(RuntimeEvent::ToolCallStarted { tool: "fs.read".to_string() });
    app.handle_runtime_event(RuntimeEvent::ToolCallFinished { tool: "fs.read".to_string() });
    assert!(matches!(&app.lines[0], ChatLine::Tool { done: false, .. }));
    assert!(matches!(&app.lines[1], ChatLine::Tool { done: true, .. }));
}

#[test]
fn failures_and_command_output_are_reported() {
    let mut app = app();
    app.is_turning = true;
    app.handle_app_event(AppEvent::TurnResult(Ok(TurnOutcome::Failed("boom".to_string()))));
    assert_eq!(app.status_msg, "失败: boom");
    assert!(!app.is_turning);
    app.handle_app_event(AppEvent::TurnResult(Err("lost".to_string())));
    assert_eq!(app.status_msg, "运行时错误: lost");
    app.handle_app_event(AppEvent::TurnResult(Ok(TurnOutcome::Interrupted)));
    assert_eq!(app.status_msg, "已中断");
    app.handle_app_event(AppEvent::CommandOutput("said".to_string()));
    assert!(app.lines.iter().any(|l| matches!(l, ChatLine::System(t) if t == "said")));
    app.handle_app_event(AppEvent::Summary(None));
    assert!(app.lines.iter().any(|l| matches!(l, ChatLine::System(t) if t == "无消息可摘要")));
}

#[test]
fn chat_is_rendered_with_names() {
    let lines = vec![
        ChatLine::User("q".to_string()),
        ChatLine::Assistant("a".to_string()),
        ChatLine::Tool { tool: "t".to_string(), done: false },
        ChatLine::System("s".to_string()),
    ];
    let shown: Vec<String> = render_chat(&lines, "", "").iter().map(text_of).collect();
    assert_eq!(shown[0], "You: q");
    assert_eq!(shown[1], "Assistant: a");
    assert_eq!(shown[2], "Tool […] t");
    assert_eq!(shown[3], "System: s");
}

#[test]
fn titlebar_shows_state_and_conversation() {
    let app = App::new(vec![], "abcdefghij".to_string());
    let text = text_of(&render_titlebar(&app));
    assert!(text.contains("○ 就绪"));
    assert!(text.contains("[abcdefgh] "));
}

#[test]
fn bottom_of_a_long_chat_is_shown() {
    assert_eq!(scroll_position(10, 20, 0), 0);
    let height: u16 = 12;
    let first: u16 = scroll_position(100, height, 0);
    assert!(first > 0);
    assert_eq!(scroll_position(100, height, 1), first - 1);
}

#[test]
fn popup_is_centred() {
    let area = Area { x: 0, y: 0, width: 100, height: 27 };
    let r = popup_area(area);
    assert_eq!((r.x, r.y, r.width, r.height), (20, 10, 60, 7));
    assert_eq!(input_cursor(Area { x: 2, y: 5, width: 10, height: 3 }, 4), (7, 6));
    let lines = render_permission_popup(&prompt(vec![PromptOption::AllowOnce, PromptOption::DenyOnce]));
    let text: Vec<String> = lines.iter().map(text_of).collect();
    assert!(text.iter().any(|l| l == "权限请求 [High]"));
    assert!(text.iter().any(|l| l == "选项: 允许一次 / 拒绝一次"));
}

#[test]
fn sidebar_marks_the_current_conversation() {
    let rows = render_sidebar(&vec![session("one", 0), session("two", 0)], "two", 60 * SECOND);
    assert!(!rows[0].current);
    assert!(rows[1].current);
    assert!(text_of(&rows[1].line).starts_with("▶ two"));
    assert!(text_of(&rows[0].line).contains("(2 条)"));
    let many: Vec<SessionItem> = (0..40).map(|i| session("s", i)).collect();
    assert_eq!(render_sidebar(&many, "x", 0).len(), SIDEBAR_ROWS);
}

#[test]
fn latest_conversations_come_first() {
    let sorted = arrange_sessions(vec![session("old", 1), session("new", 3), session("mid", 2)]);
    let ids: Vec<&str> = sorted.iter().map(|s| s.id.as_str()).collect();
    assert_eq!(ids, vec!["new", "mid", "old"]);
    let many: Vec<SessionItem> = (0..80).map(|i| session("s", i)).collect();
    assert_eq!(arrange_sessions(many).len(), MAX_SESSIONS);
}

#[test]
fn commands_become_steps() {
    assert!(matches!(plan_command(UiCommand::Exit), BridgeStep::Stop));
    assert!(matches!(plan_command(UiCommand::Model(None)), BridgeStep::ReadModel));
    assert!(matches!(plan_command(UiCommand::Undo { steps: 3 }), BridgeStep::Undo(3)));
    assert_eq!(toggle_plan(PermissionMode::Plan), PermissionMode::Default);
    assert_eq!(toggle_plan(PermissionMode::Default), PermissionMode::Plan);
}

fn said(reply: BridgeReply) -> String {
    match handle_ui_reply(reply) {
        AppEvent::CommandOutput(t) => t,
        other => panic!("expected CommandOutput, got {other:?}"),
    }
}

#[test]
fn replies_become_text() {
    assert_eq!(said(BridgeReply::ModelIs("m".to_string())), "当前模型: m");
    assert_eq!(
        said(BridgeReply::ModelSet { before: "a".to_string(), after: "b".to_string() }),
        "模型切换: a → b"
    );
    assert_eq!(
        said(BridgeReply::ModeSet { from: PermissionMode::Default, to: PermissionMode::Plan }),
        "权限模式: Default → Plan"
    );
    let report = UndoReport {
        undone_entries: 1,
        restored_files: 2,
        failed_files: vec![FailedFile { path: "a".to_string(), reason: "changed".to_string() }],
    };
    assert_eq!(
        said(BridgeReply::Undone(Ok(report))),
        "已撤销 1 条 operation，恢复 2 个文件；1 个文件冲突未覆盖（C-28）：a (changed)"
    );
}

#[test]
fn history_is_replayed() {
    let message = |role: Role, text: &str, calls: Vec<String>| StoredMessage {
        role,
        text: text.to_string(),
        tool_calls: calls,
    };
    let lines = replay_history(&vec![
        message(Role::User, "q", vec![]),
        message(Role::Assistant, "a", vec![]),
        message(Role::Assistant, "", vec!["x".to_string(), "y".to_string()]),
    ]);
    assert!(matches!(&lines[0], ChatLine::User(t) if t == "q"));
    assert!(matches!(&lines[1], ChatLine::Assistant(t) if t == "a"));
    assert!(matches!(&lines[2], ChatLine::Tool { tool, done: true } if tool == "x,y"));
    let mut app = app();
    app.set_history(lines);
    assert_eq!(app.lines.len(), 3);
    assert_eq!(Style::colored(Color::Red).fg, Some(Color::Red));
}

#[test]
fn what_was_shown_stays_when_more_comes() {
    let early = parse_markdown("# A\n- b");
    let late = parse_markdown("# A\n- b\n```\ncode");
    for (a, b) in early.iter().zip(late.iter()) {
        assert_eq!(text_of(a), text_of(b));
    }
    assert_eq!(late.len(), early.len() + 1);
}
