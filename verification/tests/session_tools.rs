//! Plan mode, memory, questions and skills.

use minicoding::memory::{InMemoryAutoMemory, MemoryCategory, MemoryWrite};
use minicoding::plan::{
    PermissionMode, PlanExit, PlanList, PlanState, PreApprovedPrompt, TargetMode,
};
use minicoding::skills::{Skill, SkillList, SkillRead};
use minicoding::tool::{RenderIntent, SideEffect, ToolError};
use minicoding::tui::event::{Decision, PromptOption, Risk};
use minicoding::ui::{AskEvent, AskStep, UiAsk};

fn in_mode(mode: PermissionMode) -> PlanState {
    let mut state = PlanState::new();
    state.set_mode(mode);
    state
}

fn approved(prompts: &[&str]) -> Vec<PreApprovedPrompt> {
    prompts
        .iter()
        .map(|p| PreApprovedPrompt { tool: "shell.run".to_string(), prompt: p.to_string() })
        .collect()
}

fn exit(
    state: &mut PlanState,
    prompts: Vec<PreApprovedPrompt>,
    target: TargetMode,
) -> Result<usize, ToolError> {
    PlanExit::new()
        .execute(state, ".minicoding/plan.md".to_string(), prompts, target, false)
        .map(|r| r.allowed_prompts_count)
}

#[test]
fn plan_exit_switches_to_default_and_caches_prompts() {
    let mut state = in_mode(PermissionMode::Plan);
    let count = exit(&mut state, approved(&["cargo build", "cargo test"]), TargetMode::Default);
    assert_eq!(count.unwrap(), 2);
    assert_eq!(state.mode, PermissionMode::Default);
    assert_eq!(state.allowed_prompts.len(), 2);
}

#[test]
fn plan_exit_switches_to_accept_edits() {
    let mut state = in_mode(PermissionMode::Plan);
    exit(&mut state, vec![], TargetMode::AcceptEdits).unwrap();
    assert_eq!(state.mode, PermissionMode::AcceptEdits);
}

#[test]
fn plan_exit_rejects_when_not_in_plan_mode() {
    let mut state = in_mode(PermissionMode::Default);
    let err = exit(&mut state, vec![], TargetMode::Default).unwrap_err();
    assert!(matches!(err, ToolError::InvalidStateTransition(_)));
    assert_eq!(state.mode, PermissionMode::Default);
}

#[test]
fn plan_exit_default_target_mode_is_default() {
    let mut state = in_mode(PermissionMode::Plan);
    exit(&mut state, vec![], TargetMode::default()).unwrap();
    assert_eq!(state.mode, PermissionMode::Default);
}

#[test]
fn plan_exit_empty_allowed_prompts_works() {
    let mut state = in_mode(PermissionMode::Plan);
    exit(&mut state, vec![], TargetMode::Default).unwrap();
    assert!(state.allowed_prompts.is_empty());
}

#[test]
fn plan_exit_works_once() {
    let mut state = in_mode(PermissionMode::Plan);
    exit(&mut state, vec![], TargetMode::Default).unwrap();
    assert!(exit(&mut state, vec![], TargetMode::Default).is_err());
}

#[test]
fn plan_exit_is_read_only_and_no_side_effect() {
    let tool = PlanExit::new();
    assert_eq!(tool.name(), "plan.exit");
    assert_eq!(tool.side_effect(), SideEffect::Nothing);
    assert!(tool.is_read_only());
}

#[test]
fn list_reports_current_mode_and_prompts() {
    let mut state = in_mode(PermissionMode::Plan);
    state.allowed_prompts = approved(&["cargo build"]);
    let (mode, prompts) = PlanList::new().execute(&state);
    assert_eq!(mode, "plan");
    assert_eq!(prompts[0].tool, "shell.run");
    assert_eq!(prompts[0].prompt, "cargo build");
}

#[test]
fn list_works_in_default_mode_too() {
    let state = in_mode(PermissionMode::Default);
    let (mode, prompts) = PlanList::new().execute(&state);
    assert_eq!(mode, "default");
    assert!(prompts.is_empty(), "expected empty: prompts");
}

#[test]
fn list_is_read_only_and_no_side_effect() {
    let tool = PlanList::new();
    assert_eq!(tool.side_effect(), SideEffect::Nothing);
    assert!(tool.is_read_only());
}

#[test]
fn list_schema_and_output_schema() {
    assert_eq!(PlanList::new().name(), "plan.list");
}

#[test]
fn render_output_projects_prompts_to_table() {
    match PlanList::new().render_output(&approved(&["cargo build", "cargo test"])) {
        RenderIntent::Table { headers, rows } => {
            assert_eq!(headers, vec!["tool", "prompt"]);
            assert_eq!(rows.len(), 2);
            assert_eq!(rows[0][1], "cargo build");
            assert_eq!(rows[1][1], "cargo test");
        }
        other => panic!("expected Table, got {other:?}"),
    }
    assert!(matches!(PlanList::new().render_output(&vec![]), RenderIntent::Json));
}

#[test]
fn write_long_term_saves_content() {
    let tool = MemoryWrite::new();
    let result = tool.long_term_result("user prefers dark theme", Ok(())).unwrap();
    assert_eq!(result.content, "long_term memory updated (23 bytes)");
    let err = tool.long_term_result("x", Err("disk full".to_string())).unwrap_err();
    match err {
        ToolError::Exec(m) => assert_eq!(m, "memory error: disk full"),
        other => panic!("expected Exec, got {other:?}"),
    }
}

#[test]
fn write_auto_adds_entry() {
    let mut memory = InMemoryAutoMemory::new();
    let (result, place, is_new) = MemoryWrite::new().learn(
        &mut memory,
        "prefer 4-space indent".to_string(),
        Some("indent-style".to_string()),
        Some(MemoryCategory::Pref),
        None,
    );
    assert!(result.content.contains("auto memory entry added"));
    assert!(result.content.contains("total 1 entries"));
    assert_eq!((place, is_new), (0, true));
}

#[test]
fn write_auto_dedup_by_topic() {
    let mut memory = InMemoryAutoMemory::new();
    let tool = MemoryWrite::new();
    let topic = || Some("t".to_string());
    tool.learn(&mut memory, "v1".to_string(), topic(), Some(MemoryCategory::Pref), None);
    let (result, place, is_new) =
        tool.learn(&mut memory, "v2".to_string(), topic(), Some(MemoryCategory::Decision), None);
    assert!(result.content.contains("total 1 entries"));
    assert_eq!((place, is_new), (0, false));
    assert_eq!(memory.entries()[0].content, "v2");
    assert_eq!(memory.entries()[0].category, MemoryCategory::Pref);
}

#[test]
fn write_auto_defaults_confidence_and_category() {
    let mut memory = InMemoryAutoMemory::new();
    let (result, _, _) = MemoryWrite::new().learn(
        &mut memory,
        "some note".to_string(),
        Some("note".to_string()),
        None,
        None,
    );
    assert!(result.content.contains("total 1 entries"));
    assert_eq!(memory.entries()[0].category, MemoryCategory::Pref);
}

#[test]
fn write_auto_without_topic_uses_content_prefix() {
    let mut memory = InMemoryAutoMemory::new();
    let tool = MemoryWrite::new();
    let (result, _, _) = tool.learn(&mut memory, "a short note".to_string(), None, None, None);
    assert!(result.content.contains("total 1 entries"));
    assert_eq!(memory.entries()[0].topic, "a short note");
    tool.learn(&mut memory, "中".repeat(30), None, None, None);
    assert_eq!(memory.entries()[1].topic, "中".repeat(20));
}

#[test]
fn memory_is_written_to() {
    let tool = MemoryWrite::new();
    assert_eq!(tool.name(), "memory.write");
    assert_eq!(tool.side_effect(), SideEffect::FileWrite);
}

#[test]
fn questions_are_put_as_prompts() {
    match UiAsk::new().ask(Some("继续？".to_string()), true).expect("asked") {
        AskStep::Ask(q) => {
            assert!(q.id.starts_with("ask-"));
            assert_eq!(q.id.len(), 30);
            assert_eq!(q.prompt.tool, "ui.ask");
            assert_eq!(q.prompt.summary, "继续？");
            assert_eq!(q.prompt.risk, Risk::Low);
            assert_eq!(q.prompt.options, vec![PromptOption::AllowOnce, PromptOption::DenyOnce]);
        }
        other => panic!("expected Ask, got {other:?}"),
    }
    assert!(matches!(UiAsk::new().ask(None, true), Err(ToolError::InvalidInput(_))));
    match UiAsk::new().ask(Some("q".to_string()), false).expect("told") {
        AskStep::NoOne(r) => assert!(r.is_error),
        other => panic!("expected NoOne, got {other:?}"),
    }
}

#[test]
fn answers_are_told() {
    let tool = UiAsk::new();
    assert_eq!(tool.answer(Decision::Allow).content, "用户回答: yes");
    assert_eq!(tool.answer(Decision::AllowAlways).content, "用户回答: yes");
    assert_eq!(tool.answer(Decision::Deny(String::new())).content, "用户回答: no");
    assert_eq!(tool.answer(Decision::Deny("later".to_string())).content, "用户回答: no (later)");
}

#[test]
fn question_and_answer_are_reported() {
    let tool = UiAsk::new();
    let question = match tool.ask(Some("go on?".to_string()), true).expect("asked") {
        AskStep::Ask(q) => q,
        other => panic!("expected Ask, got {other:?}"),
    };
    match tool.requested(&question) {
        AskEvent::Requested { id, tool, summary, risk } => {
            assert_eq!(id, question.id);
            assert_eq!(tool, "ui.ask");
            assert_eq!(summary, "go on?");
            assert_eq!(risk, Risk::Low);
        }
        other => panic!("expected Requested, got {other:?}"),
    }
    match tool.resolved("ask-1".to_string(), &Decision::Deny("later".to_string())) {
        AskEvent::Resolved { id, decision: Decision::Deny(reason) } => {
            assert_eq!((id.as_str(), reason.as_str()), ("ask-1", "later"));
        }
        other => panic!("expected Resolved, got {other:?}"),
    }
}

#[test]
fn skill_list_returns_json() {
    let tool = SkillList::new();
    assert_eq!(tool.name(), "skill.list");
    assert_eq!(tool.side_effect(), SideEffect::Nothing);
}

#[test]
fn skill_read_returns_instructions() {
    let skill = Skill { name: "x".to_string(), instructions: "# 指令\n执行".to_string() };
    let text = SkillRead::new().execute("x", Ok(Some(skill))).unwrap().content;
    assert!(text.contains("指令"));
    assert!(text.contains("<skill_output"));
    assert_eq!(text, "<skill_output name=\"x\">\n# 指令\n执行\n</skill_output>");
}

#[test]
fn skill_read_not_found() {
    let tool = SkillRead::new();
    assert!(matches!(tool.execute("nonexistent", Ok(None)), Err(ToolError::NotFound(_))));
    assert!(matches!(tool.execute("x", Err("io".to_string())), Err(ToolError::Exec(_))));
}
