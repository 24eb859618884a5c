//! Tasks, agents and working trees.

use minicoding::agent::{
    Isolation, MergeStrategy, SubagentResult, SubagentSpec, SubagentType, Thoroughness,
    WorktreeSpec,
};
use minicoding::fs::listing::FsList;
use minicoding::plan::PermissionMode;
use minicoding::task::cycle::has_cycle;
use minicoding::task::model::{Task, TaskPatch, TaskStatus};
use minicoding::task::spawn::{RoundLimits, SpawnReport, SpawnType, TaskSpawn};
use minicoding::task::store::{dedup_extend, InMemoryTaskStore};
use minicoding::task::tools::{Created, TaskCreate, TaskList, TaskUpdate};
use minicoding::tool::{RenderIntent, SideEffect, ToolError};
use minicoding::worktree::{
    abort_command, merge_command, Stage, WorktreeAction, WorktreeEvent, WorktreeRun,
};

fn to(status: TaskStatus) -> TaskPatch {
    TaskPatch { status: Some(status), ..Default::default() }
}

fn waiting_for(ids: &[&String]) -> TaskPatch {
    TaskPatch {
        add_blocked_by: Some(ids.iter().map(|s| s.to_string()).collect()),
        ..Default::default()
    }
}

#[test]
fn create_returns_pending_task_with_id() {
    let mut store = InMemoryTaskStore::new();
    let task = store.create("demo task".to_string()).unwrap();
    assert_eq!(task.status, TaskStatus::Pending);
    assert_eq!(task.id.len(), 26);
    assert!(task.blocks.is_empty());
}

#[test]
fn create_rejects_empty_content() {
    let mut store = InMemoryTaskStore::new();
    let err = store.create("   ".to_string()).unwrap_err();
    assert!(matches!(err, ToolError::InvalidInput(_)));
}

#[test]
fn update_forged_id_returns_not_found() {
    let mut store = InMemoryTaskStore::new();
    let err = store.update("nonexistent".to_string(), TaskPatch::default()).unwrap_err();
    assert!(matches!(err, ToolError::NotFound(_)));
}

#[test]
fn state_machine_rejects_skip_and_backtrack() {
    let mut store = InMemoryTaskStore::new();
    let task = store.create("t".to_string()).unwrap();
    let err = store
        .update(
            task.id.clone(),
            TaskPatch {
                status: Some(TaskStatus::Completed),
                summary: Some("done".to_string()),
                ..Default::default()
            },
        )
        .unwrap_err();
    assert!(matches!(err, ToolError::InvalidStateTransition(_)));
    store.update(task.id.clone(), to(TaskStatus::InProgress)).unwrap();
    let err = store.update(task.id.clone(), to(TaskStatus::Pending)).unwrap_err();
    assert!(matches!(err, ToolError::InvalidStateTransition(_)));
}

#[test]
fn terminal_status_requires_summary() {
    let mut store = InMemoryTaskStore::new();
    let task = store.create("t".to_string()).unwrap();
    store.update(task.id.clone(), to(TaskStatus::InProgress)).unwrap();
    let err = store.update(task.id.clone(), to(TaskStatus::Completed)).unwrap_err();
    assert!(matches!(err, ToolError::InvalidInput(_)));
    let updated = store
        .update(
            task.id.clone(),
            TaskPatch {
                status: Some(TaskStatus::Completed),
                summary: Some("finished".to_string()),
                ..Default::default()
            },
        )
        .unwrap();
    assert_eq!(updated.status, TaskStatus::Completed);
    assert_eq!(updated.summary.as_deref(), Some("finished"));
}

#[test]
fn add_blocks_is_idempotent() {
    let mut store = InMemoryTaskStore::new();
    let a = store.create("a".to_string()).unwrap();
    let b = store.create("b".to_string()).unwrap();
    store.update(b.id.clone(), waiting_for(&[&a.id])).unwrap();
    let updated = store.update(b.id.clone(), waiting_for(&[&a.id])).unwrap();
    assert_eq!(updated.blocked_by, vec![a.id.clone()]);
    assert_eq!(updated.blocked_by.len(), 1);
}

#[test]
fn cycle_detected_on_circular_dependency() {
    let mut store = InMemoryTaskStore::new();
    let a = store.create("a".to_string()).unwrap();
    let b = store.create("b".to_string()).unwrap();
    store.update(b.id.clone(), waiting_for(&[&a.id])).unwrap();
    let err = store.update(a.id.clone(), waiting_for(&[&b.id])).unwrap_err();
    assert!(matches!(err, ToolError::InvalidInput(_)));
    let a_now = store.list(None).into_iter().find(|t| t.id == a.id).unwrap();
    assert!(a_now.blocked_by.is_empty());
}

#[test]
fn self_reference_is_cycle() {
    let mut store = InMemoryTaskStore::new();
    let a = store.create("a".to_string()).unwrap();
    let err = store.update(a.id.clone(), waiting_for(&[&a.id])).unwrap_err();
    assert!(matches!(err, ToolError::InvalidInput(_)));
}

#[test]
fn list_filters_by_status() {
    let mut store = InMemoryTaskStore::new();
    let a = store.create("a".to_string()).unwrap();
    let b = store.create("b".to_string()).unwrap();
    store.update(b.id.clone(), to(TaskStatus::InProgress)).unwrap();
    let pending = store.list(Some(TaskStatus::Pending));
    assert_eq!(pending.len(), 1);
    assert_eq!(pending[0].id, a.id);
    let in_progress = store.list(Some(TaskStatus::InProgress));
    assert_eq!(in_progress.len(), 1);
    assert_eq!(in_progress[0].id, b.id);
    assert_eq!(store.list(None).len(), 2);
}

fn linked(id: &str, blocks: &[&str], blocked_by: &[&str]) -> Task {
    let mut t = Task::new(id.to_string(), "c".to_string(), 0);
    t.blocks = blocks.iter().map(|s| s.to_string()).collect();
    t.blocked_by = blocked_by.iter().map(|s| s.to_string()).collect();
    t
}

#[test]
fn cycles_are_found_across_both_kinds_of_links() {
    assert!(!has_cycle(&vec![]));
    assert!(!has_cycle(&vec![linked("a", &["b"], &[]), linked("b", &["c"], &["a"]), linked("c", &[], &[])]));
    assert!(has_cycle(&vec![linked("a", &["b"], &[]), linked("b", &["c"], &[]), linked("c", &["a"], &[])]));
    assert!(has_cycle(&vec![linked("a", &["b"], &["b"]), linked("b", &[], &[])]));
    assert!(!has_cycle(&vec![linked("a", &["ghost"], &["ghost"])]));
}

#[test]
fn lists_are_merged_without_repetition() {
    let base = vec!["a".to_string(), "b".to_string()];
    let extra = vec!["b".to_string(), "c".to_string(), "c".to_string()];
    assert_eq!(dedup_extend(&base, Some(&extra)), vec!["a", "b", "c"]);
    assert_eq!(dedup_extend(&base, None), base);
}

#[test]
fn updates_and_creations_carry_their_time() {
    let mut store = InMemoryTaskStore::new();
    let t = store.create_with_id("c".to_string(), "id".to_string(), 7).unwrap();
    assert_eq!((t.created_at, t.updated_at), (7, 7));
    let t = store.update_at("id".to_string(), to(TaskStatus::InProgress), 9).unwrap();
    assert_eq!((t.created_at, t.updated_at), (7, 9));
}

#[test]
fn create_valid_input_returns_task_id_and_pending() {
    let mut store = InMemoryTaskStore::new();
    let created = TaskCreate::new().execute(&mut store, "做某事".to_string()).expect("execute ok");
    assert_eq!(created.task_id.len(), 26);
    assert_eq!(created.status.as_str(), "pending");
}

#[test]
fn create_empty_content_rejected_by_store() {
    let mut store = InMemoryTaskStore::new();
    let err = TaskCreate::new().execute(&mut store, "   ".to_string()).unwrap_err();
    assert!(matches!(err, ToolError::InvalidInput(_)));
}

#[test]
fn create_side_effect_is_none() {
    assert_eq!(TaskCreate::new().side_effect(), SideEffect::Nothing);
}

#[test]
fn create_schema_name_is_task_create() {
    assert_eq!(TaskCreate::new().name(), "task.create");
}

#[test]
fn create_render_output_defaults_to_json() {
    let created = Created { task_id: "x".to_string(), status: TaskStatus::Pending };
    match TaskCreate::new().render_output(&created) {
        RenderIntent::Json => {}
        other => panic!("expected Json, got {other:?}"),
    }
}

#[test]
fn update_valid_transition_returns_updated_task() {
    let mut store = InMemoryTaskStore::new();
    let task = store.create("do thing".to_string()).expect("create");
    let updated = TaskUpdate::new()
        .execute(&mut store, task.id.clone(), to(TaskStatus::InProgress))
        .expect("execute ok");
    assert_eq!(updated.id, task.id);
    assert_eq!(updated.status.as_str(), "inprogress");
    assert!(matches!(TaskUpdate::new().render_output(&updated), RenderIntent::Json));
}

#[test]
fn update_nonexistent_task_returns_not_found() {
    let mut store = InMemoryTaskStore::new();
    let err = TaskUpdate::new()
        .execute(&mut store, "nonexistent".to_string(), to(TaskStatus::InProgress))
        .unwrap_err();
    assert!(matches!(err, ToolError::NotFound(_)));
}

#[test]
fn update_invalid_transition_returns_error() {
    let mut store = InMemoryTaskStore::new();
    let task = store.create("do thing".to_string()).expect("create");
    let patch = TaskPatch {
        status: Some(TaskStatus::Completed),
        summary: Some("done".to_string()),
        ..Default::default()
    };
    let err = TaskUpdate::new().execute(&mut store, task.id, patch).unwrap_err();
    assert!(matches!(err, ToolError::InvalidStateTransition(_)));
}

#[test]
fn update_terminal_status_requires_summary() {
    let mut store = InMemoryTaskStore::new();
    let task = store.create("do thing".to_string()).expect("create");
    store.update(task.id.clone(), to(TaskStatus::InProgress)).expect("transition to inprogress");
    let err =
        TaskUpdate::new().execute(&mut store, task.id, to(TaskStatus::Completed)).unwrap_err();
    assert!(matches!(err, ToolError::InvalidInput(_)));
}

#[test]
fn update_side_effect_is_none() {
    assert_eq!(TaskUpdate::new().side_effect(), SideEffect::Nothing);
}

#[test]
fn update_schema_name_is_task_update() {
    assert_eq!(TaskUpdate::new().name(), "task.update");
}

#[test]
fn list_empty_store_returns_empty() {
    let store = InMemoryTaskStore::new();
    assert!(TaskList::new().execute(&store, None).is_empty());
}

#[test]
fn list_returns_all_tasks() {
    let mut store = InMemoryTaskStore::new();
    store.create("task a".to_string()).expect("create a");
    store.create("task b".to_string()).expect("create b");
    assert_eq!(TaskList::new().execute(&store, None).len(), 2);
}

#[test]
fn list_list_side_effect_is_none() {
    assert_eq!(TaskList::new().side_effect(), SideEffect::Nothing);
    assert_eq!(FsList::new().side_effect(), SideEffect::Nothing);
    assert!(FsList::new().side_effect().is_read_only());
}

#[test]
fn list_schema_name_is_task_list() {
    assert_eq!(TaskList::new().name(), "task.list");
}

#[test]
fn render_output_projects_tasks_to_table() {
    let mut store = InMemoryTaskStore::new();
    store.create("task a".to_string()).unwrap();
    let b = store.create("task b".to_string()).unwrap();
    store.update(b.id, to(TaskStatus::InProgress)).unwrap();
    let tool = TaskList::new();
    let tasks = tool.execute(&store, None);
    match tool.render_output(&tasks) {
        RenderIntent::Table { headers, rows } => {
            assert_eq!(headers, vec!["id", "status", "content"]);
            assert_eq!(rows.len(), 2);
            assert_eq!(rows[0][1], "pending");
            assert_eq!(rows[1][1], "inprogress");
        }
        other => panic!("expected Table, got {other:?}"),
    }
}

#[test]
fn render_output_empty_tasks_falls_back_to_json() {
    match TaskList::new().render_output(&vec![]) {
        RenderIntent::Json => {}
        other => panic!("expected Json fallback, got {other:?}"),
    }
}

fn limits() -> RoundLimits {
    RoundLimits { quick: 10, medium: 20, very_thorough: 40 }
}

fn spec_of(ty: SubagentType) -> SubagentSpec {
    SubagentSpec {
        ty,
        thoroughness: Thoroughness::Medium,
        model: None,
        max_iters: 20,
        isolation: Isolation::Shared,
        workdir: None,
        can_spawn_subagent: false,
    }
}

fn chosen(ty: SpawnType, name: Option<&str>, mode: PermissionMode) -> Result<SubagentType, ToolError> {
    TaskSpawn::new().choose_type(ty, name.map(String::from), mode)
}

#[test]
fn spawn_explore_calls_runner_and_returns_summary() {
    let tool = TaskSpawn::new();
    assert!(tool.refusal().is_none());
    assert_eq!(chosen(SpawnType::Explore, None, PermissionMode::Default).unwrap(), SubagentType::Explore);
    let result = SubagentResult::completed("found foo in src/lib.rs:42".to_string(), 42);
    let report = tool.finish(Ok(result), 1024).unwrap();
    assert_eq!(report.summary, "found foo in src/lib.rs:42");
    assert_eq!(report.token_used, 42);
    assert!(report.completed);
    assert!(!report.summary_truncated);
}

#[test]
fn spawn_plan_outside_plan_mode_degrades_to_explore() {
    assert_eq!(chosen(SpawnType::Plan, None, PermissionMode::Default).unwrap(), SubagentType::Explore);
    assert_eq!(chosen(SpawnType::Plan, None, PermissionMode::AcceptEdits).unwrap(), SubagentType::Explore);
}

#[test]
fn spawn_plan_in_plan_mode_stays_plan() {
    assert_eq!(chosen(SpawnType::Plan, None, PermissionMode::Plan).unwrap(), SubagentType::Plan);
}

#[test]
fn spawn_custom_without_name_returns_invalid_input() {
    let err = chosen(SpawnType::Custom, None, PermissionMode::Default).unwrap_err();
    assert!(matches!(err, ToolError::InvalidInput(_)));
    let err = chosen(SpawnType::Custom, Some("  "), PermissionMode::Default).unwrap_err();
    assert!(matches!(err, ToolError::InvalidInput(_)));
}

#[test]
fn spawn_custom_with_name_passes_through() {
    let ty = chosen(SpawnType::Custom, Some("critic"), PermissionMode::Default).unwrap();
    assert_eq!(ty, SubagentType::Custom("critic".to_string()));
}

#[test]
fn spawn_thoroughness_overrides_max_iters_for_explore() {
    let tool = TaskSpawn::new();
    let spec = tool
        .configure(spec_of(SubagentType::Explore), limits(), Some(Thoroughness::VeryThorough), None, None)
        .unwrap();
    assert_eq!(spec.thoroughness, Thoroughness::VeryThorough);
    assert_eq!(spec.max_iters, limits().default_max_iters(Thoroughness::VeryThorough));
    let spec = tool
        .configure(spec_of(SubagentType::GeneralPurpose), limits(), Some(Thoroughness::Quick), None, None)
        .unwrap();
    assert_eq!(spec.max_iters, 20);
}

#[test]
fn spawn_max_iters_override_works() {
    let spec = TaskSpawn::new()
        .configure(spec_of(SubagentType::Explore), limits(), None, Some("m".to_string()), Some(5))
        .unwrap();
    assert_eq!(spec.max_iters, 5);
    assert_eq!(spec.model.as_deref(), Some("m"));
}

#[test]
fn spawn_max_iters_zero_rejected() {
    let err = TaskSpawn::new()
        .configure(spec_of(SubagentType::Explore), limits(), None, None, Some(0))
        .unwrap_err();
    assert!(matches!(err, ToolError::InvalidInput(_)));
}

#[test]
fn spawn_runner_error_propagates_as_exec_error() {
    let err = TaskSpawn::new().finish(Err("no runner".to_string()), 1024).unwrap_err();
    match err {
        ToolError::Exec(m) => assert_eq!(m, "subagent spawn failed: no runner"),
        other => panic!("expected Exec, got {other:?}"),
    }
}

#[test]
fn spawn_denied_when_can_spawn_false_deep_defense() {
    let tool = TaskSpawn::new().with_can_spawn_subagent(false);
    let result = tool.refusal().expect("refused");
    assert!(result.is_error);
    assert!(result.content.contains("can_spawn_subagent"));
}

#[test]
fn spawn_default_type_is_explore() {
    assert_eq!(SpawnType::default(), SpawnType::Explore);
}

#[test]
fn task_spawn_is_read_only_and_no_side_effect() {
    let tool = TaskSpawn::new();
    assert_eq!(tool.name(), "task.spawn");
    assert_eq!(tool.side_effect(), SideEffect::Nothing);
    assert!(tool.is_read_only());
}

#[test]
fn spawn_render_output_defaults_to_json() {
    let report = SpawnReport {
        summary: "done".to_string(),
        artifacts: vec![],
        token_used: 10,
        completed: true,
        summary_truncated: false,
    };
    match TaskSpawn::new().render_output(&report) {
        RenderIntent::Json => {}
        other => panic!("expected Json, got {other:?}"),
    }
}

#[test]
fn long_summaries_are_cut() {
    let result = SubagentResult::completed("s".repeat(200), 1);
    let report = TaskSpawn::new().finish(Ok(result), 60).unwrap();
    assert!(report.summary_truncated);
    assert_eq!(report.summary.len(), 60);
}

#[test]
fn isolation_default_is_shared() {
    assert_eq!(Isolation::default(), Isolation::Shared);
}

#[test]
fn worktree_spec_default() {
    let spec = WorktreeSpec::new();
    assert_eq!(spec.branch_prefix, "subagent/");
    assert!(spec.auto_cleanup);
    assert_eq!(spec.merge_back, MergeStrategy::Nothing);
}

fn isolated(auto_cleanup: bool, merge_back: MergeStrategy) -> SubagentSpec {
    let mut spec = spec_of(SubagentType::GeneralPurpose);
    let mut tree = WorktreeSpec::new();
    tree.auto_cleanup = auto_cleanup;
    tree.merge_back = merge_back;
    spec.isolation = Isolation::Worktree(tree);
    spec
}

fn git_ok() -> WorktreeEvent {
    WorktreeEvent::GitEnded { success: true, stderr: String::new() }
}

fn git_failed(stderr: &str) -> WorktreeEvent {
    WorktreeEvent::GitEnded { success: false, stderr: stderr.to_string() }
}

fn git_args(action: WorktreeAction) -> Vec<String> {
    match action {
        WorktreeAction::Git(args) => args,
        other => panic!("expected Git, got {other:?}"),
    }
}

/// A run up to the moment at which the agent is at work in its tree.
fn at_work(spec: SubagentSpec) -> WorktreeRun {
    let (mut run, first) = WorktreeRun::start(spec, "/r".to_string());
    assert!(matches!(first, WorktreeAction::CheckRepo));
    match run.step_with_id(WorktreeEvent::Repo(true), "ID") {
        WorktreeAction::MakeParentOf(p) => {
            assert_eq!(p, "/r/.minicoding/worktrees/subagent/ID");
        }
        other => panic!("expected MakeParentOf, got {other:?}"),
    }
    let args = git_args(run.step_with_id(WorktreeEvent::ParentMade(true), "X"));
    assert_eq!(
        args,
        vec!["worktree", "add", "-b", "subagent/ID", "/r/.minicoding/worktrees/subagent/ID"]
    );
    assert!(matches!(run.step_with_id(git_ok(), "X"), WorktreeAction::Delegate));
    run
}

fn done(summary: &str) -> WorktreeEvent {
    WorktreeEvent::Finished(Ok(SubagentResult::completed(summary.to_string(), 1)))
}

fn summary_of(run: &WorktreeRun) -> String {
    match &run.result {
        Some(Ok(r)) => r.summary.clone(),
        other => panic!("expected a result, got {other:?}"),
    }
}

#[test]
fn new_runner_holds_workdir_and_inner() {
    let (mut run, first) =
        WorktreeRun::start(spec_of(SubagentType::GeneralPurpose), "/plain".to_string());
    assert_eq!(run.workdir, "/plain");
    assert!(matches!(first, WorktreeAction::Delegate));
    assert!(matches!(run.step(done("ok")), WorktreeAction::Return));
    assert_eq!(summary_of(&run), "ok");
}

#[test]
fn worktree_runner_degrades_for_non_git_dir() {
    let (mut run, _) =
        WorktreeRun::start(isolated(true, MergeStrategy::Nothing), "/plain".to_string());
    assert!(matches!(run.step(WorktreeEvent::Repo(false)), WorktreeAction::Delegate));
    assert_eq!(run.spec.isolation, Isolation::Shared);
    assert_eq!(run.spec.workdir, None);
}

#[test]
fn spawn_with_shared_isolation_delegates_directly() {
    let (mut run, first) =
        WorktreeRun::start(spec_of(SubagentType::GeneralPurpose), "/r".to_string());
    assert!(matches!(first, WorktreeAction::Delegate));
    run.step(done("ok"));
    assert_eq!(run.stage, Stage::Done);
    assert_eq!(summary_of(&run), "ok");
}

#[test]
fn spawn_with_worktree_in_git_repo_full_flow_no_merge() {
    let mut run = at_work(isolated(true, MergeStrategy::Nothing));
    let args = git_args(run.step(done("ok")));
    assert_eq!(args, vec!["worktree", "remove", "--force", "/r/.minicoding/worktrees/subagent/ID"]);
    assert_eq!(git_args(run.step(git_ok())), vec!["branch", "-D", "subagent/ID"]);
    assert!(matches!(run.step(git_ok()), WorktreeAction::Return));
    assert_eq!(summary_of(&run), "ok");
}

#[test]
fn spawn_with_worktree_no_auto_cleanup_keeps_worktree() {
    let mut run = at_work(isolated(false, MergeStrategy::Nothing));
    assert!(matches!(run.step(done("ok")), WorktreeAction::Return));
}

#[test]
fn spawn_with_worktree_cherrypick_merge_succeeds() {
    let mut run = at_work(isolated(false, MergeStrategy::CherryPick));
    assert_eq!(git_args(run.step(done("ok"))), vec!["cherry-pick", "subagent/ID"]);
    assert!(matches!(run.step(git_ok()), WorktreeAction::Return));
    assert_eq!(run.merge_error, None);
    assert_eq!(summary_of(&run), "ok");
}

#[test]
fn spawn_with_worktree_merge_commit_succeeds() {
    let mut run = at_work(isolated(false, MergeStrategy::MergeCommit));
    assert_eq!(
        git_args(run.step(done("ok"))),
        vec!["merge", "--no-ff", "subagent/ID", "-m", "merge subagent branch subagent/ID"]
    );
    assert!(matches!(run.step(git_ok()), WorktreeAction::Return));
    assert_eq!(summary_of(&run), "ok");
}

#[test]
fn merge_back_none_is_noop() {
    assert!(merge_command(MergeStrategy::Nothing, "b").is_empty());
}

#[test]
fn merge_back_cherrypick_nonexistent_branch_fails() {
    let mut run = at_work(isolated(false, MergeStrategy::CherryPick));
    run.step(done("ok"));
    assert_eq!(git_args(run.step(git_failed("bad revision"))), vec!["cherry-pick", "--abort"]);
    assert_eq!(run.merge_error.as_deref(), Some("cherry-pick 失败（已 abort）: bad revision"));
}

#[test]
fn merge_back_merge_commit_nonexistent_branch_fails() {
    let mut run = at_work(isolated(false, MergeStrategy::MergeCommit));
    run.step(done("ok"));
    assert_eq!(git_args(run.step(git_failed("not something we can merge"))), abort_command(MergeStrategy::MergeCommit));
    assert_eq!(
        run.merge_error.as_deref(),
        Some("merge 失败（已 abort）: not something we can merge")
    );
}

#[test]
fn create_worktree_failure_due_to_existing_branch() {
    let (mut run, _) = WorktreeRun::start(isolated(true, MergeStrategy::Nothing), "/r".to_string());
    run.step(WorktreeEvent::Repo(true));
    run.step(WorktreeEvent::ParentMade(true));
    assert!(matches!(run.step(git_failed("already exists")), WorktreeAction::Delegate));
    assert_eq!(run.spec.isolation, Isolation::Shared);
    assert_eq!(run.spec.workdir, None);
}

#[test]
fn spawn_propagates_inner_error() {
    let (mut run, _) = WorktreeRun::start(spec_of(SubagentType::GeneralPurpose), "/r".to_string());
    run.step(WorktreeEvent::Finished(Err("not configured".to_string())));
    match run.result {
        Some(Err(m)) => assert!(m.contains("not configured")),
        other => panic!("expected an error, got {other:?}"),
    }
}

#[test]
fn spawn_with_worktree_passes_worktree_path_as_spec_workdir() {
    let run = at_work(isolated(false, MergeStrategy::Nothing));
    assert_eq!(run.spec.workdir.as_deref(), Some("/r/.minicoding/worktrees/subagent/ID"));
}

#[test]
fn merge_failure_is_surfaced_in_summary() {
    let mut run = at_work(isolated(true, MergeStrategy::CherryPick));
    run.step(done("ok"));
    run.step(git_failed("conflict"));
    git_args(run.step(git_ok()));
    git_args(run.step(git_ok()));
    assert!(matches!(run.step(git_ok()), WorktreeAction::Return));
    assert_eq!(
        summary_of(&run),
        "[警告] worktree 分支 subagent/ID 的改动合并回主分支失败（cherry-pick 失败（已 abort）: conflict），以下结论基于 worktree 内的执行状态。\nok"
    );
}

#[test]
fn fresh_branches_have_fresh_names() {
    let (mut a, _) = WorktreeRun::start(isolated(true, MergeStrategy::Nothing), "/r".to_string());
    let (mut b, _) = WorktreeRun::start(isolated(true, MergeStrategy::Nothing), "/r".to_string());
    a.step(WorktreeEvent::Repo(true));
    b.step(WorktreeEvent::Repo(true));
    assert_eq!(a.branch.len(), "subagent/".len() + 26);
    assert_ne!(a.branch, b.branch);
    assert!(matches!(a.step(done("early")), WorktreeAction::Wait));
}

#[test]
fn an_update_leaves_other_tasks_alone() {
    let mut store = InMemoryTaskStore::new();
    store.create_with_id("a".to_string(), "1".to_string(), 1).unwrap();
    store.create_with_id("b".to_string(), "2".to_string(), 2).unwrap();
    store.update_at("2".to_string(), to(TaskStatus::InProgress), 5).unwrap();
    let tasks = store.list(None);
    assert_eq!((tasks[0].status, tasks[0].updated_at), (TaskStatus::Pending, 1));
    assert_eq!((tasks[1].status, tasks[1].updated_at), (TaskStatus::InProgress, 5));
}
