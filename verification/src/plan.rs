//! Plan mode: leaving it, and what was approved on the way out.

use vstd::prelude::*;
use vstd::string::*;
use crate::text::split::views;
use crate::tool::{RenderIntent, SideEffect, ToolError, ToolErrorView};

verus! {

/// What the assistant may do without asking.
#[derive(Debug, Clone, Copy, PartialEq, Eq, Structural)]
pub enum PermissionMode {
    Default,
    AcceptEdits,
    /// Only read, and plan.
    Plan,
}

impl PermissionMode {
    /// The name of a mode.
    pub open spec fn label(self) -> Seq<char> {
        match self {
            PermissionMode::Default => "Default"@,
            PermissionMode::AcceptEdits => "AcceptEdits"@,
            PermissionMode::Plan => "Plan"@,
        }
    }

    /// The name of a mode in lower case.
    pub open spec fn lower_label(self) -> Seq<char> {
        match self {
            PermissionMode::Default => "default"@,
            PermissionMode::AcceptEdits => "acceptedits"@,
            PermissionMode::Plan => "plan"@,
        }
    }

    /// The name of the mode.
    pub fn name(&self) -> (r: &'static str)
        ensures
            r@ == self.label(),
    {
        match self {
            PermissionMode::Default => "Default",
            PermissionMode::AcceptEdits => "AcceptEdits",
            PermissionMode::Plan => "Plan",
        }
    }

    /// The name of the mode in lower case.
    pub fn lower_name(&self) -> (r: &'static str)
        ensures
            r@ == self.lower_label(),
    {
        match self {
            PermissionMode::Default => "default",
            PermissionMode::AcceptEdits => "acceptedits",
            PermissionMode::Plan => "plan",
        }
    }
}

/// A command approved in advance.
#[derive(Debug)]
pub struct PreApprovedPrompt {
    pub tool: String,
    pub prompt: String,
}

/// The mode and what was approved in advance.
#[derive(Debug)]
pub struct PlanState {
    pub mode: PermissionMode,
    pub allowed_prompts: Vec<PreApprovedPrompt>,
}

impl PlanState {
    /// The default mode with nothing approved.
    pub fn new() -> (r: PlanState)
        ensures
            r.mode == PermissionMode::Default,
            r.allowed_prompts@.len() == 0,
    {
        PlanState { mode: PermissionMode::Default, allowed_prompts: Vec::new() }
    }

    /// Sets the mode; what was approved stays.
    pub fn set_mode(&mut self, mode: PermissionMode)
        ensures
            final(self).mode == mode,
            final(self).allowed_prompts@ == old(self).allowed_prompts@,
    {
        self.mode = mode;
    }
}

/// The mode that follows plan mode.
#[derive(Debug, Clone, Copy, PartialEq, Eq, Structural)]
pub enum TargetMode {
    Default,
    AcceptEdits,
}

impl TargetMode {
    /// The mode it stands for.
    pub open spec fn mode(self) -> PermissionMode {
        match self {
            TargetMode::Default => PermissionMode::Default,
            TargetMode::AcceptEdits => PermissionMode::AcceptEdits,
        }
    }

    /// Its name.
    pub open spec fn label(self) -> Seq<char> {
        match self {
            TargetMode::Default => "default"@,
            TargetMode::AcceptEdits => "accept_edits"@,
        }
    }

    pub fn to_permission_mode(self) -> (r: PermissionMode)
        ensures
            r == self.mode(),
    {
        match self {
            TargetMode::Default => PermissionMode::Default,
            TargetMode::AcceptEdits => PermissionMode::AcceptEdits,
        }
    }

    pub fn name(self) -> (r: &'static str)
        ensures
            r@ == self.label(),
    {
        match self {
            TargetMode::Default => "default",
            TargetMode::AcceptEdits => "accept_edits",
        }
    }
}

impl Default for TargetMode {
    fn default() -> (r: TargetMode)
        ensures
            r == TargetMode::Default,
    {
        TargetMode::Default
    }
}

/// What the caller of `plan.exit` is told.
#[derive(Debug)]
pub struct PlanExited {
    pub status: &'static str,
    pub plan_path: String,
    pub target_mode: &'static str,
    pub allowed_prompts_count: usize,
    pub plan_was_edited: bool,
    pub hint: &'static str,
}

/// Why plan mode cannot be left in a mode: it was not entered.
pub open spec fn exit_refusal(mode: PermissionMode) -> Option<ToolErrorView> {
    if mode == PermissionMode::Plan {
        None
    } else {
        Some(
            ToolErrorView::InvalidStateTransition(
                "plan.exit 仅在 Plan 模式下可调用（当前："@ + mode.label() + "）"@,
            ),
        )
    }
}

/// The `plan.exit` tool.
#[derive(Debug, Clone, Copy, Default)]
pub struct PlanExit {}

impl PlanExit {
    pub fn new() -> Self {
        PlanExit {  }
    }

    pub fn name(&self) -> (r: &'static str)
        ensures
            r@ == "plan.exit"@,
    {
        "plan.exit"
    }

    pub fn side_effect(&self) -> (r: SideEffect)
        ensures
            r == SideEffect::Nothing,
    {
        SideEffect::Nothing
    }

    /// It may be called in plan mode.
    pub fn is_read_only(&self) -> (r: bool)
        ensures
            r,
    {
        true
    }

    /// Leaves plan mode for the target mode, with the given commands
    /// approved. Outside plan mode nothing changes.
    pub fn execute(
        &self,
        state: &mut PlanState,
        plan_path: String,
        allowed_prompts: Vec<PreApprovedPrompt>,
        target_mode: TargetMode,
        plan_was_edited: bool,
    ) -> (r: Result<PlanExited, ToolError>)
        ensures
            exit_refusal(old(state).mode) matches Some(e) ==> r is Err && r->Err_0@ == e
                && *final(state) == *old(state),
            exit_refusal(old(state).mode) is None ==> {
                &&& r is Ok
                &&& r->Ok_0.status@ == "plan_exited"@
                &&& r->Ok_0.plan_path@ == plan_path@
                &&& r->Ok_0.target_mode@ == target_mode.label()
                &&& r->Ok_0.allowed_prompts_count == allowed_prompts@.len()
                &&& r->Ok_0.plan_was_edited == plan_was_edited
                &&& r->Ok_0.hint@
                    == "已切换到执行期，用户可在新模式下继续对话。预批准命令将自动 Allow。"@
                &&& final(state).mode == target_mode.mode()
                &&& final(state).allowed_prompts@ == allowed_prompts@
            },
    {
        match state.mode {
            PermissionMode::Plan => {},
            _ => {
                let mut s = "plan.exit 仅在 Plan 模式下可调用（当前：".to_owned();
                s.append(state.mode.name());
                s.append("）");
                return Err(ToolError::InvalidStateTransition(s));
            },
        }
        let count: usize = allowed_prompts.len();
        state.mode = target_mode.to_permission_mode();
        state.allowed_prompts = allowed_prompts;
        Ok(
            PlanExited {
                status: "plan_exited",
                plan_path,
                target_mode: target_mode.name(),
                allowed_prompts_count: count,
                plan_was_edited,
                hint: "已切换到执行期，用户可在新模式下继续对话。预批准命令将自动 Allow。",
            },
        )
    }
}

/// The rows of a table of approved commands.
pub open spec fn prompt_rows(prompts: Seq<PreApprovedPrompt>) -> Seq<Seq<Seq<char>>> {
    Seq::new(prompts.len(), |i: int| seq![prompts[i].tool@, prompts[i].prompt@])
}

/// The texts of a table.
pub open spec fn table_views(rows: Seq<Vec<String>>) -> Seq<Seq<Seq<char>>> {
    Seq::new(rows.len(), |i: int| views(rows[i]@))
}

/// The `plan.list` tool.
#[derive(Debug, Clone, Copy, Default)]
pub struct PlanList {}

impl PlanList {
    pub fn new() -> Self {
        PlanList {  }
    }

    pub fn name(&self) -> (r: &'static str)
        ensures
            r@ == "plan.list"@,
    {
        "plan.list"
    }

    pub fn side_effect(&self) -> (r: SideEffect)
        ensures
            r == SideEffect::Nothing,
    {
        SideEffect::Nothing
    }

    /// It may be called in plan mode.
    pub fn is_read_only(&self) -> (r: bool)
        ensures
            r,
    {
        true
    }

    /// The mode, by its name, and the approved commands.
    pub fn execute<'a>(&self, state: &'a PlanState) -> (r: (&'static str, &'a Vec<PreApprovedPrompt>))
        ensures
            r.0@ == state.mode.lower_label(),
            r.1@ == state.allowed_prompts@,
    {
        (state.mode.lower_name(), &state.allowed_prompts)
    }

    /// Approved commands are shown as a table, none as structured data.
    pub fn render_output(&self, prompts: &Vec<PreApprovedPrompt>) -> (r: RenderIntent)
        ensures
            if prompts@.len() == 0 {
                r is Json
            } else {
                r matches RenderIntent::Table { headers, rows } && views(
                    headers@,
                ) == seq!["tool"@, "prompt"@] && table_views(rows@) == prompt_rows(prompts@)
            },
    {
        if prompts.len() == 0 {
            return RenderIntent::Json;
        }
        let mut headers: Vec<String> = Vec::new();
        headers.push("tool".to_owned());
        headers.push("prompt".to_owned());
        assert(views(headers@) == seq!["tool"@, "prompt"@]);
        let mut rows: Vec<Vec<String>> = Vec::new();
        let mut i: usize = 0;
        while i < prompts.len()
            invariant
                i <= prompts@.len(),
                rows@.len() == i,
                forall|j: int|
                    0 <= j < i ==> views((#[trigger] rows@[j])@) == seq![
                        prompts@[j].tool@,
                        prompts@[j].prompt@,
                    ],
            decreases prompts@.len() - i,
        {
            let mut row: Vec<String> = Vec::new();
            row.push(prompts[i].tool.clone());
            row.push(prompts[i].prompt.clone());
            assert(views(row@) == seq![
                prompts@[i as int].tool@,
                prompts@[i as int].prompt@,
            ]);
            rows.push(row);
            i = i + 1;
        }
        assert(table_views(rows@) == prompt_rows(prompts@));
        RenderIntent::Table { headers, rows }
    }
}

/// Plan mode is left once: whatever mode an exit leads to, the next exit is
/// refused there.
pub proof fn plan_is_left_once(target: TargetMode)
    ensures
        exit_refusal(target.mode()) is Some,
{
}

/// Plan mode is left for the mode that was asked for, with exactly the given
/// commands approved; outside plan mode nothing changes.
pub proof fn leaving_plan_mode_sets_the_mode(
    tool: &PlanExit,
    state: &mut PlanState,
    plan_path: String,
    prompts: Vec<PreApprovedPrompt>,
    target: TargetMode,
    edited: bool,
    r: Result<PlanExited, ToolError>,
)
    requires
        call_ensures(PlanExit::execute, (tool, state, plan_path, prompts, target, edited), r),
    ensures
        r is Ok == (old(state).mode is Plan),
        r is Err ==> *final(state) == *old(state) && r->Err_0 is InvalidStateTransition,
        r is Ok ==> {
            &&& final(state).mode is Default == target is Default
            &&& final(state).mode is AcceptEdits == target is AcceptEdits
            &&& final(state).allowed_prompts@ == prompts@
            &&& r->Ok_0.plan_path@ == plan_path@
            &&& r->Ok_0.allowed_prompts_count == prompts@.len()
            &&& r->Ok_0.plan_was_edited == edited
        },
{
}

/// What is listed is the mode and the commands that leaving plan mode left
/// behind, each in a row of its own with its tool first.
pub proof fn approved_commands_are_listed(
    tool: &PlanList,
    prompts: &Vec<PreApprovedPrompt>,
    r: RenderIntent,
)
    requires
        call_ensures(PlanList::render_output, (tool, prompts), r),
    ensures
        r is Json == (prompts@.len() == 0),
        r matches RenderIntent::Table { headers, rows } ==> {
            &&& rows@.len() == prompts@.len()
            &&& forall|i: int|
                0 <= i < rows@.len() ==> {
                    let row = #[trigger] rows@[i]@;
                    &&& row.len() == 2
                    &&& row[0]@ == prompts@[i].tool@
                    &&& row[1]@ == prompts@[i].prompt@
                }
        },
{
    if let RenderIntent::Table { headers, rows } = r {
        let v = table_views(rows@);
        assert(v.len() == rows@.len());
        assert forall|i: int| 0 <= i < rows@.len() implies {
            let row = #[trigger] rows@[i]@;
            &&& row.len() == 2
            &&& row[0]@ == prompts@[i].tool@
            &&& row[1]@ == prompts@[i].prompt@
        } by {
            let row = rows@[i]@;
            assert(v[i] == views(row));
            assert(v[i] == seq![prompts@[i].tool@, prompts@[i].prompt@]);
            assert(views(row)[0] == row[0]@ && views(row)[1] == row[1]@);
        }
    }
}

} // verus!
