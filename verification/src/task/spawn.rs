//! Sending out an agent with a task of its own.

use vstd::prelude::*;
use vstd::string::*;
use crate::agent::{
    SpecView, SubagentResult, SubagentSpec, SubagentType, SubagentTypeView, Thoroughness,
};
use crate::plan::PermissionMode;
use crate::text::chars::{byte_len, is_space, to_chars};
use crate::text::search::{blank, is_blank};
use crate::text::split::{opt_view, views};
use crate::tool::{
    text_result, RenderIntent, SideEffect, ToolError, ToolErrorView, ToolResult,
};
use crate::util::{truncate_output, truncated};

verus! {

/// The type of agent a call asks for.
#[derive(Debug, Clone, Copy, PartialEq, Eq, Structural)]
pub enum SpawnType {
    Explore,
    Plan,
    General,
    Custom,
}

impl Default for SpawnType {
    fn default() -> (r: SpawnType)
        ensures
            r == SpawnType::Explore,
    {
        SpawnType::Explore
    }
}

/// The type of agent, or why there is none: an agent of the user's own needs
/// a name.
pub open spec fn asked_type(ty: SpawnType, name: Option<Seq<char>>) -> Result<
    SubagentTypeView,
    Seq<char>,
> {
    match ty {
        SpawnType::Explore => Ok(SubagentTypeView::Explore),
        SpawnType::Plan => Ok(SubagentTypeView::Plan),
        SpawnType::General => Ok(SubagentTypeView::GeneralPurpose),
        SpawnType::Custom => match name {
            None => Err("custom_name required for type=custom"@),
            Some(n) => if is_blank(n) {
                Err("custom_name must not be empty"@)
            } else {
                Ok(SubagentTypeView::Custom(n))
            },
        },
    }
}

/// Outside plan mode a planning agent becomes one that looks around.
pub open spec fn guarded(ty: SubagentTypeView, mode: PermissionMode) -> SubagentTypeView {
    if ty is Plan && mode != PermissionMode::Plan {
        SubagentTypeView::Explore
    } else {
        ty
    }
}

impl SpawnType {
    /// The type of agent that is asked for.
    pub fn into_subagent_type(self, custom_name: Option<String>) -> (r: Result<
        SubagentType,
        ToolError,
    >)
        ensures
            match asked_type(self, opt_view(custom_name)) {
                Ok(t) => r is Ok && r->Ok_0@ == t,
                Err(e) => r is Err && r->Err_0@ == ToolErrorView::InvalidInput(e),
            },
    {
        match self {
            SpawnType::Explore => Ok(SubagentType::Explore),
            SpawnType::Plan => Ok(SubagentType::Plan),
            SpawnType::General => Ok(SubagentType::GeneralPurpose),
            SpawnType::Custom => match custom_name {
                None => Err(
                    ToolError::InvalidInput("custom_name required for type=custom".to_owned()),
                ),
                Some(n) => {
                    let chars = to_chars(n.as_str());
                    if blank(chars.as_slice()) {
                        Err(ToolError::InvalidInput("custom_name must not be empty".to_owned()))
                    } else {
                        Ok(SubagentType::Custom(n))
                    }
                },
            },
        }
    }
}

/// How many rounds each thoroughness gives an agent that looks around.
#[derive(Debug, Clone, Copy, PartialEq, Eq, Structural)]
pub struct RoundLimits {
    pub quick: u32,
    pub medium: u32,
    pub very_thorough: u32,
}

impl RoundLimits {
    /// The rounds for one thoroughness.
    pub open spec fn limit(self, t: Thoroughness) -> u32 {
        match t {
            Thoroughness::Quick => self.quick,
            Thoroughness::Medium => self.medium,
            Thoroughness::VeryThorough => self.very_thorough,
        }
    }

    /// The rounds for one thoroughness.
    pub fn default_max_iters(&self, t: Thoroughness) -> (r: u32)
        ensures
            r == self.limit(t),
    {
        match t {
            Thoroughness::Quick => self.quick,
            Thoroughness::Medium => self.medium,
            Thoroughness::VeryThorough => self.very_thorough,
        }
    }
}

/// The defaults of a type with what a call overrides. The thoroughness of an
/// agent that looks around also sets its rounds; rounds that are asked for
/// win.
pub open spec fn overridden(
    base: SpecView,
    limits: RoundLimits,
    thoroughness: Option<Thoroughness>,
    model: Option<Seq<char>>,
    max_iters: Option<u32>,
) -> SpecView {
    SpecView {
        thoroughness: match thoroughness {
            Some(t) => t,
            None => base.thoroughness,
        },
        model: match model {
            Some(m) => Some(m),
            None => base.model,
        },
        max_iters: match (max_iters, thoroughness) {
            (Some(n), _) => n,
            (None, Some(t)) => if base.ty is Explore {
                limits.limit(t)
            } else {
                base.max_iters
            },
            (None, None) => base.max_iters,
        },
        ..base
    }
}

/// What the caller is told of an agent's work.
#[derive(Debug)]
pub struct SpawnReport {
    pub summary: String,
    pub artifacts: Vec<String>,
    pub token_used: u64,
    pub completed: bool,
    /// The summary was cut.
    pub summary_truncated: bool,
}

/// The `task.spawn` tool.
#[derive(Debug, Clone, Copy)]
pub struct TaskSpawn {
    /// Agents may be sent out from here.
    pub can_spawn: bool,
}

impl TaskSpawn {
    pub fn new() -> (r: Self)
        ensures
            r.can_spawn,
    {
        TaskSpawn { can_spawn: true }
    }

    /// Says whether agents may be sent out from here.
    pub fn with_can_spawn_subagent(self, allowed: bool) -> (r: Self)
        ensures
            r.can_spawn == allowed,
    {
        TaskSpawn { can_spawn: allowed }
    }

    pub fn name(&self) -> (r: &'static str)
        ensures
            r@ == "task.spawn"@,
    {
        "task.spawn"
    }

    pub fn side_effect(&self) -> (r: SideEffect)
        ensures
            r == SideEffect::Nothing,
    {
        SideEffect::Nothing
    }

    /// It may be called in plan mode.
    pub fn is_read_only(&self) -> (r: bool)
        ensures
            r,
    {
        true
    }

    /// What the caller is told where no agent may be sent out.
    pub fn refusal(&self) -> (r: Option<ToolResult>)
        ensures
            self.can_spawn ==> r is None,
            !self.can_spawn ==> r is Some && r->0@ == text_result(
                "task.spawn 在当前上下文中被禁用（can_spawn_subagent=false，不允许嵌套派发子 Agent）"@,
                true,
            ),
    {
        if self.can_spawn {
            None
        } else {
            Some(
                ToolResult::err_text(
                    "task.spawn 在当前上下文中被禁用（can_spawn_subagent=false，不允许嵌套派发子 Agent）".to_owned(),
                ),
            )
        }
    }

    /// The type of agent to send out in a mode.
    pub fn choose_type(
        &self,
        ty: SpawnType,
        custom_name: Option<String>,
        mode: PermissionMode,
    ) -> (r: Result<SubagentType, ToolError>)
        ensures
            match asked_type(ty, opt_view(custom_name)) {
                Ok(t) => r is Ok && r->Ok_0@ == guarded(t, mode),
                Err(e) => r is Err && r->Err_0@ == ToolErrorView::InvalidInput(e),
            },
    {
        match ty.into_subagent_type(custom_name) {
            Ok(t) => {
                let planning = match &t {
                    SubagentType::Plan => true,
                    _ => false,
                };
                if planning && mode != PermissionMode::Plan {
                    Ok(SubagentType::Explore)
                } else {
                    Ok(t)
                }
            },
            Err(e) => Err(e),
        }
    }

    /// Sets what the call overrides in the defaults of a type. No rounds at
    /// all are refused.
    pub fn configure(
        &self,
        base: SubagentSpec,
        limits: RoundLimits,
        thoroughness: Option<Thoroughness>,
        model: Option<String>,
        max_iters: Option<u32>,
    ) -> (r: Result<SubagentSpec, ToolError>)
        ensures
            max_iters == Some(0u32) ==> r is Err && r->Err_0@ == ToolErrorView::InvalidInput(
                "max_iters must be > 0"@,
            ),
            max_iters != Some(0u32) ==> r is Ok && r->Ok_0@ == overridden(
                base@,
                limits,
                thoroughness,
                opt_view(model),
                max_iters,
            ),
    {
        let ghost want = overridden(base@, limits, thoroughness, opt_view(model), max_iters);
        let mut spec = base;
        if let Some(t) = thoroughness {
            spec.thoroughness = t;
            let exploring = match &spec.ty {
                SubagentType::Explore => true,
                _ => false,
            };
            if exploring {
                spec.max_iters = limits.default_max_iters(t);
            }
        }
        if let Some(m) = model {
            spec.model = Some(m);
        }
        if let Some(iters) = max_iters {
            if iters == 0 {
                return Err(ToolError::InvalidInput("max_iters must be > 0".to_owned()));
            }
            spec.max_iters = iters;
        }
        assert(spec@ == want);
        Ok(spec)
    }

    /// Turns an agent's result into what the caller is told: its summary, cut
    /// to the caller's limit, and what it left and used.
    pub fn finish(&self, result: Result<SubagentResult, String>, max_output_bytes: usize) -> (r:
        Result<SpawnReport, ToolError>)
        ensures
            match result {
                Err(e) => r is Err && r->Err_0@ == ToolErrorView::Exec(
                    "subagent spawn failed: "@ + e@,
                ),
                Ok(v) => {
                    &&& r is Ok
                    &&& r->Ok_0.summary@ == truncated(v.summary@, max_output_bytes as int)
                    &&& r->Ok_0.summary_truncated == (byte_len(v.summary@) > max_output_bytes)
                    &&& views(r->Ok_0.artifacts@) == views(v.artifacts@)
                    &&& r->Ok_0.token_used == v.token_used
                    &&& r->Ok_0.completed == v.completed
                },
            },
    {
        match result {
            Err(e) => {
                let mut s = "subagent spawn failed: ".to_owned();
                s.append(e.as_str());
                Err(ToolError::Exec(s))
            },
            Ok(v) => {
                let (summary, summary_truncated) = truncate_output(v.summary, max_output_bytes);
                Ok(
                    SpawnReport {
                        summary,
                        artifacts: v.artifacts,
                        token_used: v.token_used,
                        completed: v.completed,
                        summary_truncated,
                    },
                )
            },
        }
    }

    /// The result is shown as structured data.
    pub fn render_output(&self, report: &SpawnReport) -> (r: RenderIntent)
        ensures
            r is Json,
    {
        RenderIntent::Json
    }
}

/// Outside plan mode no planning agent is sent out.
pub proof fn planning_agents_belong_to_plan_mode(
    ty: SpawnType,
    name: Option<Seq<char>>,
    mode: PermissionMode,
)
    requires
        asked_type(ty, name) is Ok,
        mode != PermissionMode::Plan,
    ensures
        !(guarded(asked_type(ty, name)->Ok_0, mode) is Plan),
{
}

/// An agent is of the type that was asked for, under its name where it is one
/// of the user's own; only a planning agent outside plan mode looks around
/// instead.
pub proof fn agent_is_of_the_type_asked_for(
    tool: &TaskSpawn,
    ty: SpawnType,
    name: Option<String>,
    mode: PermissionMode,
    r: Result<SubagentType, ToolError>,
)
    requires
        call_ensures(TaskSpawn::choose_type, (tool, ty, name, mode), r),
    ensures
        ty is Explore ==> r is Ok && r->Ok_0 is Explore,
        ty is General ==> r is Ok && r->Ok_0 is GeneralPurpose,
        ty is Plan && mode is Plan ==> r is Ok && r->Ok_0 is Plan,
        ty is Plan && !(mode is Plan) ==> r is Ok && r->Ok_0 is Explore,
        ty is Custom ==> r is Ok == (name is Some && exists|i: int|
            0 <= i < name->0@.len() && !is_space(#[trigger] name->0@[i])),
        ty is Custom && r is Ok ==> r->Ok_0 is Custom && r->Ok_0->Custom_0@ == name->0@,
        r is Err ==> r->Err_0 is InvalidInput,
{
    if r is Ok {
        assert(r->Ok_0@ == r->Ok_0.view());
    }
}

/// What a call asks for wins over the defaults; rounds follow the thoroughness
/// of an agent that looks around, unless they are asked for too. Nothing else
/// changes.
pub proof fn asked_for_wins_over_defaults(
    tool: &TaskSpawn,
    base: SubagentSpec,
    limits: RoundLimits,
    thoroughness: Option<Thoroughness>,
    model: Option<String>,
    max_iters: Option<u32>,
    r: Result<SubagentSpec, ToolError>,
)
    requires
        call_ensures(
            TaskSpawn::configure,
            (tool, base, limits, thoroughness, model, max_iters),
            r,
        ),
    ensures
        r is Err == (max_iters == Some(0u32)),
        r is Ok ==> {
            let s = r->Ok_0@;
            let b = base@;
            &&& max_iters is Some ==> s.max_iters == max_iters->0
            &&& max_iters is None && thoroughness is Some && b.ty is Explore ==> {
                &&& thoroughness->0 is Quick ==> s.max_iters == limits.quick
                &&& thoroughness->0 is Medium ==> s.max_iters == limits.medium
                &&& thoroughness->0 is VeryThorough ==> s.max_iters == limits.very_thorough
            }
            &&& max_iters is None && (thoroughness is None || !(b.ty is Explore)) ==> s.max_iters
                == b.max_iters
            &&& thoroughness is Some ==> s.thoroughness == thoroughness->0
            &&& thoroughness is None ==> s.thoroughness == b.thoroughness
            &&& model is Some ==> s.model == Some(model->0@)
            &&& model is None ==> s.model == b.model
            &&& s.ty == b.ty && s.can_spawn_subagent == b.can_spawn_subagent
            &&& s.isolation == b.isolation && s.workdir == b.workdir
        },
{
}

/// An agent's work is told as it reported it, but for a summary that is cut to
/// the caller's limit.
pub proof fn report_tells_what_the_agent_did(
    tool: &TaskSpawn,
    result: SubagentResult,
    max: usize,
    cut: (String, bool),
    r: Result<SpawnReport, ToolError>,
)
    requires
        call_ensures(TaskSpawn::finish, (tool, Ok(result), max), r),
        call_ensures(truncate_output, (result.summary, max), cut),
    ensures
        r is Ok,
        r->Ok_0.summary@ == cut.0@,
        r->Ok_0.summary_truncated == cut.1,
        views(r->Ok_0.artifacts@) == views(result.artifacts@),
        r->Ok_0.token_used == result.token_used,
        r->Ok_0.completed == result.completed,
{
}

} // verus!
