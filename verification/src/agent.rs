//! Agents that are sent out with a task of their own.

use vstd::prelude::*;
use vstd::string::*;
use crate::text::split::{opt_view, views};

verus! {

/// What an agent is good for.
#[derive(Debug, Clone, PartialEq, Eq)]
pub enum SubagentType {
    /// Looks around in the code.
    Explore,
    /// Collects what a plan needs.
    Plan,
    /// Works on tasks of several steps.
    GeneralPurpose,
    /// Described by the user, under this name.
    Custom(String),
}

/// A type with its name as a sequence.
#[verifier::ext_equal]
pub enum SubagentTypeView {
    Explore,
    Plan,
    GeneralPurpose,
    Custom(Seq<char>),
}

impl View for SubagentType {
    type V = SubagentTypeView;

    open spec fn view(&self) -> SubagentTypeView {
        match self {
            SubagentType::Explore => SubagentTypeView::Explore,
            SubagentType::Plan => SubagentTypeView::Plan,
            SubagentType::GeneralPurpose => SubagentTypeView::GeneralPurpose,
            SubagentType::Custom(n) => SubagentTypeView::Custom(n@),
        }
    }
}

/// How closely an agent looks around.
#[derive(Debug, Clone, Copy, PartialEq, Eq, Structural)]
pub enum Thoroughness {
    Quick,
    Medium,
    VeryThorough,
}

/// How what an agent changed comes back.
#[derive(Debug, Clone, Copy, PartialEq, Eq, Structural)]
pub enum MergeStrategy {
    /// Not at all.
    Nothing,
    CherryPick,
    MergeCommit,
}

/// A working tree of its own for an agent.
#[derive(Debug, Clone, PartialEq, Eq)]
pub struct WorktreeSpec {
    /// What the name of its branch begins with.
    pub branch_prefix: String,
    /// Tree and branch are removed when the agent is done.
    pub auto_cleanup: bool,
    pub merge_back: MergeStrategy,
}

impl WorktreeSpec {
    /// A tree that is removed in the end, and nothing comes back from it.
    pub fn new() -> (r: WorktreeSpec)
        ensures
            r.branch_prefix@ == "subagent/"@,
            r.auto_cleanup,
            r.merge_back == MergeStrategy::Nothing,
    {
        WorktreeSpec {
            branch_prefix: "subagent/".to_owned(),
            auto_cleanup: true,
            merge_back: MergeStrategy::Nothing,
        }
    }
}

/// Where an agent works.
#[derive(Debug, Clone, PartialEq, Eq)]
pub enum Isolation {
    /// In the same directory.
    Shared,
    Worktree(WorktreeSpec),
}

impl Default for Isolation {
    fn default() -> (r: Isolation)
        ensures
            r == Isolation::Shared,
    {
        Isolation::Shared
    }
}

/// What an agent is sent out with.
#[derive(Debug, Clone)]
pub struct SubagentSpec {
    pub ty: SubagentType,
    pub thoroughness: Thoroughness,
    /// The model; that of the conversation where none is given.
    pub model: Option<String>,
    pub max_iters: u32,
    pub isolation: Isolation,
    /// The directory it works in; that of the conversation where none is
    /// given.
    pub workdir: Option<String>,
    /// It may send out agents itself.
    pub can_spawn_subagent: bool,
}

/// The isolation with its texts as sequences.
#[verifier::ext_equal]
pub enum IsolationView {
    Shared,
    Worktree { prefix: Seq<char>, auto_cleanup: bool, merge_back: MergeStrategy },
}

impl View for Isolation {
    type V = IsolationView;

    open spec fn view(&self) -> IsolationView {
        match self {
            Isolation::Shared => IsolationView::Shared,
            Isolation::Worktree(w) => IsolationView::Worktree {
                prefix: w.branch_prefix@,
                auto_cleanup: w.auto_cleanup,
                merge_back: w.merge_back,
            },
        }
    }
}

/// What an agent is sent out with, its texts as sequences.
#[verifier::ext_equal]
pub struct SpecView {
    pub ty: SubagentTypeView,
    pub thoroughness: Thoroughness,
    pub model: Option<Seq<char>>,
    pub max_iters: u32,
    pub isolation: IsolationView,
    pub workdir: Option<Seq<char>>,
    pub can_spawn_subagent: bool,
}

impl View for SubagentSpec {
    type V = SpecView;

    open spec fn view(&self) -> SpecView {
        SpecView {
            ty: self.ty@,
            thoroughness: self.thoroughness,
            model: opt_view(self.model),
            max_iters: self.max_iters,
            isolation: self.isolation@,
            workdir: opt_view(self.workdir),
            can_spawn_subagent: self.can_spawn_subagent,
        }
    }
}

/// What an agent comes back with.
#[derive(Debug, Clone)]
pub struct SubagentResult {
    pub summary: String,
    /// Files and other things it left.
    pub artifacts: Vec<String>,
    pub token_used: u64,
    /// It got to the end of its task.
    pub completed: bool,
}

/// A result with its texts as sequences.
#[verifier::ext_equal]
pub struct SubagentResultView {
    pub summary: Seq<char>,
    pub artifacts: Seq<Seq<char>>,
    pub token_used: u64,
    pub completed: bool,
}

impl View for SubagentResult {
    type V = SubagentResultView;

    open spec fn view(&self) -> SubagentResultView {
        SubagentResultView {
            summary: self.summary@,
            artifacts: views(self.artifacts@),
            token_used: self.token_used,
            completed: self.completed,
        }
    }
}

impl SubagentResult {
    /// A task brought to its end, with nothing left behind.
    pub fn completed(summary: String, token_used: u64) -> (r: SubagentResult)
        ensures
            r@ == (SubagentResultView {
                summary: summary@,
                artifacts: Seq::empty(),
                token_used,
                completed: true,
            }),
    {
        let r = SubagentResult { summary, artifacts: Vec::new(), token_used, completed: true };
        assert(r@.artifacts == Seq::<Seq<char>>::empty());
        r
    }
}

/// What an agent's run comes to, as a value.
pub open spec fn run_view(r: Result<SubagentResult, String>) -> Result<
    SubagentResultView,
    Seq<char>,
> {
    match r {
        Ok(v) => Ok(v@),
        Err(e) => Err(e@),
    }
}

} // verus!
