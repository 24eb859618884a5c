//! Working trees of their own for agents: a tree and a branch are made before
//! an agent is sent out, what it changed is merged back, and both are removed.

use vstd::prelude::*;
use vstd::string::*;
use crate::agent::{
    run_view, Isolation, IsolationView, MergeStrategy, SpecView, SubagentResult,
    SubagentResultView, SubagentSpec,
};
use crate::ids::{fresh_id, is_id};
use crate::path::{join_path, joined_path};
use crate::text::split::{opt_view, views};

verus! {

/// How far a run has got.
#[derive(Debug, Clone, Copy, PartialEq, Eq, Structural)]
pub enum Stage {
    /// Is the directory in a repository?
    Checking,
    /// The directory above the tree is being made.
    MakingParent,
    /// The tree is being made.
    Creating,
    /// The agent is at work.
    Running,
    /// What it changed is being merged back.
    Merging,
    /// A merge that failed is being taken back.
    Aborting,
    /// The tree is being removed.
    Removing,
    /// The branch is being deleted.
    Deleting,
    Done,
}

/// What comes back from outside.
#[derive(Debug)]
pub enum WorktreeEvent {
    /// Whether the directory is in a repository.
    Repo(bool),
    /// Whether the directory above the tree is there.
    ParentMade(bool),
    /// Git ended, and what it wrote to its error output.
    GitEnded { success: bool, stderr: String },
    /// Git could not be run.
    GitFailed(String),
    /// The agent came back.
    Finished(Result<SubagentResult, String>),
}

/// What is to be done next.
#[derive(Debug)]
pub enum WorktreeAction {
    CheckRepo,
    MakeParentOf(String),
    Git(Vec<String>),
    /// Send the agent out.
    Delegate,
    /// Hand the agent's result to the caller.
    Return,
    /// Nothing follows from what came back.
    Wait,
}

/// What comes back from outside, as a value.
#[verifier::ext_equal]
pub enum EventView {
    Repo(bool),
    ParentMade(bool),
    GitEnded { success: bool, stderr: Seq<char> },
    GitFailed(Seq<char>),
    Finished(Result<SubagentResultView, Seq<char>>),
}

impl View for WorktreeEvent {
    type V = EventView;

    open spec fn view(&self) -> EventView {
        match self {
            WorktreeEvent::Repo(b) => EventView::Repo(*b),
            WorktreeEvent::ParentMade(b) => EventView::ParentMade(*b),
            WorktreeEvent::GitEnded { success, stderr } => EventView::GitEnded {
                success: *success,
                stderr: stderr@,
            },
            WorktreeEvent::GitFailed(e) => EventView::GitFailed(e@),
            WorktreeEvent::Finished(r) => EventView::Finished(run_view(*r)),
        }
    }
}

/// What is to be done next, as a value.
#[verifier::ext_equal]
pub enum ActionView {
    CheckRepo,
    MakeParentOf(Seq<char>),
    Git(Seq<Seq<char>>),
    Delegate,
    Return,
    Wait,
}

impl View for WorktreeAction {
    type V = ActionView;

    open spec fn view(&self) -> ActionView {
        match self {
            WorktreeAction::CheckRepo => ActionView::CheckRepo,
            WorktreeAction::MakeParentOf(p) => ActionView::MakeParentOf(p@),
            WorktreeAction::Git(args) => ActionView::Git(views(args@)),
            WorktreeAction::Delegate => ActionView::Delegate,
            WorktreeAction::Return => ActionView::Return,
            WorktreeAction::Wait => ActionView::Wait,
        }
    }
}

/// A run of an agent, with or without a tree of its own.
#[derive(Debug)]
pub struct WorktreeRun {
    /// What the agent is sent out with.
    pub spec: SubagentSpec,
    /// The main directory.
    pub workdir: String,
    pub branch: String,
    /// Where the tree is.
    pub path: String,
    pub stage: Stage,
    /// Why what the agent changed did not come back.
    pub merge_error: Option<String>,
    /// What the agent came back with.
    pub result: Option<Result<SubagentResult, String>>,
}

/// A run with its texts as sequences.
#[verifier::ext_equal]
pub struct RunView {
    pub spec: SpecView,
    pub workdir: Seq<char>,
    pub branch: Seq<char>,
    pub path: Seq<char>,
    pub stage: Stage,
    pub merge_error: Option<Seq<char>>,
    pub result: Option<Result<SubagentResultView, Seq<char>>>,
}

impl View for WorktreeRun {
    type V = RunView;

    open spec fn view(&self) -> RunView {
        RunView {
            spec: self.spec@,
            workdir: self.workdir@,
            branch: self.branch@,
            path: self.path@,
            stage: self.stage,
            merge_error: opt_view(self.merge_error),
            result: match self.result {
                Some(r) => Some(run_view(r)),
                None => None,
            },
        }
    }
}

/// Where the tree of a branch goes.
pub open spec fn tree_path(workdir: Seq<char>, branch: Seq<char>) -> Seq<char> {
    joined_path(joined_path(joined_path(workdir, ".minicoding"@), "worktrees"@), branch)
}

/// The arguments of git that make a tree on a new branch.
pub open spec fn add_args(branch: Seq<char>, path: Seq<char>) -> Seq<Seq<char>> {
    seq!["worktree"@, "add"@, "-b"@, branch, path]
}

/// The arguments of git that remove a tree.
pub open spec fn remove_args(path: Seq<char>) -> Seq<Seq<char>> {
    seq!["worktree"@, "remove"@, "--force"@, path]
}

/// The arguments of git that delete a branch.
pub open spec fn delete_args(branch: Seq<char>) -> Seq<Seq<char>> {
    seq!["branch"@, "-D"@, branch]
}

/// The arguments of git that bring a branch back.
pub open spec fn merge_args(strategy: MergeStrategy, branch: Seq<char>) -> Seq<Seq<char>> {
    match strategy {
        MergeStrategy::Nothing => Seq::empty(),
        MergeStrategy::CherryPick => seq!["cherry-pick"@, branch],
        MergeStrategy::MergeCommit => seq![
            "merge"@,
            "--no-ff"@,
            branch,
            "-m"@,
            "merge subagent branch "@ + branch,
        ],
    }
}

/// The arguments of git that take a failed merge back.
pub open spec fn abort_args(strategy: MergeStrategy) -> Seq<Seq<char>> {
    match strategy {
        MergeStrategy::MergeCommit => seq!["merge"@, "--abort"@],
        _ => seq!["cherry-pick"@, "--abort"@],
    }
}

/// What went wrong when a branch was brought back.
pub open spec fn merge_failure(strategy: MergeStrategy, stderr: Seq<char>) -> Seq<char> {
    match strategy {
        MergeStrategy::MergeCommit => "merge 失败（已 abort）: "@ + stderr,
        _ => "cherry-pick 失败（已 abort）: "@ + stderr,
    }
}

/// The agent's summary under a warning that its changes did not come back.
pub open spec fn warned(branch: Seq<char>, error: Seq<char>, summary: Seq<char>) -> Seq<char> {
    "[警告] worktree 分支 "@ + branch + " 的改动合并回主分支失败（"@ + error
        + "），以下结论基于 worktree 内的执行状态。\n"@ + summary
}

/// The result with the warning, where there is a result.
pub open spec fn with_warning(
    result: Result<SubagentResultView, Seq<char>>,
    branch: Seq<char>,
    error: Seq<char>,
) -> Result<SubagentResultView, Seq<char>> {
    match result {
        Ok(v) => Ok(SubagentResultView { summary: warned(branch, error, v.summary), ..v }),
        Err(e) => Err(e),
    }
}

impl RunView {
    /// The agent works in the main directory after all.
    pub open spec fn degraded(self) -> RunView {
        RunView {
            spec: SpecView { isolation: IsolationView::Shared, ..self.spec },
            stage: Stage::Running,
            ..self
        }
    }

    /// Merging is over, with an error or without: the caller is warned of an
    /// error, and the tree is removed where that was asked for.
    pub open spec fn merged(self, error: Option<Seq<char>>) -> (RunView, ActionView) {
        let cleanup = match self.spec.isolation {
            IsolationView::Worktree { auto_cleanup, .. } => auto_cleanup,
            IsolationView::Shared => false,
        };
        let run = RunView {
            merge_error: error,
            result: match (self.result, error) {
                (Some(r), Some(e)) => Some(with_warning(r, self.branch, e)),
                (r, _) => r,
            },
            ..self
        };
        if cleanup {
            (RunView { stage: Stage::Removing, ..run }, ActionView::Git(remove_args(self.path)))
        } else {
            (RunView { stage: Stage::Done, ..run }, ActionView::Return)
        }
    }

    /// How what the agent changed is to come back.
    pub open spec fn strategy(self) -> MergeStrategy {
        match self.spec.isolation {
            IsolationView::Worktree { merge_back, .. } => merge_back,
            IsolationView::Shared => MergeStrategy::Nothing,
        }
    }

    /// What follows from an event. `id` tells branches apart.
    pub open spec fn next(self, event: EventView, id: Seq<char>) -> (RunView, ActionView) {
        match (self.stage, event) {
            (Stage::Checking, EventView::Repo(inside)) => match self.spec.isolation {
                IsolationView::Worktree { prefix, .. } => if inside {
                    let branch = prefix + id;
                    let path = tree_path(self.workdir, branch);
                    (
                        RunView { branch, path, stage: Stage::MakingParent, ..self },
                        ActionView::MakeParentOf(path),
                    )
                } else {
                    (self.degraded(), ActionView::Delegate)
                },
                IsolationView::Shared => (self.degraded(), ActionView::Delegate),
            },
            (Stage::MakingParent, EventView::ParentMade(made)) => if made {
                (
                    RunView { stage: Stage::Creating, ..self },
                    ActionView::Git(add_args(self.branch, self.path)),
                )
            } else {
                (self.degraded(), ActionView::Delegate)
            },
            (Stage::Creating, EventView::GitEnded { success, .. }) => if success {
                (
                    RunView {
                        spec: SpecView { workdir: Some(self.path), ..self.spec },
                        stage: Stage::Running,
                        ..self
                    },
                    ActionView::Delegate,
                )
            } else {
                (self.degraded(), ActionView::Delegate)
            },
            (Stage::Creating, EventView::GitFailed(_)) => (self.degraded(), ActionView::Delegate),
            (Stage::Running, EventView::Finished(r)) => {
                let back = RunView { result: Some(r), ..self };
                match self.spec.isolation {
                    IsolationView::Shared => (
                        RunView { stage: Stage::Done, ..back },
                        ActionView::Return,
                    ),
                    IsolationView::Worktree { .. } => if self.strategy()
                        == MergeStrategy::Nothing {
                        back.merged(None)
                    } else {
                        (
                            RunView { stage: Stage::Merging, ..back },
                            ActionView::Git(merge_args(self.strategy(), self.branch)),
                        )
                    },
                }
            },
            (Stage::Merging, EventView::GitEnded { success, stderr }) => if success {
                self.merged(None)
            } else {
                (
                    RunView {
                        stage: Stage::Aborting,
                        merge_error: Some(merge_failure(self.strategy(), stderr)),
                        ..self
                    },
                    ActionView::Git(abort_args(self.strategy())),
                )
            },
            (Stage::Merging, EventView::GitFailed(e)) => self.merged(Some(e)),
            (Stage::Aborting, EventView::GitEnded { .. }) => self.merged(self.merge_error),
            (Stage::Aborting, EventView::GitFailed(_)) => self.merged(self.merge_error),
            (Stage::Removing, EventView::GitEnded { .. }) => (
                RunView { stage: Stage::Deleting, ..self },
                ActionView::Git(delete_args(self.branch)),
            ),
            (Stage::Removing, EventView::GitFailed(_)) => (
                RunView { stage: Stage::Deleting, ..self },
                ActionView::Git(delete_args(self.branch)),
            ),
            (Stage::Deleting, EventView::GitEnded { .. }) => (
                RunView { stage: Stage::Done, ..self },
                ActionView::Return,
            ),
            (Stage::Deleting, EventView::GitFailed(_)) => (
                RunView { stage: Stage::Done, ..self },
                ActionView::Return,
            ),
            _ => (self, ActionView::Wait),
        }
    }
}

/// The words as arguments.
fn args_of(words: &[&str]) -> (r: Vec<String>)
    ensures
        r@.len() == words@.len(),
        forall|j: int| 0 <= j < words@.len() ==> (#[trigger] r@[j])@ == words@[j]@,
{
    let mut out: Vec<String> = Vec::new();
    let mut i: usize = 0;
    while i < words.len()
        invariant
            i <= words@.len(),
            out@.len() == i,
            forall|j: int| 0 <= j < i ==> (#[trigger] out@[j])@ == words@[j]@,
        decreases words@.len() - i,
    {
        out.push(words[i].to_owned());
        i = i + 1;
    }
    out
}

/// The arguments of git that bring a branch back.
pub fn merge_command(strategy: MergeStrategy, branch: &str) -> (r: Vec<String>)
    ensures
        views(r@) == merge_args(strategy, branch@),
{
    let r = match strategy {
        MergeStrategy::Nothing => Vec::new(),
        MergeStrategy::CherryPick => args_of(&["cherry-pick", branch]),
        MergeStrategy::MergeCommit => {
            let mut message = "merge subagent branch ".to_owned();
            message.append(branch);
            args_of(&["merge", "--no-ff", branch, "-m", message.as_str()])
        },
    };
    assert(views(r@) == merge_args(strategy, branch@));
    r
}

/// The arguments of git that take a failed merge back.
pub fn abort_command(strategy: MergeStrategy) -> (r: Vec<String>)
    ensures
        views(r@) == abort_args(strategy),
{
    let r = match strategy {
        MergeStrategy::MergeCommit => args_of(&["merge", "--abort"]),
        _ => args_of(&["cherry-pick", "--abort"]),
    };
    assert(views(r@) == abort_args(strategy));
    r
}

impl WorktreeRun {
    /// A run at its beginning, and what is to be done first.
    pub fn start(spec: SubagentSpec, workdir: String) -> (r: (WorktreeRun, WorktreeAction))
        ensures
            r.0@ == (RunView {
                spec: spec@,
                workdir: workdir@,
                branch: Seq::empty(),
                path: Seq::empty(),
                stage: if spec.isolation is Shared {
                    Stage::Running
                } else {
                    Stage::Checking
                },
                merge_error: None,
                result: None,
            }),
            r.1@ == (if spec.isolation is Shared {
                ActionView::Delegate
            } else {
                ActionView::CheckRepo
            }),
    {
        proof {
            reveal_strlit("");
        }
        let shared = match &spec.isolation {
            Isolation::Shared => true,
            Isolation::Worktree(_) => false,
        };
        let stage = if shared {
            Stage::Running
        } else {
            Stage::Checking
        };
        let action = if shared {
            WorktreeAction::Delegate
        } else {
            WorktreeAction::CheckRepo
        };
        let run = WorktreeRun {
            spec,
            workdir,
            branch: "".to_owned(),
            path: "".to_owned(),
            stage,
            merge_error: None,
            result: None,
        };
        assert(run@.branch == Seq::<char>::empty());
        assert(run@.path == Seq::<char>::empty());
        (run, action)
    }

    /// The agent works in the main directory after all.
    fn degrade(&mut self) -> (r: WorktreeAction)
        ensures
            final(self)@ == old(self)@.degraded(),
            r@ == ActionView::Delegate,
    {
        self.spec.isolation = Isolation::Shared;
        self.stage = Stage::Running;
        WorktreeAction::Delegate
    }

    fn merge_strategy(&self) -> (r: MergeStrategy)
        ensures
            r == self@.strategy(),
    {
        match &self.spec.isolation {
            Isolation::Shared => MergeStrategy::Nothing,
            Isolation::Worktree(w) => w.merge_back,
        }
    }

    /// Merging is over.
    fn end_merge(&mut self, error: Option<String>) -> (r: WorktreeAction)
        ensures
            (final(self)@, r@) == old(self)@.merged(opt_view(error)),
    {
        let ghost before = self@;
        let ghost want = before.merged(opt_view(error));
        if let Some(e) = &error {
            let result = self.result.take();
            self.result = match result {
                Some(Ok(v)) => {
                    let mut s = "[警告] worktree 分支 ".to_owned();
                    s.append(self.branch.as_str());
                    s.append(" 的改动合并回主分支失败（");
                    s.append(e.as_str());
                    s.append("），以下结论基于 worktree 内的执行状态。\n");
                    s.append(v.summary.as_str());
                    Some(
                        Ok(
                            SubagentResult {
                                summary: s,
                                artifacts: v.artifacts,
                                token_used: v.token_used,
                                completed: v.completed,
                            },
                        ),
                    )
                },
                other => other,
            };
        }
        self.merge_error = error;
        let cleanup = match &self.spec.isolation {
            Isolation::Shared => false,
            Isolation::Worktree(w) => w.auto_cleanup,
        };
        if cleanup {
            self.stage = Stage::Removing;
            let args = args_of(&["worktree", "remove", "--force", self.path.as_str()]);
            assert(views(args@) == remove_args(self.path@));
            assert(self@ == want.0);
            WorktreeAction::Git(args)
        } else {
            self.stage = Stage::Done;
            assert(self@ == want.0);
            WorktreeAction::Return
        }
    }

    /// Takes in what came back from outside. `id` tells branches apart.
    pub fn step_with_id(&mut self, event: WorktreeEvent, id: &str) -> (r: WorktreeAction)
        ensures
            (final(self)@, r@) == old(self)@.next(event@, id@),
    {
        match (self.stage, event) {
            (Stage::Checking, WorktreeEvent::Repo(inside)) => {
                let prefix = match &self.spec.isolation {
                    Isolation::Worktree(w) => {
                        if inside {
                            Some(w.branch_prefix.clone())
                        } else {
                            None
                        }
                    },
                    Isolation::Shared => None,
                };
                match prefix {
                    Some(p) => {
                        let mut branch = p;
                        branch.append(id);
                        let hidden = join_path(self.workdir.as_str(), ".minicoding");
                        let trees = join_path(hidden.as_str(), "worktrees");
                        let path = join_path(trees.as_str(), branch.as_str());
                        self.branch = branch;
                        self.path = path.clone();
                        self.stage = Stage::MakingParent;
                        WorktreeAction::MakeParentOf(path)
                    },
                    None => self.degrade(),
                }
            },
            (Stage::MakingParent, WorktreeEvent::ParentMade(made)) => {
                if made {
                    self.stage = Stage::Creating;
                    let args = args_of(
                        &["worktree", "add", "-b", self.branch.as_str(), self.path.as_str()],
                    );
                    assert(views(args@) == add_args(self.branch@, self.path@));
                    WorktreeAction::Git(args)
                } else {
                    self.degrade()
                }
            },
            (Stage::Creating, WorktreeEvent::GitEnded { success, stderr }) => {
                if success {
                    self.spec.workdir = Some(self.path.clone());
                    self.stage = Stage::Running;
                    WorktreeAction::Delegate
                } else {
                    self.degrade()
                }
            },
            (Stage::Creating, WorktreeEvent::GitFailed(_)) => self.degrade(),
            (Stage::Running, WorktreeEvent::Finished(result)) => {
                let shared = match &self.spec.isolation {
                    Isolation::Shared => true,
                    Isolation::Worktree(_) => false,
                };
                self.result = Some(result);
                if shared {
                    self.stage = Stage::Done;
                    return WorktreeAction::Return;
                }
                let strategy = self.merge_strategy();
                if strategy == MergeStrategy::Nothing {
                    self.end_merge(None)
                } else {
                    self.stage = Stage::Merging;
                    WorktreeAction::Git(merge_command(strategy, self.branch.as_str()))
                }
            },
            (Stage::Merging, WorktreeEvent::GitEnded { success, stderr }) => {
                if success {
                    self.end_merge(None)
                } else {
                    let strategy = self.merge_strategy();
                    let mut e = match strategy {
                        MergeStrategy::MergeCommit => "merge 失败（已 abort）: ".to_owned(),
                        _ => "cherry-pick 失败（已 abort）: ".to_owned(),
                    };
                    e.append(stderr.as_str());
                    self.merge_error = Some(e);
                    self.stage = Stage::Aborting;
                    WorktreeAction::Git(abort_command(strategy))
                }
            },
            (Stage::Merging, WorktreeEvent::GitFailed(e)) => self.end_merge(Some(e)),
            (Stage::Aborting, WorktreeEvent::GitEnded { success, stderr }) => self.end_abort(),
            (Stage::Aborting, WorktreeEvent::GitFailed(_)) => self.end_abort(),
            (Stage::Removing, WorktreeEvent::GitEnded { success, stderr }) => self.end_removal(),
            (Stage::Removing, WorktreeEvent::GitFailed(_)) => self.end_removal(),
            (Stage::Deleting, WorktreeEvent::GitEnded { success, stderr }) => {
                self.stage = Stage::Done;
                WorktreeAction::Return
            },
            (Stage::Deleting, WorktreeEvent::GitFailed(_)) => {
                self.stage = Stage::Done;
                WorktreeAction::Return
            },
            _ => WorktreeAction::Wait,
        }
    }

    /// The failed merge was taken back.
    fn end_abort(&mut self) -> (r: WorktreeAction)
        ensures
            (final(self)@, r@) == old(self)@.merged(old(self)@.merge_error),
    {
        let e = self.merge_error.take();
        self.end_merge(e)
    }

    /// The tree was removed.
    fn end_removal(&mut self) -> (r: WorktreeAction)
        ensures
            final(self)@ == (RunView { stage: Stage::Deleting, ..old(self)@ }),
            r@ == ActionView::Git(delete_args(old(self)@.branch)),
    {
        self.stage = Stage::Deleting;
        let args = args_of(&["branch", "-D", self.branch.as_str()]);
        assert(views(args@) == delete_args(self.branch@));
        WorktreeAction::Git(args)
    }

    /// Takes in what came back from outside; a new branch gets a fresh name.
    pub fn step(&mut self, event: WorktreeEvent) -> (r: WorktreeAction)
        ensures
            exists|id: Seq<char>| #[trigger]
                is_id(id) && (final(self)@, r@) == old(self)@.next(event@, id),
    {
        let id = fresh_id();
        assert(is_id(id@));
        self.step_with_id(event, id.as_str())
    }
}

/// Where there is no repository, or no tree can be made, the agent is sent
/// out all the same, to work in the main directory.
pub proof fn no_tree_no_isolation(run: RunView, event: EventView, id: Seq<char>)
    requires
        ({
            ||| run.stage == Stage::Checking && event == EventView::Repo(false)
            ||| run.stage == Stage::MakingParent && event == EventView::ParentMade(false)
            ||| run.stage == Stage::Creating && (event matches EventView::GitEnded {
                success: false,
                ..
            } || event is GitFailed)
        }),
    ensures
        run.next(event, id).1 == ActionView::Delegate,
        run.next(event, id).0.spec.isolation is Shared,
        run.next(event, id).0.spec.workdir == run.spec.workdir,
{
}

/// An agent that got a tree of its own is sent out to work there.
pub proof fn isolated_agent_works_in_its_tree(run: RunView, stderr: Seq<char>, id: Seq<char>)
    requires
        run.stage == Stage::Creating,
    ensures
        ({
            let (after, action) = run.next(EventView::GitEnded { success: true, stderr }, id);
            action == ActionView::Delegate && after.spec.workdir == Some(run.path)
        }),
{
}

/// A tree that is to be removed in the end is removed, and its branch deleted,
/// before the result is handed out.
pub proof fn tree_goes_before_the_result(run: RunView, event: EventView, id: Seq<char>)
    requires
        run.spec.isolation matches IsolationView::Worktree { auto_cleanup: true, .. },
        run.next(event, id).1 == ActionView::Return,
    ensures
        run.stage == Stage::Deleting,
{
}

/// That changes did not come back never hides the agent's result: its summary
/// stands at the end of what the caller reads.
pub proof fn failed_merge_keeps_the_summary(
    result: SubagentResultView,
    branch: Seq<char>,
    error: Seq<char>,
)
    ensures
        with_warning(Ok(result), branch, error) is Ok,
        ({
            let s = with_warning(Ok(result), branch, error)->Ok_0.summary;
            s.len() >= result.summary.len() && s.skip(s.len() - result.summary.len())
                == result.summary
        }),
{
    let s = warned(branch, error, result.summary);
    assert(s.skip(s.len() - result.summary.len()) =~= result.summary);
}

/// The words handed to git.
pub open spec fn git_words(a: WorktreeAction) -> Option<Seq<Seq<char>>> {
    match a {
        WorktreeAction::Git(args) => Some(views(args@)),
        _ => None,
    }
}

/// A tree of its own goes below the working directory, under a branch of a new
/// name that begins as was asked for; it is made on that branch and nowhere
/// else.
pub proof fn tree_is_made_on_its_branch(
    run: &mut WorktreeRun,
    event: WorktreeEvent,
    id: &str,
    hidden: String,
    hidden_text: &str,
    trees: String,
    trees_text: &str,
    branch: &str,
    path: String,
    r: WorktreeAction,
)
    requires
        call_ensures(WorktreeRun::step_with_id, (run, event, id), r),
        old(run).stage is Checking,
        event == WorktreeEvent::Repo(true),
        old(run).spec.isolation is Worktree,
        branch@ == old(run).spec.isolation->Worktree_0.branch_prefix@ + id@,
        hidden@ == joined_path(old(run).workdir@, ".minicoding"@),
        hidden_text@ == hidden@,
        trees@ == joined_path(hidden_text@, "worktrees"@),
        trees_text@ == trees@,
        call_ensures(join_path, (trees_text, branch), path),
    ensures
        r is MakeParentOf,
        r->MakeParentOf_0@ == path@,
        final(run).path@ == path@,
        final(run).branch@ == branch@,
        final(run).stage is MakingParent,
        final(run).workdir@ == old(run).workdir@,
        final(run)@.spec == old(run)@.spec,
{
    let want = old(run)@.next(event@, id@);
    assert(r@ == want.1);
    assert(final(run)@ == want.0);
}

/// What git is told at each stage: to make the tree on the branch, to bring
/// the branch back as was asked for, to take a failed attempt back in the same
/// way, to remove the tree, and to delete the branch.
pub proof fn git_is_told_what_the_stage_asks(
    run: &mut WorktreeRun,
    event: WorktreeEvent,
    id: &str,
    r: WorktreeAction,
)
    requires
        call_ensures(WorktreeRun::step_with_id, (run, event, id), r),
        r is Git,
    ensures
        ({
            let words = git_words(r)->0;
            let branch = old(run).branch@;
            let path = old(run).path@;
            &&& final(run).stage is Creating ==> words == seq![
                "worktree"@,
                "add"@,
                "-b"@,
                branch,
                path,
            ]
            &&& final(run).stage is Merging && old(run)@.strategy() is CherryPick ==> words == seq![
                "cherry-pick"@,
                branch,
            ]
            &&& final(run).stage is Merging && old(run)@.strategy() is MergeCommit ==> {
                &&& words.len() == 5
                &&& words[0] == "merge"@ && words[1] == "--no-ff"@
                &&& words[2] == branch
            }
            &&& final(run).stage is Aborting ==> words.len() == 2 && words[1] == "--abort"@ && (
            words[0] == "merge"@) == (old(run)@.strategy() is MergeCommit)
            &&& final(run).stage is Removing ==> words == seq![
                "worktree"@,
                "remove"@,
                "--force"@,
                path,
            ]
            &&& final(run).stage is Deleting ==> words == seq!["branch"@, "-D"@, branch]
            &&& final(run).branch@ == branch && final(run).path@ == path
        }),
{
    reveal_strlit("merge");
    reveal_strlit("cherry-pick");
    assert("merge"@.len() != "cherry-pick"@.len());
    let want = old(run)@.next(event@, id@);
    assert(r@ == want.1);
    assert(final(run)@ == want.0);
}

/// The stages follow each other: from the check over making the tree to the
/// agent's work, then merging, taking back, removing and deleting as far as
/// they are needed, to the end, where the result is handed out once.
pub proof fn stages_follow_each_other(
    run: &mut WorktreeRun,
    event: WorktreeEvent,
    id: &str,
    r: WorktreeAction,
)
    requires
        call_ensures(WorktreeRun::step_with_id, (run, event, id), r),
    ensures
        r is Return ==> final(run).stage is Done && !(old(run).stage is Done),
        r is Delegate ==> final(run).stage is Running && (old(run).stage is Checking || old(run).stage is MakingParent || old(run).stage is Creating),
        r is Wait ==> final(run)@ == old(run)@,
        old(run).stage is Done ==> r is Wait,
        final(run).stage is Merging && !(r is Wait) ==> old(run).stage is Running,
        final(run).stage is Aborting && !(r is Wait) ==> old(run).stage is Merging,
        final(run).stage is Deleting && !(r is Wait) ==> old(run).stage is Removing,
        old(run).stage is Running && event is Finished && old(run).spec.isolation is Shared ==> r
            is Return,
        old(run).stage is Running && event is Finished && old(run)@.strategy() is CherryPick ==> r
            is Git && final(run).stage is Merging,
        old(run).stage is Merging && (event matches WorktreeEvent::GitEnded { success, .. }
            && !success) ==> r is Git && final(run).stage is Aborting,
        old(run).stage is Removing && (event is GitEnded || event is GitFailed) ==> r is Git
            && final(run).stage is Deleting,
        old(run).stage is Deleting && (event is GitEnded || event is GitFailed) ==> r is Return,
{
    let want = old(run)@.next(event@, id@);
    assert(r@ == want.1);
    assert(final(run)@ == want.0);
}

/// An agent's result is handed on as it came: until it comes there is none,
/// and after that only a warning is ever put before its summary.
pub proof fn result_is_handed_on_as_it_came(
    run: &mut WorktreeRun,
    event: WorktreeEvent,
    id: &str,
    r: WorktreeAction,
)
    requires
        call_ensures(WorktreeRun::step_with_id, (run, event, id), r),
    ensures
        ({
            let a = old(run)@;
            let b = final(run)@;
            &&& a.stage is Running && event is Finished ==> b.result == Some(
                run_view(event->Finished_0),
            )
            &&& !(a.stage is Running && event is Finished) ==> {
                &&& a.result is None ==> b.result is None
                &&& a.result matches Some(Err(e)) ==> b.result == Some(
                    Err::<SubagentResultView, Seq<char>>(e),
                )
                &&& a.result matches Some(Ok(v)) ==> {
                    &&& b.result is Some
                    &&& b.result->0 matches Ok(w)
                    &&& w.artifacts == v.artifacts
                    &&& w.token_used == v.token_used
                    &&& w.completed == v.completed
                    &&& w.summary.len() >= v.summary.len()
                    &&& w.summary.skip(w.summary.len() - v.summary.len()) == v.summary
                    &&& b.merge_error is None ==> w.summary == v.summary
                }
            }
        }),
{
    let a = old(run)@;
    let want = a.next(event@, id@);
    assert(final(run)@ == want.0);
    if let Some(Ok(v)) = a.result {
        assert(v.summary.skip(0) == v.summary);
        if a.stage is Merging && event is GitFailed {
            failed_merge_keeps_the_summary(v, a.branch, event->GitFailed_0@);
        }
        if a.stage is Aborting && a.merge_error is Some {
            failed_merge_keeps_the_summary(v, a.branch, a.merge_error->0);
        }
    }
}

/// A failure to bring changes back is told at the top of the summary, with the
/// branch and the reason.
pub proof fn failed_merge_is_told(
    run: &mut WorktreeRun,
    event: WorktreeEvent,
    id: &str,
    r: WorktreeAction,
    v: SubagentResultView,
)
    requires
        call_ensures(WorktreeRun::step_with_id, (run, event, id), r),
        old(run).stage is Merging,
        event is GitFailed,
        old(run)@.result == Some(Ok::<SubagentResultView, Seq<char>>(v)),
    ensures
        final(run)@.merge_error == Some(event->GitFailed_0@),
        ({
            let s = final(run)@.result->0->Ok_0.summary;
            let head = "[警告] worktree 分支 "@ + old(run).branch@
                + " 的改动合并回主分支失败（"@ + event->GitFailed_0@;
            s.len() >= head.len() && s.take(head.len() as int) == head
        }),
{
    let a = old(run)@;
    let e = event->GitFailed_0@;
    assert(final(run)@ == a.next(event@, id@).0);
    let head = "[警告] worktree 分支 "@ + a.branch + " 的改动合并回主分支失败（"@ + e;
    let s = warned(a.branch, e, v.summary);
    assert(s.take(head.len() as int) == head);
}

/// A run in the main directory sends the agent out at once; one in a tree of
/// its own first looks for a repository.
pub proof fn run_starts_with_the_check_it_needs(
    spec: SubagentSpec,
    workdir: String,
    r: (WorktreeRun, WorktreeAction),
)
    requires
        call_ensures(WorktreeRun::start, (spec, workdir), r),
    ensures
        spec.isolation is Shared ==> r.1 is Delegate && r.0.stage is Running,
        spec.isolation is Worktree ==> r.1 is CheckRepo && r.0.stage is Checking,
        r.0@.spec == spec@,
        r.0.workdir@ == workdir@,
        r.0.result is None,
        r.0.merge_error is None,
{
    assert(r.0@.result is None);
    assert(r.0@.merge_error is None);
    assert(r.1@ == r.1.view());
}

} // verus!
