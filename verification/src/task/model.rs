//! A task and the states it moves through.

use vstd::prelude::*;
use vstd::string::*;
use crate::text::split::{opt_view, views};

verus! {

/// The state of a task.
#[derive(Debug, Clone, Copy, PartialEq, Eq, Structural)]
pub enum TaskStatus {
    Pending,
    InProgress,
    Completed,
    Cancelled,
}

impl TaskStatus {
    /// The name of a state.
    pub open spec fn name(self) -> Seq<char> {
        match self {
            TaskStatus::Pending => "pending"@,
            TaskStatus::InProgress => "inprogress"@,
            TaskStatus::Completed => "completed"@,
            TaskStatus::Cancelled => "cancelled"@,
        }
    }

    /// The steps a task may take: from waiting to being worked on, and from
    /// there to one of the two ends.
    pub open spec fn may_become(self, target: TaskStatus) -> bool {
        ||| self == TaskStatus::Pending && target == TaskStatus::InProgress
        ||| self == TaskStatus::InProgress && (target == TaskStatus::Completed || target
            == TaskStatus::Cancelled)
    }

    /// Completed or cancelled.
    pub open spec fn is_end(self) -> bool {
        self == TaskStatus::Completed || self == TaskStatus::Cancelled
    }

    /// The name of the state.
    pub fn as_str(&self) -> (r: &'static str)
        ensures
            r@ == self.name(),
    {
        match self {
            TaskStatus::Pending => "pending",
            TaskStatus::InProgress => "inprogress",
            TaskStatus::Completed => "completed",
            TaskStatus::Cancelled => "cancelled",
        }
    }

    /// Whether a task in this state may step to `target`.
    pub fn can_transition_to(&self, target: TaskStatus) -> (r: bool)
        ensures
            r == self.may_become(target),
    {
        match (*self, target) {
            (TaskStatus::Pending, TaskStatus::InProgress) => true,
            (TaskStatus::InProgress, TaskStatus::Completed) => true,
            (TaskStatus::InProgress, TaskStatus::Cancelled) => true,
            _ => false,
        }
    }
}

/// A task with its dependencies.
#[derive(Debug)]
pub struct Task {
    pub id: String,
    pub content: String,
    pub status: TaskStatus,
    pub summary: Option<String>,
    /// Tasks that wait for this one.
    pub blocks: Vec<String>,
    /// Tasks this one waits for.
    pub blocked_by: Vec<String>,
    /// When it was created, in nanoseconds of Unix time.
    pub created_at: i128,
    /// When it last changed.
    pub updated_at: i128,
}

/// A task with its texts as sequences.
#[verifier::ext_equal]
pub struct TaskView {
    pub id: Seq<char>,
    pub content: Seq<char>,
    pub status: TaskStatus,
    pub summary: Option<Seq<char>>,
    pub blocks: Seq<Seq<char>>,
    pub blocked_by: Seq<Seq<char>>,
    pub created_at: int,
    pub updated_at: int,
}

/// The texts in an optional list of strings; none where there is no list.
pub open spec fn opt_views(o: Option<Vec<String>>) -> Seq<Seq<char>> {
    match o {
        Some(v) => views(v@),
        None => Seq::empty(),
    }
}

impl View for Task {
    type V = TaskView;

    open spec fn view(&self) -> TaskView {
        TaskView {
            id: self.id@,
            content: self.content@,
            status: self.status,
            summary: opt_view(self.summary),
            blocks: views(self.blocks@),
            blocked_by: views(self.blocked_by@),
            created_at: self.created_at as int,
            updated_at: self.updated_at as int,
        }
    }
}

/// The tasks of a list.
pub open spec fn task_views(tasks: Seq<Task>) -> Seq<TaskView> {
    Seq::new(tasks.len(), |i: int| tasks[i]@)
}

/// Copies a list of strings.
pub fn copy_strings(v: &Vec<String>) -> (r: Vec<String>)
    ensures
        views(r@) == views(v@),
        r@.len() == v@.len(),
{
    let mut out: Vec<String> = Vec::new();
    let mut i: usize = 0;
    while i < v.len()
        invariant
            i <= v@.len(),
            out@.len() == i,
            forall|j: int| 0 <= j < i ==> (#[trigger] out@[j])@ == v@[j]@,
        decreases v@.len() - i,
    {
        out.push(v[i].clone());
        i = i + 1;
    }
    assert(views(out@) == views(v@));
    out
}

/// Copies an optional string.
pub fn copy_optional(o: &Option<String>) -> (r: Option<String>)
    ensures
        opt_view(r) == opt_view(*o),
{
    match o {
        Some(s) => Some(s.clone()),
        None => None,
    }
}

impl Task {
    /// A waiting task without dependencies.
    pub fn new(id: String, content: String, now: i128) -> (r: Task)
        ensures
            r@ == (TaskView {
                id: id@,
                content: content@,
                status: TaskStatus::Pending,
                summary: None,
                blocks: Seq::empty(),
                blocked_by: Seq::empty(),
                created_at: now as int,
                updated_at: now as int,
            }),
    {
        let r = Task {
            id,
            content,
            status: TaskStatus::Pending,
            summary: None,
            blocks: Vec::new(),
            blocked_by: Vec::new(),
            created_at: now,
            updated_at: now,
        };
        assert(r@.blocks == Seq::<Seq<char>>::empty());
        assert(r@.blocked_by == Seq::<Seq<char>>::empty());
        r
    }

    /// A copy of the task.
    pub fn copy(&self) -> (r: Task)
        ensures
            r@ == self@,
    {
        Task {
            id: self.id.clone(),
            content: self.content.clone(),
            status: self.status,
            summary: copy_optional(&self.summary),
            blocks: copy_strings(&self.blocks),
            blocked_by: copy_strings(&self.blocked_by),
            created_at: self.created_at,
            updated_at: self.updated_at,
        }
    }
}

/// What an update of a task asks for.
#[derive(Debug)]
pub struct TaskPatch {
    pub status: Option<TaskStatus>,
    pub summary: Option<String>,
    /// Tasks that from now on wait for this one.
    pub add_blocks: Option<Vec<String>>,
    /// Tasks this one from now on waits for.
    pub add_blocked_by: Option<Vec<String>>,
}

impl Default for TaskPatch {
    /// A patch that asks for nothing.
    fn default() -> (r: TaskPatch)
        ensures
            r.status is None,
            r.summary is None,
            r.add_blocks is None,
            r.add_blocked_by is None,
    {
        TaskPatch { status: None, summary: None, add_blocks: None, add_blocked_by: None }
    }
}

/// A task is worked on before it comes to an end, and an end is final: these
/// three steps there are and no others.
pub proof fn steps_of_a_task(from: TaskStatus, to: TaskStatus, r: bool)
    requires
        call_ensures(TaskStatus::can_transition_to, (&from, to), r),
    ensures
        from is Pending ==> r == (to is InProgress),
        from is InProgress ==> r == (to is Completed || to is Cancelled),
        from is Completed || from is Cancelled ==> !r,
{
}

/// A new task waits, has no summary and no dependencies.
pub proof fn new_task_waits(id: String, content: String, now: i128, r: Task)
    requires
        call_ensures(Task::new, (id, content, now), r),
    ensures
        r.id@ == id@ && r.content@ == content@,
        r.status is Pending,
        r.summary is None,
        r.blocks@.len() == 0 && r.blocked_by@.len() == 0,
        r.created_at == now && r.updated_at == now,
{
    assert(r@.blocks.len() == r.blocks@.len());
    assert(r@.blocked_by.len() == r.blocked_by@.len());
    assert(r@.summary is None);
}

/// No two states share a name.
pub proof fn names_tell_states_apart(
    a: TaskStatus,
    b: TaskStatus,
    r: &'static str,
    s: &'static str,
)
    requires
        call_ensures(TaskStatus::as_str, (&a,), r),
        call_ensures(TaskStatus::as_str, (&b,), s),
    ensures
        r@ == s@ ==> a == b,
        a is Pending ==> r@ == "pending"@,
        a is InProgress ==> r@ == "inprogress"@,
        a is Completed ==> r@ == "completed"@,
        a is Cancelled ==> r@ == "cancelled"@,
{
    reveal_strlit("pending");
    reveal_strlit("inprogress");
    reveal_strlit("completed");
    reveal_strlit("cancelled");
    assert("pending"@.len() == 7);
    assert("inprogress"@.len() == 10);
    assert("completed"@[1] == 'o');
    assert("cancelled"@[1] == 'a');
}

} // verus!
