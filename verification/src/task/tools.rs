//! The tools over the tasks.

use vstd::prelude::*;
use vstd::string::*;
use crate::ids::is_id;
use crate::plan::table_views;
use crate::task::cycle::{lemma_position, position_of};
use crate::task::model::{task_views, Task, TaskPatch, TaskStatus, TaskView};
use crate::task::store::{after_update, patch_view, selected, update_refusal, InMemoryTaskStore};
use crate::text::search::is_blank;
use crate::text::split::views;
use crate::tool::{RenderIntent, SideEffect, ToolError, ToolErrorView};

verus! {

/// The `task.create` tool.
#[derive(Debug, Clone, Copy, Default)]
pub struct TaskCreate {}

/// What the caller of `task.create` is told.
#[derive(Debug)]
pub struct Created {
    pub task_id: String,
    pub status: TaskStatus,
}

impl TaskCreate {
    pub fn new() -> Self {
        TaskCreate {  }
    }

    pub fn name(&self) -> (r: &'static str)
        ensures
            r@ == "task.create"@,
    {
        "task.create"
    }

    pub fn side_effect(&self) -> (r: SideEffect)
        ensures
            r == SideEffect::Nothing,
    {
        SideEffect::Nothing
    }

    /// Adds a waiting task; text that is blank is refused.
    pub fn execute(&self, store: &mut InMemoryTaskStore, content: String) -> (r: Result<
        Created,
        ToolError,
    >)
        ensures
            is_blank(content@) ==> r is Err && r->Err_0@ == ToolErrorView::InvalidInput(
                "content must not be empty"@,
            ) && final(store)@ == old(store)@,
            !is_blank(content@) ==> {
                let added = final(store)@.last();
                &&& r is Ok
                &&& is_id(added.id)
                &&& r->Ok_0.task_id@ == added.id
                &&& r->Ok_0.status == TaskStatus::Pending
                &&& added == (TaskView {
                    id: added.id,
                    content: content@,
                    status: TaskStatus::Pending,
                    summary: None,
                    blocks: Seq::empty(),
                    blocked_by: Seq::empty(),
                    created_at: added.updated_at,
                    updated_at: added.updated_at,
                })
                &&& final(store)@ == old(store)@.push(added)
            },
    {
        match store.create(content) {
            Ok(task) => {
                assert(store@.last() == task@);
                Ok(Created { task_id: task.id, status: task.status })
            },
            Err(e) => Err(e),
        }
    }

    /// The result is shown as structured data.
    pub fn render_output(&self, created: &Created) -> (r: RenderIntent)
        ensures
            r is Json,
    {
        RenderIntent::Json
    }
}

/// The `task.update` tool.
#[derive(Debug, Clone, Copy, Default)]
pub struct TaskUpdate {}

impl TaskUpdate {
    pub fn new() -> Self {
        TaskUpdate {  }
    }

    pub fn name(&self) -> (r: &'static str)
        ensures
            r@ == "task.update"@,
    {
        "task.update"
    }

    pub fn side_effect(&self) -> (r: SideEffect)
        ensures
            r == SideEffect::Nothing,
    {
        SideEffect::Nothing
    }

    /// Updates a task: all that the patch asks for, or nothing.
    pub fn execute(&self, store: &mut InMemoryTaskStore, task_id: String, patch: TaskPatch) -> (r:
        Result<Task, ToolError>)
        ensures
            match update_refusal(old(store)@, task_id@, patch_view(patch)) {
                Some(e) => r is Err && r->Err_0@ == e && final(store)@ == old(store)@,
                None => {
                    &&& r is Ok
                    &&& final(store)@ == after_update(
                        old(store)@,
                        task_id@,
                        patch_view(patch),
                        r->Ok_0@.updated_at,
                    )
                    &&& r->Ok_0@ == final(store)@[position_of(old(store)@, task_id@)->0]
                },
            },
    {
        store.update(task_id, patch)
    }

    /// The result is shown as structured data.
    pub fn render_output(&self, task: &Task) -> (r: RenderIntent)
        ensures
            r is Json,
    {
        RenderIntent::Json
    }
}

/// The rows of a table of tasks.
pub open spec fn task_rows(tasks: Seq<TaskView>) -> Seq<Seq<Seq<char>>> {
    Seq::new(tasks.len(), |i: int| seq![tasks[i].id, tasks[i].status.name(), tasks[i].content])
}

/// The `task.list` tool.
#[derive(Debug, Clone, Copy, Default)]
pub struct TaskList {}

impl TaskList {
    pub fn new() -> Self {
        TaskList {  }
    }

    pub fn name(&self) -> (r: &'static str)
        ensures
            r@ == "task.list"@,
    {
        "task.list"
    }

    pub fn side_effect(&self) -> (r: SideEffect)
        ensures
            r == SideEffect::Nothing,
    {
        SideEffect::Nothing
    }

    /// The tasks in one state, or all of them.
    pub fn execute(&self, store: &InMemoryTaskStore, status: Option<TaskStatus>) -> (r: Vec<Task>)
        ensures
            task_views(r@) == selected(store@, status),
    {
        store.list(status)
    }

    /// Tasks are shown as a table, none as structured data.
    pub fn render_output(&self, tasks: &Vec<Task>) -> (r: RenderIntent)
        ensures
            if tasks@.len() == 0 {
                r is Json
            } else {
                r matches RenderIntent::Table { headers, rows } && views(headers@) == seq![
                    "id"@,
                    "status"@,
                    "content"@,
                ] && table_views(rows@) == task_rows(task_views(tasks@))
            },
    {
        if tasks.len() == 0 {
            return RenderIntent::Json;
        }
        let mut headers: Vec<String> = Vec::new();
        headers.push("id".to_owned());
        headers.push("status".to_owned());
        headers.push("content".to_owned());
        assert(views(headers@) == seq!["id"@, "status"@, "content"@]);
        let ghost want = task_rows(task_views(tasks@));
        let mut rows: Vec<Vec<String>> = Vec::new();
        let mut i: usize = 0;
        while i < tasks.len()
            invariant
                i <= tasks@.len(),
                want == task_rows(task_views(tasks@)),
                rows@.len() == i,
                forall|j: int| 0 <= j < i ==> views((#[trigger] rows@[j])@) == want[j],
            decreases tasks@.len() - i,
        {
            let mut row: Vec<String> = Vec::new();
            row.push(tasks[i].id.clone());
            row.push(tasks[i].status.as_str().to_owned());
            row.push(tasks[i].content.clone());
            assert(views(row@) == want[i as int]);
            rows.push(row);
            i = i + 1;
        }
        assert(table_views(rows@) == want);
        RenderIntent::Table { headers, rows }
    }
}

/// The tools do what the store does: a created task is told by its id and
/// waits, and an update tells the task as it is afterwards.
pub proof fn tools_tell_what_the_store_holds(
    tool: &TaskCreate,
    store: &mut InMemoryTaskStore,
    content: String,
    r: Result<Created, ToolError>,
)
    requires
        call_ensures(TaskCreate::execute, (tool, store, content), r),
    ensures
        r is Ok ==> {
            let n = old(store)@.len() as int;
            &&& final(store)@.len() == n + 1
            &&& final(store)@[n].id == r->Ok_0.task_id@
            &&& final(store)@[n].content == content@
            &&& final(store)@[n].status == r->Ok_0.status
            &&& r->Ok_0.status is Pending
            &&& final(store)@.take(n) == old(store)@
        },
        r is Err ==> final(store)@ == old(store)@ && r->Err_0 is InvalidInput,
{
    if r is Ok {
        assert(final(store)@.take(old(store)@.len() as int) == old(store)@);
    }
}

/// Each task has a row of its own, in order: its id, its state and its text.
pub proof fn each_task_has_its_row(tool: &TaskList, tasks: &Vec<Task>, r: RenderIntent)
    requires
        call_ensures(TaskList::render_output, (tool, tasks), r),
    ensures
        tasks@.len() == 0 ==> r is Json,
        tasks@.len() > 0 ==> r is Table,
        r matches RenderIntent::Table { headers, rows } ==> {
            &&& headers@.len() == 3
            &&& headers@[0]@ == "id"@ && headers@[1]@ == "status"@ && headers@[2]@ == "content"@
            &&& rows@.len() == tasks@.len()
            &&& forall|i: int|
                0 <= i < rows@.len() ==> {
                    let row = #[trigger] rows@[i]@;
                    &&& row.len() == 3
                    &&& row[0]@ == tasks@[i].id@
                    &&& row[1]@ == tasks@[i].status.name()
                    &&& row[2]@ == tasks@[i].content@
                }
        },
{
    if let RenderIntent::Table { headers, rows } = r {
        let h = views(headers@);
        assert(h.len() == headers@.len());
        assert(h[0] == headers@[0]@ && h[1] == headers@[1]@ && h[2] == headers@[2]@);
        let v = table_views(rows@);
        assert(v.len() == rows@.len());
        assert forall|i: int| 0 <= i < rows@.len() implies {
            let row = #[trigger] rows@[i]@;
            &&& row.len() == 3
            &&& row[0]@ == tasks@[i].id@
            &&& row[1]@ == tasks@[i].status.name()
            &&& row[2]@ == tasks@[i].content@
        } by {
            let row = rows@[i]@;
            assert(v[i] == views(row));
            assert(v[i] == seq![tasks@[i]@.id, tasks@[i]@.status.name(), tasks@[i]@.content]);
            assert(views(row)[0] == row[0]@ && views(row)[1] == row[1]@ && views(row)[2]
                == row[2]@);
        }
    }
}

/// The tool updates as the store does: the one task, with all that is asked
/// for, and tells it as it is afterwards; a refused update changes nothing.
pub proof fn tool_updates_the_one_task(
    tool: &TaskUpdate,
    store: &mut InMemoryTaskStore,
    id: String,
    patch: TaskPatch,
    r: Result<Task, ToolError>,
    i: int,
)
    requires
        call_ensures(TaskUpdate::execute, (tool, store, id, patch), r),
        0 <= i < old(store)@.len(),
        old(store)@[i].id == id@,
        forall|j: int| 0 <= j < i ==> (#[trigger] old(store)@[j]).id != id@,
    ensures
        r is Err ==> final(store)@ == old(store)@,
        r is Ok ==> {
            let a = old(store)@[i];
            let b = final(store)@[i];
            &&& final(store)@.len() == old(store)@.len()
            &&& r->Ok_0@ == b
            &&& b.id == a.id && b.content == a.content && b.created_at == a.created_at
            &&& patch.status is Some ==> b.status == patch.status->0
            &&& patch.status is None ==> b.status == a.status
            &&& patch.summary is Some ==> b.summary == Some(patch.summary->0@)
            &&& patch.summary is None ==> b.summary == a.summary
            &&& forall|j: int|
                0 <= j < old(store)@.len() && j != i ==> #[trigger] final(store)@[j] == old(store)@[j]
        },
{
    let t = old(store)@;
    lemma_position(t, id@);
    let k = position_of(t, id@)->0;
    if k < i {
        assert(t[k].id != id@);
    } else if i < k {
        assert(t[i].id != id@);
    }
}

/// The tool lists what the store lists.
pub proof fn tool_lists_what_the_store_lists(
    tool: &TaskList,
    store: &InMemoryTaskStore,
    status: Option<TaskStatus>,
    listed: Vec<Task>,
    r: Vec<Task>,
)
    requires
        call_ensures(TaskList::execute, (tool, store, status), r),
        call_ensures(InMemoryTaskStore::list, (store, status), listed),
    ensures
        task_views(r@) == task_views(listed@),
{
}

} // verus!
