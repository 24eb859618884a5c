//! The task store: creating, updating and listing tasks.

use vstd::prelude::*;
use vstd::string::*;
use crate::ids::{fresh_id, is_id, unix_now};
use crate::task::cycle::{
    deadlocked, find_task, has_cycle, is_deadlock, known, lemma_position, position_of, precedes,
};
use crate::task::model::{
    copy_optional, copy_strings, opt_views, task_views, Task, TaskPatch, TaskStatus, TaskView,
};
use crate::text::chars::{is_space, to_chars};
use crate::text::pick::{lemma_picks_none, lemma_picks_step, picks};
use crate::text::search::{blank, is_blank};
use crate::text::split::{opt_view, views};
use crate::tool::{ToolError, ToolErrorView};

verus! {

/// `base` followed by the ids of `extra` that do not stand before, in order.
pub open spec fn merged(base: Seq<Seq<char>>, extra: Seq<Seq<char>>) -> Seq<Seq<char>>
    decreases extra.len(),
{
    if extra.len() == 0 {
        base
    } else {
        let m = merged(base, extra.drop_last());
        if m.contains(extra.last()) {
            m
        } else {
            m.push(extra.last())
        }
    }
}

/// A merge holds the ids of both lists and no others, and begins with `base`.
pub proof fn merged_holds_both(base: Seq<Seq<char>>, extra: Seq<Seq<char>>)
    ensures
        forall|x: Seq<char>| #[trigger]
            merged(base, extra).contains(x) == (base.contains(x) || extra.contains(x)),
        merged(base, extra).len() >= base.len(),
        merged(base, extra).take(base.len() as int) == base,
    decreases extra.len(),
{
    let m = merged(base, extra);
    if extra.len() == 0 {
        assert(forall|x: Seq<char>| !extra.contains(x));
        assert(base.take(base.len() as int) == base);
    } else {
        let m0 = merged(base, extra.drop_last());
        merged_holds_both(base, extra.drop_last());
        assert forall|x: Seq<char>| #[trigger]
            m.contains(x) == (base.contains(x) || extra.contains(x)) by {
            assert(m0.contains(x) == (base.contains(x) || extra.drop_last().contains(x)));
            if extra.drop_last().contains(x) {
                let i = choose|i: int|
                    0 <= i < extra.drop_last().len() && extra.drop_last()[i] == x;
                assert(extra[i] == x);
            }
            if extra.contains(x) && x != extra.last() {
                let i = choose|i: int| 0 <= i < extra.len() && extra[i] == x;
                assert(extra.drop_last()[i] == x);
            }
            if x == extra.last() {
                assert(extra[extra.len() - 1] == x);
                if !m0.contains(x) {
                    assert(m[m0.len() as int] == x);
                }
            }
            if m0.contains(x) {
                let i = choose|i: int| 0 <= i < m0.len() && m0[i] == x;
                assert(m[i] == x);
            }
            if m.contains(x) && x != extra.last() {
                let i = choose|i: int| 0 <= i < m.len() && m[i] == x;
                assert(m0[i] == x);
            }
        }
        assert(m.take(base.len() as int) == m0.take(base.len() as int));
    }
}

/// A merge keeps a list without repetitions free of them.
pub proof fn merged_without_repetition(base: Seq<Seq<char>>, extra: Seq<Seq<char>>)
    requires
        base.no_duplicates(),
    ensures
        merged(base, extra).no_duplicates(),
    decreases extra.len(),
{
    if extra.len() > 0 {
        merged_without_repetition(base, extra.drop_last());
    }
}

/// Merging the same ids once more changes nothing.
pub proof fn merging_again_changes_nothing(base: Seq<Seq<char>>, extra: Seq<Seq<char>>)
    ensures
        merged(merged(base, extra), extra) == merged(base, extra),
{
    merged_holds_both(base, extra);
    lemma_merge_known(merged(base, extra), extra);
}

/// Merging ids that are all there changes nothing.
proof fn lemma_merge_known(base: Seq<Seq<char>>, extra: Seq<Seq<char>>)
    requires
        forall|x: Seq<char>| extra.contains(x) ==> #[trigger] base.contains(x),
    ensures
        merged(base, extra) == base,
    decreases extra.len(),
{
    if extra.len() > 0 {
        assert forall|x: Seq<char>| extra.drop_last().contains(x) implies #[trigger] base.contains(
            x,
        ) by {
            let i = choose|i: int| 0 <= i < extra.drop_last().len() && extra.drop_last()[i] == x;
            assert(extra[i] == x);
        }
        lemma_merge_known(base, extra.drop_last());
        assert(extra[extra.len() - 1] == extra.last());
        assert(extra.contains(extra.last()));
    }
}

/// Whether the list holds the id.
fn holds(list: &Vec<String>, id: &String) -> (r: bool)
    ensures
        r == views(list@).contains(id@),
{
    let mut i: usize = 0;
    while i < list.len()
        invariant
            i <= list@.len(),
            forall|j: int| 0 <= j < i ==> (#[trigger] views(list@)[j]) != id@,
        decreases list@.len() - i,
    {
        assert(views(list@)[i as int] == list@[i as int]@);
        if list[i] == *id {
            return true;
        }
        i = i + 1;
    }
    false
}

/// Adds the ids of `extra` to `base`, none twice.
pub fn dedup_extend(base: &Vec<String>, extra: Option<&Vec<String>>) -> (r: Vec<String>)
    ensures
        views(r@) == merged(
            views(base@),
            match extra {
                Some(v) => views(v@),
                None => Seq::empty(),
            },
        ),
{
    let mut out = copy_strings(base);
    match extra {
        Some(ids) => {
            let mut i: usize = 0;
            assert(views(ids@).take(0) == Seq::<Seq<char>>::empty());
            while i < ids.len()
                invariant
                    i <= ids@.len(),
                    views(out@) == merged(views(base@), views(ids@).take(i as int)),
                decreases ids@.len() - i,
            {
                let ghost now = views(ids@).take(i + 1);
                let ghost out0 = views(out@);
                assert(now.drop_last() == views(ids@).take(i as int));
                assert(now.last() == ids@[i as int]@);
                if !holds(&out, &ids[i]) {
                    out.push(ids[i].clone());
                    assert(views(out@) == out0.push(ids@[i as int]@));
                }
                i = i + 1;
            }
            assert(views(ids@).take(ids@.len() as int) == views(ids@));
        },
        None => {},
    }
    out
}

/// What a patch asks for, with its texts as sequences.
pub struct PatchView {
    pub status: Option<TaskStatus>,
    pub summary: Option<Seq<char>>,
    pub add_blocks: Seq<Seq<char>>,
    pub add_blocked_by: Seq<Seq<char>>,
}

/// A patch with its texts as sequences.
pub open spec fn patch_view(p: TaskPatch) -> PatchView {
    PatchView {
        status: p.status,
        summary: opt_view(p.summary),
        add_blocks: opt_views(p.add_blocks),
        add_blocked_by: opt_views(p.add_blocked_by),
    }
}

/// The task after the patch.
pub open spec fn patched(t: TaskView, p: PatchView, now: int) -> TaskView {
    TaskView {
        id: t.id,
        content: t.content,
        status: match p.status {
            Some(s) => s,
            None => t.status,
        },
        summary: match p.summary {
            Some(s) => Some(s),
            None => t.summary,
        },
        blocks: merged(t.blocks, p.add_blocks),
        blocked_by: merged(t.blocked_by, p.add_blocked_by),
        created_at: t.created_at,
        updated_at: now,
    }
}

/// Why the store refuses to update task `id`, if it does. The reasons are
/// looked at in this order: no such task, a step the state machine does not
/// have, an end reached without a summary, a deadlock.
pub open spec fn update_refusal(tasks: Seq<TaskView>, id: Seq<char>, p: PatchView) -> Option<
    ToolErrorView,
> {
    match position_of(tasks, id) {
        None => Some(ToolErrorView::NotFound(id)),
        Some(i) => {
            let t = tasks[i];
            if p.status is Some && !t.status.may_become(p.status->0) {
                Some(
                    ToolErrorView::InvalidStateTransition(
                        "cannot transition from "@ + t.status.name() + " to "@ + p.status->0.name(),
                    ),
                )
            } else if p.status is Some && p.status->0.is_end() && p.summary is None
                && t.summary is None {
                Some(
                    ToolErrorView::InvalidInput(
                        "summary required to transition to "@ + p.status->0.name(),
                    ),
                )
            } else if deadlocked(tasks.update(i, patched(t, p, 0))) {
                Some(ToolErrorView::InvalidInput("dependency cycle detected"@))
            } else {
                None
            }
        },
    }
}

/// The tasks after an update that is not refused.
pub open spec fn after_update(
    tasks: Seq<TaskView>,
    id: Seq<char>,
    p: PatchView,
    now: int,
) -> Seq<TaskView> {
    match position_of(tasks, id) {
        Some(i) => tasks.update(i, patched(tasks[i], p, now)),
        None => tasks,
    }
}

/// The tasks in one state, in order; all tasks where no state is asked for.
pub open spec fn selected(tasks: Seq<TaskView>, filter: Option<TaskStatus>) -> Seq<TaskView>
    decreases tasks.len(),
{
    if tasks.len() == 0 {
        Seq::empty()
    } else {
        let init = selected(tasks.drop_last(), filter);
        if filter is None || tasks.last().status == filter->0 {
            init.push(tasks.last())
        } else {
            init
        }
    }
}

/// Two lists that name the same dependencies are deadlocked alike: neither
/// states, summaries nor times matter.
pub proof fn deadlock_reads_dependencies_alone(a: Seq<TaskView>, b: Seq<TaskView>)
    requires
        a.len() == b.len(),
        forall|i: int|
            0 <= i < a.len() ==> (#[trigger] a[i]).id == b[i].id && a[i].blocks == b[i].blocks
                && a[i].blocked_by == b[i].blocked_by,
    ensures
        deadlocked(a) == deadlocked(b),
{
    lemma_deadlock_carries(a, b);
    assert forall|i: int| 0 <= i < b.len() implies (#[trigger] b[i]).id == a[i].id && b[i].blocks
        == a[i].blocks && b[i].blocked_by == a[i].blocked_by by {
        assert(a[i].id == b[i].id);
    }
    lemma_deadlock_carries(b, a);
}

proof fn lemma_deadlock_carries(a: Seq<TaskView>, b: Seq<TaskView>)
    requires
        a.len() == b.len(),
        forall|i: int|
            0 <= i < a.len() ==> (#[trigger] a[i]).id == b[i].id && a[i].blocks == b[i].blocks
                && a[i].blocked_by == b[i].blocked_by,
    ensures
        deadlocked(a) ==> deadlocked(b),
{
    if deadlocked(a) {
        let p = choose|p: Seq<Seq<char>>| is_deadlock(a, p);
        assert forall|i: int| 0 <= i < p.len() implies known(
            b,
            #[trigger] p[i],
        ) by {
            assert(known(a, p[i]));
            let k = choose|k: int| 0 <= k < a.len() && (#[trigger] a[k]).id == p[i];
            assert(b[k].id == p[i]);
        }
        assert forall|i: int| 0 <= i < p.len() - 1 implies precedes(
            b,
            #[trigger] p[i],
            p[i + 1],
        ) by {
            let x = p[i];
            let y = p[i + 1];
            assert(precedes(a, x, y));
            if exists|k: int|
                0 <= k < a.len() && (#[trigger] a[k]).id == x && a[k].blocks.contains(y) {
                let k = choose|k: int|
                    0 <= k < a.len() && (#[trigger] a[k]).id == x && a[k].blocks.contains(y);
                assert(b[k].id == x && b[k].blocks.contains(y));
            } else {
                let k = choose|k: int|
                    0 <= k < a.len() && (#[trigger] a[k]).id == y && a[k].blocked_by.contains(x);
                assert(b[k].id == y && b[k].blocked_by.contains(x));
            }
        }
        assert(is_deadlock(b, p));
    }
}

/// Tasks kept in memory.
#[derive(Debug)]
pub struct InMemoryTaskStore {
    tasks: Vec<Task>,
}

impl View for InMemoryTaskStore {
    type V = Seq<TaskView>;

    closed spec fn view(&self) -> Seq<TaskView> {
        task_views(self.tasks@)
    }
}

/// Copies the tasks.
fn copy_tasks(tasks: &Vec<Task>) -> (r: Vec<Task>)
    ensures
        task_views(r@) == task_views(tasks@),
        r@.len() == tasks@.len(),
{
    let mut out: Vec<Task> = Vec::new();
    let mut i: usize = 0;
    while i < tasks.len()
        invariant
            i <= tasks@.len(),
            out@.len() == i,
            forall|j: int| 0 <= j < i ==> (#[trigger] out@[j])@ == tasks@[j]@,
        decreases tasks@.len() - i,
    {
        out.push(tasks[i].copy());
        i = i + 1;
    }
    assert(task_views(out@) == task_views(tasks@));
    out
}

impl Default for InMemoryTaskStore {
    fn default() -> (r: Self)
        ensures
            r@ == Seq::<TaskView>::empty(),
    {
        InMemoryTaskStore::new()
    }
}

impl InMemoryTaskStore {
    /// An empty store.
    pub fn new() -> (r: Self)
        ensures
            r@ == Seq::<TaskView>::empty(),
    {
        let r = InMemoryTaskStore { tasks: Vec::new() };
        assert(r@ == Seq::<TaskView>::empty());
        r
    }

    /// Adds a waiting task under a given id; text that is blank is refused.
    pub fn create_with_id(&mut self, content: String, id: String, now: i128) -> (r: Result<
        Task,
        ToolError,
    >)
        ensures
            is_blank(content@) ==> r is Err && r->Err_0@ == ToolErrorView::InvalidInput(
                "content must not be empty"@,
            ) && final(self)@ == old(self)@,
            !is_blank(content@) ==> r is Ok && r->Ok_0@ == (TaskView {
                id: id@,
                content: content@,
                status: TaskStatus::Pending,
                summary: None,
                blocks: Seq::empty(),
                blocked_by: Seq::empty(),
                created_at: now as int,
                updated_at: now as int,
            }) && final(self)@ == old(self)@.push(r->Ok_0@),
    {
        let text = to_chars(content.as_str());
        if blank(text.as_slice()) {
            return Err(ToolError::InvalidInput("content must not be empty".to_owned()));
        }
        let task = Task::new(id, content, now);
        let copy = task.copy();
        self.tasks.push(task);
        assert(self@ == old(self)@.push(copy@));
        Ok(copy)
    }

    /// Adds a waiting task under a fresh id; text that is blank is refused.
    pub fn create(&mut self, content: String) -> (r: Result<Task, ToolError>)
        ensures
            is_blank(content@) ==> r is Err && r->Err_0@ == ToolErrorView::InvalidInput(
                "content must not be empty"@,
            ) && final(self)@ == old(self)@,
            !is_blank(content@) ==> {
                &&& r is Ok
                &&& is_id(r->Ok_0@.id)
                &&& r->Ok_0@ == (TaskView {
                    id: r->Ok_0@.id,
                    content: content@,
                    status: TaskStatus::Pending,
                    summary: None,
                    blocks: Seq::empty(),
                    blocked_by: Seq::empty(),
                    created_at: r->Ok_0@.updated_at,
                    updated_at: r->Ok_0@.updated_at,
                })
                &&& final(self)@ == old(self)@.push(r->Ok_0@)
            },
    {
        let id = fresh_id();
        let now: i128 = unix_now();
        self.create_with_id(content, id, now)
    }

    /// Updates task `task_id` at a given time: all that the patch asks for,
    /// or nothing.
    pub fn update_at(&mut self, task_id: String, patch: TaskPatch, now: i128) -> (r: Result<
        Task,
        ToolError,
    >)
        ensures
            match update_refusal(old(self)@, task_id@, patch_view(patch)) {
                Some(e) => r is Err && r->Err_0@ == e && final(self)@ == old(self)@,
                None => {
                    &&& r is Ok
                    &&& final(self)@ == after_update(
                        old(self)@,
                        task_id@,
                        patch_view(patch),
                        now as int,
                    )
                    &&& r->Ok_0@ == final(self)@[position_of(old(self)@, task_id@)->0]
                },
            },
    {
        let ghost t = self@;
        let ghost pv = patch_view(patch);
        proof {
            lemma_position(t, task_id@);
        }
        let idx: usize = match find_task(&self.tasks, &task_id) {
            Some(i) => i,
            None => {
                return Err(ToolError::NotFound(task_id));
            },
        };
        assert(t[idx as int] == self.tasks@[idx as int]@);
        if let Some(target) = patch.status {
            if !self.tasks[idx].status.can_transition_to(target) {
                let mut msg = "cannot transition from ".to_owned();
                msg.append(self.tasks[idx].status.as_str());
                msg.append(" to ");
                msg.append(target.as_str());
                return Err(ToolError::InvalidStateTransition(msg));
            }
            let ends = match target {
                TaskStatus::Completed => true,
                TaskStatus::Cancelled => true,
                _ => false,
            };
            if ends && patch.summary.is_none() && self.tasks[idx].summary.is_none() {
                let mut msg = "summary required to transition to ".to_owned();
                msg.append(target.as_str());
                return Err(ToolError::InvalidInput(msg));
            }
        }
        let new_blocks = dedup_extend(&self.tasks[idx].blocks, patch.add_blocks.as_ref());
        let new_blocked_by = dedup_extend(
            &self.tasks[idx].blocked_by,
            patch.add_blocked_by.as_ref(),
        );
        let mut prospective = copy_tasks(&self.tasks);
        let old_task = &self.tasks[idx];
        let status = match patch.status {
            Some(s) => s,
            None => old_task.status,
        };
        let summary = match patch.summary {
            Some(s) => Some(s),
            None => copy_optional(&old_task.summary),
        };
        let updated = Task {
            id: old_task.id.clone(),
            content: old_task.content.clone(),
            status,
            summary,
            blocks: new_blocks,
            blocked_by: new_blocked_by,
            created_at: old_task.created_at,
            updated_at: now,
        };
        let copy = updated.copy();
        assert(updated@ == patched(t[idx as int], pv, now as int));
        prospective.set(idx, updated);
        proof {
            let done = t.update(idx as int, patched(t[idx as int], pv, now as int));
            let trial = t.update(idx as int, patched(t[idx as int], pv, 0));
            assert(task_views(prospective@) == done);
            deadlock_reads_dependencies_alone(done, trial);
        }
        if has_cycle(&prospective) {
            return Err(ToolError::InvalidInput("dependency cycle detected".to_owned()));
        }
        self.tasks = prospective;
        Ok(copy)
    }

    /// Updates task `task_id`: all that the patch asks for, or nothing.
    pub fn update(&mut self, task_id: String, patch: TaskPatch) -> (r: Result<Task, ToolError>)
        ensures
            match update_refusal(old(self)@, task_id@, patch_view(patch)) {
                Some(e) => r is Err && r->Err_0@ == e && final(self)@ == old(self)@,
                None => {
                    &&& r is Ok
                    &&& final(self)@ == after_update(
                        old(self)@,
                        task_id@,
                        patch_view(patch),
                        r->Ok_0@.updated_at,
                    )
                    &&& r->Ok_0@ == final(self)@[position_of(old(self)@, task_id@)->0]
                },
            },
    {
        proof {
            lemma_position(self@, task_id@);
        }
        let now: i128 = unix_now();
        self.update_at(task_id, patch, now)
    }

    /// The tasks in one state, in the order of their creation; all tasks
    /// where no state is asked for.
    pub fn list(&self, filter: Option<TaskStatus>) -> (r: Vec<Task>)
        ensures
            task_views(r@) == selected(self@, filter),
    {
        let mut out: Vec<Task> = Vec::new();
        let mut i: usize = 0;
        assert(self@.take(0) == Seq::<TaskView>::empty());
        assert(task_views(out@) == Seq::<TaskView>::empty());
        while i < self.tasks.len()
            invariant
                i <= self.tasks@.len(),
                task_views(out@) == selected(self@.take(i as int), filter),
            decreases self.tasks@.len() - i,
        {
            let ghost now = self@.take(i + 1);
            let ghost out0 = task_views(out@);
            assert(now.drop_last() == self@.take(i as int));
            assert(now.last() == self.tasks@[i as int]@);
            let wanted = match filter {
                Some(s) => self.tasks[i].status == s,
                None => true,
            };
            if wanted {
                out.push(self.tasks[i].copy());
                assert(task_views(out@) == out0.push(now.last()));
            }
            i = i + 1;
        }
        assert(self@.take(self@.len() as int) == self@);
        out
    }
}

/// Whatever an accepted update does, the tasks are not deadlocked after it.
pub proof fn update_leaves_no_deadlock(
    tasks: Seq<TaskView>,
    id: Seq<char>,
    p: PatchView,
    now: int,
)
    ensures
        update_refusal(tasks, id, p) is None ==> !deadlocked(after_update(tasks, id, p, now)),
{
    if update_refusal(tasks, id, p) is None {
        lemma_position(tasks, id);
        let i = position_of(tasks, id)->0;
        deadlock_reads_dependencies_alone(
            tasks.update(i, patched(tasks[i], p, 0)),
            tasks.update(i, patched(tasks[i], p, now)),
        );
    }
}

/// An update leaves every other task as it was, and keeps the id and the
/// text of its own.
pub proof fn update_touches_one_task(tasks: Seq<TaskView>, id: Seq<char>, p: PatchView, now: int)
    ensures
        after_update(tasks, id, p, now).len() == tasks.len(),
        forall|i: int|
            0 <= i < tasks.len() ==> {
                let after = #[trigger] after_update(tasks, id, p, now)[i];
                &&& after.id == tasks[i].id
                &&& after.content == tasks[i].content
                &&& tasks[i].id != id ==> after == tasks[i]
            },
{
    lemma_position(tasks, id);
}

/// An accepted update that names a state takes one step of the state machine,
/// and a task that has come to an end accepts no other state.
pub proof fn update_takes_one_step(tasks: Seq<TaskView>, id: Seq<char>, p: PatchView)
    requires
        update_refusal(tasks, id, p) is None,
        p.status is Some,
    ensures
        tasks[position_of(tasks, id)->0].status.may_become(p.status->0),
        !tasks[position_of(tasks, id)->0].status.is_end(),
{
}

/// A task that comes to an end has a summary.
pub proof fn ended_task_has_summary(tasks: Seq<TaskView>, id: Seq<char>, p: PatchView, now: int)
    requires
        update_refusal(tasks, id, p) is None,
        p.status is Some,
        p.status->0.is_end(),
    ensures
        after_update(tasks, id, p, now)[position_of(tasks, id)->0].summary is Some,
{
    lemma_position(tasks, id);
}

/// Adding dependencies that a task already has changes no dependency.
pub proof fn adding_dependencies_again_changes_none(t: TaskView, p: PatchView, now: int)
    ensures
        patched(patched(t, p, now), p, now).blocks == patched(t, p, now).blocks,
        patched(patched(t, p, now), p, now).blocked_by == patched(t, p, now).blocked_by,
{
    merging_again_changes_nothing(t.blocks, p.add_blocks);
    merging_again_changes_nothing(t.blocked_by, p.add_blocked_by);
}

/// A task that would wait for itself is refused.
pub proof fn waiting_for_oneself_is_refused(tasks: Seq<TaskView>, id: Seq<char>, p: PatchView)
    requires
        position_of(tasks, id) is Some,
        p.add_blocked_by.contains(id) || p.add_blocks.contains(id),
    ensures
        update_refusal(tasks, id, p) is Some,
{
    lemma_position(tasks, id);
    let i = position_of(tasks, id)->0;
    let after = tasks.update(i, patched(tasks[i], p, 0));
    merged_holds_both(tasks[i].blocks, p.add_blocks);
    merged_holds_both(tasks[i].blocked_by, p.add_blocked_by);
    assert(after[i].id == id);
    let round = seq![id, id];
    if p.add_blocked_by.contains(id) {
        assert(after[i].blocked_by.contains(id));
    } else {
        assert(after[i].blocks.contains(id));
    }
    assert(precedes(after, round[0], round[1]));
    assert(known(after, id));
    assert(is_deadlock(after, round));
}

proof fn lemma_merged_picks(base: Seq<Seq<char>>, extra: Seq<Seq<char>>, picked: Seq<int>)
    requires
        picks(
            picked,
            extra.len() as int,
            |i: int|
                !base.contains(extra[i]) && forall|j: int| 0 <= j < i ==> #[trigger] extra[j] != extra[i],
        ),
    ensures
        merged(base, extra) == base + Seq::new(picked.len(), |k: int| extra[picked[k]]),
    decreases extra.len(),
{
    let n = extra.len() as int;
    let wanted = |i: int|
        !base.contains(extra[i]) && forall|j: int| 0 <= j < i ==> #[trigger] extra[j] != extra[i];
    if n == 0 {
        lemma_picks_none(picked, n, wanted);
        assert(Seq::new(picked.len(), |k: int| extra[picked[k]]) == Seq::<Seq<char>>::empty());
        assert(base + Seq::<Seq<char>>::empty() == base);
    } else {
        lemma_picks_step(picked, n, wanted);
        let init = extra.drop_last();
        let fewer = if wanted(n - 1) {
            picked.drop_last()
        } else {
            picked
        };
        let narrow = |i: int|
            !base.contains(init[i]) && forall|j: int| 0 <= j < i ==> #[trigger] init[j] != init[i];
        assert forall|i: int| 0 <= i < n - 1 implies #[trigger] narrow(i) == wanted(i) by {
            assert(init[i] == extra[i]);
            if narrow(i) {
                assert forall|j: int| 0 <= j < i implies #[trigger] extra[j] != extra[i] by {
                    assert(init[j] == extra[j]);
                }
            }
            if wanted(i) {
                assert forall|j: int| 0 <= j < i implies #[trigger] init[j] != init[i] by {
                    assert(init[j] == extra[j]);
                }
            }
        }
        assert(picks(fewer, n - 1, narrow)) by {
            assert(picks(fewer, n - 1, wanted));
            assert forall|i: int| 0 <= i < n - 1 && #[trigger] narrow(i) implies fewer.contains(
                i,
            ) by {
                assert(wanted(i));
            }
            assert forall|a: int| 0 <= a < fewer.len() implies 0 <= #[trigger] fewer[a] < n - 1
                && narrow(fewer[a]) by {
                assert(wanted(fewer[a]));
            }
        }
        lemma_merged_picks(base, init, fewer);
        merged_holds_both(base, init);
        let m = merged(base, init);
        let x = extra.last();
        assert(m.contains(x) == (base.contains(x) || init.contains(x)));
        if init.contains(x) {
            let j = choose|j: int| 0 <= j < init.len() && init[j] == x;
            assert(extra[j] == extra[n - 1]);
            assert(!wanted(n - 1));
        } else if !base.contains(x) {
            assert forall|j: int| 0 <= j < n - 1 implies #[trigger] extra[j] != extra[n - 1] by {
                assert(init[j] == extra[j]);
            }
            assert(wanted(n - 1));
        }
        assert forall|k: int| 0 <= k < fewer.len() implies #[trigger] init[fewer[k]]
            == extra[fewer[k]] by {
            assert(0 <= fewer[k] < n - 1);
        }
        assert(merged(base, extra) == base + Seq::new(picked.len(), |k: int| extra[picked[k]]));
    }
}

/// Ids are added behind those there are, in order, each that is not there yet
/// once.
pub proof fn new_ids_are_added_behind(
    base: &Vec<String>,
    extra: &Vec<String>,
    r: Vec<String>,
    picked: Seq<int>,
)
    requires
        call_ensures(dedup_extend, (base, Some(extra)), r),
        picks(
            picked,
            extra@.len() as int,
            |i: int|
                !views(base@).contains(views(extra@)[i]) && forall|j: int|
                    0 <= j < i ==> #[trigger] views(extra@)[j] != views(extra@)[i],
        ),
    ensures
        r@.len() == base@.len() + picked.len(),
        forall|i: int| 0 <= i < base@.len() ==> (#[trigger] r@[i])@ == base@[i]@,
        forall|k: int|
            0 <= k < picked.len() ==> r@[base@.len() + k]@ == extra@[#[trigger] picked[k]]@,
{
    lemma_merged_picks(views(base@), views(extra@), picked);
    let all = views(r@);
    assert(all.len() == r@.len());
    assert forall|i: int| 0 <= i < base@.len() implies (#[trigger] r@[i])@ == base@[i]@ by {
        assert(all[i] == views(base@)[i]);
    }
    assert forall|k: int| 0 <= k < picked.len() implies r@[base@.len() + k]@
        == extra@[#[trigger] picked[k]]@ by {
        assert(all[base@.len() + k] == views(extra@)[picked[k]]);
        assert(0 <= picked[k] < extra@.len());
    }
}

/// An update does all that it asks for to the one task, and nothing else: the
/// task has the state and the summary of the patch, or its own where the patch
/// has none, waits for and holds up also those the patch names, and keeps its
/// id, its text and its birth; every other task stays.
pub proof fn update_does_what_it_asks_for(
    store: &mut InMemoryTaskStore,
    id: String,
    patch: TaskPatch,
    now: i128,
    r: Result<Task, ToolError>,
    i: int,
)
    requires
        call_ensures(InMemoryTaskStore::update_at, (store, id, patch, now), r),
        r is Ok,
        0 <= i < old(store)@.len(),
        old(store)@[i].id == id@,
        forall|j: int| 0 <= j < i ==> (#[trigger] old(store)@[j]).id != id@,
    ensures
        final(store)@.len() == old(store)@.len(),
        forall|j: int|
            0 <= j < old(store)@.len() && j != i ==> #[trigger] final(store)@[j] == old(store)@[j],
        r->Ok_0@ == final(store)@[i],
        ({
            let a = old(store)@[i];
            let b = final(store)@[i];
            &&& b.id == a.id && b.content == a.content && b.created_at == a.created_at
            &&& b.updated_at == now
            &&& b.status == if patch.status is Some {
                patch.status->0
            } else {
                a.status
            }
            &&& patch.summary is Some ==> b.summary == Some(patch.summary->0@)
            &&& patch.summary is None ==> b.summary == a.summary
            &&& forall|x: Seq<char>| #[trigger]
                b.blocks.contains(x) == (a.blocks.contains(x) || (patch.add_blocks is Some
                    && views(patch.add_blocks->0@).contains(x)))
            &&& forall|x: Seq<char>| #[trigger]
                b.blocked_by.contains(x) == (a.blocked_by.contains(x) || (
                patch.add_blocked_by is Some && views(patch.add_blocked_by->0@).contains(x)))
            &&& b.blocks.len() >= a.blocks.len() && b.blocks.take(a.blocks.len() as int)
                == a.blocks
            &&& b.blocked_by.len() >= a.blocked_by.len() && b.blocked_by.take(
                a.blocked_by.len() as int,
            ) == a.blocked_by
        }),
{
    let t = old(store)@;
    lemma_position(t, id@);
    let k = position_of(t, id@)->0;
    if k != i {
        if k < i {
            assert(t[k].id != id@);
        } else {
            assert(t[i].id != id@);
        }
    }
    let p = patch_view(patch);
    merged_holds_both(t[i].blocks, p.add_blocks);
    merged_holds_both(t[i].blocked_by, p.add_blocked_by);
}

/// An update of a task that is not there is refused; a refused update changes
/// nothing.
pub proof fn refused_update_changes_nothing(
    store: &mut InMemoryTaskStore,
    id: String,
    patch: TaskPatch,
    now: i128,
    r: Result<Task, ToolError>,
)
    requires
        call_ensures(InMemoryTaskStore::update_at, (store, id, patch, now), r),
    ensures
        r is Err ==> final(store)@ == old(store)@,
        (forall|j: int| 0 <= j < old(store)@.len() ==> (#[trigger] old(store)@[j]).id != id@) ==> r
            is Err && r->Err_0@ == ToolErrorView::NotFound(id@),
{
    lemma_position(old(store)@, id@);
}

/// An update of a task is refused exactly where the state it names does not
/// follow the task's own, where the task would end without a summary, or where
/// tasks would then wait for each other in a round.
pub proof fn update_is_refused_for_a_reason(
    store: &mut InMemoryTaskStore,
    id: String,
    patch: TaskPatch,
    now: i128,
    r: Result<Task, ToolError>,
    i: int,
    changed: TaskView,
)
    requires
        call_ensures(InMemoryTaskStore::update_at, (store, id, patch, now), r),
        0 <= i < old(store)@.len(),
        old(store)@[i].id == id@,
        forall|j: int| 0 <= j < i ==> (#[trigger] old(store)@[j]).id != id@,
        changed.id == id@,
        changed.blocks == merged(old(store)@[i].blocks, opt_views(patch.add_blocks)),
        changed.blocked_by == merged(old(store)@[i].blocked_by, opt_views(patch.add_blocked_by)),
    ensures
        ({
            let a = old(store)@[i];
            let s = patch.status;
            let step = s is None || (a.status is Pending && s->0 is InProgress) || (
            a.status is InProgress && (s->0 is Completed || s->0 is Cancelled));
            let told = s is None || s->0 is Pending || s->0 is InProgress || patch.summary is Some
                || a.summary is Some;
            let round = deadlocked(old(store)@.update(i, changed));
            &&& r is Ok == (step && told && !round)
            &&& !step ==> r->Err_0@ == ToolErrorView::InvalidStateTransition(
                "cannot transition from "@ + a.status.name() + " to "@ + s->0.name(),
            )
            &&& step && !told ==> r->Err_0@ == ToolErrorView::InvalidInput(
                "summary required to transition to "@ + s->0.name(),
            )
            &&& step && (!told || round) ==> r->Err_0 is InvalidInput
        }),
{
    let t = old(store)@;
    let p = patch_view(patch);
    lemma_position(t, id@);
    let k = position_of(t, id@)->0;
    if k < i {
        assert(t[k].id != id@);
    } else if i < k {
        assert(t[i].id != id@);
    }
    deadlock_reads_dependencies_alone(
        t.update(i, patched(t[i], p, 0)),
        t.update(i, changed),
    );
}

/// A task whose text is not blank is added at the end, waiting; blank text is
/// refused and changes nothing.
pub proof fn created_task_is_listed_last(
    store: &mut InMemoryTaskStore,
    content: String,
    id: String,
    now: i128,
    r: Result<Task, ToolError>,
)
    requires
        call_ensures(InMemoryTaskStore::create_with_id, (store, content, id, now), r),
    ensures
        r is Err == (forall|i: int| 0 <= i < content@.len() ==> is_space(#[trigger] content@[i])),
        r is Err ==> final(store)@ == old(store)@,
        r is Ok ==> {
            let n = old(store)@.len() as int;
            &&& final(store)@.len() == n + 1
            &&& final(store)@.take(n) == old(store)@
            &&& final(store)@[n] == r->Ok_0@
            &&& r->Ok_0.id@ == id@ && r->Ok_0.content@ == content@
            &&& r->Ok_0.status is Pending
            &&& r->Ok_0.created_at == now && r->Ok_0.updated_at == now
            &&& r->Ok_0@.blocks.len() == 0 && r->Ok_0@.blocked_by.len() == 0
            &&& r->Ok_0.summary is None
        },
{
    if r is Ok {
        assert(final(store)@.take(old(store)@.len() as int) == old(store)@);
        assert(r->Ok_0@.summary is None);
    }
}

proof fn lemma_selected_picks(
    tasks: Seq<TaskView>,
    filter: Option<TaskStatus>,
    picked: Seq<int>,
)
    requires
        picks(
            picked,
            tasks.len() as int,
            |i: int| filter is None || tasks[i].status == filter->0,
        ),
    ensures
        selected(tasks, filter) == Seq::new(picked.len(), |k: int| tasks[picked[k]]),
    decreases tasks.len(),
{
    let n = tasks.len() as int;
    let wanted = |i: int| filter is None || tasks[i].status == filter->0;
    if n == 0 {
        lemma_picks_none(picked, n, wanted);
        assert(Seq::new(picked.len(), |k: int| tasks[picked[k]]) == Seq::<TaskView>::empty());
    } else {
        lemma_picks_step(picked, n, wanted);
        let init = tasks.drop_last();
        let fewer = if wanted(n - 1) {
            picked.drop_last()
        } else {
            picked
        };
        let narrow = |i: int| filter is None || init[i].status == filter->0;
        assert(picks(fewer, n - 1, narrow)) by {
            assert(picks(fewer, n - 1, wanted));
            assert forall|i: int| 0 <= i < n - 1 && #[trigger] narrow(i) implies fewer.contains(
                i,
            ) by {
                assert(wanted(i));
            }
            assert forall|a: int| 0 <= a < fewer.len() implies 0 <= #[trigger] fewer[a] < n - 1
                && narrow(fewer[a]) by {
                assert(wanted(fewer[a]));
            }
        }
        lemma_selected_picks(init, filter, fewer);
        assert forall|k: int| 0 <= k < fewer.len() implies #[trigger] init[fewer[k]]
            == tasks[fewer[k]] by {
            assert(0 <= fewer[k] < n - 1);
        }
        assert(selected(tasks, filter) == Seq::new(picked.len(), |k: int| tasks[picked[k]]));
    }
}

/// The tasks in a state are listed, all of them and no other, in the order in
/// which they were created; without a state, all tasks.
pub proof fn list_holds_the_tasks_in_a_state(
    store: &InMemoryTaskStore,
    filter: Option<TaskStatus>,
    r: Vec<Task>,
    picked: Seq<int>,
)
    requires
        call_ensures(InMemoryTaskStore::list, (store, filter), r),
        picks(
            picked,
            store@.len() as int,
            |i: int| filter is None || store@[i].status == filter->0,
        ),
    ensures
        r@.len() == picked.len(),
        forall|k: int| 0 <= k < picked.len() ==> (#[trigger] r@[k])@ == store@[picked[k]],
{
    lemma_selected_picks(store@, filter, picked);
    assert(task_views(r@).len() == r@.len());
    assert forall|k: int| 0 <= k < picked.len() implies (#[trigger] r@[k])@
        == store@[picked[k]] by {
        assert(task_views(r@)[k] == r@[k]@);
    }
}

} // verus!
