//! Cycles in the dependencies between tasks.

use vstd::prelude::*;
use vstd::string::*;
use crate::task::graph::{cyclic, edge, graph_has_cycle, is_cycle, is_walk, rows, well_formed};
use crate::task::model::{task_views, Task, TaskView};

verus! {

/// Some task has this id.
pub open spec fn known(tasks: Seq<TaskView>, id: Seq<char>) -> bool {
    exists|i: int| 0 <= i < tasks.len() && (#[trigger] tasks[i]).id == id
}

/// Task `a` has to be done before task `b`: `a` names `b` among the tasks it
/// blocks, or `b` names `a` among those that block it.
pub open spec fn precedes(tasks: Seq<TaskView>, a: Seq<char>, b: Seq<char>) -> bool {
    ||| exists|i: int|
        0 <= i < tasks.len() && (#[trigger] tasks[i]).id == a && tasks[i].blocks.contains(b)
    ||| exists|i: int|
        0 <= i < tasks.len() && (#[trigger] tasks[i]).id == b && tasks[i].blocked_by.contains(a)
}

/// A round of known tasks, each of which has to be done before the next.
pub open spec fn is_deadlock(tasks: Seq<TaskView>, p: Seq<Seq<char>>) -> bool {
    &&& p.len() >= 2
    &&& p[0] == p.last()
    &&& forall|i: int| 0 <= i < p.len() ==> known(tasks, #[trigger] p[i])
    &&& forall|i: int| 0 <= i < p.len() - 1 ==> precedes(tasks, #[trigger] p[i], p[i + 1])
}

/// Some tasks wait for each other in a round.
pub open spec fn deadlocked(tasks: Seq<TaskView>) -> bool {
    exists|p: Seq<Seq<char>>| is_deadlock(tasks, p)
}

/// The first task with this id.
pub open spec fn position_of(tasks: Seq<TaskView>, id: Seq<char>) -> Option<int>
    decreases tasks.len(),
{
    if tasks.len() == 0 {
        None
    } else {
        match position_of(tasks.drop_last(), id) {
            Some(i) => Some(i),
            None => if tasks.last().id == id {
                Some(tasks.len() - 1)
            } else {
                None
            },
        }
    }
}

/// `position_of` names the first task with the id, if there is one.
pub proof fn lemma_position(tasks: Seq<TaskView>, id: Seq<char>)
    ensures
        match position_of(tasks, id) {
            Some(i) => 0 <= i < tasks.len() && tasks[i].id == id && forall|j: int|
                0 <= j < i ==> (#[trigger] tasks[j]).id != id,
            None => forall|j: int| 0 <= j < tasks.len() ==> (#[trigger] tasks[j]).id != id,
        },
        position_of(tasks, id) is Some == known(tasks, id),
    decreases tasks.len(),
{
    if tasks.len() > 0 {
        let init = tasks.drop_last();
        lemma_position(init, id);
        match position_of(init, id) {
            Some(i) => {
                assert(tasks[i].id == id);
                assert forall|j: int| 0 <= j < i implies (#[trigger] tasks[j]).id != id by {
                    assert(init[j] == tasks[j]);
                }
            },
            None => {
                assert forall|j: int| 0 <= j < tasks.len() - 1 implies (#[trigger] tasks[j]).id
                    != id by {
                    assert(init[j] == tasks[j]);
                }
                if tasks.last().id == id {
                    assert(tasks[tasks.len() - 1].id == id);
                }
            },
        }
    }
}

/// The index of the first task with the given id.
pub fn find_task(tasks: &Vec<Task>, id: &String) -> (r: Option<usize>)
    ensures
        match r {
            Some(i) => position_of(task_views(tasks@), id@) == Some(i as int),
            None => position_of(task_views(tasks@), id@) is None,
        },
{
    proof {
        lemma_position(task_views(tasks@), id@);
    }
    let mut i: usize = 0;
    while i < tasks.len()
        invariant
            i <= tasks@.len(),
            forall|j: int| 0 <= j < i ==> (#[trigger] task_views(tasks@)[j]).id != id@,
        decreases tasks@.len() - i,
    {
        assert(task_views(tasks@)[i as int] == tasks@[i as int]@);
        if tasks[i].id == *id {
            proof {
                lemma_position(task_views(tasks@), id@);
            }
            return Some(i);
        }
        i = i + 1;
    }
    None
}

/// Row `u` of the index graph holds an edge to `v` exactly when one of the
/// first `n` tasks states it.
spec fn stated(tasks: Seq<TaskView>, n: int, u: int, v: int) -> bool {
    exists|i: int| 0 <= i < n && #[trigger] stated_by(tasks, i, u, v)
}

/// Task `i` states `u` before `v`.
spec fn stated_by(tasks: Seq<TaskView>, i: int, u: int, v: int) -> bool {
    ||| stated_blocks(tasks, i, tasks[i].blocks.len() as int, u, v)
    ||| stated_blocked_by(tasks, i, tasks[i].blocked_by.len() as int, u, v)
}

/// One of the first `k` entries of task `i`'s `blocks` states `u` before `v`.
spec fn stated_blocks(tasks: Seq<TaskView>, i: int, k: int, u: int, v: int) -> bool {
    exists|j: int|
        0 <= j < k && position_of(tasks, tasks[i].id) == Some(u) && position_of(
            tasks,
            #[trigger] tasks[i].blocks[j],
        ) == Some(v)
}

/// One of the first `k` entries of task `i`'s `blocked_by` states `u` before `v`.
spec fn stated_blocked_by(tasks: Seq<TaskView>, i: int, k: int, u: int, v: int) -> bool {
    exists|j: int|
        0 <= j < k && position_of(tasks, tasks[i].id) == Some(v) && position_of(
            tasks,
            #[trigger] tasks[i].blocked_by[j],
        ) == Some(u)
}

/// Adding `v` to the row of `u` adds exactly that edge.
proof fn lemma_add_edge(g: Seq<Seq<usize>>, h: Seq<Seq<usize>>, u: int, v: usize)
    requires
        0 <= u < g.len(),
        v < g.len(),
        well_formed(g),
        h == g.update(u, g[u].push(v)),
    ensures
        well_formed(h),
        forall|a: int, b: int| #[trigger]
            edge(h, a, b) == (edge(g, a, b) || (a == u && b == v)),
{
    assert forall|a: int, k: int| 0 <= a < h.len() && 0 <= k < h[a].len() implies (
    #[trigger] h[a][k]) < h.len() by {
        if a == u && k == g[u].len() {
        } else {
            assert(h[a][k] == g[a][k]);
        }
    }
    assert forall|a: int, b: int| #[trigger]
        edge(h, a, b) == (edge(g, a, b) || (a == u && b == v)) by {
        if edge(h, a, b) {
            let k = choose|k: int| 0 <= k < h[a].len() && #[trigger] h[a][k] == b;
            if a == u && k == g[u].len() {
            } else {
                assert(g[a][k] == b);
            }
        }
        if edge(g, a, b) {
            let k = choose|k: int| 0 <= k < g[a].len() && #[trigger] g[a][k] == b;
            assert(h[a][k] == b);
        }
        if a == u && b == v {
            assert(h[u][g[u].len() as int] == v);
        }
    }
}

/// Adds an edge to the adjacency lists.
fn add_edge(adj: &mut Vec<Vec<usize>>, u: usize, v: usize)
    requires
        u < old(adj)@.len(),
        v < old(adj)@.len(),
        well_formed(rows(old(adj)@)),
    ensures
        final(adj)@.len() == old(adj)@.len(),
        well_formed(rows(final(adj)@)),
        forall|a: int, b: int| #[trigger]
            edge(rows(final(adj)@), a, b) == (edge(rows(old(adj)@), a, b) || (a == u && b == v)),
{
    let ghost g = rows(adj@);
    adj[u].push(v);
    proof {
        assert(rows(adj@) == g.update(u as int, g[u as int].push(v)));
        lemma_add_edge(g, rows(adj@), u as int, v);
    }
}

/// The dependencies as a graph on the positions of the tasks.
fn index_graph(tasks: &Vec<Task>) -> (adj: Vec<Vec<usize>>)
    ensures
        adj@.len() == tasks@.len(),
        well_formed(rows(adj@)),
        forall|u: int, v: int| #[trigger]
            edge(rows(adj@), u, v) == stated(task_views(tasks@), tasks@.len() as int, u, v),
{
    let ghost t = task_views(tasks@);
    let n: usize = tasks.len();
    let mut adj: Vec<Vec<usize>> = Vec::new();
    while adj.len() < n
        invariant
            adj@.len() <= n,
            forall|i: int| 0 <= i < adj@.len() ==> (#[trigger] adj@[i])@.len() == 0,
        decreases n - adj@.len(),
    {
        adj.push(Vec::new());
    }
    assert(forall|u: int, v: int| !#[trigger] edge(rows(adj@), u, v));
    let mut i: usize = 0;
    while i < n
        invariant
            i <= n,
            n == tasks@.len(),
            t == task_views(tasks@),
            adj@.len() == n,
            well_formed(rows(adj@)),
            forall|u: int, v: int| #[trigger]
                edge(rows(adj@), u, v) == stated(t, i as int, u, v),
        decreases n - i,
    {
        let task = &tasks[i];
        assert(t[i as int] == task@);
        proof {
            lemma_position(t, task@.id);
            assert(t[i as int].id == task@.id);
        }
        let own: usize = match find_task(tasks, &task.id) {
            Some(u) => u,
            None => 0,
        };
        assert(position_of(t, task@.id) == Some(own as int));
        let ghost g0 = rows(adj@);
        let mut k: usize = 0;
        while k < task.blocks.len()
            invariant
                k <= task.blocks@.len(),
                i < n,
                n == tasks@.len(),
                t == task_views(tasks@),
                task == tasks@[i as int],
                t[i as int] == task@,
                own < n,
                position_of(t, task@.id) == Some(own as int),
                adj@.len() == n,
                well_formed(rows(adj@)),
                forall|u: int, v: int| #[trigger]
                    edge(rows(adj@), u, v) == (edge(g0, u, v) || stated_blocks(
                        t,
                        i as int,
                        k as int,
                        u,
                        v,
                    )),
            decreases task.blocks@.len() - k,
        {
            let ghost g1 = rows(adj@);
            let target = &task.blocks[k];
            assert(t[i as int].blocks[k as int] == target@);
            proof {
                lemma_position(t, target@);
            }
            match find_task(tasks, target) {
                Some(v) => {
                    add_edge(&mut adj, own, v);
                },
                None => {},
            }
            proof {
                assert forall|u: int, v: int| #[trigger]
                    edge(rows(adj@), u, v) == (edge(g0, u, v) || stated_blocks(
                        t,
                        i as int,
                        k + 1,
                        u,
                        v,
                    )) by {
                    assert(edge(g1, u, v) == (edge(g0, u, v) || stated_blocks(
                        t,
                        i as int,
                        k as int,
                        u,
                        v,
                    )));
                    lemma_extend_blocks(t, i as int, k as int, u, v);
                }
            }
            k = k + 1;
        }
        let ghost g2 = rows(adj@);
        let mut k: usize = 0;
        while k < task.blocked_by.len()
            invariant
                k <= task.blocked_by@.len(),
                i < n,
                n == tasks@.len(),
                t == task_views(tasks@),
                task == tasks@[i as int],
                t[i as int] == task@,
                own < n,
                position_of(t, task@.id) == Some(own as int),
                adj@.len() == n,
                well_formed(rows(adj@)),
                forall|u: int, v: int| #[trigger]
                    edge(rows(adj@), u, v) == (edge(g2, u, v) || stated_blocked_by(
                        t,
                        i as int,
                        k as int,
                        u,
                        v,
                    )),
            decreases task.blocked_by@.len() - k,
        {
            let ghost g3 = rows(adj@);
            let source = &task.blocked_by[k];
            assert(t[i as int].blocked_by[k as int] == source@);
            proof {
                lemma_position(t, source@);
            }
            match find_task(tasks, source) {
                Some(u) => {
                    add_edge(&mut adj, u, own);
                },
                None => {},
            }
            proof {
                assert forall|u: int, v: int| #[trigger]
                    edge(rows(adj@), u, v) == (edge(g2, u, v) || stated_blocked_by(
                        t,
                        i as int,
                        k + 1,
                        u,
                        v,
                    )) by {
                    assert(edge(g3, u, v) == (edge(g2, u, v) || stated_blocked_by(
                        t,
                        i as int,
                        k as int,
                        u,
                        v,
                    )));
                    lemma_extend_blocked_by(t, i as int, k as int, u, v);
                }
            }
            k = k + 1;
        }
        proof {
            assert forall|u: int, v: int| #[trigger]
                edge(rows(adj@), u, v) == stated(t, i + 1, u, v) by {
                assert(edge(rows(adj@), u, v) == (edge(g2, u, v) || stated_blocked_by(
                    t,
                    i as int,
                    t[i as int].blocked_by.len() as int,
                    u,
                    v,
                )));
                assert(edge(g2, u, v) == (edge(g0, u, v) || stated_blocks(
                    t,
                    i as int,
                    t[i as int].blocks.len() as int,
                    u,
                    v,
                )));
                assert(edge(g0, u, v) == stated(t, i as int, u, v));
                lemma_extend_stated(t, i as int, u, v);
            }
        }
        i = i + 1;
    }
    adj
}

proof fn lemma_extend_blocks(t: Seq<TaskView>, i: int, k: int, u: int, v: int)
    requires
        0 <= i < t.len(),
        0 <= k < t[i].blocks.len(),
    ensures
        stated_blocks(t, i, k + 1, u, v) == (stated_blocks(t, i, k, u, v) || (position_of(
            t,
            t[i].id,
        ) == Some(u) && position_of(t, t[i].blocks[k]) == Some(v))),
{
    if stated_blocks(t, i, k, u, v) {
        let j = choose|j: int|
            0 <= j < k && position_of(t, t[i].id) == Some(u) && position_of(
                t,
                #[trigger] t[i].blocks[j],
            ) == Some(v);
        assert(position_of(t, t[i].blocks[j]) == Some(v));
    }
}

proof fn lemma_extend_blocked_by(t: Seq<TaskView>, i: int, k: int, u: int, v: int)
    requires
        0 <= i < t.len(),
        0 <= k < t[i].blocked_by.len(),
    ensures
        stated_blocked_by(t, i, k + 1, u, v) == (stated_blocked_by(t, i, k, u, v) || (position_of(
            t,
            t[i].id,
        ) == Some(v) && position_of(t, t[i].blocked_by[k]) == Some(u))),
{
    if stated_blocked_by(t, i, k, u, v) {
        let j = choose|j: int|
            0 <= j < k && position_of(t, t[i].id) == Some(v) && position_of(
                t,
                #[trigger] t[i].blocked_by[j],
            ) == Some(u);
        assert(position_of(t, t[i].blocked_by[j]) == Some(u));
    }
}

proof fn lemma_extend_stated(t: Seq<TaskView>, n: int, u: int, v: int)
    requires
        0 <= n < t.len(),
    ensures
        stated(t, n + 1, u, v) == (stated(t, n, u, v) || stated_blocks(
            t,
            n,
            t[n].blocks.len() as int,
            u,
            v,
        ) || stated_blocked_by(t, n, t[n].blocked_by.len() as int, u, v)),
{
    if stated(t, n, u, v) {
        let i = choose|i: int| 0 <= i < n && #[trigger] stated_by(t, i, u, v);
        assert(stated_by(t, i, u, v));
    }
    assert(stated_by(t, n, u, v) == (stated_blocks(t, n, t[n].blocks.len() as int, u, v)
        || stated_blocked_by(t, n, t[n].blocked_by.len() as int, u, v)));
}

/// An edge between positions is a dependency between the ids that stand there.
proof fn lemma_stated_is_precedes(t: Seq<TaskView>, a: Seq<char>, b: Seq<char>, u: int, v: int)
    requires
        position_of(t, a) == Some(u),
        position_of(t, b) == Some(v),
    ensures
        stated(t, t.len() as int, u, v) == precedes(t, a, b),
{
    lemma_position(t, a);
    lemma_position(t, b);
    if stated(t, t.len() as int, u, v) {
        let i = choose|i: int| 0 <= i < t.len() && #[trigger] stated_by(t, i, u, v);
        lemma_position(t, t[i].id);
        if stated_blocks(t, i, t[i].blocks.len() as int, u, v) {
            let j = choose|j: int|
                0 <= j < t[i].blocks.len() && position_of(t, t[i].id) == Some(u) && position_of(
                    t,
                    #[trigger] t[i].blocks[j],
                ) == Some(v);
            lemma_position(t, t[i].blocks[j]);
            assert(t[i].id == a);
            assert(t[i].blocks[j] == b);
            assert(t[i].blocks.contains(b));
        } else {
            let j = choose|j: int|
                0 <= j < t[i].blocked_by.len() && position_of(t, t[i].id) == Some(v)
                    && position_of(t, #[trigger] t[i].blocked_by[j]) == Some(u);
            lemma_position(t, t[i].blocked_by[j]);
            assert(t[i].id == b);
            assert(t[i].blocked_by[j] == a);
            assert(t[i].blocked_by.contains(a));
        }
    }
    if exists|i: int| 0 <= i < t.len() && (#[trigger] t[i]).id == a && t[i].blocks.contains(b) {
        let i = choose|i: int|
            0 <= i < t.len() && (#[trigger] t[i]).id == a && t[i].blocks.contains(b);
        let j = choose|j: int| 0 <= j < t[i].blocks.len() && t[i].blocks[j] == b;
        assert(position_of(t, t[i].blocks[j]) == Some(v));
        assert(stated_by(t, i, u, v));
    } else if precedes(t, a, b) {
        let i = choose|i: int|
            0 <= i < t.len() && (#[trigger] t[i]).id == b && t[i].blocked_by.contains(a);
        let j = choose|j: int| 0 <= j < t[i].blocked_by.len() && t[i].blocked_by[j] == a;
        assert(position_of(t, t[i].blocked_by[j]) == Some(u));
        assert(stated_by(t, i, u, v));
    }
}

/// A cycle of positions is a deadlock of ids, and the reverse.
proof fn lemma_cycle_is_deadlock(t: Seq<TaskView>, g: Seq<Seq<usize>>)
    requires
        g.len() == t.len(),
        forall|u: int, v: int| #[trigger] edge(g, u, v) == stated(t, t.len() as int, u, v),
    ensures
        cyclic(g) == deadlocked(t),
{
    if cyclic(g) {
        let p = choose|p: Seq<int>| is_cycle(g, p);
        let q = Seq::new(p.len(), |i: int| t[p[i]].id);
        assert forall|i: int| 0 <= i < p.len() implies 0 <= #[trigger] p[i] < t.len()
            && position_of(t, t[p[i]].id) == Some(p[i]) by {
            if i < p.len() - 1 {
                assert(edge(g, p[i], p[i + 1]));
                lemma_ends_are_first(t, p[i], p[i + 1]);
            } else {
                assert(edge(g, p[i - 1], p[i - 1 + 1]));
                lemma_ends_are_first(t, p[i - 1], p[i]);
            }
        }
        assert forall|i: int| 0 <= i < q.len() implies known(t, #[trigger] q[i]) by {
            assert(0 <= p[i] < t.len());
            assert(t[p[i]].id == q[i]);
        }
        assert forall|i: int| 0 <= i < q.len() - 1 implies precedes(t, #[trigger] q[i], q[i + 1]) by {
            let u = p[i];
            let v = p[i + 1];
            assert(edge(g, p[i], p[i + 1]));
            assert(position_of(t, t[p[i]].id) == Some(p[i]));
            assert(position_of(t, t[p[i + 1]].id) == Some(p[i + 1]));
            lemma_stated_is_precedes(t, q[i], q[i + 1], u, v);
        }
        assert(q[0] == q.last());
        assert(is_deadlock(t, q));
    }
    if deadlocked(t) {
        let q = choose|q: Seq<Seq<char>>| is_deadlock(t, q);
        let p = Seq::new(q.len(), |i: int| position_of(t, q[i])->0);
        assert forall|i: int| 0 <= i < q.len() implies position_of(t, #[trigger] q[i]) == Some(
            p[i],
        ) && 0 <= p[i] < t.len() by {
            assert(known(t, q[i]));
            lemma_position(t, q[i]);
        }
        assert forall|i: int| 0 <= i < p.len() - 1 implies edge(g, #[trigger] p[i], p[i + 1]) by {
            assert(precedes(t, q[i], q[i + 1]));
            assert(position_of(t, q[i]) == Some(p[i]));
            assert(position_of(t, q[i + 1]) == Some(p[i + 1]));
            lemma_stated_is_precedes(t, q[i], q[i + 1], p[i], p[i + 1]);
        }
        assert(is_walk(g, p));
        assert(is_cycle(g, p));
    }
}

/// The ends of a stated edge are first positions of their ids.
proof fn lemma_ends_are_first(t: Seq<TaskView>, u: int, v: int)
    requires
        stated(t, t.len() as int, u, v),
    ensures
        0 <= u < t.len(),
        0 <= v < t.len(),
        position_of(t, t[u].id) == Some(u),
        position_of(t, t[v].id) == Some(v),
{
    let i = choose|i: int| 0 <= i < t.len() && #[trigger] stated_by(t, i, u, v);
    lemma_position(t, t[i].id);
    if stated_blocks(t, i, t[i].blocks.len() as int, u, v) {
        let j = choose|j: int|
            0 <= j < t[i].blocks.len() && position_of(t, t[i].id) == Some(u) && position_of(
                t,
                #[trigger] t[i].blocks[j],
            ) == Some(v);
        lemma_position(t, t[i].blocks[j]);
        assert(t[u].id == t[i].id);
        assert(t[v].id == t[i].blocks[j]);
    } else {
        let j = choose|j: int|
            0 <= j < t[i].blocked_by.len() && position_of(t, t[i].id) == Some(v) && position_of(
                t,
                #[trigger] t[i].blocked_by[j],
            ) == Some(u);
        lemma_position(t, t[i].blocked_by[j]);
        assert(t[v].id == t[i].id);
        assert(t[u].id == t[i].blocked_by[j]);
    }
}

/// Whether tasks wait for each other in a round. Ids that no task has are
/// ignored.
pub fn has_cycle(tasks: &Vec<Task>) -> (r: bool)
    ensures
        r == deadlocked(task_views(tasks@)),
{
    let adj = index_graph(tasks);
    proof {
        lemma_cycle_is_deadlock(task_views(tasks@), rows(adj@));
    }
    graph_has_cycle(&adj)
}

/// Of two tasks the first has to be done before the second: one of them names
/// the other, either way round.
pub open spec fn comes_first(tasks: Seq<Task>, a: Seq<char>, b: Seq<char>) -> bool {
    ||| exists|i: int, k: int|
        0 <= i < tasks.len() && tasks[i].id@ == a && 0 <= k < tasks[i].blocks@.len()
            && #[trigger] tasks[i].blocks@[k]@ == b
    ||| exists|i: int, k: int|
        0 <= i < tasks.len() && tasks[i].id@ == b && 0 <= k < tasks[i].blocked_by@.len()
            && #[trigger] tasks[i].blocked_by@[k]@ == a
}

/// A round of tasks, each of which has to be done before the next.
pub open spec fn waits_in_a_round(tasks: Seq<Task>, p: Seq<Seq<char>>) -> bool {
    &&& p.len() >= 2
    &&& p[0] == p.last()
    &&& forall|i: int|
        0 <= i < p.len() ==> exists|k: int|
            0 <= k < tasks.len() && (#[trigger] tasks[k]).id@ == #[trigger] p[i]
    &&& forall|i: int| 0 <= i < p.len() - 1 ==> comes_first(tasks, #[trigger] p[i], p[i + 1])
}

proof fn lemma_comes_first(tasks: Seq<Task>, a: Seq<char>, b: Seq<char>)
    ensures
        comes_first(tasks, a, b) == precedes(task_views(tasks), a, b),
{
    let t = task_views(tasks);
    if comes_first(tasks, a, b) {
        if exists|i: int, k: int|
            0 <= i < tasks.len() && tasks[i].id@ == a && 0 <= k < tasks[i].blocks@.len()
                && #[trigger] tasks[i].blocks@[k]@ == b {
            let (i, k) = choose|i: int, k: int|
                0 <= i < tasks.len() && tasks[i].id@ == a && 0 <= k < tasks[i].blocks@.len()
                    && #[trigger] tasks[i].blocks@[k]@ == b;
            assert(t[i] == tasks[i]@);
            assert(t[i].blocks[k] == b);
            assert(t[i].id == a && t[i].blocks.contains(b));
        } else {
            let (i, k) = choose|i: int, k: int|
                0 <= i < tasks.len() && tasks[i].id@ == b && 0 <= k < tasks[i].blocked_by@.len()
                    && #[trigger] tasks[i].blocked_by@[k]@ == a;
            assert(t[i] == tasks[i]@);
            assert(t[i].blocked_by[k] == a);
            assert(t[i].id == b && t[i].blocked_by.contains(a));
        }
    }
    if precedes(t, a, b) {
        if exists|i: int| 0 <= i < t.len() && (#[trigger] t[i]).id == a && t[i].blocks.contains(b) {
            let i = choose|i: int|
                0 <= i < t.len() && (#[trigger] t[i]).id == a && t[i].blocks.contains(b);
            let k = choose|k: int| 0 <= k < t[i].blocks.len() && t[i].blocks[k] == b;
            assert(tasks[i].blocks@[k]@ == b);
        } else {
            let i = choose|i: int|
                0 <= i < t.len() && (#[trigger] t[i]).id == b && t[i].blocked_by.contains(a);
            let k = choose|k: int| 0 <= k < t[i].blocked_by.len() && t[i].blocked_by[k] == a;
            assert(tasks[i].blocked_by@[k]@ == a);
        }
    }
}

/// Tasks have a cycle exactly where some of them wait for each other in a
/// round, however long, whichever way round each dependency is named.
pub proof fn cycle_is_a_round_of_waiting(tasks: &Vec<Task>, r: bool)
    requires
        call_ensures(has_cycle, (tasks,), r),
    ensures
        r == (exists|p: Seq<Seq<char>>| waits_in_a_round(tasks@, p)),
{
    let t = task_views(tasks@);
    if r {
        let p = choose|p: Seq<Seq<char>>| is_deadlock(t, p);
        assert forall|i: int| 0 <= i < p.len() implies exists|k: int|
            0 <= k < tasks@.len() && (#[trigger] tasks@[k]).id@ == #[trigger] p[i] by {
            assert(known(t, p[i]));
            let k = choose|k: int| 0 <= k < t.len() && (#[trigger] t[k]).id == p[i];
            assert(tasks@[k].id@ == p[i]);
        }
        assert forall|i: int| 0 <= i < p.len() - 1 implies comes_first(
            tasks@,
            #[trigger] p[i],
            p[i + 1],
        ) by {
            assert(precedes(t, p[i], p[i + 1]));
            lemma_comes_first(tasks@, p[i], p[i + 1]);
        }
        assert(waits_in_a_round(tasks@, p));
    }
    if exists|p: Seq<Seq<char>>| waits_in_a_round(tasks@, p) {
        let p = choose|p: Seq<Seq<char>>| waits_in_a_round(tasks@, p);
        assert forall|i: int| 0 <= i < p.len() implies known(t, #[trigger] p[i]) by {
            let k = choose|k: int| 0 <= k < tasks@.len() && (#[trigger] tasks@[k]).id@ == p[i];
            assert(t[k].id == p[i]);
        }
        assert forall|i: int| 0 <= i < p.len() - 1 implies precedes(
            t,
            #[trigger] p[i],
            p[i + 1],
        ) by {
            assert(comes_first(tasks@, p[i], p[i + 1]));
            lemma_comes_first(tasks@, p[i], p[i + 1]);
        }
        assert(is_deadlock(t, p));
    }
}

/// A task is found by its id: the first one that has it.
pub proof fn task_is_found_by_its_id(tasks: &Vec<Task>, id: &String, r: Option<usize>)
    requires
        call_ensures(find_task, (tasks, id), r),
    ensures
        r is None == (forall|i: int| 0 <= i < tasks@.len() ==> (#[trigger] tasks@[i]).id@ != id@),
        r is Some ==> r->0 < tasks@.len() && tasks@[r->0 as int].id@ == id@ && forall|i: int|
            0 <= i < r->0 ==> (#[trigger] tasks@[i]).id@ != id@,
{
    let t = task_views(tasks@);
    lemma_position(t, id@);
    assert forall|i: int| 0 <= i < tasks@.len() implies (#[trigger] tasks@[i]).id@ == t[i].id by {}
    if r is Some {
        assert(t[r->0 as int].id == id@);
        assert forall|i: int| 0 <= i < r->0 implies (#[trigger] tasks@[i]).id@ != id@ by {
            assert(t[i].id != id@);
        }
    } else {
        assert forall|i: int| 0 <= i < tasks@.len() implies (#[trigger] tasks@[i]).id@ != id@ by {
            assert(t[i].id != id@);
        }
    }
}

} // verus!
