//! The consistency rules a task list must satisfy before it is written.
use vstd::prelude::*;

use crate::error::DexError;
use crate::task::{find_index, has_task, index_of, lemma_index_of, task_of, Task, TaskV};
use crate::text::{list_contains, str_eq};

verus! {

/// No two tasks share an id.
pub open spec fn unique_ids(ts: Seq<TaskV>) -> bool {
    forall|i: int, j: int| 0 <= i < j < ts.len() ==> ts[i].id != ts[j].id
}

/// A task's parent exists and lists it as a child.
pub open spec fn parent_ok(ts: Seq<TaskV>, t: TaskV) -> bool {
    match t.parent_id {
        Some(p) => has_task(ts, p) && task_of(ts, p).children.contains(t.id),
        None => true,
    }
}

/// A task's children exist and name it as their parent.
pub open spec fn children_ok(ts: Seq<TaskV>, t: TaskV) -> bool {
    forall|k: int|
        0 <= k < t.children.len() ==> has_task(ts, #[trigger] t.children[k]) && task_of(ts, t.children[k]).parent_id
            == Some(t.id)
}

/// A task's blockers exist and list it among what they block.
pub open spec fn blocked_by_ok(ts: Seq<TaskV>, t: TaskV) -> bool {
    forall|k: int|
        0 <= k < t.blocked_by.len() ==> has_task(ts, #[trigger] t.blocked_by[k]) && task_of(
            ts,
            t.blocked_by[k],
        ).blocks.contains(t.id)
}

/// The tasks a task blocks exist and list it among their blockers.
pub open spec fn blocks_ok(ts: Seq<TaskV>, t: TaskV) -> bool {
    forall|k: int|
        0 <= k < t.blocks.len() ==> has_task(ts, #[trigger] t.blocks[k]) && task_of(ts, t.blocks[k]).blocked_by.contains(
            t.id,
        )
}

/// Parent/child links agree in both directions.
pub open spec fn hierarchy_ok(ts: Seq<TaskV>) -> bool {
    forall|i: int| 0 <= i < ts.len() ==> parent_ok(ts, #[trigger] ts[i]) && children_ok(ts, ts[i])
}

/// Blocker links agree in both directions.
pub open spec fn blocking_ok(ts: Seq<TaskV>) -> bool {
    forall|i: int| 0 <= i < ts.len() ==> blocked_by_ok(ts, #[trigger] ts[i]) && blocks_ok(ts, ts[i])
}

/// `b` is one of the blockers of task `a`.
pub open spec fn blocks_edge(ts: Seq<TaskV>, a: Seq<char>, b: Seq<char>) -> bool {
    has_task(ts, a) && task_of(ts, a).blocked_by.contains(b)
}

/// Each id in `p` is blocked by the next.
pub open spec fn is_blocking_chain(ts: Seq<TaskV>, p: Seq<Seq<char>>) -> bool {
    forall|k: int| 0 <= k < p.len() - 1 ==> #[trigger] blocks_edge(ts, p[k], p[k + 1])
}

/// `id` lies on a cycle of blockers.
pub open spec fn on_blocking_cycle(ts: Seq<TaskV>, id: Seq<char>) -> bool {
    exists|p: Seq<Seq<char>>| p.len() >= 2 && is_blocking_chain(ts, p) && p[0] == id && p.last() == id
}

/// No chain of blockers leads from a task back to itself.
pub open spec fn acyclic(ts: Seq<TaskV>) -> bool {
    forall|p: Seq<Seq<char>>| p.len() >= 2 && is_blocking_chain(ts, p) ==> p[0] != p.last()
}

/// A task list that may be written.
pub open spec fn well_formed(ts: Seq<TaskV>) -> bool {
    &&& unique_ids(ts)
    &&& hierarchy_ok(ts)
    &&& blocking_ok(ts)
    &&& acyclic(ts)
}

/// The fact about the task list that an error of `validate_tasks` reports.
pub open spec fn explains(ts: Seq<TaskV>, e: DexError) -> bool {
    match e {
        DexError::DuplicateId { id } => exists|i: int, j: int|
            0 <= i < j < ts.len() && ts[i].id == id@ && ts[j].id == id@,
        DexError::MissingParent { task, parent } => exists|i: int|
            0 <= i < ts.len() && ts[i].id == task@ && ts[i].parent_id == Some(parent@) && !has_task(ts, parent@),
        DexError::ParentMissingChild { parent, child } => exists|i: int|
            0 <= i < ts.len() && ts[i].id == child@ && ts[i].parent_id == Some(parent@) && has_task(ts, parent@)
                && !task_of(ts, parent@).children.contains(child@),
        DexError::MissingChild { task, child } => exists|i: int|
            0 <= i < ts.len() && ts[i].id == task@ && ts[i].children.contains(child@) && !has_task(ts, child@),
        DexError::ChildParentMismatch { child, parent } => exists|i: int|
            0 <= i < ts.len() && ts[i].id == parent@ && ts[i].children.contains(child@) && has_task(ts, child@)
                && task_of(ts, child@).parent_id != Some(parent@),
        DexError::MissingBlocker { task, blocker } => exists|i: int|
            0 <= i < ts.len() && ts[i].id == task@ && ts[i].blocked_by.contains(blocker@) && !has_task(ts, blocker@),
        DexError::BlocksMissing { blocker, task } => exists|i: int|
            0 <= i < ts.len() && ts[i].id == task@ && ts[i].blocked_by.contains(blocker@) && has_task(ts, blocker@)
                && !task_of(ts, blocker@).blocks.contains(task@),
        DexError::BlocksMissingTask { task, blocked } => exists|i: int|
            0 <= i < ts.len() && ts[i].id == task@ && ts[i].blocks.contains(blocked@) && !has_task(ts, blocked@),
        DexError::BlockedByMissing { blocked, task } => exists|i: int|
            0 <= i < ts.len() && ts[i].id == task@ && ts[i].blocks.contains(blocked@) && has_task(ts, blocked@)
                && !task_of(ts, blocked@).blocked_by.contains(task@),
        DexError::BlockingCycle { id } => on_blocking_cycle(ts, id@),
        _ => false,
    }
}

/// Checks ids, parent/child links, blocker links and the absence of
/// blocking cycles, in that order, reporting the first problem found.
pub fn validate_tasks(tasks: &[Task]) -> (r: Result<(), DexError>)
    ensures
        r is Ok <==> well_formed(tasks.deep_view()),
        r matches Err(e) ==> explains(tasks.deep_view(), e),
{
    let ghost ts = tasks.deep_view();
    match check_unique(tasks) {
        Err(e) => {
            return Err(e);
        },
        Ok(()) => {},
    }
    match check_hierarchy(tasks) {
        Err(e) => {
            return Err(e);
        },
        Ok(()) => {},
    }
    match check_blocking(tasks) {
        Err(e) => {
            return Err(e);
        },
        Ok(()) => {},
    }
    check_no_cycles(tasks)
}

/// The first task whose id occurred before it is reported.
fn check_unique(tasks: &[Task]) -> (r: Result<(), DexError>)
    ensures
        r is Ok <==> unique_ids(tasks.deep_view()),
        r matches Err(e) ==> explains(tasks.deep_view(), e) && e is DuplicateId,
{
    let ghost ts = tasks.deep_view();
    let mut j: usize = 0;
    while j < tasks.len()
        invariant
            j <= tasks.len(),
            ts == tasks.deep_view(),
            ts.len() == tasks.len(),
            forall|a: int, b: int| 0 <= a < b < j ==> ts[a].id != ts[b].id,
        decreases tasks.len() - j,
    {
        let mut i: usize = 0;
        while i < j
            invariant
                i <= j < tasks.len(),
                ts == tasks.deep_view(),
                ts.len() == tasks.len(),
                forall|a: int| 0 <= a < i ==> ts[a].id != ts[j as int].id,
            decreases j - i,
        {
            assert(ts[i as int] == tasks@[i as int]@);
            assert(ts[j as int] == tasks@[j as int]@);
            if str_eq(tasks[i].id.as_str(), tasks[j].id.as_str()) {
                let e = DexError::DuplicateId { id: tasks[j].id.clone() };
                assert(explains(ts, e)) by {
                    assert(ts[i as int].id == ts[j as int].id);
                }
                return Err(e);
            }
            i = i + 1;
        }
        j = j + 1;
    }
    Ok(())
}

/// The position of the task with an id, with a proof-friendly contract.
fn lookup(tasks: &[Task], id: &str) -> (r: Option<usize>)
    ensures
        match r {
            Some(i) => i < tasks.len() && tasks.deep_view()[i as int].id == id@ && has_task(tasks.deep_view(), id@)
                && task_of(tasks.deep_view(), id@) == tasks.deep_view()[i as int]
                && i as int == index_of(tasks.deep_view(), id@),
            None => !has_task(tasks.deep_view(), id@),
        },
{
    let r = find_index(tasks, id);
    proof {
        lemma_index_of(tasks.deep_view(), id@);
    }
    r
}

fn check_hierarchy(tasks: &[Task]) -> (r: Result<(), DexError>)
    requires
        unique_ids(tasks.deep_view()),
    ensures
        r is Ok <==> hierarchy_ok(tasks.deep_view()),
        r matches Err(e) ==> explains(tasks.deep_view(), e),
{
    let ghost ts = tasks.deep_view();
    let mut i: usize = 0;
    while i < tasks.len()
        invariant
            i <= tasks.len(),
            ts == tasks.deep_view(),
            ts.len() == tasks.len(),
            forall|a: int| 0 <= a < i ==> parent_ok(ts, #[trigger] ts[a]) && children_ok(ts, ts[a]),
        decreases tasks.len() - i,
    {
        let task = &tasks[i];
        assert(ts[i as int] == task@);
        if let Some(parent_id) = &task.parent_id {
            match lookup(tasks, parent_id.as_str()) {
                None => {
                    let e = DexError::MissingParent { task: task.id.clone(), parent: parent_id.clone() };
                    assert(explains(ts, e));
                    return Err(e);
                },
                Some(p) => {
                    if !list_contains(&tasks[p].children, task.id.as_str()) {
                        let e = DexError::ParentMissingChild { parent: parent_id.clone(), child: task.id.clone() };
                        assert(explains(ts, e));
                        return Err(e);
                    }
                },
            }
        }
        let mut k: usize = 0;
        while k < task.children.len()
            invariant
                i < tasks.len(),
                ts == tasks.deep_view(),
                ts.len() == tasks.len(),
                *task == tasks@[i as int],
                k <= task.children.len(),
                forall|c: int|
                    0 <= c < k ==> has_task(ts, #[trigger] task@.children[c]) && task_of(ts, task@.children[c]).parent_id
                        == Some(task@.id),
            decreases task.children.len() - k,
        {
            let child_id = &task.children[k];
            assert(task@.children[k as int] == child_id@);
            match lookup(tasks, child_id.as_str()) {
                None => {
                    let e = DexError::MissingChild { task: task.id.clone(), child: child_id.clone() };
                    assert(explains(ts, e)) by {
                        assert(ts[i as int].children.contains(child_id@));
                    }
                    return Err(e);
                },
                Some(c) => {
                    let matches = match &tasks[c].parent_id {
                        Some(p) => str_eq(p.as_str(), task.id.as_str()),
                        None => false,
                    };
                    if !matches {
                        let e = DexError::ChildParentMismatch { child: child_id.clone(), parent: task.id.clone() };
                        assert(explains(ts, e)) by {
                            assert(ts[i as int].children.contains(child_id@));
                        }
                        return Err(e);
                    }
                },
            }
            k = k + 1;
        }
        i = i + 1;
    }
    Ok(())
}

fn check_blocking(tasks: &[Task]) -> (r: Result<(), DexError>)
    requires
        unique_ids(tasks.deep_view()),
    ensures
        r is Ok <==> blocking_ok(tasks.deep_view()),
        r matches Err(e) ==> explains(tasks.deep_view(), e),
{
    let ghost ts = tasks.deep_view();
    let mut i: usize = 0;
    while i < tasks.len()
        invariant
            i <= tasks.len(),
            ts == tasks.deep_view(),
            ts.len() == tasks.len(),
            forall|a: int| 0 <= a < i ==> blocked_by_ok(ts, #[trigger] ts[a]) && blocks_ok(ts, ts[a]),
        decreases tasks.len() - i,
    {
        let task = &tasks[i];
        assert(ts[i as int] == task@);
        let mut k: usize = 0;
        while k < task.blocked_by.len()
            invariant
                i < tasks.len(),
                ts == tasks.deep_view(),
                ts.len() == tasks.len(),
                *task == tasks@[i as int],
                k <= task.blocked_by.len(),
                forall|c: int|
                    0 <= c < k ==> has_task(ts, #[trigger] task@.blocked_by[c]) && task_of(ts, task@.blocked_by[c]).blocks.contains(
                        task@.id,
                    ),
            decreases task.blocked_by.len() - k,
        {
            let blocker_id = &task.blocked_by[k];
            assert(task@.blocked_by[k as int] == blocker_id@);
            match lookup(tasks, blocker_id.as_str()) {
                None => {
                    let e = DexError::MissingBlocker { task: task.id.clone(), blocker: blocker_id.clone() };
                    assert(explains(ts, e)) by {
                        assert(ts[i as int].blocked_by.contains(blocker_id@));
                    }
                    return Err(e);
                },
                Some(b) => {
                    if !list_contains(&tasks[b].blocks, task.id.as_str()) {
                        let e = DexError::BlocksMissing { blocker: blocker_id.clone(), task: task.id.clone() };
                        assert(explains(ts, e)) by {
                            assert(ts[i as int].blocked_by.contains(blocker_id@));
                        }
                        return Err(e);
                    }
                },
            }
            k = k + 1;
        }
        let mut k: usize = 0;
        while k < task.blocks.len()
            invariant
                i < tasks.len(),
                ts == tasks.deep_view(),
                ts.len() == tasks.len(),
                *task == tasks@[i as int],
                k <= task.blocks.len(),
                blocked_by_ok(ts, task@),
                forall|c: int|
                    0 <= c < k ==> has_task(ts, #[trigger] task@.blocks[c]) && task_of(ts, task@.blocks[c]).blocked_by.contains(
                        task@.id,
                    ),
            decreases task.blocks.len() - k,
        {
            let blocked_id = &task.blocks[k];
            assert(task@.blocks[k as int] == blocked_id@);
            match lookup(tasks, blocked_id.as_str()) {
                None => {
                    let e = DexError::BlocksMissingTask { task: task.id.clone(), blocked: blocked_id.clone() };
                    assert(explains(ts, e)) by {
                        assert(ts[i as int].blocks.contains(blocked_id@));
                    }
                    return Err(e);
                },
                Some(b) => {
                    if !list_contains(&tasks[b].blocked_by, task.id.as_str()) {
                        let e = DexError::BlockedByMissing { blocked: blocked_id.clone(), task: task.id.clone() };
                        assert(explains(ts, e)) by {
                            assert(ts[i as int].blocks.contains(blocked_id@));
                        }
                        return Err(e);
                    }
                },
            }
            k = k + 1;
        }
        i = i + 1;
    }
    Ok(())
}

/// The position of the `j`-th blocker of the task at position `a`.
pub open spec fn blocker_at(ts: Seq<TaskV>, a: int, j: int) -> int {
    index_of(ts, ts[a].blocked_by[j])
}

/// Every blocker named anywhere exists.
pub open spec fn blockers_exist(ts: Seq<TaskV>) -> bool {
    forall|a: int, j: int|
        0 <= a < ts.len() && 0 <= j < ts[a].blocked_by.len() ==> has_task(ts, #[trigger] ts[a].blocked_by[j])
}

/// The finished nodes, in the order they finished: each after all its
/// blockers.
pub open spec fn finish_order_ok(ts: Seq<TaskV>, order: Seq<usize>) -> bool {
    &&& order.no_duplicates()
    &&& forall|k: int| 0 <= k < order.len() ==> (#[trigger] order[k]) < ts.len()
    &&& forall|k: int, j: int|
        0 <= k < order.len() && 0 <= j < ts[order[k] as int].blocked_by.len() ==> #[trigger] order.take(k).contains(
            blocker_at(ts, order[k] as int, j) as usize,
        ) && #[trigger] ts[order[k] as int].blocked_by[j] == ts[order[k] as int].blocked_by[j]
}

/// The task at position `b` is one of the blockers of the task at position `a`.
pub open spec fn linked(ts: Seq<TaskV>, a: int, b: int) -> bool {
    exists|j: int| 0 <= j < ts[a].blocked_by.len() && #[trigger] blocker_at(ts, a, j) == b
}

/// Consecutive positions of `path` are linked by a blocker.
pub open spec fn index_chain(ts: Seq<TaskV>, path: Seq<int>) -> bool {
    forall|k: int| 0 <= k < path.len() - 1 ==> #[trigger] linked(ts, path[k], path[k + 1])
}

pub proof fn lemma_distinct_bound(s: Seq<int>, n: int)
    requires
        0 <= n,
        s.no_duplicates(),
        forall|k: int| 0 <= k < s.len() ==> 0 <= #[trigger] s[k] < n,
    ensures
        s.len() <= n,
{
    s.unique_seq_to_set();
    vstd::set_lib::lemma_int_range(0, n);
    assert(s.to_set().subset_of(vstd::set_lib::set_int_range(0, n)));
    vstd::set_lib::lemma_len_subset(s.to_set(), vstd::set_lib::set_int_range(0, n));
}

/// A chain of positions gives a chain of ids.
proof fn lemma_index_chain_ids(ts: Seq<TaskV>, path: Seq<int>)
    requires
        unique_ids(ts),
        forall|k: int| 0 <= k < path.len() ==> 0 <= #[trigger] path[k] < ts.len(),
        index_chain(ts, path),
    ensures
        is_blocking_chain(ts, path.map_values(|k: int| ts[k].id)),
{
    let p = path.map_values(|k: int| ts[k].id);
    assert forall|k: int| 0 <= k < p.len() - 1 implies #[trigger] blocks_edge(ts, p[k], p[k + 1]) by {
        let a = path[k];
        assert(linked(ts, path[k], path[k + 1]));
        let j = choose|j: int| 0 <= j < ts[a].blocked_by.len() && #[trigger] blocker_at(ts, a, j) == path[k + 1];
        lemma_index_of(ts, ts[a].id);
        lemma_unique_index(ts, a);
        lemma_index_of(ts, ts[a].blocked_by[j]);
        assert(task_of(ts, p[k]) == ts[a]);
        assert(ts[a].blocked_by[j] == ts[path[k + 1]].id);
        assert(ts[a].blocked_by.contains(p[k + 1]));
    }
}

/// With unique ids, the position of a task's own id is its position.
pub proof fn lemma_unique_index(ts: Seq<TaskV>, a: int)
    requires
        unique_ids(ts),
        0 <= a < ts.len(),
    ensures
        index_of(ts, ts[a].id) == a,
{
    lemma_index_of(ts, ts[a].id);
    let k = index_of(ts, ts[a].id);
    if k != a {
        if k < a {
            assert(ts[k].id == ts[a].id);
        }
    }
}

/// Depth-first search from `v` along blockers: finishes `v` and everything it
/// depends on, or reports a node met again on the current path.
fn visit(
    tasks: &[Task],
    v: usize,
    on_path: &mut Vec<bool>,
    done: &mut Vec<bool>,
    order: &mut Vec<usize>,
    Ghost(path): Ghost<Seq<int>>,
) -> (r: Result<(), DexError>)
    requires
        unique_ids(tasks.deep_view()),
        blockers_exist(tasks.deep_view()),
        v < tasks.len(),
        old(on_path).len() == tasks.len(),
        old(done).len() == tasks.len(),
        path.no_duplicates(),
        forall|k: int| 0 <= k < path.len() ==> 0 <= #[trigger] path[k] < tasks.len(),
        forall|u: int| 0 <= u < tasks.len() ==> (old(on_path)@[u] <==> path.contains(u)),
        forall|u: int| 0 <= u < tasks.len() ==> (old(done)@[u] <==> old(order)@.contains(u as usize)),
        forall|u: int| 0 <= u < tasks.len() ==> !(old(done)@[u] && old(on_path)@[u]),
        index_chain(tasks.deep_view(), path),
        path.len() > 0 ==> linked(tasks.deep_view(), path.last(), v as int),
        finish_order_ok(tasks.deep_view(), old(order)@),
    ensures
        final(on_path)@ == old(on_path)@,
        final(done).len() == tasks.len(),
        final(order)@.take(old(order)@.len() as int) == old(order)@,
        old(order)@.len() <= final(order)@.len(),
        forall|u: int| 0 <= u < tasks.len() ==> (final(done)@[u] <==> final(order)@.contains(u as usize)),
        forall|u: int| 0 <= u < tasks.len() ==> !(final(done)@[u] && final(on_path)@[u]),
        finish_order_ok(tasks.deep_view(), final(order)@),
        r is Ok ==> final(done)@[v as int],
        r matches Err(e) ==> e is BlockingCycle && explains(tasks.deep_view(), e),
    decreases tasks.len() - path.len(),
{
    let ghost ts = tasks.deep_view();
    if done[v] {
        return Ok(());
    }
    if on_path[v] {
        // `v` is on the path: the path from `v` back to `v` is a cycle.
        assert(path.contains(v as int));
        let ghost j = choose|j: int| 0 <= j < path.len() && path[j] == v as int;
        let ghost cyc = path.skip(j).push(v as int);
        proof {
            assert(index_chain(ts, cyc)) by {
                assert forall|k: int| 0 <= k < cyc.len() - 1 implies #[trigger] linked(ts, cyc[k], cyc[k + 1]) by {
                    if k < cyc.len() - 2 {
                        assert(cyc[k] == path.skip(j)[k]);
                        assert(cyc[k + 1] == path.skip(j)[k + 1]);
                        assert(linked(ts, path[j + k], path[j + k + 1]));
                    } else {
                        assert(cyc[k] == path.skip(j)[k]);
                        assert(cyc[k] == path.last());
                        assert(cyc[k + 1] == v as int);
                    }
                }
            }
            assert forall|q: int| 0 <= q < cyc.len() implies 0 <= #[trigger] cyc[q] < tasks.len() by {
                if q < cyc.len() - 1 {
                    assert(cyc[q] == path.skip(j)[q]);
                }
            }
            lemma_index_chain_ids(ts, cyc);
            let p = cyc.map_values(|k: int| ts[k].id);
            assert(p[0] == ts[v as int].id);
            assert(p.last() == ts[v as int].id);
        }
        let e = DexError::BlockingCycle { id: tasks[v].id.clone() };
        proof {
            assert(ts[v as int] == tasks@[v as int]@);
            let p = cyc.map_values(|k: int| ts[k].id);
            assert(p.len() >= 2 && is_blocking_chain(ts, p) && p[0] == ts[v as int].id && p.last() == ts[v as int].id);
        }
        return Err(e);
    }
    proof {
        assert(!old(on_path)@[v as int]);
        assert(!path.contains(v as int));
        assert forall|q: int| 0 <= q < path.push(v as int).len() implies 0 <= #[trigger] path.push(v as int)[q] < tasks.len() by {
            if q < path.len() {
                assert(path.push(v as int)[q] == path[q]);
            }
        }
        lemma_distinct_bound(path.push(v as int), tasks.len() as int);
    }
    on_path.set(v, true);
    let ghost new_path = path.push(v as int);
    proof {
        assert forall|u: int| 0 <= u < tasks.len() implies (on_path@[u] <==> new_path.contains(u)) by {
            if u == v as int {
                assert(new_path[path.len() as int] == u);
            } else {
                if path.contains(u) {
                    let w = choose|w: int| 0 <= w < path.len() && path[w] == u;
                    assert(new_path[w] == u);
                }
                if new_path.contains(u) {
                    let w = choose|w: int| 0 <= w < new_path.len() && new_path[w] == u;
                    assert(w < path.len());
                    assert(path[w] == u);
                }
            }
        }
    }
    let blockers = &tasks[v].blocked_by;
    assert(ts[v as int] == tasks@[v as int]@);
    let mut k: usize = 0;
    while k < blockers.len()
        invariant
            k <= blockers.len(),
            *blockers == tasks@[v as int].blocked_by,
            ts == tasks.deep_view(),
            ts.len() == tasks.len(),
            unique_ids(ts),
            blockers_exist(ts),
            v < tasks.len(),
            new_path == path.push(v as int),
            !path.contains(v as int),
            !old(on_path)@[v as int],
            new_path.no_duplicates(),
            new_path.len() <= tasks.len(),
            forall|q: int| 0 <= q < new_path.len() ==> 0 <= #[trigger] new_path[q] < tasks.len(),
            index_chain(ts, path),
            path.len() > 0 ==> linked(ts, path.last(), v as int),
            on_path.len() == tasks.len(),
            done.len() == tasks.len(),
            old(on_path).len() == tasks.len(),
            on_path@ == old(on_path)@.update(v as int, true),
            !done@[v as int],
            forall|u: int| 0 <= u < tasks.len() ==> (on_path@[u] <==> new_path.contains(u)),
            forall|u: int| 0 <= u < tasks.len() ==> (done@[u] <==> order@.contains(u as usize)),
            forall|u: int| 0 <= u < tasks.len() ==> !(done@[u] && on_path@[u]),
            order@.take(old(order)@.len() as int) == old(order)@,
            old(order)@.len() <= order@.len(),
            finish_order_ok(ts, order@),
            forall|m: int| 0 <= m < k ==> order@.contains(#[trigger] blocker_at(ts, v as int, m) as usize),
        decreases blockers.len() - k,
    {
        let b = match lookup(tasks, blockers[k].as_str()) {
            Some(b) => b,
            None => {
                proof {
                    assert(blockers@[k as int]@ == ts[v as int].blocked_by[k as int]);
                    assert(has_task(ts, ts[v as int].blocked_by[k as int]));
                    assert(false);
                }
                return Err(DexError::NotFound { id: blockers[k].clone() });
            },
        };
        proof {
            assert(b as int == blocker_at(ts, v as int, k as int));
            assert(index_chain(ts, new_path)) by {
                assert forall|q: int| 0 <= q < new_path.len() - 1 implies #[trigger] linked(ts, new_path[q], new_path[q + 1]) by {
                    if q < path.len() - 1 {
                        assert(new_path[q] == path[q]);
                        assert(new_path[q + 1] == path[q + 1]);
                    } else {
                        assert(new_path[q] == path.last());
                    }
                }
            }
            assert(new_path.last() == v as int);
        }
        let ghost before = order@;
        let res = visit(tasks, b, on_path, done, order, Ghost(new_path));
        match res {
            Err(e) => {
                proof {
                    // The path is unwound before the error reaches the caller.
                }
                on_path.set(v, false);
                proof {
                    assert(on_path@ =~= old(on_path)@) by {
                        assert(!path.contains(v as int));
                    }
                    assert forall|u: int| 0 <= u < tasks.len() implies !(done@[u] && on_path@[u]) by {
                    }
                }
                return Err(e);
            },
            Ok(()) => {},
        }
        proof {
            assert(on_path@[v as int]);
            assert(!done@[v as int]);
            assert forall|m: int| 0 <= m < k + 1 implies order@.contains(#[trigger] blocker_at(ts, v as int, m) as usize) by {
                if m < k {
                    let x = blocker_at(ts, v as int, m) as usize;
                    let w = choose|w: int| 0 <= w < before.len() && before[w] == x;
                    assert(order@.take(before.len() as int)[w] == x);
                    assert(order@[w] == x);
                }
            }
        }
        k = k + 1;
    }
    on_path.set(v, false);
    done.set(v, true);
    let ghost prior = order@;
    order.push(v);
    proof {
        assert(on_path@ =~= old(on_path)@) by {
            assert(!path.contains(v as int));
        }
        assert(order@.take(prior.len() as int) =~= prior);
        assert(order@.take(old(order)@.len() as int) =~= old(order)@) by {
            assert(prior.take(old(order)@.len() as int) == old(order)@);
        }
        assert(order@.no_duplicates()) by {
            assert(!prior.contains(v));
        }
        assert forall|u: int| 0 <= u < tasks.len() implies (done@[u] <==> order@.contains(u as usize)) by {
            if u != v as int {
                if order@.contains(u as usize) {
                    let w = choose|w: int| 0 <= w < order@.len() && order@[w] == u as usize;
                    assert(w < prior.len());
                    assert(prior[w] == u as usize);
                }
            } else {
                assert(order@[prior.len() as int] == v);
            }
        }
        assert(finish_order_ok(ts, order@)) by {
            assert forall|q: int, j: int|
                0 <= q < order@.len() && 0 <= j < ts[order@[q] as int].blocked_by.len() implies #[trigger] order@.take(
                    q,
                ).contains(blocker_at(ts, order@[q] as int, j) as usize) by {
                if q < prior.len() {
                    assert(order@.take(q) =~= prior.take(q));
                    assert(order@[q] == prior[q]);
                } else {
                    assert(order@.take(q) =~= prior);
                    assert(order@[q] == v);
                }
            }
        }
    }
    Ok(())
}

/// A complete finish order rules out blocking cycles.
proof fn lemma_order_acyclic(ts: Seq<TaskV>, order: Seq<usize>)
    requires
        ts.len() <= usize::MAX,
        unique_ids(ts),
        blockers_exist(ts),
        finish_order_ok(ts, order),
        forall|u: usize| (u as int) < ts.len() ==> #[trigger] order.contains(u),
    ensures
        acyclic(ts),
{
    assert forall|p: Seq<Seq<char>>| p.len() >= 2 && is_blocking_chain(ts, p) implies p[0] != p.last() by {
        // The finish position of each id on the chain strictly decreases.
        assert forall|k: int| 0 <= k < p.len() - 1 implies #[trigger] finishes_before(ts, order, p, k) by {
            assert(blocks_edge(ts, p[k], p[k + 1]));
            lemma_finishes_before(ts, order, p, k);
        }
        lemma_descend(ts, order, p, p.len() - 1);
        if p[0] == p.last() {
            assert(pos_of(ts, order, p[0]) < pos_of(ts, order, p[0]));
        }
    }
}

/// The finish position of a task id.
spec fn pos_of(ts: Seq<TaskV>, order: Seq<usize>, x: Seq<char>) -> int {
    choose|w: int| 0 <= w < order.len() && order[w] == index_of(ts, x) as usize
}

/// The `k+1`-th id of `p` finished before the `k`-th.
spec fn finishes_before(ts: Seq<TaskV>, order: Seq<usize>, p: Seq<Seq<char>>, k: int) -> bool {
    has_task(ts, p[k]) && has_task(ts, p[k + 1]) && pos_of(ts, order, p[k + 1]) < pos_of(ts, order, p[k])
}

proof fn lemma_pos(ts: Seq<TaskV>, order: Seq<usize>, x: Seq<char>)
    requires
        ts.len() <= usize::MAX,
        has_task(ts, x),
        order.no_duplicates(),
        forall|u: usize| (u as int) < ts.len() ==> #[trigger] order.contains(u),
    ensures
        0 <= pos_of(ts, order, x) < order.len(),
        order[pos_of(ts, order, x)] == index_of(ts, x) as usize,
        forall|w: int| 0 <= w < order.len() && order[w] == index_of(ts, x) as usize ==> w == pos_of(ts, order, x),
{
    lemma_index_of(ts, x);
    assert(order.contains(index_of(ts, x) as usize));
    let w = choose|w: int| 0 <= w < order.len() && order[w] == index_of(ts, x) as usize;
}

proof fn lemma_finishes_before(ts: Seq<TaskV>, order: Seq<usize>, p: Seq<Seq<char>>, k: int)
    requires
        ts.len() <= usize::MAX,
        unique_ids(ts),
        blockers_exist(ts),
        finish_order_ok(ts, order),
        forall|u: usize| (u as int) < ts.len() ==> #[trigger] order.contains(u),
        0 <= k < p.len() - 1,
        blocks_edge(ts, p[k], p[k + 1]),
    ensures
        finishes_before(ts, order, p, k),
{
    let a = p[k];
    let b = p[k + 1];
    lemma_index_of(ts, a);
    let ia = index_of(ts, a);
    let j = choose|j: int| 0 <= j < ts[ia].blocked_by.len() && ts[ia].blocked_by[j] == b;
    assert(has_task(ts, ts[ia].blocked_by[j]));
    lemma_pos(ts, order, a);
    let q = pos_of(ts, order, a);
    assert(order[q] as int == ia);
    assert(order.take(q).contains(blocker_at(ts, ia, j) as usize)) by {
        assert(ts[order[q] as int].blocked_by[j] == ts[order[q] as int].blocked_by[j]);
    }
    assert(blocker_at(ts, ia, j) == index_of(ts, b));
    let w = choose|w: int| 0 <= w < q && order.take(q)[w] == index_of(ts, b) as usize;
    assert(order[w] == index_of(ts, b) as usize);
    lemma_pos(ts, order, b);
}

proof fn lemma_descend(ts: Seq<TaskV>, order: Seq<usize>, p: Seq<Seq<char>>, k: int)
    requires
        1 <= k < p.len(),
        forall|m: int| 0 <= m < p.len() - 1 ==> #[trigger] finishes_before(ts, order, p, m),
    ensures
        pos_of(ts, order, p[k]) < pos_of(ts, order, p[0]),
    decreases k,
{
    assert(finishes_before(ts, order, p, k - 1));
    if k > 1 {
        lemma_descend(ts, order, p, k - 1);
    }
}

fn check_no_cycles(tasks: &[Task]) -> (r: Result<(), DexError>)
    requires
        unique_ids(tasks.deep_view()),
        blocking_ok(tasks.deep_view()),
    ensures
        r is Ok <==> acyclic(tasks.deep_view()),
        r matches Err(e) ==> explains(tasks.deep_view(), e),
{
    let ghost ts = tasks.deep_view();
    proof {
        assert forall|a: int, j: int|
            0 <= a < ts.len() && 0 <= j < ts[a].blocked_by.len() implies has_task(ts, #[trigger] ts[a].blocked_by[j]) by {
            assert(blocked_by_ok(ts, ts[a]));
        }
    }
    let mut on_path: Vec<bool> = Vec::new();
    let mut done: Vec<bool> = Vec::new();
    let mut n: usize = 0;
    while n < tasks.len()
        invariant
            n <= tasks.len(),
            on_path.len() == n,
            done.len() == n,
            forall|u: int| 0 <= u < n ==> !on_path@[u] && !done@[u],
        decreases tasks.len() - n,
    {
        on_path.push(false);
        done.push(false);
        n = n + 1;
    }
    let mut order: Vec<usize> = Vec::new();
    let mut i: usize = 0;
    while i < tasks.len()
        invariant
            i <= tasks.len(),
            ts == tasks.deep_view(),
            ts.len() == tasks.len(),
            unique_ids(ts),
            blockers_exist(ts),
            on_path.len() == tasks.len(),
            done.len() == tasks.len(),
            forall|u: int| 0 <= u < tasks.len() ==> !on_path@[u],
            forall|u: int| 0 <= u < tasks.len() ==> (done@[u] <==> order@.contains(u as usize)),
            forall|u: int| 0 <= u < i ==> done@[u],
            finish_order_ok(ts, order@),
        decreases tasks.len() - i,
    {
        let ghost before = order@;
        proof {
            assert forall|u: int| 0 <= u < i implies #[trigger] before.contains(u as usize) by {
                assert(done@[u]);
            }
        }
        let res = visit(tasks, i, &mut on_path, &mut done, &mut order, Ghost(Seq::empty()));
        match res {
            Err(e) => {
                proof {
                    if acyclic(ts) {
                        let p = choose|p: Seq<Seq<char>>| p.len() >= 2 && is_blocking_chain(ts, p) && p[0] == e->BlockingCycle_id@
                            && p.last() == e->BlockingCycle_id@;
                    }
                }
                return Err(e);
            },
            Ok(()) => {},
        }
        proof {
            assert forall|u: int| 0 <= u < i + 1 implies done@[u] by {
                if u < i {
                    assert(before.contains(u as usize));
                    let w = choose|w: int| 0 <= w < before.len() && before[w] == u as usize;
                    assert(order@.take(before.len() as int)[w] == u as usize);
                    assert(order@[w] == u as usize);
                }
            }
        }
        i = i + 1;
    }
    proof {
        assert forall|u: usize| (u as int) < ts.len() implies #[trigger] order@.contains(u) by {
            assert(done@[u as int]);
        }
        lemma_order_acyclic(ts, order@);
    }
    Ok(())
}

/// Whether a task may be completed: forced, or the ids are unique, the
/// task exists and all its children exist and are completed.
pub open spec fn completion_ok(ts: Seq<TaskV>, id: Seq<char>, force: bool) -> bool {
    force || (unique_ids(ts) && has_task(ts, id) && forall|k: int|
        0 <= k < task_of(ts, id).children.len() ==> has_task(ts, #[trigger] task_of(ts, id).children[k]) && task_of(
            ts,
            task_of(ts, id).children[k],
        ).completed)
}

/// The errors refusing a completion, each with what causes it.
pub open spec fn completion_refusal(ts: Seq<TaskV>, id: Seq<char>, e: DexError) -> bool {
    match e {
        DexError::DuplicateId { .. } => !unique_ids(ts),
        DexError::NotFound { id: missing } => missing@ == id && !has_task(ts, id),
        DexError::MissingChild { task, child } => task@ == id && task_of(ts, id).children.contains(child@) && !has_task(
            ts,
            child@,
        ),
        DexError::IncompleteChild { id: parent, child } => parent@ == id && task_of(ts, id).children.contains(child@)
            && has_task(ts, child@) && !task_of(ts, child@).completed,
        _ => false,
    }
}

/// Checks that a task may be completed: unless forced, the task must exist
/// and all its children must exist and be completed.
pub fn validate_completion(tasks: &[Task], id: &str, force: bool) -> (r: Result<(), DexError>)
    ensures
        r is Ok <==> completion_ok(tasks.deep_view(), id@, force),
        r matches Err(e) ==> completion_refusal(tasks.deep_view(), id@, e),
{
    if force {
        return Ok(());
    }
    let ghost ts = tasks.deep_view();
    match check_unique(tasks) {
        Err(e) => {
            return Err(e);
        },
        Ok(()) => {},
    }
    let t = match lookup(tasks, id) {
        Some(t) => t,
        None => {
            return Err(DexError::NotFound { id: crate::text::owned(id) });
        },
    };
    let task = &tasks[t];
    assert(ts[t as int] == task@);
    let mut k: usize = 0;
    while k < task.children.len()
        invariant
            k <= task.children.len(),
            ts == tasks.deep_view(),
            !force,
            unique_ids(ts),
            has_task(ts, id@),
            task@ == task_of(ts, id@),
            forall|c: int|
                0 <= c < k ==> has_task(ts, #[trigger] task@.children[c]) && task_of(ts, task@.children[c]).completed,
        decreases task.children.len() - k,
    {
        let child_id = &task.children[k];
        assert(task@.children[k as int] == child_id@);
        assert(task_of(ts, id@).children[k as int] == child_id@);
        match lookup(tasks, child_id.as_str()) {
            None => {
                assert(task@.children.contains(child_id@));
                return Err(DexError::MissingChild { task: crate::text::owned(id), child: child_id.clone() });
            },
            Some(c) => {
                if !tasks[c].completed {
                    assert(task@.children.contains(child_id@));
                    return Err(DexError::IncompleteChild { id: crate::text::owned(id), child: child_id.clone() });
                }
            },
        }
        k = k + 1;
    }
    Ok(())
}

} // verus!
