//! When a task's remote item (a GitHub issue, a Shortcut story) may be
//! closed, and why it stays open. Whether a commit has reached a remote is
//! a question for git; the caller asks it and hands over the SHAs that
//! have.
use vstd::prelude::*;

use crate::github::{short, short_spec};
use crate::json::{json_at, json_str, Json};
use crate::sync::{bounded, collect_descendants, descendants, Descendant, DescendantV};
use crate::task::{Task, TaskV};
use crate::text::{cat2, cat3, cat5, join, joined_by, list_contains, owned};

verus! {

/// The SHA of a task's commit: `metadata.commit.sha`, when it is a string.
pub open spec fn commit_sha_spec(t: TaskV) -> Option<Seq<char>> {
    match t.metadata {
        Some(m) => json_str(json_at(json_at(m, "commit"@), "sha"@)),
        None => None,
    }
}

/// Reads the SHA of a task's commit.
pub fn commit_sha(task: &Task) -> (r: Option<String>)
    ensures
        crate::task::opt_view(r) == commit_sha_spec(task@),
{
    let m: &Json = match &task.metadata {
        Some(m) => m,
        None => return None,
    };
    let commit = match m.get("commit") {
        Some(c) => c,
        None => return None,
    };
    match commit.get("sha") {
        Some(s) => match s.as_str() {
            Some(t) => Some(t.clone()),
            None => None,
        },
        None => None,
    }
}

/// Every chain of parents in the list ends: no task is its own ancestor,
/// so the subtree below any id is finite.
pub open spec fn parents_end(ts: Seq<TaskV>) -> bool {
    forall|id: Seq<char>| #[trigger] bounded(ts, id, ts.len() as nat)
}

/// The first seven characters of every commit SHA in the list are single
/// bytes, so that shortening one cuts it on a character.
pub open spec fn shas_short(ts: Seq<TaskV>) -> bool {
    forall|i: int| 0 <= i < ts.len() ==> #[trigger] sha_short(ts[i])
}

/// The first seven characters of the task's commit SHA are single bytes.
pub open spec fn sha_short(t: TaskV) -> bool {
    match commit_sha_spec(t) {
        Some(s) => forall|k: int| 0 <= k < s.len() && k < 7 ==> (#[trigger] s[k] as u32) < 128,
        None => true,
    }
}

/// Whether some task names `id` as its parent.
pub open spec fn has_kids(ts: Seq<TaskV>, id: Seq<char>) -> bool {
    exists|i: int| 0 <= i < ts.len() && #[trigger] ts[i].parent_id == Some(id)
}

/// A task's own part of the closing rule: it is completed, and its commit
/// has been pushed, or it has no commit and has subtasks.
pub open spec fn done_alone(ts: Seq<TaskV>, t: TaskV, pushed: Seq<Seq<char>>) -> bool {
    t.completed && match commit_sha_spec(t) {
        Some(sha) => pushed.contains(sha),
        None => has_kids(ts, t.id),
    }
}

/// The tasks below `id`, depth first.
pub open spec fn subtree(ts: Seq<TaskV>, id: Seq<char>) -> Seq<DescendantV> {
    descendants(ts, id, 0, ts.len() as nat)
}

/// Whether a task's remote item should be closed. The rule reads: a
/// completed task with a commit is done when the commit has been pushed; a
/// completed task without one is done when it has subtasks and every task
/// below it is done. Unfolded over the subtree, that is: the task passes
/// its own part of the rule, and, when it has no commit, so does every task
/// below it (those below a task with a pushed commit included).
pub open spec fn marks_done(ts: Seq<TaskV>, t: TaskV, pushed: Seq<Seq<char>>) -> bool {
    done_alone(ts, t, pushed) && (commit_sha_spec(t) is None ==> forall|k: int|
        0 <= k < subtree(ts, t.id).len() ==> done_alone(ts, #[trigger] subtree(ts, t.id)[k].task, pushed))
}

fn has_children(tasks: &Vec<Task>, id: &str) -> (r: bool)
    ensures
        r == has_kids(tasks.deep_view(), id@),
{
    let ghost ts = tasks.deep_view();
    let mut i: usize = 0;
    while i < tasks.len()
        invariant
            i <= tasks.len(),
            ts == tasks.deep_view(),
            forall|j: int| 0 <= j < i ==> #[trigger] ts[j].parent_id != Some(id@),
        decreases tasks.len() - i,
    {
        assert(ts[i as int] == tasks@[i as int]@);
        if let Some(p) = &tasks[i].parent_id {
            if crate::text::str_eq(p.as_str(), id) {
                assert(ts[i as int].parent_id == Some(id@));
                return true;
            }
        }
        i = i + 1;
    }
    false
}

fn done_alone_exec(task: &Task, tasks: &Vec<Task>, pushed: &Vec<String>) -> (r: bool)
    ensures
        r == done_alone(tasks.deep_view(), task@, pushed.deep_view()),
{
    if !task.completed {
        return false;
    }
    match commit_sha(task) {
        Some(sha) => list_contains(pushed, sha.as_str()),
        None => has_children(tasks, task.id.as_str()),
    }
}

/// Decides whether the remote item of `task` should be closed, given the
/// commit SHAs known to be on a remote.
pub fn should_mark_completed(task: &Task, tasks: &Vec<Task>, pushed: &Vec<String>) -> (r: bool)
    requires
        parents_end(tasks.deep_view()),
    ensures
        r == marks_done(tasks.deep_view(), task@, pushed.deep_view()),
{
    let ghost ts = tasks.deep_view();
    let ghost pv = pushed.deep_view();
    if !done_alone_exec(task, tasks, pushed) {
        return false;
    }
    if commit_sha(task).is_some() {
        return true;
    }
    assert(bounded(ts, task.id@, ts.len() as nat));
    let ds = collect_descendants(tasks, task.id.as_str());
    let ghost dv = ds@.map_values(|d: Descendant| d@);
    let mut i: usize = 0;
    while i < ds.len()
        invariant
            i <= ds.len(),
            ts == tasks.deep_view(),
            pv == pushed.deep_view(),
            dv == ds@.map_values(|d: Descendant| d@),
            dv == subtree(ts, task.id@),
            done_alone(ts, task@, pv),
            commit_sha_spec(task@) is None,
            forall|k: int| 0 <= k < i ==> done_alone(ts, #[trigger] dv[k].task, pv),
        decreases ds.len() - i,
    {
        assert(dv[i as int].task == ds@[i as int].task@);
        if !done_alone_exec(&ds[i].task, tasks, pushed) {
            assert(!done_alone(ts, subtree(ts, task.id@)[i as int].task, pv));
            return false;
        }
        i = i + 1;
    }
    true
}

/// Why a subtask keeps its parent's item open.
pub open spec fn subtask_reason_spec(s: TaskV, pushed: Seq<Seq<char>>) -> Seq<char> {
    if commit_sha_spec(s) is Some && !pushed.contains(commit_sha_spec(s)->0) {
        "subtask "@ + s.id + " commit "@ + short_spec(commit_sha_spec(s)->0) + " not pushed"@
    } else if !s.completed {
        "subtask "@ + s.id + " not completed"@
    } else {
        "subtask "@ + s.id + " completed without commit"@
    }
}

/// Says why a subtask keeps its parent's item open.
pub fn subtask_blocking_reason(subtask: &Task, pushed: &Vec<String>) -> (r: String)
    requires
        sha_short(subtask@),
    ensures
        r@ == subtask_reason_spec(subtask@, pushed.deep_view()),
{
    if let Some(sha) = commit_sha(subtask) {
        if !list_contains(pushed, sha.as_str()) {
            assert(commit_sha_spec(subtask@) == Some(sha@));
            assert forall|k: int| 0 <= k < sha@.len() && k < 7 implies (#[trigger] sha@[k] as u32) < 128 by {
                let s0 = commit_sha_spec(subtask@)->0;
                assert(s0[k] == sha@[k]);
                assert((s0[k] as u32) < 128);
            }
            let s = short(sha.as_str());
            return cat5("subtask ", subtask.id.as_str(), " commit ", s.as_str(), " not pushed");
        }
    }
    if !subtask.completed {
        return cat3("subtask ", subtask.id.as_str(), " not completed");
    }
    cat3("subtask ", subtask.id.as_str(), " completed without commit")
}

/// The reasons of the tasks among `ds` whose items stay open, in order.
pub open spec fn blocking_reasons(ts: Seq<TaskV>, ds: Seq<DescendantV>, pushed: Seq<Seq<char>>) -> Seq<Seq<char>>
    decreases ds.len(),
{
    if ds.len() == 0 {
        Seq::empty()
    } else {
        let rest = blocking_reasons(ts, ds.drop_last(), pushed);
        if marks_done(ts, ds.last().task, pushed) {
            rest
        } else {
            rest.push(subtask_reason_spec(ds.last().task, pushed))
        }
    }
}

/// Why a completed task's item is not being closed: the reasons of the
/// subtasks that hold it open, joined by `; `; else its unpushed commit;
/// else that it was completed without a commit. `None` when the task is
/// not completed or its item is being closed.
pub open spec fn not_closing_spec(ts: Seq<TaskV>, t: TaskV, pushed: Seq<Seq<char>>) -> Option<Seq<char>> {
    if !t.completed || marks_done(ts, t, pushed) {
        None
    } else {
        let b = blocking_reasons(ts, subtree(ts, t.id), pushed);
        if b.len() > 0 {
            Some(joined_by(b, "; "@))
        } else {
            if commit_sha_spec(t) is Some && !pushed.contains(commit_sha_spec(t)->0) {
                Some("commit "@ + short_spec(commit_sha_spec(t)->0) + " not pushed to remote"@)
            } else {
                Some("completed without commit (use --no-commit to close manually)"@)
            }
        }
    }
}

proof fn lemma_desc_in(ts: Seq<TaskV>, p: Seq<char>, depth: nat, fuel: nat)
    ensures
        forall|k: int|
            0 <= k < descendants(ts, p, depth, fuel).len() ==> ts.contains(
                #[trigger] descendants(ts, p, depth, fuel)[k].task,
            ),
    decreases fuel, 0int,
{
    if fuel > 0 {
        let list = crate::sync::kids_sorted(ts, p);
        lemma_desc_of_in(ts, list, list.len() as int, p, depth, (fuel - 1) as nat);
    }
}

proof fn lemma_desc_of_in(ts: Seq<TaskV>, list: Seq<usize>, n: int, p: Seq<char>, depth: nat, fuel: nat)
    ensures
        forall|k: int|
            0 <= k < crate::sync::descendants_of(ts, list, n, p, depth, fuel).len() ==> ts.contains(
                #[trigger] crate::sync::descendants_of(ts, list, n, p, depth, fuel)[k].task,
            ),
    decreases fuel, n,
{
    if n <= 0 || n > list.len() || list[n - 1] >= ts.len() {
    } else {
        let c = ts[list[n - 1] as int];
        lemma_desc_of_in(ts, list, n - 1, p, depth, fuel);
        lemma_desc_in(ts, c.id, depth + 1, fuel);
        let a = crate::sync::descendants_of(ts, list, n - 1, p, depth, fuel);
        let b = descendants(ts, c.id, depth + 1, fuel);
        let whole = crate::sync::descendants_of(ts, list, n, p, depth, fuel);
        assert(ts.contains(c)) by {
            assert(ts[list[n - 1] as int] == c);
        }
        assert forall|k: int| 0 <= k < whole.len() implies ts.contains(#[trigger] whole[k].task) by {
            if k < a.len() {
                assert(whole[k] == a[k]);
            } else if k == a.len() {
                assert(whole[k].task == c);
            } else {
                assert(whole[k] == b[k - a.len() - 1]);
            }
        }
    }
}

/// Explains why a completed task's remote item is not being closed, given
/// the commit SHAs known to be on a remote.
pub fn issue_not_closing_reason(task: &Task, tasks: &Vec<Task>, pushed: &Vec<String>) -> (r: Option<String>)
    requires
        parents_end(tasks.deep_view()),
        shas_short(tasks.deep_view()),
        sha_short(task@),
    ensures
        crate::task::opt_view(r) == not_closing_spec(tasks.deep_view(), task@, pushed.deep_view()),
{
    let ghost ts = tasks.deep_view();
    let ghost pv = pushed.deep_view();
    if !task.completed || should_mark_completed(task, tasks, pushed) {
        return None;
    }
    assert(bounded(ts, task.id@, ts.len() as nat));
    let ds = collect_descendants(tasks, task.id.as_str());
    let ghost dv = ds@.map_values(|d: Descendant| d@);
    proof {
        lemma_desc_in(ts, task.id@, 0, ts.len() as nat);
    }
    let mut blocking: Vec<String> = Vec::new();
    let mut i: usize = 0;
    while i < ds.len()
        invariant
            i <= ds.len(),
            ts == tasks.deep_view(),
            pv == pushed.deep_view(),
            parents_end(ts),
            shas_short(ts),
            dv == ds@.map_values(|d: Descendant| d@),
            dv == subtree(ts, task.id@),
            forall|k: int| 0 <= k < dv.len() ==> ts.contains(#[trigger] dv[k].task),
            blocking.deep_view() == blocking_reasons(ts, dv.take(i as int), pv),
        decreases ds.len() - i,
    {
        let d = &ds[i];
        assert(dv[i as int].task == d.task@);
        assert(dv.take(i + 1).drop_last() =~= dv.take(i as int));
        assert(dv.take(i + 1).last() == dv[i as int]);
        assert(ts.contains(dv[i as int].task));
        proof {
            let j = choose|j: int| 0 <= j < ts.len() && ts[j] == dv[i as int].task;
            assert(sha_short(ts[j]));
        }
        if !should_mark_completed(&d.task, tasks, pushed) {
            let reason = subtask_blocking_reason(&d.task, pushed);
            let ghost before = blocking.deep_view();
            blocking.push(reason);
            assert(blocking.deep_view() =~= before.push(subtask_reason_spec(dv[i as int].task, pv)));
        }
        i = i + 1;
    }
    assert(dv.take(ds.len() as int) =~= dv);
    if blocking.len() > 0 {
        return Some(join(&blocking, "; "));
    }
    if let Some(sha) = commit_sha(task) {
        if !list_contains(pushed, sha.as_str()) {
            let s = short(sha.as_str());
            return Some(cat3("commit ", s.as_str(), " not pushed to remote"));
        }
    }
    Some(owned("completed without commit (use --no-commit to close manually)"))
}

} // verus!
