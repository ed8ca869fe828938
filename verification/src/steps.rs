//! What one sync of a root task decides: given the task list and what the
//! remote service holds for the task, whether to create the issue or story,
//! leave it alone, take newer values from it, or update it. The calls to the
//! service around each decision are made by the caller.
use vstd::prelude::*;

use crate::closing::{marks_done, parents_end, should_mark_completed};
use crate::github::{labels, labels_spec, needs_update_spec};
use crate::json::{json_get, json_str, opt_json_view, Json, JsonV};
use crate::pull::{pulled_results, reconcile_subtasks, reconciled, root_updates, root_updates_spec, LocalUpdates, SyncResult};
use crate::shortcut::story_needs_update_spec;
use crate::sync::{
    bounded, collect_descendants, descendants, parse_root_task_metadata, render_root_body, render_story_description,
    root_body, root_metadata_spec, story_lines, Descendant, DescendantV,
};
use crate::task::{Task, TaskV};
use crate::text::{cat2, joined_by, owned, str_eq};

verus! {

/// A descendant as the issue body shows it: marked completed when the task
/// should count as done.
pub open spec fn marked(ts: Seq<TaskV>, pushed: Seq<Seq<char>>, d: DescendantV) -> DescendantV {
    DescendantV { task: TaskV { completed: marks_done(ts, d.task, pushed), ..d.task }, ..d }
}

/// The descendants of a root, each marked as the issue body shows it.
pub open spec fn marked_descendants(ts: Seq<TaskV>, root: Seq<char>, pushed: Seq<Seq<char>>) -> Seq<DescendantV> {
    descendants(ts, root, 0, ts.len() as nat).map_values(|d: DescendantV| marked(ts, pushed, d))
}

/// The body the issue of a root task should have.
pub open spec fn issue_body_spec(ts: Seq<TaskV>, parent: TaskV, pushed: Seq<Seq<char>>) -> Seq<char> {
    root_body(parent, marked_descendants(ts, parent.id, pushed))
}

/// The state recorded for the task under `service` in its metadata:
/// `metadata[service]["state"]` when that is a string.
pub open spec fn stored_state(metadata: Option<JsonV>, service: Seq<char>) -> Option<Seq<char>> {
    match metadata {
        Some(m) => match json_get(m, service) {
            Some(s) => match json_get(s, "state"@) {
                Some(v) => json_str(v),
                None => None,
            },
            None => None,
        },
        None => None,
    }
}

/// The newer values a remote body carries for the task, if any.
pub open spec fn pulled(parent: TaskV, body: Seq<char>) -> Option<crate::pull::LocalUpdatesV> {
    match root_metadata_spec(body) {
        Some(m) => root_updates_spec(parent, m),
        None => None,
    }
}

/// An issue as the service holds it.
pub struct RemoteIssue {
    pub title: String,
    pub body: String,
    pub state: String,
    pub labels: Vec<String>,
}

/// What one sync does with the issue of a root task.
pub enum IssueStep {
    /// Create the issue; when `close`, close it and post `comment` if given.
    Create { title: String, body: String, labels: Vec<String>, close: bool, comment: Option<String> },
    /// The task is done and the issue is recorded closed: nothing to do.
    SkipClosed,
    /// The issue carries newer values: take them instead of pushing.
    Pull { updates: LocalUpdates, subtasks: Vec<SyncResult> },
    /// The issue already matches the task.
    Unchanged,
    /// Set the issue's title, body and labels, and its state when given.
    Update { title: String, body: String, labels: Vec<String>, state: Option<String> },
}

/// The state an update sets: closed when the task should close, open when
/// the issue is known to be open, else none.
pub open spec fn update_state_spec(close: bool, remote: Option<RemoteIssue>) -> Option<Seq<char>> {
    if close {
        Some("closed"@)
    } else if remote matches Some(c) && c.state@ == "open"@ {
        Some("open"@)
    } else {
        None
    }
}

/// The comment a created issue that is closed at once receives.
pub open spec fn result_comment(close: bool, result: Option<Seq<char>>) -> Option<Seq<char>> {
    if close {
        match result {
            Some(r) => Some("## Result\n\n"@ + r),
            None => None,
        }
    } else {
        None
    }
}

fn marked_descendants_exec(tasks: &Vec<Task>, root: &str, pushed: &Vec<String>) -> (r: Vec<Descendant>)
    requires
        parents_end(tasks.deep_view()),
    ensures
        r@.map_values(|d: Descendant| d@) == marked_descendants(tasks.deep_view(), root@, pushed.deep_view()),
{
    let ghost ts = tasks.deep_view();
    let ghost pv = pushed.deep_view();
    assert(bounded(ts, root@, ts.len() as nat));
    let ds = collect_descendants(tasks, root);
    let ghost orig = ds@.map_values(|d: Descendant| d@);
    let mut r: Vec<Descendant> = Vec::new();
    let mut i: usize = 0;
    while i < ds.len()
        invariant
            i <= ds.len(),
            ts == tasks.deep_view(),
            pv == pushed.deep_view(),
            parents_end(ts),
            orig == ds@.map_values(|d: Descendant| d@),
            r@.map_values(|d: Descendant| d@) == orig.take(i as int).map_values(|d: DescendantV| marked(ts, pv, d)),
        decreases ds.len() - i,
    {
        let c = should_mark_completed(&ds[i].task, tasks, pushed);
        let mut t = ds[i].task.duplicate();
        t.completed = c;
        let d = Descendant { task: t, depth: ds[i].depth, parent_id: owned(ds[i].parent_id.as_str()) };
        assert(d@ == marked(ts, pv, orig[i as int]));
        let ghost before = r@;
        r.push(d);
        assert(r@ == before.push(d));
        assert(orig.take(i + 1) =~= orig.take(i as int).push(orig[i as int]));
        let ghost a = r@.map_values(|d: Descendant| d@);
        let ghost b = orig.take(i + 1).map_values(|d: DescendantV| marked(ts, pv, d));
        let ghost a0 = before.map_values(|d: Descendant| d@);
        let ghost b0 = orig.take(i as int).map_values(|d: DescendantV| marked(ts, pv, d));
        let ghost dv = marked(ts, pv, orig[i as int]);
        assert(orig.len() == ds.len());
        assert(b0.len() == i);
        assert(a0 == b0);
        assert(a0.len() == before.len());
        assert(a.len() == r@.len());
        assert(a.len() == i + 1);
        assert(b.len() == i + 1);
        assert(a[i as int] == r@[i as int]@);
        assert(a[i as int] == dv);
        assert(b[i as int] == dv);
        assert forall|j: int| 0 <= j < a.len() implies a[j] == b[j] by {
            if j < i {
                assert(a[j] == before[j]@);
                assert(a0[j] == before[j]@);
                assert(b[j] == b0[j]);
                assert(a0[j] == b0[j]);
            }
        }
        assert(r@.map_values(|d: Descendant| d@) =~= orig.take(i + 1).map_values(|d: DescendantV| marked(ts, pv, d)));
        i = i + 1;
    }
    assert(orig.take(ds.len() as int) =~= orig);
    r
}

/// The body the issue of a root task should have.
pub fn issue_body(parent: &Task, tasks: &Vec<Task>, pushed: &Vec<String>) -> (r: String)
    requires
        parents_end(tasks.deep_view()),
    ensures
        r@ == issue_body_spec(tasks.deep_view(), parent@, pushed.deep_view()),
{
    let ds = marked_descendants_exec(tasks, parent.id.as_str(), pushed);
    render_root_body(parent, &ds)
}

/// Whether the task's metadata records `value` as its state under `service`.
pub fn stored_state_is(metadata: &Option<Json>, service: &str, value: &str) -> (r: bool)
    ensures
        r == (stored_state(opt_json_view(*metadata), service@) == Some(value@)),
{
    match metadata {
        Some(m) => match m.get(service) {
            Some(s) => match s.get("state") {
                Some(v) => match v.as_str() {
                    Some(text) => str_eq(text.as_str(), value),
                    None => false,
                },
                None => false,
            },
            None => false,
        },
        None => false,
    }
}

/// Decides one sync of a root task with its GitHub issue. `number` is the
/// issue's number if one is known; `remote` is the issue as read from the
/// service (`None` when it could not be read), and `may_pull` says whether it
/// came from the listing of all issues, whose body may hand newer values
/// back to the task.
pub fn github_parent_step(
    parent: &Task,
    tasks: &Vec<Task>,
    pushed: &Vec<String>,
    number: Option<u64>,
    remote: &Option<RemoteIssue>,
    may_pull: bool,
    prefix: &str,
) -> (r: IssueStep)
    requires
        parents_end(tasks.deep_view()),
    ensures
        ({
            let ts = tasks.deep_view();
            let pv = pushed.deep_view();
            let close = marks_done(ts, parent@, pv);
            let body = issue_body_spec(ts, parent@, pv);
            let want = labels_spec(prefix@, parent.priority, close);
            if number is None {
                r matches IssueStep::Create { title, body: b, labels: l, close: c, comment } && title@ == parent.name@
                    && b@ == body && l.deep_view() == want && c == close && crate::task::opt_view(comment)
                    == result_comment(close, parent@.result)
            } else if close && stored_state(parent@.metadata, "github"@) == Some("closed"@) {
                r is SkipClosed
            } else if may_pull && remote is Some && pulled(parent@, remote->0.body@) is Some {
                r matches IssueStep::Pull { updates, subtasks } && updates@ == pulled(parent@, remote->0.body@)->0
                    && exists|now: Seq<char>|
                    pulled_results(
                        subtasks@,
                        reconciled(ts, crate::issue_body::body_spec(remote->0.body@, now).subtasks),
                    )
            } else if remote matches Some(c) && !needs_update_spec(
                c.title@,
                c.body@,
                c.state@,
                c.labels.deep_view(),
                parent.name@,
                body,
                want,
                close,
            ) {
                r is Unchanged
            } else {
                r matches IssueStep::Update { title, body: b, labels: l, state } && title@ == parent.name@ && b@ == body
                    && l.deep_view() == want && crate::task::opt_view(state) == update_state_spec(close, *remote)
            }
        }),
{
    let ghost ts = tasks.deep_view();
    let close = should_mark_completed(parent, tasks, pushed);
    let body = issue_body(parent, tasks, pushed);
    let want = labels(prefix, parent.priority, close);
    if number.is_none() {
        let comment = if close {
            match &parent.result {
                Some(result) => Some(cat2("## Result\n\n", result.as_str())),
                None => None,
            }
        } else {
            None
        };
        return IssueStep::Create { title: owned(parent.name.as_str()), body, labels: want, close, comment };
    }
    if close && stored_state_is(&parent.metadata, "github", "closed") {
        return IssueStep::SkipClosed;
    }
    if let Some(c) = remote {
        if may_pull {
            if let Some(m) = parse_root_task_metadata(c.body.as_str()) {
                if let Some(updates) = root_updates(parent, &m) {
                    let subtasks = reconcile_subtasks(c.body.as_str(), tasks);
                    return IssueStep::Pull { updates, subtasks };
                }
            }
        }
        let changed = crate::github::issue_needs_update(
            c.title.as_str(),
            c.body.as_str(),
            c.state.as_str(),
            &c.labels,
            parent.name.as_str(),
            body.as_str(),
            &want,
            close,
        );
        if !changed {
            return IssueStep::Unchanged;
        }
    }
    let state = if close {
        Some(owned("closed"))
    } else {
        match remote {
            Some(c) => if str_eq(c.state.as_str(), "open") {
                Some(owned("open"))
            } else {
                None
            },
            None => None,
        }
    };
    IssueStep::Update { title: owned(parent.name.as_str()), body, labels: want, state }
}

/// The issue after an update step's fields are applied to it.
pub open spec fn issue_after(c: RemoteIssue, title: Seq<char>, body: Seq<char>, labels: Seq<Seq<char>>, state: Option<Seq<char>>) -> (
    Seq<char>,
    Seq<char>,
    Seq<char>,
    Seq<Seq<char>>,
) {
    (title, body, match state {
        Some(s) => s,
        None => c.state@,
    }, labels)
}

/// Syncing twice changes nothing the second time: once an update's title,
/// body, labels and state stand on the issue, the task unchanged finds the
/// issue up to date. This holds where the update set the state, that is when
/// the task should close or the issue was open.
pub proof fn law_github_update_then_unchanged(
    ts: Seq<TaskV>,
    parent: TaskV,
    pushed: Seq<Seq<char>>,
    prefix: Seq<char>,
    c: RemoteIssue,
)
    requires
        marks_done(ts, parent, pushed) || c.state@ == "open"@,
    ensures
        ({
            let close = marks_done(ts, parent, pushed);
            let body = issue_body_spec(ts, parent, pushed);
            let want = labels_spec(prefix, parent.priority, close);
            let after = issue_after(c, parent.name, body, want, update_state_spec(close, Some(c)));
            !needs_update_spec(after.0, after.1, after.2, after.3, parent.name, body, want, close)
        }),
{
}

/// What one sync does with the story of a root task.
pub enum StoryStep {
    /// Create the story.
    Create { name: String, description: String, complete: bool },
    /// The task is done and the story is recorded done: nothing to do.
    SkipDone,
    /// The story already matches the task.
    Unchanged,
    /// Set the story's name, description and label, and move it to the
    /// state for `complete`.
    Update { name: String, description: String, complete: bool },
}

/// A story as the service holds it.
pub struct RemoteStory {
    pub name: String,
    pub description: String,
    pub completed: bool,
    pub labels: Vec<String>,
}

/// Decides one sync of a root task with its Shortcut story. `story` is the
/// story's id if one is known; `remote` is the story as read from the
/// service (`None` when it could not be read).
pub fn shortcut_parent_step(
    parent: &Task,
    tasks: &Vec<Task>,
    pushed: &Vec<String>,
    story: Option<u64>,
    remote: &Option<RemoteStory>,
    label: &str,
) -> (r: StoryStep)
    requires
        parents_end(tasks.deep_view()),
    ensures
        ({
            let ts = tasks.deep_view();
            let done = marks_done(ts, parent@, pushed.deep_view());
            let description = joined_by(story_lines(parent@), "\n"@);
            if story is None {
                r matches StoryStep::Create { name, description: d, complete } && name@ == parent.name@ && d@
                    == description && complete == done
            } else if done && stored_state(parent@.metadata, "shortcut"@) == Some("done"@) {
                r is SkipDone
            } else if remote matches Some(c) && !story_needs_update_spec(
                c.name@,
                c.description@,
                c.completed,
                c.labels.deep_view(),
                parent.name@,
                description,
                done,
                label@,
            ) {
                r is Unchanged
            } else {
                r matches StoryStep::Update { name, description: d, complete } && name@ == parent.name@ && d@
                    == description && complete == done
            }
        }),
{
    let done = should_mark_completed(parent, tasks, pushed);
    let description = render_story_description(parent);
    if story.is_none() {
        return StoryStep::Create { name: owned(parent.name.as_str()), description, complete: done };
    }
    if done && stored_state_is(&parent.metadata, "shortcut", "done") {
        return StoryStep::SkipDone;
    }
    if let Some(c) = remote {
        let changed = crate::shortcut::story_needs_update(
            c.name.as_str(),
            c.description.as_str(),
            c.completed,
            &c.labels,
            parent.name.as_str(),
            description.as_str(),
            done,
            label,
        );
        if !changed {
            return StoryStep::Unchanged;
        }
    }
    StoryStep::Update { name: owned(parent.name.as_str()), description, complete: done }
}

/// Syncing twice changes nothing the second time: once an update's name,
/// description and label stand on the story and it has moved to the state
/// for `complete`, the task unchanged finds the story up to date.
pub proof fn law_shortcut_update_then_unchanged(ts: Seq<TaskV>, parent: TaskV, pushed: Seq<Seq<char>>, label: Seq<char>)
    ensures
        ({
            let done = marks_done(ts, parent, pushed);
            let description = joined_by(story_lines(parent), "\n"@);
            !story_needs_update_spec(parent.name, description, done, seq![label], parent.name, description, done, label)
        }),
{
    assert(seq![label][0] == label);
}

} // verus!

verus! {

/// Where a walk up the parent links from position `k` ends: at a task with
/// no parent or whose parent is missing, or after `fuel` steps.
pub open spec fn root_walk(ts: Seq<TaskV>, k: int, fuel: nat) -> int
    decreases fuel,
{
    match ts[k].parent_id {
        Some(p) => if fuel == 0 || !crate::task::has_task(ts, p) {
            k
        } else {
            root_walk(ts, crate::task::index_of(ts, p), (fuel - 1) as nat)
        },
        None => k,
    }
}

/// The message when a task to sync is not found; a URL gets a hint to
/// import it instead.
pub open spec fn sync_missing(id: Seq<char>) -> Seq<char> {
    "Task "@ + id + " not found"@ + if crate::text::has_prefix(id, "http://"@) || crate::text::has_prefix(id, "https://"@) {
        "\nDid you mean: dex import "@ + id
    } else {
        Seq::empty()
    }
}

/// The positions of the tasks without a parent, in order.
pub open spec fn top_level(ts: Seq<TaskV>, n: int) -> Seq<usize>
    decreases n,
{
    if n <= 0 {
        Seq::empty()
    } else if ts[n - 1].parent_id is None {
        top_level(ts, n - 1).push((n - 1) as usize)
    } else {
        top_level(ts, n - 1)
    }
}

/// The root tasks a sync works on: for a task, the root above it (the walk
/// up stops after as many steps as there are tasks, plus one); else every
/// task without a parent. A task that is not found is refused.
pub fn sync_roots(tasks: &Vec<Task>, task_id: Option<&str>) -> (r: Result<Vec<usize>, String>)
    ensures
        match task_id {
            Some(id) => if crate::task::has_task(tasks.deep_view(), id@) {
                r matches Ok(v) && v@ == seq![root_walk(
                    tasks.deep_view(),
                    crate::task::index_of(tasks.deep_view(), id@),
                    (tasks.len() + 1) as nat,
                ) as usize]
            } else {
                r matches Err(m) && m@ == sync_missing(id@)
            },
            None => r matches Ok(v) && v@ == top_level(tasks.deep_view(), tasks.len() as int),
        },
{
    let ghost ts = tasks.deep_view();
    match task_id {
        Some(id) => {
            proof {
                crate::task::lemma_index_of(ts, id@);
            }
            let k = match crate::task::find_index(tasks, id) {
                Some(k) => k,
                None => {
                    let mut m = crate::text::cat3("Task ", id, " not found");
                    if crate::text::starts_with(id, "http://") || crate::text::starts_with(id, "https://") {
                        crate::text::push_str(&mut m, "\nDid you mean: dex import ");
                        crate::text::push_str(&mut m, id);
                    }
                    proof {
                        reveal_strlit("http://");
                        reveal_strlit("https://");
                    }
                    return Err(m);
                },
            };
            let mut current = k;
            let mut steps: u128 = 0;
            let ghost fuel0 = (tasks.len() + 1) as nat;
            loop
                invariant_except_break
                    steps <= tasks.len() as u128,
                    root_walk(ts, k as int, fuel0) == root_walk(ts, current as int, (fuel0 - steps) as nat),
                invariant
                    ts == tasks.deep_view(),
                    current < tasks.len(),
                    fuel0 == tasks.len() + 1,
                ensures
                    root_walk(ts, k as int, fuel0) == current,
                decreases tasks.len() as u128 + 1 - steps,
            {
                assert(tasks@[current as int]@ == ts[current as int]);
                let next = match &tasks[current].parent_id {
                    Some(p) => {
                        proof {
                            crate::task::lemma_index_of(ts, p@);
                        }
                        crate::task::find_index(tasks, p.as_str())
                    },
                    None => None,
                };
                match next {
                    Some(j) => {
                        assert(root_walk(ts, current as int, (fuel0 - steps) as nat) == root_walk(
                            ts,
                            j as int,
                            (fuel0 - steps - 1) as nat,
                        ));
                        current = j;
                        steps = steps + 1;
                        if steps > tasks.len() as u128 {
                            assert(root_walk(ts, current as int, 0) == current);
                            break;
                        }
                    },
                    None => break,
                }
            }
            let mut v: Vec<usize> = Vec::new();
            v.push(current);
            Ok(v)
        },
        None => {
            let mut v: Vec<usize> = Vec::new();
            let mut j: usize = 0;
            while j < tasks.len()
                invariant
                    j <= tasks.len(),
                    ts == tasks.deep_view(),
                    v@ == top_level(ts, j as int),
                decreases tasks.len() - j,
            {
                assert(tasks@[j as int]@ == ts[j as int]);
                if tasks[j].parent_id.is_none() {
                    v.push(j);
                }
                j = j + 1;
            }
            Ok(v)
        },
    }
}

} // verus!

verus! {

/// What a dry run says a sync would do with a task: update the remote item
/// it is linked to, or create one.
pub fn preview_action(task: &Task, shortcut: bool) -> (r: &'static str)
    ensures
        r@ == if crate::imports::linked_id(task@, shortcut) is Some {
            "update"@
        } else {
            "create"@
        },
{
    let linked = if shortcut {
        crate::shortcut::remote_id(&task.metadata)
    } else {
        crate::github::remote_id(&task.metadata)
    };
    if linked.is_some() {
        "update"
    } else {
        "create"
    }
}

} // verus!

verus! {

/// Decides one sync of a subtask with its Shortcut story: a subtask's story
/// is created when none is known, else always updated.
pub fn shortcut_subtask_step(subtask: &Task, tasks: &Vec<Task>, pushed: &Vec<String>, story: Option<u64>) -> (r: StoryStep)
    requires
        parents_end(tasks.deep_view()),
    ensures
        ({
            let done = marks_done(tasks.deep_view(), subtask@, pushed.deep_view());
            let description = joined_by(story_lines(subtask@), "\n"@);
            if story is None {
                r matches StoryStep::Create { name, description: d, complete } && name@ == subtask.name@ && d@
                    == description && complete == done
            } else {
                r matches StoryStep::Update { name, description: d, complete } && name@ == subtask.name@ && d@
                    == description && complete == done
            }
        }),
{
    let done = should_mark_completed(subtask, tasks, pushed);
    let description = render_story_description(subtask);
    if story.is_none() {
        StoryStep::Create { name: owned(subtask.name.as_str()), description, complete: done }
    } else {
        StoryStep::Update { name: owned(subtask.name.as_str()), description, complete: done }
    }
}

} // verus!
