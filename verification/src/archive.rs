//! Archiving completed work: which tasks may go, the records kept of them,
//! and the cutoff of an age such as `60d`.
use vstd::prelude::*;

use crate::listing::find;
use crate::relations::{reachable, subtree_ids};
use crate::json::{copy_opt_json, opt_json_view, Json, JsonV};
use crate::service::in_subtree;
use crate::sort::{sort_order, stable_order, KeyV, SortKey};
use crate::task::{has_task, lemma_index_of, opt_view, task_of, Task, TaskV};
use crate::text::{cat3, cat4, chars_of, copy_opt, joined_by, list_contains, owned, push_str, seq_lt, str_lt};

verus! {

/// Where the walk up from `cur` through completed parents ends, within
/// `fuel` steps: `Ok` at the top, `Err(message)` at a missing or incomplete
/// parent, `None` when the fuel runs out (a loop of completed parents).
pub open spec fn ancestors_check(ts: Seq<TaskV>, id: Seq<char>, cur: Option<Seq<char>>, fuel: nat) -> Option<
    Result<(), Seq<char>>,
>
    decreases fuel,
{
    match cur {
        None => Some(Ok(())),
        Some(p) => if !has_task(ts, p) {
            Some(Err("task "@ + id + " has missing parent "@ + p))
        } else if !task_of(ts, p).completed {
            Some(Err("task "@ + id + " has incomplete ancestor "@ + p))
        } else if fuel == 0 {
            None
        } else {
            ancestors_check(ts, id, task_of(ts, p).parent_id, (fuel - 1) as nat)
        },
    }
}

/// The members of `s` that are tasks of the subtree under `id` not yet
/// completed, in order.
pub open spec fn keep_incomplete(ts: Seq<TaskV>, id: Seq<char>, s: Seq<Seq<char>>) -> Seq<Seq<char>>
    decreases s.len(),
{
    if s.len() == 0 {
        s
    } else {
        let rest = keep_incomplete(ts, id, s.drop_last());
        if has_task(ts, s.last()) && !task_of(ts, s.last()).completed {
            rest.push(s.last())
        } else {
            rest
        }
    }
}

proof fn lemma_keep_incomplete(ts: Seq<TaskV>, id: Seq<char>, s: Seq<Seq<char>>)
    requires
        s.no_duplicates(),
    ensures
        keep_incomplete(ts, id, s).no_duplicates(),
        forall|x: Seq<char>| #[trigger] keep_incomplete(ts, id, s).contains(x) <==> (s.contains(x) && has_task(ts, x)
            && !task_of(ts, x).completed),
    decreases s.len(),
{
    if s.len() > 0 {
        let d = s.drop_last();
        let l = s.last();
        assert(d.no_duplicates());
        lemma_keep_incomplete(ts, id, d);
        let rest = keep_incomplete(ts, id, d);
        let k = keep_incomplete(ts, id, s);
        assert(!d.contains(l)) by {
            if d.contains(l) {
                let j = choose|j: int| 0 <= j < d.len() && d[j] == l;
                assert(s[j] == s[s.len() - 1]);
            }
        }
        assert(!rest.contains(l));
        assert(s =~= d.push(l));
        assert forall|x: Seq<char>| #[trigger] k.contains(x) <==> (s.contains(x) && has_task(ts, x)
            && !task_of(ts, x).completed) by {
            assert(s.contains(x) <==> (d.contains(x) || x == l)) by {
                if s.contains(x) && x != l {
                    let j = choose|j: int| 0 <= j < s.len() && s[j] == x;
                    assert(d[j] == x);
                }
                if d.contains(x) {
                    let j = choose|j: int| 0 <= j < d.len() && d[j] == x;
                    assert(s[j] == x);
                }
                if x == l {
                    assert(s[s.len() - 1] == x);
                }
            }
            if has_task(ts, l) && !task_of(ts, l).completed {
                assert(k == rest.push(l));
                assert(k.contains(x) <==> (rest.contains(x) || x == l)) by {
                    if k.contains(x) && x != l {
                        let j = choose|j: int| 0 <= j < k.len() && k[j] == x;
                        assert(rest[j] == x);
                    }
                    if rest.contains(x) {
                        let j = choose|j: int| 0 <= j < rest.len() && rest[j] == x;
                        assert(k[j] == x);
                    }
                    if x == l {
                        assert(k[k.len() - 1] == x);
                    }
                }
            } else {
                assert(k == rest);
            }
        }
        if has_task(ts, l) && !task_of(ts, l).completed {
            assert(k == rest.push(l));
        }
    }
}

/// A task of the subtree under `id` that is not completed.
pub open spec fn incomplete_member(ts: Seq<TaskV>, id: Seq<char>, x: Seq<char>) -> bool {
    has_task(ts, x) && reachable(ts, true, id, x) && !task_of(ts, x).completed
}

/// Whether the text lists the incomplete tasks under `id`, each once, in
/// some order.
pub open spec fn lists_incomplete(ts: Seq<TaskV>, id: Seq<char>, m: Seq<char>) -> bool {
    exists|l: Seq<Seq<char>>|
        #![trigger joined_by(l, ", "@)]
        l.no_duplicates() && (forall|x: Seq<char>| #[trigger] l.contains(x) <==> incomplete_member(ts, id, x)) && l.len()
            > 0 && m == "task "@ + id + " has incomplete subtasks: "@ + joined_by(l, ", "@)
}

/// Whether a task may be archived: it exists and is completed, and so are
/// its ancestors and everything under it. The walk up must end (no loop of
/// completed parents), else the check would not return.
pub fn check_archivable(tasks: &Vec<Task>, id: &str) -> (r: Result<(), String>)
    requires
        has_task(tasks.deep_view(), id@) && task_of(tasks.deep_view(), id@).completed ==> ancestors_check(
            tasks.deep_view(),
            id@,
            task_of(tasks.deep_view(), id@).parent_id,
            tasks.len() as nat,
        ) is Some,
    ensures
        ({
            let ts = tasks.deep_view();
            if !has_task(ts, id@) {
                r is Err && r->Err_0@ == "task "@ + id@
                    + " not found\nHint: Run dex list --all to see all tasks"@
            } else if !task_of(ts, id@).completed {
                r is Err && r->Err_0@ == "task "@ + id@
                    + " is not completed\nHint: Complete the task with 'dex complete "@ + id@
                    + " --result \"...\"' first"@
            } else {
                match ancestors_check(ts, id@, task_of(ts, id@).parent_id, tasks.len() as nat) {
                    Some(Err(m)) => r is Err && r->Err_0@ == m,
                    _ => if exists|x: Seq<char>| incomplete_member(ts, id@, x) {
                        r is Err && lists_incomplete(ts, id@, r->Err_0@)
                    } else {
                        r is Ok
                    },
                }
            }
        }),
{
    let ghost ts = tasks.deep_view();
    let i = match find(tasks, id) {
        Some(i) => i,
        None => {
            let m = cat3("task ", id, " not found\nHint: Run dex list --all to see all tasks");
            return Err(m);
        },
    };
    assert(ts[i as int] == tasks@[i as int]@);
    if !tasks[i].completed {
        let mut m = cat3("task ", id, " is not completed\nHint: Complete the task with 'dex complete ");
        push_str(&mut m, id);
        push_str(&mut m, " --result \"...\"' first");
        return Err(m);
    }
    let mut current: Option<String> = tasks[i].parent_id.clone();
    let mut fuel: usize = tasks.len();
    loop
        invariant
            ts == tasks.deep_view(),
            has_task(ts, id@),
            task_of(ts, id@).completed,
            fuel <= tasks.len(),
            ancestors_check(ts, id@, task_of(ts, id@).parent_id, tasks.len() as nat) == ancestors_check(
                ts,
                id@,
                crate::task::opt_view(current),
                fuel as nat,
            ),
            ancestors_check(ts, id@, crate::task::opt_view(current), fuel as nat) is Some,
        ensures
            ancestors_check(ts, id@, task_of(ts, id@).parent_id, tasks.len() as nat) == Some(Ok::<(), Seq<char>>(())),
        decreases fuel,
    {
        match current {
            None => break,
            Some(p) => {
                proof {
                    lemma_index_of(ts, p@);
                }
                let k = match find(tasks, p.as_str()) {
                    Some(k) => k,
                    None => {
                        return Err(cat4("task ", id, " has missing parent ", p.as_str()));
                    },
                };
                assert(ts[k as int] == tasks@[k as int]@);
                if !tasks[k].completed {
                    return Err(cat4("task ", id, " has incomplete ancestor ", p.as_str()));
                }
                current = tasks[k].parent_id.clone();
                fuel = fuel - 1;
            },
        }
    }
    let members = subtree_ids(tasks, id);
    let ghost mv = members.deep_view();
    let mut incomplete: Vec<String> = Vec::new();
    let mut q: usize = 0;
    while q < members.len()
        invariant
            q <= members.len(),
            ts == tasks.deep_view(),
            mv == members.deep_view(),
            incomplete.deep_view() == keep_incomplete(ts, id@, mv.take(q as int)),
        decreases members.len() - q,
    {
        let ghost x = mv[q as int];
        assert(members@[q as int]@ == x);
        assert(mv.take(q + 1).drop_last() =~= mv.take(q as int));
        proof {
            lemma_index_of(ts, x);
        }
        let ghost before = incomplete.deep_view();
        match find(tasks, members[q].as_str()) {
            Some(k) => {
                assert(ts[k as int] == tasks@[k as int]@);
                if !tasks[k].completed {
                    incomplete.push(members[q].clone());
                    assert(incomplete.deep_view() =~= before.push(x));
                }
            },
            None => {},
        }
        q = q + 1;
    }
    assert(mv.take(members.len() as int) =~= mv);
    let ghost iv = incomplete.deep_view();
    proof {
        lemma_keep_incomplete(ts, id@, mv);
        assert forall|x: Seq<char>| #[trigger] iv.contains(x) <==> incomplete_member(ts, id@, x) by {
            if incomplete_member(ts, id@, x) {
                assert(mv.contains(x));
            }
        }
    }
    if incomplete.len() > 0 {
        let mut m = cat3("task ", id, " has incomplete subtasks: ");
        let joined = crate::text::join(&incomplete, ", ");
        push_str(&mut m, joined.as_str());
        assert(iv.contains(iv[0]));
        assert(incomplete_member(ts, id@, iv[0]));
        assert(m@ == "task "@ + id@ + " has incomplete subtasks: "@ + joined_by(iv, ", "@));
        assert(lists_incomplete(ts, id@, m@));
        return Err(m);
    }
    assert(iv.len() == 0);
    assert forall|x: Seq<char>| !incomplete_member(ts, id@, x) by {
        if incomplete_member(ts, id@, x) {
            assert(iv.contains(x));
        }
    }
    Ok(())
}

/// Whether `check_archivable` accepts the task with this id.
pub open spec fn archivable(ts: Seq<TaskV>, id: Seq<char>) -> bool {
    &&& has_task(ts, id)
    &&& task_of(ts, id).completed
    &&& ancestors_check(ts, id, task_of(ts, id).parent_id, ts.len() as nat) matches Some(Ok(_))
    &&& !exists|x: Seq<char>| incomplete_member(ts, id, x)
}

/// Completed, not excepted, and at the top of what is completed: its
/// parent, if any, is missing or not completed.
pub open spec fn top_completed(ts: Seq<TaskV>, t: TaskV, except: Seq<Seq<char>>) -> bool {
    &&& t.completed
    &&& !except.contains(t.id)
    &&& match t.parent_id {
        None => true,
        Some(p) => !(has_task(ts, p) && task_of(ts, p).completed),
    }
}

/// Completed before the cutoff, when there is one.
pub open spec fn before_cutoff(t: TaskV, cutoff: Option<Seq<char>>) -> bool {
    match cutoff {
        None => true,
        Some(c) => match t.completed_at {
            Some(d) => seq_lt(d, c),
            None => false,
        },
    }
}

/// Nothing under `id` is excepted.
pub open spec fn subtree_clear(ts: Seq<TaskV>, id: Seq<char>, except: Seq<Seq<char>>) -> bool {
    forall|x: Seq<char>| has_task(ts, x) && reachable(ts, true, id, x) ==> !#[trigger] except.contains(x)
}

/// A task that bulk archiving takes, with its subtree.
pub open spec fn is_candidate(ts: Seq<TaskV>, t: TaskV, cutoff: Option<Seq<char>>, except: Seq<Seq<char>>) -> bool {
    &&& top_completed(ts, t, except)
    &&& archivable(ts, t.id)
    &&& before_cutoff(t, cutoff)
    &&& subtree_clear(ts, t.id, except)
}

/// The ids of the candidates among the first `n` tasks, in task order.
pub open spec fn candidate_ids(ts: Seq<TaskV>, cutoff: Option<Seq<char>>, except: Seq<Seq<char>>, n: int) -> Seq<Seq<char>>
    decreases n,
{
    if n <= 0 || n > ts.len() {
        Seq::empty()
    } else {
        let rest = candidate_ids(ts, cutoff, except, n - 1);
        if is_candidate(ts, ts[n - 1], cutoff, except) {
            rest.push(ts[n - 1].id)
        } else {
            rest
        }
    }
}

/// The walk up from each top completed task ends (else checking it would
/// not return).
pub open spec fn walks_end(ts: Seq<TaskV>, except: Seq<Seq<char>>) -> bool {
    forall|i: int|
        0 <= i < ts.len() && #[trigger] top_completed(ts, ts[i], except) && has_task(ts, ts[i].id) && task_of(
            ts,
            ts[i].id,
        ).completed ==> ancestors_check(ts, ts[i].id, task_of(ts, ts[i].id).parent_id, ts.len() as nat) is Some
}

/// The roots that bulk archiving takes, by id: completed tasks at the top
/// of what is completed, archivable, completed before the cutoff, and with
/// nothing excepted under them.
pub fn bulk_candidates(tasks: &Vec<Task>, completed_before: Option<&str>, except: &Vec<String>) -> (r: Vec<String>)
    requires
        walks_end(tasks.deep_view(), except.deep_view()),
    ensures
        r.deep_view() == crate::sort::sorted_texts(
            candidate_ids(
                tasks.deep_view(),
                crate::relations::opt_str(completed_before),
                except.deep_view(),
                tasks.len() as int,
            ),
        ),
{
    let ghost ts = tasks.deep_view();
    let ghost cutoff = crate::relations::opt_str(completed_before);
    let ghost ex = except.deep_view();
    let mut found: Vec<String> = Vec::new();
    let mut i: usize = 0;
    while i < tasks.len()
        invariant
            i <= tasks.len(),
            ts == tasks.deep_view(),
            ex == except.deep_view(),
            cutoff == crate::relations::opt_str(completed_before),
            walks_end(ts, ex),
            found.deep_view() == candidate_ids(ts, cutoff, ex, i as int),
        decreases tasks.len() - i,
    {
        let t = &tasks[i];
        let ghost tv = ts[i as int];
        assert(tv == t@);
        if is_candidate_at(tasks, i, completed_before, except) {
            let ghost before = found.deep_view();
            found.push(t.id.clone());
            assert(found.deep_view() =~= before.push(tv.id));
        }
        i = i + 1;
    }
    crate::sort::sort_texts(&found)
}

fn is_candidate_at(tasks: &Vec<Task>, i: usize, completed_before: Option<&str>, except: &Vec<String>) -> (r: bool)
    requires
        i < tasks.len(),
        walks_end(tasks.deep_view(), except.deep_view()),
    ensures
        r == is_candidate(
            tasks.deep_view(),
            tasks.deep_view()[i as int],
            crate::relations::opt_str(completed_before),
            except.deep_view(),
        ),
{
    let ghost ts = tasks.deep_view();
    let t = &tasks[i];
    assert(ts[i as int] == t@);
    if !t.completed || list_contains(except, t.id.as_str()) {
        return false;
    }
    match &t.parent_id {
        Some(p) => {
            proof {
                lemma_index_of(ts, p@);
            }
            match find(tasks, p.as_str()) {
                Some(k) => {
                    assert(ts[k as int] == tasks@[k as int]@);
                    if tasks[k].completed {
                        return false;
                    }
                },
                None => {},
            }
        },
        None => {},
    }
    assert(top_completed(ts, ts[i as int], except.deep_view()));
    assert(has_task(ts, t.id@));
    let checked = check_archivable(tasks, t.id.as_str());
    if checked.is_err() {
        return false;
    }
    assert(task_of(ts, t.id@).completed);
    assert(ancestors_check(ts, t.id@, task_of(ts, t.id@).parent_id, ts.len() as nat) is Some);
    assert(archivable(ts, t.id@));
    match completed_before {
        Some(cutoff) => match &t.completed_at {
            Some(d) => {
                if !str_lt(d.as_str(), cutoff) {
                    return false;
                }
            },
            None => {
                return false;
            },
        },
        None => {},
    }
    let members = subtree_ids(tasks, t.id.as_str());
    let mut q: usize = 0;
    while q < members.len()
        invariant
            q <= members.len(),
            ts == tasks.deep_view(),
            i < tasks.len(),
            ts[i as int].id == t.id@,
            forall|x: Seq<char>| #[trigger] members.deep_view().contains(x) <==> (has_task(ts, x) && reachable(
                ts,
                true,
                t.id@,
                x,
            )),
            forall|k: int| 0 <= k < q ==> !except.deep_view().contains(#[trigger] members.deep_view()[k]),
        decreases members.len() - q,
    {
        if list_contains(except, members[q].as_str()) {
            assert(members.deep_view().contains(members.deep_view()[q as int]));
            return false;
        }
        q = q + 1;
    }
    assert forall|x: Seq<char>| has_task(ts, x) && reachable(ts, true, t.id@, x) implies !#[trigger] except.deep_view().contains(x) by {
        assert(members.deep_view().contains(x));
        let k = choose|k: int| 0 <= k < members.deep_view().len() && members.deep_view()[k] == x;
    }
    true
}

/// What is kept of a child of an archived task.
pub struct ArchivedChild {
    pub id: String,
    pub name: String,
    pub description: String,
    pub result: Option<String>,
}

/// The value of an `ArchivedChild`.
pub struct ArchivedChildV {
    pub id: Seq<char>,
    pub name: Seq<char>,
    pub description: Seq<char>,
    pub result: Option<Seq<char>>,
}

impl View for ArchivedChild {
    type V = ArchivedChildV;

    open spec fn view(&self) -> ArchivedChildV {
        ArchivedChildV { id: self.id@, name: self.name@, description: self.description@, result: opt_view(self.result) }
    }
}

/// The record an archived task leaves.
pub struct ArchivedTask {
    pub id: String,
    pub parent_id: Option<String>,
    pub name: String,
    pub description: String,
    pub result: Option<String>,
    pub completed_at: Option<String>,
    pub archived_at: String,
    pub metadata: Option<Json>,
    pub archived_children: Vec<ArchivedChild>,
}

/// The value of an `ArchivedTask`.
pub struct ArchivedTaskV {
    pub id: Seq<char>,
    pub parent_id: Option<Seq<char>>,
    pub name: Seq<char>,
    pub description: Seq<char>,
    pub result: Option<Seq<char>>,
    pub completed_at: Option<Seq<char>>,
    pub archived_at: Seq<char>,
    pub metadata: Option<JsonV>,
    pub archived_children: Seq<ArchivedChildV>,
}

impl View for ArchivedTask {
    type V = ArchivedTaskV;

    open spec fn view(&self) -> ArchivedTaskV {
        ArchivedTaskV {
            id: self.id@,
            parent_id: opt_view(self.parent_id),
            name: self.name@,
            description: self.description@,
            result: opt_view(self.result),
            completed_at: opt_view(self.completed_at),
            archived_at: self.archived_at@,
            metadata: opt_json_view(self.metadata),
            archived_children: self.archived_children@.map_values(|c: ArchivedChild| c@),
        }
    }
}

/// Whether `x` lies in the subtree of one of the roots.
pub open spec fn in_roots(ts: Seq<TaskV>, roots: Seq<Seq<char>>, x: Seq<char>) -> bool {
    exists|k: int| 0 <= k < roots.len() && in_subtree(ts, roots[k], x)
}

/// The tasks of `s` inside (or outside) the archived subtrees, in order.
pub open spec fn roots_part(s: Seq<TaskV>, ts: Seq<TaskV>, roots: Seq<Seq<char>>, inside: bool) -> Seq<TaskV>
    decreases s.len(),
{
    if s.len() == 0 {
        s
    } else {
        let rest = roots_part(s.drop_last(), ts, roots, inside);
        if in_roots(ts, roots, s.last().id) == inside {
            rest.push(s.last())
        } else {
            rest
        }
    }
}

/// The ids of `l` outside the archived subtrees, in order.
pub open spec fn ids_kept(l: Seq<Seq<char>>, ts: Seq<TaskV>, roots: Seq<Seq<char>>) -> Seq<Seq<char>>
    decreases l.len(),
{
    if l.len() == 0 {
        l
    } else {
        let rest = ids_kept(l.drop_last(), ts, roots);
        if in_roots(ts, roots, l.last()) {
            rest
        } else {
            rest.push(l.last())
        }
    }
}

/// A task with its links into the archived subtrees dropped.
pub open spec fn unlinked(t: TaskV, ts: Seq<TaskV>, roots: Seq<Seq<char>>) -> TaskV {
    TaskV {
        children: ids_kept(t.children, ts, roots),
        blocked_by: ids_kept(t.blocked_by, ts, roots),
        blocks: ids_kept(t.blocks, ts, roots),
        ..t
    }
}

/// The tasks left after archiving the subtrees of the roots.
pub open spec fn after_archive(ts: Seq<TaskV>, roots: Seq<Seq<char>>) -> Seq<TaskV> {
    roots_part(ts, ts, roots, false).map_values(|t: TaskV| unlinked(t, ts, roots))
}

/// The children of a task that exist, as archived children.
pub open spec fn child_records(l: Seq<Seq<char>>, ts: Seq<TaskV>) -> Seq<ArchivedChildV>
    decreases l.len(),
{
    if l.len() == 0 {
        Seq::empty()
    } else {
        let rest = child_records(l.drop_last(), ts);
        if has_task(ts, l.last()) {
            let c = task_of(ts, l.last());
            rest.push(ArchivedChildV { id: c.id, name: c.name, description: c.description, result: c.result })
        } else {
            rest
        }
    }
}

/// The record of an archived task.
pub open spec fn record_of(t: TaskV, ts: Seq<TaskV>, at: Seq<char>) -> ArchivedTaskV {
    ArchivedTaskV {
        id: t.id,
        parent_id: t.parent_id,
        name: t.name,
        description: t.description,
        result: t.result,
        completed_at: t.completed_at,
        archived_at: at,
        metadata: t.metadata,
        archived_children: child_records(t.children, ts),
    }
}

/// The records of archiving the subtrees of the roots, by id.
pub open spec fn records_of(ts: Seq<TaskV>, roots: Seq<Seq<char>>, at: Seq<char>) -> Seq<ArchivedTaskV> {
    let inside = roots_part(ts, ts, roots, true);
    stable_order(inside.map_values(|t: TaskV| crate::sort::text_key(t.id)), false).map_values(
        |k: usize| record_of(inside[k as int], ts, at),
    )
}

fn archived_children(t: &Task, tasks: &Vec<Task>) -> (r: Vec<ArchivedChild>)
    ensures
        r@.map_values(|c: ArchivedChild| c@) == child_records(t.children.deep_view(), tasks.deep_view()),
{
    let ghost ts = tasks.deep_view();
    let ghost l = t.children.deep_view();
    let mut r: Vec<ArchivedChild> = Vec::new();
    let mut i: usize = 0;
    while i < t.children.len()
        invariant
            i <= t.children.len(),
            ts == tasks.deep_view(),
            l == t.children.deep_view(),
            r@.map_values(|c: ArchivedChild| c@) == child_records(l.take(i as int), ts),
        decreases t.children.len() - i,
    {
        assert(l.take(i + 1).drop_last() =~= l.take(i as int));
        assert(l.take(i + 1).last() == t.children@[i as int]@);
        proof {
            lemma_index_of(ts, l[i as int]);
        }
        let ghost before = r@.map_values(|c: ArchivedChild| c@);
        match find(tasks, t.children[i].as_str()) {
            Some(k) => {
                let c = &tasks[k];
                assert(ts[k as int] == c@);
                let rec = ArchivedChild {
                    id: c.id.clone(),
                    name: c.name.clone(),
                    description: c.description.clone(),
                    result: copy_opt(&c.result),
                };
                let ghost rv = rec@;
                r.push(rec);
                assert(r@.map_values(|c: ArchivedChild| c@) =~= before.push(rv));
            },
            None => {
                assert(r@.map_values(|c: ArchivedChild| c@) =~= before);
            },
        }
        i = i + 1;
    }
    assert(l.take(t.children.len() as int) =~= l);
    r
}

fn record(t: &Task, tasks: &Vec<Task>, at: &str) -> (r: ArchivedTask)
    ensures
        r@ == record_of(t@, tasks.deep_view(), at@),
{
    ArchivedTask {
        id: t.id.clone(),
        parent_id: copy_opt(&t.parent_id),
        name: t.name.clone(),
        description: t.description.clone(),
        result: copy_opt(&t.result),
        completed_at: copy_opt(&t.completed_at),
        archived_at: owned(at),
        metadata: copy_opt_json(&t.metadata),
        archived_children: archived_children(t, tasks),
    }
}

fn kept_ids(l: &Vec<String>, ids: &Vec<String>, Ghost(ts): Ghost<Seq<TaskV>>, Ghost(roots): Ghost<Seq<Seq<char>>>) -> (r: Vec<String>)
    requires
        forall|x: Seq<char>| #[trigger] ids.deep_view().contains(x) <==> in_roots(ts, roots, x),
    ensures
        r.deep_view() == ids_kept(l.deep_view(), ts, roots),
{
    let ghost s = l.deep_view();
    let mut r: Vec<String> = Vec::new();
    let mut i: usize = 0;
    while i < l.len()
        invariant
            i <= l.len(),
            s == l.deep_view(),
            forall|x: Seq<char>| #[trigger] ids.deep_view().contains(x) <==> in_roots(ts, roots, x),
            r.deep_view() == ids_kept(s.take(i as int), ts, roots),
        decreases l.len() - i,
    {
        assert(s.take(i + 1).drop_last() =~= s.take(i as int));
        assert(s.take(i + 1).last() == l[i as int]@);
        if !list_contains(ids, l[i].as_str()) {
            let ghost before = r.deep_view();
            r.push(l[i].clone());
            assert(r.deep_view() =~= before.push(l[i as int]@));
        }
        i = i + 1;
    }
    assert(s.take(l.len() as int) =~= s);
    r
}

/// Archives the subtrees of the roots, stamping the records `archived_at`:
/// the records, by id, and the tasks that stay, with their links into
/// what went dropped.
pub fn archive_subtrees_at(tasks: &mut Vec<Task>, roots: &Vec<String>, archived_at: &str) -> (r: Vec<ArchivedTask>)
    ensures
        r@.map_values(|a: ArchivedTask| a@) == records_of(old(tasks).deep_view(), roots.deep_view(), archived_at@),
        final(tasks).deep_view() == after_archive(old(tasks).deep_view(), roots.deep_view()),
{
    let ghost ts = tasks.deep_view();
    let ghost rv = roots.deep_view();
    let mut ids: Vec<String> = Vec::new();
    let mut j: usize = 0;
    while j < roots.len()
        invariant
            j <= roots.len(),
            ts == tasks.deep_view(),
            rv == roots.deep_view(),
            forall|x: Seq<char>| #[trigger] ids.deep_view().contains(x) <==> exists|k: int| 0 <= k < j && in_subtree(ts, rv[k], x),
        decreases roots.len() - j,
    {
        let sub = subtree_ids(tasks, roots[j].as_str());
        let ghost before = ids.deep_view();
        let mut q: usize = 0;
        while q < sub.len()
            invariant
                q <= sub.len(),
                j < roots.len(),
                ts == tasks.deep_view(),
                rv == roots.deep_view(),
                forall|x: Seq<char>| #[trigger] sub.deep_view().contains(x) <==> in_subtree(ts, rv[j as int], x),
                forall|x: Seq<char>| #[trigger] ids.deep_view().contains(x) <==> (before.contains(x) || exists|p: int| 0 <= p < q && sub.deep_view()[p] == x),
            decreases sub.len() - q,
        {
            let ghost b2 = ids.deep_view();
            ids.push(sub[q].clone());
            assert(ids.deep_view() =~= b2.push(sub.deep_view()[q as int]));
            proof {
                assert forall|x: Seq<char>| #[trigger] ids.deep_view().contains(x) <==> (before.contains(x) || exists|p: int| 0 <= p < q + 1 && sub.deep_view()[p] == x) by {
                    if ids.deep_view().contains(x) && x != sub.deep_view()[q as int] {
                        let w = choose|w: int| 0 <= w < ids.deep_view().len() && ids.deep_view()[w] == x;
                        assert(b2[w] == x);
                    }
                    if b2.contains(x) {
                        let w = choose|w: int| 0 <= w < b2.len() && b2[w] == x;
                        assert(ids.deep_view()[w] == x);
                    }
                    if x == sub.deep_view()[q as int] {
                        assert(ids.deep_view()[b2.len() as int] == x);
                    }
                }
            }
            q = q + 1;
        }
        proof {
            assert forall|x: Seq<char>| #[trigger] ids.deep_view().contains(x) <==> exists|k: int| 0 <= k < j + 1 && in_subtree(ts, rv[k], x) by {
                if exists|p: int| 0 <= p < sub.len() && sub.deep_view()[p] == x {
                    let p = choose|p: int| 0 <= p < sub.len() && sub.deep_view()[p] == x;
                    assert(sub.deep_view().contains(x));
                }
                if in_subtree(ts, rv[j as int], x) {
                    assert(sub.deep_view().contains(x));
                    let p = choose|p: int| 0 <= p < sub.deep_view().len() && sub.deep_view()[p] == x;
                }
                if exists|k: int| 0 <= k < j + 1 && in_subtree(ts, rv[k], x) {
                    let k = choose|k: int| 0 <= k < j + 1 && in_subtree(ts, rv[k], x);
                    if k < j {
                        assert(before.contains(x));
                    }
                }
            }
        }
        j = j + 1;
    }
    assert forall|x: Seq<char>| #[trigger] ids.deep_view().contains(x) <==> in_roots(ts, rv, x) by {}
    let mut inside: Vec<usize> = Vec::new();
    let mut kept: Vec<Task> = Vec::new();
    let mut i: usize = 0;
    while i < tasks.len()
        invariant
            i <= tasks.len(),
            ts == tasks.deep_view(),
            forall|x: Seq<char>| #[trigger] ids.deep_view().contains(x) <==> in_roots(ts, rv, x),
            forall|k: int| 0 <= k < inside@.len() ==> #[trigger] inside@[k] < tasks.len(),
            inside@.map_values(|p: usize| ts[p as int]) == roots_part(ts.take(i as int), ts, rv, true),
            kept.deep_view() == roots_part(ts.take(i as int), ts, rv, false).map_values(|t: TaskV| unlinked(t, ts, rv)),
        decreases tasks.len() - i,
    {
        let t = &tasks[i];
        assert(ts[i as int] == t@);
        assert(ts.take(i + 1).drop_last() =~= ts.take(i as int));
        assert(ts.take(i + 1).last() == t@);
        let ghost in0 = inside@.map_values(|p: usize| ts[p as int]);
        let ghost k0 = kept.deep_view();
        if list_contains(&ids, t.id.as_str()) {
            inside.push(i);
            assert(inside@.map_values(|p: usize| ts[p as int]) =~= in0.push(t@));
            assert(kept.deep_view() =~= roots_part(ts.take(i + 1), ts, rv, false).map_values(|t: TaskV| unlinked(t, ts, rv)));
        } else {
            let mut copy = t.duplicate();
            copy.children = kept_ids(&t.children, &ids, Ghost(ts), Ghost(rv));
            copy.blocked_by = kept_ids(&t.blocked_by, &ids, Ghost(ts), Ghost(rv));
            copy.blocks = kept_ids(&t.blocks, &ids, Ghost(ts), Ghost(rv));
            let ghost cv = copy@;
            assert(cv == unlinked(t@, ts, rv));
            kept.push(copy);
            assert(kept.deep_view() =~= k0.push(cv));
            assert(inside@.map_values(|p: usize| ts[p as int]) =~= roots_part(ts.take(i + 1), ts, rv, true));
        }
        i = i + 1;
    }
    assert(ts.take(tasks.len() as int) =~= ts);
    let ghost inv = inside@.map_values(|p: usize| ts[p as int]);
    let mut keys: Vec<SortKey> = Vec::new();
    let mut k: usize = 0;
    while k < inside.len()
        invariant
            k <= inside.len(),
            ts == tasks.deep_view(),
            forall|q: int| 0 <= q < inside@.len() ==> #[trigger] inside@[q] < tasks.len(),
            inv == inside@.map_values(|p: usize| ts[p as int]),
            keys.len() == k,
            forall|q: int| 0 <= q < k ==> #[trigger] keys@[q]@ == crate::sort::text_key(inv[q].id),
        decreases inside.len() - k,
    {
        let t = &tasks[inside[k]];
        assert(t@ == inv[k as int]);
        keys.push(SortKey { major: 0, minor: 0, text: chars_of(t.id.as_str()) });
        k = k + 1;
    }
    let order = sort_order(&keys, false);
    let ghost kv = keys@.map_values(|x: SortKey| x@);
    assert(kv =~= inv.map_values(|t: TaskV| crate::sort::text_key(t.id)));
    proof {
        crate::sort::lemma_stable_order(order@, kv, false);
    }
    let mut records: Vec<ArchivedTask> = Vec::new();
    let mut m: usize = 0;
    while m < order.len()
        invariant
            m <= order.len(),
            order.len() == inside.len(),
            ts == tasks.deep_view(),
            forall|q: int| 0 <= q < inside@.len() ==> #[trigger] inside@[q] < tasks.len(),
            inv == inside@.map_values(|p: usize| ts[p as int]),
            crate::sort::sorted_permutation(order@, kv, false),
            records@.map_values(|a: ArchivedTask| a@) == order@.take(m as int).map_values(
                |q: usize| record_of(inv[q as int], ts, archived_at@),
            ),
        decreases order.len() - m,
    {
        assert(order@[m as int] < inside.len());
        let t = &tasks[inside[order[m]]];
        assert(t@ == inv[order@[m as int] as int]);
        let rec = record(t, tasks, archived_at);
        let ghost before = records@.map_values(|a: ArchivedTask| a@);
        let ghost recv = rec@;
        records.push(rec);
        assert(records@.map_values(|a: ArchivedTask| a@) =~= before.push(recv));
        assert(records@.map_values(|a: ArchivedTask| a@) =~= order@.take(m + 1).map_values(
            |q: usize| record_of(inv[q as int], ts, archived_at@),
        ));
        m = m + 1;
    }
    assert(order@.take(order.len() as int) =~= order@);
    *tasks = kept;
    records
}

/// Archives the subtrees of the roots now.
pub fn archive_subtrees(tasks: &mut Vec<Task>, roots: &Vec<String>) -> (r: Vec<ArchivedTask>)
    ensures
        final(tasks).deep_view() == after_archive(old(tasks).deep_view(), roots.deep_view()),
        exists|at: Seq<char>| r@.map_values(|a: ArchivedTask| a@) == records_of(old(tasks).deep_view(), roots.deep_view(), at),
{
    let at = crate::task::timestamp();
    archive_subtrees_at(tasks, roots, at.as_str())
}

/// The message for an age that does not read.
pub open spec fn invalid_duration(value: Seq<char>) -> Seq<char> {
    "Invalid duration format: "@ + value + "\nHint: Expected format: 30d (days), 12w (weeks), 6m (months)"@
}

/// The days in an age such as `30d`, `12w` or `6m` (a month is 30 days).
pub open spec fn duration_days(value: Seq<char>) -> Option<int> {
    if value.len() == 0 {
        None
    } else {
        match crate::json::parse_i64_spec(value.drop_last()) {
            None => None,
            Some(a) => if value.last() == 'd' {
            Some(a as int)
        } else if value.last() == 'w' {
            Some(a * 7)
        } else if value.last() == 'm' {
            Some(a * 30)
        } else {
            None
        },
        }
    }
}

/// Reads an age as days. The text's last character must be a single
/// byte (the text is split one byte before its end), and the days must fit
/// in `i64`.
pub fn days_of_duration(value: &str) -> (r: Result<i64, String>)
    requires
        value@.len() > 0 ==> (value@.last() as u32) < 128,
        duration_days(value@) matches Some(d) ==> i64::MIN <= d <= i64::MAX,
    ensures
        match r {
            Ok(d) => duration_days(value@) == Some(d as int),
            Err(m) => duration_days(value@) is None && m@ == invalid_duration(value@),
        },
{
    let x = chars_of(value);
    let invalid = cat3("Invalid duration format: ", value, "\nHint: Expected format: 30d (days), 12w (weeks), 6m (months)");
    if x.len() == 0 {
        return Err(invalid);
    }
    let amount_text = crate::text::string_of(&x[0..x.len() - 1]);
    assert(amount_text@ =~= value@.drop_last());
    let amount = match crate::json::parse_i64(amount_text.as_str()) {
        Some(a) => a,
        None => return Err(invalid),
    };
    let unit = x[x.len() - 1];
    if unit == 'd' {
        Ok(amount)
    } else if unit == 'w' {
        Ok(amount * 7)
    } else if unit == 'm' {
        Ok(amount * 30)
    } else {
        Err(invalid)
    }
}

/// Nanoseconds in a day.
pub const DAY_NANOS: i128 = 86_400_000_000_000;

/// The instant `days` days before `now` (nanoseconds since the epoch), in
/// RFC 3339; `None` when it is out of the clock's range.
pub fn cutoff_at(days: i64, now: i128) -> (r: Option<String>)
    requires
        crate::clock::nanos_in_range(now as int),
    ensures
        match r {
            Some(t) => crate::clock::rfc3339_text(now - days * DAY_NANOS) == Some(t@),
            None => crate::clock::rfc3339_text(now - days * DAY_NANOS) is None,
        },
{
    assert(-170141183460469231731687303715884105728 < days * DAY_NANOS < 170141183460469231731687303715884105727) by (nonlinear_arith)
        requires
            i64::MIN <= days <= i64::MAX,
    ;
    let span = (days as i128) * DAY_NANOS;
    crate::clock::format_rfc3339(now - span)
}

/// The instant an age (such as `60d`) ago, in RFC 3339. The age must read
/// as a day count whose seconds fit in `i64`.
pub fn cutoff_for_duration(value: &str) -> (r: Result<String, String>)
    requires
        value@.len() > 0 ==> (value@.last() as u32) < 128,
        duration_days(value@) matches Some(d) ==> i64::MIN <= d * 86400 <= i64::MAX,
    ensures
        match duration_days(value@) {
            None => r is Err && r->Err_0@ == invalid_duration(value@),
            Some(d) => match r {
                Ok(t) => exists|now: int| crate::clock::nanos_in_range(now) && crate::clock::rfc3339_text(now - d * DAY_NANOS) == Some(t@),
                Err(m) => m@ == "cutoff date out of range"@,
            },
        },
{
    let days = days_of_duration(value)?;
    let now = crate::clock::now_nanos();
    match cutoff_at(days, now) {
        Some(t) => Ok(t),
        None => Err(owned("cutoff date out of range")),
    }
}

proof fn lemma_roots_part(s: Seq<TaskV>, ts: Seq<TaskV>, roots: Seq<Seq<char>>, inside: bool)
    ensures
        forall|k: int| 0 <= k < roots_part(s, ts, roots, inside).len() ==> in_roots(
            ts,
            roots,
            #[trigger] roots_part(s, ts, roots, inside)[k].id,
        ) == inside,
    decreases s.len(),
{
    if s.len() > 0 {
        lemma_roots_part(s.drop_last(), ts, roots, inside);
        let rest = roots_part(s.drop_last(), ts, roots, inside);
        let all = roots_part(s, ts, roots, inside);
        assert forall|k: int| 0 <= k < all.len() implies in_roots(ts, roots, #[trigger] all[k].id) == inside by {
            if k < rest.len() {
                assert(all[k] == rest[k]);
            }
        }
    }
}

proof fn lemma_ids_kept(l: Seq<Seq<char>>, ts: Seq<TaskV>, roots: Seq<Seq<char>>)
    ensures
        forall|k: int| 0 <= k < ids_kept(l, ts, roots).len() ==> !in_roots(ts, roots, #[trigger] ids_kept(l, ts, roots)[k]),
    decreases l.len(),
{
    if l.len() > 0 {
        lemma_ids_kept(l.drop_last(), ts, roots);
        let rest = ids_kept(l.drop_last(), ts, roots);
        let all = ids_kept(l, ts, roots);
        assert forall|k: int| 0 <= k < all.len() implies !in_roots(ts, roots, #[trigger] all[k]) by {
            if k < rest.len() {
                assert(all[k] == rest[k]);
            }
        }
    }
}

/// Archiving leaves no archived task behind, and no task that stays
/// links to an archived one as child, blocker or blocked task.
pub proof fn law_archive_unlinks(ts: Seq<TaskV>, roots: Seq<Seq<char>>)
    ensures
        forall|k: int| 0 <= k < after_archive(ts, roots).len() ==> {
            let t = #[trigger] after_archive(ts, roots)[k];
            &&& !in_roots(ts, roots, t.id)
            &&& forall|q: int| 0 <= q < t.children.len() ==> !in_roots(ts, roots, #[trigger] t.children[q])
            &&& forall|q: int| 0 <= q < t.blocked_by.len() ==> !in_roots(ts, roots, #[trigger] t.blocked_by[q])
            &&& forall|q: int| 0 <= q < t.blocks.len() ==> !in_roots(ts, roots, #[trigger] t.blocks[q])
        },
{
    let kept = roots_part(ts, ts, roots, false);
    lemma_roots_part(ts, ts, roots, false);
    assert forall|k: int| 0 <= k < after_archive(ts, roots).len() implies {
        let t = #[trigger] after_archive(ts, roots)[k];
        &&& !in_roots(ts, roots, t.id)
        &&& forall|q: int| 0 <= q < t.children.len() ==> !in_roots(ts, roots, #[trigger] t.children[q])
        &&& forall|q: int| 0 <= q < t.blocked_by.len() ==> !in_roots(ts, roots, #[trigger] t.blocked_by[q])
        &&& forall|q: int| 0 <= q < t.blocks.len() ==> !in_roots(ts, roots, #[trigger] t.blocks[q])
    } by {
        let t0 = kept[k];
        assert(!in_roots(ts, roots, t0.id));
        lemma_ids_kept(t0.children, ts, roots);
        lemma_ids_kept(t0.blocked_by, ts, roots);
        lemma_ids_kept(t0.blocks, ts, roots);
    }
}

} // verus!
