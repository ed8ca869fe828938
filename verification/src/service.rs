//! Creating, updating and deleting tasks, with the checks and messages that
//! import, the MCP server and sync share.
use vstd::prelude::*;

use crate::error::DexError;
use crate::json::{opt_json_view, Json, JsonV};
use crate::relations::{
    add_blocker, blocked_through, blocker_added, blocker_removed, lemma_same_ids, put, reachable, reaches_ancestor, remove_all,
    remove_blocker, reparented, set_parent, set_parent_allowed, subtree_ids, without,
};
use crate::task::{find_index, generate_id, has_task, index_of, lemma_index_of, task_of, timestamp, Task, TaskV};
use crate::text::{copy_opt, list_contains, owned, str_eq};

verus! {

/// What a new task is made of.
pub struct CreateInput {
    pub id: Option<String>,
    pub name: String,
    pub description: Option<String>,
    pub parent_id: Option<String>,
    pub priority: Option<i64>,
    pub completed: Option<bool>,
    pub result: Option<String>,
    pub metadata: Option<Json>,
    pub created_at: Option<String>,
    pub updated_at: Option<String>,
    pub started_at: Option<String>,
    pub completed_at: Option<String>,
    pub blocked_by: Vec<String>,
}

/// What an update changes. An outer `None` leaves a field alone; for the
/// `Option<Option<_>>` fields, `Some(None)` clears it.
pub struct UpdateInput {
    pub id: String,
    pub name: Option<String>,
    pub description: Option<String>,
    pub parent_id: Option<Option<String>>,
    pub priority: Option<i64>,
    pub completed: Option<bool>,
    pub completed_at: Option<Option<String>>,
    pub result: Option<Option<String>>,
    pub started_at: Option<Option<String>>,
    pub updated_at: Option<String>,
    pub metadata: Option<Option<Json>>,
    pub add_blocked_by: Vec<String>,
    pub remove_blocked_by: Vec<String>,
}

/// The characters of an optional string.
pub open spec fn ov(o: Option<String>) -> Option<Seq<char>> {
    match o {
        Some(s) => Some(s@),
        None => None,
    }
}

/// `s` after adding each blocker of `bs` to `id`, in order.
pub open spec fn blockers_added(s: Seq<TaskV>, id: Seq<char>, bs: Seq<Seq<char>>) -> Seq<TaskV>
    decreases bs.len(),
{
    if bs.len() == 0 {
        s
    } else {
        blocker_added(blockers_added(s, id, bs.drop_last()), id, bs.last())
    }
}

/// `s` after removing each blocker of `bs` from `id`, in order.
pub open spec fn blockers_removed(s: Seq<TaskV>, id: Seq<char>, bs: Seq<Seq<char>>) -> Seq<TaskV>
    decreases bs.len(),
{
    if bs.len() == 0 {
        s
    } else {
        blocker_removed(blockers_removed(s, id, bs.drop_last()), id, bs.last())
    }
}

/// Every id in `bs` is the id of a task.
pub open spec fn all_exist(s: Seq<TaskV>, bs: Seq<Seq<char>>) -> bool {
    forall|k: int| 0 <= k < bs.len() ==> has_task(s, #[trigger] bs[k])
}

/// A copy of a task list.
pub fn copy_tasks(v: &Vec<Task>) -> (r: Vec<Task>)
    ensures
        r.deep_view() == v.deep_view(),
{
    let mut r: Vec<Task> = Vec::new();
    let mut i: usize = 0;
    while i < v.len()
        invariant
            i <= v.len(),
            r.deep_view() == v.deep_view().take(i as int),
        decreases v.len() - i,
    {
        let ghost before = r.deep_view();
        r.push(v[i].duplicate());
        assert(r.deep_view() =~= v.deep_view().take(i + 1)) by {
            assert(r.deep_view() =~= before.push(v@[i as int]@));
        }
        i = i + 1;
    }
    assert(v.deep_view().take(v.len() as int) =~= v.deep_view());
    r
}

/// Every task of `b` has the content of the task at the same position of
/// `a`; only links may differ.
pub open spec fn same_content(a: Seq<TaskV>, b: Seq<TaskV>) -> bool {
    a.len() == b.len() && forall|j: int| 0 <= j < a.len() ==> #[trigger] unlinked(b[j]) == unlinked(a[j])
}

/// Moving a task changes links only.
proof fn lemma_reparented_frame(s: Seq<TaskV>, id: Seq<char>, parent: Option<Seq<char>>)
    requires
        set_parent_allowed(s, id, parent),
    ensures
        same_content(s, reparented(s, id, parent)),
{
    lemma_index_of(s, id);
    if let Some(p) = parent {
        lemma_index_of(s, p);
    }
    if let Some(q) = task_of(s, id).parent_id {
        lemma_index_of(s, q);
    }
    let r = reparented(s, id, parent);
    assert forall|j: int| 0 <= j < s.len() implies #[trigger] unlinked(r[j]) == unlinked(s[j]) by {}
}

/// Adding a blocker changes links only.
proof fn lemma_blocker_added_frame(s: Seq<TaskV>, id: Seq<char>, b: Seq<char>)
    requires
        has_task(s, id),
        has_task(s, b),
    ensures
        same_content(s, blocker_added(s, id, b)),
{
    lemma_index_of(s, id);
    lemma_index_of(s, b);
    let r = blocker_added(s, id, b);
    assert forall|j: int| 0 <= j < s.len() implies #[trigger] unlinked(r[j]) == unlinked(s[j]) by {}
}

/// Same content keeps ids at their positions.
proof fn lemma_content_ids(a: Seq<TaskV>, b: Seq<TaskV>)
    requires
        same_content(a, b),
    ensures
        crate::relations::same_ids(a, b),
{
    assert forall|j: int| 0 <= j < a.len() implies #[trigger] a[j].id == b[j].id by {
        assert(unlinked(b[j]).id == unlinked(a[j]).id);
    }
}

/// Adding existing blockers to an existing task changes links only.
proof fn lemma_blockers_added_frame(s: Seq<TaskV>, id: Seq<char>, bs: Seq<Seq<char>>)
    requires
        has_task(s, id),
        all_exist(s, bs),
    ensures
        same_content(s, blockers_added(s, id, bs)),
    decreases bs.len(),
{
    if bs.len() > 0 {
        let d = bs.drop_last();
        assert(all_exist(s, d)) by {
            assert forall|k: int| 0 <= k < d.len() implies has_task(s, #[trigger] d[k]) by {
                assert(d[k] == bs[k]);
            }
        }
        lemma_blockers_added_frame(s, id, d);
        let m = blockers_added(s, id, d);
        lemma_content_ids(s, m);
        lemma_same_ids(s, m, id);
        lemma_same_ids(s, m, bs.last());
        assert(has_task(s, bs[bs.len() - 1]));
        lemma_blocker_added_frame(m, id, bs.last());
    }
}

/// The fields a new task takes from its input, before its links are set.
pub open spec fn created_fields(t: TaskV, input: CreateInput) -> bool {
    &&& t.name == input.name@
    &&& t.description == match input.description {
        Some(d) => d@,
        None => Seq::<char>::empty(),
    }
    &&& t.priority == match input.priority {
        Some(p) => p,
        None => crate::task::DEFAULT_PRIORITY,
    }
    &&& t.completed == match input.completed {
        Some(c) => c,
        None => false,
    }
    &&& t.result == ov(input.result)
    &&& t.metadata == opt_json_view(input.metadata)
    &&& t.created_at is Some
    &&& t.updated_at is Some
    &&& (input.created_at is Some ==> t.created_at == ov(input.created_at))
    &&& (input.updated_at is Some ==> t.updated_at == ov(input.updated_at))
    &&& t.started_at == ov(input.started_at)
    &&& t.completed_at == ov(input.completed_at)
}

/// The new task as first added, with no links.
pub open spec fn unlinked(t: TaskV) -> TaskV {
    TaskV { parent_id: None, blocked_by: Seq::empty(), blocks: Seq::empty(), children: Seq::empty(), ..t }
}

/// The id asked for is free and every blocker asked for exists.
pub open spec fn create_inputs_found(ts: Seq<TaskV>, input: CreateInput) -> bool {
    &&& !(input.id matches Some(x) && has_task(ts, x@))
    &&& all_exist(ts, input.blocked_by.deep_view())
}

/// In a list whose parent links all lead to tasks, a task found there never
/// walks up to a task `x` added at the end with no parent.
pub proof fn lemma_fresh_not_ancestor(ts: Seq<TaskV>, t: TaskV, cur: Seq<char>, fuel: nat)
    requires
        crate::validate::hierarchy_ok(ts),
        !has_task(ts, t.id),
        t.parent_id is None,
        has_task(ts, cur),
    ensures
        !reaches_ancestor(ts.push(t), cur, t.id, fuel),
    decreases fuel,
{
    let s0 = ts.push(t);
    lemma_index_of(ts, cur);
    lemma_index_of(s0, cur);
    let k = index_of(ts, cur);
    let k0 = index_of(s0, cur);
    assert(s0[k].id == cur);
    if k0 != k {
        assert(k0 < k);
        assert(s0[k0] == ts[k0]);
    }
    assert(task_of(s0, cur) == ts[k]);
    assert(crate::validate::parent_ok(ts, ts[k]));
    if fuel > 0 {
        match ts[k].parent_id {
            Some(p) => {
                lemma_fresh_not_ancestor(ts, t, p, (fuel - 1) as nat);
            },
            None => {},
        }
    }
}

/// A walk up the parent links from a task of the list meets a parent `x`
/// that is in no task the same way once a task `x` with no parent is added.
proof fn lemma_walk_with_fresh(ts: Seq<TaskV>, t: TaskV, cur: Seq<char>, fuel: nat)
    requires
        !has_task(ts, t.id),
        t.parent_id is None,
        has_task(ts, cur),
    ensures
        reaches_ancestor(ts.push(t), cur, t.id, fuel) == reaches_ancestor(ts, cur, t.id, fuel),
    decreases fuel,
{
    let s0 = ts.push(t);
    lemma_index_of(ts, cur);
    lemma_index_of(s0, cur);
    let k = index_of(ts, cur);
    let k0 = index_of(s0, cur);
    assert(s0[k].id == cur);
    if k0 != k {
        assert(k0 < k);
        assert(s0[k0] == ts[k0]);
    }
    assert(task_of(s0, cur) == ts[k]);
    assert(has_task(s0, cur)) by {
        assert(s0[k].id == cur);
    }
    if fuel > 0 {
        match ts[k].parent_id {
            Some(p) => {
                if p != t.id {
                    if has_task(ts, p) {
                        lemma_walk_with_fresh(ts, t, p, (fuel - 1) as nat);
                    } else {
                        if has_task(s0, p) {
                            let w = choose|w: int| 0 <= w < s0.len() && s0[w].id == p;
                            if w < ts.len() {
                                assert(ts[w].id == p);
                            }
                        }
                    }
                }
            },
            None => {},
        }
    }
}

/// Adds a task. Its id is the one asked for, which must be free, or a fresh
/// one; every blocker must exist; the parent, if any, must be accepted by
/// `set_parent`. On success the task list holds the new task, linked to its
/// parent and blockers, and the new task is returned. On failure nothing
/// changes.
pub fn create(tasks: &mut Vec<Task>, input: CreateInput, process_id: u32) -> (r: Result<Task, DexError>)
    ensures
        match r {
            Ok(t) => {
                &&& !has_task(old(tasks).deep_view(), t@.id)
                &&& (input.id matches Some(x) ==> t@.id == x@)
                &&& created_fields(unlinked(t@), input)
                &&& all_exist(old(tasks).deep_view(), input.blocked_by.deep_view())
                &&& (input.parent_id matches Some(p) ==> set_parent_allowed(
                    old(tasks).deep_view().push(unlinked(t@)),
                    t@.id,
                    Some(p@),
                ))
                &&& final(tasks).deep_view() == blockers_added(
                    match input.parent_id {
                        Some(p) => reparented(old(tasks).deep_view().push(unlinked(t@)), t@.id, Some(p@)),
                        None => old(tasks).deep_view().push(unlinked(t@)),
                    },
                    t@.id,
                    input.blocked_by.deep_view(),
                )
                &&& t@ == task_of(final(tasks).deep_view(), t@.id)
            },
            Err(e) => {
                &&& final(tasks).deep_view() == old(tasks).deep_view()
                &&& match e {
                    DexError::IdExists { id } => input.id == Some(id) && has_task(old(tasks).deep_view(), id@),
                    DexError::RequestBlockerNotFound { blocker } => !(input.id matches Some(x) && has_task(
                        old(tasks).deep_view(),
                        x@,
                    )) && input.blocked_by.deep_view().contains(blocker@) && !has_task(old(tasks).deep_view(), blocker@),
                    DexError::OwnParent { id: x } => input.parent_id matches Some(p) && p@ == x@ && !has_task(
                        old(tasks).deep_view(),
                        x@,
                    ) && create_inputs_found(old(tasks).deep_view(), input),
                    DexError::ParentNotFound { parent } => input.parent_id matches Some(p) && p@ == parent@
                        && !has_task(old(tasks).deep_view(), parent@) && create_inputs_found(
                        old(tasks).deep_view(),
                        input,
                    ),
                    DexError::ParentIsSubtask { parent, id: x } => input.parent_id matches Some(p) && p@ == parent@
                        && has_task(old(tasks).deep_view(), parent@) && !has_task(old(tasks).deep_view(), x@)
                        && reaches_ancestor(old(tasks).deep_view(), parent@, x@, old(tasks).deep_view().len() + 1)
                        && create_inputs_found(old(tasks).deep_view(), input),
                    _ => false,
                }
            },
        },
        r matches Ok(t) ==> (input.parent_id matches Some(p) ==> !reaches_ancestor(
            old(tasks).deep_view(),
            p@,
            t@.id,
            old(tasks).deep_view().len() + 1,
        )),
        (create_inputs_found(old(tasks).deep_view(), input) && (input.parent_id matches Some(p) ==> has_task(
            old(tasks).deep_view(),
            p@,
        ))) ==> (r is Ok || r matches Err(DexError::ParentIsSubtask { .. })),
        crate::validate::hierarchy_ok(old(tasks).deep_view()) ==> (r is Ok <==> (create_inputs_found(
            old(tasks).deep_view(),
            input,
        ) && (input.parent_id matches Some(p) ==> has_task(old(tasks).deep_view(), p@)))),
{
    let ghost ts = tasks.deep_view();
    let id = match &input.id {
        Some(id) => {
            if crate::task::id_taken(tasks, id.as_str()) {
                return Err(DexError::IdExists { id: id.clone() });
            }
            id.clone()
        },
        None => generate_id(tasks, process_id),
    };
    let mut k: usize = 0;
    while k < input.blocked_by.len()
        invariant
            k <= input.blocked_by.len(),
            ts == tasks.deep_view(),
            input.id matches Some(x) ==> !has_task(ts, x@),
            forall|q: int| 0 <= q < k ==> has_task(ts, #[trigger] input.blocked_by.deep_view()[q]),
        decreases input.blocked_by.len() - k,
    {
        assert(input.blocked_by.deep_view()[k as int] == input.blocked_by[k as int]@);
        assert(input.blocked_by.deep_view().contains(input.blocked_by[k as int]@));
        if !crate::task::id_taken(tasks, input.blocked_by[k].as_str()) {
            return Err(DexError::RequestBlockerNotFound { blocker: input.blocked_by[k].clone() });
        }
        k = k + 1;
    }
    assert(all_exist(ts, input.blocked_by.deep_view()));
    let now = timestamp();
    let mut task = Task::new(id.clone(), input.name, input.description, input.priority);
    task.completed = match input.completed {
        Some(c) => c,
        None => false,
    };
    task.result = input.result;
    task.metadata = input.metadata;
    task.created_at = Some(
        match input.created_at {
            Some(c) => c,
            None => now.clone(),
        },
    );
    task.updated_at = Some(
        match input.updated_at {
            Some(u) => u,
            None => now,
        },
    );
    task.started_at = input.started_at;
    task.completed_at = input.completed_at;
    let ghost base = task@;
    assert(task@.blocked_by =~= Seq::<Seq<char>>::empty());
    assert(task@.blocks =~= Seq::<Seq<char>>::empty());
    assert(task@.children =~= Seq::<Seq<char>>::empty());
    assert(base == unlinked(base));
    let ghost s0 = ts.push(base);
    tasks.push(task);
    assert(tasks.deep_view() =~= s0);
    proof {
        lemma_index_of(s0, id@);
        assert(s0[ts.len() as int].id == id@);
        assert forall|j: int| 0 <= j < ts.len() implies s0[j].id != id@ by {
            if s0[j].id == id@ {
                assert(has_task(ts, id@));
            }
        }
    }
    if let Some(parent) = &input.parent_id {
        match set_parent(tasks, id.as_str(), Some(parent.as_str())) {
            Err(e) => {
                proof {
                    let p = parent@;
                    if p != id@ && has_task(s0, p) {
                        let w = choose|w: int| 0 <= w < s0.len() && s0[w].id == p;
                        assert(w < ts.len());
                        assert(ts[w].id == p);
                    }
                    if !has_task(ts, p) && has_task(s0, p) {
                        let w = choose|w: int| 0 <= w < s0.len() && s0[w].id == p;
                        if w < ts.len() {
                            assert(ts[w].id == p);
                        }
                    }
                    assert(task_of(s0, id@) == base);
                    if crate::validate::hierarchy_ok(ts) && p != id@ && has_task(ts, p) {
                        lemma_fresh_not_ancestor(ts, base, p, s0.len());
                    }
                    if p != id@ && has_task(ts, p) {
                        lemma_walk_with_fresh(ts, base, p, s0.len());
                    }
                    assert(!has_task(ts, id@));
                    assert(all_exist(ts, input.blocked_by.deep_view()));
                    assert(create_inputs_found(ts, input));
                    match &e {
                        DexError::OwnParent { id: x } => {
                            assert(x@ == id@);
                        },
                        DexError::ParentNotFound { parent: q } => {
                            if has_task(ts, q@) {
                                let w = choose|w: int| 0 <= w < ts.len() && ts[w].id == q@;
                                assert(s0[w].id == q@);
                            }
                            assert(!has_task(ts, q@));
                        },
                        DexError::ParentIsSubtask { parent: q, id: x } => {
                            assert(has_task(ts, q@));
                            assert(!crate::validate::hierarchy_ok(ts));
                        },
                        DexError::NotFound { id: x } => {
                            lemma_index_of(s0, id@);
                            assert(has_task(s0, id@));
                            assert(false);
                        },
                        _ => {},
                    }
                }
                let ghost before_pop = tasks@;
                tasks.pop();
                assert(tasks.deep_view() =~= ts) by {
                    assert forall|j: int| 0 <= j < ts.len() implies tasks.deep_view()[j] == ts[j] by {
                        assert(tasks@[j] == before_pop[j]);
                        assert(s0[j] == ts[j]);
                    }
                }
                return Err(e);
            },
            Ok(()) => {
                proof {
                    let p = parent@;
                    let w = choose|w: int| 0 <= w < s0.len() && s0[w].id == p;
                    if w == ts.len() {
                        assert(s0[w].id == id@);
                    }
                    assert(ts[w].id == p);
                    lemma_walk_with_fresh(ts, base, p, s0.len());
                }
            },
        }
    }
    let ghost s1 = tasks.deep_view();
    proof {
        if let Some(p) = input.parent_id {
            lemma_reparented_frame(s0, id@, Some(p@));
        }
        assert(same_content(s0, s1));
        lemma_content_ids(s0, s1);
        assert forall|x: Seq<char>| has_task(ts, x) implies #[trigger] has_task(s1, x) by {
            let w = choose|w: int| 0 <= w < ts.len() && ts[w].id == x;
            assert(s0[w].id == x);
            lemma_same_ids(s0, s1, x);
        }
        lemma_same_ids(s0, s1, id@);
    }
    let mut k: usize = 0;
    while k < input.blocked_by.len()
        invariant
            k <= input.blocked_by.len(),
            has_task(s1, id@),
            !has_task(ts, id@),
            all_exist(ts, input.blocked_by.deep_view()),
            forall|x: Seq<char>| has_task(ts, x) ==> #[trigger] has_task(s1, x),
            tasks.deep_view() == blockers_added(s1, id@, input.blocked_by.deep_view().take(k as int)),
        decreases input.blocked_by.len() - k,
    {
        let ghost bs = input.blocked_by.deep_view();
        let ghost cur = tasks.deep_view();
        assert(bs.take(k + 1).drop_last() =~= bs.take(k as int));
        assert(bs[k as int] == input.blocked_by[k as int]@);
        proof {
            assert(all_exist(s1, bs.take(k as int))) by {
                assert forall|q: int| 0 <= q < bs.take(k as int).len() implies has_task(s1, #[trigger] bs.take(k as int)[q]) by {
                    assert(has_task(ts, bs[q]));
                }
            }
            lemma_blockers_added_frame(s1, id@, bs.take(k as int));
            lemma_content_ids(s1, cur);
            lemma_same_ids(s1, cur, id@);
            lemma_same_ids(s1, cur, bs[k as int]);
            assert(has_task(ts, bs[k as int]));
            if bs[k as int] == id@ {
                assert(has_task(ts, id@));
            }
        }
        match add_blocker(tasks, id.as_str(), input.blocked_by[k].as_str()) {
            Ok(()) => {},
            Err(e) => {
                assert(false);
                return Err(e);
            },
        }
        k = k + 1;
    }
    assert(input.blocked_by.deep_view().take(input.blocked_by.len() as int) =~= input.blocked_by.deep_view());
    let ghost fin = tasks.deep_view();
    proof {
        lemma_index_of(fin, id@);
        assert(all_exist(s1, input.blocked_by.deep_view())) by {
            assert forall|q: int| 0 <= q < input.blocked_by.deep_view().len() implies has_task(s1, #[trigger] input.blocked_by.deep_view()[q]) by {
                assert(has_task(ts, input.blocked_by.deep_view()[q]));
            }
        }
        lemma_blockers_added_frame(s1, id@, input.blocked_by.deep_view());
        lemma_content_ids(s1, fin);
        lemma_same_ids(s1, fin, id@);
        lemma_same_ids(s0, s1, id@);
        lemma_index_of(s0, id@);
    }
    match find_index(tasks, id.as_str()) {
        Some(i) => {
            assert(tasks@[i as int]@ == fin[i as int]);
            let t = tasks[i].duplicate();
            assert(unlinked(fin[i as int]) == unlinked(s1[i as int]));
            assert(unlinked(s1[i as int]) == unlinked(s0[i as int]));
            Ok(t)
        },
        None => {
            assert(false);
            Err(DexError::NotFound { id })
        },
    }
}

/// Removing a blocker from an existing task changes links only.
proof fn lemma_blocker_removed_frame(s: Seq<TaskV>, id: Seq<char>, b: Seq<char>)
    requires
        has_task(s, id),
    ensures
        same_content(s, blocker_removed(s, id, b)),
{
    lemma_index_of(s, id);
    lemma_index_of(s, b);
    let r = blocker_removed(s, id, b);
    assert forall|j: int| 0 <= j < s.len() implies #[trigger] unlinked(r[j]) == unlinked(s[j]) by {}
}

/// Removing blockers from an existing task changes links only.
proof fn lemma_blockers_removed_frame(s: Seq<TaskV>, id: Seq<char>, bs: Seq<Seq<char>>)
    requires
        has_task(s, id),
    ensures
        same_content(s, blockers_removed(s, id, bs)),
    decreases bs.len(),
{
    if bs.len() > 0 {
        lemma_blockers_removed_frame(s, id, bs.drop_last());
        let m = blockers_removed(s, id, bs.drop_last());
        lemma_content_ids(s, m);
        lemma_same_ids(s, m, id);
        lemma_blocker_removed_frame(m, id, bs.last());
    }
}

/// Same content is transitive.
proof fn lemma_content_trans(a: Seq<TaskV>, b: Seq<TaskV>, c: Seq<TaskV>)
    requires
        same_content(a, b),
        same_content(b, c),
    ensures
        same_content(a, c),
{
    assert forall|j: int| 0 <= j < a.len() implies #[trigger] unlinked(c[j]) == unlinked(a[j]) by {
        assert(unlinked(c[j]) == unlinked(b[j]));
    }
}

/// Why `update` refuses to make `b` a blocker of `id` in `s`.
pub open spec fn add_refused(s: Seq<TaskV>, id: Seq<char>, b: Seq<char>) -> bool {
    b == id || !has_task(s, b) || reachable(s, false, b, id)
}

/// Each blocker of `bs`, in turn, is accepted on the list as the blockers
/// before it left it.
pub open spec fn adds_ok(s: Seq<TaskV>, id: Seq<char>, bs: Seq<Seq<char>>) -> bool
    decreases bs.len(),
{
    bs.len() == 0 || (adds_ok(s, id, bs.drop_last()) && !add_refused(blockers_added(s, id, bs.drop_last()), id, bs.last()))
}

/// The list after the parent step of an update.
pub open spec fn update_parent_step(ts: Seq<TaskV>, input: UpdateInput) -> Seq<TaskV> {
    match input.parent_id {
        Some(p) => reparented(ts, input.id@, ov(p)),
        None => ts,
    }
}

/// The list after the link steps of an update.
pub open spec fn update_links(ts: Seq<TaskV>, input: UpdateInput) -> Seq<TaskV> {
    blockers_removed(
        blockers_added(update_parent_step(ts, input), input.id@, input.add_blocked_by.deep_view()),
        input.id@,
        input.remove_blocked_by.deep_view(),
    )
}

/// The task `t` is `u` with the fields of an update applied, where `now` is
/// the time of the update.
pub open spec fn updated_fields(t: TaskV, u: TaskV, input: UpdateInput, now: Seq<char>) -> bool {
    &&& t.id == u.id
    &&& t.parent_id == u.parent_id
    &&& t.children == u.children
    &&& t.blocked_by == u.blocked_by
    &&& t.blocks == u.blocks
    &&& t.created_at == u.created_at
    &&& t.name == match input.name {
        Some(n) => n@,
        None => u.name,
    }
    &&& t.description == match input.description {
        Some(d) => d@,
        None => u.description,
    }
    &&& t.priority == match input.priority {
        Some(p) => p,
        None => u.priority,
    }
    &&& t.completed == match input.completed {
        Some(c) => c,
        None => u.completed,
    }
    &&& t.completed_at == match input.completed_at {
        Some(c) => ov(c),
        None => match input.completed {
            Some(true) => if !u.completed {
                Some(now)
            } else {
                u.completed_at
            },
            Some(false) => if u.completed {
                None
            } else {
                u.completed_at
            },
            None => u.completed_at,
        },
    }
    &&& t.result == match input.result {
        Some(r) => ov(r),
        None => u.result,
    }
    &&& t.started_at == match input.started_at {
        Some(x) => ov(x),
        None => u.started_at,
    }
    &&& t.metadata == match input.metadata {
        Some(m) => opt_json_view(m),
        None => u.metadata,
    }
    &&& t.updated_at == Some(
        match input.updated_at {
            Some(x) => x@,
            None => now,
        },
    )
}

/// An update at time `now` turns `ts` into `fin`, with `t` the updated task.
pub open spec fn update_outcome(ts: Seq<TaskV>, input: UpdateInput, t: TaskV, fin: Seq<TaskV>, now: Seq<char>) -> bool {
    let s = update_links(ts, input);
    &&& updated_fields(t, task_of(s, input.id@), input, now)
    &&& fin == s.update(index_of(s, input.id@), t)
}

/// The list of an update after its parent step and its first `k` blockers.
pub open spec fn state_before(ts: Seq<TaskV>, input: UpdateInput, k: int) -> Seq<TaskV> {
    blockers_added(update_parent_step(ts, input), input.id@, input.add_blocked_by.deep_view().take(k))
}

/// The first `k` blockers of an update were accepted, and there is a next one.
pub open spec fn accepted_before(ts: Seq<TaskV>, input: UpdateInput, k: int) -> bool {
    &&& 0 <= k < input.add_blocked_by.len()
    &&& adds_ok(update_parent_step(ts, input), input.id@, input.add_blocked_by.deep_view().take(k))
}

/// The checks `update` makes, all passed.
pub open spec fn update_allowed(ts: Seq<TaskV>, input: UpdateInput) -> bool {
    &&& has_task(ts, input.id@)
    &&& input.parent_id matches Some(p) ==> ov(p) != Some(input.id@) && set_parent_allowed(ts, input.id@, ov(p))
    &&& adds_ok(update_parent_step(ts, input), input.id@, input.add_blocked_by.deep_view())
}

/// Each blocker accepted in turn leaves the next one accepted, up to `k`.
proof fn lemma_adds_ok_at(s: Seq<TaskV>, id: Seq<char>, bs: Seq<Seq<char>>, k: int)
    requires
        adds_ok(s, id, bs),
        0 <= k < bs.len(),
    ensures
        adds_ok(s, id, bs.take(k)),
        !add_refused(blockers_added(s, id, bs.take(k)), id, bs[k]),
    decreases bs.len(),
{
    if k == bs.len() - 1 {
        assert(bs.take(k) =~= bs.drop_last());
    } else {
        lemma_adds_ok_at(s, id, bs.drop_last(), k);
        assert(bs.drop_last().take(k) =~= bs.take(k));
    }
}

/// The blockers before position `k` were accepted from `s`, and there is one
/// at `k`.
pub open spec fn accepted_from(s: Seq<TaskV>, id: Seq<char>, bs: Seq<Seq<char>>, k: int) -> bool {
    0 <= k < bs.len() && adds_ok(s, id, bs.take(k))
}

/// Adds each of `adds` as a blocker of `id`, refusing one that is `id`
/// itself, does not exist, or would close a cycle of blockers.
fn add_blockers_checked(work: &mut Vec<Task>, id: &String, adds: &Vec<String>) -> (r: Result<(), DexError>)
    requires
        has_task(old(work).deep_view(), id@),
    ensures
        r is Ok <==> adds_ok(old(work).deep_view(), id@, adds.deep_view()),
        r is Ok ==> final(work).deep_view() == blockers_added(old(work).deep_view(), id@, adds.deep_view()),
        r is Ok ==> all_exist(old(work).deep_view(), adds.deep_view()),
        r matches Err(e) ==> match e {
            DexError::RequestBlocksItself => exists|k: int|
                #[trigger] accepted_from(old(work).deep_view(), id@, adds.deep_view(), k) && adds.deep_view()[k] == id@
                    && add_refused(blockers_added(old(work).deep_view(), id@, adds.deep_view().take(k)), id@, adds.deep_view()[k]),
            DexError::RequestBlockerNotFound { blocker } => exists|k: int|
                #[trigger] accepted_from(old(work).deep_view(), id@, adds.deep_view(), k) && adds.deep_view()[k] == blocker@
                    && blocker@ != id@ && !has_task(blockers_added(old(work).deep_view(), id@, adds.deep_view().take(k)), blocker@)
                    && add_refused(blockers_added(old(work).deep_view(), id@, adds.deep_view().take(k)), id@, adds.deep_view()[k]),
            DexError::BlockerCycle { blocker } => exists|k: int|
                #[trigger] accepted_from(old(work).deep_view(), id@, adds.deep_view(), k) && adds.deep_view()[k] == blocker@
                    && blocker@ != id@ && has_task(blockers_added(old(work).deep_view(), id@, adds.deep_view().take(k)), blocker@)
                    && reachable(blockers_added(old(work).deep_view(), id@, adds.deep_view().take(k)), false, blocker@, id@)
                    && add_refused(blockers_added(old(work).deep_view(), id@, adds.deep_view().take(k)), id@, adds.deep_view()[k]),
            _ => false,
        },
{
    let ghost s1 = work.deep_view();
    let ghost bs = adds.deep_view();
    let mut k: usize = 0;
    while k < adds.len()
        invariant
            k <= adds.len(),
            bs == adds.deep_view(),
            s1 == old(work).deep_view(),
            has_task(s1, id@),
            adds_ok(s1, id@, bs.take(k as int)),
            all_exist(s1, bs.take(k as int)),
            work.deep_view() == blockers_added(s1, id@, bs.take(k as int)),
        decreases adds.len() - k,
    {
        let ghost cur = work.deep_view();
        assert(bs.take(k + 1).drop_last() =~= bs.take(k as int));
        assert(bs[k as int] == adds[k as int]@);
        assert(bs.take(k + 1).last() == bs[k as int]);
        proof {
            lemma_blockers_added_frame(s1, id@, bs.take(k as int));
            lemma_content_ids(s1, cur);
            lemma_same_ids(s1, cur, id@);
            lemma_same_ids(s1, cur, bs[k as int]);
        }
        let b = adds[k].as_str();
        assert(b@ == bs[k as int]);
        assert(accepted_from(s1, id@, bs, k as int));
        if str_eq(b, id.as_str()) {
            assert(bs[k as int] == id@);
            assert(add_refused(blockers_added(s1, id@, bs.take(k as int)), id@, bs[k as int]));
            proof {
                if adds_ok(s1, id@, bs) {
                    lemma_adds_ok_at(s1, id@, bs, k as int);
                }
            }
            return Err(DexError::RequestBlocksItself);
        }
        proof {
            lemma_index_of(cur, b@);
        }
        if find_index(work, b).is_none() {
            proof {
                if adds_ok(s1, id@, bs) {
                    lemma_adds_ok_at(s1, id@, bs, k as int);
                }
            }
            return Err(DexError::RequestBlockerNotFound { blocker: adds[k].clone() });
        }
        if blocked_through(work, b, id.as_str()) {
            proof {
                if adds_ok(s1, id@, bs) {
                    lemma_adds_ok_at(s1, id@, bs, k as int);
                }
            }
            return Err(DexError::BlockerCycle { blocker: adds[k].clone() });
        }
        match add_blocker(work, id.as_str(), b) {
            Ok(()) => {},
            Err(e) => {
                assert(false);
                return Err(e);
            },
        }
        proof {
            assert(all_exist(s1, bs.take(k + 1))) by {
                assert forall|q: int| 0 <= q < bs.take(k + 1).len() implies has_task(s1, #[trigger] bs.take(k + 1)[q]) by {
                    if q < k {
                        assert(bs.take(k + 1)[q] == bs.take(k as int)[q]);
                    }
                }
            }
        }
        k = k + 1;
    }
    assert(bs.take(adds.len() as int) =~= bs);
    Ok(())
}

/// Removes each of `removes` from the blockers of `id`.
fn remove_blockers(work: &mut Vec<Task>, id: &String, removes: &Vec<String>)
    requires
        has_task(old(work).deep_view(), id@),
    ensures
        final(work).deep_view() == blockers_removed(old(work).deep_view(), id@, removes.deep_view()),
{
    let ghost s2 = work.deep_view();
    let ghost bs = removes.deep_view();
    let mut k: usize = 0;
    while k < removes.len()
        invariant
            k <= removes.len(),
            bs == removes.deep_view(),
            s2 == old(work).deep_view(),
            has_task(s2, id@),
            work.deep_view() == blockers_removed(s2, id@, bs.take(k as int)),
        decreases removes.len() - k,
    {
        let ghost cur = work.deep_view();
        assert(bs.take(k + 1).drop_last() =~= bs.take(k as int));
        assert(bs[k as int] == removes[k as int]@);
        proof {
            lemma_blockers_removed_frame(s2, id@, bs.take(k as int));
            lemma_content_ids(s2, cur);
            lemma_same_ids(s2, cur, id@);
        }
        match remove_blocker(work, id.as_str(), removes[k].as_str()) {
            Ok(()) => {},
            Err(_) => {
                assert(false);
            },
        }
        k = k + 1;
    }
    assert(bs.take(removes.len() as int) =~= bs);
}

/// `u` with the fields of an update applied at time `now`.
fn apply_fields(u: &Task, input: &UpdateInput, now: &String) -> (t: Task)
    ensures
        updated_fields(t@, u@, *input, now@),
{
    let mut t = u.duplicate();
    if let Some(name) = &input.name {
        t.name = name.clone();
    }
    if let Some(description) = &input.description {
        t.description = description.clone();
    }
    if let Some(priority) = input.priority {
        t.priority = priority;
    }
    if let Some(completed) = input.completed {
        if completed && !u.completed {
            t.completed_at = Some(now.clone());
        } else if !completed && u.completed {
            t.completed_at = None;
        }
        t.completed = completed;
    }
    if let Some(completed_at) = &input.completed_at {
        t.completed_at = copy_opt(completed_at);
    }
    if let Some(result) = &input.result {
        t.result = copy_opt(result);
    }
    if let Some(started_at) = &input.started_at {
        t.started_at = copy_opt(started_at);
    }
    if let Some(metadata) = &input.metadata {
        t.metadata = crate::json::copy_opt_json(metadata);
    }
    t.updated_at = Some(
        match &input.updated_at {
            Some(x) => x.clone(),
            None => now.clone(),
        },
    );
    t
}

/// Changes one task: first its parent, then the blockers to add (each
/// checked not to close a cycle), then the blockers to remove, then its
/// fields. On success the changed task is returned; on failure nothing changes.
#[verifier::spinoff_prover]
#[verifier::rlimit(60)]
pub fn update(tasks: &mut Vec<Task>, input: UpdateInput) -> (r: Result<Task, DexError>)
    ensures
        r is Ok <==> update_allowed(old(tasks).deep_view(), input),
        r matches Ok(t) ==> exists|now: Seq<char>| #[trigger] update_outcome(old(tasks).deep_view(), input, t@, final(tasks).deep_view(), now),
        r is Err ==> final(tasks).deep_view() == old(tasks).deep_view(),
        r matches Err(e) ==> match e {
            DexError::RequestNotFound { id } => id@ == input.id@ && !has_task(old(tasks).deep_view(), input.id@),
            DexError::RequestOwnParent => has_task(old(tasks).deep_view(), input.id@) && (input.parent_id matches Some(
                p,
            ) && ov(p) == Some(input.id@)),
            DexError::ParentNotFound { .. } | DexError::ParentIsSubtask { .. } | DexError::NotFound { .. }
            | DexError::OwnParent { .. } => has_task(old(tasks).deep_view(), input.id@) && (input.parent_id matches Some(
                p,
            ) && ov(p) != Some(input.id@) && !set_parent_allowed(old(tasks).deep_view(), input.id@, ov(p))),
            DexError::RequestBlocksItself => exists|k: int| #[trigger] accepted_before(old(tasks).deep_view(), input, k)
                && input.add_blocked_by.deep_view()[k] == input.id@,
            DexError::RequestBlockerNotFound { blocker } => exists|k: int|
                #[trigger] accepted_before(old(tasks).deep_view(), input, k) && input.add_blocked_by.deep_view()[k]
                    == blocker@ && blocker@ != input.id@ && !has_task(state_before(old(tasks).deep_view(), input, k), blocker@),
            DexError::BlockerCycle { blocker } => exists|k: int|
                #[trigger] accepted_before(old(tasks).deep_view(), input, k) && input.add_blocked_by.deep_view()[k]
                    == blocker@ && blocker@ != input.id@ && has_task(state_before(old(tasks).deep_view(), input, k), blocker@)
                    && reachable(state_before(old(tasks).deep_view(), input, k), false, blocker@, input.id@),
            _ => false,
        },
{
    let ghost ts = tasks.deep_view();
    let id = &input.id;
    proof {
        lemma_index_of(ts, id@);
    }
    if find_index(tasks, id.as_str()).is_none() {
        return Err(DexError::RequestNotFound { id: id.clone() });
    }
    let mut work = copy_tasks(tasks);
    if let Some(parent) = &input.parent_id {
        let same = match parent {
            Some(p) => str_eq(p.as_str(), id.as_str()),
            None => false,
        };
        if same {
            return Err(DexError::RequestOwnParent);
        }
        let target: Option<&str> = match parent {
            Some(p) => Some(p.as_str()),
            None => None,
        };
        match set_parent(&mut work, id.as_str(), target) {
            Err(e) => {
                return Err(e);
            },
            Ok(()) => {},
        }
    }
    let ghost s1 = work.deep_view();
    assert(s1 == update_parent_step(ts, input));
    proof {
        if input.parent_id is Some {
            lemma_reparented_frame(ts, id@, ov(input.parent_id->0));
        }
        assert(same_content(ts, s1));
        lemma_content_ids(ts, s1);
        lemma_same_ids(ts, s1, id@);
    }
    match add_blockers_checked(&mut work, id, &input.add_blocked_by) {
        Err(e) => {
            proof {
                let bs = input.add_blocked_by.deep_view();
                match e {
                    DexError::RequestBlocksItself => {
                        let k = choose|k: int|
                            #[trigger] accepted_from(s1, id@, bs, k) && bs[k] == id@ && add_refused(
                                blockers_added(s1, id@, bs.take(k)),
                                id@,
                                bs[k],
                            );
                        assert(accepted_before(ts, input, k));
                    },
                    DexError::RequestBlockerNotFound { ref blocker } => {
                        let k = choose|k: int|
                            #[trigger] accepted_from(s1, id@, bs, k) && bs[k] == blocker@ && blocker@ != id@ && !has_task(
                                blockers_added(s1, id@, bs.take(k)),
                                blocker@,
                            ) && add_refused(blockers_added(s1, id@, bs.take(k)), id@, bs[k]);
                        assert(accepted_before(ts, input, k));
                        assert(state_before(ts, input, k) == blockers_added(s1, id@, bs.take(k)));
                    },
                    DexError::BlockerCycle { ref blocker } => {
                        let k = choose|k: int|
                            #[trigger] accepted_from(s1, id@, bs, k) && bs[k] == blocker@ && blocker@ != id@ && has_task(
                                blockers_added(s1, id@, bs.take(k)),
                                blocker@,
                            ) && reachable(blockers_added(s1, id@, bs.take(k)), false, blocker@, id@) && add_refused(
                                blockers_added(s1, id@, bs.take(k)),
                                id@,
                                bs[k],
                            );
                        assert(accepted_before(ts, input, k));
                        assert(state_before(ts, input, k) == blockers_added(s1, id@, bs.take(k)));
                    },
                    _ => {},
                }
            }
            return Err(e);
        },
        Ok(()) => {},
    }
    let ghost s2 = work.deep_view();
    proof {
        lemma_blockers_added_frame(s1, id@, input.add_blocked_by.deep_view());
        lemma_content_ids(s1, s2);
        lemma_same_ids(s1, s2, id@);
    }
    remove_blockers(&mut work, id, &input.remove_blocked_by);
    let ghost s3 = work.deep_view();
    assert(s3 == update_links(ts, input));
    proof {
        lemma_blockers_removed_frame(s2, id@, input.remove_blocked_by.deep_view());
        lemma_content_ids(s2, s3);
        lemma_same_ids(s2, s3, id@);
        lemma_index_of(s3, id@);
    }
    let i = match find_index(&work, id.as_str()) {
        Some(i) => i,
        None => {
            assert(false);
            return Err(DexError::RequestNotFound { id: id.clone() });
        },
    };
    let now = timestamp();
    let u = &work[i];
    assert(u@ == s3[i as int]);
    let t = apply_fields(u, &input, &now);
    assert(updated_fields(t@, task_of(s3, id@), input, now@));
    let result = t.duplicate();
    put(&mut work, i, t);
    *tasks = work;
    assert(update_outcome(ts, input, result@, tasks.deep_view(), now@));
    Ok(result)
}

/// `x` is the id of `root` or of a task below it.
pub open spec fn in_subtree(ts: Seq<TaskV>, root: Seq<char>, x: Seq<char>) -> bool {
    has_task(ts, x) && reachable(ts, true, root, x)
}

/// The tasks of `s` inside (or outside) the subtree of `root` in `ts`, in order.
pub open spec fn subtree_part(s: Seq<TaskV>, ts: Seq<TaskV>, root: Seq<char>, inside: bool) -> Seq<TaskV>
    decreases s.len(),
{
    if s.len() == 0 {
        s
    } else {
        let rest = subtree_part(s.drop_last(), ts, root, inside);
        if in_subtree(ts, root, s.last().id) == inside {
            rest.push(s.last())
        } else {
            rest
        }
    }
}

/// The ids of `l` outside the subtree of `root` in `ts`, in order.
pub open spec fn ids_outside(l: Seq<Seq<char>>, ts: Seq<TaskV>, root: Seq<char>) -> Seq<Seq<char>>
    decreases l.len(),
{
    if l.len() == 0 {
        l
    } else {
        let rest = ids_outside(l.drop_last(), ts, root);
        if in_subtree(ts, root, l.last()) {
            rest
        } else {
            rest.push(l.last())
        }
    }
}

/// A task with every link into the subtree of `root` dropped.
pub open spec fn pruned(t: TaskV, ts: Seq<TaskV>, root: Seq<char>) -> TaskV {
    TaskV {
        children: ids_outside(t.children, ts, root),
        blocked_by: ids_outside(t.blocked_by, ts, root),
        blocks: ids_outside(t.blocks, ts, root),
        ..t
    }
}

/// The task list after deleting the subtree of `root`.
pub open spec fn after_delete(ts: Seq<TaskV>, root: Seq<char>) -> Seq<TaskV> {
    subtree_part(ts, ts, root, false).map_values(|t: TaskV| pruned(t, ts, root))
}

/// The strings of `l` that `ids` does not hold, in order.
fn keep_outside(l: &Vec<String>, ids: &Vec<String>, Ghost(ts): Ghost<Seq<TaskV>>, Ghost(root): Ghost<Seq<char>>) -> (r: Vec<String>)
    requires
        forall|x: Seq<char>| #[trigger] ids.deep_view().contains(x) <==> in_subtree(ts, root, x),
    ensures
        r.deep_view() == ids_outside(l.deep_view(), ts, root),
{
    let ghost s = l.deep_view();
    let mut r: Vec<String> = Vec::new();
    let mut i: usize = 0;
    while i < l.len()
        invariant
            i <= l.len(),
            s == l.deep_view(),
            forall|x: Seq<char>| #[trigger] ids.deep_view().contains(x) <==> in_subtree(ts, root, x),
            r.deep_view() == ids_outside(s.take(i as int), ts, root),
        decreases l.len() - i,
    {
        assert(s.take(i + 1).drop_last() =~= s.take(i as int));
        assert(s.take(i + 1).last() == l[i as int]@);
        if !list_contains(ids, l[i].as_str()) {
            let ghost before = r.deep_view();
            r.push(l[i].clone());
            assert(r.deep_view() =~= before.push(l[i as int]@));
        }
        i = i + 1;
    }
    assert(s.take(l.len() as int) =~= s);
    r
}

/// Removes a task and every task below it, and every link to them. Returns
/// the removed tasks, in list order.
pub fn delete(tasks: &mut Vec<Task>, id: &str) -> (r: Result<Vec<Task>, DexError>)
    ensures
        r is Ok <==> has_task(old(tasks).deep_view(), id@),
        r matches Ok(removed) ==> removed.deep_view() == subtree_part(old(tasks).deep_view(), old(tasks).deep_view(), id@, true)
            && final(tasks).deep_view() == after_delete(old(tasks).deep_view(), id@),
        r is Err ==> final(tasks).deep_view() == old(tasks).deep_view(),
        r matches Err(e) ==> (e matches DexError::RequestNotFound { id: x } && x@ == id@),
{
    let ghost ts = tasks.deep_view();
    proof {
        lemma_index_of(ts, id@);
    }
    if find_index(tasks, id).is_none() {
        return Err(DexError::RequestNotFound { id: owned(id) });
    }
    let ids = subtree_ids(tasks, id);
    let mut removed: Vec<Task> = Vec::new();
    let mut kept: Vec<Task> = Vec::new();
    let mut i: usize = 0;
    while i < tasks.len()
        invariant
            i <= tasks.len(),
            ts == tasks.deep_view(),
            forall|x: Seq<char>| #[trigger] ids.deep_view().contains(x) <==> in_subtree(ts, id@, x),
            removed.deep_view() == subtree_part(ts.take(i as int), ts, id@, true),
            kept.deep_view() == subtree_part(ts.take(i as int), ts, id@, false).map_values(|t: TaskV| pruned(t, ts, id@)),
        decreases tasks.len() - i,
    {
        let task = &tasks[i];
        assert(ts.take(i + 1).drop_last() =~= ts.take(i as int));
        assert(ts.take(i + 1).last() == task@);
        if list_contains(&ids, task.id.as_str()) {
            let ghost before = removed.deep_view();
            removed.push(task.duplicate());
            assert(removed.deep_view() =~= before.push(task@));
        } else {
            let mut t = task.duplicate();
            t.children = keep_outside(&task.children, &ids, Ghost(ts), Ghost(id@));
            t.blocked_by = keep_outside(&task.blocked_by, &ids, Ghost(ts), Ghost(id@));
            t.blocks = keep_outside(&task.blocks, &ids, Ghost(ts), Ghost(id@));
            let ghost before = kept.deep_view();
            let ghost part = subtree_part(ts.take(i as int), ts, id@, false);
            let ghost tv = t@;
            assert(tv == pruned(task@, ts, id@));
            kept.push(t);
            assert(kept.deep_view() =~= before.push(tv));
            assert(before.push(tv) =~= part.push(task@).map_values(|t: TaskV| pruned(t, ts, id@))) by {
                let m = part.push(task@).map_values(|t: TaskV| pruned(t, ts, id@));
                assert forall|j: int| 0 <= j < m.len() implies m[j] == before.push(tv)[j] by {
                    if j < part.len() {
                        assert(part.push(task@)[j] == part[j]);
                    }
                }
            }
        }
        i = i + 1;
    }
    assert(ts.take(tasks.len() as int) =~= ts);
    *tasks = kept;
    Ok(removed)
}

} // verus!

verus! {

proof fn lemma_ids_outside(l: Seq<Seq<char>>, ts: Seq<TaskV>, root: Seq<char>)
    ensures
        forall|k: int| 0 <= k < ids_outside(l, ts, root).len() ==> !in_subtree(ts, root, #[trigger] ids_outside(l, ts, root)[k]),
    decreases l.len(),
{
    if l.len() > 0 {
        lemma_ids_outside(l.drop_last(), ts, root);
        let r = ids_outside(l, ts, root);
        let rd = ids_outside(l.drop_last(), ts, root);
        assert forall|k: int| 0 <= k < r.len() implies !in_subtree(ts, root, #[trigger] r[k]) by {
            if k < rd.len() {
                assert(r[k] == rd[k]);
            }
        }
    }
}

proof fn lemma_subtree_part(s: Seq<TaskV>, ts: Seq<TaskV>, root: Seq<char>, inside: bool)
    ensures
        forall|k: int|
            0 <= k < subtree_part(s, ts, root, inside).len() ==> in_subtree(
                ts,
                root,
                #[trigger] subtree_part(s, ts, root, inside)[k].id,
            ) == inside && s.contains(subtree_part(s, ts, root, inside)[k]),
    decreases s.len(),
{
    if s.len() > 0 {
        let d = s.drop_last();
        lemma_subtree_part(d, ts, root, inside);
        let r = subtree_part(s, ts, root, inside);
        let rd = subtree_part(d, ts, root, inside);
        assert forall|k: int| 0 <= k < r.len() implies in_subtree(ts, root, #[trigger] r[k].id) == inside && s.contains(r[k]) by {
            if k < rd.len() {
                assert(r[k] == rd[k]);
                assert(0 <= k < subtree_part(d, ts, root, inside).len());
                assert(in_subtree(ts, root, subtree_part(d, ts, root, inside)[k].id) == inside);
                assert(d.contains(rd[k]));
                let w = choose|w: int| 0 <= w < d.len() && d[w] == rd[k];
                assert(s[w] == d[w]);
            } else {
                assert(s[s.len() - 1] == s.last());
            }
        }
    }
}

proof fn lemma_subtree_part_complete(s: Seq<TaskV>, ts: Seq<TaskV>, root: Seq<char>, inside: bool)
    ensures
        forall|i: int|
            0 <= i < s.len() && in_subtree(ts, root, #[trigger] s[i].id) == inside ==> subtree_part(s, ts, root, inside).contains(s[i]),
    decreases s.len(),
{
    if s.len() > 0 {
        let d = s.drop_last();
        lemma_subtree_part_complete(d, ts, root, inside);
        let r = subtree_part(s, ts, root, inside);
        let rd = subtree_part(d, ts, root, inside);
        assert forall|i: int| 0 <= i < s.len() && in_subtree(ts, root, #[trigger] s[i].id) == inside implies r.contains(s[i]) by {
            if i < d.len() {
                assert(d[i] == s[i]);
                assert(in_subtree(ts, root, d[i].id) == inside);
                assert(rd.contains(d[i]));
                let v = choose|v: int| 0 <= v < rd.len() && rd[v] == d[i];
                assert(r[v] == rd[v]);
            } else {
                assert(r[r.len() - 1] == s[i]);
            }
        }
    }
}

/// After a delete, nothing that remains points at what was deleted: no
/// remaining task is one of the deleted tasks, and no remaining task's
/// children, blockers or blocked tasks name a deleted task. Every remaining
/// task was there before.
pub proof fn law_delete_unlinks(ts: Seq<TaskV>, root: Seq<char>)
    ensures
        ({
            let fin = after_delete(ts, root);
            let removed = subtree_part(ts, ts, root, true);
            forall|j: int, m: int|
                0 <= j < fin.len() && 0 <= m < removed.len() ==> {
                    let gone = #[trigger] removed[m].id;
                    &&& #[trigger] fin[j].id != gone
                    &&& !fin[j].children.contains(gone)
                    &&& !fin[j].blocked_by.contains(gone)
                    &&& !fin[j].blocks.contains(gone)
                }
        }),
        forall|j: int| 0 <= j < after_delete(ts, root).len() ==> exists|i: int|
            0 <= i < ts.len() && #[trigger] after_delete(ts, root)[j].id == ts[i].id,
        has_task(ts, root) ==> exists|m: int|
            0 <= m < subtree_part(ts, ts, root, true).len() && #[trigger] subtree_part(ts, ts, root, true)[m].id == root,
        forall|i: int|
            0 <= i < ts.len() && !in_subtree(ts, root, #[trigger] ts[i].id) ==> exists|j: int|
                0 <= j < after_delete(ts, root).len() && after_delete(ts, root)[j].id == ts[i].id,
{
    lemma_subtree_part_complete(ts, ts, root, true);
    lemma_subtree_part_complete(ts, ts, root, false);
    if has_task(ts, root) {
        let i = choose|i: int| 0 <= i < ts.len() && ts[i].id == root;
        assert(crate::relations::is_walk(ts, true, seq![root]));
        assert(in_subtree(ts, root, ts[i].id));
        assert(subtree_part(ts, ts, root, true).contains(ts[i]));
    }
    assert forall|i: int| 0 <= i < ts.len() && !in_subtree(ts, root, #[trigger] ts[i].id) implies exists|j: int|
        0 <= j < after_delete(ts, root).len() && after_delete(ts, root)[j].id == ts[i].id by {
        let kept = subtree_part(ts, ts, root, false);
        assert(kept.contains(ts[i]));
        let j = choose|j: int| 0 <= j < kept.len() && kept[j] == ts[i];
        assert(after_delete(ts, root)[j].id == kept[j].id);
    }
    let fin = after_delete(ts, root);
    let kept = subtree_part(ts, ts, root, false);
    let removed = subtree_part(ts, ts, root, true);
    lemma_subtree_part(ts, ts, root, false);
    lemma_subtree_part(ts, ts, root, true);
    assert forall|j: int, m: int| 0 <= j < fin.len() && 0 <= m < removed.len() implies {
        let gone = #[trigger] removed[m].id;
        &&& #[trigger] fin[j].id != gone
        &&& !fin[j].children.contains(gone)
        &&& !fin[j].blocked_by.contains(gone)
        &&& !fin[j].blocks.contains(gone)
    } by {
        let gone = removed[m].id;
        assert(in_subtree(ts, root, gone));
        assert(fin[j] == pruned(kept[j], ts, root));
        assert(!in_subtree(ts, root, kept[j].id));
        lemma_ids_outside(kept[j].children, ts, root);
        lemma_ids_outside(kept[j].blocked_by, ts, root);
        lemma_ids_outside(kept[j].blocks, ts, root);
        if fin[j].children.contains(gone) {
            let w = choose|w: int| 0 <= w < fin[j].children.len() && fin[j].children[w] == gone;
            assert(!in_subtree(ts, root, ids_outside(kept[j].children, ts, root)[w]));
        }
        if fin[j].blocked_by.contains(gone) {
            let w = choose|w: int| 0 <= w < fin[j].blocked_by.len() && fin[j].blocked_by[w] == gone;
            assert(!in_subtree(ts, root, ids_outside(kept[j].blocked_by, ts, root)[w]));
        }
        if fin[j].blocks.contains(gone) {
            let w = choose|w: int| 0 <= w < fin[j].blocks.len() && fin[j].blocks[w] == gone;
            assert(!in_subtree(ts, root, ids_outside(kept[j].blocks, ts, root)[w]));
        }
    }
    assert forall|j: int| 0 <= j < fin.len() implies exists|i: int| 0 <= i < ts.len() && #[trigger] fin[j].id == ts[i].id by {
        assert(fin[j].id == kept[j].id);
        assert(ts.contains(kept[j]));
        let i = choose|i: int| 0 <= i < ts.len() && ts[i] == kept[j];
        assert(fin[j].id == ts[i].id);
    }
}

} // verus!
