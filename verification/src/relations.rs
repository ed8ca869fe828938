//! Parent/child and blocker links between tasks, kept in both directions.
use vstd::prelude::*;

use crate::error::DexError;
use crate::task::{find_index, has_task, index_of, lemma_index_of, task_of, Task, TaskV};
use crate::text::{list_contains, owned, str_eq};
use crate::validate::{
    blocked_by_ok, blocking_ok, blocks_ok, children_ok, hierarchy_ok, lemma_unique_index, parent_ok, unique_ids,
};

verus! {

/// `s` without any occurrence of `x`, the rest in order (`retain(|e| e != x)`).
pub open spec fn without(s: Seq<Seq<char>>, x: Seq<char>) -> Seq<Seq<char>>
    decreases s.len(),
{
    if s.len() == 0 {
        s
    } else {
        let rest = without(s.drop_last(), x);
        if s.last() == x {
            rest
        } else {
            rest.push(s.last())
        }
    }
}

/// `s` with `x` added at the end, unless it is already there.
pub open spec fn with_item(s: Seq<Seq<char>>, x: Seq<char>) -> Seq<Seq<char>> {
    if s.contains(x) {
        s
    } else {
        s.push(x)
    }
}

/// What `without` keeps.
pub proof fn lemma_without_contains(s: Seq<Seq<char>>, x: Seq<char>, y: Seq<char>)
    ensures
        without(s, x).contains(y) <==> (s.contains(y) && y != x),
    decreases s.len(),
{
    if s.len() > 0 {
        let d = s.drop_last();
        let l = s.last();
        lemma_without_contains(d, x, y);
        let rest = without(d, x);
        assert(s =~= d.push(l));
        assert(d.push(l).contains(y) <==> (d.contains(y) || y == l)) by {
            if d.push(l).contains(y) {
                let k = choose|k: int| 0 <= k < d.push(l).len() && d.push(l)[k] == y;
                if k < d.len() {
                    assert(d[k] == y);
                }
            }
            if d.contains(y) {
                let k = choose|k: int| 0 <= k < d.len() && d[k] == y;
                assert(d.push(l)[k] == y);
            }
            if y == l {
                assert(d.push(l)[d.len() as int] == y);
            }
        }
        assert(rest.push(l).contains(y) <==> (rest.contains(y) || y == l)) by {
            if rest.push(l).contains(y) {
                let k = choose|k: int| 0 <= k < rest.push(l).len() && rest.push(l)[k] == y;
                if k < rest.len() {
                    assert(rest[k] == y);
                }
            }
            if rest.contains(y) {
                let k = choose|k: int| 0 <= k < rest.len() && rest[k] == y;
                assert(rest.push(l)[k] == y);
            }
            if y == l {
                assert(rest.push(l)[rest.len() as int] == y);
            }
        }
    }
}

/// Removing what is absent changes nothing.
pub proof fn lemma_without_absent(s: Seq<Seq<char>>, x: Seq<char>)
    requires
        !s.contains(x),
    ensures
        without(s, x) == s,
    decreases s.len(),
{
    if s.len() > 0 {
        assert(!s.drop_last().contains(x)) by {
            if s.drop_last().contains(x) {
                let k = choose|k: int| 0 <= k < s.drop_last().len() && s.drop_last()[k] == x;
                assert(s[k] == x);
            }
        }
        lemma_without_absent(s.drop_last(), x);
        assert(s.last() != x);
        assert(s.drop_last().push(s.last()) =~= s);
    }
}

/// A copy of `v` without the strings equal to `x`.
pub fn remove_all(v: &Vec<String>, x: &str) -> (r: Vec<String>)
    ensures
        r.deep_view() == without(v.deep_view(), x@),
{
    let ghost s = v.deep_view();
    let mut r: Vec<String> = Vec::new();
    let mut i: usize = 0;
    while i < v.len()
        invariant
            i <= v.len(),
            s == v.deep_view(),
            r.deep_view() == without(s.take(i as int), x@),
        decreases v.len() - i,
    {
        assert(s.take(i + 1).drop_last() =~= s.take(i as int));
        assert(s.take(i + 1).last() == v[i as int]@);
        if !str_eq(v[i].as_str(), x) {
            let ghost before = r.deep_view();
            r.push(v[i].clone());
            assert(r.deep_view() =~= before.push(v[i as int]@));
        }
        i = i + 1;
    }
    assert(s.take(v.len() as int) =~= s);
    r
}

/// Appends `x` to `v` unless `v` already holds it.
pub fn add_once(v: &mut Vec<String>, x: &str)
    ensures
        final(v).deep_view() == with_item(old(v).deep_view(), x@),
{
    if !list_contains(v, x) {
        let ghost before = v.deep_view();
        v.push(owned(x));
        assert(v.deep_view() =~= before.push(x@));
    }
}

/// `t` with other children.
pub open spec fn set_children_of(t: TaskV, c: Seq<Seq<char>>) -> TaskV {
    TaskV { children: c, ..t }
}

/// `t` with other blockers.
pub open spec fn set_blocked_by_of(t: TaskV, c: Seq<Seq<char>>) -> TaskV {
    TaskV { blocked_by: c, ..t }
}

/// `t` blocking other tasks.
pub open spec fn set_blocks_of(t: TaskV, c: Seq<Seq<char>>) -> TaskV {
    TaskV { blocks: c, ..t }
}

/// `t` under another parent.
pub open spec fn set_parent_of(t: TaskV, p: Option<Seq<char>>) -> TaskV {
    TaskV { parent_id: p, ..t }
}

/// Replaces the task at position `i`.
pub fn put(tasks: &mut Vec<Task>, i: usize, t: Task)
    requires
        i < old(tasks).len(),
    ensures
        final(tasks).len() == old(tasks).len(),
        final(tasks).deep_view() == old(tasks).deep_view().update(i as int, t@),
{
    let ghost before = tasks.deep_view();
    tasks.set(i, t);
    assert(tasks.deep_view() =~= before.update(i as int, t@));
}

/// The task list after `set_parent` succeeds: `id` leaves its old parent's
/// children, joins the new parent's children (once), and names the new parent.
pub open spec fn reparented(ts: Seq<TaskV>, id: Seq<char>, parent: Option<Seq<char>>) -> Seq<TaskV> {
    let s1 = match task_of(ts, id).parent_id {
        Some(p) => ts.update(index_of(ts, p), set_children_of(ts[index_of(ts, p)], without(ts[index_of(ts, p)].children, id))),
        None => ts,
    };
    let s2 = match parent {
        Some(p) => s1.update(index_of(ts, p), set_children_of(s1[index_of(ts, p)], with_item(s1[index_of(ts, p)].children, id))),
        None => s1,
    };
    s2.update(index_of(ts, id), set_parent_of(s2[index_of(ts, id)], parent))
}

/// Following parent links from `cur`, at most `fuel` tasks deep, a task whose
/// parent is `ancestor` is met.
pub open spec fn reaches_ancestor(ts: Seq<TaskV>, cur: Seq<char>, ancestor: Seq<char>, fuel: nat) -> bool
    decreases fuel,
{
    if fuel == 0 || !has_task(ts, cur) {
        false
    } else {
        match task_of(ts, cur).parent_id {
            Some(p) => p == ancestor || reaches_ancestor(ts, p, ancestor, (fuel - 1) as nat),
            None => false,
        }
    }
}

/// `candidate` lies below `ancestor`: some ancestor of `candidate` is it.
/// The walk follows at most as many parent links as there are tasks, which
/// covers every chain of distinct tasks.
pub open spec fn descends_from(ts: Seq<TaskV>, candidate: Seq<char>, ancestor: Seq<char>) -> bool {
    reaches_ancestor(ts, candidate, ancestor, ts.len())
}

/// Whether `candidate` lies below `ancestor`.
pub fn is_descendant(tasks: &Vec<Task>, candidate: &str, ancestor: &str) -> (r: bool)
    ensures
        r == descends_from(tasks.deep_view(), candidate@, ancestor@),
{
    let ghost ts = tasks.deep_view();
    let mut current = owned(candidate);
    let mut fuel: usize = tasks.len();
    loop
        invariant
            ts == tasks.deep_view(),
            ts.len() == tasks.len(),
            descends_from(ts, candidate@, ancestor@) == reaches_ancestor(ts, current@, ancestor@, fuel as nat),
        decreases fuel,
    {
        if fuel == 0 {
            return false;
        }
        proof {
            lemma_index_of(ts, current@);
        }
        match find_index(tasks, current.as_str()) {
            None => {
                return false;
            },
            Some(i) => {
                assert(ts[i as int] == tasks@[i as int]@);
                match &tasks[i].parent_id {
                    None => {
                        return false;
                    },
                    Some(p) => {
                        if str_eq(p.as_str(), ancestor) {
                            return true;
                        }
                        current = p.clone();
                        fuel = fuel - 1;
                    },
                }
            },
        }
    }
}

/// The view of an optional string slice.
pub open spec fn opt_str(o: Option<&str>) -> Option<Seq<char>> {
    match o {
        Some(s) => Some(s@),
        None => None,
    }
}

/// Changing fields other than ids keeps every id's position.
pub proof fn lemma_same_ids(a: Seq<TaskV>, b: Seq<TaskV>, x: Seq<char>)
    requires
        a.len() == b.len(),
        forall|j: int| 0 <= j < a.len() ==> #[trigger] a[j].id == b[j].id,
    ensures
        index_of(a, x) == index_of(b, x),
        has_task(a, x) == has_task(b, x),
{
    lemma_index_of(a, x);
    lemma_index_of(b, x);
    let ia = index_of(a, x);
    let ib = index_of(b, x);
    if ia != -1 && ib != -1 {
        if ia < ib {
            assert(b[ia].id == x);
        }
        if ib < ia {
            assert(a[ib].id == x);
        }
    }
    if has_task(a, x) {
        let j = choose|j: int| 0 <= j < a.len() && a[j].id == x;
        assert(b[j].id == x);
    }
    if has_task(b, x) {
        let j = choose|j: int| 0 <= j < b.len() && b[j].id == x;
        assert(a[j].id == x);
    }
}

/// The checks `set_parent` makes before changing anything, all passed.
pub open spec fn set_parent_allowed(ts: Seq<TaskV>, id: Seq<char>, parent: Option<Seq<char>>) -> bool {
    &&& parent matches Some(p) ==> p != id && has_task(ts, p) && !descends_from(ts, p, id)
    &&& has_task(ts, id)
    &&& task_of(ts, id).parent_id matches Some(q) ==> has_task(ts, q)
}

/// Moves task `id` under `parent_id` (or to the top level): it leaves its old
/// parent's children and joins the new parent's. A task cannot become its own
/// parent, nor the child of a task below it.
pub fn set_parent(tasks: &mut Vec<Task>, id: &str, parent_id: Option<&str>) -> (r: Result<(), DexError>)
    ensures
        r is Ok <==> set_parent_allowed(old(tasks).deep_view(), id@, opt_str(parent_id)),
        r is Ok ==> final(tasks).deep_view() == reparented(old(tasks).deep_view(), id@, opt_str(parent_id)),
        r is Err ==> final(tasks).deep_view() == old(tasks).deep_view(),
        r matches Err(e) ==> match e {
            DexError::OwnParent { id: x } => x@ == id@ && opt_str(parent_id) == Some(id@),
            DexError::ParentNotFound { parent: p } => opt_str(parent_id) == Some(p@) && p@ != id@ && !has_task(
                old(tasks).deep_view(),
                p@,
            ),
            DexError::ParentIsSubtask { parent: p, id: x } => opt_str(parent_id) == Some(p@) && x@ == id@ && p@ != id@
                && has_task(old(tasks).deep_view(), p@) && descends_from(old(tasks).deep_view(), p@, id@),
            DexError::NotFound { id: x } => (opt_str(parent_id) matches Some(p) ==> p != id@ && has_task(
                old(tasks).deep_view(),
                p,
            ) && !descends_from(old(tasks).deep_view(), p, id@)) && ((x@ == id@ && !has_task(old(tasks).deep_view(), id@))
                || (has_task(old(tasks).deep_view(), id@) && task_of(old(tasks).deep_view(), id@).parent_id == Some(x@)
                && !has_task(old(tasks).deep_view(), x@))),
            _ => false,
        },
{
    let ghost ts = tasks.deep_view();
    if let Some(p) = parent_id {
        if str_eq(p, id) {
            return Err(DexError::OwnParent { id: owned(id) });
        }
        proof {
            lemma_index_of(ts, p@);
        }
        if find_index(tasks, p).is_none() {
            return Err(DexError::ParentNotFound { parent: owned(p) });
        }
        if is_descendant(tasks, p, id) {
            return Err(DexError::ParentIsSubtask { parent: owned(p), id: owned(id) });
        }
    }
    proof {
        lemma_index_of(ts, id@);
    }
    let i = match find_index(tasks, id) {
        None => {
            return Err(DexError::NotFound { id: owned(id) });
        },
        Some(i) => i,
    };
    assert(ts[i as int] == tasks@[i as int]@);
    let ghost s1 = match task_of(ts, id@).parent_id {
        Some(p) => ts.update(index_of(ts, p), set_children_of(ts[index_of(ts, p)], without(ts[index_of(ts, p)].children, id@))),
        None => ts,
    };
    let previous = crate::text::copy_opt(&tasks[i].parent_id);
    if let Some(prev) = &previous {
        proof {
            lemma_index_of(ts, prev@);
        }
        match find_index(tasks, prev.as_str()) {
            None => {
                return Err(DexError::NotFound { id: prev.clone() });
            },
            Some(k) => {
                assert(ts[k as int] == tasks@[k as int]@);
                let mut t = tasks[k].duplicate();
                t.children = remove_all(&tasks[k].children, id);
                put(tasks, k, t);
            },
        }
    }
    assert(tasks.deep_view() == s1);
    proof {
        assert forall|j: int| 0 <= j < s1.len() implies #[trigger] s1[j].id == ts[j].id by {}
    }
    if let Some(p) = parent_id {
        proof {
            lemma_same_ids(s1, ts, p@);
        }
        let k = match find_index(tasks, p) {
            Some(k) => k,
            None => {
                return Err(DexError::ParentNotFound { parent: owned(p) });
            },
        };
        assert(s1[k as int] == tasks@[k as int]@);
        let mut t = tasks[k].duplicate();
        add_once(&mut t.children, id);
        put(tasks, k, t);
    }
    let ghost s2 = tasks.deep_view();
    proof {
        assert forall|j: int| 0 <= j < s2.len() implies #[trigger] s2[j].id == ts[j].id by {}
        lemma_same_ids(s2, ts, id@);
    }
    assert(s2[i as int] == tasks@[i as int]@);
    let mut t = tasks[i].duplicate();
    t.parent_id = match parent_id {
        Some(p) => Some(owned(p)),
        None => None,
    };
    put(tasks, i, t);
    Ok(())
}

/// The task list after `add_blocker` succeeds: `id` is blocked by
/// `blocker`, and `blocker` blocks `id`, each link added once.
pub open spec fn blocker_added(ts: Seq<TaskV>, id: Seq<char>, blocker: Seq<char>) -> Seq<TaskV> {
    let i = index_of(ts, id);
    let k = index_of(ts, blocker);
    let s1 = ts.update(i, set_blocked_by_of(ts[i], with_item(ts[i].blocked_by, blocker)));
    s1.update(k, set_blocks_of(s1[k], with_item(s1[k].blocks, id)))
}

/// The task list after `remove_blocker`: `id` no longer lists `blocker`,
/// and `blocker`, where it exists, no longer lists `id`.
pub open spec fn blocker_removed(ts: Seq<TaskV>, id: Seq<char>, blocker: Seq<char>) -> Seq<TaskV> {
    let i = index_of(ts, id);
    let k = index_of(ts, blocker);
    let s1 = ts.update(i, set_blocked_by_of(ts[i], without(ts[i].blocked_by, blocker)));
    if has_task(ts, blocker) {
        s1.update(k, set_blocks_of(s1[k], without(s1[k].blocks, id)))
    } else {
        s1
    }
}

/// Makes `blocker_id` a blocker of `id`, in both directions.
pub fn add_blocker(tasks: &mut Vec<Task>, id: &str, blocker_id: &str) -> (r: Result<(), DexError>)
    ensures
        r is Ok <==> (blocker_id@ != id@ && has_task(old(tasks).deep_view(), blocker_id@) && has_task(
            old(tasks).deep_view(),
            id@,
        )),
        r is Ok ==> final(tasks).deep_view() == blocker_added(old(tasks).deep_view(), id@, blocker_id@),
        r is Err ==> final(tasks).deep_view() == old(tasks).deep_view(),
        r matches Err(e) ==> match e {
            DexError::BlocksItself { id: x } => x@ == id@ && blocker_id@ == id@,
            DexError::BlockerNotFound { blocker: b } => b@ == blocker_id@ && blocker_id@ != id@ && !has_task(
                old(tasks).deep_view(),
                blocker_id@,
            ),
            DexError::NotFound { id: x } => x@ == id@ && blocker_id@ != id@ && has_task(old(tasks).deep_view(), blocker_id@)
                && !has_task(old(tasks).deep_view(), id@),
            _ => false,
        },
{
    let ghost ts = tasks.deep_view();
    if str_eq(blocker_id, id) {
        return Err(DexError::BlocksItself { id: owned(id) });
    }
    proof {
        lemma_index_of(ts, blocker_id@);
        lemma_index_of(ts, id@);
    }
    let k = match find_index(tasks, blocker_id) {
        None => {
            return Err(DexError::BlockerNotFound { blocker: owned(blocker_id) });
        },
        Some(k) => k,
    };
    let i = match find_index(tasks, id) {
        None => {
            return Err(DexError::NotFound { id: owned(id) });
        },
        Some(i) => i,
    };
    assert(ts[i as int] == tasks@[i as int]@);
    let mut t = tasks[i].duplicate();
    add_once(&mut t.blocked_by, blocker_id);
    put(tasks, i, t);
    assert(tasks@[k as int]@ == tasks.deep_view()[k as int]);
    let mut b = tasks[k].duplicate();
    add_once(&mut b.blocks, id);
    put(tasks, k, b);
    Ok(())
}

/// Removes `blocker_id` from the blockers of `id`, in both directions. A
/// blocker that does not exist is only removed from `id`'s list.
pub fn remove_blocker(tasks: &mut Vec<Task>, id: &str, blocker_id: &str) -> (r: Result<(), DexError>)
    ensures
        r is Ok <==> has_task(old(tasks).deep_view(), id@),
        r is Ok ==> final(tasks).deep_view() == blocker_removed(old(tasks).deep_view(), id@, blocker_id@),
        r is Err ==> final(tasks).deep_view() == old(tasks).deep_view(),
        r matches Err(e) ==> (e matches DexError::NotFound { id: x } && x@ == id@),
{
    let ghost ts = tasks.deep_view();
    proof {
        lemma_index_of(ts, blocker_id@);
        lemma_index_of(ts, id@);
    }
    let i = match find_index(tasks, id) {
        None => {
            return Err(DexError::NotFound { id: owned(id) });
        },
        Some(i) => i,
    };
    assert(ts[i as int] == tasks@[i as int]@);
    let mut t = tasks[i].duplicate();
    t.blocked_by = remove_all(&tasks[i].blocked_by, blocker_id);
    put(tasks, i, t);
    let ghost s1 = tasks.deep_view();
    proof {
        assert forall|j: int| 0 <= j < s1.len() implies #[trigger] s1[j].id == ts[j].id by {}
        lemma_same_ids(s1, ts, blocker_id@);
    }
    if let Some(k) = find_index(tasks, blocker_id) {
        assert(tasks@[k as int]@ == tasks.deep_view()[k as int]);
        let mut b = tasks[k].duplicate();
        b.blocks = remove_all(&tasks[k].blocks, id);
        put(tasks, k, b);
    }
    Ok(())
}

/// `with_item` keeps what was there and adds exactly `x`.
pub proof fn lemma_with_item_contains(s: Seq<Seq<char>>, x: Seq<char>, y: Seq<char>)
    ensures
        with_item(s, x).contains(y) <==> (s.contains(y) || y == x),
{
    if !s.contains(x) {
        if s.push(x).contains(y) {
            let k = choose|k: int| 0 <= k < s.push(x).len() && s.push(x)[k] == y;
            if k < s.len() {
                assert(s[k] == y);
            }
        }
        if s.contains(y) {
            let k = choose|k: int| 0 <= k < s.len() && s[k] == y;
            assert(s.push(x)[k] == y);
        }
        assert(s.push(x)[s.len() as int] == x);
    }
}

/// Two task lists with the same ids at the same positions find every id at
/// the same position.
pub open spec fn same_ids(a: Seq<TaskV>, b: Seq<TaskV>) -> bool {
    a.len() == b.len() && forall|j: int| 0 <= j < a.len() ==> #[trigger] a[j].id == b[j].id
}

/// With the same ids, and the same parent/child links, the hierarchy checks
/// give the same answer.
pub proof fn lemma_hierarchy_frame(a: Seq<TaskV>, b: Seq<TaskV>)
    requires
        same_ids(a, b),
        forall|j: int| 0 <= j < a.len() ==> #[trigger] a[j].parent_id == b[j].parent_id && a[j].children == b[j].children,
        hierarchy_ok(a),
    ensures
        hierarchy_ok(b),
{
    assert forall|x: Seq<char>| #[trigger] has_task(b, x) implies has_task(a, x) && task_of(b, x).parent_id == task_of(a, x).parent_id
        && task_of(b, x).children == task_of(a, x).children by {
        lemma_same_ids(a, b, x);
        lemma_index_of(a, x);
    }
    assert forall|i: int| 0 <= i < b.len() implies parent_ok(b, #[trigger] b[i]) && children_ok(b, b[i]) by {
        assert(parent_ok(a, a[i]) && children_ok(a, a[i]));
        if let Some(p) = b[i].parent_id {
            lemma_same_ids(a, b, p);
        }
        assert forall|k: int| 0 <= k < b[i].children.len() implies has_task(b, #[trigger] b[i].children[k]) && task_of(
            b,
            b[i].children[k],
        ).parent_id == Some(b[i].id) by {
            lemma_same_ids(a, b, b[i].children[k]);
        }
    }
}

/// With the same ids, and the same blocker links, the blocker checks give the
/// same answer.
pub proof fn lemma_blocking_frame(a: Seq<TaskV>, b: Seq<TaskV>)
    requires
        same_ids(a, b),
        forall|j: int| 0 <= j < a.len() ==> #[trigger] a[j].blocked_by == b[j].blocked_by && a[j].blocks == b[j].blocks,
        blocking_ok(a),
    ensures
        blocking_ok(b),
{
    assert forall|i: int| 0 <= i < b.len() implies blocked_by_ok(b, #[trigger] b[i]) && blocks_ok(b, b[i]) by {
        assert(blocked_by_ok(a, a[i]) && blocks_ok(a, a[i]));
        assert forall|k: int| 0 <= k < b[i].blocked_by.len() implies has_task(b, #[trigger] b[i].blocked_by[k]) && task_of(
            b,
            b[i].blocked_by[k],
        ).blocks.contains(b[i].id) by {
            lemma_same_ids(a, b, b[i].blocked_by[k]);
            lemma_index_of(a, b[i].blocked_by[k]);
        }
        assert forall|k: int| 0 <= k < b[i].blocks.len() implies has_task(b, #[trigger] b[i].blocks[k]) && task_of(
            b,
            b[i].blocks[k],
        ).blocked_by.contains(b[i].id) by {
            lemma_same_ids(a, b, b[i].blocks[k]);
            lemma_index_of(a, b[i].blocks[k]);
        }
    }
}

/// Same ids at the same positions keep ids unique.
pub proof fn lemma_unique_frame(a: Seq<TaskV>, b: Seq<TaskV>)
    requires
        same_ids(a, b),
        unique_ids(a),
    ensures
        unique_ids(b),
{
    assert forall|i: int, j: int| 0 <= i < j < b.len() implies b[i].id != b[j].id by {
        assert(a[i].id == b[i].id && a[j].id == b[j].id);
    }
}

/// Adding a blocker to a consistent task list keeps every link consistent in
/// both directions.
pub proof fn law_add_blocker_consistent(ts: Seq<TaskV>, id: Seq<char>, blocker: Seq<char>)
    requires
        unique_ids(ts),
        hierarchy_ok(ts),
        blocking_ok(ts),
        has_task(ts, id),
        has_task(ts, blocker),
        id != blocker,
    ensures
        unique_ids(blocker_added(ts, id, blocker)),
        hierarchy_ok(blocker_added(ts, id, blocker)),
        blocking_ok(blocker_added(ts, id, blocker)),
{
    let n = blocker_added(ts, id, blocker);
    let i = index_of(ts, id);
    let k = index_of(ts, blocker);
    lemma_index_of(ts, id);
    lemma_index_of(ts, blocker);
    assert(i != k);
    assert(same_ids(ts, n));
    lemma_unique_frame(ts, n);
    lemma_hierarchy_frame(ts, n);
    // Every link only grows, and the two new links point at each other.
    assert forall|j: int, y: Seq<char>| 0 <= j < n.len() && #[trigger] ts[j].blocked_by.contains(y) implies n[j].blocked_by.contains(y) by {
        if j == i {
            lemma_with_item_contains(ts[i].blocked_by, blocker, y);
        }
    }
    assert forall|j: int, y: Seq<char>| 0 <= j < n.len() && #[trigger] ts[j].blocks.contains(y) implies n[j].blocks.contains(y) by {
        if j == k {
            lemma_with_item_contains(ts[k].blocks, id, y);
        }
    }
    assert(n[i].blocked_by.contains(blocker)) by {
        lemma_with_item_contains(ts[i].blocked_by, blocker, blocker);
    }
    assert(n[k].blocks.contains(id)) by {
        lemma_with_item_contains(ts[k].blocks, id, id);
    }
    assert forall|x: Seq<char>| #[trigger] has_task(n, x) <==> has_task(ts, x) by {
        lemma_same_ids(ts, n, x);
    }
    assert forall|j: int| 0 <= j < n.len() implies blocked_by_ok(n, #[trigger] n[j]) && blocks_ok(n, n[j]) by {
        assert(blocked_by_ok(ts, ts[j]) && blocks_ok(ts, ts[j]));
        assert forall|m: int| 0 <= m < n[j].blocked_by.len() implies has_task(n, #[trigger] n[j].blocked_by[m]) && task_of(
            n,
            n[j].blocked_by[m],
        ).blocks.contains(n[j].id) by {
            let y = n[j].blocked_by[m];
            lemma_same_ids(ts, n, y);
            lemma_index_of(ts, y);
            assert(n[j].blocked_by.contains(y));
            if j == i {
                lemma_with_item_contains(ts[i].blocked_by, blocker, y);
            }
            if y != blocker || j != i {
                let w = choose|w: int| 0 <= w < ts[j].blocked_by.len() && ts[j].blocked_by[w] == y;
                assert(ts[j].blocked_by.contains(y));
                assert(task_of(ts, y).blocks.contains(ts[j].id));
                assert(ts[index_of(ts, y)].blocks.contains(ts[j].id));
            }
        }
        assert forall|m: int| 0 <= m < n[j].blocks.len() implies has_task(n, #[trigger] n[j].blocks[m]) && task_of(
            n,
            n[j].blocks[m],
        ).blocked_by.contains(n[j].id) by {
            let y = n[j].blocks[m];
            lemma_same_ids(ts, n, y);
            lemma_index_of(ts, y);
            assert(n[j].blocks.contains(y));
            if j == k {
                lemma_with_item_contains(ts[k].blocks, id, y);
            }
            if y != id || j != k {
                let w = choose|w: int| 0 <= w < ts[j].blocks.len() && ts[j].blocks[w] == y;
                assert(ts[j].blocks.contains(y));
                assert(task_of(ts, y).blocked_by.contains(ts[j].id));
                assert(ts[index_of(ts, y)].blocked_by.contains(ts[j].id));
            }
        }
    }
}

/// Removing a blocker from a consistent task list keeps every link
/// consistent in both directions.
pub proof fn law_remove_blocker_consistent(ts: Seq<TaskV>, id: Seq<char>, blocker: Seq<char>)
    requires
        unique_ids(ts),
        hierarchy_ok(ts),
        blocking_ok(ts),
        has_task(ts, id),
    ensures
        unique_ids(blocker_removed(ts, id, blocker)),
        hierarchy_ok(blocker_removed(ts, id, blocker)),
        blocking_ok(blocker_removed(ts, id, blocker)),
{
    let n = blocker_removed(ts, id, blocker);
    let i = index_of(ts, id);
    let k = index_of(ts, blocker);
    lemma_index_of(ts, id);
    lemma_index_of(ts, blocker);
    assert(same_ids(ts, n));
    lemma_unique_frame(ts, n);
    lemma_hierarchy_frame(ts, n);
    assert forall|x: Seq<char>| #[trigger] has_task(n, x) <==> has_task(ts, x) by {
        lemma_same_ids(ts, n, x);
    }
    // Links only shrink: by `blocker` at `id`, by `id` at `blocker`.
    assert forall|j: int, y: Seq<char>| 0 <= j < n.len() && #[trigger] n[j].blocked_by.contains(y) implies ts[j].blocked_by.contains(y)
        && !(j == i && y == blocker) by {
        if j == i {
            lemma_without_contains(ts[i].blocked_by, blocker, y);
        }
    }
    assert forall|j: int, y: Seq<char>| 0 <= j < n.len() && #[trigger] n[j].blocks.contains(y) implies ts[j].blocks.contains(y)
        && !(has_task(ts, blocker) && j == k && y == id) by {
        if has_task(ts, blocker) && j == k {
            let s1 = ts.update(i, set_blocked_by_of(ts[i], without(ts[i].blocked_by, blocker)));
            lemma_without_contains(s1[k].blocks, id, y);
        }
    }
    // What stays is still answered from the other side.
    assert forall|j: int, y: Seq<char>| 0 <= j < n.len() && #[trigger] ts[j].blocks.contains(y) && !(has_task(ts, blocker)
        && j == k && y == id) implies n[j].blocks.contains(y) by {
        if has_task(ts, blocker) && j == k {
            let s1 = ts.update(i, set_blocked_by_of(ts[i], without(ts[i].blocked_by, blocker)));
            lemma_without_contains(s1[k].blocks, id, y);
        }
    }
    assert forall|j: int, y: Seq<char>| 0 <= j < n.len() && #[trigger] ts[j].blocked_by.contains(y) && !(j == i && y
        == blocker) implies n[j].blocked_by.contains(y) by {
        if j == i {
            lemma_without_contains(ts[i].blocked_by, blocker, y);
        }
    }
    assert forall|j: int| 0 <= j < n.len() implies blocked_by_ok(n, #[trigger] n[j]) && blocks_ok(n, n[j]) by {
        assert(blocked_by_ok(ts, ts[j]) && blocks_ok(ts, ts[j]));
        assert forall|m: int| 0 <= m < n[j].blocked_by.len() implies has_task(n, #[trigger] n[j].blocked_by[m]) && task_of(
            n,
            n[j].blocked_by[m],
        ).blocks.contains(n[j].id) by {
            let y = n[j].blocked_by[m];
            lemma_same_ids(ts, n, y);
            lemma_index_of(ts, y);
            assert(n[j].blocked_by.contains(y));
            assert(ts[j].blocked_by.contains(y));
            let w = choose|w: int| 0 <= w < ts[j].blocked_by.len() && ts[j].blocked_by[w] == y;
            assert(task_of(ts, y).blocks.contains(ts[j].id));
            let jy = index_of(ts, y);
            if has_task(ts, blocker) && jy == k && ts[j].id == id {
                lemma_unique_index(ts, j);
                assert(j == i);
            }
        }
        assert forall|m: int| 0 <= m < n[j].blocks.len() implies has_task(n, #[trigger] n[j].blocks[m]) && task_of(
            n,
            n[j].blocks[m],
        ).blocked_by.contains(n[j].id) by {
            let y = n[j].blocks[m];
            lemma_same_ids(ts, n, y);
            lemma_index_of(ts, y);
            assert(n[j].blocks.contains(y));
            assert(ts[j].blocks.contains(y));
            let w = choose|w: int| 0 <= w < ts[j].blocks.len() && ts[j].blocks[w] == y;
            assert(task_of(ts, y).blocked_by.contains(ts[j].id));
            let jy = index_of(ts, y);
            if jy == i && ts[j].id == blocker {
                lemma_unique_index(ts, j);
                assert(j == k);
            }
        }
    }
}

/// Adding a blocker that was not there and removing it again gives back the
/// task list unchanged.
pub proof fn law_add_then_remove_blocker(ts: Seq<TaskV>, id: Seq<char>, blocker: Seq<char>)
    requires
        has_task(ts, id),
        has_task(ts, blocker),
        id != blocker,
        !task_of(ts, id).blocked_by.contains(blocker),
        !task_of(ts, blocker).blocks.contains(id),
    ensures
        blocker_removed(blocker_added(ts, id, blocker), id, blocker) == ts,
{
    let n = blocker_added(ts, id, blocker);
    let i = index_of(ts, id);
    let k = index_of(ts, blocker);
    lemma_index_of(ts, id);
    lemma_index_of(ts, blocker);
    assert(i != k);
    assert(same_ids(ts, n));
    lemma_same_ids(ts, n, id);
    lemma_same_ids(ts, n, blocker);
    lemma_without_absent(ts[i].blocked_by, blocker);
    lemma_without_absent(ts[k].blocks, id);
    assert(without(ts[i].blocked_by.push(blocker), blocker) == ts[i].blocked_by) by {
        assert(ts[i].blocked_by.push(blocker).drop_last() =~= ts[i].blocked_by);
    }
    assert(without(ts[k].blocks.push(id), id) == ts[k].blocks) by {
        assert(ts[k].blocks.push(id).drop_last() =~= ts[k].blocks);
    }
    let r = blocker_removed(n, id, blocker);
    assert(r =~= ts);
}

/// What the children lists hold after `set_parent`, on a consistent list:
/// the same ids as before, except that only the new parent lists `id`.
proof fn lemma_reparented_children(ts: Seq<TaskV>, id: Seq<char>, parent: Option<Seq<char>>, j: int, c: Seq<char>)
    requires
        unique_ids(ts),
        hierarchy_ok(ts),
        set_parent_allowed(ts, id, parent),
        0 <= j < ts.len(),
    ensures
        reparented(ts, id, parent).len() == ts.len(),
        reparented(ts, id, parent)[j].id == ts[j].id,
        reparented(ts, id, parent)[j].parent_id == if j == index_of(ts, id) {
            parent
        } else {
            ts[j].parent_id
        },
        reparented(ts, id, parent)[j].blocked_by == ts[j].blocked_by,
        reparented(ts, id, parent)[j].blocks == ts[j].blocks,
        c != id ==> (reparented(ts, id, parent)[j].children.contains(c) <==> ts[j].children.contains(c)),
        reparented(ts, id, parent)[j].children.contains(id) <==> (parent is Some && j == index_of(ts, parent->0)),
{
    let n = reparented(ts, id, parent);
    let i = index_of(ts, id);
    lemma_index_of(ts, id);
    let s1 = match task_of(ts, id).parent_id {
        Some(p) => ts.update(index_of(ts, p), set_children_of(ts[index_of(ts, p)], without(ts[index_of(ts, p)].children, id))),
        None => ts,
    };
    let s2 = match parent {
        Some(p) => s1.update(index_of(ts, p), set_children_of(s1[index_of(ts, p)], with_item(s1[index_of(ts, p)].children, id))),
        None => s1,
    };
    // Only the old parent lists `id` before the change.
    assert(ts[j].children.contains(id) ==> task_of(ts, id).parent_id == Some(ts[j].id) && j == index_of(ts, ts[j].id)) by {
        if ts[j].children.contains(id) {
            assert(children_ok(ts, ts[j]));
            let w = choose|w: int| 0 <= w < ts[j].children.len() && ts[j].children[w] == id;
            assert(has_task(ts, ts[j].children[w]));
            lemma_unique_index(ts, j);
        }
    }
    match task_of(ts, id).parent_id {
        Some(p) => {
            lemma_index_of(ts, p);
            let q = index_of(ts, p);
            if j == q {
                lemma_without_contains(ts[q].children, id, c);
                lemma_without_contains(ts[q].children, id, id);
            }
        },
        None => {},
    }
    assert(s1.len() == ts.len());
    assert(s1[j].id == ts[j].id);
    assert(s1[j].children.contains(c) <==> (ts[j].children.contains(c) && (c != id || task_of(ts, id).parent_id
        is None || j != index_of(ts, task_of(ts, id).parent_id->0))));
    assert(!s1[j].children.contains(id));
    match parent {
        Some(p) => {
            lemma_index_of(ts, p);
            let k = index_of(ts, p);
            if j == k {
                lemma_with_item_contains(s1[k].children, id, c);
                lemma_with_item_contains(s1[k].children, id, id);
            }
        },
        None => {},
    }
    if ts[j].children.contains(id) {
        let q = index_of(ts, task_of(ts, id).parent_id->0);
        lemma_unique_index(ts, j);
    }
}

/// Moving a task under another parent, where `set_parent` allows it, keeps
/// every link consistent in both directions.
pub proof fn law_set_parent_consistent(ts: Seq<TaskV>, id: Seq<char>, parent: Option<Seq<char>>)
    requires
        unique_ids(ts),
        hierarchy_ok(ts),
        blocking_ok(ts),
        set_parent_allowed(ts, id, parent),
    ensures
        unique_ids(reparented(ts, id, parent)),
        hierarchy_ok(reparented(ts, id, parent)),
        blocking_ok(reparented(ts, id, parent)),
        task_of(reparented(ts, id, parent), id).parent_id == parent,
{
    let n = reparented(ts, id, parent);
    let i = index_of(ts, id);
    lemma_index_of(ts, id);
    lemma_reparented_children(ts, id, parent, i, id);
    assert forall|j: int| 0 <= j < n.len() implies #[trigger] n[j].id == ts[j].id && n[j].blocked_by == ts[j].blocked_by
        && n[j].blocks == ts[j].blocks by {
        lemma_reparented_children(ts, id, parent, j, id);
    }
    assert(same_ids(ts, n));
    lemma_unique_frame(ts, n);
    lemma_blocking_frame(ts, n);
    assert forall|x: Seq<char>| #[trigger] has_task(n, x) <==> has_task(ts, x) by {
        lemma_same_ids(ts, n, x);
    }
    lemma_same_ids(ts, n, id);
    lemma_reparented_children(ts, id, parent, i, id);
    assert forall|j: int| 0 <= j < n.len() implies parent_ok(n, #[trigger] n[j]) && children_ok(n, n[j]) by {
        assert(parent_ok(ts, ts[j]) && children_ok(ts, ts[j]));
        lemma_reparented_children(ts, id, parent, j, id);
        if let Some(p) = n[j].parent_id {
            lemma_same_ids(ts, n, p);
            lemma_index_of(ts, p);
            if j != i {
                lemma_reparented_children(ts, id, parent, index_of(ts, p), ts[j].id);
                if ts[j].id == id {
                    lemma_unique_index(ts, j);
                }
            } else {
                lemma_reparented_children(ts, id, parent, index_of(ts, p), id);
            }
        }
        assert forall|m: int| 0 <= m < n[j].children.len() implies has_task(n, #[trigger] n[j].children[m]) && task_of(
            n,
            n[j].children[m],
        ).parent_id == Some(n[j].id) by {
            let c = n[j].children[m];
            assert(n[j].children.contains(c));
            lemma_reparented_children(ts, id, parent, j, c);
            lemma_same_ids(ts, n, c);
            lemma_index_of(ts, c);
            if c != id {
                assert(ts[j].children.contains(c));
                let w = choose|w: int| 0 <= w < ts[j].children.len() && ts[j].children[w] == c;
                assert(has_task(ts, ts[j].children[w]));
                lemma_reparented_children(ts, id, parent, index_of(ts, c), c);
            } else {
                lemma_index_of(ts, parent->0);
            }
        }
    }
}

/// The links a walk follows out of a task: its children, or its blockers.
pub open spec fn links(t: TaskV, children: bool) -> Seq<Seq<char>> {
    if children {
        t.children
    } else {
        t.blocked_by
    }
}

/// One step of a walk: `a` exists and links to `b`.
pub open spec fn step(ts: Seq<TaskV>, children: bool, a: Seq<char>, b: Seq<char>) -> bool {
    has_task(ts, a) && links(task_of(ts, a), children).contains(b)
}

/// Each id of `p` links to the next.
pub open spec fn is_walk(ts: Seq<TaskV>, children: bool, p: Seq<Seq<char>>) -> bool {
    forall|k: int| 0 <= k < p.len() - 1 ==> #[trigger] step(ts, children, p[k], p[k + 1])
}

/// A walk leads from `from` to `to` (the empty walk when they are equal).
pub open spec fn reachable(ts: Seq<TaskV>, children: bool, from: Seq<char>, to: Seq<char>) -> bool {
    exists|p: Seq<Seq<char>>| p.len() >= 1 && p[0] == from && p.last() == to && #[trigger] is_walk(ts, children, p)
}

/// A walk extended by one step is a walk.
pub proof fn lemma_walk_push(ts: Seq<TaskV>, children: bool, p: Seq<Seq<char>>, c: Seq<char>)
    requires
        p.len() >= 1,
        is_walk(ts, children, p),
        step(ts, children, p.last(), c),
    ensures
        is_walk(ts, children, p.push(c)),
{
    assert forall|k: int| 0 <= k < p.push(c).len() - 1 implies #[trigger] step(ts, children, p.push(c)[k], p.push(c)[k + 1]) by {
        if k < p.len() - 1 {
            assert(step(ts, children, p[k], p[k + 1]));
        }
    }
}

/// Every task met on a walk from `from` whose links all lead back into `r`,
/// starting in `r`, is in `r`.
proof fn lemma_closed_walk(ts: Seq<TaskV>, children: bool, r: Seq<Seq<char>>, p: Seq<Seq<char>>, k: int)
    requires
        p.len() >= 1,
        r.contains(p[0]) || !has_task(ts, p[0]),
        is_walk(ts, children, p),
        forall|x: Seq<char>, y: Seq<char>| #[trigger] r.contains(x) && has_task(ts, x) && links(task_of(ts, x), children).contains(y)
            && has_task(ts, y) ==> #[trigger] r.contains(y),
        0 <= k < p.len(),
        has_task(ts, p[k]),
        k > 0 || r.contains(p[0]),
    ensures
        r.contains(p[k]),
    decreases k,
{
    if k > 0 {
        let k1 = k - 1;
        assert(step(ts, children, p[k1], p[k1 + 1]));
        lemma_closed_walk(ts, children, r, p, k - 1);
    }
}

/// The distinct existing ids reached from `root` along `links` (including
/// `root` itself, when it exists), in the order a breadth-first walk meets them.
fn closure(tasks: &Vec<Task>, root: &str, children: bool) -> (r: Vec<String>)
    ensures
        r.deep_view().no_duplicates(),
        forall|x: Seq<char>| #[trigger] r.deep_view().contains(x) <==> (has_task(tasks.deep_view(), x) && reachable(
            tasks.deep_view(),
            children,
            root@,
            x,
        )),
{
    let ghost ts = tasks.deep_view();
    let ghost n = tasks.len() as int;
    let mut r: Vec<String> = Vec::new();
    proof {
        lemma_index_of(ts, root@);
    }
    if find_index(tasks, root).is_some() {
        r.push(owned(root));
        proof {
            let p = seq![root@];
            assert(is_walk(ts, children, p));
            assert(r.deep_view() =~= seq![root@]);
        }
    }
    let ghost start = r.deep_view();
    let mut j: usize = 0;
    while j < r.len()
        invariant
            ts == tasks.deep_view(),
            n == tasks.len(),
            j <= r.len(),
            r.len() <= n,
            r.deep_view().no_duplicates(),
            has_task(ts, root@) ==> r.len() >= 1 && r.deep_view()[0] == root@,
            !has_task(ts, root@) ==> r.len() == 0,
            forall|x: Seq<char>| #[trigger] r.deep_view().contains(x) ==> has_task(ts, x) && reachable(ts, children, root@, x),
            forall|m: int, y: Seq<char>|
                0 <= m < j && #[trigger] links(task_of(ts, r.deep_view()[m]), children).contains(y) && has_task(ts, y)
                    ==> #[trigger] r.deep_view().contains(y),
        decreases 2 * n - r.len() - j,
    {
        let ghost member = r.deep_view()[j as int];
        assert(r.deep_view().contains(member));
        proof {
            lemma_index_of(ts, member);
        }
        let i = match find_index(tasks, r[j].as_str()) {
            Some(i) => i,
            None => {
                assert(false);
                return r;
            },
        };
        assert(ts[i as int] == tasks@[i as int]@);
        let list = if children {
            &tasks[i].children
        } else {
            &tasks[i].blocked_by
        };
        assert(list.deep_view() == links(task_of(ts, member), children));
        let ghost before = r.deep_view();
        let mut k: usize = 0;
        while k < list.len()
            invariant
                ts == tasks.deep_view(),
                n == tasks.len(),
                j < r.len(),
                r.len() <= n,
                list.deep_view() == links(task_of(ts, member), children),
                member == r.deep_view()[j as int],
                r.deep_view().take(before.len() as int) == before,
                before.len() <= r.len(),
                r.deep_view().no_duplicates(),
                has_task(ts, member),
                reachable(ts, children, root@, member),
                forall|x: Seq<char>| #[trigger] r.deep_view().contains(x) ==> has_task(ts, x) && reachable(ts, children, root@, x),
                forall|q: int| 0 <= q < k ==> has_task(ts, #[trigger] list.deep_view()[q]) ==> r.deep_view().contains(
                    list.deep_view()[q],
                ),
            decreases list.len() - k,
        {
            let c = &list[k];
            assert(list.deep_view()[k as int] == c@);
            proof {
                lemma_index_of(ts, c@);
            }
            if find_index(tasks, c.as_str()).is_some() && !list_contains(&r, c.as_str()) {
                proof {
                    // The ids in `r` are distinct existing ids, so there are
                    // fewer of them than tasks.
                    let grown = r.deep_view().push(c@);
                    assert forall|q: int| 0 <= q < grown.len() implies has_task(ts, #[trigger] grown[q]) by {
                        if q < r.len() {
                            assert(r.deep_view().contains(r.deep_view()[q]));
                        }
                    }
                    assert(grown.no_duplicates()) by {
                        assert forall|a: int, b: int| 0 <= a < b < grown.len() implies grown[a] != grown[b] by {
                            if b == r.len() {
                                assert(r.deep_view().contains(grown[a]));
                            }
                        }
                    }
                    lemma_ids_bound(ts, grown);
                }
                let ghost prior = r.deep_view();
                r.push(c.clone());
                proof {
                    assert(r.deep_view() =~= prior.push(c@));
                    assert(r.deep_view().take(before.len() as int) =~= prior.take(before.len() as int));
                    let p = choose|p: Seq<Seq<char>>| p.len() >= 1 && p[0] == root@ && p.last() == member && #[trigger] is_walk(ts, children, p);
                    assert(list.deep_view().contains(c@));
                    lemma_walk_push(ts, children, p, c@);
                    assert(p.push(c@).last() == c@);
                    assert forall|x: Seq<char>| #[trigger] r.deep_view().contains(x) implies has_task(ts, x) && reachable(ts, children, root@, x) by {
                        if x != c@ {
                            assert(prior.contains(x)) by {
                                let w = choose|w: int| 0 <= w < r.deep_view().len() && r.deep_view()[w] == x;
                                assert(prior[w] == x);
                            }
                        } else {
                            assert(is_walk(ts, children, p.push(c@)));
                        }
                    }
                    assert forall|q: int| 0 <= q < k + 1 implies has_task(ts, #[trigger] list.deep_view()[q]) ==> r.deep_view().contains(
                        list.deep_view()[q],
                    ) by {
                        if q < k && has_task(ts, list.deep_view()[q]) {
                            let w = choose|w: int| 0 <= w < prior.len() && prior[w] == list.deep_view()[q];
                            assert(r.deep_view()[w] == prior[w]);
                        }
                        if q == k {
                            assert(r.deep_view()[prior.len() as int] == c@);
                        }
                    }
                    assert(r.deep_view()[j as int] == prior[j as int]);
                }
            }
            k = k + 1;
        }
        proof {
            assert forall|m: int, y: Seq<char>|
                0 <= m < j + 1 && #[trigger] links(task_of(ts, r.deep_view()[m]), children).contains(y) && has_task(ts, y)
                    implies #[trigger] r.deep_view().contains(y) by {
                if m < j {
                    assert(r.deep_view()[m] == before[m]);
                    assert(before.contains(y));
                    let w = choose|w: int| 0 <= w < before.len() && before[w] == y;
                    assert(r.deep_view().take(before.len() as int)[w] == y);
                    assert(r.deep_view()[w] == y);
                } else {
                    assert(r.deep_view()[m] == member);
                    let q = choose|q: int| 0 <= q < list.deep_view().len() && list.deep_view()[q] == y;
                    assert(has_task(ts, list.deep_view()[q]));
                }
            }
        }
        j = j + 1;
    }
    proof {
        let rv = r.deep_view();
        assert forall|x: Seq<char>, y: Seq<char>| #[trigger] rv.contains(x) && has_task(ts, x) && links(task_of(ts, x), children).contains(y)
            && has_task(ts, y) implies #[trigger] rv.contains(y) by {
            let m = choose|m: int| 0 <= m < rv.len() && rv[m] == x;
            assert(links(task_of(ts, rv[m]), children).contains(y));
        }
        assert forall|x: Seq<char>| has_task(ts, x) && reachable(ts, children, root@, x) implies #[trigger] rv.contains(x) by {
            let p = choose|p: Seq<Seq<char>>| p.len() >= 1 && p[0] == root@ && p.last() == x && #[trigger] is_walk(ts, children, p);
            if has_task(ts, root@) {
                assert(rv[0] == root@);
                assert(rv.contains(p[0]));
            }
            lemma_closed_walk(ts, children, rv, p, p.len() - 1);
        }
    }
    r
}

/// Distinct ids of existing tasks are no more than the tasks.
proof fn lemma_ids_bound(ts: Seq<TaskV>, r: Seq<Seq<char>>)
    requires
        r.no_duplicates(),
        forall|k: int| 0 <= k < r.len() ==> has_task(ts, #[trigger] r[k]),
    ensures
        r.len() <= ts.len(),
{
    let pos = r.map_values(|x: Seq<char>| index_of(ts, x));
    assert forall|k: int| 0 <= k < pos.len() implies 0 <= #[trigger] pos[k] < ts.len() by {
        lemma_index_of(ts, r[k]);
    }
    assert(pos.no_duplicates()) by {
        assert forall|a: int, b: int| 0 <= a < pos.len() && 0 <= b < pos.len() && a != b implies pos[a] != pos[b] by {
            lemma_index_of(ts, r[a]);
            lemma_index_of(ts, r[b]);
        }
    }
    crate::validate::lemma_distinct_bound(pos, ts.len() as int);
}

/// The ids of `root` and every task below it, each once. Empty when `root`
/// does not exist.
pub fn subtree_ids(tasks: &Vec<Task>, root: &str) -> (r: Vec<String>)
    ensures
        r.deep_view().no_duplicates(),
        forall|x: Seq<char>| #[trigger] r.deep_view().contains(x) <==> (has_task(tasks.deep_view(), x) && reachable(
            tasks.deep_view(),
            true,
            root@,
            x,
        )),
{
    closure(tasks, root, true)
}

/// Whether `target` is `from` or lies behind it along blockers: making
/// `target` block `from`... would then close a cycle.
pub fn blocked_through(tasks: &Vec<Task>, from: &str, target: &str) -> (r: bool)
    ensures
        r == reachable(tasks.deep_view(), false, from@, target@),
{
    let ghost ts = tasks.deep_view();
    if str_eq(from, target) {
        proof {
            assert(is_walk(ts, false, seq![from@]));
        }
        return true;
    }
    let reached = closure(tasks, from, false);
    let mut j: usize = 0;
    while j < reached.len()
        invariant
            ts == tasks.deep_view(),
            from@ != target@,
            forall|x: Seq<char>| #[trigger] reached.deep_view().contains(x) <==> (has_task(ts, x) && reachable(ts, false, from@, x)),
            forall|m: int| 0 <= m < j ==> !links(task_of(ts, #[trigger] reached.deep_view()[m]), false).contains(target@),
            j <= reached.len(),
        decreases reached.len() - j,
    {
        let ghost x = reached.deep_view()[j as int];
        assert(reached.deep_view().contains(x));
        proof {
            lemma_index_of(ts, x);
        }
        let i = match find_index(tasks, reached[j].as_str()) {
            Some(i) => i,
            None => {
                assert(false);
                return false;
            },
        };
        assert(ts[i as int] == tasks@[i as int]@);
        if list_contains(&tasks[i].blocked_by, target) {
            proof {
                let p = choose|p: Seq<Seq<char>>| p.len() >= 1 && p[0] == from@ && p.last() == x && #[trigger] is_walk(ts, false, p);
                lemma_walk_push(ts, false, p, target@);
                assert(p.push(target@).last() == target@);
                assert(p.push(target@)[0] == from@);
            }
            return true;
        }
        j = j + 1;
    }
    proof {
        if reachable(ts, false, from@, target@) {
            let p = choose|p: Seq<Seq<char>>| p.len() >= 1 && p[0] == from@ && p.last() == target@ && #[trigger] is_walk(ts, false, p);
            let y = p[p.len() - 2];
            let k1 = p.len() - 2;
            assert(step(ts, false, p[k1], p[k1 + 1]));
            assert(is_walk(ts, false, p.take(p.len() - 1))) by {
                assert forall|k: int| 0 <= k < p.take(p.len() - 1).len() - 1 implies #[trigger] step(ts, false, p.take(p.len() - 1)[k], p.take(p.len() - 1)[k + 1]) by {
                    assert(step(ts, false, p[k], p[k + 1]));
                }
            }
            assert(p.take(p.len() - 1).last() == y);
            assert(reached.deep_view().contains(y));
            let m = choose|m: int| 0 <= m < reached.deep_view().len() && reached.deep_view()[m] == y;
            assert(!links(task_of(ts, reached.deep_view()[m]), false).contains(target@));
        }
    }
    false
}

/// The ids in a comma-separated list: each piece trimmed, empty ones left
/// out.
pub open spec fn ids_in(pieces: Seq<Seq<char>>) -> Seq<Seq<char>>
    decreases pieces.len(),
{
    if pieces.len() == 0 {
        Seq::empty()
    } else {
        let rest = ids_in(pieces.drop_last());
        let t = crate::text::trimmed(pieces.last());
        if t.len() == 0 {
            rest
        } else {
            rest.push(t)
        }
    }
}

/// Splits a comma-separated list of ids.
pub fn split_ids(value: &str) -> (r: Vec<String>)
    ensures
        r.deep_view() == ids_in(crate::text::split_char(value@, ',')),
{
    let pieces = crate::text::split(value, ',');
    let ghost pv = pieces.deep_view();
    let mut r: Vec<String> = Vec::new();
    let mut i: usize = 0;
    while i < pieces.len()
        invariant
            i <= pieces.len(),
            pv == pieces.deep_view(),
            r.deep_view() == ids_in(pv.take(i as int)),
        decreases pieces.len() - i,
    {
        assert(pv.take(i + 1).drop_last() =~= pv.take(i as int));
        assert(pv.take(i + 1).last() == pieces[i as int]@);
        let t = crate::text::trim(pieces[i].as_str());
        if crate::text::chars_of(t.as_str()).len() > 0 {
            let ghost before = r.deep_view();
            r.push(t);
            assert(r.deep_view() =~= before.push(crate::text::trimmed(pieces[i as int]@)));
        }
        i = i + 1;
    }
    assert(pv.take(pieces.len() as int) =~= pv);
    r
}

} // verus!

verus! {

/// `x` occurs in `s` exactly once.
pub open spec fn once(s: Seq<Seq<char>>, x: Seq<char>) -> bool {
    exists|k: int| 0 <= k < s.len() && s[k] == x && forall|j: int| 0 <= j < s.len() && #[trigger] s[j] == x ==> j == k
}

/// `x` occurs in `s` at most once.
pub open spec fn at_most_once(s: Seq<Seq<char>>, x: Seq<char>) -> bool {
    forall|a: int, b: int| 0 <= a < s.len() && 0 <= b < s.len() && #[trigger] s[a] == x && #[trigger] s[b] == x ==> a == b
}

/// `with_item` leaves `x` in the list exactly once, at the end when it was
/// not there.
proof fn lemma_with_item_once(s: Seq<Seq<char>>, x: Seq<char>)
    requires
        at_most_once(s, x),
    ensures
        once(with_item(s, x), x),
        !s.contains(x) ==> with_item(s, x) == s.push(x),
        with_item(with_item(s, x), x) == with_item(s, x),
{
    lemma_with_item_contains(s, x, x);
    if s.contains(x) {
        let k = choose|k: int| 0 <= k < s.len() && s[k] == x;
        assert(forall|j: int| 0 <= j < s.len() && #[trigger] s[j] == x ==> j == k);
    } else {
        let t = s.push(x);
        assert(t[s.len() as int] == x);
        assert forall|j: int| 0 <= j < t.len() && #[trigger] t[j] == x implies j == s.len() by {
            if j < s.len() {
                assert(s[j] == x);
            }
        }
    }
}

/// Adding a blocker links the two tasks exactly once each way, appending
/// each link at the end of its list when it is new, and changes nothing
/// else; adding it again changes nothing.
pub proof fn law_add_blocker_once(ts: Seq<TaskV>, id: Seq<char>, blocker: Seq<char>)
    requires
        has_task(ts, id),
        has_task(ts, blocker),
        id != blocker,
        at_most_once(task_of(ts, id).blocked_by, blocker),
        at_most_once(task_of(ts, blocker).blocks, id),
    ensures
        ({
            let n = blocker_added(ts, id, blocker);
            let old_by = task_of(ts, id).blocked_by;
            let old_blocks = task_of(ts, blocker).blocks;
            &&& once(task_of(n, id).blocked_by, blocker)
            &&& once(task_of(n, blocker).blocks, id)
            &&& !old_by.contains(blocker) ==> task_of(n, id).blocked_by == old_by.push(blocker)
            &&& !old_blocks.contains(id) ==> task_of(n, blocker).blocks == old_blocks.push(id)
            &&& task_of(n, id) == set_blocked_by_of(task_of(ts, id), task_of(n, id).blocked_by)
            &&& task_of(n, blocker) == set_blocks_of(task_of(ts, blocker), task_of(n, blocker).blocks)
            &&& n.len() == ts.len()
            &&& forall|j: int|
                0 <= j < ts.len() && j != index_of(ts, id) && j != index_of(ts, blocker) ==> #[trigger] n[j] == ts[j]
            &&& blocker_added(n, id, blocker) == n
        }),
{
    let n = blocker_added(ts, id, blocker);
    let i = index_of(ts, id);
    let k = index_of(ts, blocker);
    lemma_index_of(ts, id);
    lemma_index_of(ts, blocker);
    assert(i != k);
    assert(same_ids(ts, n));
    lemma_same_ids(ts, n, id);
    lemma_same_ids(ts, n, blocker);
    lemma_with_item_once(ts[i].blocked_by, blocker);
    lemma_with_item_once(ts[k].blocks, id);
    let n2 = blocker_added(n, id, blocker);
    assert(n2 =~= n);
}

/// Moving a task under a new parent, where `set_parent` allows it, on a
/// consistent list: the task names the new parent, the new parent lists it
/// exactly once, the old parent no longer lists it, and no other task
/// changes.
pub proof fn law_set_parent_once(ts: Seq<TaskV>, id: Seq<char>, p: Seq<char>)
    requires
        unique_ids(ts),
        hierarchy_ok(ts),
        set_parent_allowed(ts, id, Some(p)),
        task_of(ts, id).parent_id != Some(id),
    ensures
        ({
            let n = reparented(ts, id, Some(p));
            let q = task_of(ts, id).parent_id;
            &&& task_of(n, id) == set_parent_of(task_of(ts, id), Some(p))
            &&& once(task_of(n, p).children, id)
            &&& (q is Some && q->0 != p) ==> task_of(n, q->0) == set_children_of(
                task_of(ts, q->0),
                without(task_of(ts, q->0).children, id),
            ) && !task_of(n, q->0).children.contains(id)
            &&& task_of(n, p) == set_children_of(task_of(ts, p), task_of(n, p).children)
            &&& n.len() == ts.len()
            &&& forall|j: int|
                0 <= j < ts.len() && ts[j].id != id && ts[j].id != p && Some(ts[j].id) != q ==> #[trigger] n[j] == ts[j]
        }),
{
    let n = reparented(ts, id, Some(p));
    let i = index_of(ts, id);
    let kp = index_of(ts, p);
    lemma_index_of(ts, id);
    lemma_index_of(ts, p);
    assert(i != kp);
    let q = ts[i].parent_id;
    let s1 = match q {
        Some(o) => ts.update(index_of(ts, o), set_children_of(ts[index_of(ts, o)], without(ts[index_of(ts, o)].children, id))),
        None => ts,
    };
    if let Some(o) = q {
        lemma_index_of(ts, o);
    }
    assert(s1.len() == ts.len());
    assert(n.len() == ts.len());
    assert forall|j: int| 0 <= j < ts.len() implies #[trigger] n[j].id == ts[j].id by {
        lemma_reparented_children(ts, id, Some(p), j, id);
    }
    assert(same_ids(ts, n));
    lemma_same_ids(ts, n, id);
    lemma_same_ids(ts, n, p);
    match q {
        Some(o) => {
            lemma_index_of(ts, o);
            lemma_same_ids(ts, n, o);
            let ko = index_of(ts, o);
            assert(ko != i);
            if o != p {
                assert(ko != kp);
                lemma_without_contains(ts[ko].children, id, id);
            } else {
                // the old parent is the new one: `id` is removed, then added once
                lemma_without_contains(ts[ko].children, id, id);
                assert(at_most_once(without(ts[ko].children, id), id)) by {
                    assert(!without(ts[ko].children, id).contains(id));
                }
                lemma_with_item_once(without(ts[ko].children, id), id);
            }
        },
        None => {},
    }
    if q != Some(p) {
        assert(s1[kp] == ts[kp]);
        assert(!ts[kp].children.contains(id)) by {
            if ts[kp].children.contains(id) {
                assert(crate::validate::children_ok(ts, ts[kp]));
                let w = choose|w: int| 0 <= w < ts[kp].children.len() && ts[kp].children[w] == id;
                assert(has_task(ts, ts[kp].children[w]));
                assert(task_of(ts, id).parent_id == Some(ts[kp].id));
            }
        }
        lemma_with_item_once(ts[kp].children, id);
    }
}

/// Moving a task under another parent, where `set_parent` allows it, keeps
/// a list that may be written one that may be written: ids unique, links
/// consistent both ways, and no cycle of blockers.
pub proof fn law_set_parent_well_formed(ts: Seq<TaskV>, id: Seq<char>, parent: Option<Seq<char>>)
    requires
        crate::validate::well_formed(ts),
        set_parent_allowed(ts, id, parent),
    ensures
        crate::validate::well_formed(reparented(ts, id, parent)),
{
    let n = reparented(ts, id, parent);
    law_set_parent_consistent(ts, id, parent);
    assert forall|j: int| 0 <= j < ts.len() implies #[trigger] n[j].id == ts[j].id && n[j].blocked_by == ts[j].blocked_by by {
        lemma_reparented_children(ts, id, parent, j, id);
    }
    lemma_reparented_children(ts, id, parent, 0, id);
    assert forall|a: Seq<char>, b: Seq<char>| #[trigger] crate::validate::blocks_edge(n, a, b) ==> crate::validate::blocks_edge(ts, a, b) by {
        lemma_same_ids(ts, n, a);
        lemma_index_of(ts, a);
    }
    assert forall|c: Seq<Seq<char>>| c.len() >= 2 && crate::validate::is_blocking_chain(n, c) implies c[0] != c.last() by {
        assert(crate::validate::is_blocking_chain(ts, c)) by {
            assert forall|k: int| 0 <= k < c.len() - 1 implies #[trigger] crate::validate::blocks_edge(ts, c[k], c[k + 1]) by {
                assert(crate::validate::blocks_edge(n, c[k], c[k + 1]));
            }
        }
    }
}

} // verus!
