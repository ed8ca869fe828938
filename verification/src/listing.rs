//! Choosing, ordering and rendering the tasks that `list` shows.
use vstd::prelude::*;

use crate::service::in_subtree;
use crate::sort::{key_lt, sort_order, KeyV, SortKey};
use crate::task::{find_index, has_task, index_of, lemma_index_of, task_of, Task, TaskV, DEFAULT_PRIORITY};
use crate::text::{cat2, chars_of, contains_str, i64_text, owned, push_str, seq_contains, usize_text};

verus! {

/// Which tasks `list` shows.
pub struct ListFilter {
    pub all: bool,
    pub completed: bool,
    pub in_progress: bool,
    pub blocked: bool,
    pub ready: bool,
    /// A task id (show its subtree) or a text to search for.
    pub query: Option<String>,
}

/// The lower-case form of a text, as `str::to_lowercase` gives it.
pub uninterp spec fn lowercase(s: Seq<char>) -> Seq<char>;

/// `str::to_lowercase`: the full Unicode lower-case mapping of the text.
#[verifier::external_body]
pub fn to_lower(s: &str) -> (r: String)
    ensures
        r@ == lowercase(s@),
{
    s.to_lowercase()
}

/// The position of the task with id `id` (the first, if several).
pub fn find(tasks: &Vec<Task>, id: &str) -> (r: Option<usize>)
    ensures
        match r {
            Some(i) => i < tasks.len() && i as int == index_of(tasks.deep_view(), id@) && has_task(tasks.deep_view(), id@)
                && tasks.deep_view()[i as int].id == id@,
            None => !has_task(tasks.deep_view(), id@),
        },
{
    proof {
        lemma_index_of(tasks.deep_view(), id@);
    }
    find_index(tasks, id)
}

/// Started and not completed.
pub open spec fn in_progress(t: TaskV) -> bool {
    t.started_at is Some && !t.completed
}

/// `id` names a task that is not completed.
pub open spec fn open_task(ts: Seq<TaskV>, id: Seq<char>) -> bool {
    has_task(ts, id) && !task_of(ts, id).completed
}

/// Some blocker of `t` is an open task.
pub open spec fn blocked(ts: Seq<TaskV>, t: TaskV) -> bool {
    exists|k: int| 0 <= k < t.blocked_by.len() && #[trigger] open_task(ts, t.blocked_by[k])
}

/// Open, not started, and not blocked.
pub open spec fn ready(ts: Seq<TaskV>, t: TaskV) -> bool {
    !t.completed && t.started_at is None && !blocked(ts, t)
}

/// Whether a task is in progress.
pub fn is_in_progress(task: &Task) -> (r: bool)
    ensures
        r == in_progress(task@),
{
    task.started_at.is_some() && !task.completed
}

/// The ids of `l` that name open tasks, in order.
pub open spec fn open_ids(ts: Seq<TaskV>, l: Seq<Seq<char>>) -> Seq<Seq<char>>
    decreases l.len(),
{
    if l.len() == 0 {
        l
    } else if open_task(ts, l.last()) {
        open_ids(ts, l.drop_last()).push(l.last())
    } else {
        open_ids(ts, l.drop_last())
    }
}

/// An id of `l` names an open task exactly when `open_ids` keeps something.
proof fn lemma_open_ids_empty(ts: Seq<TaskV>, l: Seq<Seq<char>>)
    ensures
        open_ids(ts, l).len() == 0 <==> !(exists|k: int| 0 <= k < l.len() && #[trigger] open_task(ts, l[k])),
    decreases l.len(),
{
    if l.len() > 0 {
        lemma_open_ids_empty(ts, l.drop_last());
        if exists|k: int| 0 <= k < l.drop_last().len() && #[trigger] open_task(ts, l.drop_last()[k]) {
            let k = choose|k: int| 0 <= k < l.drop_last().len() && #[trigger] open_task(ts, l.drop_last()[k]);
            assert(l[k] == l.drop_last()[k]);
        }
        if exists|k: int| 0 <= k < l.len() && #[trigger] open_task(ts, l[k]) {
            let k = choose|k: int| 0 <= k < l.len() && #[trigger] open_task(ts, l[k]);
            if k < l.len() - 1 {
                assert(l[k] == l.drop_last()[k]);
            }
        }
    }
}

/// The ids in `l` of open tasks.
fn open_blocker_ids(tasks: &Vec<Task>, l: &Vec<String>) -> (r: Vec<String>)
    ensures
        r.deep_view() == open_ids(tasks.deep_view(), l.deep_view()),
{
    let ghost ts = tasks.deep_view();
    let ghost s = l.deep_view();
    let mut r: Vec<String> = Vec::new();
    let mut i: usize = 0;
    while i < l.len()
        invariant
            i <= l.len(),
            ts == tasks.deep_view(),
            s == l.deep_view(),
            r.deep_view() == open_ids(ts, s.take(i as int)),
        decreases l.len() - i,
    {
        assert(s.take(i + 1).drop_last() =~= s.take(i as int));
        assert(s.take(i + 1).last() == l[i as int]@);
        if let Some(b) = find(tasks, l[i].as_str()) {
            assert(tasks@[b as int]@ == ts[b as int]);
            if !tasks[b].completed {
                let ghost before = r.deep_view();
                r.push(l[i].clone());
                assert(r.deep_view() =~= before.push(l[i as int]@));
            }
        }
        i = i + 1;
    }
    assert(s.take(l.len() as int) =~= s);
    r
}

/// Whether an open task blocks `task`.
pub fn is_blocked(tasks: &Vec<Task>, task: &Task) -> (r: bool)
    ensures
        r == blocked(tasks.deep_view(), task@),
{
    let open = open_blocker_ids(tasks, &task.blocked_by);
    proof {
        lemma_open_ids_empty(tasks.deep_view(), task@.blocked_by);
    }
    open.len() > 0
}

/// Whether `task` is ready to work on.
pub fn is_ready(tasks: &Vec<Task>, task: &Task) -> (r: bool)
    ensures
        r == ready(tasks.deep_view(), task@),
{
    !task.completed && task.started_at.is_none() && !is_blocked(tasks, task)
}

/// The status marker of a task.
pub open spec fn icon(t: TaskV) -> Seq<char> {
    if t.completed {
        "[x]"@
    } else if t.started_at is Some {
        "[>]"@
    } else {
        "[ ]"@
    }
}

/// `[x]` for done, `[>]` for in progress, `[ ]` otherwise.
pub fn status_icon(task: &Task) -> (r: &'static str)
    ensures
        r@ == icon(task@),
{
    if task.completed {
        "[x]"
    } else if task.started_at.is_some() {
        "[>]"
    } else {
        "[ ]"
    }
}

/// One line of a listing: marker, id, priority unless the default, the open
/// blocker (or how many there are), and the name.
pub open spec fn line_of(ts: Seq<TaskV>, t: TaskV) -> Seq<char> {
    let open = open_ids(ts, t.blocked_by);
    icon(t) + " "@ + t.id + (if t.priority != DEFAULT_PRIORITY {
        " [p"@ + crate::text::int_dec(t.priority as int) + "]"@
    } else {
        Seq::empty()
    }) + (if open.len() == 0 {
        Seq::empty()
    } else if open.len() == 1 {
        " [B: "@ + open[0] + "]"@
    } else {
        " [B: "@ + crate::text::dec(open.len()) + "]"@
    }) + ": "@ + t.name
}

/// The listing line of a task.
pub fn task_line(tasks: &Vec<Task>, task: &Task) -> (r: String)
    ensures
        r@ == line_of(tasks.deep_view(), task@),
{
    let mut line = cat2(status_icon(task), " ");
    push_str(&mut line, task.id.as_str());
    if task.priority != DEFAULT_PRIORITY {
        push_str(&mut line, " [p");
        let p = i64_text(task.priority);
        push_str(&mut line, p.as_str());
        push_str(&mut line, "]");
    }
    let open = open_blocker_ids(tasks, &task.blocked_by);
    if open.len() == 1 {
        push_str(&mut line, " [B: ");
        push_str(&mut line, open[0].as_str());
        push_str(&mut line, "]");
    } else if open.len() > 1 {
        push_str(&mut line, " [B: ");
        let n = usize_text(open.len());
        push_str(&mut line, n.as_str());
        push_str(&mut line, "]");
    }
    push_str(&mut line, ": ");
    push_str(&mut line, task.name.as_str());
    proof {
        let ts = tasks.deep_view();
        let t = task@;
        assert(open.deep_view().len() == open.len());
        if open.len() == 1 {
            assert(open.deep_view()[0] == open@[0]@);
        }
        assert(line@ =~= line_of(ts, t));
    }
    line
}

/// The order listings use: by priority, then by id.
pub open spec fn list_key(t: TaskV) -> KeyV {
    KeyV { major: t.priority, minor: 0, text: t.id }
}

/// `r` lists positions of `ts` by `list_key`, ties kept in position order.
pub open spec fn in_list_order(ts: Seq<TaskV>, r: Seq<usize>) -> bool {
    forall|a: int, b: int|
        0 <= a < b < r.len() ==> key_lt(list_key(ts[r[a] as int]), list_key(ts[r[b] as int])) || (list_key(
            ts[r[a] as int],
        ) == list_key(ts[r[b] as int]) && r[a] < r[b])
}

/// The positions `picked` of `ts` (increasing), ordered by `list_key`.
fn sort_positions(tasks: &Vec<Task>, picked: &Vec<usize>) -> (r: Vec<usize>)
    requires
        forall|k: int| 0 <= k < picked.len() ==> #[trigger] picked@[k] < tasks.len(),
        forall|a: int, b: int| 0 <= a < b < picked.len() ==> picked@[a] < picked@[b],
    ensures
        r@.len() == picked@.len(),
        r@.no_duplicates(),
        forall|x: usize| #[trigger] r@.contains(x) <==> picked@.contains(x),
        in_list_order(tasks.deep_view(), r@),
{
    let ghost ts = tasks.deep_view();
    let mut keys: Vec<SortKey> = Vec::new();
    let mut i: usize = 0;
    while i < picked.len()
        invariant
            i <= picked.len(),
            ts == tasks.deep_view(),
            forall|k: int| 0 <= k < picked.len() ==> #[trigger] picked@[k] < tasks.len(),
            keys.len() == i,
            forall|k: int| 0 <= k < i ==> #[trigger] keys@[k]@ == list_key(ts[picked@[k] as int]),
        decreases picked.len() - i,
    {
        let t = &tasks[picked[i]];
        assert(t@ == ts[picked@[i as int] as int]);
        keys.push(SortKey { major: t.priority, minor: 0, text: chars_of(t.id.as_str()) });
        i = i + 1;
    }
    let order = sort_order(&keys, false);
    let ghost kv = keys@.map_values(|k: SortKey| k@);
    let mut r: Vec<usize> = Vec::new();
    let mut j: usize = 0;
    while j < order.len()
        invariant
            j <= order.len(),
            order.len() == picked.len(),
            kv == keys@.map_values(|k: SortKey| k@),
            crate::sort::sorted_permutation(order@, kv, false),
            r@ == order@.take(j as int).map_values(|k: usize| picked@[k as int]),
        decreases order.len() - j,
    {
        assert(order@[j as int] < picked.len());
        r.push(picked[order[j]]);
        assert(r@ =~= order@.take(j + 1).map_values(|k: usize| picked@[k as int]));
        j = j + 1;
    }
    proof {
        assert(order@.take(order.len() as int) =~= order@);
        assert forall|a: int, b: int| 0 <= a < r.len() && 0 <= b < r.len() && a != b implies r@[a] != r@[b] by {
            assert(order@[a] != order@[b]);
            if order@[a] < order@[b] {
                assert(picked@[order@[a] as int] < picked@[order@[b] as int]);
            } else {
                assert(picked@[order@[b] as int] < picked@[order@[a] as int]);
            }
        }
        assert forall|x: usize| #[trigger] r@.contains(x) <==> picked@.contains(x) by {
            if r@.contains(x) {
                let a = choose|a: int| 0 <= a < r.len() && r@[a] == x;
                assert(picked@[order@[a] as int] == x);
            }
            if picked@.contains(x) {
                let k = choose|k: int| 0 <= k < picked.len() && picked@[k] == x;
                crate::sort::lemma_permutation_covers(order@, picked.len() as int, k);
                let a = choose|a: int| 0 <= a < order.len() && order@[a] == k;
                assert(r@[a] == x);
            }
        }
        assert forall|a: int, b: int| 0 <= a < b < r.len() implies key_lt(list_key(ts[r@[a] as int]), list_key(ts[r@[b] as int]))
            || (list_key(ts[r@[a] as int]) == list_key(ts[r@[b] as int]) && r@[a] < r@[b]) by {
            let oa = order@[a] as int;
            let ob = order@[b] as int;
            assert(r@[a] == picked@[oa]);
            assert(r@[b] == picked@[ob]);
            assert(crate::sort::before(kv[oa], kv[ob], false) || (kv[oa] == kv[ob] && order@[a] < order@[b]));
            assert(keys@[oa]@ == list_key(ts[picked@[oa] as int]));
            assert(keys@[ob]@ == list_key(ts[picked@[ob] as int]));
            assert(kv[oa] == list_key(ts[picked@[oa] as int]));
            assert(kv[ob] == list_key(ts[picked@[ob] as int]));
            if kv[oa] == kv[ob] && order@[a] < order@[b] {
                assert(picked@[oa] < picked@[ob]);
            }
        }
    }
    r
}

/// The keys of the tasks at `items`.
pub open spec fn keys_of(ts: Seq<TaskV>, items: Seq<usize>) -> Seq<KeyV> {
    items.map_values(|p: usize| list_key(ts[p as int]))
}

/// The positions `items` in listing order: by priority, then id, equal
/// keys kept in the order given (a stable sort).
pub open spec fn list_sorted(ts: Seq<TaskV>, items: Seq<usize>) -> Seq<usize> {
    crate::sort::stable_order(keys_of(ts, items), false).map_values(|k: usize| items[k as int])
}

/// Sorts task positions into listing order.
pub fn sort_items(tasks: &Vec<Task>, items: &Vec<usize>) -> (r: Vec<usize>)
    requires
        forall|k: int| 0 <= k < items.len() ==> #[trigger] items@[k] < tasks.len(),
    ensures
        r@ == list_sorted(tasks.deep_view(), items@),
        r@.len() == items@.len(),
        forall|k: int| 0 <= k < r.len() ==> #[trigger] r@[k] < tasks.len(),
        forall|k: int| 0 <= k < r.len() ==> items@.contains(#[trigger] r@[k]),
        forall|a: int, b: int|
            0 <= a < b < r.len() ==> !key_lt(
                list_key(tasks.deep_view()[#[trigger] r@[b] as int]),
                list_key(tasks.deep_view()[#[trigger] r@[a] as int]),
            ),
{
    let ghost ts = tasks.deep_view();
    let mut keys: Vec<SortKey> = Vec::new();
    let mut i: usize = 0;
    while i < items.len()
        invariant
            i <= items.len(),
            ts == tasks.deep_view(),
            forall|k: int| 0 <= k < items.len() ==> #[trigger] items@[k] < tasks.len(),
            keys.len() == i,
            forall|k: int| 0 <= k < i ==> #[trigger] keys@[k]@ == list_key(ts[items@[k] as int]),
        decreases items.len() - i,
    {
        let t = &tasks[items[i]];
        assert(t@ == ts[items@[i as int] as int]);
        keys.push(SortKey { major: t.priority, minor: 0, text: chars_of(t.id.as_str()) });
        i = i + 1;
    }
    let order = sort_order(&keys, false);
    let ghost kv = keys@.map_values(|k: SortKey| k@);
    assert(kv =~= keys_of(ts, items@));
    proof {
        crate::sort::lemma_stable_order(order@, kv, false);
    }
    let mut r: Vec<usize> = Vec::new();
    let mut j: usize = 0;
    while j < order.len()
        invariant
            j <= order.len(),
            order.len() == items.len(),
            forall|k: int| 0 <= k < items.len() ==> #[trigger] items@[k] < tasks.len(),
            crate::sort::sorted_permutation(order@, kv, false),
            r@ == order@.take(j as int).map_values(|k: usize| items@[k as int]),
        decreases order.len() - j,
    {
        assert(order@[j as int] < items.len());
        r.push(items[order[j]]);
        assert(r@ =~= order@.take(j + 1).map_values(|k: usize| items@[k as int]));
        j = j + 1;
    }
    assert(order@.take(order.len() as int) =~= order@);
    proof {
        assert forall|k: int| 0 <= k < r.len() implies #[trigger] r@[k] < tasks.len() by {
            assert(order@[k] < items.len());
        }
        assert forall|k: int| 0 <= k < r.len() implies items@.contains(#[trigger] r@[k]) by {
            assert(r@[k] == items@[order@[k] as int]);
        }
        crate::sort::lemma_key_lt_facts();
        assert forall|a: int, b: int| 0 <= a < b < r.len() implies !key_lt(
            list_key(ts[#[trigger] r@[b] as int]),
            list_key(ts[#[trigger] r@[a] as int]),
        ) by {
            assert(r@[a] == items@[order@[a] as int]);
            assert(r@[b] == items@[order@[b] as int]);
            let x = kv[order@[a] as int];
            let y = kv[order@[b] as int];
            assert(x == list_key(ts[r@[a] as int]));
            assert(y == list_key(ts[r@[b] as int]));
            assert(crate::sort::before(x, y, false) || x == y);
            if key_lt(y, x) {
                if key_lt(x, y) {
                    assert(key_lt(x, x));
                }
                assert(x != y);
            }
        }
    }
    r
}

/// A listing query matches a task: when it is a task's id, the task lies in
/// that task's subtree; otherwise its name or description holds the query,
/// ignoring case.
pub open spec fn query_matches(ts: Seq<TaskV>, t: TaskV, q: Seq<char>) -> bool {
    if has_task(ts, q) {
        in_subtree(ts, q, t.id)
    } else {
        seq_contains(lowercase(t.name), lowercase(q)) || seq_contains(lowercase(t.description), lowercase(q))
    }
}

/// Whether `list` with this filter shows `t`.
pub open spec fn shown(ts: Seq<TaskV>, t: TaskV, f: ListFilter) -> bool {
    &&& if f.completed {
        t.completed
    } else {
        f.all || !t.completed
    }
    &&& f.in_progress ==> in_progress(t)
    &&& f.blocked ==> blocked(ts, t)
    &&& f.ready ==> ready(ts, t)
    &&& f.query matches Some(q) ==> query_matches(ts, t, q@)
}

/// The positions of the tasks `list` shows, in listing order.
pub fn select(tasks: &Vec<Task>, filter: &ListFilter) -> (r: Vec<usize>)
    ensures
        r@.no_duplicates(),
        forall|j: usize| #[trigger] r@.contains(j) <==> (j < tasks.len() && shown(tasks.deep_view(), tasks.deep_view()[j as int], *filter)),
        in_list_order(tasks.deep_view(), r@),
{
    let ghost ts = tasks.deep_view();
    let mut subtree: Option<Vec<String>> = None;
    let mut needle: Option<String> = None;
    if let Some(q) = &filter.query {
        if find(tasks, q.as_str()).is_some() {
            subtree = Some(crate::relations::subtree_ids(tasks, q.as_str()));
        } else {
            needle = Some(to_lower(q.as_str()));
        }
    }
    let mut picked: Vec<usize> = Vec::new();
    let mut j: usize = 0;
    while j < tasks.len()
        invariant
            j <= tasks.len(),
            ts == tasks.deep_view(),
            filter.query is None ==> subtree is None && needle is None,
            filter.query matches Some(q) ==> (has_task(ts, q@) <==> subtree is Some),
            filter.query matches Some(q) ==> (!has_task(ts, q@) <==> needle is Some),
            subtree matches Some(ids) ==> filter.query matches Some(q) && forall|x: Seq<char>| #[trigger] ids.deep_view().contains(x) <==> (
            has_task(ts, x) && crate::relations::reachable(ts, true, q@, x)),
            needle matches Some(n) ==> filter.query matches Some(q) && n@ == lowercase(q@),
            forall|k: int| 0 <= k < picked.len() ==> #[trigger] picked@[k] < j,
            forall|a: int, b: int| 0 <= a < b < picked.len() ==> picked@[a] < picked@[b],
            forall|x: usize| #[trigger] picked@.contains(x) <==> (x < j && shown(ts, ts[x as int], *filter)),
        decreases tasks.len() - j,
    {
        let task = &tasks[j];
        assert(task@ == ts[j as int]);
        let mut keep = if filter.completed {
            task.completed
        } else {
            filter.all || !task.completed
        };
        keep = keep && (!filter.in_progress || is_in_progress(task));
        keep = keep && (!filter.blocked || is_blocked(tasks, task));
        keep = keep && (!filter.ready || is_ready(tasks, task));
        if let Some(ids) = &subtree {
            keep = keep && crate::text::list_contains(ids, task.id.as_str());
            proof {
                lemma_index_of(ts, task@.id);
            }
        }
        if let Some(n) = &needle {
            let name = to_lower(task.name.as_str());
            let description = to_lower(task.description.as_str());
            keep = keep && (contains_str(name.as_str(), n.as_str()) || contains_str(description.as_str(), n.as_str()));
        }
        proof {
            assert(has_task(ts, task@.id));
            if filter.query is Some {
                let q = filter.query->0;
                if has_task(ts, q@) {
                    assert(keep == shown(ts, task@, *filter));
                } else {
                    assert(keep == shown(ts, task@, *filter));
                }
            }
        }
        assert(keep == shown(ts, task@, *filter));
        if keep {
            let ghost before = picked@;
            picked.push(j);
            proof {
                assert forall|x: usize| #[trigger] picked@.contains(x) <==> (x < j + 1 && shown(ts, ts[x as int], *filter)) by {
                    if picked@.contains(x) && x != j {
                        let w = choose|w: int| 0 <= w < picked.len() && picked@[w] == x;
                        assert(before[w] == x);
                        assert(before.contains(x));
                    }
                    if x < j && shown(ts, ts[x as int], *filter) {
                        assert(before.contains(x));
                        let w = choose|w: int| 0 <= w < before.len() && before[w] == x;
                        assert(picked@[w] == x);
                    }
                    if x == j {
                        assert(picked@[before.len() as int] == j);
                    }
                }
            }
        } else {
            proof {
                assert forall|x: usize| #[trigger] picked@.contains(x) <==> (x < j + 1 && shown(ts, ts[x as int], *filter)) by {
                    if picked@.contains(x) {
                        let w = choose|w: int| 0 <= w < picked.len() && picked@[w] == x;
                    }
                }
            }
        }
        j = j + 1;
    }
    sort_positions(tasks, &picked)
}

/// The listing lines of the tasks at `sel`, each ending a line.
pub open spec fn flat_text(ts: Seq<TaskV>, sel: Seq<usize>) -> Seq<char>
    decreases sel.len(),
{
    if sel.len() == 0 {
        Seq::empty()
    } else {
        flat_text(ts, sel.drop_last()) + line_of(ts, ts[sel.last() as int]) + "\n"@
    }
}

/// The lines of the chosen tasks, one per task, in the order given.
pub fn render_flat(tasks: &Vec<Task>, selected: &Vec<usize>) -> (r: String)
    requires
        forall|k: int| 0 <= k < selected.len() ==> #[trigger] selected@[k] < tasks.len(),
    ensures
        r@ == flat_text(tasks.deep_view(), selected@),
{
    let ghost ts = tasks.deep_view();
    let mut out = String::new();
    let mut k: usize = 0;
    while k < selected.len()
        invariant
            k <= selected.len(),
            ts == tasks.deep_view(),
            forall|q: int| 0 <= q < selected.len() ==> #[trigger] selected@[q] < tasks.len(),
            out@ == flat_text(ts, selected@.take(k as int)),
        decreases selected.len() - k,
    {
        assert(selected@.take(k + 1).drop_last() =~= selected@.take(k as int));
        let t = &tasks[selected[k]];
        assert(t@ == ts[selected@[k as int] as int]);
        let line = task_line(tasks, t);
        push_str(&mut out, line.as_str());
        push_str(&mut out, "\n");
        k = k + 1;
    }
    assert(selected@.take(selected.len() as int) =~= selected@);
    out
}

/// `b` is the parent named by the existing task `a`.
pub open spec fn parent_step(ts: Seq<TaskV>, a: Seq<char>, b: Seq<char>) -> bool {
    has_task(ts, a) && task_of(ts, a).parent_id == Some(b)
}

/// Each id of `p` names the next as its parent.
pub open spec fn is_up_walk(ts: Seq<TaskV>, p: Seq<Seq<char>>) -> bool {
    forall|k: int| 0 <= k < p.len() - 1 ==> #[trigger] parent_step(ts, p[k], p[k + 1])
}

/// `x` is reached from `a` by following parent links (or is `a`).
pub open spec fn up_from(ts: Seq<TaskV>, a: Seq<char>, x: Seq<char>) -> bool {
    exists|p: Seq<Seq<char>>| p.len() >= 1 && p[0] == a && p.last() == x && #[trigger] is_up_walk(ts, p)
}

/// `x` is the id of a chosen task or of an ancestor of one: what a tree
/// listing includes.
pub open spec fn in_tree(ts: Seq<TaskV>, sel: Seq<usize>, x: Seq<char>) -> bool {
    exists|k: int| 0 <= k < sel.len() && #[trigger] up_from(ts, ts[sel[k] as int].id, x)
}

/// An up-walk extended by one parent link.
proof fn lemma_up_push(ts: Seq<TaskV>, p: Seq<Seq<char>>, c: Seq<char>)
    requires
        p.len() >= 1,
        is_up_walk(ts, p),
        parent_step(ts, p.last(), c),
    ensures
        is_up_walk(ts, p.push(c)),
{
    assert forall|k: int| 0 <= k < p.push(c).len() - 1 implies #[trigger] parent_step(ts, p.push(c)[k], p.push(c)[k + 1]) by {
        if k < p.len() - 1 {
            assert(parent_step(ts, p[k], p[k + 1]));
        }
    }
}

/// In a set closed under parent links, an up-walk from a member stays in it.
proof fn lemma_up_closed(ts: Seq<TaskV>, inc: Seq<Seq<char>>, p: Seq<Seq<char>>, k: int)
    requires
        p.len() >= 1,
        inc.contains(p[0]),
        is_up_walk(ts, p),
        forall|x: Seq<char>, y: Seq<char>| #[trigger] inc.contains(x) && parent_step(ts, x, y) ==> #[trigger] inc.contains(y),
        0 <= k < p.len(),
    ensures
        inc.contains(p[k]),
    decreases k,
{
    if k > 0 {
        let k1 = k - 1;
        assert(parent_step(ts, p[k1], p[k1 + 1]));
        lemma_up_closed(ts, inc, p, k1);
    }
}

/// Every id is a task's id or a task's parent.
pub open spec fn known_id(ts: Seq<TaskV>, x: Seq<char>) -> bool {
    has_task(ts, x) || exists|j: int| 0 <= j < ts.len() && #[trigger] ts[j].parent_id == Some(x)
}

/// Distinct known ids are at most twice the tasks.
proof fn lemma_known_bound(ts: Seq<TaskV>, r: Seq<Seq<char>>)
    requires
        r.no_duplicates(),
        forall|k: int| 0 <= k < r.len() ==> known_id(ts, #[trigger] r[k]),
    ensures
        r.len() <= 2 * ts.len(),
{
    let code = |x: Seq<char>|
        if has_task(ts, x) {
            index_of(ts, x)
        } else {
            ts.len() + choose|j: int| 0 <= j < ts.len() && #[trigger] ts[j].parent_id == Some(x)
        };
    let pos = r.map_values(code);
    assert forall|k: int| 0 <= k < pos.len() implies 0 <= #[trigger] pos[k] < 2 * ts.len() by {
        lemma_index_of(ts, r[k]);
        assert(known_id(ts, r[k]));
    }
    assert(pos.no_duplicates()) by {
        assert forall|a: int, b: int| 0 <= a < pos.len() && 0 <= b < pos.len() && a != b implies pos[a] != pos[b] by {
            lemma_index_of(ts, r[a]);
            lemma_index_of(ts, r[b]);
            assert(known_id(ts, r[a]));
            assert(known_id(ts, r[b]));
            assert(r[a] != r[b]);
        }
    }
    crate::validate::lemma_distinct_bound(pos, (2 * ts.len()) as int);
}

/// The ids a tree listing of the chosen tasks includes: theirs and their
/// ancestors'. Where two tasks share an id the walk is only described by the
/// code.
fn tree_ids(tasks: &Vec<Task>, selected: &Vec<usize>) -> (r: Vec<String>)
    requires
        forall|k: int| 0 <= k < selected.len() ==> #[trigger] selected@[k] < tasks.len(),
    ensures
        crate::validate::unique_ids(tasks.deep_view()) ==> forall|x: Seq<char>| #[trigger] r.deep_view().contains(x) <==> in_tree(
            tasks.deep_view(),
            selected@,
            x,
        ),
{
    let ghost ts = tasks.deep_view();
    let ghost sel = selected@;
    let ghost n = tasks.len() as int;
    let ghost u = crate::validate::unique_ids(ts);
    let mut inc: Vec<String> = Vec::new();
    let mut k: usize = 0;
    while k < selected.len()
        invariant
            k <= selected.len(),
            ts == tasks.deep_view(),
            sel == selected@,
            forall|q: int| 0 <= q < selected.len() ==> #[trigger] selected@[q] < tasks.len(),
            inc.deep_view().no_duplicates(),
            forall|q: int| 0 <= q < k ==> #[trigger] inc.deep_view().contains(ts[sel[q] as int].id),
            forall|x: Seq<char>| #[trigger] inc.deep_view().contains(x) ==> exists|q: int| 0 <= q < k && x == ts[sel[q] as int].id,
        decreases selected.len() - k,
    {
        let t = &tasks[selected[k]];
        assert(t@ == ts[sel[k as int] as int]);
        let ghost before = inc.deep_view();
        if !crate::text::list_contains(&inc, t.id.as_str()) {
            inc.push(t.id.clone());
            assert(inc.deep_view() =~= before.push(t@.id));
            assert(inc.deep_view().no_duplicates()) by {
                assert forall|a: int, b: int| 0 <= a < b < inc.deep_view().len() implies inc.deep_view()[a] != inc.deep_view()[b] by {
                    if b == before.len() {
                        assert(before.contains(inc.deep_view()[a]));
                    }
                }
            }
        }
        proof {
            assert forall|q: int| 0 <= q < k + 1 implies #[trigger] inc.deep_view().contains(ts[sel[q] as int].id) by {
                if q < k {
                    assert(before.contains(ts[sel[q] as int].id));
                    let w = choose|w: int| 0 <= w < before.len() && before[w] == ts[sel[q] as int].id;
                    assert(inc.deep_view()[w] == before[w]);
                } else if !before.contains(t@.id) {
                    assert(inc.deep_view()[before.len() as int] == t@.id);
                }
            }
            assert forall|x: Seq<char>| #[trigger] inc.deep_view().contains(x) implies exists|q: int|
                0 <= q < k + 1 && x == ts[sel[q] as int].id by {
                let w = choose|w: int| 0 <= w < inc.deep_view().len() && inc.deep_view()[w] == x;
                if w < before.len() {
                    assert(before[w] == x);
                    assert(before.contains(x));
                }
            }
        }
        k = k + 1;
    }
    proof {
        assert forall|x: Seq<char>| #[trigger] inc.deep_view().contains(x) implies (u ==> in_tree(ts, sel, x)) && known_id(ts, x) by {
            let q = choose|q: int| 0 <= q < selected.len() && x == ts[sel[q] as int].id;
            assert(is_up_walk(ts, seq![x]));
            assert(up_from(ts, ts[sel[q] as int].id, x));
            lemma_index_of(ts, x);
        }
    }
    let mut k: usize = 0;
    while k < selected.len()
        invariant
            k <= selected.len(),
            ts == tasks.deep_view(),
            sel == selected@,
            n == tasks.len(),
            u == crate::validate::unique_ids(ts),
            inc.deep_view().no_duplicates(),
            forall|q: int| 0 <= q < selected.len() ==> #[trigger] selected@[q] < tasks.len(),
            forall|q: int| 0 <= q < selected.len() ==> #[trigger] inc.deep_view().contains(ts[sel[q] as int].id),
            forall|x: Seq<char>| #[trigger] inc.deep_view().contains(x) ==> (u ==> in_tree(ts, sel, x)) && known_id(ts, x),
            u ==> forall|x: Seq<char>, y: Seq<char>|
                #[trigger] inc.deep_view().contains(x) && parent_step(ts, x, y) && !(exists|q: int|
                    k <= q < selected.len() && x == ts[sel[q] as int].id) ==> #[trigger] inc.deep_view().contains(y),
        decreases selected.len() - k,
    {
        let t = &tasks[selected[k]];
        assert(t@ == ts[sel[k as int] as int]);
        let mut last = t.id.clone();
        let mut current = crate::text::copy_opt(&t.parent_id);
        assert(inc.deep_view().contains(ts[sel[k as int] as int].id));
        assert(ts[sel[k as int] as int].parent_id == crate::task::opt_view(current));
        proof {
            lemma_index_of(ts, last@);
            if u {
                crate::validate::lemma_unique_index(ts, sel[k as int] as int);
            }
        }
        loop
            invariant
                ts == tasks.deep_view(),
                sel == selected@,
                n == tasks.len(),
                u == crate::validate::unique_ids(ts),
                k < selected.len(),
                inc.deep_view().no_duplicates(),
                forall|q: int| 0 <= q < selected.len() ==> #[trigger] selected@[q] < tasks.len(),
                forall|q: int| 0 <= q < selected.len() ==> #[trigger] inc.deep_view().contains(ts[sel[q] as int].id),
                forall|x: Seq<char>| #[trigger] inc.deep_view().contains(x) ==> (u ==> in_tree(ts, sel, x)) && known_id(ts, x),
                inc.deep_view().contains(last@),
                current matches Some(c) ==> exists|j: int| 0 <= j < ts.len() && #[trigger] ts[j].parent_id == Some(c@),
                u ==> (has_task(ts, last@) ==> crate::task::opt_view(current) == task_of(ts, last@).parent_id),
                !has_task(ts, last@) ==> current is None,
                u ==> forall|x: Seq<char>, y: Seq<char>|
                    #[trigger] inc.deep_view().contains(x) && parent_step(ts, x, y) && x != last@ && !(exists|q: int|
                        k < q < selected.len() && x == ts[sel[q] as int].id) ==> #[trigger] inc.deep_view().contains(y),
            ensures
                inc.deep_view().no_duplicates(),
                forall|q: int| 0 <= q < selected.len() ==> #[trigger] inc.deep_view().contains(ts[sel[q] as int].id),
                forall|x: Seq<char>| #[trigger] inc.deep_view().contains(x) ==> (u ==> in_tree(ts, sel, x)) && known_id(ts, x),
                u ==> forall|x: Seq<char>, y: Seq<char>|
                    #[trigger] inc.deep_view().contains(x) && parent_step(ts, x, y) && !(exists|q: int|
                        k < q < selected.len() && x == ts[sel[q] as int].id) ==> #[trigger] inc.deep_view().contains(y),
            decreases 2 * n - inc.len(),
        {
            let p = match &current {
                None => {
                    break;
                },
                Some(p) => p.clone(),
            };
            if crate::text::list_contains(&inc, p.as_str()) {
                break;
            }
            let ghost before = inc.deep_view();
            inc.push(p.clone());
            assert(inc.deep_view() =~= before.push(p@));
            proof {
                assert(known_id(ts, p@));
                assert(inc.deep_view().no_duplicates()) by {
                    assert forall|a: int, b: int| 0 <= a < b < inc.deep_view().len() implies inc.deep_view()[a] != inc.deep_view()[b] by {
                        if b == before.len() {
                            assert(before.contains(inc.deep_view()[a]));
                        }
                    }
                }
                assert forall|q2: int| 0 <= q2 < selected.len() implies #[trigger] inc.deep_view().contains(ts[sel[q2] as int].id) by {
                    assert(before.contains(ts[sel[q2] as int].id));
                    let v = choose|v: int| 0 <= v < before.len() && before[v] == ts[sel[q2] as int].id;
                    assert(inc.deep_view()[v] == before[v]);
                }
                assert forall|x: Seq<char>| #[trigger] inc.deep_view().contains(x) implies (u ==> in_tree(ts, sel, x)) && known_id(ts, x) by {
                    if x != p@ {
                        let v = choose|v: int| 0 <= v < inc.deep_view().len() && inc.deep_view()[v] == x;
                        assert(before[v] == x);
                        assert(before.contains(x));
                    } else if u {
                        assert(parent_step(ts, last@, p@));
                        assert(before.contains(last@));
                        assert(in_tree(ts, sel, last@));
                        let q = choose|q: int| 0 <= q < sel.len() && #[trigger] up_from(ts, ts[sel[q] as int].id, last@);
                        let path = choose|path: Seq<Seq<char>>|
                            path.len() >= 1 && path[0] == ts[sel[q] as int].id && path.last() == last@ && #[trigger] is_up_walk(
                                ts,
                                path,
                            );
                        lemma_up_push(ts, path, p@);
                        assert(path.push(p@).last() == p@);
                        assert(up_from(ts, ts[sel[q] as int].id, p@));
                    }
                }
                if u {
                    assert forall|x: Seq<char>, y: Seq<char>|
                        #[trigger] inc.deep_view().contains(x) && parent_step(ts, x, y) && x != p@ && !(exists|q3: int|
                            k < q3 < selected.len() && x == ts[sel[q3] as int].id) implies #[trigger] inc.deep_view().contains(y) by {
                        let v = choose|v: int| 0 <= v < inc.deep_view().len() && inc.deep_view()[v] == x;
                        assert(before[v] == x);
                        assert(before.contains(x));
                        if x == last@ {
                            assert(y == p@);
                            assert(inc.deep_view()[before.len() as int] == p@);
                        } else {
                            assert(before.contains(y));
                            let v2 = choose|v2: int| 0 <= v2 < before.len() && before[v2] == y;
                            assert(inc.deep_view()[v2] == y);
                        }
                    }
                }
                assert forall|w: int| 0 <= w < inc.deep_view().len() implies known_id(ts, #[trigger] inc.deep_view()[w]) by {
                    assert(inc.deep_view().contains(inc.deep_view()[w]));
                }
                lemma_known_bound(ts, inc.deep_view());
                lemma_index_of(ts, p@);
            }
            current = match find(tasks, p.as_str()) {
                Some(i) => {
                    assert(tasks@[i as int]@ == ts[i as int]);
                    let c = crate::text::copy_opt(&tasks[i].parent_id);
                    assert(ts[i as int].parent_id == crate::task::opt_view(c));
                    c
                },
                None => None,
            };
            assert(inc.deep_view()[before.len() as int] == p@);
            last = p;
        }
        proof {
            if u {
                assert forall|x: Seq<char>, y: Seq<char>|
                    #[trigger] inc.deep_view().contains(x) && parent_step(ts, x, y) && !(exists|q: int|
                        k + 1 <= q < selected.len() && x == ts[sel[q] as int].id) implies #[trigger] inc.deep_view().contains(y) by {
                    assert(!(exists|q: int| k < q < selected.len() && x == ts[sel[q] as int].id));
                }
            }
        }
        k = k + 1;
    }
    proof {
        let iv = inc.deep_view();
        if u {
            assert forall|x: Seq<char>| in_tree(ts, sel, x) implies #[trigger] iv.contains(x) by {
                let q = choose|q: int| 0 <= q < sel.len() && #[trigger] up_from(ts, ts[sel[q] as int].id, x);
                let path = choose|path: Seq<Seq<char>>|
                    path.len() >= 1 && path[0] == ts[sel[q] as int].id && path.last() == x && #[trigger] is_up_walk(ts, path);
                assert forall|a: Seq<char>, b: Seq<char>| #[trigger] iv.contains(a) && parent_step(ts, a, b) implies #[trigger] iv.contains(b) by {
                    assert(!(exists|q3: int| selected.len() <= q3 < selected.len() && a == ts[sel[q3] as int].id));
                }
                lemma_up_closed(ts, iv, path, path.len() - 1);
            }
        }
    }
    inc
}

/// The positions, below `j`, of the tasks a tree listing starts from: those
/// it includes whose parent it does not include.
pub open spec fn roots_upto(ts: Seq<TaskV>, sel: Seq<usize>, j: int) -> Seq<usize>
    decreases j,
{
    if j <= 0 {
        Seq::empty()
    } else {
        let r = roots_upto(ts, sel, j - 1);
        let t = ts[j - 1];
        if in_tree(ts, sel, t.id) && (t.parent_id matches Some(p) ==> !in_tree(ts, sel, p)) {
            r.push((j - 1) as usize)
        } else {
            r
        }
    }
}

/// The positions of the children in `l` that a tree listing includes.
pub open spec fn kids_of(ts: Seq<TaskV>, sel: Seq<usize>, l: Seq<Seq<char>>) -> Seq<usize>
    decreases l.len(),
{
    if l.len() == 0 {
        Seq::empty()
    } else {
        let r = kids_of(ts, sel, l.drop_last());
        if in_tree(ts, sel, l.last()) && has_task(ts, l.last()) {
            r.push(index_of(ts, l.last()) as usize)
        } else {
            r
        }
    }
}

/// The connector before a child: the last child closes the branch.
pub open spec fn branch(last: bool) -> Seq<char> {
    if last {
        "└── "@
    } else {
        "├── "@
    }
}

/// What continues a branch on the lines below a child.
pub open spec fn extension(last: bool) -> Seq<char> {
    if last {
        "    "@
    } else {
        "│   "@
    }
}

/// The lines below the task at `node`, each starting with `prefix`, at
/// most `fuel` levels deep.
pub open spec fn below_text(ts: Seq<TaskV>, sel: Seq<usize>, node: int, prefix: Seq<char>, fuel: nat) -> Seq<char>
    decreases fuel, 0int, 0int,
{
    if fuel == 0 {
        Seq::empty()
    } else {
        kids_text(ts, sel, list_sorted(ts, kids_of(ts, sel, ts[node].children)), prefix, (fuel - 1) as nat, 0)
    }
}

/// The lines of the children `kids` from the `i`-th on, each with its own
/// children below it.
pub open spec fn kids_text(ts: Seq<TaskV>, sel: Seq<usize>, kids: Seq<usize>, prefix: Seq<char>, fuel: nat, i: int) -> Seq<char>
    decreases fuel, 1int, kids.len() - i,
{
    if i < 0 || i >= kids.len() {
        Seq::empty()
    } else {
        let last = i == kids.len() - 1;
        prefix + branch(last) + line_of(ts, ts[kids[i] as int]) + "\n"@ + below_text(
            ts,
            sel,
            kids[i] as int,
            prefix + extension(last),
            fuel,
        ) + kids_text(ts, sel, kids, prefix, fuel, i + 1)
    }
}

/// The lines of the roots `roots`, each with the tree below it.
pub open spec fn roots_text(ts: Seq<TaskV>, sel: Seq<usize>, roots: Seq<usize>) -> Seq<char>
    decreases roots.len(),
{
    if roots.len() == 0 {
        Seq::empty()
    } else {
        roots_text(ts, sel, roots.drop_last()) + line_of(ts, ts[roots.last() as int]) + "\n"@ + below_text(
            ts,
            sel,
            roots.last() as int,
            Seq::empty(),
            ts.len(),
        )
    }
}

/// A tree listing of the chosen tasks with their ancestors.
pub open spec fn tree_text(ts: Seq<TaskV>, sel: Seq<usize>) -> Seq<char> {
    roots_text(ts, sel, list_sorted(ts, roots_upto(ts, sel, ts.len() as int)))
}

/// The positions of the included children of the task at `node`.
fn included_kids(tasks: &Vec<Task>, inc: &Vec<String>, Ghost(sel): Ghost<Seq<usize>>, node: usize) -> (r: Vec<usize>)
    requires
        node < tasks.len(),
        crate::validate::unique_ids(tasks.deep_view()) ==> forall|x: Seq<char>| #[trigger] inc.deep_view().contains(x) <==> in_tree(
            tasks.deep_view(),
            sel,
            x,
        ),
    ensures
        crate::validate::unique_ids(tasks.deep_view()) ==> r@ == kids_of(tasks.deep_view(), sel, tasks.deep_view()[node as int].children),
        forall|k: int| 0 <= k < r.len() ==> #[trigger] r@[k] < tasks.len(),
{
    let ghost ts = tasks.deep_view();
    let ghost u = crate::validate::unique_ids(ts);
    let children = &tasks[node].children;
    assert(tasks@[node as int]@ == ts[node as int]);
    let ghost l = children.deep_view();
    let mut r: Vec<usize> = Vec::new();
    let mut i: usize = 0;
    while i < children.len()
        invariant
            i <= children.len(),
            ts == tasks.deep_view(),
            u == crate::validate::unique_ids(ts),
            l == children.deep_view(),
            u ==> forall|x: Seq<char>| #[trigger] inc.deep_view().contains(x) <==> in_tree(ts, sel, x),
            u ==> r@ == kids_of(ts, sel, l.take(i as int)),
            forall|k: int| 0 <= k < r.len() ==> #[trigger] r@[k] < tasks.len(),
        decreases children.len() - i,
    {
        assert(l.take(i + 1).drop_last() =~= l.take(i as int));
        assert(l.take(i + 1).last() == children[i as int]@);
        if crate::text::list_contains(inc, children[i].as_str()) {
            if let Some(c) = find(tasks, children[i].as_str()) {
                r.push(c);
            }
        }
        i = i + 1;
    }
    assert(l.take(children.len() as int) =~= l);
    r
}

/// One step of `kids_text`.
proof fn lemma_kids_text_step(ts: Seq<TaskV>, sel: Seq<usize>, kids: Seq<usize>, prefix: Seq<char>, fuel: nat, i: int)
    requires
        0 <= i < kids.len(),
    ensures
        kids_text(ts, sel, kids, prefix, fuel, i) == prefix + branch(i == kids.len() - 1) + line_of(ts, ts[kids[i] as int])
            + "\n"@ + below_text(ts, sel, kids[i] as int, prefix + extension(i == kids.len() - 1), fuel) + kids_text(
            ts,
            sel,
            kids,
            prefix,
            fuel,
            i + 1,
        ),
{
}

/// Appends the lines below the task at `node`.
fn render_below(
    tasks: &Vec<Task>,
    inc: &Vec<String>,
    Ghost(sel): Ghost<Seq<usize>>,
    node: usize,
    prefix: &String,
    fuel: usize,
    out: &mut String,
)
    requires
        node < tasks.len(),
        crate::validate::unique_ids(tasks.deep_view()) ==> forall|x: Seq<char>| #[trigger] inc.deep_view().contains(x) <==> in_tree(
            tasks.deep_view(),
            sel,
            x,
        ),
    ensures
        crate::validate::unique_ids(tasks.deep_view()) ==> final(out)@ == old(out)@ + below_text(
            tasks.deep_view(),
            sel,
            node as int,
            prefix@,
            fuel as nat,
        ),
    decreases fuel,
{
    let ghost ts = tasks.deep_view();
    let ghost u = crate::validate::unique_ids(ts);
    if fuel == 0 {
        assert(old(out)@ + Seq::<char>::empty() =~= old(out)@);
        return;
    }
    let kids = included_kids(tasks, inc, Ghost(sel), node);
    let sorted = sort_items(tasks, &kids);
    let ghost f = (fuel - 1) as nat;
    let ghost target = old(out)@ + kids_text(ts, sel, sorted@, prefix@, f, 0);
    let mut i: usize = 0;
    while i < sorted.len()
        invariant
            i <= sorted.len(),
            ts == tasks.deep_view(),
            u == crate::validate::unique_ids(ts),
            fuel > 0,
            f == fuel - 1,
            forall|k: int| 0 <= k < sorted.len() ==> #[trigger] sorted@[k] < tasks.len(),
            u ==> forall|x: Seq<char>| #[trigger] inc.deep_view().contains(x) <==> in_tree(ts, sel, x),
            u ==> out@ + kids_text(ts, sel, sorted@, prefix@, f, i as int) == target,
        decreases sorted.len() - i,
    {
        let last = i == sorted.len() - 1;
        let t = &tasks[sorted[i]];
        assert(t@ == ts[sorted@[i as int] as int]);
        let ghost before = out@;
        push_str(out, prefix.as_str());
        push_str(out, if last { "└── " } else { "├── " });
        let line = task_line(tasks, t);
        push_str(out, line.as_str());
        push_str(out, "\n");
        let ghost entry = prefix@ + branch(last) + line_of(ts, ts[sorted@[i as int] as int]) + "\n"@;
        assert(out@ =~= before + entry);
        let next = cat2(prefix.as_str(), if last { "    " } else { "│   " });
        assert(next@ == prefix@ + extension(last));
        render_below(tasks, inc, Ghost(sel), sorted[i], &next, fuel - 1, out);
        proof {
            if u {
                lemma_kids_text_step(ts, sel, sorted@, prefix@, f, i as int);
                let below = below_text(ts, sel, sorted@[i as int] as int, prefix@ + extension(last), f);
                assert(out@ == before + entry + below);
                assert(out@ + kids_text(ts, sel, sorted@, prefix@, f, i + 1) =~= before + (entry + below + kids_text(
                    ts,
                    sel,
                    sorted@,
                    prefix@,
                    f,
                    i + 1,
                )));
            }
        }
        i = i + 1;
    }
    proof {
        if u {
            assert(out@ + Seq::<char>::empty() =~= out@);
        }
    }
}

/// The chosen tasks as a tree: each shown under its parent, ancestors added
/// so that every chosen task hangs from a root; siblings in listing order.
/// Where two tasks share an id the text is only described by the code.
pub fn render_tree(tasks: &Vec<Task>, selected: &Vec<usize>) -> (r: String)
    requires
        forall|k: int| 0 <= k < selected.len() ==> #[trigger] selected@[k] < tasks.len(),
    ensures
        crate::validate::unique_ids(tasks.deep_view()) ==> r@ == tree_text(tasks.deep_view(), selected@),
{
    let ghost ts = tasks.deep_view();
    let ghost sel = selected@;
    let ghost u = crate::validate::unique_ids(ts);
    let inc = tree_ids(tasks, selected);
    let mut roots: Vec<usize> = Vec::new();
    let mut j: usize = 0;
    while j < tasks.len()
        invariant
            j <= tasks.len(),
            ts == tasks.deep_view(),
            sel == selected@,
            u == crate::validate::unique_ids(ts),
            u ==> forall|x: Seq<char>| #[trigger] inc.deep_view().contains(x) <==> in_tree(ts, sel, x),
            u ==> roots@ == roots_upto(ts, sel, j as int),
            forall|k: int| 0 <= k < roots.len() ==> #[trigger] roots@[k] < tasks.len(),
        decreases tasks.len() - j,
    {
        let t = &tasks[j];
        assert(t@ == ts[j as int]);
        let top = match &t.parent_id {
            None => true,
            Some(p) => !crate::text::list_contains(&inc, p.as_str()),
        };
        if top && crate::text::list_contains(&inc, t.id.as_str()) {
            roots.push(j);
        }
        j = j + 1;
    }
    let sorted = sort_items(tasks, &roots);
    let mut out = String::new();
    let mut k: usize = 0;
    while k < sorted.len()
        invariant
            k <= sorted.len(),
            ts == tasks.deep_view(),
            sel == selected@,
            u == crate::validate::unique_ids(ts),
            u ==> forall|x: Seq<char>| #[trigger] inc.deep_view().contains(x) <==> in_tree(ts, sel, x),
            forall|q: int| 0 <= q < sorted.len() ==> #[trigger] sorted@[q] < tasks.len(),
            u ==> out@ == roots_text(ts, sel, sorted@.take(k as int)),
        decreases sorted.len() - k,
    {
        assert(sorted@.take(k + 1).drop_last() =~= sorted@.take(k as int));
        let t = &tasks[sorted[k]];
        assert(t@ == ts[sorted@[k as int] as int]);
        let line = task_line(tasks, t);
        push_str(&mut out, line.as_str());
        push_str(&mut out, "\n");
        let empty = String::new();
        render_below(tasks, &inc, Ghost(sel), sorted[k], &empty, tasks.len(), &mut out);
        k = k + 1;
    }
    assert(sorted@.take(sorted.len() as int) =~= sorted@);
    out
}

} // verus!

verus! {

/// Task position `a` comes before `b` in listing order.
pub open spec fn listed_before(ts: Seq<TaskV>, a: usize, b: usize) -> bool {
    key_lt(list_key(ts[a as int]), list_key(ts[b as int])) || (list_key(ts[a as int]) == list_key(ts[b as int]) && a < b)
}

/// The positions of `r` whose task the query `q` matches, in order.
pub open spec fn query_kept(ts: Seq<TaskV>, r: Seq<usize>, q: Seq<char>) -> Seq<usize>
    decreases r.len(),
{
    if r.len() == 0 {
        r
    } else {
        let rest = query_kept(ts, r.drop_last(), q);
        if query_matches(ts, ts[r.last() as int], q) {
            rest.push(r.last())
        } else {
            rest
        }
    }
}

proof fn lemma_listed_before_asym(ts: Seq<TaskV>, a: usize, b: usize)
    ensures
        !(listed_before(ts, a, b) && listed_before(ts, b, a)),
{
    crate::sort::lemma_key_lt_facts();
    let x = list_key(ts[a as int]);
    let y = list_key(ts[b as int]);
    if key_lt(x, y) && key_lt(y, x) {
        assert(key_lt(x, x));
    }
}

proof fn lemma_query_kept(ts: Seq<TaskV>, r: Seq<usize>, q: Seq<char>)
    requires
        r.no_duplicates(),
        in_list_order(ts, r),
    ensures
        query_kept(ts, r, q).no_duplicates(),
        in_list_order(ts, query_kept(ts, r, q)),
        forall|x: usize| #[trigger] query_kept(ts, r, q).contains(x) <==> (r.contains(x) && query_matches(ts, ts[x as int], q)),
    decreases r.len(),
{
    if r.len() > 0 {
        let d = r.drop_last();
        let l = r.last();
        assert(d.no_duplicates()) by {
            assert forall|a: int, b: int| 0 <= a < d.len() && 0 <= b < d.len() && a != b implies d[a] != d[b] by {
                assert(r[a] == d[a] && r[b] == d[b]);
            }
        }
        assert(in_list_order(ts, d)) by {
            assert forall|a: int, b: int| 0 <= a < b < d.len() implies key_lt(list_key(ts[d[a] as int]), list_key(ts[d[b] as int]))
                || (list_key(ts[d[a] as int]) == list_key(ts[d[b] as int]) && d[a] < d[b]) by {
                assert(r[a] == d[a] && r[b] == d[b]);
            }
        }
        lemma_query_kept(ts, d, q);
        let rest = query_kept(ts, d, q);
        assert(r =~= d.push(l));
        assert forall|x: usize| r.contains(x) <==> (d.contains(x) || x == l) by {
            if r.contains(x) {
                let k = choose|k: int| 0 <= k < r.len() && r[k] == x;
                if k < d.len() {
                    assert(d[k] == x);
                }
            }
            if d.contains(x) {
                let k = choose|k: int| 0 <= k < d.len() && d[k] == x;
                assert(r[k] == x);
            }
            if x == l {
                assert(r[r.len() - 1] == x);
            }
        }
        assert(!d.contains(l)) by {
            if d.contains(l) {
                let k = choose|k: int| 0 <= k < d.len() && d[k] == l;
                assert(r[k] == l && r[r.len() - 1] == l);
            }
        }
        if query_matches(ts, ts[l as int], q) {
            let s = rest.push(l);
            assert forall|x: usize| s.contains(x) <==> (rest.contains(x) || x == l) by {
                if s.contains(x) {
                    let k = choose|k: int| 0 <= k < s.len() && s[k] == x;
                    if k < rest.len() {
                        assert(rest[k] == x);
                    }
                }
                if rest.contains(x) {
                    let k = choose|k: int| 0 <= k < rest.len() && rest[k] == x;
                    assert(s[k] == x);
                }
                if x == l {
                    assert(s[s.len() - 1] == x);
                }
            }
            assert(s.no_duplicates()) by {
                assert forall|a: int, b: int| 0 <= a < s.len() && 0 <= b < s.len() && a != b implies s[a] != s[b] by {
                    if a < rest.len() && b < rest.len() {
                        assert(s[a] == rest[a] && s[b] == rest[b]);
                    } else if a < rest.len() {
                        assert(rest.contains(s[a]));
                    } else if b < rest.len() {
                        assert(rest.contains(s[b]));
                    }
                }
            }
            assert(in_list_order(ts, s)) by {
                assert forall|a: int, b: int| 0 <= a < b < s.len() implies key_lt(list_key(ts[s[a] as int]), list_key(ts[s[b] as int]))
                    || (list_key(ts[s[a] as int]) == list_key(ts[s[b] as int]) && s[a] < s[b]) by {
                    if b < rest.len() {
                        assert(s[a] == rest[a] && s[b] == rest[b]);
                    } else {
                        assert(s[a] == rest[a]);
                        assert(rest.contains(s[a]));
                        assert(d.contains(s[a]));
                        let k = choose|k: int| 0 <= k < d.len() && d[k] == s[a];
                        assert(r[k] == s[a] && r[r.len() - 1] == l && k < r.len() - 1);
                    }
                }
            }
        }
    }
}

proof fn lemma_listed_unique(ts: Seq<TaskV>, s1: Seq<usize>, s2: Seq<usize>)
    requires
        s1.no_duplicates(),
        s2.no_duplicates(),
        in_list_order(ts, s1),
        in_list_order(ts, s2),
        forall|x: usize| s1.contains(x) <==> s2.contains(x),
    ensures
        s1 == s2,
{
    let n = if s1.len() < s2.len() { s1.len() } else { s2.len() };
    assert forall|a: int| 0 <= a < n implies s1[a] == s2[a] by {
        lemma_listed_prefix(ts, s1, s2, a);
    }
    if s1.len() < s2.len() {
        let y = s2[n as int];
        assert(s2.contains(y));
        let p = choose|p: int| 0 <= p < s1.len() && s1[p] == y;
        assert(s2[p] == y);
    }
    if s2.len() < s1.len() {
        let y = s1[n as int];
        assert(s1.contains(y));
        let p = choose|p: int| 0 <= p < s2.len() && s2[p] == y;
        assert(s1[p] == y);
    }
    assert(s1 =~= s2);
}

proof fn lemma_listed_prefix(ts: Seq<TaskV>, s1: Seq<usize>, s2: Seq<usize>, a: int)
    requires
        s1.no_duplicates(),
        s2.no_duplicates(),
        in_list_order(ts, s1),
        in_list_order(ts, s2),
        forall|x: usize| s1.contains(x) <==> s2.contains(x),
        0 <= a < s1.len(),
        a < s2.len(),
    ensures
        s1[a] == s2[a],
    decreases a,
{
    assert forall|b: int| 0 <= b < a implies s1[b] == s2[b] by {
        lemma_listed_prefix(ts, s1, s2, b);
    }
    let x = s1[a];
    let y = s2[a];
    if x != y {
        assert(s1.contains(x) && s2.contains(y));
        let p = choose|p: int| 0 <= p < s1.len() && s1[p] == y;
        let q = choose|q: int| 0 <= q < s2.len() && s2[q] == x;
        if p < a {
            assert(s2[p] == y);
        }
        if q < a {
            assert(s1[q] == x);
        }
        assert(p > a && q > a);
        assert(listed_before(ts, x, y));
        assert(listed_before(ts, y, x));
        lemma_listed_before_asym(ts, x, y);
    }
}

/// Listing with a query shows what listing without it shows, kept to the
/// tasks the query matches, in the same order: the subtree of the task the
/// query names, or else the tasks whose name or description holds it,
/// ignoring case.
pub proof fn law_select_query(ts: Seq<TaskV>, f: ListFilter, with_query: Seq<usize>, without: Seq<usize>)
    requires
        f.query is Some,
        with_query.no_duplicates(),
        forall|j: usize| #[trigger] with_query.contains(j) <==> (j < ts.len() && shown(ts, ts[j as int], f)),
        in_list_order(ts, with_query),
        without.no_duplicates(),
        forall|j: usize| #[trigger] without.contains(j) <==> (j < ts.len() && shown(ts, ts[j as int], ListFilter { query: None, ..f })),
        in_list_order(ts, without),
    ensures
        with_query == query_kept(ts, without, f.query->0@),
{
    let q = f.query->0@;
    lemma_query_kept(ts, without, q);
    let k = query_kept(ts, without, q);
    assert forall|x: usize| with_query.contains(x) <==> k.contains(x) by {
        assert(without.contains(x) <==> (x < ts.len() && shown(ts, ts[x as int], ListFilter { query: None, ..f })));
        assert(with_query.contains(x) <==> (x < ts.len() && shown(ts, ts[x as int], f)));
    }
    lemma_listed_unique(ts, with_query, k);
}

} // verus!

verus! {

/// A task is blocked exactly when one of the ids it is blocked by names a
/// task of the list that is not completed: blockers that are completed, or
/// that are not in the list, do not block it. An open task that is not
/// started and whose blockers are all completed or missing is ready.
pub proof fn law_blocked_means_open_blocker(ts: Seq<TaskV>, t: TaskV)
    ensures
        blocked(ts, t) <==> exists|k: int|
            0 <= k < t.blocked_by.len() && has_task(ts, #[trigger] t.blocked_by[k]) && !task_of(ts, t.blocked_by[k]).completed,
        (forall|k: int| 0 <= k < t.blocked_by.len() && has_task(ts, #[trigger] t.blocked_by[k]) ==> task_of(ts, t.blocked_by[k]).completed)
            ==> !blocked(ts, t),
        (!t.completed && t.started_at is None && forall|k: int|
            0 <= k < t.blocked_by.len() && has_task(ts, #[trigger] t.blocked_by[k]) ==> task_of(ts, t.blocked_by[k]).completed)
            ==> ready(ts, t),
        ready(ts, t) ==> !t.completed && t.started_at is None && forall|k: int|
            0 <= k < t.blocked_by.len() && has_task(ts, #[trigger] t.blocked_by[k]) ==> task_of(ts, t.blocked_by[k]).completed,
{
    if ready(ts, t) {
        assert forall|k: int| 0 <= k < t.blocked_by.len() && has_task(ts, #[trigger] t.blocked_by[k]) implies task_of(ts, t.blocked_by[k]).completed by {
            if !task_of(ts, t.blocked_by[k]).completed {
                assert(open_task(ts, t.blocked_by[k]));
            }
        }
    }
    if blocked(ts, t) {
        let k = choose|k: int| 0 <= k < t.blocked_by.len() && #[trigger] open_task(ts, t.blocked_by[k]);
        assert(has_task(ts, t.blocked_by[k]) && !task_of(ts, t.blocked_by[k]).completed);
    }
    if exists|k: int|
        0 <= k < t.blocked_by.len() && has_task(ts, #[trigger] t.blocked_by[k]) && !task_of(ts, t.blocked_by[k]).completed {
        let k = choose|k: int|
            0 <= k < t.blocked_by.len() && has_task(ts, #[trigger] t.blocked_by[k]) && !task_of(ts, t.blocked_by[k]).completed;
        assert(open_task(ts, t.blocked_by[k]));
    }
}

} // verus!
