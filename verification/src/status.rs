//! The `status` dashboard: counts, and the tasks in progress, ready,
//! blocked and recently completed.
use vstd::prelude::*;

use crate::clock::{minutes_between, now_nanos, parse_rfc3339, rfc3339_nanos, whole_minutes};
use crate::listing::{
    blocked, in_progress, line_of, list_sorted, open_task, render_tree, task_line, tree_text, is_blocked,
};
use crate::sort::{sort_order, stable_order, KeyV, SortKey};
use crate::task::{find_index, has_task, index_of, lemma_index_of, task_of, Task, TaskV};
use crate::text::{cat2, dec, push_str, u64_text, usize_text};

verus! {

/// How many of the recently completed tasks the dashboard shows.
pub const RECENT_LIMIT: usize = 5;

/// The task counts of the dashboard.
pub struct Stats {
    pub total: usize,
    pub pending: usize,
    pub completed: usize,
    pub blocked: usize,
    pub ready: usize,
    pub in_progress: usize,
}

/// The dashboard: its counts and the positions of the tasks in each section.
pub struct Dashboard {
    pub stats: Stats,
    pub in_progress: Vec<usize>,
    pub ready: Vec<usize>,
    pub blocked: Vec<usize>,
    pub recently_completed: Vec<usize>,
}

/// Some child of `t` is an open task.
pub open spec fn has_open_children(ts: Seq<TaskV>, t: TaskV) -> bool {
    exists|k: int| 0 <= k < t.children.len() && #[trigger] open_task(ts, t.children[k])
}

/// The sections a task belongs to: 0 pending, 1 in progress, 2 blocked,
/// 3 ready, 4 completed.
pub open spec fn in_section(ts: Seq<TaskV>, t: TaskV, which: int) -> bool {
    if which == 0 {
        !t.completed
    } else if which == 1 {
        !t.completed && in_progress(t)
    } else if which == 2 {
        !t.completed && (blocked(ts, t) || has_open_children(ts, t))
    } else if which == 3 {
        !t.completed && t.started_at is None && !blocked(ts, t) && !has_open_children(ts, t)
    } else {
        t.completed
    }
}

/// The positions below `j` of the tasks in a section, in position order.
pub open spec fn section_upto(ts: Seq<TaskV>, which: int, j: int) -> Seq<usize>
    decreases j,
{
    if j <= 0 {
        Seq::empty()
    } else if in_section(ts, ts[j - 1], which) {
        section_upto(ts, which, j - 1).push((j - 1) as usize)
    } else {
        section_upto(ts, which, j - 1)
    }
}

/// All the positions of a section.
pub open spec fn section(ts: Seq<TaskV>, which: int) -> Seq<usize> {
    section_upto(ts, which, ts.len() as int)
}

/// The key recently completed tasks are ordered by: their completion time,
/// a missing one first.
pub open spec fn completed_key(t: TaskV) -> KeyV {
    match t.completed_at {
        Some(c) => KeyV { major: 1, minor: 0, text: c },
        None => KeyV { major: 0, minor: 0, text: Seq::empty() },
    }
}

/// The completed tasks, latest completion first (ties in position order),
/// at most `RECENT_LIMIT` of them.
pub open spec fn recent(ts: Seq<TaskV>) -> Seq<usize> {
    let done = section(ts, 4);
    let order = stable_order(done.map_values(|p: usize| completed_key(ts[p as int])), true);
    let sorted = order.map_values(|k: usize| done[k as int]);
    if sorted.len() > RECENT_LIMIT {
        sorted.take(RECENT_LIMIT as int)
    } else {
        sorted
    }
}

/// Whether `d` is the dashboard of `ts`.
pub open spec fn is_dashboard(ts: Seq<TaskV>, d: Dashboard) -> bool {
    &&& d.in_progress@ == list_sorted(ts, section(ts, 1))
    &&& d.blocked@ == list_sorted(ts, section(ts, 2))
    &&& d.ready@ == list_sorted(ts, section(ts, 3))
    &&& d.recently_completed@ == recent(ts)
    &&& d.stats.total == ts.len()
    &&& d.stats.pending == section(ts, 0).len()
    &&& d.stats.completed == ts.len() - section(ts, 0).len()
    &&& d.stats.blocked == d.blocked.len()
    &&& d.stats.ready == d.ready.len()
    &&& d.stats.in_progress == d.in_progress.len()
    &&& d.in_progress@.len() == section(ts, 1).len()
    &&& d.blocked@.len() == section(ts, 2).len()
    &&& d.ready@.len() == section(ts, 3).len()
}

proof fn lemma_section_counts(ts: Seq<TaskV>, j: int)
    requires
        0 <= j <= ts.len(),
    ensures
        section_upto(ts, 2, j).len() + section_upto(ts, 3, j).len() <= section_upto(ts, 0, j).len(),
        section_upto(ts, 1, j).len() <= section_upto(ts, 0, j).len(),
        section_upto(ts, 0, j).len() + section_upto(ts, 4, j).len() == j,
    decreases j,
{
    if j > 0 {
        lemma_section_counts(ts, j - 1);
    }
}

/// The dashboard's counts fit together: every task is pending or
/// completed, and the blocked, ready and in-progress tasks are pending,
/// none both blocked and ready.
pub proof fn law_dashboard_counts(ts: Seq<TaskV>, d: Dashboard)
    requires
        is_dashboard(ts, d),
    ensures
        d.stats.pending + d.stats.completed == d.stats.total,
        d.stats.blocked + d.stats.ready <= d.stats.pending,
        d.stats.in_progress <= d.stats.pending,
{
    lemma_section_counts(ts, ts.len() as int);
}

/// Whether an open child hangs under `task`.
fn open_children(tasks: &Vec<Task>, task: &Task) -> (r: bool)
    ensures
        r == has_open_children(tasks.deep_view(), task@),
{
    let ghost ts = tasks.deep_view();
    let mut k: usize = 0;
    while k < task.children.len()
        invariant
            k <= task.children.len(),
            ts == tasks.deep_view(),
            forall|q: int| 0 <= q < k ==> !#[trigger] open_task(ts, task@.children[q]),
        decreases task.children.len() - k,
    {
        assert(task@.children[k as int] == task.children[k as int]@);
        proof {
            lemma_index_of(ts, task@.children[k as int]);
        }
        if let Some(c) = find_index(tasks, task.children[k].as_str()) {
            assert(tasks@[c as int]@ == ts[c as int]);
            if !tasks[c].completed {
                assert(open_task(ts, task@.children[k as int]));
                return true;
            }
        }
        k = k + 1;
    }
    false
}

/// Whether `task` belongs to a section.
fn in_section_exec(tasks: &Vec<Task>, task: &Task, which: u8) -> (r: bool)
    requires
        which <= 4,
    ensures
        r == in_section(tasks.deep_view(), task@, which as int),
{
    if which == 0 {
        !task.completed
    } else if which == 1 {
        !task.completed && crate::listing::is_in_progress(task)
    } else if which == 2 {
        !task.completed && (is_blocked(tasks, task) || open_children(tasks, task))
    } else if which == 3 {
        !task.completed && task.started_at.is_none() && !is_blocked(tasks, task) && !open_children(tasks, task)
    } else {
        task.completed
    }
}

/// The positions of the tasks in a section, in position order.
fn section_exec(tasks: &Vec<Task>, which: u8) -> (r: Vec<usize>)
    requires
        which <= 4,
    ensures
        r@ == section(tasks.deep_view(), which as int),
        forall|k: int| 0 <= k < r.len() ==> #[trigger] r@[k] < tasks.len(),
{
    let ghost ts = tasks.deep_view();
    let mut r: Vec<usize> = Vec::new();
    let mut j: usize = 0;
    while j < tasks.len()
        invariant
            j <= tasks.len(),
            which <= 4,
            ts == tasks.deep_view(),
            r@ == section_upto(ts, which as int, j as int),
            forall|k: int| 0 <= k < r.len() ==> #[trigger] r@[k] < j,
        decreases tasks.len() - j,
    {
        assert(tasks@[j as int]@ == ts[j as int]);
        if in_section_exec(tasks, &tasks[j], which) {
            r.push(j);
        }
        j = j + 1;
    }
    r
}

/// The recently completed tasks: latest completion first, at most
/// `RECENT_LIMIT`.
fn recent_exec(tasks: &Vec<Task>) -> (r: Vec<usize>)
    ensures
        r@ == recent(tasks.deep_view()),
        r.len() <= RECENT_LIMIT,
        forall|k: int| 0 <= k < r.len() ==> #[trigger] r@[k] < tasks.len() && tasks.deep_view()[r@[k] as int].completed,
        forall|a: int, b: int|
            0 <= a < b < r.len() ==> !crate::sort::key_lt(
                completed_key(tasks.deep_view()[#[trigger] r@[a] as int]),
                completed_key(tasks.deep_view()[#[trigger] r@[b] as int]),
            ),
{
    let ghost ts = tasks.deep_view();
    let done = section_exec(tasks, 4);
    let mut keys: Vec<SortKey> = Vec::new();
    let mut i: usize = 0;
    while i < done.len()
        invariant
            i <= done.len(),
            ts == tasks.deep_view(),
            done@ == section(ts, 4),
            forall|k: int| 0 <= k < done.len() ==> #[trigger] done@[k] < tasks.len(),
            keys.len() == i,
            forall|k: int| 0 <= k < i ==> #[trigger] keys@[k]@ == completed_key(ts[done@[k] as int]),
        decreases done.len() - i,
    {
        let t = &tasks[done[i]];
        assert(t@ == ts[done@[i as int] as int]);
        let key = match &t.completed_at {
            Some(c) => SortKey { major: 1, minor: 0, text: crate::text::chars_of(c.as_str()) },
            None => SortKey { major: 0, minor: 0, text: Vec::new() },
        };
        assert(key.text@ =~= completed_key(t@).text);
        keys.push(key);
        i = i + 1;
    }
    let order = sort_order(&keys, true);
    let ghost kv = keys@.map_values(|k: SortKey| k@);
    assert(kv =~= done@.map_values(|p: usize| completed_key(ts[p as int])));
    proof {
        crate::sort::lemma_stable_order(order@, kv, true);
    }
    let mut r: Vec<usize> = Vec::new();
    let mut j: usize = 0;
    while j < order.len() && j < RECENT_LIMIT
        invariant
            j <= order.len(),
            j <= RECENT_LIMIT,
            order.len() == done.len(),
            crate::sort::sorted_permutation(order@, kv, true),
            r@ == order@.take(j as int).map_values(|k: usize| done@[k as int]),
        decreases order.len() - j,
    {
        assert(order@[j as int] < done.len());
        r.push(done[order[j]]);
        assert(r@ =~= order@.take(j + 1).map_values(|k: usize| done@[k as int]));
        j = j + 1;
    }
    proof {
        lemma_section_members(ts, 4, ts.len() as int);
        crate::sort::lemma_key_lt_facts();
        assert forall|k: int| 0 <= k < r.len() implies #[trigger] r@[k] < tasks.len() && ts[r@[k] as int].completed by {
            assert(r@[k] == done@[order@[k] as int]);
            assert(in_section(ts, ts[done@[order@[k] as int] as int], 4));
        }
        assert forall|a: int, b: int| 0 <= a < b < r.len() implies !crate::sort::key_lt(
            completed_key(ts[#[trigger] r@[a] as int]),
            completed_key(ts[#[trigger] r@[b] as int]),
        ) by {
            assert(r@[a] == done@[order@[a] as int]);
            assert(r@[b] == done@[order@[b] as int]);
            let x = kv[order@[a] as int];
            let y = kv[order@[b] as int];
            assert(x == completed_key(ts[r@[a] as int]));
            assert(y == completed_key(ts[r@[b] as int]));
            assert(crate::sort::before(x, y, true) || x == y);
            if crate::sort::key_lt(x, y) {
                if crate::sort::key_lt(y, x) {
                    assert(crate::sort::key_lt(x, x));
                }
                assert(x != y);
            }
        }
        let sorted = order@.map_values(|k: usize| done@[k as int]);
        if sorted.len() > RECENT_LIMIT {
            assert(r@ =~= sorted.take(RECENT_LIMIT as int));
        } else {
            assert(r@ =~= sorted);
        }
    }
    r
}

/// Every position of a section is a task of that section.
proof fn lemma_section_members(ts: Seq<TaskV>, which: int, j: int)
    requires
        0 <= j <= ts.len(),
        ts.len() <= usize::MAX,
    ensures
        forall|k: int|
            0 <= k < section_upto(ts, which, j).len() ==> #[trigger] section_upto(ts, which, j)[k] < j && in_section(
                ts,
                ts[section_upto(ts, which, j)[k] as int],
                which,
            ),
    decreases j,
{
    if j > 0 {
        lemma_section_members(ts, which, j - 1);
        let prev = section_upto(ts, which, j - 1);
        let cur = section_upto(ts, which, j);
        assert forall|k: int| 0 <= k < cur.len() implies #[trigger] cur[k] < j && in_section(ts, ts[cur[k] as int], which) by {
            if in_section(ts, ts[j - 1], which) {
                assert(cur == prev.push((j - 1) as usize));
                if k < prev.len() {
                    assert(cur[k] == prev[k]);
                } else {
                    assert(cur[k] == (j - 1) as usize);
                }
            } else {
                assert(cur == prev);
            }
        }
    }
}

/// The tasks at `items` all belong to section `which`, in listing order.
pub open spec fn section_listed(ts: Seq<TaskV>, items: Seq<usize>, which: int) -> bool {
    &&& forall|k: int| 0 <= k < items.len() ==> #[trigger] items[k] < ts.len() && in_section(ts, ts[items[k] as int], which)
    &&& forall|a: int, b: int|
        0 <= a < b < items.len() ==> !crate::sort::key_lt(
            crate::listing::list_key(ts[#[trigger] items[b] as int]),
            crate::listing::list_key(ts[#[trigger] items[a] as int]),
        )
}

/// The dashboard of a task list. Its sections hold pending tasks only: the
/// started ones, the blocked ones (an open blocker or an open child) and
/// the ready ones, each by priority then id; the recently completed list
/// holds at most `RECENT_LIMIT` completed tasks, latest completion first.
pub fn dashboard(tasks: &Vec<Task>) -> (d: Dashboard)
    ensures
        is_dashboard(tasks.deep_view(), d),
        section_listed(tasks.deep_view(), d.in_progress@, 1),
        section_listed(tasks.deep_view(), d.blocked@, 2),
        section_listed(tasks.deep_view(), d.ready@, 3),
        d.recently_completed.len() <= RECENT_LIMIT,
        forall|k: int|
            0 <= k < d.recently_completed.len() ==> #[trigger] d.recently_completed@[k] < tasks.len()
                && tasks.deep_view()[d.recently_completed@[k] as int].completed,
        forall|a: int, b: int|
            0 <= a < b < d.recently_completed.len() ==> !crate::sort::key_lt(
                completed_key(tasks.deep_view()[#[trigger] d.recently_completed@[a] as int]),
                completed_key(tasks.deep_view()[#[trigger] d.recently_completed@[b] as int]),
            ),
{
    let pending = section_exec(tasks, 0);
    let in_progress = section_exec(tasks, 1);
    let in_progress = crate::listing::sort_items(tasks, &in_progress);
    let blocked = section_exec(tasks, 2);
    let blocked = crate::listing::sort_items(tasks, &blocked);
    let ready = section_exec(tasks, 3);
    let ready = crate::listing::sort_items(tasks, &ready);
    let recently_completed = recent_exec(tasks);
    proof {
        let ts = tasks.deep_view();
        lemma_section_len(ts, 0, tasks.len() as int);
        lemma_section_members(ts, 1, ts.len() as int);
        lemma_section_members(ts, 2, ts.len() as int);
        lemma_section_members(ts, 3, ts.len() as int);
        assert forall|k: int| 0 <= k < in_progress.len() implies #[trigger] in_progress@[k] < ts.len() && in_section(ts, ts[in_progress@[k] as int], 1) by {
            let w = choose|w: int| 0 <= w < section(ts, 1).len() && section(ts, 1)[w] == in_progress@[k];
        }
        assert forall|k: int| 0 <= k < blocked.len() implies #[trigger] blocked@[k] < ts.len() && in_section(ts, ts[blocked@[k] as int], 2) by {
            let w = choose|w: int| 0 <= w < section(ts, 2).len() && section(ts, 2)[w] == blocked@[k];
        }
        assert forall|k: int| 0 <= k < ready.len() implies #[trigger] ready@[k] < ts.len() && in_section(ts, ts[ready@[k] as int], 3) by {
            let w = choose|w: int| 0 <= w < section(ts, 3).len() && section(ts, 3)[w] == ready@[k];
        }
    }
    let stats = Stats {
        total: tasks.len(),
        pending: pending.len(),
        completed: tasks.len() - pending.len(),
        blocked: blocked.len(),
        ready: ready.len(),
        in_progress: in_progress.len(),
    };
    Dashboard { stats, in_progress, ready, blocked, recently_completed }
}

/// A section has no more positions than it looked at.
proof fn lemma_section_len(ts: Seq<TaskV>, which: int, j: int)
    requires
        0 <= j,
    ensures
        section_upto(ts, which, j).len() <= j,
    decreases j,
{
    if j > 0 {
        lemma_section_len(ts, which, j - 1);
    }
}

/// `s` right-aligned in a field `w` characters wide (`{:>w}`).
pub open spec fn pad_left(s: Seq<char>, w: nat) -> Seq<char> {
    if s.len() >= w {
        s
    } else {
        Seq::new((w - s.len()) as nat, |i: int| ' ') + s
    }
}

/// The rule under a section title.
pub open spec fn rule() -> Seq<char> {
    "────────────────────"@
}

/// A titled section, left out when its body is empty.
pub open spec fn section_text(title: Seq<char>, body: Seq<char>) -> Seq<char> {
    if body.len() == 0 {
        Seq::empty()
    } else {
        "\n"@ + title + "\n"@ + rule() + "\n"@ + body
    }
}

/// The rounded percentage of completed tasks.
pub open spec fn percent(s: Stats) -> nat {
    ((s.completed * 100 + s.total / 2) / (s.total as int)) as nat
}

/// The first lines of the dashboard: the counts, right-aligned.
pub open spec fn header(s: Stats) -> Seq<char> {
    pad_left(dec(percent(s)) + "%"@, 5) + pad_left(dec(s.in_progress as nat), 9) + pad_left(dec(s.ready as nat), 9) + pad_left(
        dec(s.blocked as nat),
        9,
    ) + "   \ncomplete   active   ready   blocked\n"@
}

/// How long ago a task was completed, from its completion time and the time
/// `now` it is shown at.
pub open spec fn age_text(completed_at: Option<Seq<char>>, now: int) -> Seq<char> {
    let then = match completed_at {
        Some(c) => rfc3339_nanos(c),
        None => None,
    };
    match then {
        None => "unknown"@,
        Some(t) => {
            let m = if whole_minutes(now, t) < 0 {
                0
            } else {
                whole_minutes(now, t)
            };
            if m < 60 {
                dec(m as nat) + "m ago"@
            } else if m < 60 * 24 {
                dec((m / 60) as nat) + "h ago"@
            } else {
                dec((m / 1440int) as nat) + "d ago"@
            }
        },
    }
}

/// The lines of the recently completed tasks, the `k`-th shown at `nows[k]`.
pub open spec fn recent_text(ts: Seq<TaskV>, rec: Seq<usize>, nows: Seq<int>) -> Seq<char>
    decreases rec.len(),
{
    if rec.len() == 0 {
        Seq::empty()
    } else {
        recent_text(ts, rec.drop_last(), nows) + line_of(ts, ts[rec.last() as int]) + " ("@ + age_text(
            ts[rec.last() as int].completed_at,
            nows[rec.len() - 1],
        ) + ")\n"@
    }
}

/// The text of the dashboard `d` of `ts`, the recent tasks' ages taken at
/// the times `nows`.
pub open spec fn dashboard_text(ts: Seq<TaskV>, d: Dashboard, nows: Seq<int>) -> Seq<char> {
    if ts.len() == 0 {
        "No tasks yet. Create one with: dex create \"Task name\" --description \"Details\"\n"@
    } else {
        header(d.stats) + section_text(
            "In Progress ("@ + dec(d.in_progress.len() as nat) + ")"@,
            tree_text(ts, d.in_progress@),
        ) + section_text("Ready to Work ("@ + dec(d.ready.len() as nat) + ")"@, tree_text(ts, d.ready@)) + section_text(
            "Blocked ("@ + dec(d.blocked.len() as nat) + ")"@,
            tree_text(ts, d.blocked@),
        ) + section_text("Recently Completed"@, recent_text(ts, d.recently_completed@, nows))
    }
}

/// `s` right-aligned in a field `w` wide.
fn pad(s: &String, w: usize) -> (r: String)
    ensures
        r@ == pad_left(s@, w as nat),
{
    let n = crate::text::chars_of(s.as_str()).len();
    let mut r = String::new();
    if n < w {
        let mut i: usize = 0;
        while i < w - n
            invariant
                i <= w - n,
                n == s@.len(),
                n < w,
                r@ == Seq::new(i as nat, |k: int| ' '),
            decreases w - n - i,
        {
            crate::text::push_char(&mut r, ' ');
            assert(r@ =~= Seq::new((i + 1) as nat, |k: int| ' '));
            i = i + 1;
        }
    }
    push_str(&mut r, s.as_str());
    proof {
        if n >= w {
            assert(r@ =~= s@);
        }
    }
    r
}

/// Appends a titled section unless its body is empty.
fn push_section(out: &mut String, title: &String, body: &String)
    ensures
        final(out)@ == old(out)@ + section_text(title@, body@),
{
    if crate::text::chars_of(body.as_str()).len() == 0 {
        assert(old(out)@ + Seq::<char>::empty() =~= old(out)@);
        return;
    }
    push_str(out, "\n");
    push_str(out, title.as_str());
    push_str(out, "\n");
    push_str(out, "────────────────────");
    push_str(out, "\n");
    push_str(out, body.as_str());
    assert(out@ =~= old(out)@ + section_text(title@, body@));
}

/// How long ago a task was completed.
fn age(completed_at: &Option<String>, now: i128) -> (r: String)
    requires
        crate::clock::nanos_in_range(now as int),
    ensures
        r@ == age_text(crate::task::opt_view(*completed_at), now as int),
{
    let then = match completed_at {
        Some(c) => parse_rfc3339(c.as_str()),
        None => None,
    };
    match then {
        None => crate::text::owned("unknown"),
        Some(t) => {
            let m0 = minutes_between(now, t);
            let m = if m0 < 0 {
                0
            } else {
                m0
            };
            if m < 60 {
                cat2(u128_of(m).as_str(), "m ago")
            } else if m < 60 * 24 {
                cat2(u128_of(m / 60).as_str(), "h ago")
            } else {
                cat2(u128_of(m / (60 * 24)).as_str(), "d ago")
            }
        },
    }
}

/// Decimal text of a non-negative `i128`.
fn u128_of(m: i128) -> (r: String)
    requires
        m >= 0,
    ensures
        r@ == dec(m as nat),
{
    crate::text::u128_text(m as u128)
}

/// What `render` needs of a dashboard: counts to divide by, and positions
/// of tasks.
pub open spec fn renderable(ts: Seq<TaskV>, d: Dashboard) -> bool {
    &&& ts.len() > 0 ==> d.stats.total > 0
    &&& forall|k: int| 0 <= k < d.in_progress.len() ==> #[trigger] d.in_progress@[k] < ts.len()
    &&& forall|k: int| 0 <= k < d.ready.len() ==> #[trigger] d.ready@[k] < ts.len()
    &&& forall|k: int| 0 <= k < d.blocked.len() ==> #[trigger] d.blocked@[k] < ts.len()
    &&& forall|k: int| 0 <= k < d.recently_completed.len() ==> #[trigger] d.recently_completed@[k] < ts.len()
}

/// The dashboard's text, the age of the `k`-th recent task taken at
/// `nows[k]`. Where two tasks share an id the tree sections are only
/// described by the code.
pub fn render_at(tasks: &Vec<Task>, dashboard: &Dashboard, nows: &Vec<i128>) -> (r: String)
    requires
        renderable(tasks.deep_view(), *dashboard),
        nows.len() == dashboard.recently_completed.len(),
        forall|k: int| 0 <= k < nows.len() ==> crate::clock::nanos_in_range(#[trigger] nows@[k] as int),
    ensures
        crate::validate::unique_ids(tasks.deep_view()) ==> r@ == dashboard_text(
            tasks.deep_view(),
            *dashboard,
            nows@.map_values(|n: i128| n as int),
        ),
{
    let ghost ts = tasks.deep_view();
    let ghost nv = nows@.map_values(|n: i128| n as int);
    if tasks.len() == 0 {
        return crate::text::owned("No tasks yet. Create one with: dex create \"Task name\" --description \"Details\"\n");
    }
    let stats = &dashboard.stats;
    let p = ((stats.completed as u128) * 100 + (stats.total as u128) / 2) / (stats.total as u128);
    assert(p as nat == percent(*stats));
    let mut first = crate::text::u128_text(p);
    push_str(&mut first, "%");
    let mut out = pad(&first, 5);
    let a = pad(&usize_text(stats.in_progress), 9);
    push_str(&mut out, a.as_str());
    let b = pad(&usize_text(stats.ready), 9);
    push_str(&mut out, b.as_str());
    let c = pad(&usize_text(stats.blocked), 9);
    push_str(&mut out, c.as_str());
    push_str(&mut out, "   \ncomplete   active   ready   blocked\n");
    assert(out@ =~= header(*stats));
    let mut title = crate::text::owned("In Progress (");
    push_str(&mut title, usize_text(dashboard.in_progress.len()).as_str());
    push_str(&mut title, ")");
    let body = render_tree(tasks, &dashboard.in_progress);
    push_section(&mut out, &title, &body);
    let mut title = crate::text::owned("Ready to Work (");
    push_str(&mut title, usize_text(dashboard.ready.len()).as_str());
    push_str(&mut title, ")");
    let body = render_tree(tasks, &dashboard.ready);
    push_section(&mut out, &title, &body);
    let mut title = crate::text::owned("Blocked (");
    push_str(&mut title, usize_text(dashboard.blocked.len()).as_str());
    push_str(&mut title, ")");
    let body = render_tree(tasks, &dashboard.blocked);
    push_section(&mut out, &title, &body);
    let rec = &dashboard.recently_completed;
    let mut recent = String::new();
    let mut k: usize = 0;
    while k < rec.len()
        invariant
            k <= rec.len(),
            ts == tasks.deep_view(),
            nows.len() == rec.len(),
            nv == nows@.map_values(|n: i128| n as int),
            forall|q: int| 0 <= q < nows.len() ==> crate::clock::nanos_in_range(#[trigger] nows@[q] as int),
            forall|q: int| 0 <= q < rec.len() ==> #[trigger] rec@[q] < ts.len(),
            recent@ == recent_text(ts, rec@.take(k as int), nv),
        decreases rec.len() - k,
    {
        assert(rec@.take(k + 1).drop_last() =~= rec@.take(k as int));
        let t = &tasks[rec[k]];
        assert(t@ == ts[rec@[k as int] as int]);
        let line = task_line(tasks, t);
        push_str(&mut recent, line.as_str());
        push_str(&mut recent, " (");
        let when = age(&t.completed_at, nows[k]);
        push_str(&mut recent, when.as_str());
        push_str(&mut recent, ")\n");
        k = k + 1;
    }
    assert(rec@.take(rec.len() as int) =~= rec@);
    let title = crate::text::owned("Recently Completed");
    push_section(&mut out, &title, &recent);
    out
}

/// The dashboard's text, each recent task's age taken from the clock.
pub fn render(tasks: &Vec<Task>, dashboard: &Dashboard) -> (r: String)
    requires
        renderable(tasks.deep_view(), *dashboard),
    ensures
        crate::validate::unique_ids(tasks.deep_view()) ==> exists|nows: Seq<int>|
            nows.len() == dashboard.recently_completed.len() && r@ == #[trigger] dashboard_text(tasks.deep_view(), *dashboard, nows),
{
    let mut nows: Vec<i128> = Vec::new();
    let mut k: usize = 0;
    while k < dashboard.recently_completed.len()
        invariant
            k <= dashboard.recently_completed.len(),
            nows.len() == k,
            forall|q: int| 0 <= q < nows.len() ==> crate::clock::nanos_in_range(#[trigger] nows@[q] as int),
        decreases dashboard.recently_completed.len() - k,
    {
        nows.push(now_nanos());
        k = k + 1;
    }
    render_at(tasks, dashboard, &nows)
}

} // verus!
