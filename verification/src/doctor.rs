//! `dex doctor`: what it finds wrong with the store and the configuration,
//! how it reports it, and the repairs it can make to the task list.
use vstd::prelude::*;

use crate::task::{has_task, id_taken, index_of, lemma_index_of, opt_view, task_of, find_index, Task, TaskV};
use crate::text::{cat2, cat3, owned, push_str, str_eq, usize_text};

verus! {

/// A repair `doctor --fix` can make.
pub enum Fix {
    /// Drop the parent of `task`.
    ClearParent { task: String },
    /// List `child` among the children of `parent`.
    AddChild { parent: String, child: String },
    /// Drop `blocker` from the blockers of `task`.
    DropBlocker { task: String, blocker: String },
    /// Add `blocker` to the blockers of `task`.
    AddBlockedBy { task: String, blocker: String },
    /// Make `parent` the parent of `task`.
    SetParent { task: String, parent: String },
    /// Add the automatic sync settings to the configuration file at `path`.
    Config { path: String },
    /// Move the tasks of the store at `from` into the store at `to`.
    Migrate { from: String, to: String },
}

/// The value of a `Fix`.
pub enum FixV {
    ClearParent { task: Seq<char> },
    AddChild { parent: Seq<char>, child: Seq<char> },
    DropBlocker { task: Seq<char>, blocker: Seq<char> },
    AddBlockedBy { task: Seq<char>, blocker: Seq<char> },
    SetParent { task: Seq<char>, parent: Seq<char> },
    Config { path: Seq<char> },
    Migrate { from: Seq<char>, to: Seq<char> },
}

impl View for Fix {
    type V = FixV;

    open spec fn view(&self) -> FixV {
        match self {
            Fix::ClearParent { task } => FixV::ClearParent { task: task@ },
            Fix::AddChild { parent, child } => FixV::AddChild { parent: parent@, child: child@ },
            Fix::DropBlocker { task, blocker } => FixV::DropBlocker { task: task@, blocker: blocker@ },
            Fix::AddBlockedBy { task, blocker } => FixV::AddBlockedBy { task: task@, blocker: blocker@ },
            Fix::SetParent { task, parent } => FixV::SetParent { task: task@, parent: parent@ },
            Fix::Config { path } => FixV::Config { path: path@ },
            Fix::Migrate { from, to } => FixV::Migrate { from: from@, to: to@ },
        }
    }
}

/// Something `doctor` found: an error or a warning, its message, and the
/// repair for it, if any.
pub struct Finding {
    pub error: bool,
    pub message: String,
    pub fix: Option<Fix>,
}

/// The value of a `Finding`.
pub struct FindingV {
    pub error: bool,
    pub message: Seq<char>,
    pub fix: Option<FixV>,
}

impl View for Finding {
    type V = FindingV;

    open spec fn view(&self) -> FindingV {
        FindingV {
            error: self.error,
            message: self.message@,
            fix: match self.fix {
                Some(f) => Some(f@),
                None => None,
            },
        }
    }
}

/// The values of findings.
pub open spec fn findings_view(v: Seq<Finding>) -> Seq<FindingV> {
    v.map_values(|f: Finding| f@)
}

/// A warning.
pub open spec fn warn(message: Seq<char>, fix: Option<FixV>) -> FindingV {
    FindingV { error: false, message, fix }
}

/// An error (errors have no repair).
pub open spec fn err(message: Seq<char>) -> FindingV {
    FindingV { error: true, message, fix: None }
}

/// The walk up the parents from `cur`, having met `visited`: the depth
/// (1 for a task without a listed parent), or `None` when a task is met
/// twice, a task is missing, or the walk is still going after `fuel` more
/// steps (a walk longer than the list has met some task twice).
pub open spec fn walk(ts: Seq<TaskV>, cur: Seq<char>, visited: Seq<Seq<char>>, fuel: nat) -> Option<nat>
    decreases fuel,
{
    if visited.contains(cur) || !has_task(ts, cur) {
        None
    } else {
        match task_of(ts, cur).parent_id {
            Some(p) => if has_task(ts, p) {
                if fuel == 0 {
                    None
                } else {
                    match walk(ts, p, visited.push(cur), (fuel - 1) as nat) {
                        Some(d) => Some(d + 1),
                        None => None,
                    }
                }
            } else {
                Some(1)
            },
            None => Some(1),
        }
    }
}

/// The depth of a task (1 for a root), `None` on a loop of parents.
pub open spec fn depth_spec(ts: Seq<TaskV>, id: Seq<char>) -> Option<nat> {
    walk(ts, id, Seq::empty(), ts.len() as nat)
}

/// Whether some task with id `p` lists `c` among its children.
pub open spec fn lists_child(ts: Seq<TaskV>, p: Seq<char>, c: Seq<char>) -> bool {
    exists|i: int| 0 <= i < ts.len() && ts[i].id == p && #[trigger] ts[i].children.contains(c)
}

/// What is wrong with a task's parent link.
pub open spec fn parent_findings(ts: Seq<TaskV>, t: TaskV) -> Seq<FindingV> {
    match t.parent_id {
        None => Seq::empty(),
        Some(p) => if !has_task(ts, p) {
            seq![
                warn(
                    "Task "@ + t.id + ": parent_id '"@ + p + "' does not exist (orphaned)"@,
                    Some(FixV::ClearParent { task: t.id }),
                ),
            ]
        } else if !lists_child(ts, p, t.id) {
            seq![
                warn(
                    "Task "@ + t.id + ": parent_id '"@ + p + "' but parent does not list it as a child"@,
                    Some(FixV::AddChild { parent: p, child: t.id }),
                ),
            ]
        } else {
            Seq::empty()
        },
    }
}

/// What is wrong with a task's depth: a loop of parents, or more than
/// three levels.
pub open spec fn depth_findings(ts: Seq<TaskV>, t: TaskV) -> Seq<FindingV> {
    match depth_spec(ts, t.id) {
        None => seq![err("Task "@ + t.id + ": circular parent reference detected"@)],
        Some(d) => if d > 3 {
            seq![err("Task "@ + t.id + ": exceeds max depth (depth="@ + crate::text::dec(d) + ", max=3)"@)]
        } else {
            Seq::empty()
        },
    }
}

/// The blockers of a task that do not exist, each a warning.
pub open spec fn blocker_findings(ts: Seq<TaskV>, id: Seq<char>, bs: Seq<Seq<char>>) -> Seq<FindingV>
    decreases bs.len(),
{
    if bs.len() == 0 {
        Seq::empty()
    } else {
        let rest = blocker_findings(ts, id, bs.drop_last());
        let b = bs.last();
        if has_task(ts, b) {
            rest
        } else {
            rest.push(
                warn(
                    "Task "@ + id + ": blockedBy '"@ + b + "' does not exist (dangling reference)"@,
                    Some(FixV::DropBlocker { task: id, blocker: b }),
                ),
            )
        }
    }
}

/// The tasks a task blocks that do not exist or do not list it back.
pub open spec fn blocks_findings(ts: Seq<TaskV>, id: Seq<char>, bs: Seq<Seq<char>>) -> Seq<FindingV>
    decreases bs.len(),
{
    if bs.len() == 0 {
        Seq::empty()
    } else {
        let rest = blocks_findings(ts, id, bs.drop_last());
        let x = bs.last();
        if !has_task(ts, x) {
            rest.push(warn("Task "@ + id + ": blocks '"@ + x + "' does not exist (dangling reference)"@, None))
        } else if !task_of(ts, x).blocked_by.contains(id) {
            rest.push(
                warn(
                    "Task "@ + id + ": blocks '"@ + x + "' but "@ + x + ".blockedBy is missing '"@ + id + "'"@,
                    Some(FixV::AddBlockedBy { task: x, blocker: id }),
                ),
            )
        } else {
            rest
        }
    }
}

/// The children a task lists that do not exist or name another parent.
pub open spec fn children_findings(ts: Seq<TaskV>, id: Seq<char>, cs: Seq<Seq<char>>) -> Seq<FindingV>
    decreases cs.len(),
{
    if cs.len() == 0 {
        Seq::empty()
    } else {
        let rest = children_findings(ts, id, cs.drop_last());
        let c = cs.last();
        if !has_task(ts, c) {
            rest.push(err("Task "@ + id + ": child '"@ + c + "' does not exist (data corruption)"@))
        } else if task_of(ts, c).parent_id != Some(id) {
            rest.push(
                warn(
                    "Task "@ + id + ": lists child '"@ + c + "' but child's parent_id is '"@ + match task_of(
                        ts,
                        c,
                    ).parent_id {
                        Some(p) => p,
                        None => "null"@,
                    } + "'"@,
                    Some(FixV::SetParent { task: c, parent: id }),
                ),
            )
        } else {
            rest
        }
    }
}

/// Everything wrong with one task, in the order it is checked.
pub open spec fn task_findings(ts: Seq<TaskV>, t: TaskV) -> Seq<FindingV> {
    parent_findings(ts, t) + depth_findings(ts, t) + blocker_findings(ts, t.id, t.blocked_by) + blocks_findings(
        ts,
        t.id,
        t.blocks,
    ) + children_findings(ts, t.id, t.children)
}

/// Everything wrong with the first `n` tasks, task by task.
pub open spec fn storage_findings(ts: Seq<TaskV>, n: int) -> Seq<FindingV>
    decreases n,
{
    if n <= 0 || n > ts.len() {
        Seq::empty()
    } else {
        storage_findings(ts, n - 1) + task_findings(ts, ts[n - 1])
    }
}

fn contains_text(v: &Vec<String>, s: &str) -> (r: bool)
    ensures
        r == v.deep_view().contains(s@),
{
    crate::text::list_contains(v, s)
}

fn depth(tasks: &Vec<Task>, id: &str) -> (r: Option<u128>)
    ensures
        match r {
            Some(d) => depth_spec(tasks.deep_view(), id@) == Some(d as nat),
            None => depth_spec(tasks.deep_view(), id@) is None,
        },
{
    let ghost ts = tasks.deep_view();
    let mut visited: Vec<String> = Vec::new();
    let mut cur = owned(id);
    let mut d: u128 = 1;
    let mut fuel = tasks.len();
    assert(visited.deep_view() =~= Seq::<Seq<char>>::empty());
    loop
        invariant
            ts == tasks.deep_view(),
            1 <= d <= tasks.len() + 1 - fuel,
            fuel <= tasks.len(),
            depth_spec(ts, id@) == match walk(ts, cur@, visited.deep_view(), fuel as nat) {
                Some(x) => Some((x + (d - 1)) as nat),
                None => None,
            },
        decreases fuel,
    {
        if contains_text(&visited, cur.as_str()) {
            return None;
        }
        let k = match find_index(tasks.as_slice(), cur.as_str()) {
            Some(k) => k,
            None => {
                proof {
                    lemma_index_of(ts, cur@);
                }
                return None;
            },
        };
        proof {
            lemma_index_of(ts, cur@);
        }
        assert(tasks@[k as int]@ == task_of(ts, cur@));
        let parent = match &tasks[k].parent_id {
            Some(p) => p.clone(),
            None => return Some(d),
        };
        if !id_taken(tasks.as_slice(), parent.as_str()) {
            return Some(d);
        }
        if fuel == 0 {
            return None;
        }
        let ghost before = visited.deep_view();
        let ghost old_cur = cur@;
        visited.push(cur);
        assert(visited.deep_view() =~= before.push(old_cur));
        cur = parent;
        d = d + 1;
        fuel = fuel - 1;
    }
}

fn lists_child_exec(tasks: &Vec<Task>, p: &str, c: &str) -> (r: bool)
    ensures
        r == lists_child(tasks.deep_view(), p@, c@),
{
    let ghost ts = tasks.deep_view();
    let mut i: usize = 0;
    while i < tasks.len()
        invariant
            i <= tasks.len(),
            ts == tasks.deep_view(),
            forall|j: int| 0 <= j < i ==> !(ts[j].id == p@ && #[trigger] ts[j].children.contains(c@)),
        decreases tasks.len() - i,
    {
        assert(tasks@[i as int]@ == ts[i as int]);
        if str_eq(tasks[i].id.as_str(), p) && contains_text(&tasks[i].children, c) {
            assert(ts[i as int].id == p@ && ts[i as int].children.contains(c@));
            return true;
        }
        i = i + 1;
    }
    false
}

fn push_finding(out: &mut Vec<Finding>, f: Finding)
    ensures
        findings_view(final(out)@) == findings_view(old(out)@).push(f@),
{
    let ghost before = findings_view(out@);
    let ghost fv = f@;
    out.push(f);
    assert(findings_view(out@) =~= before.push(fv));
}

fn parent_part(tasks: &Vec<Task>, t: &Task, out: &mut Vec<Finding>)
    ensures
        findings_view(final(out)@) == findings_view(old(out)@) + parent_findings(tasks.deep_view(), t@),
{
    let ghost ts = tasks.deep_view();
    let p = match &t.parent_id {
        Some(p) => p,
        None => {
            assert(findings_view(out@) =~= findings_view(out@) + Seq::<FindingV>::empty());
            return;
        },
    };
    if !id_taken(tasks.as_slice(), p.as_str()) {
        let mut m = cat3("Task ", t.id.as_str(), ": parent_id '");
        push_str(&mut m, p.as_str());
        push_str(&mut m, "' does not exist (orphaned)");
        let ghost mv = m@;
        push_finding(out, Finding { error: false, message: m, fix: Some(Fix::ClearParent { task: t.id.clone() }) });
        assert(findings_view(out@) =~= findings_view(old(out)@) + parent_findings(ts, t@));
    } else if !lists_child_exec(tasks, p.as_str(), t.id.as_str()) {
        let mut m = cat3("Task ", t.id.as_str(), ": parent_id '");
        push_str(&mut m, p.as_str());
        push_str(&mut m, "' but parent does not list it as a child");
        push_finding(
            out,
            Finding { error: false, message: m, fix: Some(Fix::AddChild { parent: p.clone(), child: t.id.clone() }) },
        );
        assert(findings_view(out@) =~= findings_view(old(out)@) + parent_findings(ts, t@));
    } else {
        assert(findings_view(out@) =~= findings_view(out@) + Seq::<FindingV>::empty());
    }
}

fn depth_part(tasks: &Vec<Task>, t: &Task, out: &mut Vec<Finding>)
    ensures
        findings_view(final(out)@) == findings_view(old(out)@) + depth_findings(tasks.deep_view(), t@),
{
    match depth(tasks, t.id.as_str()) {
        None => {
            let m = cat3("Task ", t.id.as_str(), ": circular parent reference detected");
            push_finding(out, Finding { error: true, message: m, fix: None });
            assert(findings_view(out@) =~= findings_view(old(out)@) + depth_findings(tasks.deep_view(), t@));
        },
        Some(d) => {
            if d > 3 {
                let mut m = cat3("Task ", t.id.as_str(), ": exceeds max depth (depth=");
                push_str(&mut m, crate::text::u128_text(d).as_str());
                push_str(&mut m, ", max=3)");
                push_finding(out, Finding { error: true, message: m, fix: None });
                assert(findings_view(out@) =~= findings_view(old(out)@) + depth_findings(tasks.deep_view(), t@));
            } else {
                assert(findings_view(out@) =~= findings_view(out@) + Seq::<FindingV>::empty());
            }
        },
    }
}

fn blocker_part(tasks: &Vec<Task>, t: &Task, out: &mut Vec<Finding>)
    ensures
        findings_view(final(out)@) == findings_view(old(out)@) + blocker_findings(
            tasks.deep_view(),
            t@.id,
            t@.blocked_by,
        ),
{
    let ghost ts = tasks.deep_view();
    let ghost bv = t.blocked_by.deep_view();
    let ghost start = findings_view(out@);
    let mut i: usize = 0;
    while i < t.blocked_by.len()
        invariant
            i <= t.blocked_by.len(),
            ts == tasks.deep_view(),
            bv == t.blocked_by.deep_view(),
            findings_view(out@) == start + blocker_findings(ts, t@.id, bv.take(i as int)),
        decreases t.blocked_by.len() - i,
    {
        assert(bv.take(i + 1).drop_last() =~= bv.take(i as int));
        assert(bv.take(i + 1).last() == bv[i as int]);
        let b = &t.blocked_by[i];
        if !id_taken(tasks.as_slice(), b.as_str()) {
            let mut m = cat3("Task ", t.id.as_str(), ": blockedBy '");
            push_str(&mut m, b.as_str());
            push_str(&mut m, "' does not exist (dangling reference)");
            let ghost before = findings_view(out@);
            push_finding(
                out,
                Finding { error: false, message: m, fix: Some(Fix::DropBlocker { task: t.id.clone(), blocker: b.clone() }) },
            );
        }
        i = i + 1;
    }
    assert(bv.take(t.blocked_by.len() as int) =~= bv);
}

fn blocks_part(tasks: &Vec<Task>, t: &Task, out: &mut Vec<Finding>)
    ensures
        findings_view(final(out)@) == findings_view(old(out)@) + blocks_findings(tasks.deep_view(), t@.id, t@.blocks),
{
    let ghost ts = tasks.deep_view();
    let ghost bv = t.blocks.deep_view();
    let ghost start = findings_view(out@);
    let mut i: usize = 0;
    while i < t.blocks.len()
        invariant
            i <= t.blocks.len(),
            ts == tasks.deep_view(),
            bv == t.blocks.deep_view(),
            findings_view(out@) == start + blocks_findings(ts, t@.id, bv.take(i as int)),
        decreases t.blocks.len() - i,
    {
        assert(bv.take(i + 1).drop_last() =~= bv.take(i as int));
        assert(bv.take(i + 1).last() == bv[i as int]);
        let x = &t.blocks[i];
        let found = find_index(tasks.as_slice(), x.as_str());
        proof {
            lemma_index_of(ts, x@);
        }
        match found {
            None => {
                let mut m = cat3("Task ", t.id.as_str(), ": blocks '");
                push_str(&mut m, x.as_str());
                push_str(&mut m, "' does not exist (dangling reference)");
                push_finding(out, Finding { error: false, message: m, fix: None });
            },
            Some(k) => {
                assert(tasks@[k as int]@ == task_of(ts, x@));
                if !contains_text(&tasks[k].blocked_by, t.id.as_str()) {
                    let mut m = cat3("Task ", t.id.as_str(), ": blocks '");
                    push_str(&mut m, x.as_str());
                    push_str(&mut m, "' but ");
                    push_str(&mut m, x.as_str());
                    push_str(&mut m, ".blockedBy is missing '");
                    push_str(&mut m, t.id.as_str());
                    push_str(&mut m, "'");
                    push_finding(
                        out,
                        Finding {
                            error: false,
                            message: m,
                            fix: Some(Fix::AddBlockedBy { task: x.clone(), blocker: t.id.clone() }),
                        },
                    );
                }
            },
        }
        i = i + 1;
    }
    assert(bv.take(t.blocks.len() as int) =~= bv);
}

fn children_part(tasks: &Vec<Task>, t: &Task, out: &mut Vec<Finding>)
    ensures
        findings_view(final(out)@) == findings_view(old(out)@) + children_findings(
            tasks.deep_view(),
            t@.id,
            t@.children,
        ),
{
    let ghost ts = tasks.deep_view();
    let ghost cv = t.children.deep_view();
    let ghost start = findings_view(out@);
    let mut i: usize = 0;
    while i < t.children.len()
        invariant
            i <= t.children.len(),
            ts == tasks.deep_view(),
            cv == t.children.deep_view(),
            findings_view(out@) == start + children_findings(ts, t@.id, cv.take(i as int)),
        decreases t.children.len() - i,
    {
        assert(cv.take(i + 1).drop_last() =~= cv.take(i as int));
        assert(cv.take(i + 1).last() == cv[i as int]);
        let c = &t.children[i];
        let found = find_index(tasks.as_slice(), c.as_str());
        proof {
            lemma_index_of(ts, c@);
        }
        match found {
            None => {
                let mut m = cat3("Task ", t.id.as_str(), ": child '");
                push_str(&mut m, c.as_str());
                push_str(&mut m, "' does not exist (data corruption)");
                push_finding(out, Finding { error: true, message: m, fix: None });
            },
            Some(k) => {
                assert(tasks@[k as int]@ == task_of(ts, c@));
                let same = match &tasks[k].parent_id {
                    Some(p) => str_eq(p.as_str(), t.id.as_str()),
                    None => false,
                };
                if !same {
                    let mut m = cat3("Task ", t.id.as_str(), ": lists child '");
                    push_str(&mut m, c.as_str());
                    push_str(&mut m, "' but child's parent_id is '");
                    match &tasks[k].parent_id {
                        Some(p) => push_str(&mut m, p.as_str()),
                        None => push_str(&mut m, "null"),
                    }
                    push_str(&mut m, "'");
                    push_finding(
                        out,
                        Finding {
                            error: false,
                            message: m,
                            fix: Some(Fix::SetParent { task: c.clone(), parent: t.id.clone() }),
                        },
                    );
                }
            },
        }
        i = i + 1;
    }
    assert(cv.take(t.children.len() as int) =~= cv);
}

/// Checks every task of the store: its parent link, its depth, its
/// blockers, the tasks it blocks and its children.
pub fn check_storage(tasks: &Vec<Task>) -> (r: Vec<Finding>)
    ensures
        findings_view(r@) == storage_findings(tasks.deep_view(), tasks.len() as int),
{
    let ghost ts = tasks.deep_view();
    let mut out: Vec<Finding> = Vec::new();
    let mut i: usize = 0;
    assert(findings_view(out@) =~= Seq::<FindingV>::empty());
    while i < tasks.len()
        invariant
            i <= tasks.len(),
            ts == tasks.deep_view(),
            findings_view(out@) == storage_findings(ts, i as int),
        decreases tasks.len() - i,
    {
        let t = &tasks[i];
        assert(t@ == ts[i as int]);
        let ghost s0 = findings_view(out@);
        parent_part(tasks, t, &mut out);
        depth_part(tasks, t, &mut out);
        blocker_part(tasks, t, &mut out);
        blocks_part(tasks, t, &mut out);
        children_part(tasks, t, &mut out);
        assert(findings_view(out@) =~= s0 + task_findings(ts, t@));
        i = i + 1;
    }
    out
}

/// A task with one repair made to it, when the repair is about it.
pub open spec fn repaired(t: TaskV, f: FixV) -> TaskV {
    match f {
        FixV::ClearParent { .. } => TaskV { parent_id: None, ..t },
        FixV::AddChild { child, .. } => TaskV { children: t.children.push(child), ..t },
        FixV::DropBlocker { blocker, .. } => TaskV { blocked_by: crate::relations::without(t.blocked_by, blocker), ..t },
        FixV::AddBlockedBy { blocker, .. } => TaskV { blocked_by: t.blocked_by.push(blocker), ..t },
        FixV::SetParent { parent, .. } => TaskV { parent_id: Some(parent), ..t },
        _ => t,
    }
}

/// The task a repair changes: the first with this id.
pub open spec fn fix_target(f: FixV) -> Option<Seq<char>> {
    match f {
        FixV::ClearParent { task } => Some(task),
        FixV::AddChild { parent, .. } => Some(parent),
        FixV::DropBlocker { task, .. } => Some(task),
        FixV::AddBlockedBy { task, .. } => Some(task),
        FixV::SetParent { task, .. } => Some(task),
        _ => None,
    }
}

/// The task list after a repair: the first task with the target id
/// repaired; unchanged when there is no such task or the repair is not to
/// the task list.
pub open spec fn fixed_spec(ts: Seq<TaskV>, f: FixV) -> Seq<TaskV> {
    match fix_target(f) {
        Some(id) => if has_task(ts, id) {
            ts.update(index_of(ts, id), repaired(ts[index_of(ts, id)], f))
        } else {
            ts
        },
        None => ts,
    }
}

/// Makes a repair to the task list.
pub fn apply_fix(tasks: &mut Vec<Task>, fix: &Fix)
    ensures
        final(tasks).deep_view() == fixed_spec(old(tasks).deep_view(), fix@),
{
    let ghost ts = tasks.deep_view();
    let target: &String = match fix {
        Fix::ClearParent { task } => task,
        Fix::AddChild { parent, .. } => parent,
        Fix::DropBlocker { task, .. } => task,
        Fix::AddBlockedBy { task, .. } => task,
        Fix::SetParent { task, .. } => task,
        _ => return,
    };
    let k = match find_index(tasks.as_slice(), target.as_str()) {
        Some(k) => k,
        None => {
            proof {
                lemma_index_of(ts, target@);
            }
            return;
        },
    };
    proof {
        lemma_index_of(ts, target@);
    }
    let mut t = tasks[k].duplicate();
    assert(t@ == ts[k as int]);
    match fix {
        Fix::ClearParent { .. } => {
            t.parent_id = None;
        },
        Fix::AddChild { child, .. } => {
            t.children.push(child.clone());
            assert(t.children.deep_view() =~= ts[k as int].children.push(child@));
        },
        Fix::DropBlocker { blocker, .. } => {
            t.blocked_by = crate::relations::remove_all(&t.blocked_by, blocker.as_str());
        },
        Fix::AddBlockedBy { blocker, .. } => {
            t.blocked_by.push(blocker.clone());
            assert(t.blocked_by.deep_view() =~= ts[k as int].blocked_by.push(blocker@));
        },
        Fix::SetParent { parent, .. } => {
            t.parent_id = Some(parent.clone());
        },
        _ => {},
    }
    assert(t@ == repaired(ts[k as int], fix@));
    tasks.set(k, t);
    assert(tasks.deep_view() =~= ts.update(k as int, repaired(ts[k as int], fix@)));
}

/// The lines reporting one check: `✓` and the all-clear text when nothing
/// was found, else one line per finding, `✗` for an error and `⚠` for a
/// warning.
pub open spec fn report_spec(fs: Seq<FindingV>, ok: Seq<char>) -> Seq<char>
    decreases fs.len(),
{
    if fs.len() == 0 {
        "  \u{2713} "@ + ok + "\n"@
    } else {
        report_lines(fs)
    }
}

/// One line per finding.
pub open spec fn report_lines(fs: Seq<FindingV>) -> Seq<char>
    decreases fs.len(),
{
    if fs.len() == 0 {
        Seq::empty()
    } else {
        report_lines(fs.drop_last()) + "  "@ + (if fs.last().error {
            "\u{2717}"@
        } else {
            "\u{26a0}"@
        }) + " "@ + fs.last().message + "\n"@
    }
}

/// Writes the report of one check.
pub fn report(findings: &Vec<Finding>, ok: &str) -> (r: String)
    ensures
        r@ == report_spec(findings_view(findings@), ok@),
{
    let ghost fv = findings_view(findings@);
    if findings.len() == 0 {
        let mut r = owned("  \u{2713} ");
        push_str(&mut r, ok);
        push_str(&mut r, "\n");
        return r;
    }
    let mut r = String::new();
    assert(r@ =~= report_lines(fv.take(0)));
    let mut i: usize = 0;
    while i < findings.len()
        invariant
            i <= findings.len(),
            fv == findings_view(findings@),
            r@ == report_lines(fv.take(i as int)),
        decreases findings.len() - i,
    {
        assert(fv.take(i + 1).drop_last() =~= fv.take(i as int));
        assert(fv.take(i + 1).last() == findings@[i as int]@);
        push_str(&mut r, "  ");
        push_str(&mut r, if findings[i].error { "\u{2717}" } else { "\u{26a0}" });
        push_str(&mut r, " ");
        push_str(&mut r, findings[i].message.as_str());
        push_str(&mut r, "\n");
        i = i + 1;
    }
    assert(fv.take(findings.len() as int) =~= fv);
    r
}

/// How many of the findings are errors.
pub open spec fn error_count(fs: Seq<FindingV>) -> nat
    decreases fs.len(),
{
    if fs.len() == 0 {
        0
    } else {
        error_count(fs.drop_last()) + if fs.last().error {
            1nat
        } else {
            0nat
        }
    }
}

/// How many of the findings have a repair.
pub open spec fn fixable_count(fs: Seq<FindingV>) -> nat
    decreases fs.len(),
{
    if fs.len() == 0 {
        0
    } else {
        fixable_count(fs.drop_last()) + if fs.last().fix is Some {
            1nat
        } else {
            0nat
        }
    }
}

/// The closing lines of a doctor run: `No issues found.`, or the counts of
/// errors and warnings, then, when some can be repaired and `--fix` was not
/// given, the hint to run it.
pub open spec fn summary_spec(fs: Seq<FindingV>, fix: bool) -> Seq<char> {
    if fs.len() == 0 {
        "No issues found.\n"@
    } else {
        let e = error_count(fs);
        let w = (fs.len() - e) as nat;
        let parts = if e > 0 && w > 0 {
            crate::text::dec(e) + " error(s), "@ + crate::text::dec(w) + " warning(s)"@
        } else if e > 0 {
            crate::text::dec(e) + " error(s)"@
        } else {
            crate::text::dec(w) + " warning(s)"@
        };
        "Found "@ + parts + ".\n"@ + if fixable_count(fs) > 0 && !fix {
            "\nRun dex doctor --fix to fix "@ + crate::text::dec(fixable_count(fs)) + " issue(s).\n"@
        } else {
            Seq::empty()
        }
    }
}

fn counts(findings: &Vec<Finding>) -> (r: (usize, usize))
    ensures
        r.0 == error_count(findings_view(findings@)),
        r.1 == fixable_count(findings_view(findings@)),
        r.0 <= findings.len(),
{
    let ghost fv = findings_view(findings@);
    let mut e: usize = 0;
    let mut f: usize = 0;
    let mut i: usize = 0;
    while i < findings.len()
        invariant
            i <= findings.len(),
            fv == findings_view(findings@),
            e <= i,
            f <= i,
            e == error_count(fv.take(i as int)),
            f == fixable_count(fv.take(i as int)),
        decreases findings.len() - i,
    {
        assert(fv.take(i + 1).drop_last() =~= fv.take(i as int));
        assert(fv.take(i + 1).last() == findings@[i as int]@);
        if findings[i].error {
            e = e + 1;
        }
        if findings[i].fix.is_some() {
            f = f + 1;
        }
        i = i + 1;
    }
    assert(fv.take(findings.len() as int) =~= fv);
    (e, f)
}

/// Writes the closing lines of a doctor run.
pub fn summary(findings: &Vec<Finding>, fix: bool) -> (r: String)
    ensures
        r@ == summary_spec(findings_view(findings@), fix),
{
    if findings.len() == 0 {
        return owned("No issues found.\n");
    }
    let (e, f) = counts(findings);
    let w = findings.len() - e;
    let mut r = owned("Found ");
    if e > 0 && w > 0 {
        push_str(&mut r, usize_text(e).as_str());
        push_str(&mut r, " error(s), ");
        push_str(&mut r, usize_text(w).as_str());
        push_str(&mut r, " warning(s)");
    } else if e > 0 {
        push_str(&mut r, usize_text(e).as_str());
        push_str(&mut r, " error(s)");
    } else {
        push_str(&mut r, usize_text(w).as_str());
        push_str(&mut r, " warning(s)");
    }
    push_str(&mut r, ".\n");
    if f > 0 && !fix {
        push_str(&mut r, "\nRun dex doctor --fix to fix ");
        push_str(&mut r, usize_text(f).as_str());
        push_str(&mut r, " issue(s).\n");
    }
    r
}

/// A configuration file as `doctor` sees it: where it is, whether it
/// exists, and its contents when it reads as TOML.
pub struct ConfigFile {
    pub path: String,
    pub exists: bool,
    pub document: Option<crate::json::Json>,
}

/// The invalid-file error for a configuration file, if any.
pub open spec fn invalid_findings(f: Option<ConfigFile>, label: Seq<char>) -> Seq<FindingV> {
    match f {
        Some(c) => if c.exists && c.document is None {
            seq![err(label + " config invalid TOML: "@ + c.path@)]
        } else {
            Seq::empty()
        },
        None => Seq::empty(),
    }
}

/// The missing-auto-sync warning for a configuration file, if any: it
/// reads, enables GitHub sync, and has no `sync.github.auto` table.
pub open spec fn auto_findings(f: Option<ConfigFile>, label: Seq<char>) -> Seq<FindingV> {
    match f {
        Some(c) => match c.document {
            Some(d) => if crate::config::lookup_spec(d@, "sync.github.enabled"@) == Some(crate::json::JsonV::Bool(true))
                && crate::config::lookup_spec(d@, "sync.github.auto"@) is None {
                seq![
                    warn(
                        "Missing [sync.github.auto] in "@ + label + " config ("@ + c.path@ + ")"@,
                        Some(FixV::Config { path: c.path@ }),
                    ),
                ]
            } else {
                Seq::empty()
            },
            None => Seq::empty(),
        },
        None => Seq::empty(),
    }
}

/// What is wrong with the configuration: files that do not read, an
/// engine other than `file`, and, when GitHub sync is on, a missing token
/// and files that enable it without automatic sync settings.
pub open spec fn config_findings(
    global: Option<ConfigFile>,
    project: Option<ConfigFile>,
    engine: Seq<char>,
    github_enabled: bool,
    token_env: Option<Seq<char>>,
    has_token: bool,
) -> Seq<FindingV> {
    invalid_findings(global, "Global"@) + invalid_findings(project, "Project"@) + (if engine != "file"@ {
        seq![
            err(
                "Unsupported storage engine '"@ + engine
                    + "'. Only 'file' is supported. Use sync.github for GitHub integration."@,
            ),
        ]
    } else {
        Seq::empty()
    }) + if github_enabled {
        (if !has_token {
            seq![
                warn(
                    "GitHub sync enabled but no token found (checked "@ + match token_env {
                        Some(e) => e,
                        None => "GITHUB_TOKEN"@,
                    } + " env var and gh CLI)"@,
                    None,
                ),
            ]
        } else {
            Seq::empty()
        }) + auto_findings(global, "global"@) + auto_findings(project, "project"@)
    } else {
        Seq::empty()
    }
}

fn invalid_part(f: &Option<ConfigFile>, label: &str, out: &mut Vec<Finding>)
    ensures
        findings_view(final(out)@) == findings_view(old(out)@) + invalid_findings(*f, label@),
{
    if let Some(c) = f {
        if c.exists && c.document.is_none() {
            let m = cat3(label, " config invalid TOML: ", c.path.as_str());
            push_finding(out, Finding { error: true, message: m, fix: None });
            assert(findings_view(out@) =~= findings_view(old(out)@) + invalid_findings(*f, label@));
            return;
        }
    }
    assert(findings_view(out@) =~= findings_view(out@) + Seq::<FindingV>::empty());
}

fn auto_part(f: &Option<ConfigFile>, label: &str, out: &mut Vec<Finding>)
    ensures
        findings_view(final(out)@) == findings_view(old(out)@) + auto_findings(*f, label@),
{
    if let Some(c) = f {
        if let Some(d) = &c.document {
            let enabled = match crate::config::lookup(d, "sync.github.enabled") {
                Some(v) => v.as_bool() == Some(true),
                None => false,
            };
            let has_auto = crate::config::lookup(d, "sync.github.auto").is_some();
            if enabled && !has_auto {
                let mut m = cat3("Missing [sync.github.auto] in ", label, " config (");
                push_str(&mut m, c.path.as_str());
                push_str(&mut m, ")");
                push_finding(out, Finding { error: false, message: m, fix: Some(Fix::Config { path: c.path.clone() }) });
                assert(findings_view(out@) =~= findings_view(old(out)@) + auto_findings(*f, label@));
                return;
            }
        }
    }
    assert(findings_view(out@) =~= findings_view(out@) + Seq::<FindingV>::empty());
}

/// Checks the configuration.
pub fn check_config(
    global: &Option<ConfigFile>,
    project: &Option<ConfigFile>,
    engine: &str,
    github_enabled: bool,
    token_env: &Option<String>,
    has_token: bool,
) -> (r: Vec<Finding>)
    ensures
        findings_view(r@) == config_findings(*global, *project, engine@, github_enabled, opt_view(*token_env), has_token),
{
    let mut out: Vec<Finding> = Vec::new();
    assert(findings_view(out@) =~= Seq::<FindingV>::empty());
    invalid_part(global, "Global", &mut out);
    invalid_part(project, "Project", &mut out);
    let ghost s0 = findings_view(out@);
    if !str_eq(engine, "file") {
        let m = cat3("Unsupported storage engine '", engine, "'. Only 'file' is supported. Use sync.github for GitHub integration.");
        push_finding(&mut out, Finding { error: true, message: m, fix: None });
    }
    let ghost s1 = findings_view(out@);
    if github_enabled {
        if !has_token {
            let env = match token_env {
                Some(e) => e.as_str(),
                None => "GITHUB_TOKEN",
            };
            let m = cat3("GitHub sync enabled but no token found (checked ", env, " env var and gh CLI)");
            push_finding(&mut out, Finding { error: false, message: m, fix: None });
        }
        let ghost s2 = findings_view(out@);
        auto_part(global, "global", &mut out);
        auto_part(project, "project", &mut out);
        assert(findings_view(out@) =~= s1 + (s2.skip(s1.len() as int) + auto_findings(*global, "global"@) + auto_findings(*project, "project"@)));
    }
    assert(findings_view(out@) =~= config_findings(*global, *project, engine@, github_enabled, opt_view(*token_env), has_token));
    out
}

/// The warning about tasks left in the store of the other storage mode,
/// when that store is elsewhere and holds some.
pub open spec fn location_findings(current: Seq<char>, other: Option<(Seq<char>, Seq<char>)>, count: nat) -> Seq<FindingV> {
    match other {
        Some((path, label)) => if path != current && count > 0 {
            seq![
                warn(
                    "Found "@ + crate::text::dec(count) + " task(s) in previous "@ + label
                        + " location. These were not migrated when storage mode changed."@,
                    Some(FixV::Migrate { from: path, to: current }),
                ),
            ]
        } else {
            Seq::empty()
        },
        None => Seq::empty(),
    }
}

/// Checks for tasks left in the store of the other storage mode: `other`
/// is that store's directory and its description, `count` the tasks it
/// holds.
pub fn check_storage_location(current: &str, other: &Option<(String, String)>, count: usize) -> (r: Vec<Finding>)
    ensures
        findings_view(r@) == location_findings(
            current@,
            match other {
                Some((p, l)) => Some((p@, l@)),
                None => None,
            },
            count as nat,
        ),
{
    let mut out: Vec<Finding> = Vec::new();
    if let Some((path, label)) = other {
        if !str_eq(path.as_str(), current) && count > 0 {
            let mut m = cat3("Found ", usize_text(count).as_str(), " task(s) in previous ");
            push_str(&mut m, label.as_str());
            push_str(&mut m, " location. These were not migrated when storage mode changed.");
            push_finding(
                &mut out,
                Finding { error: false, message: m, fix: Some(Fix::Migrate { from: path.clone(), to: owned(current) }) },
            );
        }
    }
    assert(findings_view(out@) =~= location_findings(
        current@,
        match other {
            Some((p, l)) => Some((p@, l@)),
            None => None,
        },
        count as nat,
    ));
    out
}

/// The number of lines of a store file that are not blank.
pub open spec fn task_line_count(ls: Seq<Seq<char>>) -> nat
    decreases ls.len(),
{
    if ls.len() == 0 {
        0
    } else {
        task_line_count(ls.drop_last()) + if crate::text::trimmed(ls.last()).len() == 0 {
            0nat
        } else {
            1nat
        }
    }
}

/// Counts the tasks in the contents of a store file: its lines that are
/// not blank.
pub fn count_tasks(contents: &str) -> (r: usize)
    ensures
        r == task_line_count(crate::text::lines_of(contents@)),
{
    let ls = crate::text::lines(contents);
    let ghost lv = ls@.map_values(|l: String| l@);
    let mut n: usize = 0;
    let mut i: usize = 0;
    while i < ls.len()
        invariant
            i <= ls.len(),
            n <= i,
            lv == ls@.map_values(|l: String| l@),
            lv == crate::text::lines_of(contents@),
            n == task_line_count(lv.take(i as int)),
        decreases ls.len() - i,
    {
        assert(lv.take(i + 1).drop_last() =~= lv.take(i as int));
        assert(lv.take(i + 1).last() == ls@[i as int]@);
        let t = crate::text::trim(ls[i].as_str());
        if crate::text::chars_of(t.as_str()).len() > 0 {
            n = n + 1;
        }
        i = i + 1;
    }
    assert(lv.take(ls.len() as int) =~= lv);
    n
}

} // verus!
