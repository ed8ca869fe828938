//! The decisions behind the command-line commands: what a command does to
//! the task list and what it reports, given what was read.
use vstd::prelude::*;

use crate::error::DexError;
use crate::json::{json_get, compact_text, lemma_view_parts, members_insert, object_insert, single_member, Json, JsonV};
use crate::listing::{find, in_progress, is_in_progress};
use crate::relations::{add_blocker, blocker_added, blocker_removed, ids_in, remove_blocker, reparented, set_parent, set_parent_allowed, split_ids};
use crate::task::{has_task, lemma_index_of, opt_view, task_of, Task, TaskV};
use crate::text::{
    cat2, cat3, chars_of, int_dec, lines, lines_of, owned, push_str, trim, trim_start_char, trim_start_matches, trimmed,
    usize_text,
};

verus! {

/// `<count> <noun>`, with an `s` unless the count is one.
pub open spec fn plural_spec(count: nat, noun: Seq<char>) -> Seq<char> {
    int_dec(count as int) + " "@ + noun + if count == 1 {
        Seq::empty()
    } else {
        "s"@
    }
}

/// Counts a noun.
pub fn plural(count: usize, noun: &str) -> (r: String)
    ensures
        r@ == plural_spec(count as nat, noun@),
{
    let mut r = usize_text(count);
    push_str(&mut r, " ");
    push_str(&mut r, noun);
    if count != 1 {
        push_str(&mut r, "s");
    } else {
        assert(r@ =~= r@ + Seq::<char>::empty());
    }
    r
}

/// The remote item a task is linked to: its GitHub issue (by number, `?`
/// when it has none), else its Shortcut story.
pub open spec fn remote_link_spec(metadata: Option<JsonV>) -> Option<Seq<char>> {
    match metadata {
        None => None,
        Some(m) => match json_get(m, "github"@) {
            Some(g) => Some(
                "GitHub issue #"@ + match json_get(g, "issueNumber"@) {
                    Some(n) => compact_text(n),
                    None => "?"@,
                },
            ),
            None => match json_get(m, "shortcut"@) {
                Some(_) => Some("Shortcut story"@),
                None => None,
            },
        },
    }
}

/// Names the remote item a task is linked to.
pub fn remote_link(task: &Task) -> (r: Option<String>)
    ensures
        opt_view(r) == remote_link_spec(task@.metadata),
{
    let m = match &task.metadata {
        Some(m) => m,
        None => return None,
    };
    match m.get("github") {
        Some(g) => {
            let number = match g.get("issueNumber") {
                Some(n) => crate::json::compact(n),
                None => owned("?"),
            };
            Some(cat2("GitHub issue #", number.as_str()))
        },
        None => match m.get("shortcut") {
            Some(_) => Some(owned("Shortcut story")),
            None => None,
        },
    }
}

/// The heading a trimmed line carries: the rest after its leading `#`s,
/// trimmed, when there is at least one `#` and a space follows them.
pub open spec fn heading_of(line: Seq<char>) -> Option<Seq<char>> {
    let h = trim_start_char(line, '#');
    if h.len() < line.len() && h.len() > 0 && h[0] == ' ' {
        Some(trimmed(h))
    } else {
        None
    }
}

/// The first heading among lines, trimmed.
pub open spec fn first_heading(ls: Seq<Seq<char>>) -> Option<Seq<char>>
    decreases ls.len(),
{
    if ls.len() == 0 {
        None
    } else {
        match heading_of(trimmed(ls[0])) {
            Some(h) => Some(h),
            None => first_heading(ls.drop_first()),
        }
    }
}

/// The name of a task made from a plan: its first Markdown heading, else
/// the file's stem, else `plan`.
pub open spec fn plan_name_spec(stem: Option<Seq<char>>, contents: Seq<char>) -> Seq<char> {
    match first_heading(lines_of(contents)) {
        Some(h) => if h.len() > 0 {
            h
        } else {
            match stem {
                Some(s) => s,
                None => "plan"@,
            }
        },
        None => match stem {
            Some(s) => s,
            None => "plan"@,
        },
    }
}

proof fn lemma_trim_start_len(s: Seq<char>, c: char)
    ensures
        trim_start_char(s, c).len() <= s.len(),
    decreases s.len(),
{
    if s.len() > 0 && s[0] == c {
        lemma_trim_start_len(s.drop_first(), c);
    }
}

fn stem_or_plan(stem: Option<&str>) -> (r: String)
    ensures
        r@ == match crate::relations::opt_str(stem) {
            Some(s) => s,
            None => "plan"@,
        },
{
    match stem {
        Some(s) => owned(s),
        None => owned("plan"),
    }
}

/// Names a task made from a plan file, given the file's stem and text.
pub fn plan_name(stem: Option<&str>, contents: &str) -> (r: String)
    ensures
        r@ == plan_name_spec(crate::relations::opt_str(stem), contents@),
{
    let ls = lines(contents);
    let ghost lv = ls@.map_values(|l: String| l@);
    assert(lv.skip(0) =~= lv);
    let mut i: usize = 0;
    while i < ls.len()
        invariant
            i <= ls.len(),
            lv == ls@.map_values(|l: String| l@),
            lv == lines_of(contents@),
            first_heading(lv) == first_heading(lv.skip(i as int)),
        decreases ls.len() - i,
    {
        assert(lv.skip(i as int)[0] == ls@[i as int]@);
        assert(lv.skip(i as int).drop_first() =~= lv.skip(i + 1));
        let line = trim(ls[i].as_str());
        let heading = trim_start_matches(line.as_str(), '#');
        let h = chars_of(heading.as_str());
        let l = chars_of(line.as_str());
        proof {
            lemma_trim_start_len(line@, '#');
        }
        if h.len() < l.len() && h.len() > 0 && h[0] == ' ' {
            let t = trim(heading.as_str());
            if chars_of(t.as_str()).len() > 0 {
                return t;
            }
            return stem_or_plan(stem);
        }
        i = i + 1;
    }
    assert(lv.skip(ls.len() as int) =~= Seq::<Seq<char>>::empty());
    stem_or_plan(stem)
}

/// A task's metadata with `key` set: added to (or replaced in) an object,
/// or a new object when there is none.
pub open spec fn metadata_with(m: Option<JsonV>, key: Seq<char>, value: JsonV) -> JsonV {
    match m {
        Some(JsonV::Object(ks, vs)) => if ks.len() == vs.len() {
            let kv = members_insert(ks, vs, key, value);
            JsonV::Object(kv.0, kv.1)
        } else {
            JsonV::Object(seq![key], seq![value])
        },
        _ => JsonV::Object(seq![key], seq![value]),
    }
}

/// Sets one member of a task's metadata.
pub fn set_metadata(task: &mut Task, key: &str, value: Json)
    ensures
        final(task)@ == (TaskV { metadata: Some(metadata_with(old(task)@.metadata, key@, value@)), ..old(task)@ }),
{
    let mut md: Option<Json> = None;
    std::mem::swap(&mut md, &mut task.metadata);
    let ghost old_md = crate::json::opt_json_view(md);
    match md {
        Some(Json::Object(mut ks, mut vs)) => {
            if ks.len() == vs.len() {
                proof {
                    lemma_view_parts(Json::Object(ks, vs));
                }
                object_insert(&mut ks, &mut vs, owned(key), value);
                let m = Json::Object(ks, vs);
                proof {
                    lemma_view_parts(m);
                }
                task.metadata = Some(m);
            } else {
                proof {
                    lemma_view_parts(Json::Object(ks, vs));
                }
                task.metadata = Some(single_member(key, value));
            }
        },
        _ => {
            task.metadata = Some(single_member(key, value));
        },
    }
}

/// A task started at `now`.
pub open spec fn started(t: TaskV, now: Seq<char>) -> TaskV {
    TaskV { started_at: Some(now), updated_at: Some(now), completed: false, ..t }
}

/// Starts a task at `now`: refused when it is already in progress, unless
/// forced.
pub fn start_at(tasks: &mut Vec<Task>, id: &str, force: bool, now: &str) -> (r: Result<(), DexError>)
    ensures
        ({
            let ts = old(tasks).deep_view();
            if !has_task(ts, id@) {
                r matches Err(DexError::NotFound { id: x }) && x@ == id@ && final(tasks).deep_view() == ts
            } else if in_progress(task_of(ts, id@)) && !force {
                r matches Err(DexError::AlreadyInProgress { id: x }) && x@ == id@ && final(tasks).deep_view() == ts
            } else {
                r is Ok && final(tasks).deep_view() == ts.update(
                    crate::task::index_of(ts, id@),
                    started(task_of(ts, id@), now@),
                )
            }
        }),
{
    let ghost ts = tasks.deep_view();
    proof {
        lemma_index_of(ts, id@);
    }
    let k = match find(tasks, id) {
        Some(k) => k,
        None => return Err(DexError::NotFound { id: owned(id) }),
    };
    assert(ts[k as int] == tasks@[k as int]@);
    if is_in_progress(&tasks[k]) && !force {
        return Err(DexError::AlreadyInProgress { id: owned(id) });
    }
    let mut t = tasks[k].duplicate();
    t.started_at = Some(owned(now));
    t.updated_at = Some(owned(now));
    t.completed = false;
    let ghost tv = t@;
    tasks.set(k, t);
    assert(tasks.deep_view() =~= ts.update(k as int, tv));
    Ok(())
}

/// Starts a task now.
pub fn start(tasks: &mut Vec<Task>, id: &str, force: bool) -> (r: Result<(), DexError>)
    ensures
        ({
            let ts = old(tasks).deep_view();
            if !has_task(ts, id@) {
                r matches Err(DexError::NotFound { id: x }) && x@ == id@ && final(tasks).deep_view() == ts
            } else if in_progress(task_of(ts, id@)) && !force {
                r matches Err(DexError::AlreadyInProgress { id: x }) && x@ == id@ && final(tasks).deep_view() == ts
            } else {
                r is Ok && exists|now: Seq<char>| final(tasks).deep_view() == ts.update(
                    crate::task::index_of(ts, id@),
                    started(task_of(ts, id@), now),
                )
            }
        }),
{
    let now = crate::task::timestamp();
    start_at(tasks, id, force, now.as_str())
}

/// The blockers in `l` that exist and are open, as `(id, name)`.
pub open spec fn open_blockers(ts: Seq<TaskV>, l: Seq<Seq<char>>) -> Seq<(Seq<char>, Seq<char>)>
    decreases l.len(),
{
    if l.len() == 0 {
        Seq::empty()
    } else {
        let rest = open_blockers(ts, l.drop_last());
        if has_task(ts, l.last()) && !task_of(ts, l.last()).completed {
            rest.push((task_of(ts, l.last()).id, task_of(ts, l.last()).name))
        } else {
            rest
        }
    }
}

/// A task completed at `now` with a result and, perhaps, a commit.
pub open spec fn completed_task(t: TaskV, result: Seq<char>, commit: Option<JsonV>, now: Seq<char>) -> TaskV {
    TaskV {
        completed: true,
        result: Some(result),
        metadata: match commit {
            Some(c) => Some(metadata_with(t.metadata, "commit"@, c)),
            None => t.metadata,
        },
        started_at: match t.started_at {
            Some(s) => Some(s),
            None => Some(now),
        },
        completed_at: Some(now),
        updated_at: Some(now),
        ..t
    }
}

fn open_blockers_of(tasks: &Vec<Task>, k: usize) -> (r: Vec<(String, String)>)
    requires
        k < tasks.len(),
    ensures
        r@.map_values(|p: (String, String)| (p.0@, p.1@)) == open_blockers(tasks.deep_view(), tasks@[k as int]@.blocked_by),
{
    let ghost ts = tasks.deep_view();
    let ghost l = tasks@[k as int]@.blocked_by;
    let mut r: Vec<(String, String)> = Vec::new();
    let mut i: usize = 0;
    while i < tasks[k].blocked_by.len()
        invariant
            k < tasks.len(),
            i <= tasks[k as int].blocked_by.len(),
            ts == tasks.deep_view(),
            l == tasks@[k as int]@.blocked_by,
            r@.map_values(|p: (String, String)| (p.0@, p.1@)) == open_blockers(ts, l.take(i as int)),
        decreases tasks[k as int].blocked_by.len() - i,
    {
        assert(l.take(i + 1).drop_last() =~= l.take(i as int));
        assert(l.take(i + 1).last() == tasks[k as int].blocked_by@[i as int]@);
        proof {
            lemma_index_of(ts, l[i as int]);
        }
        let ghost before = r@.map_values(|p: (String, String)| (p.0@, p.1@));
        match find(tasks, tasks[k].blocked_by[i].as_str()) {
            Some(j) => {
                assert(ts[j as int] == tasks@[j as int]@);
                if !tasks[j].completed {
                    let pair = (tasks[j].id.clone(), tasks[j].name.clone());
                    let ghost pv = (pair.0@, pair.1@);
                    r.push(pair);
                    assert(r@.map_values(|p: (String, String)| (p.0@, p.1@)) =~= before.push(pv));
                }
            },
            None => {},
        }
        i = i + 1;
    }
    assert(l.take(tasks[k as int].blocked_by.len() as int) =~= l);
    r
}

/// Completes a task at `now`: refused as `validate_completion` refuses,
/// when the task does not exist, or when it is linked to a remote item,
/// has no subtasks and neither a commit nor `no_commit` was given. Gives
/// the open tasks that block it, as `(id, name)`.
pub fn complete_at(
    tasks: &mut Vec<Task>,
    id: &str,
    result: String,
    commit: Option<Json>,
    no_commit: bool,
    force: bool,
    now: &str,
) -> (r: Result<Vec<(String, String)>, DexError>)
    ensures
        ({
            let ts = old(tasks).deep_view();
            let t = task_of(ts, id@);
            if !crate::validate::completion_ok(ts, id@, force) {
                r matches Err(e) && crate::validate::completion_refusal(ts, id@, e) && final(tasks).deep_view() == ts
            } else if !has_task(ts, id@) {
                r matches Err(DexError::NotFound { id: x }) && x@ == id@ && final(tasks).deep_view() == ts
            } else if t.children.len() == 0 && !(commit is Some || no_commit) && remote_link_spec(t.metadata) is Some {
                r matches Err(DexError::CommitDecisionRequired { link }) && link@ == remote_link_spec(t.metadata)->0
                    && final(tasks).deep_view() == ts
            } else {
                r matches Ok(open) && open@.map_values(|p: (String, String)| (p.0@, p.1@)) == open_blockers(ts, t.blocked_by)
                    && final(tasks).deep_view() == ts.update(
                    crate::task::index_of(ts, id@),
                    completed_task(t, result@, crate::json::opt_json_view(commit), now@),
                )
            }
        }),
{
    let ghost ts = tasks.deep_view();
    let ghost cv = crate::json::opt_json_view(commit);
    let ghost rv = result@;
    match crate::validate::validate_completion(tasks.as_slice(), id, force) {
        Err(e) => return Err(e),
        Ok(()) => {},
    }
    proof {
        lemma_index_of(ts, id@);
    }
    let k = match find(tasks, id) {
        Some(k) => k,
        None => return Err(DexError::NotFound { id: owned(id) }),
    };
    assert(ts[k as int] == tasks@[k as int]@);
    if tasks[k].children.len() == 0 && !(commit.is_some() || no_commit) {
        match remote_link(&tasks[k]) {
            Some(link) => return Err(DexError::CommitDecisionRequired { link }),
            None => {},
        }
    }
    let open = open_blockers_of(tasks, k);
    let mut t = tasks[k].duplicate();
    t.completed = true;
    t.result = Some(result);
    match commit {
        Some(c) => set_metadata(&mut t, "commit", c),
        None => {},
    }
    if t.started_at.is_none() {
        t.started_at = Some(owned(now));
    }
    t.completed_at = Some(owned(now));
    t.updated_at = Some(owned(now));
    let ghost tv = t@;
    assert(tv == completed_task(ts[k as int], rv, cv, now@));
    tasks.set(k, t);
    assert(tasks.deep_view() =~= ts.update(k as int, tv));
    Ok(open)
}

/// Completes a task now.
pub fn complete(
    tasks: &mut Vec<Task>,
    id: &str,
    result: String,
    commit: Option<Json>,
    no_commit: bool,
    force: bool,
) -> (r: Result<Vec<(String, String)>, DexError>)
    ensures
        ({
            let ts = old(tasks).deep_view();
            let t = task_of(ts, id@);
            if !crate::validate::completion_ok(ts, id@, force) {
                r matches Err(e) && crate::validate::completion_refusal(ts, id@, e) && final(tasks).deep_view() == ts
            } else if !has_task(ts, id@) {
                r matches Err(DexError::NotFound { id: x }) && x@ == id@ && final(tasks).deep_view() == ts
            } else if t.children.len() == 0 && !(commit is Some || no_commit) && remote_link_spec(t.metadata) is Some {
                r matches Err(DexError::CommitDecisionRequired { link }) && link@ == remote_link_spec(t.metadata)->0
                    && final(tasks).deep_view() == ts
            } else {
                r matches Ok(open) && open@.map_values(|p: (String, String)| (p.0@, p.1@)) == open_blockers(ts, t.blocked_by)
                    && exists|now: Seq<char>| final(tasks).deep_view() == ts.update(
                    crate::task::index_of(ts, id@),
                    completed_task(t, result@, crate::json::opt_json_view(commit), now),
                )
            }
        }),
{
    let now = crate::task::timestamp();
    complete_at(tasks, id, result, commit, no_commit, force, now.as_str())
}

/// The ids in comma-separated values, in order.
pub open spec fn flat_ids(values: Seq<Seq<char>>) -> Seq<Seq<char>>
    decreases values.len(),
{
    if values.len() == 0 {
        Seq::empty()
    } else {
        flat_ids(values.drop_last()) + ids_in(crate::text::split_char(values.last(), ','))
    }
}

/// Splits comma-separated values into ids.
pub fn ids_of_values(values: &Vec<String>) -> (r: Vec<String>)
    ensures
        r.deep_view() == flat_ids(values.deep_view()),
{
    let ghost vv = values.deep_view();
    let mut r: Vec<String> = Vec::new();
    let mut i: usize = 0;
    while i < values.len()
        invariant
            i <= values.len(),
            vv == values.deep_view(),
            r.deep_view() == flat_ids(vv.take(i as int)),
        decreases values.len() - i,
    {
        assert(vv.take(i + 1).drop_last() =~= vv.take(i as int));
        assert(vv.take(i + 1).last() == values@[i as int]@);
        let mut part = split_ids(values[i].as_str());
        let ghost before = r.deep_view();
        let ghost pv = part.deep_view();
        r.append(&mut part);
        assert(r.deep_view() =~= before + pv);
        i = i + 1;
    }
    assert(vv.take(values.len() as int) =~= vv);
    r
}

/// The task list after adding blockers to `id` one by one; `None` when
/// one of them is refused.
pub open spec fn blockers_added(ts: Seq<TaskV>, id: Seq<char>, ids: Seq<Seq<char>>) -> Option<Seq<TaskV>>
    decreases ids.len(),
{
    if ids.len() == 0 {
        Some(ts)
    } else if ids[0] != id && has_task(ts, ids[0]) && has_task(ts, id) {
        blockers_added(blocker_added(ts, id, ids[0]), id, ids.drop_first())
    } else {
        None
    }
}

/// The task list after removing blockers from `id` one by one; `None`
/// when the task does not exist.
pub open spec fn blockers_removed(ts: Seq<TaskV>, id: Seq<char>, ids: Seq<Seq<char>>) -> Option<Seq<TaskV>>
    decreases ids.len(),
{
    if ids.len() == 0 {
        Some(ts)
    } else if has_task(ts, id) {
        blockers_removed(blocker_removed(ts, id, ids[0]), id, ids.drop_first())
    } else {
        None
    }
}

/// The task list after giving `id` a parent; `None` when refused.
pub open spec fn with_parent(ts: Seq<TaskV>, id: Seq<char>, parent: Option<Seq<char>>) -> Option<Seq<TaskV>> {
    match parent {
        Some(p) => if set_parent_allowed(ts, id, Some(p)) {
            Some(reparented(ts, id, Some(p)))
        } else {
            None
        },
        None => Some(ts),
    }
}

/// Why adding the blockers `ids` to task `id` of `ts` is refused.
pub open spec fn blockers_refusal(ts: Seq<TaskV>, id: Seq<char>, ids: Seq<Seq<char>>, e: DexError) -> bool {
    match e {
        DexError::BlocksItself { id: x } => x@ == id && ids.contains(id),
        DexError::BlockerNotFound { blocker: b } => ids.contains(b@) && b@ != id && !has_task(ts, b@),
        DexError::NotFound { id: x } => x@ == id && !has_task(ts, id),
        _ => false,
    }
}

fn add_all(tasks: &mut Vec<Task>, id: &str, ids: &Vec<String>) -> (r: Result<(), DexError>)
    ensures
        match blockers_added(old(tasks).deep_view(), id@, ids.deep_view()) {
            Some(ts2) => r is Ok && final(tasks).deep_view() == ts2,
            None => r is Err,
        },
        r matches Err(e) ==> blockers_refusal(old(tasks).deep_view(), id@, ids.deep_view(), e),
{
    let ghost iv = ids.deep_view();
    let ghost t0 = tasks.deep_view();
    assert(iv.skip(0) =~= iv);
    let mut i: usize = 0;
    while i < ids.len()
        invariant
            i <= ids.len(),
            iv == ids.deep_view(),
            t0 == old(tasks).deep_view(),
            blockers_added(t0, id@, iv) == blockers_added(tasks.deep_view(), id@, iv.skip(i as int)),
            forall|x: Seq<char>| #[trigger] has_task(tasks.deep_view(), x) == has_task(t0, x),
        decreases ids.len() - i,
    {
        assert(iv.skip(i as int)[0] == ids@[i as int]@);
        assert(iv.skip(i as int).drop_first() =~= iv.skip(i + 1));
        assert(iv[i as int] == ids@[i as int]@);
        assert(iv.contains(ids@[i as int]@));
        let ghost before = tasks.deep_view();
        match add_blocker(tasks, id, ids[i].as_str()) {
            Ok(()) => {
                proof {
                    let n = tasks.deep_view();
                    crate::task::lemma_index_of(before, id@);
                    crate::task::lemma_index_of(before, ids@[i as int]@);
                    assert forall|j: int| 0 <= j < before.len() implies #[trigger] before[j].id == n[j].id by {}
                    assert forall|x: Seq<char>| #[trigger] has_task(n, x) == has_task(t0, x) by {
                        crate::relations::lemma_same_ids(before, n, x);
                    }
                }
            },
            Err(e) => return Err(e),
        }
        i = i + 1;
    }
    assert(iv.skip(ids.len() as int) =~= Seq::<Seq<char>>::empty());
    Ok(())
}

fn remove_all_blockers(tasks: &mut Vec<Task>, id: &str, ids: &Vec<String>) -> (r: Result<(), DexError>)
    ensures
        match blockers_removed(old(tasks).deep_view(), id@, ids.deep_view()) {
            Some(ts2) => r is Ok && final(tasks).deep_view() == ts2,
            None => r is Err,
        },
{
    let ghost iv = ids.deep_view();
    let ghost t0 = tasks.deep_view();
    assert(iv.skip(0) =~= iv);
    let mut i: usize = 0;
    while i < ids.len()
        invariant
            i <= ids.len(),
            iv == ids.deep_view(),
            t0 == old(tasks).deep_view(),
            blockers_removed(t0, id@, iv) == blockers_removed(tasks.deep_view(), id@, iv.skip(i as int)),
        decreases ids.len() - i,
    {
        assert(iv.skip(i as int)[0] == ids@[i as int]@);
        assert(iv.skip(i as int).drop_first() =~= iv.skip(i + 1));
        match remove_blocker(tasks, id, ids[i].as_str()) {
            Ok(()) => {},
            Err(e) => return Err(e),
        }
        i = i + 1;
    }
    assert(iv.skip(ids.len() as int) =~= Seq::<Seq<char>>::empty());
    Ok(())
}

/// What `create` does with a new task `nt` pushed to the list: its parent
/// set, then its blockers added; `None` when refused.
pub open spec fn created_list(ts: Seq<TaskV>, nt: TaskV, parent: Option<Seq<char>>, blockers: Seq<Seq<char>>) -> Option<Seq<TaskV>> {
    match with_parent(ts.push(nt), nt.id, parent) {
        Some(t1) => blockers_added(t1, nt.id, blockers),
        None => None,
    }
}

/// A new task as `Task::new` makes it.
pub open spec fn fresh_task(nt: TaskV, name: Seq<char>, description: Option<Seq<char>>, priority: Option<i64>) -> bool {
    &&& nt.name == name
    &&& nt.description == match description {
        Some(d) => d,
        None => Seq::<char>::empty(),
    }
    &&& nt.priority == match priority {
        Some(p) => p,
        None => crate::task::DEFAULT_PRIORITY,
    }
    &&& nt.parent_id is None
    &&& !nt.completed
    &&& nt.result is None
    &&& nt.metadata is None
    &&& nt.created_at is Some
    &&& nt.updated_at == nt.created_at
    &&& nt.started_at is None
    &&& nt.completed_at is None
    &&& nt.blocked_by.len() == 0
    &&& nt.blocks.len() == 0
    &&& nt.children.len() == 0
}

/// Why creating a task under `parent` with blockers `blockers` is refused.
pub open spec fn create_refusal(ts: Seq<TaskV>, parent: Option<Seq<char>>, blockers: Seq<Seq<char>>, e: DexError) -> bool {
    match e {
        DexError::OwnParent { id: x } => parent == Some(x@) && !has_task(ts, x@),
        DexError::ParentNotFound { parent: q } => parent == Some(q@) && !has_task(ts, q@),
        DexError::ParentIsSubtask { parent: q, .. } => parent == Some(q@) && has_task(ts, q@)
            && !crate::validate::hierarchy_ok(ts),
        DexError::BlocksItself { id: x } => blockers.contains(x@) && !has_task(ts, x@),
        DexError::BlockerNotFound { blocker: b } => blockers.contains(b@) && !has_task(ts, b@),
        _ => false,
    }
}

/// Creates a task under a fresh id, with a parent and blockers given as
/// comma-separated values. On failure nothing changes.
pub fn create_task(
    tasks: &mut Vec<Task>,
    name: String,
    description: Option<String>,
    priority: Option<i64>,
    parent: Option<&str>,
    blocked_by: &Vec<String>,
    process_id: u32,
) -> (r: Result<String, DexError>)
    ensures
        match r {
            Ok(id) => !has_task(old(tasks).deep_view(), id@) && exists|nt: TaskV|
                nt.id == id@ && fresh_task(nt, name@, opt_view(description), priority) && created_list(
                    old(tasks).deep_view(),
                    nt,
                    crate::relations::opt_str(parent),
                    flat_ids(blocked_by.deep_view()),
                ) == Some(final(tasks).deep_view()),
            Err(_) => final(tasks).deep_view() == old(tasks).deep_view() && exists|nt: TaskV|
                !has_task(old(tasks).deep_view(), nt.id) && fresh_task(nt, name@, opt_view(description), priority)
                    && created_list(
                    old(tasks).deep_view(),
                    nt,
                    crate::relations::opt_str(parent),
                    flat_ids(blocked_by.deep_view()),
                ) is None,
        },
        r matches Err(e) ==> create_refusal(old(tasks).deep_view(), crate::relations::opt_str(parent), flat_ids(blocked_by.deep_view()), e),
{
    let ghost ts = tasks.deep_view();
    let ghost dv = opt_view(description);
    let ghost nv = name@;
    let ids = ids_of_values(blocked_by);
    let mut work = crate::service::copy_tasks(tasks);
    let id = crate::task::generate_id(work.as_slice(), process_id);
    let t = Task::new(id.clone(), name, description, priority);
    let ghost nt = t@;
    assert(fresh_task(nt, nv, dv, priority));
    assert(!has_task(ts, nt.id));
    work.push(t);
    assert(work.deep_view() =~= ts.push(nt));
    match parent {
        Some(p) => match set_parent(&mut work, id.as_str(), Some(p)) {
            Ok(()) => {
                proof {
                    let s0 = ts.push(nt);
                    let n = work.deep_view();
                    crate::task::lemma_index_of(s0, id@);
                    crate::task::lemma_index_of(s0, p@);
                    assert forall|j: int| 0 <= j < s0.len() implies #[trigger] s0[j].id == n[j].id by {}
                    assert forall|x: Seq<char>| #[trigger] has_task(n, x) == has_task(s0, x) by {
                        crate::relations::lemma_same_ids(s0, n, x);
                    }
                }
            },
            Err(e) => {
                assert(created_list(ts, nt, crate::relations::opt_str(parent), flat_ids(blocked_by.deep_view())) is None);
                proof {
                    let s0 = ts.push(nt);
                    crate::task::lemma_index_of(s0, nt.id);
                    assert(s0[ts.len() as int].id == nt.id);
                    if has_task(ts, p@) {
                        let w = choose|w: int| 0 <= w < ts.len() && ts[w].id == p@;
                        assert(s0[w].id == p@);
                    }
                    if p@ != nt.id && has_task(s0, p@) {
                        let w = choose|w: int| 0 <= w < s0.len() && s0[w].id == p@;
                        assert(w < ts.len());
                    }
                    if crate::validate::hierarchy_ok(ts) && p@ != nt.id && has_task(ts, p@) {
                        crate::service::lemma_fresh_not_ancestor(ts, nt, p@, s0.len());
                    }
                    match &e {
                        DexError::NotFound { .. } => {
                            assert(task_of(s0, nt.id) == nt);
                            assert(false);
                        },
                        _ => {},
                    }
                }
                return Err(e);
            },
        },
        None => {},
    }
    assert(forall|x: Seq<char>| #[trigger] has_task(work.deep_view(), x) == has_task(ts.push(nt), x));
    match add_all(&mut work, id.as_str(), &ids) {
        Ok(()) => {},
        Err(e) => {
            proof {
                let s0 = ts.push(nt);
                assert(s0[ts.len() as int].id == nt.id);
                assert(has_task(s0, nt.id));
                match &e {
                    DexError::BlockerNotFound { blocker: b } => {
                        if has_task(ts, b@) {
                            let w = choose|w: int| 0 <= w < ts.len() && ts[w].id == b@;
                            assert(s0[w].id == b@);
                        }
                    },
                    _ => {},
                }
            }
            assert(created_list(ts, nt, crate::relations::opt_str(parent), flat_ids(blocked_by.deep_view())) is None);
            return Err(e);
        },
    }
    *tasks = work;
    Ok(id)
}

/// A task edited: each field given replaces the old one, a commit is set
/// in its metadata, and it is updated at `now`.
pub open spec fn edited(
    t: TaskV,
    name: Option<Seq<char>>,
    description: Option<Seq<char>>,
    priority: Option<i64>,
    commit: Option<JsonV>,
    now: Seq<char>,
) -> TaskV {
    TaskV {
        name: match name {
            Some(n) => n,
            None => t.name,
        },
        description: match description {
            Some(d) => d,
            None => t.description,
        },
        priority: match priority {
            Some(p) => p,
            None => t.priority,
        },
        metadata: match commit {
            Some(c) => Some(metadata_with(t.metadata, "commit"@, c)),
            None => t.metadata,
        },
        updated_at: Some(now),
        ..t
    }
}

/// The task list after an edit: the parent moved, blockers added, then
/// removed, then the fields set; `None` when a step is refused.
pub open spec fn edit_result(
    ts: Seq<TaskV>,
    id: Seq<char>,
    parent: Option<Seq<char>>,
    adds: Seq<Seq<char>>,
    removes: Seq<Seq<char>>,
    fields: spec_fn(TaskV) -> TaskV,
) -> Option<Seq<TaskV>> {
    match with_parent(ts, id, parent) {
        None => None,
        Some(t1) => match blockers_added(t1, id, adds) {
            None => None,
            Some(t2) => match blockers_removed(t2, id, removes) {
                None => None,
                Some(t3) => if has_task(t3, id) {
                    Some(t3.update(crate::task::index_of(t3, id), fields(task_of(t3, id))))
                } else {
                    None
                },
            },
        },
    }
}

/// The task list after an edit with these values, at `now`.
pub open spec fn edit_outcome(
    ts: Seq<TaskV>,
    id: Seq<char>,
    parent: Option<Seq<char>>,
    adds: Seq<Seq<char>>,
    removes: Seq<Seq<char>>,
    name: Option<Seq<char>>,
    description: Option<Seq<char>>,
    priority: Option<i64>,
    commit: Option<JsonV>,
    now: Seq<char>,
) -> Option<Seq<TaskV>> {
    edit_result(ts, id, parent, adds, removes, |t: TaskV| edited(t, name, description, priority, commit, now))
}

/// Edits a task at `now`. On failure nothing changes.
pub fn edit_at(
    tasks: &mut Vec<Task>,
    id: &str,
    name: Option<String>,
    description: Option<String>,
    priority: Option<i64>,
    parent: Option<&str>,
    add_blockers: &Vec<String>,
    remove_blockers: &Vec<String>,
    commit: Option<Json>,
    now: &str,
) -> (r: Result<(), DexError>)
    ensures
        ({
            let res = edit_outcome(
                old(tasks).deep_view(),
                id@,
                crate::relations::opt_str(parent),
                flat_ids(add_blockers.deep_view()),
                flat_ids(remove_blockers.deep_view()),
                opt_view(name),
                opt_view(description),
                priority,
                crate::json::opt_json_view(commit),
                now@,
            );
            match res {
                Some(ts2) => r is Ok && final(tasks).deep_view() == ts2,
                None => r is Err && final(tasks).deep_view() == old(tasks).deep_view(),
            }
        }),
{
    let ghost ts = tasks.deep_view();
    let ghost f = |t: TaskV| edited(t, opt_view(name), opt_view(description), priority, crate::json::opt_json_view(commit), now@);
    let adds = ids_of_values(add_blockers);
    let removes = ids_of_values(remove_blockers);
    let mut work = crate::service::copy_tasks(tasks);
    match parent {
        Some(p) => {
            match set_parent(&mut work, id, Some(p)) {
                Ok(()) => {},
                Err(e) => return Err(e),
            }
        },
        None => {},
    }
    match add_all(&mut work, id, &adds) {
        Ok(()) => {},
        Err(e) => return Err(e),
    }
    match remove_all_blockers(&mut work, id, &removes) {
        Ok(()) => {},
        Err(e) => return Err(e),
    }
    let ghost t3 = work.deep_view();
    proof {
        lemma_index_of(t3, id@);
    }
    let k = match find(&work, id) {
        Some(k) => k,
        None => return Err(DexError::NotFound { id: owned(id) }),
    };
    assert(t3[k as int] == work@[k as int]@);
    let mut t = work[k].duplicate();
    match name {
        Some(n) => t.name = n,
        None => {},
    }
    match description {
        Some(d) => t.description = d,
        None => {},
    }
    match priority {
        Some(p) => t.priority = p,
        None => {},
    }
    match commit {
        Some(c) => set_metadata(&mut t, "commit", c),
        None => {},
    }
    t.updated_at = Some(owned(now));
    let ghost tv = t@;
    assert(tv == f(task_of(t3, id@)));
    work.set(k, t);
    assert(work.deep_view() =~= t3.update(k as int, tv));
    *tasks = work;
    Ok(())
}

/// Edits a task now. On failure nothing changes.
pub fn edit(
    tasks: &mut Vec<Task>,
    id: &str,
    name: Option<String>,
    description: Option<String>,
    priority: Option<i64>,
    parent: Option<&str>,
    add_blockers: &Vec<String>,
    remove_blockers: &Vec<String>,
    commit: Option<Json>,
) -> (r: Result<(), DexError>)
    ensures
        r is Err ==> final(tasks).deep_view() == old(tasks).deep_view(),
        exists|now: Seq<char>|
            match #[trigger] edit_outcome(
                old(tasks).deep_view(),
                id@,
                crate::relations::opt_str(parent),
                flat_ids(add_blockers.deep_view()),
                flat_ids(remove_blockers.deep_view()),
                opt_view(name),
                opt_view(description),
                priority,
                crate::json::opt_json_view(commit),
                now,
            ) {
                Some(ts2) => r is Ok && final(tasks).deep_view() == ts2,
                None => r is Err,
            },
{
    let now = crate::task::timestamp();
    let ghost nv = opt_view(name);
    let ghost dv = opt_view(description);
    let ghost cv = crate::json::opt_json_view(commit);
    let r = edit_at(tasks, id, name, description, priority, parent, add_blockers, remove_blockers, commit, now.as_str());
    assert(edit_outcome(
        old(tasks).deep_view(),
        id@,
        crate::relations::opt_str(parent),
        flat_ids(add_blockers.deep_view()),
        flat_ids(remove_blockers.deep_view()),
        nv,
        dv,
        priority,
        cv,
        now@,
    ) is Some ==> r is Ok);
    r
}

/// The tasks in the subtree of `id`, `id` included.
pub open spec fn subtree_set(ts: Seq<TaskV>, id: Seq<char>) -> Set<Seq<char>> {
    Set::new(|x: Seq<char>| crate::service::in_subtree(ts, id, x))
}

/// Deletes a task and its subtree: refused when the task does not exist,
/// and, unless forced, when it has subtasks. Gives the deleted tasks.
pub fn delete_task(tasks: &mut Vec<Task>, id: &str, force: bool) -> (r: Result<Vec<Task>, DexError>)
    ensures
        ({
            let ts = old(tasks).deep_view();
            if !has_task(ts, id@) {
                r matches Err(DexError::NotFound { id: x }) && x@ == id@ && final(tasks).deep_view() == ts
            } else if subtree_set(ts, id@).len() > 1 && !force {
                r matches Err(DexError::HasSubtasks { id: x, count }) && x@ == id@ && count@ == int_dec(
                    subtree_set(ts, id@).len() - 1,
                ) && final(tasks).deep_view() == ts
            } else {
                r matches Ok(removed) && removed.deep_view() == crate::service::subtree_part(ts, ts, id@, true)
                    && final(tasks).deep_view() == crate::service::after_delete(ts, id@)
            }
        }),
{
    let ghost ts = tasks.deep_view();
    proof {
        lemma_index_of(ts, id@);
    }
    if find(tasks, id).is_none() {
        return Err(DexError::NotFound { id: owned(id) });
    }
    let members = crate::relations::subtree_ids(tasks, id);
    proof {
        let mv = members.deep_view();
        mv.unique_seq_to_set();
        assert(mv.to_set() =~= subtree_set(ts, id@));
        let p = seq![id@];
        assert(crate::relations::is_walk(ts, true, p));
        assert(mv.contains(id@));
    }
    assert(members.len() >= 1);
    let subtasks = members.len() - 1;
    if subtasks > 0 && !force {
        return Err(DexError::HasSubtasks { id: owned(id), count: usize_text(subtasks) });
    }
    match crate::service::delete(tasks, id) {
        Ok(removed) => Ok(removed),
        Err(e) => Err(e),
    }
}

/// What a deletion reports.
pub open spec fn deleted_message(id: Seq<char>, removed: nat) -> Seq<char> {
    if removed == 0 {
        "Deleted task "@ + id
    } else if removed == 1 {
        "Deleted task "@ + id + " and 1 subtask"@
    } else {
        "Deleted task "@ + id + " and "@ + int_dec(removed as int) + " subtasks"@
    }
}

/// Reports a deletion of a task and `removed` subtasks.
pub fn deleted_line(id: &str, removed: usize) -> (r: String)
    ensures
        r@ == deleted_message(id@, removed as nat),
{
    if removed == 0 {
        cat2("Deleted task ", id)
    } else if removed == 1 {
        cat3("Deleted task ", id, " and 1 subtask")
    } else {
        let mut r = cat3("Deleted task ", id, " and ");
        push_str(&mut r, usize_text(removed).as_str());
        push_str(&mut r, " subtasks");
        r
    }
}

/// What an unknown command is answered: the command, the closest known
/// one when there is one, and where to find the usage.
pub open spec fn unknown_message(unknown: Seq<char>, suggestion: Option<Seq<char>>, invoked_as: Seq<char>) -> Seq<char> {
    "Unknown command: "@ + unknown + match suggestion {
        Some(s) => "\nDid you mean \""@ + s + "\"?"@,
        None => Seq::empty(),
    } + "\nRun "@ + invoked_as + " help for usage information."@
}

/// Answers an unknown command.
pub fn unknown_command(unknown: &str, invoked_as: &str) -> (r: String)
    ensures
        exists|s: Option<Seq<char>>|
            (match s {
                Some(c) => crate::help::commands().contains(c),
                None => true,
            }) && r@ == unknown_message(unknown@, s, invoked_as@),
{
    let mut m = cat2("Unknown command: ", unknown);
    let ghost base = m@;
    let s = crate::help::suggestion(unknown);
    let ghost sv = crate::relations::opt_str(s);
    match s {
        Some(c) => {
            push_str(&mut m, "\nDid you mean \"");
            push_str(&mut m, c);
            push_str(&mut m, "\"?");
            proof {
                let k = choose|k: int| 0 <= k < crate::help::commands().len() && c@ == crate::help::commands()[k] && crate::help::distance(
                    crate::listing::lowercase(unknown@),
                    crate::help::commands()[k],
                ) <= 2 && forall|m: int|
                    0 <= m < crate::help::commands().len() ==> crate::help::distance(
                        crate::listing::lowercase(unknown@),
                        crate::help::commands()[k],
                    ) < crate::help::distance(crate::listing::lowercase(unknown@), #[trigger] crate::help::commands()[m])
                        || (crate::help::distance(crate::listing::lowercase(unknown@), crate::help::commands()[k])
                        <= crate::help::distance(crate::listing::lowercase(unknown@), crate::help::commands()[m]) && k <= m);
                assert(crate::help::commands().contains(c@));
            }
        },
        None => {},
    }
    push_str(&mut m, "\nRun ");
    push_str(&mut m, invoked_as);
    push_str(&mut m, " help for usage information.");
    assert(m@ =~= unknown_message(unknown@, sv, invoked_as@));
    m
}

/// Whether every child of a task is missing or completed.
pub open spec fn children_done(ts: Seq<TaskV>, t: TaskV) -> bool {
    forall|k: int| 0 <= k < t.children.len() ==> !has_task(ts, #[trigger] t.children[k]) || task_of(ts, t.children[k]).completed
}

/// The hint after completing a task whose parent now has only completed
/// subtasks, one line each.
pub open spec fn parent_hint(ts: Seq<TaskV>, id: Seq<char>) -> Seq<Seq<char>> {
    if !has_task(ts, id) {
        Seq::empty()
    } else {
        match task_of(ts, id).parent_id {
            None => Seq::empty(),
            Some(p) => if !has_task(ts, p) {
                Seq::empty()
            } else {
                let parent = task_of(ts, p);
                if children_done(ts, parent) && !parent.completed {
                    seq![
                        Seq::<char>::empty(),
                        "Hint: All subtasks of "@ + parent.name + " are now complete."@,
                        "  \u{2022} Complete parent: dex complete "@ + parent.id + " --result \"...\""@,
                    ] + if remote_link_spec(parent.metadata) is Some {
                        seq!["    (Parent task with subtasks doesn't require --commit/--no-commit)"@]
                    } else {
                        Seq::empty()
                    }
                } else {
                    Seq::empty()
                }
            },
        }
    }
}

/// The lines hinting that a completed task's parent can be completed.
pub fn completion_hint(tasks: &Vec<Task>, id: &str) -> (r: Vec<String>)
    ensures
        r.deep_view() == parent_hint(tasks.deep_view(), id@),
{
    let ghost ts = tasks.deep_view();
    let mut r: Vec<String> = Vec::new();
    assert(r.deep_view() =~= Seq::<Seq<char>>::empty());
    proof {
        lemma_index_of(ts, id@);
    }
    let k = match find(tasks, id) {
        Some(k) => k,
        None => return r,
    };
    assert(ts[k as int] == tasks@[k as int]@);
    let p = match &tasks[k].parent_id {
        Some(p) => p,
        None => return r,
    };
    proof {
        lemma_index_of(ts, p@);
    }
    let j = match find(tasks, p.as_str()) {
        Some(j) => j,
        None => return r,
    };
    let parent = &tasks[j];
    assert(ts[j as int] == parent@);
    assert(parent@ == task_of(ts, p@));
    let mut c: usize = 0;
    while c < parent.children.len()
        invariant
            c <= parent.children.len(),
            ts == tasks.deep_view(),
            r.deep_view() == Seq::<Seq<char>>::empty(),
            has_task(ts, id@),
            task_of(ts, id@).parent_id == Some(p@),
            has_task(ts, p@),
            parent@ == task_of(ts, p@),
            forall|q: int| 0 <= q < c ==> !has_task(ts, #[trigger] parent@.children[q]) || task_of(ts, parent@.children[q]).completed,
        decreases parent.children.len() - c,
    {
        proof {
            lemma_index_of(ts, parent@.children[c as int]);
        }
        assert(parent@.children[c as int] == parent.children@[c as int]@);
        match find(tasks, parent.children[c].as_str()) {
            Some(q) => {
                assert(ts[q as int] == tasks@[q as int]@);
                if !tasks[q].completed {
                    assert(!children_done(ts, parent@));
                    return r;
                }
            },
            None => {},
        }
        c = c + 1;
    }
    if parent.completed {
        return r;
    }
    let blank = String::new();
    assert(blank@ =~= Seq::<char>::empty());
    r.push(blank);
    let mut l1 = cat2("Hint: All subtasks of ", parent.name.as_str());
    push_str(&mut l1, " are now complete.");
    r.push(l1);
    let mut l2 = cat2("  \u{2022} Complete parent: dex complete ", parent.id.as_str());
    push_str(&mut l2, " --result \"...\"");
    r.push(l2);
    let ghost three = r.deep_view();
    if remote_link(parent).is_some() {
        r.push(owned("    (Parent task with subtasks doesn't require --commit/--no-commit)"));
    }
    assert(r.deep_view() =~= parent_hint(ts, id@));
    r
}

/// How much smaller the stored tasks got, in whole percent.
pub open spec fn reduction_spec(before: nat, after: nat) -> int {
    (before - after) * 100 / if before == 0 {
        1
    } else {
        before as int
    }
}

/// The size reduction of an archiving, in whole percent of the size
/// before (counted as 1 when it was empty).
pub fn reduction_percent(before: usize, after: usize) -> (r: usize)
    requires
        after <= before,
        (before - after) * 100 <= usize::MAX,
    ensures
        r as int == reduction_spec(before as nat, after as nat),
{
    let d = if before == 0 {
        1
    } else {
        before
    };
    (before - after) * 100 / d
}

/// What an archiving reports, one line each.
pub open spec fn archive_report(archived: nat, roots: nat, by_id: bool, dry_run: bool, reduction: nat) -> Seq<Seq<char>> {
    let verb = if dry_run {
        "Would archive"@
    } else {
        "Archived"@
    };
    let head = verb + " "@ + plural_spec(archived, "task"@) + if by_id {
        Seq::empty()
    } else {
        " ("@ + plural_spec(roots, "root task"@) + ")"@
    };
    seq![head] + if archived > roots {
        seq!["  Subtasks: "@ + int_dec(archived - roots)]
    } else {
        Seq::empty()
    } + seq!["  Size reduction: "@ + int_dec(reduction as int) + "%"@]
}

/// Reports an archiving of `archived` tasks under `roots` roots.
pub fn archive_summary(archived: usize, roots: usize, by_id: bool, dry_run: bool, reduction: usize) -> (r: Vec<String>)
    requires
        roots <= archived,
    ensures
        r.deep_view() == archive_report(archived as nat, roots as nat, by_id, dry_run, reduction as nat),
{
    let mut head = if dry_run {
        owned("Would archive")
    } else {
        owned("Archived")
    };
    push_str(&mut head, " ");
    push_str(&mut head, plural(archived, "task").as_str());
    if !by_id {
        push_str(&mut head, " (");
        push_str(&mut head, plural(roots, "root task").as_str());
        push_str(&mut head, ")");
    }
    let ghost verb = if dry_run {
        "Would archive"@
    } else {
        "Archived"@
    };
    assert(head@ =~= verb + " "@ + plural_spec(archived as nat, "task"@) + if by_id {
        Seq::empty()
    } else {
        " ("@ + plural_spec(roots as nat, "root task"@) + ")"@
    });
    let mut r: Vec<String> = Vec::new();
    r.push(head);
    let subtasks = archived - roots;
    if subtasks > 0 {
        r.push(cat2("  Subtasks: ", usize_text(subtasks).as_str()));
    }
    let mut last = cat2("  Size reduction: ", usize_text(reduction).as_str());
    push_str(&mut last, "%");
    r.push(last);
    assert(r.deep_view() =~= archive_report(archived as nat, roots as nat, by_id, dry_run, reduction as nat));
    r
}

} // verus!

verus! {

/// Starting a task puts it in progress: when `start_at` succeeds, the task
/// is open (even one that was completed is reopened), started at `now` and
/// updated at `now`; its other fields and every other task stay as they
/// were.
pub proof fn law_start_reopens(ts: Seq<TaskV>, id: Seq<char>, now: Seq<char>, fin: Seq<TaskV>)
    requires
        has_task(ts, id),
        fin == ts.update(crate::task::index_of(ts, id), started(task_of(ts, id), now)),
    ensures
        has_task(fin, id),
        !task_of(fin, id).completed,
        task_of(fin, id).started_at == Some(now),
        task_of(fin, id).updated_at == Some(now),
        crate::listing::in_progress(task_of(fin, id)),
        task_of(fin, id).id == id && task_of(fin, id).name == task_of(ts, id).name && task_of(fin, id).description
            == task_of(ts, id).description && task_of(fin, id).result == task_of(ts, id).result,
        fin.len() == ts.len(),
        forall|j: int| 0 <= j < ts.len() && ts[j].id != id ==> #[trigger] fin[j] == ts[j],
{
    let i = crate::task::index_of(ts, id);
    lemma_index_of(ts, id);
    assert forall|j: int| 0 <= j < ts.len() implies #[trigger] fin[j].id == ts[j].id by {}
    crate::relations::lemma_same_ids(ts, fin, id);
}

} // verus!

verus! {

/// An edit that succeeds sets what it was given: the edited task takes the
/// new name, description and priority where they are given, keeps them
/// where they are not, and is updated at `now`.
pub proof fn law_edit_sets_fields(
    ts: Seq<TaskV>,
    id: Seq<char>,
    parent: Option<Seq<char>>,
    adds: Seq<Seq<char>>,
    removes: Seq<Seq<char>>,
    name: Option<Seq<char>>,
    description: Option<Seq<char>>,
    priority: Option<i64>,
    commit: Option<JsonV>,
    now: Seq<char>,
)
    requires
        edit_outcome(ts, id, parent, adds, removes, name, description, priority, commit, now) is Some,
    ensures
        ({
            let fin = edit_outcome(ts, id, parent, adds, removes, name, description, priority, commit, now)->0;
            let t = task_of(fin, id);
            &&& has_task(fin, id)
            &&& t.id == id
            &&& description matches Some(d) ==> t.description == d
            &&& name matches Some(n) ==> t.name == n
            &&& priority matches Some(p) ==> t.priority == p
            &&& t.updated_at == Some(now)
        }),
{
    let fields = |t: TaskV| edited(t, name, description, priority, commit, now);
    let t1 = with_parent(ts, id, parent)->0;
    let t2 = blockers_added(t1, id, adds)->0;
    let t3 = blockers_removed(t2, id, removes)->0;
    assert(has_task(t3, id));
    lemma_index_of(t3, id);
    let k = crate::task::index_of(t3, id);
    let fin = t3.update(k, fields(task_of(t3, id)));
    assert(edit_outcome(ts, id, parent, adds, removes, name, description, priority, commit, now) == Some(fin));
    assert forall|j: int| 0 <= j < t3.len() implies #[trigger] fin[j].id == t3[j].id by {}
    crate::relations::lemma_same_ids(t3, fin, id);
}

} // verus!
