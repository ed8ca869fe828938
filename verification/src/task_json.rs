//! A task as a JSON value: the record as the store writes it, and the
//! enriched form `show --json` prints, with the task's place in the tree and
//! its links resolved.
use vstd::prelude::*;

use crate::json::{items_view, lemma_view_parts, members_insert, object_insert, Json, JsonV};
use crate::show::{
    ancestors, ancestors_exec, children_exec, children_of, existing, existing_exec, grandchildren_exec, grandchildren_of,
    open_only, open_only_exec, within,
};
use crate::task::{Task, TaskV};
use crate::text::{dec, int_dec, owned};

verus! {

/// A string, or `null` for none.
pub open spec fn str_or_null(o: Option<Seq<char>>) -> JsonV {
    match o {
        Some(s) => JsonV::Str(s),
        None => JsonV::Null,
    }
}

/// An array of strings.
pub open spec fn strs(v: Seq<Seq<char>>) -> JsonV {
    JsonV::Array(v.map_values(|s: Seq<char>| JsonV::Str(s)))
}

/// The member names of a task record, in order.
pub open spec fn task_keys() -> Seq<Seq<char>> {
    seq![
        "id"@,
        "parent_id"@,
        "name"@,
        "description"@,
        "priority"@,
        "completed"@,
        "result"@,
        "metadata"@,
        "created_at"@,
        "updated_at"@,
        "started_at"@,
        "completed_at"@,
        "blockedBy"@,
        "blocks"@,
        "children"@,
    ]
}

/// A task record as JSON: every field under its name (the blockers under
/// `blockedBy`), `null` for a missing value.
pub open spec fn task_json_spec(t: TaskV) -> JsonV {
    JsonV::Object(
        task_keys(),
        seq![
            JsonV::Str(t.id),
            str_or_null(t.parent_id),
            JsonV::Str(t.name),
            JsonV::Str(t.description),
            JsonV::Number(int_dec(t.priority as int)),
            JsonV::Bool(t.completed),
            str_or_null(t.result),
            match t.metadata {
                Some(m) => m,
                None => JsonV::Null,
            },
            str_or_null(t.created_at),
            str_or_null(t.updated_at),
            str_or_null(t.started_at),
            str_or_null(t.completed_at),
            strs(t.blocked_by),
            strs(t.blocks),
            strs(t.children),
        ],
    )
}

fn str_or_null_exec(o: &Option<String>) -> (r: Json)
    ensures
        r@ == str_or_null(crate::task::opt_view(*o)),
{
    match o {
        Some(s) => Json::Str(s.clone()),
        None => Json::Null,
    }
}

fn strs_exec(v: &Vec<String>) -> (r: Json)
    ensures
        r@ == strs(v.deep_view()),
{
    let mut items: Vec<Json> = Vec::new();
    let mut i: usize = 0;
    while i < v.len()
        invariant
            i <= v.len(),
            items_view(items@) == v.deep_view().take(i as int).map_values(|s: Seq<char>| JsonV::Str(s)),
        decreases v.len() - i,
    {
        let ghost before = items_view(items@);
        let item = Json::Str(v[i].clone());
        assert(item@ == JsonV::Str(v.deep_view()[i as int]));
        items.push(item);
        assert(items_view(items@) =~= before.push(JsonV::Str(v.deep_view()[i as int])));
        assert(items_view(items@) =~= v.deep_view().take(i + 1).map_values(|s: Seq<char>| JsonV::Str(s)));
        i = i + 1;
    }
    assert(v.deep_view().take(v.len() as int) =~= v.deep_view());
    let r = Json::Array(items);
    proof {
        lemma_view_parts(r);
    }
    r
}

fn task_members(task: &Task) -> (r: (Vec<String>, Vec<Json>))
    ensures
        r.0.len() == r.1.len(),
        JsonV::Object(r.0.deep_view(), items_view(r.1@)) == task_json_spec(task@),
{
    let mut keys: Vec<String> = Vec::new();
    let mut values: Vec<Json> = Vec::new();
    keys.push(owned("id"));
    values.push(Json::Str(task.id.clone()));
    keys.push(owned("parent_id"));
    values.push(str_or_null_exec(&task.parent_id));
    keys.push(owned("name"));
    values.push(Json::Str(task.name.clone()));
    keys.push(owned("description"));
    values.push(Json::Str(task.description.clone()));
    keys.push(owned("priority"));
    values.push(Json::Number(crate::text::i64_text(task.priority)));
    keys.push(owned("completed"));
    values.push(Json::Bool(task.completed));
    keys.push(owned("result"));
    values.push(str_or_null_exec(&task.result));
    keys.push(owned("metadata"));
    values.push(
        match &task.metadata {
            Some(m) => m.deep_copy(),
            None => Json::Null,
        },
    );
    keys.push(owned("created_at"));
    values.push(str_or_null_exec(&task.created_at));
    keys.push(owned("updated_at"));
    values.push(str_or_null_exec(&task.updated_at));
    keys.push(owned("started_at"));
    values.push(str_or_null_exec(&task.started_at));
    keys.push(owned("completed_at"));
    values.push(str_or_null_exec(&task.completed_at));
    keys.push(owned("blockedBy"));
    values.push(strs_exec(&task.blocked_by));
    keys.push(owned("blocks"));
    values.push(strs_exec(&task.blocks));
    keys.push(owned("children"));
    values.push(strs_exec(&task.children));
    assert(keys.deep_view() =~= task_keys());
    assert(items_view(values@) =~= task_json_spec(task@)->Object_1);
    (keys, values)
}

/// Writes a task record as JSON.
pub fn task_json(task: &Task) -> (r: Json)
    ensures
        r@ == task_json_spec(task@),
{
    let (keys, values) = task_members(task);
    let r = Json::Object(keys, values);
    proof {
        lemma_view_parts(r);
    }
    r
}

/// The short form of a linked task: id, name, completion.
pub open spec fn brief_spec(t: TaskV) -> JsonV {
    JsonV::Object(seq!["id"@, "name"@, "completed"@], seq![JsonV::Str(t.id), JsonV::Str(t.name), JsonV::Bool(t.completed)])
}

/// An ancestor in the enriched form: id and name, and its description when
/// expanded.
pub open spec fn ancestor_spec(t: TaskV, expand: bool) -> JsonV {
    if expand {
        JsonV::Object(
            seq!["id"@, "name"@, "description"@],
            seq![JsonV::Str(t.id), JsonV::Str(t.name), JsonV::Str(t.description)],
        )
    } else {
        JsonV::Object(seq!["id"@, "name"@], seq![JsonV::Str(t.id), JsonV::Str(t.name)])
    }
}

/// How many of the tasks at `ps` are open.
pub open spec fn pending_count(ts: Seq<TaskV>, ps: Seq<usize>) -> nat
    decreases ps.len(),
{
    if ps.len() == 0 {
        0
    } else {
        pending_count(ts, ps.drop_last()) + if ts[ps.last() as int].completed {
            0nat
        } else {
            1nat
        }
    }
}

/// The form of each task at `ps`: 0 records, 1 short forms, 2 ancestors,
/// 3 expanded ancestors.
pub open spec fn form(t: TaskV, kind: u8) -> JsonV {
    if kind == 0 {
        task_json_spec(t)
    } else if kind == 1 {
        brief_spec(t)
    } else {
        ancestor_spec(t, kind == 3)
    }
}

/// The tasks at `ps`, each in the given form, as an array.
pub open spec fn forms(ts: Seq<TaskV>, ps: Seq<usize>, kind: u8) -> JsonV {
    JsonV::Array(ps.map_values(|p: usize| form(ts[p as int], kind)))
}

/// The counts of the tasks at `ps` and the tasks themselves under `key`.
pub open spec fn counted(ts: Seq<TaskV>, ps: Seq<usize>, key: Seq<char>) -> JsonV {
    JsonV::Object(
        seq!["pending"@, "completed"@, key],
        seq![
            JsonV::Number(dec(pending_count(ts, ps))),
            JsonV::Number(dec((ps.len() - pending_count(ts, ps)) as nat)),
            forms(ts, ps, 0),
        ],
    )
}

/// Members set one after the other on an object's members.
pub open spec fn set_all(m: (Seq<Seq<char>>, Seq<JsonV>), keys: Seq<Seq<char>>, values: Seq<JsonV>) -> (Seq<Seq<char>>, Seq<JsonV>)
    decreases keys.len(),
{
    if keys.len() == 0 || keys.len() != values.len() {
        m
    } else {
        let before = set_all(m, keys.drop_last(), values.drop_last());
        members_insert(before.0, before.1, keys.last(), values.last())
    }
}

/// The enriched form of a task: its record with these members set:
/// `ancestors` (root first), `depth`, `subtasks` (counts and records of its
/// children), `grandchildren` (likewise, `null` when none), `blockedBy` and
/// `blocks` (short forms of the open blockers and of the blocked tasks), and
/// `isBlocked`.
pub open spec fn enriched_spec(ts: Seq<TaskV>, t: TaskV, expand: bool) -> JsonV {
    let anc = ancestors(ts, t);
    let kids = children_of(ts, t);
    let grand = grandchildren_of(ts, kids);
    let open = open_only(ts, existing(ts, t.blocked_by));
    let blocks = existing(ts, t.blocks);
    let base = task_json_spec(t);
    let m = set_all(
        (base->Object_0, base->Object_1),
        seq!["ancestors"@, "depth"@, "subtasks"@, "grandchildren"@, "blockedBy"@, "blocks"@, "isBlocked"@],
        seq![
            forms(
                ts,
                anc,
                if expand {
                    3u8
                } else {
                    2u8
                },
            ),
            JsonV::Number(dec(anc.len())),
            counted(ts, kids, "children"@),
            if grand.len() == 0 {
                JsonV::Null
            } else {
                counted(ts, grand, "tasks"@)
            },
            forms(ts, open, 1),
            forms(ts, blocks, 1),
            JsonV::Bool(open.len() > 0),
        ],
    );
    JsonV::Object(m.0, m.1)
}

fn form_exec(t: &Task, kind: u8) -> (r: Json)
    ensures
        r@ == form(t@, kind),
{
    if kind == 0 {
        return task_json(t);
    }
    let mut keys: Vec<String> = Vec::new();
    let mut values: Vec<Json> = Vec::new();
    keys.push(owned("id"));
    values.push(Json::Str(t.id.clone()));
    keys.push(owned("name"));
    values.push(Json::Str(t.name.clone()));
    if kind == 1 {
        keys.push(owned("completed"));
        values.push(Json::Bool(t.completed));
    } else if kind == 3 {
        keys.push(owned("description"));
        values.push(Json::Str(t.description.clone()));
    }
    assert(keys.deep_view() =~= form(t@, kind)->Object_0);
    assert(items_view(values@) =~= form(t@, kind)->Object_1);
    let r = Json::Object(keys, values);
    proof {
        lemma_view_parts(r);
    }
    r
}

fn forms_exec(tasks: &Vec<Task>, ps: &Vec<usize>, kind: u8) -> (r: Json)
    requires
        within(tasks.deep_view(), ps@),
    ensures
        r@ == forms(tasks.deep_view(), ps@, kind),
{
    let ghost ts = tasks.deep_view();
    let mut items: Vec<Json> = Vec::new();
    let mut i: usize = 0;
    while i < ps.len()
        invariant
            i <= ps.len(),
            ts == tasks.deep_view(),
            within(ts, ps@),
            items_view(items@) == ps@.take(i as int).map_values(|p: usize| form(ts[p as int], kind)),
        decreases ps.len() - i,
    {
        assert(ps@[i as int] < ts.len());
        let t = &tasks[ps[i]];
        assert(t@ == ts[ps@[i as int] as int]);
        let ghost before = items_view(items@);
        let item = form_exec(t, kind);
        items.push(item);
        assert(items_view(items@) =~= before.push(form(ts[ps@[i as int] as int], kind)));
        assert(items_view(items@) =~= ps@.take(i + 1).map_values(|p: usize| form(ts[p as int], kind)));
        i = i + 1;
    }
    assert(ps@.take(ps.len() as int) =~= ps@);
    let r = Json::Array(items);
    proof {
        lemma_view_parts(r);
    }
    r
}

fn pending_exec(tasks: &Vec<Task>, ps: &Vec<usize>) -> (r: usize)
    requires
        within(tasks.deep_view(), ps@),
    ensures
        r == pending_count(tasks.deep_view(), ps@),
        r <= ps.len(),
{
    let ghost ts = tasks.deep_view();
    let mut n: usize = 0;
    let mut i: usize = 0;
    while i < ps.len()
        invariant
            i <= ps.len(),
            ts == tasks.deep_view(),
            within(ts, ps@),
            n <= i,
            n == pending_count(ts, ps@.take(i as int)),
        decreases ps.len() - i,
    {
        assert(ps@.take(i + 1).drop_last() =~= ps@.take(i as int));
        assert(ps@[i as int] < ts.len());
        assert(tasks@[ps@[i as int] as int]@ == ts[ps@[i as int] as int]);
        if !tasks[ps[i]].completed {
            n = n + 1;
        }
        i = i + 1;
    }
    assert(ps@.take(ps.len() as int) =~= ps@);
    n
}

fn counted_exec(tasks: &Vec<Task>, ps: &Vec<usize>, key: &str) -> (r: Json)
    requires
        within(tasks.deep_view(), ps@),
    ensures
        r@ == counted(tasks.deep_view(), ps@, key@),
{
    let p = pending_exec(tasks, ps);
    let mut keys: Vec<String> = Vec::new();
    let mut values: Vec<Json> = Vec::new();
    keys.push(owned("pending"));
    values.push(Json::Number(crate::text::usize_text(p)));
    keys.push(owned("completed"));
    values.push(Json::Number(crate::text::usize_text(ps.len() - p)));
    keys.push(owned(key));
    values.push(forms_exec(tasks, ps, 0));
    assert(keys.deep_view() =~= counted(tasks.deep_view(), ps@, key@)->Object_0);
    assert(items_view(values@) =~= counted(tasks.deep_view(), ps@, key@)->Object_1);
    let r = Json::Object(keys, values);
    proof {
        lemma_view_parts(r);
    }
    r
}

proof fn lemma_set_all_step(
    m: (Seq<Seq<char>>, Seq<JsonV>),
    keys: Seq<Seq<char>>,
    values: Seq<JsonV>,
    k: Seq<char>,
    v: JsonV,
)
    requires
        keys.len() == values.len(),
    ensures
        set_all(m, keys.push(k), values.push(v)) == members_insert(set_all(m, keys, values).0, set_all(m, keys, values).1, k, v),
{
    assert(keys.push(k).drop_last() =~= keys);
    assert(values.push(v).drop_last() =~= values);
}

/// The enriched form of a task, as `show --json` prints it.
pub fn enriched_json(tasks: &Vec<Task>, task: &Task, expand: bool) -> (r: Json)
    ensures
        r@ == enriched_spec(tasks.deep_view(), task@, expand),
{
    let ghost ts = tasks.deep_view();
    let anc = ancestors_exec(tasks, task);
    let kids = children_exec(tasks, task);
    let grand = grandchildren_exec(tasks, &kids);
    let blockers = existing_exec(tasks, &task.blocked_by);
    let open = open_only_exec(tasks, &blockers);
    let blocks = existing_exec(tasks, &task.blocks);
    let (mut keys, mut values) = task_members(task);
    let ghost m0 = (keys.deep_view(), items_view(values@));
    let ghost ks: Seq<Seq<char>> = Seq::empty();
    let ghost vs: Seq<JsonV> = Seq::empty();
    assert(set_all(m0, ks, vs) == m0);
    let a = forms_exec(tasks, &anc, if expand { 3 } else { 2 });
    proof {
        lemma_set_all_step(m0, ks, vs, "ancestors"@, a@);
    }
    let ghost ks = ks.push("ancestors"@);
    let ghost vs = vs.push(a@);
    object_insert(&mut keys, &mut values, owned("ancestors"), a);
    let d = Json::Number(crate::text::usize_text(anc.len()));
    proof {
        lemma_set_all_step(m0, ks, vs, "depth"@, d@);
    }
    let ghost ks = ks.push("depth"@);
    let ghost vs = vs.push(d@);
    object_insert(&mut keys, &mut values, owned("depth"), d);
    let s = counted_exec(tasks, &kids, "children");
    proof {
        lemma_set_all_step(m0, ks, vs, "subtasks"@, s@);
    }
    let ghost ks = ks.push("subtasks"@);
    let ghost vs = vs.push(s@);
    object_insert(&mut keys, &mut values, owned("subtasks"), s);
    let g = if grand.len() == 0 {
        Json::Null
    } else {
        counted_exec(tasks, &grand, "tasks")
    };
    proof {
        lemma_set_all_step(m0, ks, vs, "grandchildren"@, g@);
    }
    let ghost ks = ks.push("grandchildren"@);
    let ghost vs = vs.push(g@);
    object_insert(&mut keys, &mut values, owned("grandchildren"), g);
    let b = forms_exec(tasks, &open, 1);
    proof {
        lemma_set_all_step(m0, ks, vs, "blockedBy"@, b@);
    }
    let ghost ks = ks.push("blockedBy"@);
    let ghost vs = vs.push(b@);
    object_insert(&mut keys, &mut values, owned("blockedBy"), b);
    let c = forms_exec(tasks, &blocks, 1);
    proof {
        lemma_set_all_step(m0, ks, vs, "blocks"@, c@);
    }
    let ghost ks = ks.push("blocks"@);
    let ghost vs = vs.push(c@);
    object_insert(&mut keys, &mut values, owned("blocks"), c);
    let e = Json::Bool(open.len() > 0);
    proof {
        lemma_set_all_step(m0, ks, vs, "isBlocked"@, e@);
    }
    let ghost ks = ks.push("isBlocked"@);
    let ghost vs = vs.push(e@);
    object_insert(&mut keys, &mut values, owned("isBlocked"), e);
    assert(ks =~= seq!["ancestors"@, "depth"@, "subtasks"@, "grandchildren"@, "blockedBy"@, "blocks"@, "isBlocked"@]);
    assert(vs =~= seq![a@, d@, s@, g@, b@, c@, e@]);
    assert((keys.deep_view(), items_view(values@)) == set_all(m0, ks, vs));
    let r = Json::Object(keys, values);
    proof {
        lemma_view_parts(r);
    }
    r
}

} // verus!
