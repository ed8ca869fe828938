//! The `show` card of a task: its place in the tree, its links, its texts,
//! its commit and issue, and its times.
use vstd::prelude::*;

use crate::json::{json_get, json_str, compact_text, json_at, Json, JsonV};
use crate::listing::{find, icon, status_icon};
use crate::sort::{sort_order, stable_order, KeyV, SortKey};
use crate::task::{has_task, index_of, lemma_index_of, Task, TaskV, DEFAULT_PRIORITY};
use crate::text::{cat2, chars_of, dec, int_dec, lines, lines_of, owned, push_char, push_str, string_of, usize_text};

verus! {

/// How many characters of a description or result the card shows.
pub const TEXT_MAX: usize = 300;

/// How many characters of a name the tree shows.
pub const TREE_NAME_MAX: usize = 50;

/// `text` cut to `max` characters, the last three replaced by `...`, when
/// it is longer.
pub open spec fn truncated(text: Seq<char>, max: nat) -> Seq<char> {
    if text.len() <= max {
        text
    } else {
        text.take(if max >= 3 {
            max - 3
        } else {
            0
        }) + "..."@
    }
}

/// Cuts a text to at most `max` characters, marking the cut with `...`.
pub fn truncate(text: &str, max: usize) -> (r: String)
    ensures
        r@ == truncated(text@, max as nat),
{
    let x = chars_of(text);
    if x.len() <= max {
        return owned(text);
    }
    let keep = if max >= 3 {
        max - 3
    } else {
        0
    };
    let mut r = string_of(&x[0..keep]);
    push_str(&mut r, "...");
    assert(x@.subrange(0, keep as int) =~= x@.take(keep as int));
    r
}

/// How many subtasks a tree line mentions.
pub open spec fn subtasks_note(n: nat) -> Seq<char> {
    if n == 0 {
        Seq::empty()
    } else if n == 1 {
        " (1 subtask)"@
    } else {
        " ("@ + dec(n) + " subtasks)"@
    }
}

/// A line of the card's tree.
pub open spec fn tree_line_text(t: TaskV, n: nat) -> Seq<char> {
    icon(t) + " "@ + t.id + ": "@ + truncated(t.name, TREE_NAME_MAX as nat) + subtasks_note(n)
}

fn tree_line(task: &Task, count: usize) -> (r: String)
    ensures
        r@ == tree_line_text(task@, count as nat),
{
    let mut line = cat2(status_icon(task), " ");
    push_str(&mut line, task.id.as_str());
    push_str(&mut line, ": ");
    let name = truncate(task.name.as_str(), TREE_NAME_MAX);
    push_str(&mut line, name.as_str());
    if count == 1 {
        push_str(&mut line, " (1 subtask)");
    } else if count > 1 {
        push_str(&mut line, " (");
        push_str(&mut line, usize_text(count).as_str());
        push_str(&mut line, " subtasks)");
    }
    assert(line@ =~= tree_line_text(task@, count as nat));
    line
}

/// Each line indented by two spaces.
pub open spec fn indented(ls: Seq<Seq<char>>) -> Seq<char>
    decreases ls.len(),
{
    if ls.len() == 0 {
        Seq::empty()
    } else {
        indented(ls.drop_last()) + "  "@ + ls.last() + "\n"@
    }
}

/// Whether the card cuts a text.
pub open spec fn cut(text: Seq<char>, full: bool) -> bool {
    !full && text.len() > TEXT_MAX
}

/// A description or result as the card shows it: cut unless `full`, each
/// line indented, an empty text as an empty line.
#[verifier::opaque]
pub open spec fn text_block(text: Seq<char>, full: bool) -> Seq<char> {
    let shown = if cut(text, full) {
        truncated(text, TEXT_MAX as nat)
    } else {
        text
    };
    (if shown.len() == 0 {
        "\n"@
    } else {
        Seq::empty()
    }) + indented(lines_of(shown))
}

/// Appends a text block; returns whether the text was cut.
fn push_text(out: &mut String, text: &str, full: bool) -> (r: bool)
    ensures
        r == cut(text@, full),
        final(out)@ == old(out)@ + text_block(text@, full),
{
    let n = chars_of(text).len();
    let truncated = !full && n > TEXT_MAX;
    let shown = if truncated {
        truncate(text, TEXT_MAX)
    } else {
        owned(text)
    };
    if chars_of(shown.as_str()).len() == 0 {
        push_str(out, "\n");
    }
    let ghost start = out@;
    let ls = lines(shown.as_str());
    let ghost lv = ls@.map_values(|l: String| l@);
    let mut k: usize = 0;
    while k < ls.len()
        invariant
            k <= ls.len(),
            lv == ls@.map_values(|l: String| l@),
            out@ == start + indented(lv.take(k as int)),
        decreases ls.len() - k,
    {
        assert(lv.take(k + 1).drop_last() =~= lv.take(k as int));
        push_str(out, "  ");
        push_str(out, ls[k].as_str());
        push_str(out, "\n");
        k = k + 1;
    }
    assert(lv.take(ls.len() as int) =~= lv);
    reveal(text_block);
    assert(out@ =~= old(out)@ + text_block(text@, full));
    truncated
}

/// `label value` on a line of its own, or nothing.
pub open spec fn stamp_text(label: Seq<char>, v: Option<Seq<char>>) -> Seq<char> {
    match v {
        Some(x) => label + " "@ + x + "\n"@,
        None => Seq::empty(),
    }
}

fn push_timestamp(out: &mut String, label: &str, value: &Option<String>)
    ensures
        final(out)@ == old(out)@ + stamp_text(label@, crate::task::opt_view(*value)),
{
    match value {
        Some(v) => {
            push_str(out, label);
            push_str(out, " ");
            push_str(out, v.as_str());
            push_str(out, "\n");
        },
        None => {},
    }
    assert(out@ =~= old(out)@ + stamp_text(label@, crate::task::opt_view(*value)));
}

/// A member of a metadata object as the card prints it: a string as is,
/// nothing for null or a missing member, other values as JSON.
pub open spec fn field_text(v: JsonV, key: Seq<char>) -> Seq<char> {
    match json_get(v, key) {
        Some(JsonV::Str(t)) => t,
        Some(JsonV::Null) => Seq::empty(),
        None => Seq::empty(),
        Some(o) => compact_text(o),
    }
}

/// The text of a member of a metadata object.
pub fn text(value: &Json, key: &str) -> (r: String)
    ensures
        r@ == field_text(value@, key@),
{
    match value.get(key) {
        Some(Json::Str(t)) => t.clone(),
        Some(Json::Null) => String::new(),
        None => String::new(),
        Some(other) => crate::json::compact(other),
    }
}

/// A member of a task's metadata.
pub open spec fn meta_get(t: TaskV, key: Seq<char>) -> Option<JsonV> {
    match t.metadata {
        Some(m) => json_get(m, key),
        None => None,
    }
}

fn meta<'a>(task: &'a Task, key: &str) -> (r: Option<&'a Json>)
    ensures
        match r {
            Some(v) => meta_get(task@, key@) == Some(v@),
            None => meta_get(task@, key@) is None,
        },
{
    match &task.metadata {
        Some(m) => m.get(key),
        None => None,
    }
}

/// The positions of the ancestors of a task whose parent is `p`, nearest
/// first, following at most `fuel` links.
pub open spec fn anc_near(ts: Seq<TaskV>, p: Option<Seq<char>>, fuel: nat) -> Seq<usize>
    decreases fuel,
{
    if fuel == 0 {
        Seq::empty()
    } else {
        match p {
            None => Seq::empty(),
            Some(id) => if has_task(ts, id) {
                seq![index_of(ts, id) as usize] + anc_near(ts, ts[index_of(ts, id)].parent_id, (fuel - 1) as nat)
            } else {
                Seq::empty()
            },
        }
    }
}

/// The positions of the ancestors of `t`, the root first.
pub open spec fn ancestors(ts: Seq<TaskV>, t: TaskV) -> Seq<usize> {
    anc_near(ts, t.parent_id, ts.len()).reverse()
}

/// The positions of the tasks named in `ids`, in order, skipping missing ones.
pub open spec fn existing(ts: Seq<TaskV>, ids: Seq<Seq<char>>) -> Seq<usize>
    decreases ids.len(),
{
    if ids.len() == 0 {
        Seq::empty()
    } else if has_task(ts, ids.last()) {
        existing(ts, ids.drop_last()).push(index_of(ts, ids.last()) as usize)
    } else {
        existing(ts, ids.drop_last())
    }
}

/// The order of children on the card: by priority, open ones first.
pub open spec fn child_key(t: TaskV) -> KeyV {
    KeyV {
        major: t.priority,
        minor: if t.completed {
            1
        } else {
            0
        },
        text: Seq::empty(),
    }
}

/// The positions of a task's children, in card order.
pub open spec fn children_of(ts: Seq<TaskV>, t: TaskV) -> Seq<usize> {
    let kids = existing(ts, t.children);
    stable_order(kids.map_values(|p: usize| child_key(ts[p as int])), false).map_values(|k: usize| kids[k as int])
}

/// The positions of the children of the tasks at `kids`, in order.
pub open spec fn grandchildren_of(ts: Seq<TaskV>, kids: Seq<usize>) -> Seq<usize>
    decreases kids.len(),
{
    if kids.len() == 0 {
        Seq::empty()
    } else {
        grandchildren_of(ts, kids.drop_last()) + existing(ts, ts[kids.last() as int].children)
    }
}

/// The positions in `ps` of open tasks, in order.
pub open spec fn open_only(ts: Seq<TaskV>, ps: Seq<usize>) -> Seq<usize>
    decreases ps.len(),
{
    if ps.len() == 0 {
        Seq::empty()
    } else if !ts[ps.last() as int].completed {
        open_only(ts, ps.drop_last()).push(ps.last())
    } else {
        open_only(ts, ps.drop_last())
    }
}

/// How many of the tasks at `ps` name `id` as their parent.
pub open spec fn count_children(ts: Seq<TaskV>, ps: Seq<usize>, id: Seq<char>) -> nat
    decreases ps.len(),
{
    if ps.len() == 0 {
        0
    } else {
        count_children(ts, ps.drop_last(), id) + if ts[ps.last() as int].parent_id == Some(id) {
            1nat
        } else {
            0nat
        }
    }
}

/// Every position in `ps` is a position of `ts`.
pub open spec fn within(ts: Seq<TaskV>, ps: Seq<usize>) -> bool {
    forall|k: int| 0 <= k < ps.len() ==> #[trigger] ps[k] < ts.len()
}

/// The positions of the tasks named in `ids`.
pub(crate) fn existing_exec(tasks: &Vec<Task>, ids: &Vec<String>) -> (r: Vec<usize>)
    ensures
        r@ == existing(tasks.deep_view(), ids.deep_view()),
        within(tasks.deep_view(), r@),
{
    let ghost ts = tasks.deep_view();
    let ghost l = ids.deep_view();
    let mut r: Vec<usize> = Vec::new();
    let mut i: usize = 0;
    while i < ids.len()
        invariant
            i <= ids.len(),
            ts == tasks.deep_view(),
            l == ids.deep_view(),
            r@ == existing(ts, l.take(i as int)),
            within(ts, r@),
        decreases ids.len() - i,
    {
        assert(l.take(i + 1).drop_last() =~= l.take(i as int));
        assert(l.take(i + 1).last() == ids[i as int]@);
        if let Some(p) = find(tasks, ids[i].as_str()) {
            r.push(p);
        }
        i = i + 1;
    }
    assert(l.take(ids.len() as int) =~= l);
    r
}

/// The ancestors of a task, the root first.
pub(crate) fn ancestors_exec(tasks: &Vec<Task>, task: &Task) -> (r: Vec<usize>)
    ensures
        r@ == ancestors(tasks.deep_view(), task@),
        within(tasks.deep_view(), r@),
{
    let ghost ts = tasks.deep_view();
    let mut near: Vec<usize> = Vec::new();
    let mut current = crate::text::copy_opt(&task.parent_id);
    let mut fuel: usize = tasks.len();
    loop
        invariant
            ts == tasks.deep_view(),
            fuel <= tasks.len(),
            near@ + anc_near(ts, crate::task::opt_view(current), fuel as nat) == anc_near(ts, task@.parent_id, ts.len()),
            within(ts, near@),
        ensures
            near@ + anc_near(ts, crate::task::opt_view(current), fuel as nat) == anc_near(ts, task@.parent_id, ts.len()),
            anc_near(ts, crate::task::opt_view(current), fuel as nat) == Seq::<usize>::empty(),
            within(ts, near@),
        decreases fuel,
    {
        if fuel == 0 {
            break;
        }
        let p = match &current {
            None => {
                break;
            },
            Some(p) => p.clone(),
        };
        match find(tasks, p.as_str()) {
            None => {
                break;
            },
            Some(i) => {
                assert(tasks@[i as int]@ == ts[i as int]);
                let ghost before = near@;
                near.push(i);
                current = crate::text::copy_opt(&tasks[i].parent_id);
                fuel = fuel - 1;
                proof {
                    let rest = anc_near(ts, crate::task::opt_view(current), fuel as nat);
                    assert(near@ + rest =~= before + (seq![i] + rest));
                }
            },
        }
    }
    proof {
        assert(near@ + Seq::<usize>::empty() =~= near@);
    }
    let mut r: Vec<usize> = Vec::new();
    let mut k: usize = near.len();
    while k > 0
        invariant
            k <= near.len(),
            r@ == near@.skip(k as int).reverse(),
            within(ts, near@),
            within(ts, r@),
        decreases k,
    {
        k = k - 1;
        let ghost before = r@;
        r.push(near[k]);
        assert(r@ =~= near@.skip(k as int).reverse());
    }
    assert(near@.skip(0) =~= near@);
    r
}

/// A task's children in card order.
pub(crate) fn children_exec(tasks: &Vec<Task>, task: &Task) -> (r: Vec<usize>)
    ensures
        r@ == children_of(tasks.deep_view(), task@),
        within(tasks.deep_view(), r@),
{
    let ghost ts = tasks.deep_view();
    let kids = existing_exec(tasks, &task.children);
    let mut keys: Vec<SortKey> = Vec::new();
    let mut i: usize = 0;
    while i < kids.len()
        invariant
            i <= kids.len(),
            ts == tasks.deep_view(),
            within(ts, kids@),
            keys.len() == i,
            forall|k: int| 0 <= k < i ==> #[trigger] keys@[k]@ == child_key(ts[kids@[k] as int]),
        decreases kids.len() - i,
    {
        let t = &tasks[kids[i]];
        assert(t@ == ts[kids@[i as int] as int]);
        keys.push(SortKey { major: t.priority, minor: if t.completed { 1 } else { 0 }, text: Vec::new() });
        assert(keys@[i as int]@.text =~= Seq::<char>::empty());
        i = i + 1;
    }
    let order = sort_order(&keys, false);
    let ghost kv = keys@.map_values(|k: SortKey| k@);
    assert(kv =~= kids@.map_values(|p: usize| child_key(ts[p as int])));
    proof {
        crate::sort::lemma_stable_order(order@, kv, false);
    }
    let mut r: Vec<usize> = Vec::new();
    let mut j: usize = 0;
    while j < order.len()
        invariant
            j <= order.len(),
            order.len() == kids.len(),
            within(ts, kids@),
            crate::sort::sorted_permutation(order@, kv, false),
            r@ == order@.take(j as int).map_values(|k: usize| kids@[k as int]),
            within(ts, r@),
        decreases order.len() - j,
    {
        assert(order@[j as int] < kids.len());
        r.push(kids[order[j]]);
        assert(r@ =~= order@.take(j + 1).map_values(|k: usize| kids@[k as int]));
        j = j + 1;
    }
    assert(order@.take(order.len() as int) =~= order@);
    r
}

/// The children of the tasks at `kids`.
pub(crate) fn grandchildren_exec(tasks: &Vec<Task>, kids: &Vec<usize>) -> (r: Vec<usize>)
    requires
        within(tasks.deep_view(), kids@),
    ensures
        r@ == grandchildren_of(tasks.deep_view(), kids@),
        within(tasks.deep_view(), r@),
{
    let ghost ts = tasks.deep_view();
    let mut r: Vec<usize> = Vec::new();
    let mut i: usize = 0;
    while i < kids.len()
        invariant
            i <= kids.len(),
            ts == tasks.deep_view(),
            within(ts, kids@),
            r@ == grandchildren_of(ts, kids@.take(i as int)),
            within(ts, r@),
        decreases kids.len() - i,
    {
        assert(kids@.take(i + 1).drop_last() =~= kids@.take(i as int));
        assert(tasks@[kids@[i as int] as int]@ == ts[kids@[i as int] as int]);
        let more = existing_exec(tasks, &tasks[kids[i]].children);
        let mut k: usize = 0;
        let ghost before = r@;
        while k < more.len()
            invariant
                k <= more.len(),
                within(ts, more@),
                within(ts, before),
                r@ == before + more@.take(k as int),
                within(ts, r@),
            decreases more.len() - k,
        {
            r.push(more[k]);
            assert(r@ =~= before + more@.take(k + 1));
            k = k + 1;
        }
        assert(more@.take(more.len() as int) =~= more@);
        i = i + 1;
    }
    assert(kids@.take(kids.len() as int) =~= kids@);
    r
}

/// The open tasks among `ps`.
pub(crate) fn open_only_exec(tasks: &Vec<Task>, ps: &Vec<usize>) -> (r: Vec<usize>)
    requires
        within(tasks.deep_view(), ps@),
    ensures
        r@ == open_only(tasks.deep_view(), ps@),
        within(tasks.deep_view(), r@),
{
    let ghost ts = tasks.deep_view();
    let mut r: Vec<usize> = Vec::new();
    let mut i: usize = 0;
    while i < ps.len()
        invariant
            i <= ps.len(),
            ts == tasks.deep_view(),
            within(ts, ps@),
            r@ == open_only(ts, ps@.take(i as int)),
            within(ts, r@),
        decreases ps.len() - i,
    {
        assert(ps@.take(i + 1).drop_last() =~= ps@.take(i as int));
        assert(tasks@[ps@[i as int] as int]@ == ts[ps@[i as int] as int]);
        if !tasks[ps[i]].completed {
            r.push(ps[i]);
        }
        i = i + 1;
    }
    assert(ps@.take(ps.len() as int) =~= ps@);
    r
}

/// How many of the tasks at `ps` have `id` as parent.
fn count_children_exec(tasks: &Vec<Task>, ps: &Vec<usize>, id: &str) -> (r: usize)
    requires
        within(tasks.deep_view(), ps@),
    ensures
        r == count_children(tasks.deep_view(), ps@, id@),
{
    let ghost ts = tasks.deep_view();
    let mut n: usize = 0;
    let mut i: usize = 0;
    while i < ps.len()
        invariant
            i <= ps.len(),
            ts == tasks.deep_view(),
            within(ts, ps@),
            n == count_children(ts, ps@.take(i as int), id@),
            n <= i,
        decreases ps.len() - i,
    {
        assert(ps@.take(i + 1).drop_last() =~= ps@.take(i as int));
        assert(tasks@[ps@[i as int] as int]@ == ts[ps@[i as int] as int]);
        let hit = match &tasks[ps[i]].parent_id {
            Some(p) => crate::text::str_eq(p.as_str(), id),
            None => false,
        };
        if hit {
            n = n + 1;
        }
        i = i + 1;
    }
    assert(ps@.take(ps.len() as int) =~= ps@);
    n
}

/// The related tasks a card lists under a title, or nothing.
pub open spec fn related_lines(ts: Seq<TaskV>, ps: Seq<usize>) -> Seq<char>
    decreases ps.len(),
{
    if ps.len() == 0 {
        Seq::empty()
    } else {
        related_lines(ts, ps.drop_last()) + "  • "@ + ts[ps.last() as int].id + ": "@ + truncated(
            ts[ps.last() as int].name,
            50,
        ) + "\n"@
    }
}

/// A titled list of related tasks, left out when empty.
#[verifier::opaque]
pub open spec fn related_text(ts: Seq<TaskV>, title: Seq<char>, ps: Seq<usize>) -> Seq<char> {
    if ps.len() == 0 {
        Seq::empty()
    } else {
        title + ":\n"@ + related_lines(ts, ps) + "\n"@
    }
}

fn push_related(out: &mut String, title: &str, tasks: &Vec<Task>, ps: &Vec<usize>)
    requires
        within(tasks.deep_view(), ps@),
    ensures
        final(out)@ == old(out)@ + related_text(tasks.deep_view(), title@, ps@),
{
    let ghost ts = tasks.deep_view();
    reveal(related_text);
    if ps.len() == 0 {
        assert(old(out)@ + Seq::<char>::empty() =~= old(out)@);
        return;
    }
    push_str(out, title);
    push_str(out, ":\n");
    let ghost start = out@;
    let mut i: usize = 0;
    while i < ps.len()
        invariant
            i <= ps.len(),
            ts == tasks.deep_view(),
            within(ts, ps@),
            out@ == start + related_lines(ts, ps@.take(i as int)),
        decreases ps.len() - i,
    {
        assert(ps@.take(i + 1).drop_last() =~= ps@.take(i as int));
        let t = &tasks[ps[i]];
        assert(t@ == ts[ps@[i as int] as int]);
        push_str(out, "  • ");
        push_str(out, t.id.as_str());
        push_str(out, ": ");
        let name = truncate(t.name.as_str(), 50);
        push_str(out, name.as_str());
        push_str(out, "\n");
        i = i + 1;
    }
    assert(ps@.take(ps.len() as int) =~= ps@);
    push_str(out, "\n");
    assert(out@ =~= old(out)@ + related_text(ts, title@, ps@));
}

/// `n` indentation steps of four spaces.
pub open spec fn steps(n: nat) -> Seq<char>
    decreases n,
{
    if n == 0 {
        Seq::empty()
    } else {
        steps((n - 1) as nat) + "    "@
    }
}

fn steps_exec(n: usize) -> (r: String)
    ensures
        r@ == steps(n as nat),
{
    let mut r = String::new();
    let mut i: usize = 0;
    while i < n
        invariant
            i <= n,
            r@ == steps(i as nat),
        decreases n - i,
    {
        push_str(&mut r, "    ");
        i = i + 1;
    }
    r
}

/// The line of the ancestor at depth `d` (0 is the root), and its
/// description below it when expanded.
pub open spec fn ancestor_entry(a: TaskV, d: nat, expand: bool) -> Seq<char> {
    let indent = if d == 0 {
        Seq::empty()
    } else {
        steps((d - 1) as nat)
    };
    indent + (if d == 0 {
        Seq::empty()
    } else {
        "└── "@
    }) + tree_line_text(a, 0) + "\n"@ + (if expand && a.description.len() > 0 {
        indent + (if d == 0 {
            Seq::empty()
        } else {
            "    "@
        }) + "      "@ + truncated(a.description, TEXT_MAX as nat) + "\n"@
    } else {
        Seq::empty()
    })
}

/// The lines of the first `m` ancestors.
pub open spec fn ancestor_lines(ts: Seq<TaskV>, anc: Seq<usize>, expand: bool, m: int) -> Seq<char>
    decreases m,
{
    if m <= 0 {
        Seq::empty()
    } else {
        ancestor_lines(ts, anc, expand, m - 1) + ancestor_entry(ts[anc[m - 1] as int], (m - 1) as nat, expand)
    }
}

/// The indentation of the viewed task under `depth` ancestors.
pub open spec fn current_indent(depth: nat) -> Seq<char> {
    if depth > 1 {
        steps((depth - 1) as nat)
    } else {
        Seq::empty()
    }
}

/// The lines of the first `m` children, each with its number of children.
pub open spec fn child_lines(ts: Seq<TaskV>, kids: Seq<usize>, grand: Seq<usize>, indent: Seq<char>, m: int) -> Seq<char>
    decreases m,
{
    if m <= 0 {
        Seq::empty()
    } else {
        let c = ts[kids[m - 1] as int];
        child_lines(ts, kids, grand, indent, m - 1) + indent + (if m - 1 == kids.len() - 1 {
            "└── "@
        } else {
            "├── "@
        }) + tree_line_text(c, count_children(ts, grand, c.id)) + "\n"@
    }
}

/// The tree of the card from its parts: the ancestors, the viewed task, its
/// children.
#[verifier::opaque]
pub open spec fn view_tree_of(ts: Seq<TaskV>, t: TaskV, anc: Seq<usize>, kids: Seq<usize>, grand: Seq<usize>, expand: bool) -> Seq<char> {
    let depth = anc.len();
    ancestor_lines(ts, anc, expand, depth as int) + current_indent(depth) + (if depth > 0 {
        "└── "@
    } else {
        Seq::empty()
    }) + tree_line_text(t, kids.len()) + "  ← viewing\n"@ + child_lines(
        ts,
        kids,
        grand,
        if depth > 0 {
            current_indent(depth) + "    "@
        } else {
            Seq::empty()
        },
        kids.len() as int,
    )
}

/// The tree of the card.
pub open spec fn view_tree(ts: Seq<TaskV>, t: TaskV, expand: bool) -> Seq<char> {
    view_tree_of(ts, t, ancestors(ts, t), children_of(ts, t), grandchildren_of(ts, children_of(ts, t)), expand)
}

#[verifier::rlimit(100)]
fn push_ancestor(out: &mut String, a: &Task, d: usize, expand: bool)
    ensures
        final(out)@ == old(out)@ + ancestor_entry(a@, d as nat, expand),
{
    let indent = if d == 0 {
        String::new()
    } else {
        steps_exec(d - 1)
    };
    push_str(out, indent.as_str());
    if d > 0 {
        push_str(out, "└── ");
    }
    let line = tree_line(a, 0);
    push_str(out, line.as_str());
    push_str(out, "\n");
    if expand && chars_of(a.description.as_str()).len() > 0 {
        push_str(out, indent.as_str());
        if d > 0 {
            push_str(out, "    ");
        }
        push_str(out, "      ");
        let desc = truncate(a.description.as_str(), TEXT_MAX);
        push_str(out, desc.as_str());
        push_str(out, "\n");
    }
    assert(out@ =~= old(out)@ + ancestor_entry(a@, d as nat, expand));
}

fn push_child(out: &mut String, indent: &String, c: &Task, n: usize, last: bool)
    ensures
        final(out)@ == old(out)@ + indent@ + (if last {
            "└── "@
        } else {
            "├── "@
        }) + tree_line_text(c@, n as nat) + "\n"@,
{
    push_str(out, indent.as_str());
    if last {
        push_str(out, "└── ");
    } else {
        push_str(out, "├── ");
    }
    let line = tree_line(c, n);
    push_str(out, line.as_str());
    push_str(out, "\n");
}

/// The line of the viewed task under `depth` ancestors.
pub open spec fn viewing_line(depth: nat, t: TaskV, n: nat) -> Seq<char> {
    current_indent(depth) + (if depth > 0 {
        "└── "@
    } else {
        Seq::empty()
    }) + tree_line_text(t, n) + "  ← viewing\n"@
}

fn push_viewing(out: &mut String, cur: &String, depth: usize, task: &Task, n: usize)
    requires
        depth > 1 ==> cur@ == steps((depth - 1) as nat),
        depth <= 1 ==> cur@ == Seq::<char>::empty(),
    ensures
        final(out)@ == old(out)@ + viewing_line(depth as nat, task@, n as nat),
{
    push_str(out, cur.as_str());
    if depth > 0 {
        push_str(out, "└── ");
    }
    let line = tree_line(task, n);
    push_str(out, line.as_str());
    push_str(out, "  ← viewing\n");
    assert(out@ =~= old(out)@ + viewing_line(depth as nat, task@, n as nat));
}

#[verifier::spinoff_prover]
#[verifier::rlimit(100)]
fn render_view_tree(tasks: &Vec<Task>, task: &Task, anc: &Vec<usize>, kids: &Vec<usize>, grand: &Vec<usize>, expand: bool, out: &mut String)
    requires
        within(tasks.deep_view(), anc@),
        within(tasks.deep_view(), kids@),
        within(tasks.deep_view(), grand@),
    ensures
        final(out)@ == old(out)@ + view_tree_of(tasks.deep_view(), task@, anc@, kids@, grand@, expand),
{
    let ghost ts = tasks.deep_view();
    let ghost start = out@;
    let mut d: usize = 0;
    while d < anc.len()
        invariant
            d <= anc.len(),
            ts == tasks.deep_view(),
            within(ts, anc@),
            out@ == start + ancestor_lines(ts, anc@, expand, d as int),
        decreases anc.len() - d,
    {
        let a = &tasks[anc[d]];
        assert(a@ == ts[anc@[d as int] as int]);
        push_ancestor(out, a, d, expand);
        d = d + 1;
    }
    let depth = anc.len();
    let cur = if depth > 1 {
        steps_exec(depth - 1)
    } else {
        String::new()
    };
    let ghost mid = out@;
    push_viewing(out, &cur, depth, task, kids.len());
    let ghost x = viewing_line(depth as nat, task@, kids.len() as nat);
    let child_indent = if depth > 0 {
        cat2(cur.as_str(), "    ")
    } else {
        String::new()
    };
    assert(child_indent@ == (if depth > 0 {
        current_indent(depth as nat) + "    "@
    } else {
        Seq::<char>::empty()
    }));
    let ghost kstart = out@;
    let mut k: usize = 0;
    while k < kids.len()
        invariant
            k <= kids.len(),
            ts == tasks.deep_view(),
            within(ts, kids@),
            within(ts, grand@),
            out@ == kstart + child_lines(ts, kids@, grand@, child_indent@, k as int),
        decreases kids.len() - k,
    {
        let c = &tasks[kids[k]];
        assert(c@ == ts[kids@[k as int] as int]);
        let n = count_children_exec(tasks, grand, c.id.as_str());
        push_child(out, &child_indent, c, n, k == kids.len() - 1);
        k = k + 1;
    }
    let ghost a = ancestor_lines(ts, anc@, expand, depth as int);
    let ghost c = child_lines(ts, kids@, grand@, child_indent@, kids.len() as int);
    assert(mid == start + a);
    assert(out@ == kstart + c);
    reveal(view_tree_of);
    assert(x == current_indent(depth as nat) + (if depth > 0 {
        "└── "@
    } else {
        Seq::<char>::empty()
    }) + tree_line_text(task@, kids.len() as nat) + "  ← viewing\n"@);
    assert(view_tree_of(ts, task@, anc@, kids@, grand@, expand) == a + x + c);
    assert(out@ =~= old(out)@ + (a + x + c));
}

/// The first line of a card without a tree: marker, id, priority unless the
/// default, name.
pub open spec fn plain_head(t: TaskV) -> Seq<char> {
    icon(t) + " "@ + t.id + (if t.priority != DEFAULT_PRIORITY {
        " [p"@ + int_dec(t.priority as int) + "]"@
    } else {
        Seq::empty()
    }) + ": "@ + t.name + "\n\n"@
}

/// The commit section, from the `commit` member of the metadata.
#[verifier::opaque]
pub open spec fn commit_text(t: TaskV) -> Seq<char> {
    match meta_get(t, "commit"@) {
        None => Seq::empty(),
        Some(c) => "\nCommit:\n"@ + "  SHA:    "@ + field_text(c, "sha"@) + "\n"@ + (match json_str(json_at(c, "message"@)) {
            Some(m) => "  Message: "@ + m + "\n"@,
            None => Seq::empty(),
        }) + (match json_str(json_at(c, "branch"@)) {
            Some(b) => "  Branch:  "@ + b + "\n"@,
            None => Seq::empty(),
        }) + (match json_str(json_at(c, "url"@)) {
            Some(u) => "  URL:     "@ + u + "\n"@,
            None => Seq::empty(),
        }),
    }
}

/// The `github` member of the nearest of the ancestors at `near` (nearest
/// first) that has one.
pub open spec fn inherited_github(ts: Seq<TaskV>, near: Seq<usize>) -> Option<JsonV>
    decreases near.len(),
{
    if near.len() == 0 {
        None
    } else {
        match meta_get(ts[near[0] as int], "github"@) {
            Some(g) => Some(g),
            None => inherited_github(ts, near.drop_first()),
        }
    }
}

/// The issue section: the task's own GitHub issue, or its nearest
/// ancestor's, marked as such.
#[verifier::opaque]
pub open spec fn github_text(ts: Seq<TaskV>, t: TaskV, anc: Seq<usize>) -> Seq<char> {
    let own = meta_get(t, "github"@);
    let found = match own {
        Some(g) => Some(g),
        None => inherited_github(ts, anc.reverse()),
    };
    match found {
        None => Seq::empty(),
        Some(g) => "\nGitHub Issue:\n"@ + "  #"@ + field_text(g, "issueNumber"@) + " ("@ + field_text(g, "repo"@) + ")"@ + (
        if own is None {
            " (via parent)"@
        } else {
            Seq::empty()
        }) + "\n"@ + "  "@ + field_text(g, "issueUrl"@) + "\n"@,
    }
}

/// Whether the card cuts the description or the result.
pub open spec fn card_cut(t: TaskV, full: bool) -> bool {
    cut(t.description, full) || (t.result matches Some(r) && cut(r, full))
}

/// The closing hints of a card.
#[verifier::opaque]
pub open spec fn more_text(ts: Seq<TaskV>, t: TaskV, anc: Seq<usize>, kids: Seq<usize>, full: bool) -> Seq<char> {
    if anc.len() > 0 || kids.len() > 0 || card_cut(t, full) {
        "\nMore Information:\n"@ + (if anc.len() > 0 {
            "  • View parent task: dex show "@ + ts[anc.last() as int].id + "\n"@
        } else {
            Seq::empty()
        }) + (if kids.len() > 0 {
            "  • View subtree: dex list "@ + t.id + "\n"@
        } else {
            Seq::empty()
        }) + (if card_cut(t, full) {
            "  • View full content: dex show "@ + t.id + " --full\n"@
        } else {
            Seq::empty()
        })
    } else {
        Seq::empty()
    }
}

/// The card of task `t` in `ts`.
pub open spec fn card_text(ts: Seq<TaskV>, t: TaskV, full: bool, expand: bool) -> Seq<char> {
    let anc = ancestors(ts, t);
    let kids = children_of(ts, t);
    (if anc.len() == 0 && kids.len() == 0 {
        plain_head(t)
    } else {
        view_tree(ts, t, expand) + "\n"@
    }) + related_text(ts, "Blocked by"@, open_only(ts, existing(ts, t.blocked_by))) + related_text(
        ts,
        "Blocks"@,
        open_only(ts, existing(ts, t.blocks)),
    ) + "Description:\n"@ + text_block(t.description, full) + (match t.result {
        Some(r) => "\nResult:\n"@ + text_block(r, full),
        None => Seq::empty(),
    }) + commit_text(t) + github_text(ts, t, anc) + "\n"@ + stamp_text("Created:  "@, t.created_at) + stamp_text(
        "Updated:  "@,
        t.updated_at,
    ) + stamp_text("Started:  "@, t.started_at) + stamp_text("Completed:"@, t.completed_at) + more_text(
        ts,
        t,
        anc,
        kids,
        full,
    )
}

#[verifier::rlimit(100)]
fn push_commit(out: &mut String, task: &Task)
    ensures
        final(out)@ == old(out)@ + commit_text(task@),
{
    match meta(task, "commit") {
        None => {},
        Some(c) => {
            push_str(out, "\nCommit:\n");
            push_str(out, "  SHA:    ");
            push_str(out, text(c, "sha").as_str());
            push_str(out, "\n");
            match c.str_field("message") {
                Some(m) => {
                    push_str(out, "  Message: ");
                    push_str(out, m.as_str());
                    push_str(out, "\n");
                },
                None => {},
            }
            match c.str_field("branch") {
                Some(b) => {
                    push_str(out, "  Branch:  ");
                    push_str(out, b.as_str());
                    push_str(out, "\n");
                },
                None => {},
            }
            match c.str_field("url") {
                Some(u) => {
                    push_str(out, "  URL:     ");
                    push_str(out, u.as_str());
                    push_str(out, "\n");
                },
                None => {},
            }
        },
    }
    reveal(commit_text);
    assert(out@ =~= old(out)@ + commit_text(task@));
}

fn push_github(out: &mut String, tasks: &Vec<Task>, task: &Task, anc: &Vec<usize>)
    requires
        within(tasks.deep_view(), anc@),
    ensures
        final(out)@ == old(out)@ + github_text(tasks.deep_view(), task@, anc@),
{
    let ghost ts = tasks.deep_view();
    let own = meta(task, "github");
    let mut found: Option<&Json> = own;
    if own.is_none() {
        let mut k: usize = anc.len();
        assert(anc@.take(anc.len() as int) =~= anc@);
        loop
            invariant_except_break
                found is None,
            invariant
                k <= anc.len(),
                ts == tasks.deep_view(),
                within(ts, anc@),
                inherited_github(ts, anc@.reverse()) == inherited_github(ts, anc@.take(k as int).reverse()),
            ensures
                match found {
                    Some(g) => inherited_github(ts, anc@.reverse()) == Some(g@),
                    None => inherited_github(ts, anc@.reverse()) is None,
                },
            decreases k,
        {
            if k == 0 {
                assert(anc@.take(0).reverse() =~= Seq::<usize>::empty());
                break;
            }
            let a = &tasks[anc[k - 1]];
            assert(a@ == ts[anc@[k - 1] as int]);
            let ghost rest = anc@.take(k as int).reverse();
            assert(rest[0] == anc@[k - 1]);
            assert(rest.drop_first() =~= anc@.take(k - 1).reverse());
            match meta(a, "github") {
                Some(g) => {
                    found = Some(g);
                    break;
                },
                None => {},
            }
            k = k - 1;
        }
    }
    match found {
        None => {},
        Some(g) => {
            push_str(out, "\nGitHub Issue:\n");
            push_str(out, "  #");
            push_str(out, text(g, "issueNumber").as_str());
            push_str(out, " (");
            push_str(out, text(g, "repo").as_str());
            push_str(out, ")");
            if own.is_none() {
                push_str(out, " (via parent)");
            }
            push_str(out, "\n");
            push_str(out, "  ");
            push_str(out, text(g, "issueUrl").as_str());
            push_str(out, "\n");
        },
    }
    reveal(github_text);
    assert(out@ =~= old(out)@ + github_text(ts, task@, anc@));
}

fn push_more(out: &mut String, tasks: &Vec<Task>, task: &Task, anc: &Vec<usize>, kids: &Vec<usize>, truncated: bool, full: bool)
    requires
        within(tasks.deep_view(), anc@),
        truncated == card_cut(task@, full),
    ensures
        final(out)@ == old(out)@ + more_text(tasks.deep_view(), task@, anc@, kids@, full),
{
    let ghost ts = tasks.deep_view();
    if anc.len() > 0 || kids.len() > 0 || truncated {
        push_str(out, "\nMore Information:\n");
        if anc.len() > 0 {
            let parent = &tasks[anc[anc.len() - 1]];
            assert(parent@ == ts[anc@.last() as int]);
            push_str(out, "  • View parent task: dex show ");
            push_str(out, parent.id.as_str());
            push_str(out, "\n");
        }
        if kids.len() > 0 {
            push_str(out, "  • View subtree: dex list ");
            push_str(out, task.id.as_str());
            push_str(out, "\n");
        }
        if truncated {
            push_str(out, "  • View full content: dex show ");
            push_str(out, task.id.as_str());
            push_str(out, " --full\n");
        }
    }
    reveal(more_text);
    assert(out@ =~= old(out)@ + more_text(ts, task@, anc@, kids@, full));
}

/// Writes the open blockers and blocked tasks of a card, then its
/// description and result; tells whether any text was cut.
#[verifier::rlimit(50)]
fn push_links_and_text(out: &mut String, tasks: &Vec<Task>, task: &Task, full: bool) -> (truncated: bool)
    ensures
        truncated == card_cut(task@, full),
        final(out)@ == old(out)@ + related_text(tasks.deep_view(), "Blocked by"@, open_only(tasks.deep_view(), existing(tasks.deep_view(), task@.blocked_by)))
            + related_text(tasks.deep_view(), "Blocks"@, open_only(tasks.deep_view(), existing(tasks.deep_view(), task@.blocks)))
            + "Description:\n"@ + text_block(task@.description, full) + (match task@.result {
            Some(r) => "\nResult:\n"@ + text_block(r, full),
            None => Seq::empty(),
        }),
{
    let ghost start = out@;
    let blockers = existing_exec(tasks, &task.blocked_by);
    let open_blockers = open_only_exec(tasks, &blockers);
    push_related(out, "Blocked by", tasks, &open_blockers);
    let blocks = existing_exec(tasks, &task.blocks);
    let open_blocks = open_only_exec(tasks, &blocks);
    push_related(out, "Blocks", tasks, &open_blocks);
    push_str(out, "Description:\n");
    let mut truncated = push_text(out, task.description.as_str(), full);
    if let Some(result) = &task.result {
        push_str(out, "\nResult:\n");
        let cut_result = push_text(out, result.as_str(), full);
        truncated = truncated || cut_result;
    }
    assert(out@ =~= start + related_text(tasks.deep_view(), "Blocked by"@, open_only(tasks.deep_view(), existing(tasks.deep_view(), task@.blocked_by)))
        + related_text(tasks.deep_view(), "Blocks"@, open_only(tasks.deep_view(), existing(tasks.deep_view(), task@.blocks)))
        + "Description:\n"@ + text_block(task@.description, full) + (match task@.result {
        Some(r) => "\nResult:\n"@ + text_block(r, full),
        None => Seq::empty(),
    }));
    truncated
}

/// The card of a task: its place among its ancestors and children (or its
/// plain line when it has neither), its open blockers and the open tasks it
/// blocks, its description and result (cut at `TEXT_MAX` characters unless
/// `full`), its commit and GitHub issue, its times, and hints.
#[verifier::rlimit(100)]
pub fn render(tasks: &Vec<Task>, task: &Task, full: bool, expand: bool) -> (r: String)
    ensures
        r@ == card_text(tasks.deep_view(), task@, full, expand),
{
    let ghost ts = tasks.deep_view();
    let anc = ancestors_exec(tasks, task);
    let kids = children_exec(tasks, task);
    let grand = grandchildren_exec(tasks, &kids);
    let mut out = String::new();
    if anc.len() == 0 && kids.len() == 0 {
        push_str(&mut out, status_icon(task));
        push_str(&mut out, " ");
        push_str(&mut out, task.id.as_str());
        if task.priority != DEFAULT_PRIORITY {
            push_str(&mut out, " [p");
            push_str(&mut out, crate::text::i64_text(task.priority).as_str());
            push_str(&mut out, "]");
        }
        push_str(&mut out, ": ");
        push_str(&mut out, task.name.as_str());
        push_str(&mut out, "\n\n");
        assert(out@ =~= plain_head(task@));
    } else {
        render_view_tree(tasks, task, &anc, &kids, &grand, expand, &mut out);
        push_str(&mut out, "\n");
    }
    let ghost head = out@;
    let truncated = push_links_and_text(&mut out, tasks, task, full);
    let ghost body = out@;
    push_commit(&mut out, task);
    push_github(&mut out, tasks, task, &anc);
    push_str(&mut out, "\n");
    push_timestamp(&mut out, "Created:  ", &task.created_at);
    push_timestamp(&mut out, "Updated:  ", &task.updated_at);
    push_timestamp(&mut out, "Started:  ", &task.started_at);
    push_timestamp(&mut out, "Completed:", &task.completed_at);
    push_more(&mut out, tasks, task, &anc, &kids, truncated, full);
    assert(out@ =~= card_text(ts, task@, full, expand));
    out
}

/// The subtask count shown beside an archived task: none, ` (1 subtask)`
/// or ` (n subtasks)`.
pub open spec fn archived_count(n: nat) -> Seq<char> {
    if n == 0 {
        Seq::empty()
    } else if n == 1 {
        " (1 subtask)"@
    } else {
        " ("@ + dec(n) + " subtasks)"@
    }
}

/// The card of an archived task: its line, its description (or
/// `(no description)`) and its result in full, and its times.
pub open spec fn archived_text(a: crate::archive::ArchivedTaskV) -> Seq<char> {
    "[x] "@ + a.id + ": "@ + a.name + archived_count(a.archived_children.len()) + " (ARCHIVED)\n\nDescription:\n"@
        + text_block(
        if a.description.len() == 0 {
            "(no description)"@
        } else {
            a.description
        },
        true,
    ) + match a.result {
        Some(r) => "\nResult:\n"@ + text_block(r, true),
        None => Seq::empty(),
    } + "\n"@ + stamp_text("Completed:"@, a.completed_at) + stamp_text("Archived: "@, Some(a.archived_at))
}

/// Writes the card of an archived task.
pub fn render_archived(record: &crate::archive::ArchivedTask) -> (r: String)
    ensures
        r@ == archived_text(record@),
{
    let mut out = cat2("[x] ", record.id.as_str());
    push_str(&mut out, ": ");
    push_str(&mut out, record.name.as_str());
    let n = record.archived_children.len();
    if n == 1 {
        push_str(&mut out, " (1 subtask)");
    } else if n > 1 {
        push_str(&mut out, " (");
        push_str(&mut out, usize_text(n).as_str());
        push_str(&mut out, " subtasks)");
    }
    push_str(&mut out, " (ARCHIVED)\n\nDescription:\n");
    let ghost head = out@;
    let description = if chars_of(record.description.as_str()).len() == 0 {
        "(no description)"
    } else {
        record.description.as_str()
    };
    push_text(&mut out, description, true);
    let ghost mid = out@;
    if let Some(result) = &record.result {
        push_str(&mut out, "\nResult:\n");
        push_text(&mut out, result.as_str(), true);
    }
    assert(out@ =~= mid + match record@.result {
        Some(r) => "\nResult:\n"@ + text_block(r, true),
        None => Seq::<char>::empty(),
    });
    push_str(&mut out, "\n");
    push_timestamp(&mut out, "Completed:", &record.completed_at);
    let archived = Some(record.archived_at.clone());
    push_timestamp(&mut out, "Archived: ", &archived);
    assert(out@ =~= archived_text(record@));
    out
}

} // verus!

verus! {

proof fn lemma_open_only(ts: Seq<TaskV>, ps: Seq<usize>)
    ensures
        forall|k: int|
            0 <= k < open_only(ts, ps).len() ==> ps.contains(#[trigger] open_only(ts, ps)[k]) && !ts[open_only(
                ts,
                ps,
            )[k] as int].completed,
        forall|p: usize| ps.contains(p) && !ts[p as int].completed ==> #[trigger] open_only(ts, ps).contains(p),
    decreases ps.len(),
{
    if ps.len() > 0 {
        let d = ps.drop_last();
        lemma_open_only(ts, d);
        let o = open_only(ts, ps);
        let od = open_only(ts, d);
        assert forall|k: int| 0 <= k < o.len() implies ps.contains(#[trigger] o[k]) && !ts[o[k] as int].completed by {
            if k < od.len() {
                assert(o[k] == od[k]);
                let w = choose|w: int| 0 <= w < d.len() && d[w] == od[k];
                assert(ps[w] == d[w]);
            } else {
                assert(o[k] == ps.last());
                assert(ps[ps.len() - 1] == ps.last());
            }
        }
        assert forall|p: usize| ps.contains(p) && !ts[p as int].completed implies #[trigger] o.contains(p) by {
            let w = choose|w: int| 0 <= w < ps.len() && ps[w] == p;
            if w < d.len() {
                assert(d[w] == p);
                assert(od.contains(p));
                let v = choose|v: int| 0 <= v < od.len() && od[v] == p;
                assert(o[v] == p);
            } else {
                assert(o[o.len() - 1] == p);
            }
        }
    }
}

proof fn lemma_existing(ts: Seq<TaskV>, ids: Seq<Seq<char>>)
    requires
        ts.len() <= usize::MAX,
    ensures
        forall|k: int|
            0 <= k < existing(ts, ids).len() ==> #[trigger] existing(ts, ids)[k] < ts.len() && ids.contains(
                ts[existing(ts, ids)[k] as int].id,
            ),
        forall|x: Seq<char>| ids.contains(x) && has_task(ts, x) ==> #[trigger] existing(ts, ids).contains(
            index_of(ts, x) as usize,
        ),
    decreases ids.len(),
{
    if ids.len() > 0 {
        let d = ids.drop_last();
        lemma_existing(ts, d);
        lemma_index_of(ts, ids.last());
        let e = existing(ts, ids);
        let ed = existing(ts, d);
        assert forall|k: int| 0 <= k < e.len() implies #[trigger] e[k] < ts.len() && ids.contains(ts[e[k] as int].id) by {
            if k < ed.len() {
                assert(e[k] == ed[k]);
                let w = choose|w: int| 0 <= w < d.len() && d[w] == ts[ed[k] as int].id;
                assert(ids[w] == d[w]);
            } else {
                assert(ids[ids.len() - 1] == ids.last());
            }
        }
        assert forall|x: Seq<char>| ids.contains(x) && has_task(ts, x) implies #[trigger] e.contains(index_of(ts, x) as usize) by {
            let w = choose|w: int| 0 <= w < ids.len() && ids[w] == x;
            if w < d.len() {
                assert(d[w] == x);
                assert(ed.contains(index_of(ts, x) as usize));
                let v = choose|v: int| 0 <= v < ed.len() && ed[v] == index_of(ts, x) as usize;
                assert(e[v] == ed[v]);
            } else {
                assert(e[e.len() - 1] == index_of(ts, x) as usize);
            }
        }
    }
}

/// The card lists under "Blocked by" exactly the tasks the task is blocked
/// by that exist and are not completed, and under "Blocks" exactly the
/// tasks it blocks that exist and are not completed: a completed task is
/// never listed in either section.
pub proof fn law_card_links_are_open(ts: Seq<TaskV>, t: TaskV)
    requires
        ts.len() <= usize::MAX,
    ensures
        forall|k: int|
            0 <= k < open_only(ts, existing(ts, t.blocked_by)).len() ==> {
                let p = #[trigger] open_only(ts, existing(ts, t.blocked_by))[k];
                &&& p < ts.len()
                &&& !ts[p as int].completed
                &&& t.blocked_by.contains(ts[p as int].id)
            },
        forall|x: Seq<char>|
            #[trigger] t.blocked_by.contains(x) && has_task(ts, x) && !crate::task::task_of(ts, x).completed ==> open_only(
                ts,
                existing(ts, t.blocked_by),
            ).contains(index_of(ts, x) as usize),
        forall|k: int|
            0 <= k < open_only(ts, existing(ts, t.blocks)).len() ==> {
                let p = #[trigger] open_only(ts, existing(ts, t.blocks))[k];
                &&& p < ts.len()
                &&& !ts[p as int].completed
                &&& t.blocks.contains(ts[p as int].id)
            },
        forall|x: Seq<char>|
            #[trigger] t.blocks.contains(x) && has_task(ts, x) && !crate::task::task_of(ts, x).completed ==> open_only(
                ts,
                existing(ts, t.blocks),
            ).contains(index_of(ts, x) as usize),
{
    lemma_existing(ts, t.blocked_by);
    lemma_existing(ts, t.blocks);
    lemma_open_only(ts, existing(ts, t.blocked_by));
    lemma_open_only(ts, existing(ts, t.blocks));
    assert forall|k: int| 0 <= k < open_only(ts, existing(ts, t.blocked_by)).len() implies {
        let p = #[trigger] open_only(ts, existing(ts, t.blocked_by))[k];
        &&& p < ts.len()
        &&& !ts[p as int].completed
        &&& t.blocked_by.contains(ts[p as int].id)
    } by {
        let e = existing(ts, t.blocked_by);
        let p = open_only(ts, e)[k];
        assert(e.contains(p));
        let w = choose|w: int| 0 <= w < e.len() && e[w] == p;
        assert(e[w] < ts.len());
    }
    assert forall|k: int| 0 <= k < open_only(ts, existing(ts, t.blocks)).len() implies {
        let p = #[trigger] open_only(ts, existing(ts, t.blocks))[k];
        &&& p < ts.len()
        &&& !ts[p as int].completed
        &&& t.blocks.contains(ts[p as int].id)
    } by {
        let e = existing(ts, t.blocks);
        let p = open_only(ts, e)[k];
        assert(e.contains(p));
        let w = choose|w: int| 0 <= w < e.len() && e[w] == p;
        assert(e[w] < ts.len());
    }
    assert forall|x: Seq<char>| #[trigger] t.blocked_by.contains(x) && has_task(ts, x) && !crate::task::task_of(ts, x).completed implies open_only(
        ts,
        existing(ts, t.blocked_by),
    ).contains(index_of(ts, x) as usize) by {
        lemma_index_of(ts, x);
        assert(existing(ts, t.blocked_by).contains(index_of(ts, x) as usize));
    }
    assert forall|x: Seq<char>| #[trigger] t.blocks.contains(x) && has_task(ts, x) && !crate::task::task_of(ts, x).completed implies open_only(
        ts,
        existing(ts, t.blocks),
    ).contains(index_of(ts, x) as usize) by {
        lemma_index_of(ts, x);
        assert(existing(ts, t.blocks).contains(index_of(ts, x) as usize));
    }
}

} // verus!
