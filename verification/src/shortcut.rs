//! The Shortcut sync's records and decisions: stories, teams and workflow
//! states as the API returns them, the state a story should be in, whether
//! a story needs an update, and which blocker links are missing.
use vstd::prelude::*;

use crate::json::{items_view, json_at, json_bool, json_str, json_u64, lemma_view_parts, Json, JsonV};
use crate::task::{opt_view, Task, TaskV};
use crate::text::{cat2, cat4, owned, str_eq, trim, trimmed, u64_text};

verus! {

/// The label a story carries when none is configured.
pub const DEFAULT_LABEL: &'static str = "dex";

/// A link between two stories: `subject` `verb` `object`.
pub struct StoryLink {
    pub subject_id: u64,
    pub object_id: u64,
    pub verb: String,
}

/// The value of a `StoryLink`.
pub struct StoryLinkV {
    pub subject_id: u64,
    pub object_id: u64,
    pub verb: Seq<char>,
}

impl View for StoryLink {
    type V = StoryLinkV;

    open spec fn view(&self) -> StoryLinkV {
        StoryLinkV { subject_id: self.subject_id, object_id: self.object_id, verb: self.verb@ }
    }
}

/// A story as the API returns it.
pub struct Story {
    pub id: u64,
    pub name: String,
    pub description: String,
    pub completed: bool,
    pub workflow_state_id: Option<u64>,
    pub labels: Vec<String>,
    pub app_url: String,
    pub story_links: Vec<StoryLink>,
}

/// The value of a `Story`.
pub struct StoryV {
    pub id: u64,
    pub name: Seq<char>,
    pub description: Seq<char>,
    pub completed: bool,
    pub workflow_state_id: Option<u64>,
    pub labels: Seq<Seq<char>>,
    pub app_url: Seq<char>,
    pub story_links: Seq<StoryLinkV>,
}

impl View for Story {
    type V = StoryV;

    open spec fn view(&self) -> StoryV {
        StoryV {
            id: self.id,
            name: self.name@,
            description: self.description@,
            completed: self.completed,
            workflow_state_id: self.workflow_state_id,
            labels: self.labels.deep_view(),
            app_url: self.app_url@,
            story_links: self.story_links@.map_values(|l: StoryLink| l@),
        }
    }
}

/// A team as the API returns it.
pub struct Team {
    pub id: String,
    pub name: String,
    pub mention_name: String,
    pub workflow_ids: Vec<u64>,
}

/// The value of a `Team`.
pub struct TeamV {
    pub id: Seq<char>,
    pub name: Seq<char>,
    pub mention_name: Seq<char>,
    pub workflow_ids: Seq<u64>,
}

impl View for Team {
    type V = TeamV;

    open spec fn view(&self) -> TeamV {
        TeamV { id: self.id@, name: self.name@, mention_name: self.mention_name@, workflow_ids: self.workflow_ids@ }
    }
}

/// A state of a workflow, and its kind (`unstarted`, `started`, `done`).
pub struct WorkflowState {
    pub id: u64,
    pub kind: String,
}

/// The value of a `WorkflowState`.
pub struct WorkflowStateV {
    pub id: u64,
    pub kind: Seq<char>,
}

impl View for WorkflowState {
    type V = WorkflowStateV;

    open spec fn view(&self) -> WorkflowStateV {
        WorkflowStateV { id: self.id, kind: self.kind@ }
    }
}

/// A string member, or the empty text (`as_str().unwrap_or_default()`).
pub open spec fn text_or_empty(j: JsonV) -> Seq<char> {
    match json_str(j) {
        Some(s) => s,
        None => Seq::empty(),
    }
}

/// The items of an array, none for anything else.
pub open spec fn array_items(j: JsonV) -> Seq<JsonV> {
    match j {
        JsonV::Array(items) => items,
        _ => Seq::empty(),
    }
}

/// The `name` members of the items that have a string one, in order.
pub open spec fn label_names(items: Seq<JsonV>) -> Seq<Seq<char>>
    decreases items.len(),
{
    if items.len() == 0 {
        Seq::empty()
    } else {
        let rest = label_names(items.drop_last());
        match json_str(json_at(items.last(), "name"@)) {
            Some(n) => rest.push(n),
            None => rest,
        }
    }
}

/// A story link read from an item: all three members must be there.
pub open spec fn link_spec(j: JsonV) -> Option<StoryLinkV> {
    match (json_u64(json_at(j, "subject_id"@)), json_u64(json_at(j, "object_id"@)), json_str(json_at(j, "verb"@))) {
        (Some(s), Some(o), Some(v)) => Some(StoryLinkV { subject_id: s, object_id: o, verb: v }),
        _ => None,
    }
}

/// The links read from the items that are whole links, in order.
pub open spec fn links_spec(items: Seq<JsonV>) -> Seq<StoryLinkV>
    decreases items.len(),
{
    if items.len() == 0 {
        Seq::empty()
    } else {
        let rest = links_spec(items.drop_last());
        match link_spec(items.last()) {
            Some(l) => rest.push(l),
            None => rest,
        }
    }
}

/// The unsigned numbers among the items, in order.
pub open spec fn numbers_spec(items: Seq<JsonV>) -> Seq<u64>
    decreases items.len(),
{
    if items.len() == 0 {
        Seq::empty()
    } else {
        let rest = numbers_spec(items.drop_last());
        match json_u64(items.last()) {
            Some(n) => rest.push(n),
            None => rest,
        }
    }
}

/// A story read from the API's JSON: it must have an unsigned `id`; the
/// other members default to empty, `false` or none.
pub open spec fn story_spec(j: JsonV) -> Option<StoryV> {
    match json_u64(json_at(j, "id"@)) {
        Some(id) => Some(
            StoryV {
                id,
                name: text_or_empty(json_at(j, "name"@)),
                description: text_or_empty(json_at(j, "description"@)),
                completed: json_bool(json_at(j, "completed"@)) == Some(true),
                workflow_state_id: json_u64(json_at(j, "workflow_state_id"@)),
                labels: label_names(array_items(json_at(j, "labels"@))),
                app_url: text_or_empty(json_at(j, "app_url"@)),
                story_links: links_spec(array_items(json_at(j, "story_links"@))),
            },
        ),
        None => None,
    }
}

/// A team read from the API's JSON: it must have a string `id`.
pub open spec fn team_spec(j: JsonV) -> Option<TeamV> {
    match json_str(json_at(j, "id"@)) {
        Some(id) => Some(
            TeamV {
                id,
                name: text_or_empty(json_at(j, "name"@)),
                mention_name: text_or_empty(json_at(j, "mention_name"@)),
                workflow_ids: numbers_spec(array_items(json_at(j, "workflow_ids"@))),
            },
        ),
        None => None,
    }
}

/// `value[key]`, by reference, or `None` for a missing member.
pub fn member<'a>(j: &'a Json, key: &str) -> (r: Option<&'a Json>)
    ensures
        match r {
            Some(v) => json_at(j@, key@) == v@,
            None => json_at(j@, key@) == JsonV::Null,
        },
{
    j.get(key)
}

/// `value[key].as_str().unwrap_or_default()`.
pub fn text_member(j: &Json, key: &str) -> (r: String)
    ensures
        r@ == text_or_empty(json_at(j@, key@)),
{
    match member(j, key) {
        Some(v) => match v.as_str() {
            Some(s) => s.clone(),
            None => String::new(),
        },
        None => String::new(),
    }
}

/// `value[key].as_u64()`.
pub fn u64_member(j: &Json, key: &str) -> (r: Option<u64>)
    ensures
        r == json_u64(json_at(j@, key@)),
{
    match member(j, key) {
        Some(v) => v.as_u64(),
        None => None,
    }
}

/// `value[key].as_str()`, owned.
pub fn str_member(j: &Json, key: &str) -> (r: Option<String>)
    ensures
        opt_view(r) == json_str(json_at(j@, key@)),
{
    match member(j, key) {
        Some(v) => match v.as_str() {
            Some(s) => Some(s.clone()),
            None => None,
        },
        None => None,
    }
}

/// The items of an array member, or an empty slice.
pub fn items_member<'a>(j: &'a Json, key: &str) -> (r: &'a [Json])
    ensures
        items_view(r@) == array_items(json_at(j@, key@)),
{
    match member(j, key) {
        Some(v) => match v {
            Json::Array(items) => {
                proof {
                    lemma_view_parts(*v);
                }
                items.as_slice()
            },
            _ => {
                let e: &[Json] = &[];
                assert(items_view(e@) =~= Seq::<JsonV>::empty());
                e
            },
        },
        None => {
            let e: &[Json] = &[];
            assert(items_view(e@) =~= Seq::<JsonV>::empty());
            e
        },
    }
}

fn label_list(items: &[Json]) -> (r: Vec<String>)
    ensures
        r.deep_view() == label_names(items_view(items@)),
{
    let ghost iv = items_view(items@);
    let mut r: Vec<String> = Vec::new();
    let mut i: usize = 0;
    while i < items.len()
        invariant
            i <= items.len(),
            iv == items_view(items@),
            r.deep_view() == label_names(iv.take(i as int)),
        decreases items.len() - i,
    {
        assert(iv.take(i + 1).drop_last() =~= iv.take(i as int));
        assert(iv.take(i + 1).last() == items@[i as int]@);
        if let Some(n) = str_member(&items[i], "name") {
            let ghost before = r.deep_view();
            r.push(n);
            assert(r.deep_view() =~= before.push(json_str(json_at(items@[i as int]@, "name"@))->0));
        }
        i = i + 1;
    }
    assert(iv.take(items.len() as int) =~= iv);
    r
}

fn link_of(j: &Json) -> (r: Option<StoryLink>)
    ensures
        match r {
            Some(l) => link_spec(j@) == Some(l@),
            None => link_spec(j@) is None,
        },
{
    let s = match u64_member(j, "subject_id") {
        Some(s) => s,
        None => return None,
    };
    let o = match u64_member(j, "object_id") {
        Some(o) => o,
        None => return None,
    };
    match str_member(j, "verb") {
        Some(v) => Some(StoryLink { subject_id: s, object_id: o, verb: v }),
        None => None,
    }
}

fn link_list(items: &[Json]) -> (r: Vec<StoryLink>)
    ensures
        r@.map_values(|l: StoryLink| l@) == links_spec(items_view(items@)),
{
    let ghost iv = items_view(items@);
    let mut r: Vec<StoryLink> = Vec::new();
    let mut i: usize = 0;
    while i < items.len()
        invariant
            i <= items.len(),
            iv == items_view(items@),
            r@.map_values(|l: StoryLink| l@) == links_spec(iv.take(i as int)),
        decreases items.len() - i,
    {
        assert(iv.take(i + 1).drop_last() =~= iv.take(i as int));
        assert(iv.take(i + 1).last() == items@[i as int]@);
        if let Some(l) = link_of(&items[i]) {
            let ghost before = r@.map_values(|l: StoryLink| l@);
            let ghost lv = l@;
            r.push(l);
            assert(r@.map_values(|l: StoryLink| l@) =~= before.push(lv));
        }
        i = i + 1;
    }
    assert(iv.take(items.len() as int) =~= iv);
    r
}

fn number_list(items: &[Json]) -> (r: Vec<u64>)
    ensures
        r@ == numbers_spec(items_view(items@)),
{
    let ghost iv = items_view(items@);
    let mut r: Vec<u64> = Vec::new();
    let mut i: usize = 0;
    while i < items.len()
        invariant
            i <= items.len(),
            iv == items_view(items@),
            r@ == numbers_spec(iv.take(i as int)),
        decreases items.len() - i,
    {
        assert(iv.take(i + 1).drop_last() =~= iv.take(i as int));
        assert(iv.take(i + 1).last() == items@[i as int]@);
        if let Some(n) = items[i].as_u64() {
            r.push(n);
        }
        i = i + 1;
    }
    assert(iv.take(items.len() as int) =~= iv);
    r
}

/// Reads a story from the API's JSON.
pub fn story_from_value(value: &Json) -> (r: Option<Story>)
    ensures
        match r {
            Some(s) => story_spec(value@) == Some(s@),
            None => story_spec(value@) is None,
        },
{
    let id = match u64_member(value, "id") {
        Some(id) => id,
        None => return None,
    };
    let completed = match member(value, "completed") {
        Some(c) => c.as_bool() == Some(true),
        None => false,
    };
    let s = Story {
        id,
        name: text_member(value, "name"),
        description: text_member(value, "description"),
        completed,
        workflow_state_id: u64_member(value, "workflow_state_id"),
        labels: label_list(items_member(value, "labels")),
        app_url: text_member(value, "app_url"),
        story_links: link_list(items_member(value, "story_links")),
    };
    Some(s)
}

/// Reads a team from the API's JSON.
pub fn team_from_value(value: &Json) -> (r: Option<Team>)
    ensures
        match r {
            Some(t) => team_spec(value@) == Some(t@),
            None => team_spec(value@) is None,
        },
{
    let id = match str_member(value, "id") {
        Some(id) => id,
        None => return None,
    };
    Some(
        Team {
            id,
            name: text_member(value, "name"),
            mention_name: text_member(value, "mention_name"),
            workflow_ids: number_list(items_member(value, "workflow_ids")),
        },
    )
}

/// The first state of the given kind.
pub open spec fn state_of_kind_spec(states: Seq<WorkflowStateV>, kind: Seq<char>) -> Option<u64>
    decreases states.len(),
{
    if states.len() == 0 {
        None
    } else if states[0].kind == kind {
        Some(states[0].id)
    } else {
        state_of_kind_spec(states.drop_first(), kind)
    }
}

/// Finds the first state of a kind.
pub fn state_of_kind(states: &Vec<WorkflowState>, kind: &str) -> (r: Option<u64>)
    ensures
        r == state_of_kind_spec(states@.map_values(|s: WorkflowState| s@), kind@),
{
    let ghost sv = states@.map_values(|s: WorkflowState| s@);
    let mut i: usize = 0;
    assert(sv.skip(0) =~= sv);
    while i < states.len()
        invariant
            i <= states.len(),
            sv == states@.map_values(|s: WorkflowState| s@),
            state_of_kind_spec(sv, kind@) == state_of_kind_spec(sv.skip(i as int), kind@),
        decreases states.len() - i,
    {
        assert(sv.skip(i as int)[0] == states@[i as int]@);
        assert(sv.skip(i as int).drop_first() =~= sv.skip(i + 1));
        if str_eq(states[i].kind.as_str(), kind) {
            return Some(states[i].id);
        }
        i = i + 1;
    }
    assert(sv.skip(i as int) =~= Seq::<WorkflowStateV>::empty());
    None
}

/// The kind of the first state with the id, `unstarted` when none has it.
pub open spec fn state_kind_spec(states: Seq<WorkflowStateV>, id: u64) -> Seq<char>
    decreases states.len(),
{
    if states.len() == 0 {
        "unstarted"@
    } else if states[0].id == id {
        states[0].kind
    } else {
        state_kind_spec(states.drop_first(), id)
    }
}

/// Names the kind of a state.
pub fn state_kind(states: &Vec<WorkflowState>, id: u64) -> (r: String)
    ensures
        r@ == state_kind_spec(states@.map_values(|s: WorkflowState| s@), id),
{
    let ghost sv = states@.map_values(|s: WorkflowState| s@);
    let mut i: usize = 0;
    assert(sv.skip(0) =~= sv);
    while i < states.len()
        invariant
            i <= states.len(),
            sv == states@.map_values(|s: WorkflowState| s@),
            state_kind_spec(sv, id) == state_kind_spec(sv.skip(i as int), id),
        decreases states.len() - i,
    {
        assert(sv.skip(i as int)[0] == states@[i as int]@);
        assert(sv.skip(i as int).drop_first() =~= sv.skip(i + 1));
        if states[i].id == id {
            return states[i].kind.clone();
        }
        i = i + 1;
    }
    assert(sv.skip(i as int) =~= Seq::<WorkflowStateV>::empty());
    owned("unstarted")
}

/// The kind of state a task's story belongs in: `done` when it is being
/// completed, `started` when the task was started or completed, else
/// `unstarted`.
pub open spec fn expected_kind_spec(t: TaskV, completed: bool) -> Seq<char> {
    if completed {
        "done"@
    } else if t.started_at is Some || t.completed {
        "started"@
    } else {
        "unstarted"@
    }
}

/// Names the kind of state a task's story belongs in.
pub fn expected_kind(task: &Task, completed: bool) -> (r: &'static str)
    ensures
        r@ == expected_kind_spec(task@, completed),
{
    if completed {
        "done"
    } else if task.started_at.is_some() || task.completed {
        "started"
    } else {
        "unstarted"
    }
}

/// The message when a workflow has no state of a kind.
pub open spec fn no_state_message(kind: Seq<char>, workflow: u64) -> Seq<char> {
    "No "@ + kind + " state found in workflow "@ + crate::text::dec(workflow as nat)
}

fn state_or_error(states: &Vec<WorkflowState>, kind: &str, workflow: u64) -> (r: Result<u64, String>)
    ensures
        match state_of_kind_spec(states@.map_values(|s: WorkflowState| s@), kind@) {
            Some(id) => r == Ok::<u64, String>(id),
            None => r is Err && r->Err_0@ == no_state_message(kind@, workflow),
        },
{
    match state_of_kind(states, kind) {
        Some(id) => Ok(id),
        None => Err(cat4("No ", kind, " state found in workflow ", u64_text(workflow).as_str())),
    }
}

/// The state a task's story is moved to: the first `done` state when it is
/// being completed; else the first `started` state when the task was
/// started or completed and the workflow has one; else the first
/// `unstarted` state. `Err` names the kind the workflow lacks.
pub open spec fn target_state_spec(states: Seq<WorkflowStateV>, t: TaskV, completed: bool) -> Result<u64, Seq<char>> {
    if completed {
        match state_of_kind_spec(states, "done"@) {
            Some(id) => Ok(id),
            None => Err("done"@),
        }
    } else if (t.started_at is Some || t.completed) && state_of_kind_spec(states, "started"@) is Some {
        Ok(state_of_kind_spec(states, "started"@)->0)
    } else {
        match state_of_kind_spec(states, "unstarted"@) {
            Some(id) => Ok(id),
            None => Err("unstarted"@),
        }
    }
}

/// Picks the state of a task's story among the states of `workflow`.
pub fn target_state(task: &Task, states: &Vec<WorkflowState>, workflow: u64, completed: bool) -> (r: Result<u64, String>)
    ensures
        match target_state_spec(states@.map_values(|s: WorkflowState| s@), task@, completed) {
            Ok(id) => r == Ok::<u64, String>(id),
            Err(kind) => r is Err && r->Err_0@ == no_state_message(kind, workflow),
        },
{
    if completed {
        return state_or_error(states, "done", workflow);
    }
    if task.started_at.is_some() || task.completed {
        if let Some(id) = state_of_kind(states, "started") {
            return Ok(id);
        }
    }
    state_or_error(states, "unstarted", workflow)
}

/// The state an update sets: the target state, except that a story that
/// is not being completed keeps its state when it is in a `done` state or
/// its state is unknown.
pub open spec fn update_state_spec(
    states: Seq<WorkflowStateV>,
    should_complete: bool,
    target: u64,
    current: Option<u64>,
) -> Option<u64> {
    if should_complete {
        Some(target)
    } else {
        match current {
            Some(c) => if state_kind_spec(states, c) == "done"@ {
                None
            } else {
                Some(target)
            },
            None => None,
        }
    }
}

/// Decides the state an update of a story sets, if any.
pub fn update_state(states: &Vec<WorkflowState>, should_complete: bool, target: u64, current: Option<u64>) -> (r: Option<u64>)
    ensures
        r == update_state_spec(states@.map_values(|s: WorkflowState| s@), should_complete, target, current),
{
    if should_complete {
        return Some(target);
    }
    match current {
        Some(c) => {
            let k = state_kind(states, c);
            if str_eq(k.as_str(), "done") {
                None
            } else {
                Some(target)
            }
        },
        None => None,
    }
}

/// Whether a story differs from what its task wants: its name, its
/// description (trimmed), its completion, or the label being absent.
pub open spec fn story_needs_update_spec(
    name: Seq<char>,
    description: Seq<char>,
    completed: bool,
    labels: Seq<Seq<char>>,
    expected_name: Seq<char>,
    expected_description: Seq<char>,
    should_complete: bool,
    label: Seq<char>,
) -> bool {
    name != expected_name || trimmed(description) != trimmed(expected_description) || completed != should_complete
        || !labels.contains(label)
}

/// Whether a story needs an update to match its task.
pub fn story_needs_update(
    name: &str,
    description: &str,
    completed: bool,
    labels: &Vec<String>,
    expected_name: &str,
    expected_description: &str,
    should_complete: bool,
    label: &str,
) -> (r: bool)
    ensures
        r == story_needs_update_spec(
            name@,
            description@,
            completed,
            labels.deep_view(),
            expected_name@,
            expected_description@,
            should_complete,
            label@,
        ),
{
    !str_eq(name, expected_name) || !str_eq(trim(description).as_str(), trim(expected_description).as_str())
        || completed != should_complete || !crate::text::list_contains(labels, label)
}

/// Whether a team reference is already a team id: 36 characters, each a
/// hex digit or `-`.
pub open spec fn uuid_like(s: Seq<char>) -> bool {
    s.len() == 36 && forall|k: int|
        0 <= k < s.len() ==> #[trigger] is_hex_or_dash(s[k])
}

/// A hex digit (either case) or `-`.
pub open spec fn is_hex_or_dash(c: char) -> bool {
    ('0' <= c <= '9') || ('a' <= c <= 'f') || ('A' <= c <= 'F') || c == '-'
}

/// Tells whether a team reference is already a team id.
pub fn looks_like_uuid(s: &str) -> (r: bool)
    ensures
        r == uuid_like(s@),
{
    let x = crate::text::chars_of(s);
    if x.len() != 36 {
        return false;
    }
    let mut i: usize = 0;
    while i < x.len()
        invariant
            i <= x.len(),
            x@ == s@,
            forall|k: int| 0 <= k < i ==> #[trigger] is_hex_or_dash(s@[k]),
        decreases x.len() - i,
    {
        let c = x[i];
        assert(c == s@[i as int]);
        if !(('0' <= c && c <= '9') || ('a' <= c && c <= 'f') || ('A' <= c && c <= 'F') || c == '-') {
            assert(!is_hex_or_dash(s@[i as int]));
            return false;
        }
        i = i + 1;
    }
    true
}

/// The id of the first team whose mention name or name is the reference.
pub open spec fn team_named_spec(teams: Seq<TeamV>, team: Seq<char>) -> Option<Seq<char>>
    decreases teams.len(),
{
    if teams.len() == 0 {
        None
    } else if teams[0].mention_name == team || teams[0].name == team {
        Some(teams[0].id)
    } else {
        team_named_spec(teams.drop_first(), team)
    }
}

/// Finds a team by mention name or name.
pub fn team_named(teams: &Vec<Team>, team: &str) -> (r: Option<String>)
    ensures
        opt_view(r) == team_named_spec(teams@.map_values(|t: Team| t@), team@),
{
    let ghost tv = teams@.map_values(|t: Team| t@);
    let mut i: usize = 0;
    assert(tv.skip(0) =~= tv);
    while i < teams.len()
        invariant
            i <= teams.len(),
            tv == teams@.map_values(|t: Team| t@),
            team_named_spec(tv, team@) == team_named_spec(tv.skip(i as int), team@),
        decreases teams.len() - i,
    {
        assert(tv.skip(i as int)[0] == teams@[i as int]@);
        assert(tv.skip(i as int).drop_first() =~= tv.skip(i + 1));
        if str_eq(teams[i].mention_name.as_str(), team) || str_eq(teams[i].name.as_str(), team) {
            return Some(teams[i].id.clone());
        }
        i = i + 1;
    }
    assert(tv.skip(i as int) =~= Seq::<TeamV>::empty());
    None
}

/// The story a task's metadata names: `shortcut.storyId`.
pub open spec fn story_id_spec(metadata: Option<JsonV>) -> Option<u64> {
    match metadata {
        Some(m) => json_u64(json_at(json_at(m, "shortcut"@), "storyId"@)),
        None => None,
    }
}

/// Reads the story a task is linked to.
pub fn remote_id(metadata: &Option<Json>) -> (r: Option<u64>)
    ensures
        r == story_id_spec(crate::json::opt_json_view(*metadata)),
{
    match metadata {
        Some(m) => match member(m, "shortcut") {
            Some(s) => u64_member(s, "storyId"),
            None => {
                assert(json_at(JsonV::Null, "storyId"@) == JsonV::Null);
                None
            },
        },
        None => None,
    }
}

/// The address a task keeps of its story: `shortcut.storyUrl`.
pub open spec fn story_url_of_spec(metadata: Option<JsonV>) -> Option<Seq<char>> {
    match metadata {
        Some(m) => json_str(json_at(json_at(m, "shortcut"@), "storyUrl"@)),
        None => None,
    }
}

/// Reads the address a task keeps of its story.
pub fn remote_url(metadata: &Option<Json>) -> (r: Option<String>)
    ensures
        opt_view(r) == story_url_of_spec(crate::json::opt_json_view(*metadata)),
{
    match metadata {
        Some(m) => match member(m, "shortcut") {
            Some(s) => str_member(s, "storyUrl"),
            None => {
                assert(json_at(JsonV::Null, "storyUrl"@) == JsonV::Null);
                None
            },
        },
        None => None,
    }
}

/// The web address of a story.
pub open spec fn story_url_spec(workspace: Seq<char>, id: u64) -> Seq<char> {
    "https://app.shortcut.com/"@ + workspace + "/story/"@ + crate::text::dec(id as nat)
}

/// Writes the web address of a story.
pub fn story_url(workspace: &str, id: u64) -> (r: String)
    ensures
        r@ == story_url_spec(workspace@, id),
{
    cat4("https://app.shortcut.com/", workspace, "/story/", u64_text(id).as_str())
}

/// What a task keeps of its story: id, address, workspace, state kind.
pub open spec fn story_metadata_spec(id: u64, workspace: Seq<char>, state: Seq<char>) -> JsonV {
    JsonV::Object(
        seq!["storyId"@, "storyUrl"@, "workspace"@, "state"@],
        seq![
            JsonV::Number(crate::text::dec(id as nat)),
            JsonV::Str(story_url_spec(workspace, id)),
            JsonV::Str(workspace),
            JsonV::Str(state),
        ],
    )
}

/// Writes what a task keeps of its story.
pub fn story_metadata(id: u64, workspace: &str, state: &str) -> (r: Json)
    ensures
        r@ == story_metadata_spec(id, workspace@, state@),
{
    let mut keys: Vec<String> = Vec::new();
    keys.push(owned("storyId"));
    keys.push(owned("storyUrl"));
    keys.push(owned("workspace"));
    keys.push(owned("state"));
    let mut values: Vec<Json> = Vec::new();
    values.push(Json::Number(u64_text(id)));
    values.push(Json::Str(story_url(workspace, id)));
    values.push(Json::Str(owned(workspace)));
    values.push(Json::Str(owned(state)));
    let r = Json::Object(keys, values);
    proof {
        lemma_view_parts(r);
        assert(keys.deep_view() =~= seq!["storyId"@, "storyUrl"@, "workspace"@, "state"@]);
        assert(items_view(values@) =~= seq![
            JsonV::Number(crate::text::dec(id as nat)),
            JsonV::Str(story_url_spec(workspace@, id)),
            JsonV::Str(workspace@),
            JsonV::Str(state@),
        ]);
    }
    r
}

/// The stories already linked as blocking `story`: the subjects of its
/// `blocks` links whose object is the story, in order.
pub open spec fn linked_blockers(links: Seq<StoryLinkV>, story: u64) -> Seq<u64>
    decreases links.len(),
{
    if links.len() == 0 {
        Seq::empty()
    } else {
        let rest = linked_blockers(links.drop_last(), story);
        let l = links.last();
        if l.verb == "blocks"@ && l.object_id == story {
            rest.push(l.subject_id)
        } else {
            rest
        }
    }
}

/// The blocker stories still to link to a task's story: for each blocker
/// of the task, in order, the story of the first task with its id, when
/// that task has one and it is not linked yet.
pub open spec fn links_to_add(ts: Seq<TaskV>, blocked_by: Seq<Seq<char>>, existing: Seq<u64>) -> Seq<u64>
    decreases blocked_by.len(),
{
    if blocked_by.len() == 0 {
        Seq::empty()
    } else {
        let rest = links_to_add(ts, blocked_by.drop_last(), existing);
        let b = blocked_by.last();
        if crate::task::has_task(ts, b) && story_id_spec(crate::task::task_of(ts, b).metadata) is Some
            && !existing.contains(story_id_spec(crate::task::task_of(ts, b).metadata)->0) {
            rest.push(story_id_spec(crate::task::task_of(ts, b).metadata)->0)
        } else {
            rest
        }
    }
}

fn has_u64(v: &Vec<u64>, x: u64) -> (r: bool)
    ensures
        r == v@.contains(x),
{
    let mut i: usize = 0;
    while i < v.len()
        invariant
            i <= v.len(),
            forall|k: int| 0 <= k < i ==> v@[k] != x,
        decreases v.len() - i,
    {
        if v[i] == x {
            assert(v@[i as int] == x);
            return true;
        }
        i = i + 1;
    }
    false
}

fn existing_blockers(links: &Vec<StoryLink>, story: u64) -> (r: Vec<u64>)
    ensures
        r@ == linked_blockers(links@.map_values(|l: StoryLink| l@), story),
{
    let ghost lv = links@.map_values(|l: StoryLink| l@);
    let mut r: Vec<u64> = Vec::new();
    let mut i: usize = 0;
    while i < links.len()
        invariant
            i <= links.len(),
            lv == links@.map_values(|l: StoryLink| l@),
            r@ == linked_blockers(lv.take(i as int), story),
        decreases links.len() - i,
    {
        assert(lv.take(i + 1).drop_last() =~= lv.take(i as int));
        assert(lv.take(i + 1).last() == links@[i as int]@);
        if str_eq(links[i].verb.as_str(), "blocks") && links[i].object_id == story {
            r.push(links[i].subject_id);
        }
        i = i + 1;
    }
    assert(lv.take(links.len() as int) =~= lv);
    r
}

/// Lists the blocker stories to link to a task's story, given the story's
/// current links.
pub fn blocker_links(task: &Task, tasks: &Vec<Task>, story: u64, links: &Vec<StoryLink>) -> (r: Vec<u64>)
    ensures
        r@ == links_to_add(
            tasks.deep_view(),
            task.blocked_by.deep_view(),
            linked_blockers(links@.map_values(|l: StoryLink| l@), story),
        ),
{
    let ghost ts = tasks.deep_view();
    let ghost bv = task.blocked_by.deep_view();
    let existing = existing_blockers(links, story);
    let mut r: Vec<u64> = Vec::new();
    let mut i: usize = 0;
    while i < task.blocked_by.len()
        invariant
            i <= task.blocked_by.len(),
            ts == tasks.deep_view(),
            bv == task.blocked_by.deep_view(),
            r@ == links_to_add(ts, bv.take(i as int), existing@),
        decreases task.blocked_by.len() - i,
    {
        assert(bv.take(i + 1).drop_last() =~= bv.take(i as int));
        assert(bv.take(i + 1).last() == bv[i as int]);
        let found = crate::task::find_index(tasks.as_slice(), task.blocked_by[i].as_str());
        proof {
            crate::task::lemma_index_of(ts, bv[i as int]);
        }
        if let Some(k) = found {
            assert(tasks@[k as int]@ == ts[k as int]);
            if let Some(sid) = remote_id(&tasks[k].metadata) {
                if !has_u64(&existing, sid) {
                    r.push(sid);
                }
            }
        }
        i = i + 1;
    }
    assert(bv.take(task.blocked_by.len() as int) =~= bv);
    r
}

/// The end of the run of ASCII digits that starts at `i`.
pub open spec fn digits_end(t: Seq<char>, i: int) -> int
    decreases t.len() - i,
{
    if 0 <= i < t.len() && '0' <= t[i] && t[i] <= '9' {
        digits_end(t, i + 1)
    } else {
        i
    }
}

/// The digits of a short story reference: `sc#` (either case) followed by
/// digits and nothing else.
pub open spec fn short_ref(r: Seq<char>) -> Option<Seq<char>> {
    if r.len() > 3 && crate::issue_body::ci_at(r, "sc#"@, 0) && digits_end(r, 3) == r.len() {
        Some(r.skip(3))
    } else {
        None
    }
}

/// The workspace and the digits of a story address:
/// `http://` or `https://`, `app.shortcut.com/` (either case), a workspace
/// without `/`, `/story/`, and digits (anything may follow).
pub open spec fn url_ref(r: Seq<char>) -> Option<(Seq<char>, Seq<char>)> {
    if !crate::issue_body::ci_at(r, "http"@, 0) {
        None
    } else {
        let p: int = if 4 < r.len() && crate::issue_body::ci_char(r[4], 's') {
            5
        } else {
            4
        };
        let host = "://app.shortcut.com/"@;
        if !crate::issue_body::ci_at(r, host, p) {
            None
        } else {
            let w0 = p + host.len();
            let w1 = crate::text::find_from(r, "/"@, w0);
            if w1 <= w0 || !crate::issue_body::ci_at(r, "/story/"@, w1) {
                None
            } else {
                let d0 = w1 + "/story/"@.len();
                let d1 = digits_end(r, d0);
                if d1 <= d0 {
                    None
                } else {
                    Some((r.subrange(w0, w1), r.subrange(d0, d1)))
                }
            }
        }
    }
}

/// A story reference read: `sc#123` gives the story alone, an address
/// gives the story and its workspace; `None` when neither form matches or
/// the number does not fit.
pub open spec fn shortcut_ref_spec(r: Seq<char>) -> Option<(u64, Option<Seq<char>>)> {
    match short_ref(r) {
        Some(d) => match crate::json::parse_u64_spec(d) {
            Some(n) => Some((n, None)),
            None => None,
        },
        None => match url_ref(r) {
            Some((w, d)) => match crate::json::parse_u64_spec(d) {
                Some(n) => Some((n, Some(w))),
                None => None,
            },
            None => None,
        },
    }
}

fn digits_end_exec(x: &[char], i: usize) -> (r: usize)
    requires
        i <= x.len(),
    ensures
        r as int == digits_end(x@, i as int),
        i <= r <= x.len(),
{
    let mut j = i;
    while j < x.len() && '0' <= x[j] && x[j] <= '9'
        invariant
            i <= j <= x.len(),
            digits_end(x@, i as int) == digits_end(x@, j as int),
        decreases x.len() - j,
    {
        j = j + 1;
    }
    j
}

/// Reads a story reference (`sc#123` or a story address).
pub fn parse_shortcut_ref(reference: &str) -> (r: Option<(u64, Option<String>)>)
    ensures
        match r {
            Some((n, w)) => shortcut_ref_spec(reference@) == Some((n, opt_view(w))),
            None => shortcut_ref_spec(reference@) is None,
        },
{
    let x = crate::text::chars_of(reference);
    let sc = crate::text::chars_of("sc#");
    proof {
        reveal_strlit("sc#");
    }
    if x.len() > 3 && crate::issue_body::ci_at_exec(x.as_slice(), sc.as_slice(), 0) && digits_end_exec(x.as_slice(), 3)
        == x.len() {
        let d = crate::text::string_of(&x[3..x.len()]);
        assert(d@ =~= reference@.skip(3));
        return match crate::json::parse_u64(d.as_str()) {
            Some(n) => Some((n, None)),
            None => None,
        };
    }
    let http = crate::text::chars_of("http");
    if !crate::issue_body::ci_at_exec(x.as_slice(), http.as_slice(), 0) {
        return None;
    }
    let p: usize = if 4 < x.len() && crate::issue_body::ci_char_exec(x[4], 's') {
        5
    } else {
        4
    };
    let host = crate::text::chars_of("://app.shortcut.com/");
    if !crate::issue_body::ci_at_exec(x.as_slice(), host.as_slice(), p) {
        return None;
    }
    let w0 = p + host.len();
    let slash = crate::text::chars_of("/");
    let w1 = match crate::text::find_in(x.as_slice(), slash.as_slice(), w0) {
        Some(w1) => w1,
        None => return None,
    };
    proof {
        crate::text::lemma_find_from(x@, slash@, w0 as int);
    }
    let story = crate::text::chars_of("/story/");
    if w1 <= w0 || !crate::issue_body::ci_at_exec(x.as_slice(), story.as_slice(), w1) {
        return None;
    }
    let d0 = w1 + story.len();
    let d1 = digits_end_exec(x.as_slice(), d0);
    if d1 <= d0 {
        return None;
    }
    let w = crate::text::string_of(&x[w0..w1]);
    let d = crate::text::string_of(&x[d0..d1]);
    match crate::json::parse_u64(d.as_str()) {
        Some(n) => Some((n, Some(w))),
        None => None,
    }
}

/// A workflow state read from an item: its unsigned `id` and string `type`.
pub open spec fn state_spec(j: JsonV) -> Option<WorkflowStateV> {
    match (json_u64(json_at(j, "id"@)), json_str(json_at(j, "type"@))) {
        (Some(id), Some(kind)) => Some(WorkflowStateV { id, kind }),
        _ => None,
    }
}

/// The states read from the items that are whole states, in order.
pub open spec fn states_spec(items: Seq<JsonV>) -> Seq<WorkflowStateV>
    decreases items.len(),
{
    if items.len() == 0 {
        Seq::empty()
    } else {
        let rest = states_spec(items.drop_last());
        match state_spec(items.last()) {
            Some(s) => rest.push(s),
            None => rest,
        }
    }
}

/// Reads the states of a workflow from the API's JSON (its `states`).
pub fn workflow_states_from_value(value: &Json) -> (r: Vec<WorkflowState>)
    ensures
        r@.map_values(|s: WorkflowState| s@) == states_spec(array_items(json_at(value@, "states"@))),
{
    let items = items_member(value, "states");
    let ghost iv = items_view(items@);
    let mut r: Vec<WorkflowState> = Vec::new();
    let mut i: usize = 0;
    while i < items.len()
        invariant
            i <= items.len(),
            iv == items_view(items@),
            iv == array_items(json_at(value@, "states"@)),
            r@.map_values(|s: WorkflowState| s@) == states_spec(iv.take(i as int)),
        decreases items.len() - i,
    {
        assert(iv.take(i + 1).drop_last() =~= iv.take(i as int));
        assert(iv.take(i + 1).last() == items@[i as int]@);
        if let Some(id) = u64_member(&items[i], "id") {
            if let Some(kind) = str_member(&items[i], "type") {
                let ghost before = r@.map_values(|s: WorkflowState| s@);
                let st = WorkflowState { id, kind };
                let ghost sv = st@;
                r.push(st);
                assert(r@.map_values(|s: WorkflowState| s@) =~= before.push(sv));
            }
        }
        i = i + 1;
    }
    assert(iv.take(items.len() as int) =~= iv);
    r
}

} // verus!
