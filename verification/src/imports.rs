//! Importing remote items as tasks: a GitHub issue or a Shortcut story
//! becomes the input of a create (or, for a task already imported, of an
//! update), from the item's text and the metadata comments it carries.
use vstd::prelude::*;

use crate::config::drop_key;
use crate::issue_body::{body_spec, flat, parse_hierarchical_issue_body_at};
use crate::json::{items_view, json_at, json_str, json_u64, lemma_view_parts, members_insert, object_insert, Json, JsonV};
use crate::service::{CreateInput, UpdateInput};
use crate::shortcut::{array_items, member, story_url_spec, text_member, text_or_empty, u64_member, Story};
use crate::sync::{metadata_spec, parse_root_task_metadata, parse_story_description, root_metadata_spec, strip_spec, strip_task_comments, CommentMetadata, CommentMetadataV};
use crate::task::{opt_view, Task, TaskV};
use crate::text::{cat2, cat3, owned, str_eq, u64_text};

verus! {

/// The arguments of `dex sync`.
pub struct SyncArgs {
    pub task_id: Option<String>,
    pub github: bool,
    pub shortcut: bool,
    pub dry_run: bool,
}

/// The arguments of `dex import`.
pub struct ImportArgs {
    pub reference: Option<String>,
    pub all: bool,
    pub github: bool,
    pub shortcut: bool,
    pub update: bool,
    pub dry_run: bool,
}

/// An issue as the API returns it.
pub struct Issue {
    pub number: u64,
    pub title: String,
    pub body: String,
    pub state: String,
    pub html_url: String,
    pub labels: Vec<String>,
    pub is_pull_request: bool,
}

/// The value of an `Issue`.
pub struct IssueV {
    pub number: u64,
    pub title: Seq<char>,
    pub body: Seq<char>,
    pub state: Seq<char>,
    pub html_url: Seq<char>,
    pub labels: Seq<Seq<char>>,
    pub is_pull_request: bool,
}

impl View for Issue {
    type V = IssueV;

    open spec fn view(&self) -> IssueV {
        IssueV {
            number: self.number,
            title: self.title@,
            body: self.body@,
            state: self.state@,
            html_url: self.html_url@,
            labels: self.labels.deep_view(),
            is_pull_request: self.is_pull_request,
        }
    }
}

/// The names of an issue's labels: a label is a string or an object with a
/// string `name`; others are skipped.
pub open spec fn issue_labels(items: Seq<JsonV>) -> Seq<Seq<char>>
    decreases items.len(),
{
    if items.len() == 0 {
        Seq::empty()
    } else {
        let rest = issue_labels(items.drop_last());
        match items.last() {
            JsonV::Str(n) => rest.push(n),
            other => match json_str(json_at(other, "name"@)) {
                Some(n) => rest.push(n),
                None => rest,
            },
        }
    }
}

/// An issue read from the API's JSON: it must have an unsigned `number`;
/// the state defaults to `open`, other texts to empty; it is a pull request
/// when it has a `pull_request` member that is not null.
pub open spec fn issue_spec(j: JsonV) -> Option<IssueV> {
    match json_u64(json_at(j, "number"@)) {
        Some(n) => Some(
            IssueV {
                number: n,
                title: text_or_empty(json_at(j, "title"@)),
                body: text_or_empty(json_at(j, "body"@)),
                state: match json_str(json_at(j, "state"@)) {
                    Some(s) => s,
                    None => "open"@,
                },
                html_url: text_or_empty(json_at(j, "html_url"@)),
                labels: issue_labels(array_items(json_at(j, "labels"@))),
                is_pull_request: json_at(j, "pull_request"@) != JsonV::Null,
            },
        ),
        None => None,
    }
}

fn issue_label_list(items: &[Json]) -> (r: Vec<String>)
    ensures
        r.deep_view() == issue_labels(items_view(items@)),
{
    let ghost iv = items_view(items@);
    let mut r: Vec<String> = Vec::new();
    let mut i: usize = 0;
    while i < items.len()
        invariant
            i <= items.len(),
            iv == items_view(items@),
            r.deep_view() == issue_labels(iv.take(i as int)),
        decreases items.len() - i,
    {
        assert(iv.take(i + 1).drop_last() =~= iv.take(i as int));
        assert(iv.take(i + 1).last() == items@[i as int]@);
        let ghost before = r.deep_view();
        match &items[i] {
            Json::Str(n) => {
                r.push(n.clone());
                assert(r.deep_view() =~= before.push(n@));
            },
            other => {
                if let Some(n) = crate::shortcut::str_member(other, "name") {
                    r.push(n);
                    assert(r.deep_view() =~= before.push(json_str(json_at(other@, "name"@))->0));
                }
            },
        }
        i = i + 1;
    }
    assert(iv.take(items.len() as int) =~= iv);
    r
}

/// Reads an issue from the API's JSON.
pub fn issue_from_value(value: &Json) -> (r: Option<Issue>)
    ensures
        match r {
            Some(i) => issue_spec(value@) == Some(i@),
            None => issue_spec(value@) is None,
        },
{
    let number = match u64_member(value, "number") {
        Some(n) => n,
        None => return None,
    };
    let state = match crate::shortcut::str_member(value, "state") {
        Some(s) => s,
        None => owned("open"),
    };
    let is_pull_request = match member(value, "pull_request") {
        Some(p) => !matches!(p, Json::Null),
        None => false,
    };
    Some(
        Issue {
            number,
            title: text_member(value, "title"),
            body: text_member(value, "body"),
            state,
            html_url: text_member(value, "html_url"),
            labels: issue_label_list(crate::shortcut::items_member(value, "labels")),
            is_pull_request,
        },
    )
}

/// The context of an issue: the body above its task section, trimmed, with
/// its task comments taken out.
pub open spec fn issue_context(body: Seq<char>) -> Seq<char> {
    strip_spec(body_spec(body, Seq::empty()).description)
}

/// What a task keeps of its issue when imported: number, address, repository.
pub open spec fn github_link_spec(number: u64, owner: Seq<char>, repo: Seq<char>) -> JsonV {
    JsonV::Object(
        seq!["issueNumber"@, "issueUrl"@, "repo"@],
        seq![
            JsonV::Number(crate::text::dec(number as nat)),
            JsonV::Str(crate::github::issue_url_spec(owner, repo, number)),
            JsonV::Str(owner + "/"@ + repo),
        ],
    )
}

/// What a task keeps of its story when imported: id, address, workspace,
/// and `done` or `unstarted`.
pub open spec fn shortcut_link_spec(s: crate::shortcut::StoryV, workspace: Seq<char>) -> JsonV {
    JsonV::Object(
        seq!["storyId"@, "storyUrl"@, "workspace"@, "state"@],
        seq![
            JsonV::Number(crate::text::dec(s.id as nat)),
            JsonV::Str(s.app_url),
            JsonV::Str(workspace),
            JsonV::Str(
                if s.completed {
                    "done"@
                } else {
                    "unstarted"@
                },
            ),
        ],
    )
}

/// An object of the given members.
fn object_of(keys: Vec<String>, values: Vec<Json>) -> (r: Json)
    ensures
        r@ == JsonV::Object(keys.deep_view(), items_view(values@)),
{
    let r = Json::Object(keys, values);
    proof {
        lemma_view_parts(r);
    }
    r
}

fn github_link(number: u64, owner: &str, repo: &str) -> (r: Json)
    ensures
        r@ == github_link_spec(number, owner@, repo@),
{
    let mut keys: Vec<String> = Vec::new();
    keys.push(owned("issueNumber"));
    keys.push(owned("issueUrl"));
    keys.push(owned("repo"));
    let mut values: Vec<Json> = Vec::new();
    values.push(Json::Number(u64_text(number)));
    values.push(Json::Str(crate::github::issue_url(owner, repo, number)));
    values.push(Json::Str(cat3(owner, "/", repo)));
    assert(keys.deep_view() =~= seq!["issueNumber"@, "issueUrl"@, "repo"@]);
    let ghost vv = items_view(values@);
    assert(vv =~= seq![
        JsonV::Number(crate::text::dec(number as nat)),
        JsonV::Str(crate::github::issue_url_spec(owner@, repo@, number)),
        JsonV::Str(owner@ + "/"@ + repo@),
    ]);
    object_of(keys, values)
}

fn shortcut_link(story: &Story, workspace: &str) -> (r: Json)
    ensures
        r@ == shortcut_link_spec(story@, workspace@),
{
    let mut keys: Vec<String> = Vec::new();
    keys.push(owned("storyId"));
    keys.push(owned("storyUrl"));
    keys.push(owned("workspace"));
    keys.push(owned("state"));
    let mut values: Vec<Json> = Vec::new();
    values.push(Json::Number(u64_text(story.id)));
    values.push(Json::Str(story.app_url.clone()));
    values.push(Json::Str(owned(workspace)));
    values.push(Json::Str(owned(if story.completed { "done" } else { "unstarted" })));
    assert(keys.deep_view() =~= seq!["storyId"@, "storyUrl"@, "workspace"@, "state"@]);
    assert(items_view(values@) =~= shortcut_link_spec(story@, workspace@)->Object_1);
    object_of(keys, values)
}

/// The metadata of an imported task: the remote link under `key`, and the
/// commit the remote item records, if any.
pub open spec fn import_metadata(key: Seq<char>, link: JsonV, commit: Option<JsonV>) -> JsonV {
    match commit {
        Some(c) => JsonV::Object(seq![key, "commit"@], seq![link, c]),
        None => JsonV::Object(seq![key], seq![link]),
    }
}

/// The completion an imported task gets: the metadata's, else the remote
/// item's own.
pub open spec fn import_completed(meta: Option<CommentMetadataV>, closed: bool) -> bool {
    match meta {
        Some(m) => match m.completed {
            Some(b) => b,
            None => closed,
        },
        None => closed,
    }
}

/// The create input for an imported item: the id, priority, timestamps and
/// result from its metadata (a completed item without a result gets
/// `closed_result`), its name, its context (or `fallback` when empty), the
/// link under `key` with its commit, and no parent, start or blockers.
pub open spec fn import_input_ok(
    r: CreateInput,
    name: Seq<char>,
    context: Seq<char>,
    meta: Option<CommentMetadataV>,
    key: Seq<char>,
    link: JsonV,
    closed: bool,
    fallback: Seq<char>,
    closed_result: Seq<char>,
) -> bool {
    let completed = import_completed(meta, closed);
    &&& opt_view(r.id) == (match meta {
        Some(m) => m.id,
        None => None,
    })
    &&& r.name@ == name
    &&& opt_view(r.description) == Some(
        if context.len() == 0 {
            fallback
        } else {
            context
        },
    )
    &&& r.parent_id is None
    &&& r.priority == (match meta {
        Some(m) => m.priority,
        None => None,
    })
    &&& r.completed == Some(completed)
    &&& opt_view(r.result) == (if meta is Some && meta->0.result is Some {
        meta->0.result
    } else if completed {
        Some(closed_result)
    } else {
        None
    })
    &&& crate::json::opt_json_view(r.metadata) == Some(
        import_metadata(
            key,
            link,
            match meta {
                Some(m) => m.commit,
                None => None,
            },
        ),
    )
    &&& opt_view(r.created_at) == (match meta {
        Some(m) => m.created_at,
        None => None,
    })
    &&& opt_view(r.updated_at) == (match meta {
        Some(m) => m.updated_at,
        None => None,
    })
    &&& r.started_at is None
    &&& opt_view(r.completed_at) == (match meta {
        Some(m) => flat(m.completed_at),
        None => None,
    })
    &&& r.blocked_by@.len() == 0
}

fn meta_text(meta: &Option<CommentMetadata>, which: u8) -> (r: Option<String>)
    ensures
        opt_view(r) == match meta {
            Some(m) => if which == 0 {
                opt_view(m.id)
            } else if which == 1 {
                opt_view(m.created_at)
            } else if which == 2 {
                opt_view(m.updated_at)
            } else if which == 3 {
                opt_view(m.result)
            } else {
                flat(crate::sync::opt2_view(m.completed_at))
            },
            None => None,
        },
{
    match meta {
        Some(m) => {
            if which == 0 {
                crate::text::copy_opt(&m.id)
            } else if which == 1 {
                crate::text::copy_opt(&m.created_at)
            } else if which == 2 {
                crate::text::copy_opt(&m.updated_at)
            } else if which == 3 {
                crate::text::copy_opt(&m.result)
            } else {
                match &m.completed_at {
                    Some(Some(t)) => Some(t.clone()),
                    _ => None,
                }
            }
        },
        None => None,
    }
}

fn import_input(
    name: &str,
    context: String,
    meta: &Option<CommentMetadata>,
    key: &str,
    link: Json,
    closed: bool,
    fallback: String,
    closed_result: &str,
) -> (r: CreateInput)
    ensures
        import_input_ok(
            r,
            name@,
            context@,
            match meta {
                Some(m) => Some(m@),
                None => None,
            },
            key@,
            link@,
            closed,
            fallback@,
            closed_result@,
        ),
{
    let completed = match meta {
        Some(m) => match m.completed {
            Some(b) => b,
            None => closed,
        },
        None => closed,
    };
    let commit = match meta {
        Some(m) => crate::json::copy_opt_json(&m.commit),
        None => None,
    };
    let mut keys: Vec<String> = Vec::new();
    let mut values: Vec<Json> = Vec::new();
    let ghost lv = link@;
    keys.push(owned(key));
    values.push(link);
    let ghost cv = crate::json::opt_json_view(commit);
    if let Some(c) = commit {
        keys.push(owned("commit"));
        values.push(c);
    }
    assert(keys.deep_view() =~= import_metadata(key@, lv, cv)->Object_0);
    assert(items_view(values@) =~= import_metadata(key@, lv, cv)->Object_1);
    let metadata = object_of(keys, values);
    let existing_result = meta_text(meta, 3);
    let result = match existing_result {
        Some(t) => Some(t),
        None => if completed {
            Some(owned(closed_result))
        } else {
            None
        },
    };
    let priority = match meta {
        Some(m) => m.priority,
        None => None,
    };
    let description = if crate::text::chars_of(context.as_str()).len() == 0 {
        fallback
    } else {
        context
    };
    CreateInput {
        id: meta_text(meta, 0),
        name: owned(name),
        description: Some(description),
        parent_id: None,
        priority,
        completed: Some(completed),
        result,
        metadata: Some(metadata),
        created_at: meta_text(meta, 1),
        updated_at: meta_text(meta, 2),
        started_at: None,
        completed_at: meta_text(meta, 4),
        blocked_by: Vec::new(),
    }
}

/// The create input that imports an issue of `owner/repo` as a task.
pub fn issue_import_input(issue: &Issue, owner: &str, repo: &str) -> (r: CreateInput)
    ensures
        import_input_ok(
            r,
            issue@.title,
            issue_context(issue@.body),
            root_metadata_spec(issue@.body),
            "github"@,
            github_link_spec(issue.number, owner@, repo@),
            issue@.state == "closed"@,
            "Imported from GitHub issue #"@ + crate::text::dec(issue.number as nat),
            "Imported as completed from GitHub"@,
        ),
{
    let empty = String::new();
    assert(empty@ =~= Seq::<char>::empty());
    let parsed = parse_hierarchical_issue_body_at(issue.body.as_str(), empty.as_str());
    let context = strip_task_comments(parsed.description.as_str());
    let meta = parse_root_task_metadata(issue.body.as_str());
    let closed = str_eq(issue.state.as_str(), "closed");
    let fallback = cat2("Imported from GitHub issue #", u64_text(issue.number).as_str());
    import_input(
        issue.title.as_str(),
        context,
        &meta,
        "github",
        github_link(issue.number, owner, repo),
        closed,
        fallback,
        "Imported as completed from GitHub",
    )
}

/// The create input that imports a story of `workspace` as a task.
pub fn story_import_input(story: &Story, workspace: &str) -> (r: CreateInput)
    ensures
        import_input_ok(
            r,
            story@.name,
            strip_spec(story@.description),
            metadata_spec(story@.description, "task"@),
            "shortcut"@,
            shortcut_link_spec(story@, workspace@),
            story.completed,
            "Imported from Shortcut story #"@ + crate::text::dec(story.id as nat),
            "Imported as completed from Shortcut"@,
        ),
{
    let parsed = parse_story_description(story.description.as_str());
    let fallback = cat2("Imported from Shortcut story #", u64_text(story.id).as_str());
    import_input(
        story.name.as_str(),
        parsed.context,
        &parsed.metadata,
        "shortcut",
        shortcut_link(story, workspace),
        story.completed,
        fallback,
        "Imported as completed from Shortcut",
    )
}

/// The members of an object value, pair by pair; none for anything else.
pub open spec fn aligned(m: Option<JsonV>) -> (Seq<Seq<char>>, Seq<JsonV>) {
    match m {
        Some(JsonV::Object(k, v)) => {
            let n = if k.len() <= v.len() {
                k.len()
            } else {
                v.len()
            };
            (k.take(n as int), v.take(n as int))
        },
        _ => (Seq::empty(), Seq::empty()),
    }
}

/// A task's metadata refreshed from its remote item: its members (none when
/// it is not an object), with the link set under `key`, and `commit` set to
/// the item's commit or taken out when the item records none.
pub open spec fn refreshed_metadata(existing: Option<JsonV>, key: Seq<char>, link: JsonV, commit: Option<JsonV>) -> JsonV {
    let a = aligned(existing);
    let b = members_insert(a.0, a.1, key, link);
    match commit {
        Some(c) => {
            let d = members_insert(b.0, b.1, "commit"@, c);
            JsonV::Object(d.0, d.1)
        },
        None => {
            let d = drop_key(b.0, b.1, "commit"@, b.0.len() as int);
            JsonV::Object(d.0, d.1)
        },
    }
}

/// The update input that refreshes an imported task from its remote item:
/// its name, its context (kept when the item has none), its priority (the
/// metadata's, else kept), its completion from the item, a result when the
/// item is closed (the metadata's, else the task's, else `default_result`),
/// and its metadata refreshed; nothing else changes.
pub open spec fn update_input_ok(
    r: UpdateInput,
    existing: TaskV,
    title: Seq<char>,
    context: Seq<char>,
    meta: Option<CommentMetadataV>,
    key: Seq<char>,
    link: JsonV,
    closed: bool,
    default_result: Seq<char>,
) -> bool {
    &&& r.id@ == existing.id
    &&& opt_view(r.name) == Some(title)
    &&& opt_view(r.description) == Some(
        if context.len() == 0 {
            existing.description
        } else {
            context
        },
    )
    &&& r.parent_id is None
    &&& r.priority == Some(
        match meta {
            Some(m) => match m.priority {
                Some(p) => p,
                None => existing.priority,
            },
            None => existing.priority,
        },
    )
    &&& r.completed == Some(closed)
    &&& r.completed_at is None
    &&& (if closed {
        r.result matches Some(Some(t)) && t@ == (if meta is Some && meta->0.result is Some {
            meta->0.result->0
        } else if existing.result is Some {
            existing.result->0
        } else {
            default_result
        })
    } else {
        r.result is None
    })
    &&& r.started_at is None
    &&& r.updated_at is None
    &&& r.metadata matches Some(Some(m)) && m@ == refreshed_metadata(
        existing.metadata,
        key,
        link,
        match meta {
            Some(m) => m.commit,
            None => None,
        },
    )
    &&& r.add_blocked_by@.len() == 0
    &&& r.remove_blocked_by@.len() == 0
}

pub(crate) fn copy_members(m: &Option<Json>) -> (r: (Vec<String>, Vec<Json>))
    ensures
        r.0.len() == r.1.len(),
        (r.0.deep_view(), items_view(r.1@)) == aligned(crate::json::opt_json_view(*m)),
{
    let mut keys: Vec<String> = Vec::new();
    let mut values: Vec<Json> = Vec::new();
    if let Some(j) = m {
        if let Json::Object(ks, vs) = j {
            proof {
                lemma_view_parts(*j);
            }
            let n = if ks.len() <= vs.len() {
                ks.len()
            } else {
                vs.len()
            };
            let mut i: usize = 0;
            while i < n
                invariant
                    i <= n,
                    n <= ks.len(),
                    n <= vs.len(),
                    keys.len() == i,
                    values.len() == i,
                    keys.deep_view() == ks.deep_view().take(i as int),
                    items_view(values@) == items_view(vs@).take(i as int),
                decreases n - i,
            {
                keys.push(ks[i].clone());
                values.push(vs[i].deep_copy());
                assert(keys.deep_view() =~= ks.deep_view().take(i + 1));
                assert(items_view(values@) =~= items_view(vs@).take(i + 1));
                i = i + 1;
            }
            return (keys, values);
        }
    }
    assert(keys.deep_view() =~= Seq::<Seq<char>>::empty());
    assert(items_view(values@) =~= Seq::<JsonV>::empty());
    (keys, values)
}

fn without_commit(keys: Vec<String>, values: Vec<Json>) -> (r: Json)
    requires
        keys.len() == values.len(),
    ensures
        ({
            let d = drop_key(keys.deep_view(), items_view(values@), "commit"@, keys.len() as int);
            r@ == JsonV::Object(d.0, d.1)
        }),
{
    let ghost kv = keys.deep_view();
    let ghost vv = items_view(values@);
    let mut nk: Vec<String> = Vec::new();
    let mut nv: Vec<Json> = Vec::new();
    let mut values = values;
    let mut rest: Vec<Json> = Vec::new();
    let mut i: usize = 0;
    // Values are moved out from the back, then kept in order.
    while values.len() > 0
        invariant
            values.len() + rest.len() == keys.len(),
            keys.len() == kv.len(),
            vv.len() == kv.len(),
            forall|q: int| 0 <= q < values.len() ==> #[trigger] values@[q]@ == vv[q],
            forall|q: int| 0 <= q < rest.len() ==> #[trigger] rest@[q]@ == vv[keys.len() - 1 - q],
        decreases values.len(),
    {
        let v = values.pop().unwrap();
        rest.push(v);
    }
    while i < keys.len()
        invariant
            i <= keys.len(),
            keys.len() == kv.len(),
            kv == keys.deep_view(),
            vv.len() == kv.len(),
            rest.len() == keys.len() - i,
            forall|q: int| 0 <= q < rest.len() ==> #[trigger] rest@[q]@ == vv[keys.len() - 1 - q],
            nk.len() == nv.len(),
            (nk.deep_view(), items_view(nv@)) == drop_key(kv, vv, "commit"@, i as int),
        decreases keys.len() - i,
    {
        let v = rest.pop().unwrap();
        assert(v@ == vv[i as int]);
        if !str_eq(keys[i].as_str(), "commit") {
            nk.push(keys[i].clone());
            nv.push(v);
            assert(nk.deep_view() =~= drop_key(kv, vv, "commit"@, i as int).0.push(kv[i as int]));
            assert(items_view(nv@) =~= drop_key(kv, vv, "commit"@, i as int).1.push(vv[i as int]));
        }
        i = i + 1;
    }
    object_of(nk, nv)
}

fn refreshed(existing: &Option<Json>, key: &str, link: Json, commit: Option<Json>) -> (r: Json)
    ensures
        r@ == refreshed_metadata(crate::json::opt_json_view(*existing), key@, link@, crate::json::opt_json_view(commit)),
{
    let (mut keys, mut values) = copy_members(existing);
    object_insert(&mut keys, &mut values, owned(key), link);
    match commit {
        Some(c) => {
            object_insert(&mut keys, &mut values, owned("commit"), c);
            object_of(keys, values)
        },
        None => without_commit(keys, values),
    }
}

fn update_input(
    existing: &Task,
    title: &str,
    context: String,
    meta: &Option<CommentMetadata>,
    key: &str,
    link: Json,
    closed: bool,
    default_result: &str,
) -> (r: UpdateInput)
    ensures
        update_input_ok(
            r,
            existing@,
            title@,
            context@,
            match meta {
                Some(m) => Some(m@),
                None => None,
            },
            key@,
            link@,
            closed,
            default_result@,
        ),
{
    let commit = match meta {
        Some(m) => crate::json::copy_opt_json(&m.commit),
        None => None,
    };
    let metadata = refreshed(&existing.metadata, key, link, commit);
    let priority = match meta {
        Some(m) => match m.priority {
            Some(p) => p,
            None => existing.priority,
        },
        None => existing.priority,
    };
    let result = if closed {
        let from_meta = meta_text(meta, 3);
        Some(
            Some(
                match from_meta {
                    Some(t) => t,
                    None => match &existing.result {
                        Some(t) => t.clone(),
                        None => owned(default_result),
                    },
                },
            ),
        )
    } else {
        None
    };
    let description = if crate::text::chars_of(context.as_str()).len() == 0 {
        existing.description.clone()
    } else {
        context
    };
    UpdateInput {
        id: existing.id.clone(),
        name: Some(owned(title)),
        description: Some(description),
        parent_id: None,
        priority: Some(priority),
        completed: Some(closed),
        completed_at: None,
        result,
        started_at: None,
        updated_at: None,
        metadata: Some(Some(metadata)),
        add_blocked_by: Vec::new(),
        remove_blocked_by: Vec::new(),
    }
}

/// The update input that refreshes a task from its issue of `owner/repo`.
pub fn issue_update_input(existing: &Task, issue: &Issue, owner: &str, repo: &str) -> (r: UpdateInput)
    ensures
        update_input_ok(
            r,
            existing@,
            issue@.title,
            issue_context(issue@.body),
            root_metadata_spec(issue@.body),
            "github"@,
            github_link_spec(issue.number, owner@, repo@),
            issue@.state == "closed"@,
            "Updated from closed GitHub issue"@,
        ),
{
    let empty = String::new();
    assert(empty@ =~= Seq::<char>::empty());
    let parsed = parse_hierarchical_issue_body_at(issue.body.as_str(), empty.as_str());
    let context = strip_task_comments(parsed.description.as_str());
    let meta = parse_root_task_metadata(issue.body.as_str());
    let closed = str_eq(issue.state.as_str(), "closed");
    update_input(
        existing,
        issue.title.as_str(),
        context,
        &meta,
        "github",
        github_link(issue.number, owner, repo),
        closed,
        "Updated from closed GitHub issue",
    )
}

/// The update input that refreshes a task from its story of `workspace`.
pub fn story_update_input(existing: &Task, story: &Story, workspace: &str) -> (r: UpdateInput)
    ensures
        update_input_ok(
            r,
            existing@,
            story@.name,
            strip_spec(story@.description),
            metadata_spec(story@.description, "task"@),
            "shortcut"@,
            shortcut_link_spec(story@, workspace@),
            story.completed,
            "Updated from completed Shortcut story"@,
        ),
{
    let parsed = parse_story_description(story.description.as_str());
    update_input(
        existing,
        story.name.as_str(),
        parsed.context,
        &parsed.metadata,
        "shortcut",
        shortcut_link(story, workspace),
        story.completed,
        "Updated from completed Shortcut story",
    )
}

/// The create input for a subtask read from an imported issue, under the
/// local task `parent`: its own id, name, priority, completion, result,
/// metadata and timestamps (no start), and its description or, when it has
/// none, `Imported from GitHub issue`.
pub open spec fn subtask_input_ok(r: CreateInput, s: TaskV, parent: Seq<char>) -> bool {
    &&& opt_view(r.id) == Some(s.id)
    &&& r.name@ == s.name
    &&& opt_view(r.description) == Some(
        if s.description.len() == 0 {
            "Imported from GitHub issue"@
        } else {
            s.description
        },
    )
    &&& opt_view(r.parent_id) == Some(parent)
    &&& r.priority == Some(s.priority)
    &&& r.completed == Some(s.completed)
    &&& opt_view(r.result) == s.result
    &&& crate::json::opt_json_view(r.metadata) == s.metadata
    &&& opt_view(r.created_at) == s.created_at
    &&& opt_view(r.updated_at) == s.updated_at
    &&& r.started_at is None
    &&& opt_view(r.completed_at) == s.completed_at
    &&& r.blocked_by@.len() == 0
}

/// The create input for a subtask of an imported issue.
pub fn subtask_import_input(subtask: &crate::issue_body::ParsedSubtask, parent: &str) -> (r: CreateInput)
    ensures
        subtask_input_ok(r, subtask.task@, parent@),
{
    let t = &subtask.task;
    let description = if crate::text::chars_of(t.description.as_str()).len() == 0 {
        owned("Imported from GitHub issue")
    } else {
        t.description.clone()
    };
    CreateInput {
        id: Some(t.id.clone()),
        name: t.name.clone(),
        description: Some(description),
        parent_id: Some(owned(parent)),
        priority: Some(t.priority),
        completed: Some(t.completed),
        result: crate::text::copy_opt(&t.result),
        metadata: crate::json::copy_opt_json(&t.metadata),
        created_at: crate::text::copy_opt(&t.created_at),
        updated_at: crate::text::copy_opt(&t.updated_at),
        started_at: None,
        completed_at: crate::text::copy_opt(&t.completed_at),
        blocked_by: Vec::new(),
    }
}

} // verus!

verus! {

/// The number of the remote item a task is linked to: its GitHub issue, or
/// with `shortcut` its Shortcut story.
pub open spec fn linked_id(t: TaskV, shortcut: bool) -> Option<u64> {
    if shortcut {
        crate::shortcut::story_id_spec(t.metadata)
    } else {
        crate::github::remote_id_spec(t.metadata)
    }
}

/// The first position at `from` or later of a task linked to item `n`, or -1.
pub open spec fn first_linked(ts: Seq<TaskV>, n: u64, shortcut: bool, from: int) -> int
    decreases ts.len() - from,
{
    if from < 0 || from >= ts.len() {
        -1
    } else if linked_id(ts[from], shortcut) == Some(n) {
        from
    } else {
        first_linked(ts, n, shortcut, from + 1)
    }
}

/// Which items an import of all items creates tasks for (their positions),
/// and, with `update`, which it updates (the item's position and the task's).
pub open spec fn plan_spec(ts: Seq<TaskV>, ns: Seq<u64>, update: bool, shortcut: bool) -> (Seq<usize>, Seq<(usize, usize)>)
    decreases ns.len(),
{
    if ns.len() == 0 {
        (Seq::empty(), Seq::empty())
    } else {
        let rest = plan_spec(ts, ns.drop_last(), update, shortcut);
        let k = (ns.len() - 1) as usize;
        let j = first_linked(ts, ns.last(), shortcut, 0);
        if j == -1 {
            (rest.0.push(k), rest.1)
        } else if update {
            (rest.0, rest.1.push((k, j as usize)))
        } else {
            rest
        }
    }
}

proof fn lemma_first_linked(ts: Seq<TaskV>, n: u64, shortcut: bool, from: int)
    requires
        0 <= from,
    ensures
        first_linked(ts, n, shortcut, from) == -1 ==> forall|j: int|
            from <= j < ts.len() ==> linked_id(#[trigger] ts[j], shortcut) != Some(n),
        first_linked(ts, n, shortcut, from) != -1 ==> from <= first_linked(ts, n, shortcut, from) < ts.len()
            && linked_id(ts[first_linked(ts, n, shortcut, from)], shortcut) == Some(n),
    decreases ts.len() - from,
{
    if from < ts.len() {
        lemma_first_linked(ts, n, shortcut, from + 1);
    }
}

proof fn lemma_plan_new(ts: Seq<TaskV>, ns: Seq<u64>, update: bool, shortcut: bool)
    requires
        ns.len() <= usize::MAX,
    ensures
        forall|i: int|
            0 <= i < plan_spec(ts, ns, update, shortcut).0.len() ==> {
                let k = #[trigger] plan_spec(ts, ns, update, shortcut).0[i];
                &&& k < ns.len()
                &&& forall|j: int| 0 <= j < ts.len() ==> linked_id(#[trigger] ts[j], shortcut) != Some(ns[k as int])
            },
        plan_spec(ts, ns, update, shortcut).0.len() + plan_spec(ts, ns, update, shortcut).1.len() <= ns.len(),
    decreases ns.len(),
{
    if ns.len() > 0 {
        let d = ns.drop_last();
        lemma_plan_new(ts, d, update, shortcut);
        lemma_first_linked(ts, ns.last(), shortcut, 0);
        let rest = plan_spec(ts, d, update, shortcut);
        let p = plan_spec(ts, ns, update, shortcut);
        assert forall|i: int| 0 <= i < p.0.len() implies {
            let k = #[trigger] p.0[i];
            &&& k < ns.len()
            &&& forall|j: int| 0 <= j < ts.len() ==> linked_id(#[trigger] ts[j], shortcut) != Some(ns[k as int])
        } by {
            if i < rest.0.len() {
                assert(p.0[i] == rest.0[i]);
                let k = rest.0[i];
                assert(ns[k as int] == d[k as int]);
            } else {
                assert(first_linked(ts, ns.last(), shortcut, 0) == -1);
                assert(p.0[i] == (ns.len() - 1) as usize);
                assert(ns[ns.len() - 1] == ns.last());
            }
        }
    }
}

fn linked_number(task: &Task, shortcut: bool) -> (r: Option<u64>)
    ensures
        r == linked_id(task@, shortcut),
{
    if shortcut {
        crate::shortcut::remote_id(&task.metadata)
    } else {
        crate::github::remote_id(&task.metadata)
    }
}

/// Plans an import of all items numbered `numbers`: the positions of the
/// items no task is linked to, which are created; with `update`, each item
/// that is linked with the position of the first task linked to it, which
/// is updated; and how many are skipped. An item already linked to a task
/// is never imported again.
pub fn import_plan(tasks: &Vec<Task>, numbers: &Vec<u64>, update: bool, shortcut: bool) -> (r: (Vec<usize>, Vec<(usize, usize)>, usize))
    ensures
        (r.0@, r.1@) == plan_spec(tasks.deep_view(), numbers@, update, shortcut),
        r.2 == numbers.len() - r.0.len() - r.1.len(),
        forall|i: int|
            0 <= i < r.0.len() ==> #[trigger] r.0@[i] < numbers.len() && forall|j: int|
                0 <= j < tasks.len() ==> linked_id(#[trigger] tasks.deep_view()[j], shortcut) != Some(numbers@[r.0@[i] as int]),
{
    let ghost ts = tasks.deep_view();
    let mut fresh: Vec<usize> = Vec::new();
    let mut known: Vec<(usize, usize)> = Vec::new();
    let mut k: usize = 0;
    while k < numbers.len()
        invariant
            k <= numbers.len(),
            ts == tasks.deep_view(),
            (fresh@, known@) == plan_spec(ts, numbers@.take(k as int), update, shortcut),
        decreases numbers.len() - k,
    {
        let mut j: usize = 0;
        let mut found: Option<usize> = None;
        while j < tasks.len()
            invariant
                j <= tasks.len(),
                ts == tasks.deep_view(),
                k < numbers.len(),
                found is None ==> first_linked(ts, numbers@[k as int], shortcut, 0) == first_linked(
                    ts,
                    numbers@[k as int],
                    shortcut,
                    j as int,
                ),
                found matches Some(f) ==> first_linked(ts, numbers@[k as int], shortcut, 0) == f,
            decreases tasks.len() - j,
        {
            if found.is_none() {
                assert(tasks.deep_view()[j as int] == tasks@[j as int]@);
                if linked_number(&tasks[j], shortcut) == Some(numbers[k]) {
                    found = Some(j);
                }
            }
            j = j + 1;
        }
        assert(numbers@.take(k + 1).drop_last() =~= numbers@.take(k as int));
        assert(numbers@.take(k + 1).last() == numbers@[k as int]);
        match found {
            None => fresh.push(k),
            Some(f) => if update {
                known.push((k, f));
            },
        }
        k = k + 1;
    }
    assert(numbers@.take(numbers.len() as int) =~= numbers@);
    proof {
        lemma_plan_new(ts, numbers@, update, shortcut);
    }
    let skipped = numbers.len() - fresh.len() - known.len();
    (fresh, known, skipped)
}

} // verus!

verus! {

/// The last local id paired with `key`, if any.
pub open spec fn last_paired(pairs: Seq<(Seq<char>, Seq<char>)>, key: Seq<char>) -> Option<Seq<char>>
    decreases pairs.len(),
{
    if pairs.len() == 0 {
        None
    } else if pairs.last().0 == key {
        Some(pairs.last().1)
    } else {
        last_paired(pairs.drop_last(), key)
    }
}

/// The local parent of an imported subtask: the task created for its
/// remote parent (the latest one, where a remote id was imported twice),
/// else the imported root.
pub fn local_parent(created: &Vec<(String, String)>, remote_parent: &Option<String>, root: &str) -> (r: String)
    ensures
        r@ == match remote_parent {
            Some(p) => match last_paired(created@.map_values(|c: (String, String)| (c.0@, c.1@)), p@) {
                Some(l) => l,
                None => root@,
            },
            None => root@,
        },
{
    let ghost pv = created@.map_values(|c: (String, String)| (c.0@, c.1@));
    match remote_parent {
        None => owned(root),
        Some(p) => {
            let mut k = created.len();
            assert(pv.take(k as int) =~= pv);
            while k > 0
                invariant
                    k <= created.len(),
                    pv == created@.map_values(|c: (String, String)| (c.0@, c.1@)),
                    last_paired(pv, p@) == last_paired(pv.take(k as int), p@),
                    remote_parent matches Some(q) && q@ == p@,
                decreases k,
            {
                let ghost t = pv.take(k as int);
                assert(t.drop_last() =~= pv.take(k - 1));
                assert(t.last() == (created@[k - 1].0@, created@[k - 1].1@));
                if str_eq(created[k - 1].0.as_str(), p.as_str()) {
                    assert(last_paired(t, p@) == Some(created@[k - 1].1@));
                    return owned(created[k - 1].1.as_str());
                }
                k = k - 1;
            }
            assert(pv.take(0) =~= Seq::<(Seq<char>, Seq<char>)>::empty());
            owned(root)
        },
    }
}

} // verus!
