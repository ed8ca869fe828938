//! The MCP tools' requests: reading and checking a tool call's arguments
//! into the request a tool carries out, and shaping what a tool answers.
use vstd::prelude::*;

use crate::json::{items_view, json_get, lemma_view_parts, Json, JsonV};
use crate::listing::ListFilter;
use crate::service::{CreateInput, UpdateInput};
use crate::task::opt_view;
use crate::text::{cat2, chars_of, joined_by, owned, push_str};

verus! {

/// The longest text a tool accepts, in characters.
pub const MAX_CONTENT_LENGTH: usize = 51200;

/// An optional text argument and the complaints it raises.
pub open spec fn text_opt(args: JsonV, key: Seq<char>) -> (Option<Seq<char>>, Seq<Seq<char>>) {
    match json_get(args, key) {
        None => (None, Seq::empty()),
        Some(JsonV::Null) => (None, Seq::empty()),
        Some(JsonV::Str(t)) => if t.len() == 0 {
            (None, seq![key + ": String must contain at least 1 character(s)"@])
        } else if t.len() > MAX_CONTENT_LENGTH {
            (None, seq![key + ": String must contain at most 51200 character(s)"@])
        } else {
            (Some(t), Seq::empty())
        },
        Some(_) => (None, seq![key + ": Expected string"@]),
    }
}

/// A required text argument and the complaints it raises.
pub open spec fn text_req(args: JsonV, key: Seq<char>) -> (Option<Seq<char>>, Seq<Seq<char>>) {
    match json_get(args, key) {
        None => (None, seq![key + ": Required"@]),
        Some(JsonV::Null) => (None, seq![key + ": Required"@]),
        Some(_) => text_opt(args, key),
    }
}

/// A text argument that may be `null` (to clear), and its complaints.
pub open spec fn text_null(args: JsonV, key: Seq<char>) -> (Option<Option<Seq<char>>>, Seq<Seq<char>>) {
    match json_get(args, key) {
        None => (None, Seq::empty()),
        Some(JsonV::Null) => (Some(None), Seq::empty()),
        Some(_) => {
            let t = text_opt(args, key);
            (
                match t.0 {
                    Some(x) => Some(Some(x)),
                    None => None,
                },
                t.1,
            )
        },
    }
}

/// An optional boolean argument and its complaints.
pub open spec fn bool_opt(args: JsonV, key: Seq<char>) -> (Option<bool>, Seq<Seq<char>>) {
    match json_get(args, key) {
        None => (None, Seq::empty()),
        Some(JsonV::Null) => (None, Seq::empty()),
        Some(JsonV::Bool(b)) => (Some(b), Seq::empty()),
        Some(_) => (None, seq![key + ": Expected boolean"@]),
    }
}

/// The optional `priority` argument, an integer from 0 to 100, and its
/// complaints.
pub open spec fn priority_opt(args: JsonV) -> (Option<i64>, Seq<Seq<char>>) {
    match json_get(args, "priority"@) {
        None => (None, Seq::empty()),
        Some(JsonV::Null) => (None, Seq::empty()),
        Some(JsonV::Number(t)) => match crate::json::parse_i64_spec(t) {
            Some(v) => if 0 <= v <= 100 {
                (Some(v), Seq::empty())
            } else {
                (None, seq!["priority: Expected integer between 0 and 100"@])
            },
            None => (None, seq!["priority: Expected integer between 0 and 100"@]),
        },
        Some(_) => (None, seq!["priority: Expected number"@]),
    }
}

/// The non-empty string items of an array, with one complaint per other
/// item.
pub open spec fn id_items(items: Seq<JsonV>, key: Seq<char>) -> (Seq<Seq<char>>, Seq<Seq<char>>)
    decreases items.len(),
{
    if items.len() == 0 {
        (Seq::empty(), Seq::empty())
    } else {
        let rest = id_items(items.drop_last(), key);
        match items.last() {
            JsonV::Str(t) => if t.len() > 0 {
                (rest.0.push(t), rest.1)
            } else {
                (rest.0, rest.1.push(key + ": Expected non-empty string ids"@))
            },
            _ => (rest.0, rest.1.push(key + ": Expected non-empty string ids"@)),
        }
    }
}

/// An optional list of ids and its complaints.
pub open spec fn id_list(args: JsonV, key: Seq<char>) -> (Seq<Seq<char>>, Seq<Seq<char>>) {
    match json_get(args, key) {
        None => (Seq::empty(), Seq::empty()),
        Some(JsonV::Null) => (Seq::empty(), Seq::empty()),
        Some(JsonV::Array(items)) => id_items(items, key),
        Some(_) => (Seq::empty(), seq![key + ": Expected array"@]),
    }
}

fn complain(errors: &mut Vec<String>, key: &str, what: &str)
    ensures
        final(errors).deep_view() == old(errors).deep_view().push(key@ + what@),
{
    let ghost before = errors.deep_view();
    errors.push(cat2(key, what));
    assert(errors.deep_view() =~= before.push(key@ + what@));
}

/// Reads an optional text argument.
pub fn optional_text(args: &Json, key: &str, errors: &mut Vec<String>) -> (r: Option<String>)
    ensures
        opt_view(r) == text_opt(args@, key@).0,
        final(errors).deep_view() == old(errors).deep_view() + text_opt(args@, key@).1,
{
    let ghost before = errors.deep_view();
    match args.get(key) {
        None => {
            assert(errors.deep_view() =~= before + Seq::<Seq<char>>::empty());
            None
        },
        Some(Json::Null) => {
            assert(errors.deep_view() =~= before + Seq::<Seq<char>>::empty());
            None
        },
        Some(Json::Str(text)) => {
            let n = chars_of(text.as_str()).len();
            if n == 0 {
                complain(errors, key, ": String must contain at least 1 character(s)");
                assert(errors.deep_view() =~= before + text_opt(args@, key@).1);
                None
            } else if n > MAX_CONTENT_LENGTH {
                complain(errors, key, ": String must contain at most 51200 character(s)");
                assert(errors.deep_view() =~= before + text_opt(args@, key@).1);
                None
            } else {
                assert(errors.deep_view() =~= before + Seq::<Seq<char>>::empty());
                Some(text.clone())
            }
        },
        Some(_) => {
            complain(errors, key, ": Expected string");
            assert(errors.deep_view() =~= before + text_opt(args@, key@).1);
            None
        },
    }
}

/// Reads a required text argument.
pub fn required_text(args: &Json, key: &str, errors: &mut Vec<String>) -> (r: Option<String>)
    ensures
        opt_view(r) == text_req(args@, key@).0,
        final(errors).deep_view() == old(errors).deep_view() + text_req(args@, key@).1,
{
    let ghost before = errors.deep_view();
    match args.get(key) {
        None => {
            complain(errors, key, ": Required");
            assert(errors.deep_view() =~= before + text_req(args@, key@).1);
            None
        },
        Some(Json::Null) => {
            complain(errors, key, ": Required");
            assert(errors.deep_view() =~= before + text_req(args@, key@).1);
            None
        },
        Some(_) => optional_text(args, key, errors),
    }
}

/// Reads a text argument that may be `null`.
pub fn nullable_text(args: &Json, key: &str, errors: &mut Vec<String>) -> (r: Option<Option<String>>)
    ensures
        crate::sync::opt2_view(r) == text_null(args@, key@).0,
        final(errors).deep_view() == old(errors).deep_view() + text_null(args@, key@).1,
{
    let ghost before = errors.deep_view();
    match args.get(key) {
        None => {
            assert(errors.deep_view() =~= before + Seq::<Seq<char>>::empty());
            None
        },
        Some(Json::Null) => {
            assert(errors.deep_view() =~= before + Seq::<Seq<char>>::empty());
            Some(None)
        },
        Some(_) => match optional_text(args, key, errors) {
            Some(t) => Some(Some(t)),
            None => None,
        },
    }
}

/// Reads an optional boolean argument.
pub fn optional_bool(args: &Json, key: &str, errors: &mut Vec<String>) -> (r: Option<bool>)
    ensures
        r == bool_opt(args@, key@).0,
        final(errors).deep_view() == old(errors).deep_view() + bool_opt(args@, key@).1,
{
    let ghost before = errors.deep_view();
    match args.get(key) {
        Some(Json::Bool(b)) => {
            assert(errors.deep_view() =~= before + Seq::<Seq<char>>::empty());
            Some(*b)
        },
        None => {
            assert(errors.deep_view() =~= before + Seq::<Seq<char>>::empty());
            None
        },
        Some(Json::Null) => {
            assert(errors.deep_view() =~= before + Seq::<Seq<char>>::empty());
            None
        },
        Some(_) => {
            complain(errors, key, ": Expected boolean");
            assert(errors.deep_view() =~= before + bool_opt(args@, key@).1);
            None
        },
    }
}

/// Reads the optional `priority` argument.
pub fn optional_priority(args: &Json, errors: &mut Vec<String>) -> (r: Option<i64>)
    ensures
        r == priority_opt(args@).0,
        final(errors).deep_view() == old(errors).deep_view() + priority_opt(args@).1,
{
    let ghost before = errors.deep_view();
    proof {
        reveal_strlit("priority");
    }
    match args.get("priority") {
        None => {
            assert(errors.deep_view() =~= before + Seq::<Seq<char>>::empty());
            None
        },
        Some(Json::Null) => {
            assert(errors.deep_view() =~= before + Seq::<Seq<char>>::empty());
            None
        },
        Some(Json::Number(t)) => match crate::json::parse_i64(t.as_str()) {
            Some(v) => if 0 <= v && v <= 100 {
                assert(errors.deep_view() =~= before + Seq::<Seq<char>>::empty());
                Some(v)
            } else {
                errors.push(owned("priority: Expected integer between 0 and 100"));
                assert(errors.deep_view() =~= before + priority_opt(args@).1);
                None
            },
            None => {
                errors.push(owned("priority: Expected integer between 0 and 100"));
                assert(errors.deep_view() =~= before + priority_opt(args@).1);
                None
            },
        },
        Some(_) => {
            errors.push(owned("priority: Expected number"));
            assert(errors.deep_view() =~= before + priority_opt(args@).1);
            None
        },
    }
}

/// Reads an optional list of ids.
pub fn optional_id_list(args: &Json, key: &str, errors: &mut Vec<String>) -> (r: Vec<String>)
    ensures
        r.deep_view() == id_list(args@, key@).0,
        final(errors).deep_view() == old(errors).deep_view() + id_list(args@, key@).1,
{
    let ghost before = errors.deep_view();
    let mut r: Vec<String> = Vec::new();
    match args.get(key) {
        Some(Json::Array(items)) => {
            let ghost iv = items_view(items@);
            proof {
                lemma_view_parts(Json::Array(*items));
            }
            let mut i: usize = 0;
            while i < items.len()
                invariant
                    i <= items.len(),
                    iv == items_view(items@),
                    r.deep_view() == id_items(iv.take(i as int), key@).0,
                    errors.deep_view() == before + id_items(iv.take(i as int), key@).1,
                decreases items.len() - i,
            {
                assert(iv.take(i + 1).drop_last() =~= iv.take(i as int));
                assert(iv.take(i + 1).last() == items@[i as int]@);
                let ghost r0 = r.deep_view();
                let ghost e0 = errors.deep_view();
                let mut kept = false;
                match &items[i] {
                    Json::Str(t) => {
                        if chars_of(t.as_str()).len() > 0 {
                            r.push(t.clone());
                            assert(r.deep_view() =~= r0.push(t@));
                            kept = true;
                        }
                    },
                    _ => {},
                }
                if !kept {
                    complain(errors, key, ": Expected non-empty string ids");
                    assert(errors.deep_view() =~= before + id_items(iv.take(i + 1), key@).1);
                } else {
                    assert(errors.deep_view() =~= before + id_items(iv.take(i + 1), key@).1);
                }
                i = i + 1;
            }
            assert(iv.take(items.len() as int) =~= iv);
            r
        },
        None => {
            assert(errors.deep_view() =~= before + Seq::<Seq<char>>::empty());
            assert(r.deep_view() =~= Seq::<Seq<char>>::empty());
            r
        },
        Some(Json::Null) => {
            assert(errors.deep_view() =~= before + Seq::<Seq<char>>::empty());
            assert(r.deep_view() =~= Seq::<Seq<char>>::empty());
            r
        },
        Some(_) => {
            complain(errors, key, ": Expected array");
            assert(errors.deep_view() =~= before + id_list(args@, key@).1);
            assert(r.deep_view() =~= Seq::<Seq<char>>::empty());
            r
        },
    }
}

/// The complaint about invalid arguments.
pub open spec fn validation_message(errors: Seq<Seq<char>>) -> Seq<char> {
    "Validation error: "@ + joined_by(errors, ", "@)
}

/// Refuses a call whose arguments drew complaints.
pub fn validation(errors: &Vec<String>) -> (r: Result<(), String>)
    ensures
        match r {
            Ok(()) => errors.len() == 0,
            Err(m) => errors.len() > 0 && m@ == validation_message(errors.deep_view()),
        },
{
    if errors.len() == 0 {
        Ok(())
    } else {
        let mut m = owned("Validation error: ");
        push_str(&mut m, crate::text::join(errors, ", ").as_str());
        Err(m)
    }
}

/// The errors of the `create_task` arguments, in the order they are read.
pub open spec fn create_errors(args: JsonV) -> Seq<Seq<char>> {
    text_req(args, "name"@).1 + text_req(args, "description"@).1 + text_opt(args, "parent_id"@).1 + priority_opt(args).1
        + id_list(args, "blocked_by"@).1
}

/// Reads the arguments of `create_task`: a name and a description are
/// required, a parent, a priority and blockers may be given.
pub fn create_request(args: &Json) -> (r: Result<CreateInput, String>)
    ensures
        match r {
            Ok(input) => create_errors(args@).len() == 0 && Some(input.name@) == text_req(args@, "name"@).0 && opt_view(
                input.description,
            ) == text_req(args@, "description"@).0 && opt_view(input.parent_id) == text_opt(args@, "parent_id"@).0
                && input.priority == priority_opt(args@).0 && input.blocked_by.deep_view() == id_list(args@, "blocked_by"@).0
                && input.id is None && input.completed is None && input.result is None && input.metadata is None
                && input.created_at is None && input.updated_at is None && input.started_at is None
                && input.completed_at is None,
            Err(m) => create_errors(args@).len() > 0 && m@ == validation_message(create_errors(args@)),
        },
{
    let mut errors: Vec<String> = Vec::new();
    assert(errors.deep_view() =~= Seq::<Seq<char>>::empty());
    let name = required_text(args, "name", &mut errors);
    let description = required_text(args, "description", &mut errors);
    let parent_id = optional_text(args, "parent_id", &mut errors);
    let priority = optional_priority(args, &mut errors);
    let blocked_by = optional_id_list(args, "blocked_by", &mut errors);
    assert(errors.deep_view() =~= create_errors(args@));
    validation(&errors)?;
    let name = match name {
        Some(n) => n,
        None => {
            assert(create_errors(args@).len() > 0);
            String::new()
        },
    };
    Ok(CreateInput {
        id: None,
        name,
        description,
        parent_id,
        priority,
        completed: None,
        result: None,
        metadata: None,
        created_at: None,
        updated_at: None,
        started_at: None,
        completed_at: None,
        blocked_by,
    })
}

/// The errors of the `list_tasks` arguments.
pub open spec fn list_errors(args: JsonV) -> Seq<Seq<char>> {
    bool_opt(args, "completed"@).1 + text_opt(args, "query"@).1 + bool_opt(args, "all"@).1 + bool_opt(args, "blocked"@).1
        + bool_opt(args, "ready"@).1
}

/// Reads the arguments of `list_tasks` into a filter.
pub fn list_request(args: &Json) -> (r: Result<ListFilter, String>)
    ensures
        match r {
            Ok(f) => list_errors(args@).len() == 0 && f.all == (bool_opt(args@, "all"@).0 == Some(true)) && f.completed == (
            bool_opt(args@, "completed"@).0 == Some(true)) && !f.in_progress && f.blocked == (bool_opt(args@, "blocked"@).0
                == Some(true)) && f.ready == (bool_opt(args@, "ready"@).0 == Some(true)) && opt_view(f.query) == text_opt(
                args@,
                "query"@,
            ).0,
            Err(m) => list_errors(args@).len() > 0 && m@ == validation_message(list_errors(args@)),
        },
{
    let mut errors: Vec<String> = Vec::new();
    assert(errors.deep_view() =~= Seq::<Seq<char>>::empty());
    let completed = optional_bool(args, "completed", &mut errors);
    let query = optional_text(args, "query", &mut errors);
    let all = optional_bool(args, "all", &mut errors);
    let blocked = optional_bool(args, "blocked", &mut errors);
    let ready = optional_bool(args, "ready", &mut errors);
    assert(errors.deep_view() =~= list_errors(args@));
    validation(&errors)?;
    Ok(ListFilter {
        all: all == Some(true),
        completed: completed == Some(true),
        in_progress: false,
        blocked: blocked == Some(true),
        ready: ready == Some(true),
        query,
    })
}

/// A hexadecimal digit, either case.
pub open spec fn is_hex(c: char) -> bool {
    ('0' <= c <= '9') || ('a' <= c <= 'f') || ('A' <= c <= 'F')
}

/// A git SHA: 7 to 40 hexadecimal digits, in either case.
pub open spec fn sha_ok(s: Seq<char>) -> bool {
    7 <= s.len() <= 40 && forall|k: int| 0 <= k < s.len() ==> is_hex(#[trigger] s[k])
}

fn check_sha(s: &str) -> (r: bool)
    ensures
        r == sha_ok(s@),
{
    let x = chars_of(s);
    if x.len() < 7 || x.len() > 40 {
        return false;
    }
    let mut i: usize = 0;
    while i < x.len()
        invariant
            i <= x.len(),
            x@ == s@,
            7 <= x.len() <= 40,
            forall|k: int| 0 <= k < i ==> is_hex(#[trigger] x@[k]),
        decreases x.len() - i,
    {
        let c = x[i];
        if !(('0' <= c && c <= '9') || ('a' <= c && c <= 'f') || ('A' <= c && c <= 'F')) {
            return false;
        }
        i = i + 1;
    }
    true
}

/// The complaints `update_task` raises of its own: a start time that is
/// not RFC 3339, a malformed commit SHA, a commit URL not on HTTP(S).
pub open spec fn update_checks(
    started: Option<Option<Seq<char>>>,
    sha: Option<Seq<char>>,
    url: Option<Seq<char>>,
) -> (Seq<Seq<char>>, Seq<Seq<char>>, Seq<Seq<char>>) {
    (
        match started {
            Some(Some(t)) => if crate::clock::rfc3339_nanos(t) is None {
                seq!["started_at: Invalid datetime"@]
            } else {
                Seq::empty()
            },
            _ => Seq::empty(),
        },
        match sha {
            Some(t) => if !sha_ok(t) {
                seq!["commit_sha: Invalid git SHA format (expected 7-40 hex characters)"@]
            } else {
                Seq::empty()
            },
            None => Seq::empty(),
        },
        match url {
            Some(t) => if !(crate::text::has_prefix(t, "http://"@) || crate::text::has_prefix(t, "https://"@)) {
                seq!["commit_url: Invalid url"@]
            } else {
                Seq::empty()
            },
            None => Seq::empty(),
        },
    )
}

/// The errors of the `update_task` arguments, in the order they are read.
pub open spec fn update_errors(args: JsonV) -> Seq<Seq<char>> {
    let c = update_checks(
        text_null(args, "started_at"@).0,
        text_opt(args, "commit_sha"@).0,
        text_opt(args, "commit_url"@).0,
    );
    text_req(args, "id"@).1 + text_opt(args, "name"@).1 + text_opt(args, "description"@).1 + text_null(args, "parent_id"@).1
        + priority_opt(args).1 + bool_opt(args, "completed"@).1 + text_null(args, "started_at"@).1 + c.0 + text_opt(
        args,
        "result"@,
    ).1 + text_opt(args, "commit_sha"@).1 + c.1 + text_opt(args, "commit_message"@).1 + text_opt(args, "commit_branch"@).1
        + text_opt(args, "commit_url"@).1 + c.2 + bool_opt(args, "delete"@).1 + id_list(args, "add_blocked_by"@).1 + id_list(
        args,
        "remove_blocked_by"@,
    ).1
}

/// What `update_task` is asked to do.
pub enum UpdateRequest {
    /// Delete the task and its subtree.
    Delete { id: String },
    /// Change the task.
    Update(UpdateInput),
}

/// The commit an update links: its sha and time, then its message, branch
/// and URL when given, under `commit`.
pub open spec fn commit_json(
    sha: Seq<char>,
    now: Seq<char>,
    message: Option<Seq<char>>,
    branch: Option<Seq<char>>,
    url: Option<Seq<char>>,
) -> JsonV {
    let kv = crate::sync::push_member(
        crate::sync::push_member(
            crate::sync::push_member((seq!["sha"@, "timestamp"@], seq![JsonV::Str(sha), JsonV::Str(now)]), "message"@, message),
            "branch"@,
            branch,
        ),
        "url"@,
        url,
    );
    JsonV::Object(seq!["commit"@], seq![JsonV::Object(kv.0, kv.1)])
}

fn push_text(keys: &mut Vec<String>, values: &mut Vec<Json>, key: &str, v: Option<String>)
    ensures
        (final(keys).deep_view(), items_view(final(values)@)) == crate::sync::push_member(
            (old(keys).deep_view(), items_view(old(values)@)),
            key@,
            opt_view(v),
        ),
{
    match v {
        Some(t) => {
            let ghost k0 = keys.deep_view();
            let ghost v0 = items_view(values@);
            let ghost tv = t@;
            keys.push(owned(key));
            values.push(Json::Str(t));
            assert(keys.deep_view() =~= k0.push(key@));
            assert(items_view(values@) =~= v0.push(JsonV::Str(tv)));
        },
        None => {},
    }
}

fn commit_value(sha: String, now: &str, message: Option<String>, branch: Option<String>, url: Option<String>) -> (r: Json)
    ensures
        r@ == commit_json(sha@, now@, opt_view(message), opt_view(branch), opt_view(url)),
{
    let ghost sv = sha@;
    let mut keys: Vec<String> = Vec::new();
    let mut values: Vec<Json> = Vec::new();
    keys.push(owned("sha"));
    keys.push(owned("timestamp"));
    values.push(Json::Str(sha));
    values.push(Json::Str(owned(now)));
    assert(keys.deep_view() =~= seq!["sha"@, "timestamp"@]);
    assert(items_view(values@) =~= seq![JsonV::Str(sv), JsonV::Str(now@)]);
    push_text(&mut keys, &mut values, "message", message);
    push_text(&mut keys, &mut values, "branch", branch);
    push_text(&mut keys, &mut values, "url", url);
    let commit = Json::Object(keys, values);
    proof {
        lemma_view_parts(commit);
    }
    crate::json::single_member("commit", commit)
}

/// Reads the arguments of `update_task` at `now`: the task's id is
/// required; the rest may be given. A commit's time is `now`.
pub fn update_request(args: &Json, now: &str) -> (r: Result<UpdateRequest, String>)
    ensures
        match r {
            Err(m) => update_errors(args@).len() > 0 && m@ == validation_message(update_errors(args@)),
            Ok(UpdateRequest::Delete { id }) => update_errors(args@).len() == 0 && bool_opt(args@, "delete"@).0 == Some(true)
                && Some(id@) == text_req(args@, "id"@).0,
            Ok(UpdateRequest::Update(input)) => {
                &&& update_errors(args@).len() == 0
                &&& bool_opt(args@, "delete"@).0 != Some(true)
                &&& Some(input.id@) == text_req(args@, "id"@).0
                &&& opt_view(input.name) == text_opt(args@, "name"@).0
                &&& opt_view(input.description) == text_opt(args@, "description"@).0
                &&& crate::sync::opt2_view(input.parent_id) == text_null(args@, "parent_id"@).0
                &&& input.priority == priority_opt(args@).0
                &&& input.completed == bool_opt(args@, "completed"@).0
                &&& crate::sync::opt2_view(input.result) == match text_opt(args@, "result"@).0 {
                    Some(t) => Some(Some(t)),
                    None => None,
                }
                &&& crate::sync::opt2_view(input.started_at) == text_null(args@, "started_at"@).0
                &&& match text_opt(args@, "commit_sha"@).0 {
                    Some(sha) => input.metadata matches Some(m) && m matches Some(c) && c@ == commit_json(
                        sha,
                        now@,
                        text_opt(args@, "commit_message"@).0,
                        text_opt(args@, "commit_branch"@).0,
                        text_opt(args@, "commit_url"@).0,
                    ),
                    None => input.metadata is None,
                }
                &&& input.add_blocked_by.deep_view() == id_list(args@, "add_blocked_by"@).0
                &&& input.remove_blocked_by.deep_view() == id_list(args@, "remove_blocked_by"@).0
                &&& input.completed_at is None
                &&& input.updated_at is None
            },
        },
{
    let mut errors: Vec<String> = Vec::new();
    assert(errors.deep_view() =~= Seq::<Seq<char>>::empty());
    let id = required_text(args, "id", &mut errors);
    let name = optional_text(args, "name", &mut errors);
    let description = optional_text(args, "description", &mut errors);
    let parent_id = nullable_text(args, "parent_id", &mut errors);
    let priority = optional_priority(args, &mut errors);
    let completed = optional_bool(args, "completed", &mut errors);
    let started_at = nullable_text(args, "started_at", &mut errors);
    let ghost c = update_checks(
        text_null(args@, "started_at"@).0,
        text_opt(args@, "commit_sha"@).0,
        text_opt(args@, "commit_url"@).0,
    );
    let ghost e1 = errors.deep_view();
    match &started_at {
        Some(Some(stamp)) => {
            if crate::clock::parse_rfc3339(stamp.as_str()).is_none() {
                errors.push(owned("started_at: Invalid datetime"));
            }
        },
        _ => {},
    }
    assert(errors.deep_view() =~= e1 + c.0);
    let result = optional_text(args, "result", &mut errors);
    let commit_sha = optional_text(args, "commit_sha", &mut errors);
    let ghost e2 = errors.deep_view();
    match &commit_sha {
        Some(sha) => {
            if !check_sha(sha.as_str()) {
                errors.push(owned("commit_sha: Invalid git SHA format (expected 7-40 hex characters)"));
            }
        },
        None => {},
    }
    assert(errors.deep_view() =~= e2 + c.1);
    let commit_message = optional_text(args, "commit_message", &mut errors);
    let commit_branch = optional_text(args, "commit_branch", &mut errors);
    let commit_url = optional_text(args, "commit_url", &mut errors);
    let ghost e3 = errors.deep_view();
    match &commit_url {
        Some(url) => {
            if !(crate::text::starts_with(url.as_str(), "http://") || crate::text::starts_with(url.as_str(), "https://")) {
                errors.push(owned("commit_url: Invalid url"));
            }
        },
        None => {},
    }
    assert(errors.deep_view() =~= e3 + c.2);
    let delete = optional_bool(args, "delete", &mut errors);
    let add_blocked_by = optional_id_list(args, "add_blocked_by", &mut errors);
    let remove_blocked_by = optional_id_list(args, "remove_blocked_by", &mut errors);
    assert(errors.deep_view() =~= update_errors(args@));
    validation(&errors)?;
    let id = match id {
        Some(i) => i,
        None => {
            assert(update_errors(args@).len() > 0);
            String::new()
        },
    };
    if delete == Some(true) {
        return Ok(UpdateRequest::Delete { id });
    }
    let metadata = match commit_sha {
        Some(sha) => Some(Some(commit_value(sha, now, commit_message, commit_branch, commit_url))),
        None => None,
    };
    let result = match result {
        Some(t) => Some(Some(t)),
        None => None,
    };
    Ok(
        UpdateRequest::Update(
            UpdateInput {
                id,
                name,
                description,
                parent_id,
                priority,
                completed,
                completed_at: None,
                result,
                started_at,
                updated_at: None,
                metadata,
                add_blocked_by,
                remove_blocked_by,
            },
        ),
    )
}

/// What a tool reports on a failure: the message, and the hint after
/// `\nHint: ` as a suggestion when there is one.
pub open spec fn error_body_spec(text: Seq<char>) -> JsonV {
    match crate::text::split_once_spec(text, "\nHint: "@) {
        Some((m, h)) => JsonV::Object(seq!["error"@, "suggestion"@], seq![JsonV::Str(m), JsonV::Str(h)]),
        None => JsonV::Object(seq!["error"@], seq![JsonV::Str(text)]),
    }
}

/// Shapes a tool's failure.
pub fn error_body(text: &str) -> (r: Json)
    ensures
        r@ == error_body_spec(text@),
{
    match crate::text::split_once(text, "\nHint: ") {
        Some((m, h)) => {
            let mut keys: Vec<String> = Vec::new();
            keys.push(owned("error"));
            keys.push(owned("suggestion"));
            let ghost mv = m@;
            let ghost hv = h@;
            let mut values: Vec<Json> = Vec::new();
            values.push(Json::Str(m));
            values.push(Json::Str(h));
            let r = Json::Object(keys, values);
            proof {
                lemma_view_parts(r);
                assert(keys.deep_view() =~= seq!["error"@, "suggestion"@]);
                assert(items_view(values@) =~= seq![JsonV::Str(mv), JsonV::Str(hv)]);
            }
            r
        },
        None => crate::json::single_member("error", Json::Str(owned(text))),
    }
}

/// What the MCP server works with.
pub struct Server<'a> {
    pub store_dir: &'a str,
    pub cwd: &'a str,
    pub config: &'a crate::config::Config,
    pub write_options: &'a crate::store::WriteOptions,
}

/// The help of the `mcp` command for a program invoked as `name`.
pub open spec fn help_text_spec(name: Seq<char>) -> Seq<char> {
    name + " mcp - Start MCP (Model Context Protocol) server\n\nUSAGE:\n  "@ + name
        + " mcp [options]\n\nOPTIONS:\n  --config <path>            Use custom config file\n  --storage-path <path>      Override storage file location\n  -h, --help                 Show this help message\n\nDESCRIPTION:\n  Starts the MCP server over stdio for integration with AI assistants.\n  The server exposes task management tools that can be called by MCP clients.\n\nEXAMPLE:\n  "@
        + name + " mcp                    # Start MCP server with default storage\n  "@ + name
        + " mcp --config ./test.toml\n  "@ + name + " mcp --storage-path ~/.dex/tasks\n"@
}

/// The help of the `mcp` command.
pub fn help_text(invoked_as: &str) -> (r: String)
    ensures
        r@ == help_text_spec(invoked_as@),
{
    let mut r = owned(invoked_as);
    push_str(&mut r, " mcp - Start MCP (Model Context Protocol) server\n\nUSAGE:\n  ");
    push_str(&mut r, invoked_as);
    push_str(&mut r, " mcp [options]\n\nOPTIONS:\n  --config <path>            Use custom config file\n  --storage-path <path>      Override storage file location\n  -h, --help                 Show this help message\n\nDESCRIPTION:\n  Starts the MCP server over stdio for integration with AI assistants.\n  The server exposes task management tools that can be called by MCP clients.\n\nEXAMPLE:\n  ");
    push_str(&mut r, invoked_as);
    push_str(&mut r, " mcp                    # Start MCP server with default storage\n  ");
    push_str(&mut r, invoked_as);
    push_str(&mut r, " mcp --config ./test.toml\n  ");
    push_str(&mut r, invoked_as);
    push_str(&mut r, " mcp --storage-path ~/.dex/tasks\n");
    r
}

/// A tool's answer: its text as one text content item, flagged as an
/// error when it is one.
pub open spec fn tool_answer_spec(text: Seq<char>, is_error: bool) -> JsonV {
    let item = JsonV::Object(seq!["type"@, "text"@], seq![JsonV::Str("text"@), JsonV::Str(text)]);
    if is_error {
        JsonV::Object(seq!["content"@, "isError"@], seq![JsonV::Array(seq![item]), JsonV::Bool(true)])
    } else {
        JsonV::Object(seq!["content"@], seq![JsonV::Array(seq![item])])
    }
}

/// Shapes a tool's answer.
pub fn tool_answer(text: String, is_error: bool) -> (r: Json)
    ensures
        r@ == tool_answer_spec(text@, is_error),
{
    let ghost tv = text@;
    let mut ik: Vec<String> = Vec::new();
    ik.push(owned("type"));
    ik.push(owned("text"));
    let mut iv: Vec<Json> = Vec::new();
    iv.push(Json::Str(owned("text")));
    iv.push(Json::Str(text));
    let item = Json::Object(ik, iv);
    proof {
        lemma_view_parts(item);
        assert(ik.deep_view() =~= seq!["type"@, "text"@]);
        assert(items_view(iv@) =~= seq![JsonV::Str("text"@), JsonV::Str(tv)]);
    }
    let ghost itv = item@;
    let mut items: Vec<Json> = Vec::new();
    items.push(item);
    let content = Json::Array(items);
    proof {
        lemma_view_parts(content);
        assert(items_view(items@) =~= seq![itv]);
    }
    let ghost cv = content@;
    let mut keys: Vec<String> = Vec::new();
    let mut values: Vec<Json> = Vec::new();
    keys.push(owned("content"));
    values.push(content);
    if is_error {
        keys.push(owned("isError"));
        values.push(Json::Bool(true));
        assert(keys.deep_view() =~= seq!["content"@, "isError"@]);
        assert(items_view(values@) =~= seq![cv, JsonV::Bool(true)]);
    } else {
        assert(keys.deep_view() =~= seq!["content"@]);
        assert(items_view(values@) =~= seq![cv]);
    }
    let r = Json::Object(keys, values);
    proof {
        lemma_view_parts(r);
    }
    r
}

} // verus!

verus! {

/// What the server does with one line of its input.
pub enum McpAction {
    /// Nothing: a blank line, or a notification (a message without `id`).
    Ignore,
    /// Write this reply.
    Reply(Json),
    /// Reply to request `id` with the list of tools.
    ListTools(Json),
    /// Run tool `name` on `arguments`, and reply to request `id` with what
    /// it answers.
    CallTool { id: Json, name: String, arguments: Json },
}

/// A JSON-RPC result reply.
pub open spec fn result_reply_spec(id: JsonV, result: JsonV) -> JsonV {
    JsonV::Object(seq!["jsonrpc"@, "id"@, "result"@], seq![JsonV::Str("2.0"@), id, result])
}

/// A JSON-RPC error reply.
pub open spec fn error_reply_spec(id: JsonV, code: Seq<char>, message: Seq<char>) -> JsonV {
    JsonV::Object(
        seq!["jsonrpc"@, "id"@, "error"@],
        seq![JsonV::Str("2.0"@), id, JsonV::Object(seq!["code"@, "message"@], seq![JsonV::Number(code), JsonV::Str(message)])],
    )
}

/// What `initialize` answers.
pub open spec fn initialize_spec() -> JsonV {
    JsonV::Object(
        seq!["protocolVersion"@, "capabilities"@, "serverInfo"@],
        seq![
            JsonV::Str("2024-11-05"@),
            JsonV::Object(seq!["tools"@], seq![JsonV::Object(Seq::empty(), Seq::empty())]),
            JsonV::Object(seq!["name"@, "version"@], seq![JsonV::Str("dex"@), JsonV::Str("1.0.0"@)]),
        ],
    )
}

/// A member's string, or empty when it is missing or not a string.
pub open spec fn str_member(v: JsonV, key: Seq<char>) -> Seq<char> {
    match json_get(v, key) {
        Some(x) => match crate::json::json_str(x) {
            Some(t) => t,
            None => Seq::empty(),
        },
        None => Seq::empty(),
    }
}

/// What the server does with a line: blank lines and notifications are
/// ignored, a line that is not JSON gets a parse error, a request is
/// answered by its method (an unknown one gets "method not found").
pub open spec fn mcp_step_spec(line: Seq<char>, r: McpAction) -> bool {
    if crate::text::trimmed(line).len() == 0 {
        r is Ignore
    } else {
        match crate::json::json_parse(line) {
            Err(e) => r matches McpAction::Reply(x) && x@ == error_reply_spec(JsonV::Null, "-32700"@, "Parse error: "@ + e),
            Ok(m) => match json_get(m, "id"@) {
                None => r is Ignore,
                Some(id) => {
                    let method = str_member(m, "method"@);
                    let params = match json_get(m, "params"@) {
                        Some(p) => p,
                        None => JsonV::Null,
                    };
                    if method == "initialize"@ {
                        r matches McpAction::Reply(x) && x@ == result_reply_spec(id, initialize_spec())
                    } else if method == "ping"@ {
                        r matches McpAction::Reply(x) && x@ == result_reply_spec(id, JsonV::Object(Seq::empty(), Seq::empty()))
                    } else if method == "tools/list"@ {
                        r matches McpAction::ListTools(x) && x@ == id
                    } else if method == "tools/call"@ {
                        r matches McpAction::CallTool { id: x, name, arguments } && x@ == id && name@ == str_member(
                            params,
                            "name"@,
                        ) && arguments@ == match json_get(params, "arguments"@) {
                            Some(a) => a,
                            None => JsonV::Object(Seq::empty(), Seq::empty()),
                        }
                    } else {
                        r matches McpAction::Reply(x) && x@ == error_reply_spec(id, "-32601"@, "Method not found: "@ + method)
                    }
                },
            },
        }
    }
}

/// A result reply to request `id`.
pub fn result_reply(id: Json, result: Json) -> (r: Json)
    ensures
        r@ == result_reply_spec(id@, result@),
{
    crate::json::three_members("jsonrpc", Json::Str(owned("2.0")), "id", id, "result", result)
}

fn error_reply(id: Json, code: &str, message: String) -> (r: Json)
    ensures
        r@ == error_reply_spec(id@, code@, message@),
{
    let e = crate::json::two_members("code", Json::Number(owned(code)), "message", Json::Str(message));
    crate::json::three_members("jsonrpc", Json::Str(owned("2.0")), "id", id, "error", e)
}

fn empty_json_object() -> (r: Json)
    ensures
        r@ == JsonV::Object(Seq::empty(), Seq::empty()),
{
    let keys: Vec<String> = Vec::new();
    let values: Vec<Json> = Vec::new();
    let r = Json::Object(keys, values);
    proof {
        lemma_view_parts(r);
        assert(keys.deep_view() =~= Seq::<Seq<char>>::empty());
        assert(items_view(values@) =~= Seq::<JsonV>::empty());
    }
    r
}

fn member_text(v: &Json, key: &str) -> (r: String)
    ensures
        r@ == str_member(v@, key@),
{
    match v.get(key) {
        Some(x) => match x.as_str() {
            Some(t) => owned(t.as_str()),
            None => String::new(),
        },
        None => String::new(),
    }
}

/// Decides what the server does with one line of its input.
pub fn mcp_step(line: &str) -> (r: McpAction)
    ensures
        mcp_step_spec(line@, r),
{
    let trimmed_line = crate::text::trim(line);
    proof {
        reveal_strlit("");
    }
    if crate::text::str_eq(trimmed_line.as_str(), "") {
        return McpAction::Ignore;
    }
    assert(crate::text::trimmed(line@).len() != 0) by {
        if crate::text::trimmed(line@).len() == 0 {
            assert(trimmed_line@ =~= ""@);
        }
    }
    let m = match crate::json::parse_json(line) {
        Err(e) => {
            return McpAction::Reply(error_reply(Json::Null, "-32700", cat2("Parse error: ", e.as_str())));
        },
        Ok(m) => m,
    };
    let id = match m.get("id") {
        None => return McpAction::Ignore,
        Some(id) => id.clone(),
    };
    let method = member_text(&m, "method");
    proof {
        reveal_strlit("initialize");
        reveal_strlit("ping");
        reveal_strlit("tools/list");
        reveal_strlit("tools/call");
    }
    if crate::text::str_eq(method.as_str(), "initialize") {
        let tools = crate::json::single_member("tools", empty_json_object());
        let info = crate::json::two_members("name", Json::Str(owned("dex")), "version", Json::Str(owned("1.0.0")));
        let result = crate::json::three_members(
            "protocolVersion",
            Json::Str(owned("2024-11-05")),
            "capabilities",
            tools,
            "serverInfo",
            info,
        );
        return McpAction::Reply(result_reply(id, result));
    }
    if crate::text::str_eq(method.as_str(), "ping") {
        return McpAction::Reply(result_reply(id, empty_json_object()));
    }
    if crate::text::str_eq(method.as_str(), "tools/list") {
        return McpAction::ListTools(id);
    }
    if crate::text::str_eq(method.as_str(), "tools/call") {
        let (name, arguments) = match m.get("params") {
            Some(p) => (
                member_text(p, "name"),
                match p.get("arguments") {
                    Some(a) => a.clone(),
                    None => empty_json_object(),
                },
            ),
            None => {
                assert(json_get(JsonV::Null, "name"@) is None);
                (String::new(), empty_json_object())
            },
        };
        return McpAction::CallTool { id, name, arguments };
    }
    McpAction::Reply(error_reply(id, "-32601", cat2("Method not found: ", method.as_str())))
}

} // verus!
