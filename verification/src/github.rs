//! The GitHub sync's decisions: the labels an issue carries, whether an
//! issue needs an update, which side is newer, and what the task keeps of
//! its issue.
use vstd::prelude::*;

use crate::json::{json_at, json_get, json_str, json_u64, lemma_view_parts, items_view, Json, JsonV};
use crate::task::opt_view;
use crate::text::{cat2, cat3, has_prefix, int_dec, owned, push_str, starts_with, str_eq, trim, trimmed, u64_text};

verus! {

/// The prefix of the labels when none is configured.
pub const DEFAULT_LABEL_PREFIX: &'static str = "dex";

/// The labels of an issue: the prefix, its priority, and its status.
pub open spec fn labels_spec(prefix: Seq<char>, priority: i64, should_close: bool) -> Seq<Seq<char>> {
    seq![
        prefix,
        prefix + ":priority-"@ + int_dec(priority as int),
        prefix + ":"@ + if should_close {
            "completed"@
        } else {
            "pending"@
        },
    ]
}

/// The labels an issue for a task carries.
pub fn labels(prefix: &str, priority: i64, should_close: bool) -> (r: Vec<String>)
    ensures
        r.deep_view() == labels_spec(prefix@, priority, should_close),
{
    let mut r: Vec<String> = Vec::new();
    r.push(owned(prefix));
    r.push(cat3(prefix, ":priority-", crate::text::i64_text(priority).as_str()));
    r.push(cat3(prefix, ":", if should_close { "completed" } else { "pending" }));
    assert(r.deep_view() =~= labels_spec(prefix@, priority, should_close));
    r
}

/// The labels that start with the prefix, in order.
pub open spec fn own_labels_spec(labels: Seq<Seq<char>>, prefix: Seq<char>) -> Seq<Seq<char>>
    decreases labels.len(),
{
    if labels.len() == 0 {
        Seq::empty()
    } else {
        let rest = own_labels_spec(labels.drop_last(), prefix);
        if has_prefix(labels.last(), prefix) {
            rest.push(labels.last())
        } else {
            rest
        }
    }
}

/// Keeps the labels that start with the prefix.
pub fn own_labels(labels: &Vec<String>, prefix: &str) -> (r: Vec<String>)
    ensures
        r.deep_view() == own_labels_spec(labels.deep_view(), prefix@),
{
    let ghost lv = labels.deep_view();
    let mut r: Vec<String> = Vec::new();
    let mut i: usize = 0;
    while i < labels.len()
        invariant
            i <= labels.len(),
            lv == labels.deep_view(),
            r.deep_view() == own_labels_spec(lv.take(i as int), prefix@),
        decreases labels.len() - i,
    {
        assert(lv.take(i + 1).drop_last() =~= lv.take(i as int));
        assert(lv.take(i + 1).last() == labels@[i as int]@);
        if starts_with(labels[i].as_str(), prefix) {
            let ghost before = r.deep_view();
            r.push(labels[i].clone());
            assert(r.deep_view() =~= before.push(lv[i as int]));
        }
        i = i + 1;
    }
    assert(lv.take(labels.len() as int) =~= lv);
    r
}

/// Whether an issue differs from what the task wants: its title, its body
/// (trimmed), its state, or its labels (in any order).
pub open spec fn needs_update_spec(
    title: Seq<char>,
    body: Seq<char>,
    state: Seq<char>,
    labels: Seq<Seq<char>>,
    expected_title: Seq<char>,
    expected_body: Seq<char>,
    expected_labels: Seq<Seq<char>>,
    should_close: bool,
) -> bool {
    title != expected_title || trimmed(body) != trimmed(expected_body) || state != (if should_close {
        "closed"@
    } else {
        "open"@
    }) || crate::sort::sorted_texts(labels) != crate::sort::sorted_texts(expected_labels)
}

fn same_texts(a: &Vec<String>, b: &Vec<String>) -> (r: bool)
    ensures
        r == (a.deep_view() == b.deep_view()),
{
    if a.len() != b.len() {
        assert(a.deep_view().len() != b.deep_view().len());
        return false;
    }
    let mut i: usize = 0;
    while i < a.len()
        invariant
            i <= a.len(),
            a.len() == b.len(),
            forall|k: int| 0 <= k < i ==> a.deep_view()[k] == b.deep_view()[k],
        decreases a.len() - i,
    {
        if !str_eq(a[i].as_str(), b[i].as_str()) {
            assert(a.deep_view()[i as int] != b.deep_view()[i as int]);
            return false;
        }
        i = i + 1;
    }
    assert(a.deep_view() =~= b.deep_view());
    true
}

/// Whether an issue needs an update to match its task.
pub fn issue_needs_update(
    title: &str,
    body: &str,
    state: &str,
    labels: &Vec<String>,
    expected_title: &str,
    expected_body: &str,
    expected_labels: &Vec<String>,
    should_close: bool,
) -> (r: bool)
    ensures
        r == needs_update_spec(
            title@,
            body@,
            state@,
            labels.deep_view(),
            expected_title@,
            expected_body@,
            expected_labels.deep_view(),
            should_close,
        ),
{
    if !str_eq(title, expected_title) || !str_eq(trim(body).as_str(), trim(expected_body).as_str()) {
        return true;
    }
    let expected_state = if should_close {
        "closed"
    } else {
        "open"
    };
    if !str_eq(state, expected_state) {
        return true;
    }
    let have = crate::sort::sort_texts(labels);
    let want = crate::sort::sort_texts(expected_labels);
    !same_texts(&have, &want)
}

/// Whether the remote time is later than the local one, both RFC 3339;
/// `false` when either does not read.
pub open spec fn newer_spec(remote: Seq<char>, local: Seq<char>) -> bool {
    match (crate::clock::rfc3339_nanos(remote), crate::clock::rfc3339_nanos(local)) {
        (Some(r), Some(l)) => r > l,
        _ => false,
    }
}

/// Whether the remote copy is newer.
pub fn is_newer(remote: &str, local: &str) -> (r: bool)
    ensures
        r == newer_spec(remote@, local@),
{
    match (crate::clock::parse_rfc3339(remote), crate::clock::parse_rfc3339(local)) {
        (Some(r), Some(l)) => r > l,
        _ => false,
    }
}

/// The first seven characters of a commit SHA (all of a shorter one).
pub open spec fn short_spec(sha: Seq<char>) -> Seq<char> {
    if sha.len() <= 7 {
        sha
    } else {
        sha.take(7)
    }
}

/// Shortens a commit SHA. Its first seven characters must be single
/// bytes (the text is cut at the seventh byte).
pub fn short(sha: &str) -> (r: String)
    requires
        forall|k: int| 0 <= k < sha@.len() && k < 7 ==> (#[trigger] sha@[k] as u32) < 128,
    ensures
        r@ == short_spec(sha@),
{
    let x = crate::text::chars_of(sha);
    if x.len() <= 7 {
        owned(sha)
    } else {
        let r = crate::text::string_of(&x[0..7]);
        assert(r@ =~= sha@.take(7));
        r
    }
}

/// The issue a task's metadata names: `github.issueNumber`, else the
/// older `github_issue_number`.
pub open spec fn remote_id_spec(metadata: Option<JsonV>) -> Option<u64> {
    match metadata {
        None => None,
        Some(m) => match json_u64(json_at(json_at(m, "github"@), "issueNumber"@)) {
            Some(n) => Some(n),
            None => json_u64(json_at(m, "github_issue_number"@)),
        },
    }
}

fn at<'a>(j: &'a Json, key: &str) -> (r: Option<&'a Json>)
    ensures
        match r {
            Some(v) => json_at(j@, key@) == v@,
            None => json_at(j@, key@) == JsonV::Null,
        },
{
    j.get(key)
}

fn u64_at(j: Option<&Json>) -> (r: Option<u64>)
    ensures
        r == match j {
            Some(v) => json_u64(v@),
            None => json_u64(JsonV::Null),
        },
{
    match j {
        Some(v) => v.as_u64(),
        None => None,
    }
}

/// Reads the issue number a task is linked to.
pub fn remote_id(metadata: &Option<Json>) -> (r: Option<u64>)
    ensures
        r == remote_id_spec(crate::json::opt_json_view(*metadata)),
{
    let m = match metadata {
        Some(m) => m,
        None => return None,
    };
    let number = match at(m, "github") {
        Some(g) => u64_at(at(g, "issueNumber")),
        None => {
            assert(json_at(JsonV::Null, "issueNumber"@) == JsonV::Null);
            None
        },
    };
    match number {
        Some(n) => Some(n),
        None => u64_at(at(m, "github_issue_number")),
    }
}

/// The web address of an issue.
pub open spec fn issue_url_spec(owner: Seq<char>, repo: Seq<char>, number: u64) -> Seq<char> {
    "https://github.com/"@ + owner + "/"@ + repo + "/issues/"@ + crate::text::dec(number as nat)
}

/// Writes the web address of an issue.
pub fn issue_url(owner: &str, repo: &str, number: u64) -> (r: String)
    ensures
        r@ == issue_url_spec(owner@, repo@, number),
{
    let mut r = cat3("https://github.com/", owner, "/");
    push_str(&mut r, repo);
    push_str(&mut r, "/issues/");
    push_str(&mut r, u64_text(number).as_str());
    r
}

/// What a task keeps of its issue: number, address, repository, state.
pub open spec fn issue_metadata_spec(number: u64, url: Seq<char>, repo: Seq<char>, state: Seq<char>) -> JsonV {
    JsonV::Object(
        seq!["issueNumber"@, "issueUrl"@, "repo"@, "state"@],
        seq![
            JsonV::Number(crate::text::dec(number as nat)),
            JsonV::Str(url),
            JsonV::Str(repo),
            JsonV::Str(state),
        ],
    )
}

/// Writes what a task keeps of its issue.
pub fn issue_metadata(number: u64, url: &str, repo: &str, state: &str) -> (r: Json)
    ensures
        r@ == issue_metadata_spec(number, url@, repo@, state@),
{
    let mut keys: Vec<String> = Vec::new();
    keys.push(owned("issueNumber"));
    keys.push(owned("issueUrl"));
    keys.push(owned("repo"));
    keys.push(owned("state"));
    let mut values: Vec<Json> = Vec::new();
    values.push(Json::Number(u64_text(number)));
    values.push(Json::Str(owned(url)));
    values.push(Json::Str(owned(repo)));
    values.push(Json::Str(owned(state)));
    let r = Json::Object(keys, values);
    proof {
        lemma_view_parts(r);
        assert(keys.deep_view() =~= seq!["issueNumber"@, "issueUrl"@, "repo"@, "state"@]);
        assert(items_view(values@) =~= seq![
            JsonV::Number(crate::text::dec(number as nat)),
            JsonV::Str(url@),
            JsonV::Str(repo@),
            JsonV::Str(state@),
        ]);
    }
    r
}

/// The web address of a task's issue: the one it keeps, else the one of
/// the issue it names.
pub open spec fn remote_url_spec(metadata: Option<JsonV>, owner: Seq<char>, repo: Seq<char>) -> Option<Seq<char>> {
    match metadata {
        Some(m) => match json_str(json_at(json_at(m, "github"@), "issueUrl"@)) {
            Some(u) => Some(u),
            None => match remote_id_spec(metadata) {
                Some(n) => Some(issue_url_spec(owner, repo, n)),
                None => None,
            },
        },
        None => None,
    }
}

/// The web address of a task's issue.
pub fn remote_url(metadata: &Option<Json>, owner: &str, repo: &str) -> (r: Option<String>)
    ensures
        opt_view(r) == remote_url_spec(crate::json::opt_json_view(*metadata), owner@, repo@),
{
    let m = match metadata {
        Some(m) => m,
        None => return None,
    };
    let url = match at(m, "github") {
        Some(g) => match at(g, "issueUrl") {
            Some(u) => u.as_str(),
            None => None,
        },
        None => {
            assert(json_at(JsonV::Null, "issueUrl"@) == JsonV::Null);
            None
        },
    };
    match url {
        Some(u) => Some(u.clone()),
        None => match remote_id(metadata) {
            Some(n) => Some(issue_url(owner, repo, n)),
            None => None,
        },
    }
}

/// Where the sync of one root task is.
#[derive(Clone, Copy, Debug, PartialEq, Eq, Structural)]
pub enum Phase {
    Checking,
    Creating,
    Updating,
    Skipped,
}

/// A report of progress through a sync of all root tasks.
pub struct Progress {
    pub current: usize,
    pub total: usize,
    pub task_id: String,
    pub task_name: String,
    pub phase: Phase,
}

/// The progress report for a root task at a phase.
pub fn progress(current: usize, total: usize, task: &crate::task::Task, phase: Phase) -> (r: Progress)
    ensures
        r.current == current,
        r.total == total,
        r.task_id@ == task.id@,
        r.task_name@ == task.name@,
        r.phase == phase,
{
    Progress { current, total, task_id: task.id.clone(), task_name: task.name.clone(), phase }
}

/// The address of the next page in a `Link` header: among its
/// comma-separated parts, the first with a `;` whose rest holds
/// `rel="next"`, its address trimmed and without its angle brackets.
pub open spec fn next_link_spec(parts: Seq<Seq<char>>) -> Option<Seq<char>>
    decreases parts.len(),
{
    if parts.len() == 0 {
        None
    } else {
        match crate::text::split_once_spec(parts[0], ";"@) {
            Some((url, rel)) => if crate::text::seq_contains(rel, "rel=\"next\""@) {
                Some(crate::text::trim_end_pat(crate::text::trim_start_char(trimmed(url), '<'), ">"@))
            } else {
                next_link_spec(parts.drop_first())
            },
            None => next_link_spec(parts.drop_first()),
        }
    }
}

/// Finds the address of the next page in a `Link` header.
pub fn next_link(header: &str) -> (r: Option<String>)
    ensures
        opt_view(r) == next_link_spec(crate::text::split_char(header@, ',')),
{
    let parts = crate::text::split(header, ',');
    let ghost pv = parts.deep_view();
    let mut i: usize = 0;
    assert(pv.skip(0) =~= pv);
    while i < parts.len()
        invariant
            i <= parts.len(),
            pv == parts.deep_view(),
            pv == crate::text::split_char(header@, ','),
            next_link_spec(pv) == next_link_spec(pv.skip(i as int)),
        decreases parts.len() - i,
    {
        assert(pv.skip(i as int)[0] == parts@[i as int]@);
        assert(pv.skip(i as int).drop_first() =~= pv.skip(i + 1));
        if let Some((url, rel)) = crate::text::split_once(parts[i].as_str(), ";") {
            if crate::text::contains_str(rel.as_str(), "rel=\"next\"") {
                let a = trim(url.as_str());
                let b = crate::text::trim_start_matches(a.as_str(), '<');
                return Some(crate::text::trim_end_matches(b.as_str(), ">"));
            }
        }
        i = i + 1;
    }
    assert(pv.skip(i as int) =~= Seq::<Seq<char>>::empty());
    None
}

/// Whether a byte is kept as it is in a URL component.
pub open spec fn unreserved(b: u8) -> bool {
    (65 <= b <= 90) || (97 <= b <= 122) || (48 <= b <= 57) || b == 45 || b == 95 || b == 46 || b == 126
}

/// An upper-case hexadecimal digit.
pub open spec fn hex_upper(d: u8) -> char {
    if d < 10 {
        (48 + d) as char
    } else {
        (55 + d) as char
    }
}

/// The text for one byte: the byte itself when unreserved, else `%` and
/// its two upper-case hexadecimal digits.
pub open spec fn escaped_byte(b: u8) -> Seq<char> {
    if unreserved(b) {
        seq![b as char]
    } else {
        seq!['%', hex_upper(b / 16), hex_upper(b % 16)]
    }
}

/// The escaped text of some bytes.
pub open spec fn url_escaped(bs: Seq<u8>) -> Seq<char>
    decreases bs.len(),
{
    if bs.len() == 0 {
        Seq::empty()
    } else {
        url_escaped(bs.drop_last()) + escaped_byte(bs.last())
    }
}

fn hex_upper_exec(d: u8) -> (c: char)
    requires
        d < 16,
    ensures
        c == hex_upper(d),
{
    if d < 10 {
        (48 + d) as char
    } else {
        (55 + d) as char
    }
}

/// Escapes a text for a URL query: its UTF-8 bytes, the unreserved ones
/// as they are, the others as `%XX`.
pub fn urlencode(value: &str) -> (r: String)
    ensures
        r@ == url_escaped(crate::sync::utf8(value@)),
{
    let bytes = crate::sync::utf8_bytes(value);
    let ghost bv = bytes@;
    let mut out = String::new();
    assert(out@ =~= url_escaped(bv.take(0)));
    let mut i: usize = 0;
    while i < bytes.len()
        invariant
            i <= bytes.len(),
            bv == bytes@,
            out@ == url_escaped(bv.take(i as int)),
        decreases bytes.len() - i,
    {
        assert(bv.take(i + 1).drop_last() =~= bv.take(i as int));
        assert(bv.take(i + 1).last() == bytes@[i as int]);
        let b = bytes[i];
        if (65 <= b && b <= 90) || (97 <= b && b <= 122) || (48 <= b && b <= 57) || b == 45 || b == 95 || b == 46
            || b == 126 {
            crate::text::push_char(&mut out, b as char);
        } else {
            crate::text::push_char(&mut out, '%');
            crate::text::push_char(&mut out, hex_upper_exec(b / 16));
            crate::text::push_char(&mut out, hex_upper_exec(b % 16));
        }
        assert(out@ =~= url_escaped(bv.take(i + 1)));
        i = i + 1;
    }
    assert(bv.take(bytes.len() as int) =~= bv);
    out
}

} // verus!
