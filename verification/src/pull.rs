//! What a sync takes back from a remote copy that is newer than the local
//! task: its timestamp, its completion, and its commit.
use vstd::prelude::*;

use crate::closing::commit_sha_spec;
use crate::github::{is_newer, newer_spec};
use crate::issue_body::{flat, parse_hierarchical_issue_body, parse_hierarchical_issue_body_at, body_spec, ParsedSubtask, ParsedSubtaskV};
use crate::json::{json_get, lemma_view_parts, members_insert, object_insert, opt_json_view, Json, JsonV};
use crate::service::UpdateInput;
use crate::text::owned;
use crate::sync::{opt2_view, CommentMetadata, CommentMetadataV};
use crate::task::{has_task, opt_view, task_of, Task, TaskV};

verus! {

/// Fields the remote copy was found to have advanced past the local task.
pub struct LocalUpdates {
    pub updated_at: Option<String>,
    pub completed: Option<bool>,
    pub completed_at: Option<String>,
    pub result: Option<String>,
    pub started_at: Option<String>,
    pub commit: Option<Json>,
}

/// The value of `LocalUpdates`.
pub struct LocalUpdatesV {
    pub updated_at: Option<Seq<char>>,
    pub completed: Option<bool>,
    pub completed_at: Option<Seq<char>>,
    pub result: Option<Seq<char>>,
    pub started_at: Option<Seq<char>>,
    pub commit: Option<JsonV>,
}

impl View for LocalUpdates {
    type V = LocalUpdatesV;

    open spec fn view(&self) -> LocalUpdatesV {
        LocalUpdatesV {
            updated_at: opt_view(self.updated_at),
            completed: self.completed,
            completed_at: opt_view(self.completed_at),
            result: opt_view(self.result),
            started_at: opt_view(self.started_at),
            commit: opt_json_view(self.commit),
        }
    }
}

/// The outcome of syncing one task.
pub struct SyncResult {
    pub task_id: String,
    pub metadata: Json,
    pub created: bool,
    pub skipped: bool,
    pub pulled_from_remote: bool,
    pub local_updates: Option<LocalUpdates>,
    pub issue_not_closing_reason: Option<String>,
    pub subtask_results: Vec<SyncResult>,
}

impl SyncResult {
    /// A result that records only the task, its remote metadata and whether
    /// its remote item was created.
    pub fn new_public(task_id: &str, metadata: Json, created: bool) -> (r: SyncResult)
        ensures
            r.task_id@ == task_id@,
            r.metadata@ == metadata@,
            r.created == created,
            !r.skipped,
            !r.pulled_from_remote,
            r.local_updates is None,
            r.issue_not_closing_reason is None,
            r.subtask_results@.len() == 0,
    {
        SyncResult {
            task_id: crate::text::owned(task_id),
            metadata,
            created,
            skipped: false,
            pulled_from_remote: false,
            local_updates: None,
            issue_not_closing_reason: None,
            subtask_results: Vec::new(),
        }
    }
}

/// What to take from the remote copy of a root task: nothing unless both
/// sides have an update time and the remote one is later; then its update
/// time, its completion (with its times and result) when it is completed
/// and the task is not, and its commit when the task has none.
pub open spec fn root_updates_spec(parent: TaskV, remote: CommentMetadataV) -> Option<LocalUpdatesV> {
    match (remote.updated_at, parent.updated_at) {
        (Some(r), Some(l)) => if !newer_spec(r, l) {
            None
        } else {
            let done = remote.completed == Some(true) && !parent.completed;
            Some(
                LocalUpdatesV {
                    updated_at: Some(r),
                    completed: if done {
                        Some(true)
                    } else {
                        None
                    },
                    completed_at: if done {
                        flat(remote.completed_at)
                    } else {
                        None
                    },
                    result: if done {
                        remote.result
                    } else {
                        None
                    },
                    started_at: if done {
                        flat(remote.started_at)
                    } else {
                        None
                    },
                    commit: if remote.commit is Some && commit_sha_spec(parent) is None {
                        remote.commit
                    } else {
                        None
                    },
                },
            )
        },
        _ => None,
    }
}

fn text_copy(o: &Option<String>) -> (r: Option<String>)
    ensures
        opt_view(r) == opt_view(*o),
{
    match o {
        Some(t) => Some(t.clone()),
        None => None,
    }
}

fn flat_copy(o: &Option<Option<String>>) -> (r: Option<String>)
    ensures
        opt_view(r) == flat(opt2_view(*o)),
{
    match o {
        Some(Some(t)) => Some(t.clone()),
        _ => None,
    }
}

/// Decides what to take from the remote copy of a root task.
pub fn root_updates(parent: &Task, remote: &CommentMetadata) -> (r: Option<LocalUpdates>)
    ensures
        match r {
            Some(u) => root_updates_spec(parent@, remote@) == Some(u@),
            None => root_updates_spec(parent@, remote@) is None,
        },
{
    let remote_updated = match &remote.updated_at {
        Some(t) => t,
        None => return None,
    };
    let local_updated = match &parent.updated_at {
        Some(t) => t,
        None => return None,
    };
    if !is_newer(remote_updated.as_str(), local_updated.as_str()) {
        return None;
    }
    let done = remote.completed == Some(true) && !parent.completed;
    let has_commit = crate::closing::commit_sha(parent).is_some();
    let commit = match &remote.commit {
        Some(c) => if !has_commit {
            Some(c.deep_copy())
        } else {
            None
        },
        None => None,
    };
    Some(
        LocalUpdates {
            updated_at: Some(remote_updated.clone()),
            completed: if done {
                Some(true)
            } else {
                None
            },
            completed_at: if done {
                flat_copy(&remote.completed_at)
            } else {
                None
            },
            result: if done {
                text_copy(&remote.result)
            } else {
                None
            },
            started_at: if done {
                flat_copy(&remote.started_at)
            } else {
                None
            },
            commit,
        },
    )
}

/// What to take from the remote copy of a subtask, read back from its
/// parent's issue body: the same rule as for a root task, with the
/// completion as the block records it and the commit under `commit` in its
/// metadata.
pub open spec fn sub_updates_spec(local: TaskV, remote: TaskV) -> Option<LocalUpdatesV> {
    match (remote.updated_at, local.updated_at) {
        (Some(r), Some(l)) => if !newer_spec(r, l) {
            None
        } else {
            let done = remote.completed && !local.completed;
            Some(
                LocalUpdatesV {
                    updated_at: Some(r),
                    completed: if done {
                        Some(true)
                    } else {
                        None
                    },
                    completed_at: if done {
                        remote.completed_at
                    } else {
                        None
                    },
                    result: if done {
                        remote.result
                    } else {
                        None
                    },
                    started_at: if done {
                        remote.started_at
                    } else {
                        None
                    },
                    commit: match remote.metadata {
                        Some(m) => if json_get(m, "commit"@) is Some && commit_sha_spec(local) is None {
                            json_get(m, "commit"@)
                        } else {
                            None
                        },
                        None => None,
                    },
                },
            )
        },
        _ => None,
    }
}

fn sub_updates(local: &Task, remote: &Task) -> (r: Option<LocalUpdates>)
    ensures
        match r {
            Some(u) => sub_updates_spec(local@, remote@) == Some(u@),
            None => sub_updates_spec(local@, remote@) is None,
        },
{
    let remote_updated = match &remote.updated_at {
        Some(t) => t,
        None => return None,
    };
    let local_updated = match &local.updated_at {
        Some(t) => t,
        None => return None,
    };
    if !is_newer(remote_updated.as_str(), local_updated.as_str()) {
        return None;
    }
    let done = remote.completed && !local.completed;
    let has_commit = crate::closing::commit_sha(local).is_some();
    let commit = match &remote.metadata {
        Some(m) => match m.get("commit") {
            Some(c) => if !has_commit {
                Some(c.deep_copy())
            } else {
                None
            },
            None => None,
        },
        None => None,
    };
    Some(
        LocalUpdates {
            updated_at: Some(remote_updated.clone()),
            completed: if done {
                Some(true)
            } else {
                None
            },
            completed_at: if done {
                text_copy(&remote.completed_at)
            } else {
                None
            },
            result: if done {
                text_copy(&remote.result)
            } else {
                None
            },
            started_at: if done {
                text_copy(&remote.started_at)
            } else {
                None
            },
            commit,
        },
    )
}

/// The updates to take for the subtasks read back from an issue body, in
/// order: for each whose id names a local task, the subtask's id and what to
/// take from it, when there is anything.
pub open spec fn reconciled(ts: Seq<TaskV>, subs: Seq<ParsedSubtaskV>) -> Seq<(Seq<char>, LocalUpdatesV)>
    decreases subs.len(),
{
    if subs.len() == 0 {
        Seq::empty()
    } else {
        let rest = reconciled(ts, subs.drop_last());
        let s = subs.last().task;
        if has_task(ts, s.id) && sub_updates_spec(task_of(ts, s.id), s) is Some {
            rest.push((s.id, sub_updates_spec(task_of(ts, s.id), s)->0))
        } else {
            rest
        }
    }
}

/// Each result is a pulled, skipped one for a subtask, with an empty
/// metadata object and the updates to take.
pub open spec fn pulled_results(r: Seq<SyncResult>, want: Seq<(Seq<char>, LocalUpdatesV)>) -> bool {
    r.len() == want.len() && forall|k: int|
        0 <= k < r.len() ==> {
            &&& (#[trigger] r[k]).task_id@ == want[k].0
            &&& r[k].local_updates matches Some(u) && u@ == want[k].1
            &&& r[k].metadata@ == JsonV::Object(Seq::empty(), Seq::empty())
            &&& !r[k].created
            &&& r[k].skipped
            &&& r[k].pulled_from_remote
            &&& r[k].issue_not_closing_reason is None
            &&& r[k].subtask_results@.len() == 0
        }
}

fn empty_object() -> (r: Json)
    ensures
        r@ == JsonV::Object(Seq::empty(), Seq::empty()),
{
    let keys: Vec<String> = Vec::new();
    let values: Vec<Json> = Vec::new();
    assert(keys.deep_view() =~= Seq::<Seq<char>>::empty());
    assert(crate::json::items_view(values@) =~= Seq::<JsonV>::empty());
    let r = Json::Object(keys, values);
    proof {
        crate::json::lemma_view_parts(r);
    }
    r
}

fn reconcile(subs: &Vec<ParsedSubtask>, tasks: &Vec<Task>) -> (r: Vec<SyncResult>)
    ensures
        pulled_results(r@, reconciled(tasks.deep_view(), subs@.map_values(|p: ParsedSubtask| p@))),
{
    let ghost ts = tasks.deep_view();
    let ghost sv = subs@.map_values(|p: ParsedSubtask| p@);
    let mut r: Vec<SyncResult> = Vec::new();
    let mut i: usize = 0;
    while i < subs.len()
        invariant
            i <= subs.len(),
            ts == tasks.deep_view(),
            sv == subs@.map_values(|p: ParsedSubtask| p@),
            pulled_results(r@, reconciled(ts, sv.take(i as int))),
        decreases subs.len() - i,
    {
        let remote = &subs[i].task;
        assert(sv.take(i + 1).drop_last() =~= sv.take(i as int));
        assert(sv.take(i + 1).last().task == remote@);
        let found = crate::task::find_index(tasks.as_slice(), remote.id.as_str());
        proof {
            crate::task::lemma_index_of(ts, remote.id@);
        }
        if let Some(k) = found {
            assert(tasks@[k as int]@ == ts[k as int]);
            if let Some(u) = sub_updates(&tasks[k], remote) {
                let mut res = SyncResult::new_public(remote.id.as_str(), empty_object(), false);
                res.skipped = true;
                res.pulled_from_remote = true;
                res.local_updates = Some(u);
                let ghost before = r@;
                r.push(res);
                assert forall|q: int| 0 <= q < before.len() implies #[trigger] r@[q] == before[q] by {}
            }
        }
        i = i + 1;
    }
    assert(sv.take(subs.len() as int) =~= sv);
    r
}

/// The updates to take for the subtasks in a root's issue body, reading
/// the body with `now` for timestamps its blocks lack.
pub fn reconcile_subtasks_at(body: &str, tasks: &Vec<Task>, now: &str) -> (r: Vec<SyncResult>)
    ensures
        pulled_results(r@, reconciled(tasks.deep_view(), body_spec(body@, now@).subtasks)),
{
    let parsed = parse_hierarchical_issue_body_at(body, now);
    reconcile(&parsed.subtasks, tasks)
}

/// The updates to take for the subtasks in a root's issue body, reading
/// the body at the current time.
pub fn reconcile_subtasks(body: &str, tasks: &Vec<Task>) -> (r: Vec<SyncResult>)
    ensures
        exists|now: Seq<char>| pulled_results(r@, reconciled(tasks.deep_view(), body_spec(body@, now).subtasks)),
{
    let parsed = parse_hierarchical_issue_body(body);
    reconcile(&parsed.subtasks, tasks)
}

/// Whether an object value has no members.
pub open spec fn no_members(j: JsonV) -> bool {
    j matches JsonV::Object(k, v) && (k.len() == 0 || v.len() == 0)
}

/// The metadata a sync result leaves on its task: the task's members, with
/// the result's metadata under the service's id unless it is an empty
/// object, and the pulled commit, if any.
pub open spec fn applied_metadata(existing: Option<JsonV>, service_id: Seq<char>, meta: JsonV, commit: Option<JsonV>) -> JsonV {
    let a = crate::imports::aligned(existing);
    let b = if no_members(meta) {
        a
    } else {
        members_insert(a.0, a.1, service_id, meta)
    };
    match commit {
        Some(c) => {
            let d = members_insert(b.0, b.1, "commit"@, c);
            JsonV::Object(d.0, d.1)
        },
        None => JsonV::Object(b.0, b.1),
    }
}

/// The update a sync result makes to its task: the metadata as above, and,
/// when the result was pulled from the remote, its completion, the times
/// and result it carries, and its update time; nothing else.
pub open spec fn result_input_ok(
    r: UpdateInput,
    task: TaskV,
    service_id: Seq<char>,
    task_id: Seq<char>,
    meta: JsonV,
    pulled: bool,
    updates: Option<LocalUpdatesV>,
) -> bool {
    let u: Option<LocalUpdatesV> = if pulled {
        updates
    } else {
        None
    };
    &&& r.id@ == task_id
    &&& r.name is None
    &&& r.description is None
    &&& r.parent_id is None
    &&& r.priority is None
    &&& r.completed == (match u {
        Some(x) => x.completed,
        None => None,
    })
    &&& (match u {
        Some(x) if x.completed_at is Some => r.completed_at matches Some(t) && opt_view(t) == x.completed_at,
        _ => r.completed_at is None,
    })
    &&& (match u {
        Some(x) if x.result is Some => r.result matches Some(t) && opt_view(t) == x.result,
        _ => r.result is None,
    })
    &&& (match u {
        Some(x) if x.started_at is Some => r.started_at matches Some(t) && opt_view(t) == x.started_at,
        _ => r.started_at is None,
    })
    &&& opt_view(r.updated_at) == (match u {
        Some(x) => x.updated_at,
        None => None,
    })
    &&& r.metadata matches Some(Some(m)) && m@ == applied_metadata(
        task.metadata,
        service_id,
        meta,
        match u {
            Some(x) => x.commit,
            None => None,
        },
    )
    &&& r.add_blocked_by@.len() == 0
    &&& r.remove_blocked_by@.len() == 0
}

fn copy_text(o: &Option<String>) -> (r: Option<String>)
    ensures
        opt_view(r) == opt_view(*o),
{
    match o {
        Some(t) => Some(t.clone()),
        None => None,
    }
}

/// The update that records one sync result on its task (`task` is the
/// first task with the result's id).
pub fn result_update_input(task: &Task, service_id: &str, result: &SyncResult) -> (r: UpdateInput)
    ensures
        result_input_ok(
            r,
            task@,
            service_id@,
            result.task_id@,
            result.metadata@,
            result.pulled_from_remote,
            match result.local_updates {
                Some(u) => Some(u@),
                None => None,
            },
        ),
{
    let (mut keys, mut values) = crate::imports::copy_members(&task.metadata);
    let empty_meta = match &result.metadata {
        Json::Object(ks, vs) => ks.len() == 0 || vs.len() == 0,
        _ => false,
    };
    proof {
        lemma_view_parts(result.metadata);
    }
    if !empty_meta {
        object_insert(&mut keys, &mut values, owned(service_id), result.metadata.deep_copy());
    }
    let mut input = UpdateInput {
        id: result.task_id.clone(),
        name: None,
        description: None,
        parent_id: None,
        priority: None,
        completed: None,
        completed_at: None,
        result: None,
        started_at: None,
        updated_at: None,
        metadata: None,
        add_blocked_by: Vec::new(),
        remove_blocked_by: Vec::new(),
    };
    if result.pulled_from_remote {
        if let Some(u) = &result.local_updates {
            if let Some(c) = &u.commit {
                object_insert(&mut keys, &mut values, owned("commit"), c.deep_copy());
            }
            input.completed = u.completed;
            if u.completed_at.is_some() {
                input.completed_at = Some(copy_text(&u.completed_at));
            }
            if u.result.is_some() {
                input.result = Some(copy_text(&u.result));
            }
            if u.started_at.is_some() {
                input.started_at = Some(copy_text(&u.started_at));
            }
            input.updated_at = copy_text(&u.updated_at);
        }
    }
    let m = Json::Object(keys, values);
    proof {
        lemma_view_parts(m);
    }
    input.metadata = Some(Some(m));
    input
}

/// How many results were created, updated, pulled and left unchanged.
pub open spec fn tally(rs: Seq<SyncResult>) -> (nat, nat, nat, nat)
    decreases rs.len(),
{
    if rs.len() == 0 {
        (0, 0, 0, 0)
    } else {
        let t = tally(rs.drop_last());
        let r = rs.last();
        (
            t.0 + if r.created {
                1nat
            } else {
                0nat
            },
            t.1 + if !r.created && !r.skipped && !r.pulled_from_remote {
                1nat
            } else {
                0nat
            },
            t.2 + if r.pulled_from_remote {
                1nat
            } else {
                0nat
            },
            t.3 + if r.skipped && !r.pulled_from_remote {
                1nat
            } else {
                0nat
            },
        )
    }
}

/// The counts that are not zero, as `n created`, `n updated`, `n pulled
/// from remote`, `n unchanged`.
pub open spec fn tally_parts(t: (nat, nat, nat, nat)) -> Seq<Seq<char>> {
    let a: Seq<Seq<char>> = if t.0 > 0 {
        seq![crate::text::dec(t.0) + " created"@]
    } else {
        Seq::empty()
    };
    let b = if t.1 > 0 {
        a.push(crate::text::dec(t.1) + " updated"@)
    } else {
        a
    };
    let c = if t.2 > 0 {
        b.push(crate::text::dec(t.2) + " pulled from remote"@)
    } else {
        b
    };
    if t.3 > 0 {
        c.push(crate::text::dec(t.3) + " unchanged"@)
    } else {
        c
    }
}

/// The lines about items staying open, one per result with a reason.
pub open spec fn staying_open(rs: Seq<SyncResult>) -> Seq<char>
    decreases rs.len(),
{
    if rs.len() == 0 {
        Seq::empty()
    } else {
        staying_open(rs.drop_last()) + match rs.last().issue_not_closing_reason {
            Some(reason) => "  ! "@ + rs.last().task_id@ + ": issue staying open ("@ + reason@ + ")\n"@,
            None => Seq::empty(),
        }
    }
}

/// The report of a sync: where it synced to, the counts, and the items
/// staying open.
pub open spec fn sync_summary_spec(name: Seq<char>, target: Seq<char>, rs: Seq<SyncResult>) -> Seq<char> {
    let parts = tally_parts(tally(rs));
    "Synced to "@ + name + " "@ + target + "\n"@ + (if parts.len() > 0 {
        "  ("@ + crate::text::joined_by(parts, ", "@) + ")\n"@
    } else {
        Seq::empty()
    }) + staying_open(rs)
}

/// Writes the report of a sync to `name` (`GitHub`, `Shortcut`) and its
/// target (repository or workspace).
pub fn sync_summary(name: &str, target: &str, results: &Vec<SyncResult>) -> (r: String)
    ensures
        r@ == sync_summary_spec(name@, target@, results@),
{
    let ghost rs = results@;
    let mut created: usize = 0;
    let mut updated: usize = 0;
    let mut pulled: usize = 0;
    let mut skipped: usize = 0;
    let mut i: usize = 0;
    while i < results.len()
        invariant
            i <= results.len(),
            rs == results@,
            created <= i && updated <= i && pulled <= i && skipped <= i,
            (created as nat, updated as nat, pulled as nat, skipped as nat) == tally(rs.take(i as int)),
        decreases results.len() - i,
    {
        assert(rs.take(i + 1).drop_last() =~= rs.take(i as int));
        assert(rs.take(i + 1).last() == rs[i as int]);
        let r = &results[i];
        if r.created {
            created = created + 1;
        }
        if !r.created && !r.skipped && !r.pulled_from_remote {
            updated = updated + 1;
        }
        if r.pulled_from_remote {
            pulled = pulled + 1;
        }
        if r.skipped && !r.pulled_from_remote {
            skipped = skipped + 1;
        }
        i = i + 1;
    }
    assert(rs.take(results.len() as int) =~= rs);
    let mut parts: Vec<String> = Vec::new();
    if created > 0 {
        parts.push(crate::text::cat2(crate::text::usize_text(created).as_str(), " created"));
    }
    if updated > 0 {
        parts.push(crate::text::cat2(crate::text::usize_text(updated).as_str(), " updated"));
    }
    if pulled > 0 {
        parts.push(crate::text::cat2(crate::text::usize_text(pulled).as_str(), " pulled from remote"));
    }
    if skipped > 0 {
        parts.push(crate::text::cat2(crate::text::usize_text(skipped).as_str(), " unchanged"));
    }
    assert(parts.deep_view() =~= tally_parts(tally(rs)));
    let mut out = crate::text::cat4("Synced to ", name, " ", target);
    crate::text::push_str(&mut out, "\n");
    if parts.len() > 0 {
        crate::text::push_str(&mut out, "  (");
        crate::text::push_str(&mut out, crate::text::join(&parts, ", ").as_str());
        crate::text::push_str(&mut out, ")\n");
    }
    let ghost head = out@;
    let mut j: usize = 0;
    while j < results.len()
        invariant
            j <= results.len(),
            rs == results@,
            out@ == head + staying_open(rs.take(j as int)),
        decreases results.len() - j,
    {
        assert(rs.take(j + 1).drop_last() =~= rs.take(j as int));
        assert(rs.take(j + 1).last() == rs[j as int]);
        if let Some(reason) = &results[j].issue_not_closing_reason {
            crate::text::push_str(&mut out, "  ! ");
            crate::text::push_str(&mut out, results[j].task_id.as_str());
            crate::text::push_str(&mut out, ": issue staying open (");
            crate::text::push_str(&mut out, reason.as_str());
            crate::text::push_str(&mut out, ")\n");
        }
        assert(out@ =~= head + staying_open(rs.take(j + 1)));
        j = j + 1;
    }
    assert(rs.take(results.len() as int) =~= rs);
    out
}

} // verus!
