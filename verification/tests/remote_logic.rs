use dexrs::closing::{issue_not_closing_reason, should_mark_completed, subtask_blocking_reason};
use dexrs::github::{next_link, urlencode};
use dexrs::imports::{issue_from_value, issue_import_input, issue_update_input, story_import_input, subtask_import_input};
use dexrs::issue_body::parse_hierarchical_issue_body_at;
use dexrs::json::Json;
use dexrs::pull::{reconcile_subtasks_at, result_update_input, root_updates, sync_summary, SyncResult};
use dexrs::shortcut::{
    blocker_links, expected_kind, looks_like_uuid, parse_shortcut_ref, state_kind, story_from_value, story_metadata,
    story_needs_update, target_state, team_from_value, team_named, update_state, Story, StoryLink, WorkflowState,
};
use dexrs::sync::{parse_metadata_comments, parse_root_task_metadata, render_issue_body, collect_descendants};
use dexrs::task::Task;

fn task(id: &str, parent: Option<&str>) -> Task {
    let mut t = Task::new(id.to_string(), format!("Task {id}"), None, None);
    t.parent_id = parent.map(str::to_string);
    t.created_at = Some("2026-01-01T00:00:00Z".to_string());
    t.updated_at = Some("2026-01-02T00:00:00Z".to_string());
    t
}

fn obj(pairs: Vec<(&str, Json)>) -> Json {
    let mut keys = Vec::new();
    let mut values = Vec::new();
    for (k, v) in pairs {
        keys.push(k.to_string());
        values.push(v);
    }
    Json::Object(keys, values)
}

fn s(t: &str) -> Json {
    Json::Str(t.to_string())
}

fn with_commit(mut t: Task, sha: &str) -> Task {
    t.metadata = Some(obj(vec![("commit", obj(vec![("sha", s(sha))]))]));
    t
}

#[test]
fn completion_follows_pushed_commits_and_subtasks() {
    let mut root = task("root0001", None);
    root.completed = true;
    let mut child = with_commit(task("child001", Some("root0001")), "abcdef123456");
    child.completed = true;
    let tasks = vec![root.clone(), child.clone()];
    let none: Vec<String> = Vec::new();
    let pushed = vec!["abcdef123456".to_string()];
    assert!(should_mark_completed(&root, &tasks, &pushed));
    assert!(!should_mark_completed(&root, &tasks, &none));
    assert!(should_mark_completed(&child, &tasks, &pushed));
    assert_eq!(issue_not_closing_reason(&root, &tasks, &pushed), None);
    assert_eq!(
        issue_not_closing_reason(&root, &tasks, &none).as_deref(),
        Some("subtask child001 commit abcdef1 not pushed")
    );
    let lone = {
        let mut t = task("lone0001", None);
        t.completed = true;
        t
    };
    let tasks2 = vec![lone.clone()];
    assert!(!should_mark_completed(&lone, &tasks2, &pushed));
    assert_eq!(
        issue_not_closing_reason(&lone, &tasks2, &pushed).as_deref(),
        Some("completed without commit (use --no-commit to close manually)")
    );
    let unpushed = with_commit(lone.clone(), "1234567890");
    assert_eq!(
        issue_not_closing_reason(&unpushed, &vec![unpushed.clone()], &none).as_deref(),
        Some("commit 1234567 not pushed to remote")
    );
    let open = task("open0001", Some("root0001"));
    assert_eq!(subtask_blocking_reason(&open, &none), "subtask open0001 not completed");
    assert_eq!(subtask_blocking_reason(&lone, &none), "subtask lone0001 completed without commit");
}

#[test]
fn workflow_states_pick_the_target() {
    let states = vec![
        WorkflowState { id: 1, kind: "unstarted".to_string() },
        WorkflowState { id: 2, kind: "started".to_string() },
        WorkflowState { id: 3, kind: "done".to_string() },
    ];
    let mut t = task("a0000001", None);
    assert_eq!(target_state(&t, &states, 9, false), Ok(1));
    assert_eq!(target_state(&t, &states, 9, true), Ok(3));
    t.started_at = Some("2026-01-01T00:00:00Z".to_string());
    assert_eq!(target_state(&t, &states, 9, false), Ok(2));
    assert_eq!(expected_kind(&t, false), "started");
    assert_eq!(expected_kind(&t, true), "done");
    let only_done = vec![WorkflowState { id: 3, kind: "done".to_string() }];
    assert_eq!(target_state(&t, &only_done, 9, false), Err("No unstarted state found in workflow 9".to_string()));
    assert_eq!(state_kind(&states, 2), "started");
    assert_eq!(state_kind(&states, 42), "unstarted");
    assert_eq!(update_state(&states, false, 1, Some(3)), None);
    assert_eq!(update_state(&states, false, 1, Some(2)), Some(1));
    assert_eq!(update_state(&states, false, 1, None), None);
    assert_eq!(update_state(&states, true, 3, None), Some(3));
}

#[test]
fn stories_teams_and_links_read_from_json() {
    let value = obj(vec![
        ("id", Json::Number("12".to_string())),
        ("name", s("Story")),
        ("completed", Json::Bool(true)),
        ("labels", Json::Array(vec![obj(vec![("name", s("dex"))]), obj(vec![])])),
        (
            "story_links",
            Json::Array(vec![
                obj(vec![
                    ("subject_id", Json::Number("5".to_string())),
                    ("object_id", Json::Number("12".to_string())),
                    ("verb", s("blocks")),
                ]),
                obj(vec![("verb", s("blocks"))]),
            ]),
        ),
    ]);
    let story = story_from_value(&value).unwrap();
    assert_eq!(story.id, 12);
    assert_eq!(story.labels, vec!["dex".to_string()]);
    assert_eq!(story.story_links.len(), 1);
    assert_eq!(story.description, "");
    assert!(story_from_value(&obj(vec![("name", s("x"))])).is_none());
    let team = team_from_value(&obj(vec![
        ("id", s("t-1")),
        ("mention_name", s("eng")),
        ("workflow_ids", Json::Array(vec![Json::Number("7".to_string()), s("x")])),
    ]))
    .unwrap();
    assert_eq!(team.workflow_ids, vec![7]);
    assert_eq!(team_named(&vec![team], "eng").as_deref(), Some("t-1"));
    assert!(looks_like_uuid("12345678-1234-1234-1234-123456789abc"));
    assert!(!looks_like_uuid("eng"));
    let mut blocker = task("b0000001", None);
    blocker.metadata = Some(obj(vec![("shortcut", obj(vec![("storyId", Json::Number("5".to_string()))]))]));
    let other = {
        let mut t = task("c0000001", None);
        t.metadata = Some(obj(vec![("shortcut", obj(vec![("storyId", Json::Number("6".to_string()))]))]));
        t
    };
    let mut blocked = task("d0000001", None);
    blocked.blocked_by = vec!["b0000001".to_string(), "c0000001".to_string(), "zzz".to_string()];
    let tasks = vec![blocker, other, blocked.clone()];
    let links = vec![StoryLink { subject_id: 5, object_id: 12, verb: "blocks".to_string() }];
    assert_eq!(blocker_links(&blocked, &tasks, 12, &links), vec![6]);
    assert!(story_needs_update("a", "b", false, &vec![], "a", "b", false, "dex"));
    assert!(!story_needs_update("a", " b ", false, &vec!["dex".to_string()], "a", "b", false, "dex"));
    let meta = story_metadata(12, "ws", "done");
    assert_eq!(meta.get("storyUrl").and_then(|v| v.as_str()).map(|v| v.as_str()), Some("https://app.shortcut.com/ws/story/12"));
}

#[test]
fn shortcut_references_read_short_and_url_forms() {
    assert_eq!(parse_shortcut_ref("sc#123"), Some((123, None)));
    assert_eq!(parse_shortcut_ref("SC#7"), Some((7, None)));
    assert_eq!(parse_shortcut_ref("sc#"), None);
    assert_eq!(parse_shortcut_ref("sc#12a"), None);
    assert_eq!(
        parse_shortcut_ref("https://app.shortcut.com/acme/story/42/some-title"),
        Some((42, Some("acme".to_string())))
    );
    assert_eq!(parse_shortcut_ref("HTTP://APP.SHORTCUT.COM/acme/STORY/9"), Some((9, Some("acme".to_string()))));
    assert_eq!(parse_shortcut_ref("https://app.shortcut.com//story/1"), None);
    assert_eq!(parse_shortcut_ref("#123"), None);
}

#[test]
fn link_headers_and_query_escaping() {
    let header = "<https://api.github.com/x?page=1>; rel=\"prev\", <https://api.github.com/x?page=3>; rel=\"next\"";
    assert_eq!(next_link(header).as_deref(), Some("https://api.github.com/x?page=3"));
    assert_eq!(next_link("<a>; rel=\"last\""), None);
    assert_eq!(urlencode("a b/é~"), "a%20b%2F%C3%A9~");
}

#[test]
fn issues_import_as_create_and_update_inputs() {
    let value = obj(vec![
        ("number", Json::Number("7".to_string())),
        ("title", s("Fix it")),
        ("body", s("<!-- dex:task:id:abc12345 -->\n<!-- dex:task:priority:2 -->\nSome context\n\n## Tasks\n")),
        ("state", s("closed")),
        ("labels", Json::Array(vec![s("dex"), obj(vec![("name", s("bug"))])])),
        ("pull_request", Json::Null),
    ]);
    let issue = issue_from_value(&value).unwrap();
    assert_eq!(issue.labels, vec!["dex".to_string(), "bug".to_string()]);
    assert!(!issue.is_pull_request);
    let input = issue_import_input(&issue, "acme", "widgets");
    assert_eq!(input.id.as_deref(), Some("abc12345"));
    assert_eq!(input.description.as_deref(), Some("Some context"));
    assert_eq!(input.priority, Some(2));
    assert_eq!(input.completed, Some(true));
    assert_eq!(input.result.as_deref(), Some("Imported as completed from GitHub"));
    let github = input.metadata.as_ref().unwrap().get("github").unwrap();
    assert_eq!(github.get("issueUrl").and_then(|v| v.as_str()).map(|v| v.as_str()), Some("https://github.com/acme/widgets/issues/7"));
    let mut existing = task("abc12345", None);
    existing.metadata = Some(obj(vec![("commit", obj(vec![("sha", s("x"))])), ("other", Json::Bool(true))]));
    let update = issue_update_input(&existing, &issue, "acme", "widgets");
    assert_eq!(update.completed, Some(true));
    assert_eq!(update.result, Some(Some("Updated from closed GitHub issue".to_string())));
    let m = update.metadata.unwrap().unwrap();
    assert!(m.get("commit").is_none());
    assert!(m.get("other").is_some());
    assert!(m.get("github").is_some());
    let story = Story {
        id: 3,
        name: "S".to_string(),
        description: "ctx".to_string(),
        completed: false,
        workflow_state_id: None,
        labels: vec![],
        app_url: "https://app.shortcut.com/ws/story/3".to_string(),
        story_links: vec![],
    };
    let input = story_import_input(&story, "ws");
    assert_eq!(input.description.as_deref(), Some("ctx"));
    assert_eq!(input.completed, Some(false));
    assert_eq!(input.result, None);
}

#[test]
fn subtasks_of_an_issue_body_import_and_reconcile() {
    let root = task("root0001", None);
    let mut child = task("child001", Some("root0001"));
    child.completed = true;
    child.updated_at = Some("2026-02-01T00:00:00Z".to_string());
    child.result = Some("done".to_string());
    let tasks = vec![root.clone(), child.clone()];
    let body = render_issue_body("ctx", &collect_descendants(&tasks, "root0001"));
    let parsed = parse_hierarchical_issue_body_at(&body, "2026-03-01T00:00:00Z");
    let input = subtask_import_input(&parsed.subtasks[0], "newroot1");
    assert_eq!(input.parent_id.as_deref(), Some("newroot1"));
    assert_eq!(input.description.as_deref(), Some("Imported from GitHub issue"));
    let local = vec![root.clone(), task("child001", Some("root0001"))];
    let results = reconcile_subtasks_at(&body, &local, "2026-03-01T00:00:00Z");
    assert_eq!(results.len(), 1);
    let u = results[0].local_updates.as_ref().unwrap();
    assert_eq!(u.completed, Some(true));
    assert_eq!(u.result.as_deref(), Some("done"));
    assert_eq!(u.updated_at.as_deref(), Some("2026-02-01T00:00:00Z"));
    assert!(results[0].pulled_from_remote && results[0].skipped);
    let newer = "<!-- dex:task:id:root0001 -->\n<!-- dex:task:updated_at:2026-05-01T00:00:00Z -->\n<!-- dex:task:completed:true -->";
    let meta = parse_root_task_metadata(newer).unwrap();
    let updates = root_updates(&root, &meta).unwrap();
    assert_eq!(updates.completed, Some(true));
    assert!(root_updates(&root, &parse_metadata_comments("<!-- dex:task:id:x -->", "task").unwrap()).is_none());
}

#[test]
fn results_record_metadata_and_summaries_count_outcomes() {
    let t = task("a0000001", None);
    let meta = obj(vec![("issueNumber", Json::Number("4".to_string()))]);
    let r = SyncResult::new_public("a0000001", meta, true);
    let input = result_update_input(&t, "github", &r);
    let m = input.metadata.unwrap().unwrap();
    assert!(m.get("github").is_some());
    assert_eq!(input.completed, None);
    let mut skipped = SyncResult::new_public("b0000001", obj(vec![]), false);
    skipped.skipped = true;
    skipped.issue_not_closing_reason = Some("why".to_string());
    let results = vec![r, skipped];
    assert_eq!(
        sync_summary("GitHub", "acme/widgets", &results),
        "Synced to GitHub acme/widgets\n  (1 created, 1 unchanged)\n  ! b0000001: issue staying open (why)\n"
    );
}
