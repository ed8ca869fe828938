use dexrs::commands::{
    archive_summary, complete_at, completion_hint, create_task, deleted_line, delete_task, edit_at, ids_of_values,
    plan_name, plural, reduction_percent, remote_link, set_metadata, start_at, unknown_command,
};
use dexrs::error::DexError;
use dexrs::json::Json;
use dexrs::relations::set_parent;
use dexrs::task::Task;

fn task(id: &str) -> Task {
    Task::new(id.to_string(), format!("Name {id}"), None, None)
}

fn obj(pairs: Vec<(&str, Json)>) -> Json {
    let mut keys = Vec::new();
    let mut values = Vec::new();
    for (k, v) in pairs {
        keys.push(k.to_string());
        values.push(v);
    }
    Json::Object(keys, values)
}

#[test]
fn plural_counts() {
    assert_eq!(plural(1, "task"), "1 task");
    assert_eq!(plural(0, "task"), "0 tasks");
    assert_eq!(plural(3, "root task"), "3 root tasks");
}

#[test]
fn remote_link_names_issue_or_story() {
    let mut t = task("a0000001");
    assert_eq!(remote_link(&t), None);
    t.metadata = Some(obj(vec![("github", obj(vec![("issueNumber", Json::Number("12".into()))]))]));
    assert_eq!(remote_link(&t).as_deref(), Some("GitHub issue #12"));
    t.metadata = Some(obj(vec![("github", obj(vec![]))]));
    assert_eq!(remote_link(&t).as_deref(), Some("GitHub issue #?"));
    t.metadata = Some(obj(vec![("shortcut", obj(vec![]))]));
    assert_eq!(remote_link(&t).as_deref(), Some("Shortcut story"));
}

#[test]
fn plan_name_takes_first_heading_then_stem() {
    assert_eq!(plan_name(Some("file"), "intro\n## Build the thing  \nmore"), "Build the thing");
    assert_eq!(plan_name(Some("file"), "#nospace\n# Title"), "Title");
    assert_eq!(plan_name(Some("file"), "no headings"), "file");
    assert_eq!(plan_name(None, "no headings"), "plan");
    assert_eq!(plan_name(Some("file"), "#   \n# Later"), "Later");
}

#[test]
fn set_metadata_adds_or_replaces() {
    let mut t = task("a0000001");
    set_metadata(&mut t, "commit", Json::Str("x".into()));
    let m = t.metadata.as_ref().unwrap();
    assert!(matches!(m.get("commit"), Some(Json::Str(s)) if s == "x"));
    set_metadata(&mut t, "other", Json::Bool(true));
    set_metadata(&mut t, "commit", Json::Str("y".into()));
    let m = t.metadata.as_ref().unwrap();
    assert!(matches!(m.get("commit"), Some(Json::Str(s)) if s == "y"));
    assert!(matches!(m.get("other"), Some(Json::Bool(true))));
}

#[test]
fn start_refuses_in_progress_task_unless_forced() {
    let mut tasks = vec![task("a0000001")];
    start_at(&mut tasks, "a0000001", false, "2026-01-01T00:00:00Z").unwrap();
    assert_eq!(tasks[0].started_at.as_deref(), Some("2026-01-01T00:00:00Z"));
    let err = start_at(&mut tasks, "a0000001", false, "2026-01-02T00:00:00Z").unwrap_err();
    assert!(err.message().contains("already in progress"));
    start_at(&mut tasks, "a0000001", true, "2026-01-02T00:00:00Z").unwrap();
    assert_eq!(tasks[0].started_at.as_deref(), Some("2026-01-02T00:00:00Z"));
    assert!(matches!(start_at(&mut tasks, "zzz", false, "t"), Err(DexError::NotFound { .. })));
}

#[test]
fn complete_records_result_and_reports_open_blockers() {
    let mut blocker = task("b0000001");
    blocker.blocks = vec!["a0000001".into()];
    let mut a = task("a0000001");
    a.blocked_by = vec!["b0000001".into()];
    let mut tasks = vec![a, blocker];
    let open = complete_at(&mut tasks, "a0000001", "done".into(), None, false, false, "2026-01-03T00:00:00Z").unwrap();
    assert_eq!(open, vec![("b0000001".to_string(), "Name b0000001".to_string())]);
    assert!(tasks[0].completed);
    assert_eq!(tasks[0].result.as_deref(), Some("done"));
    assert_eq!(tasks[0].started_at.as_deref(), Some("2026-01-03T00:00:00Z"));
    assert_eq!(tasks[0].completed_at.as_deref(), Some("2026-01-03T00:00:00Z"));
}

#[test]
fn complete_of_linked_task_needs_a_commit_decision() {
    let mut a = task("a0000001");
    a.metadata = Some(obj(vec![("github", obj(vec![("issueNumber", Json::Number("5".into()))]))]));
    let mut tasks = vec![a];
    let err = complete_at(&mut tasks, "a0000001", "r".into(), None, false, false, "t").unwrap_err();
    assert_eq!(
        err.message(),
        "Task is linked to GitHub issue #5.\n  Use --commit <sha> to link a commit (closes issue when merged)\n  Use --no-commit to complete without a commit (issue stays open)"
    );
    assert!(!tasks[0].completed);
    complete_at(&mut tasks, "a0000001", "r".into(), None, true, false, "t").unwrap();
    assert!(tasks[0].completed);
}

#[test]
fn complete_with_commit_records_commit_metadata() {
    let mut tasks = vec![task("a0000001")];
    let commit = obj(vec![("sha", Json::Str("abc1234".into()))]);
    complete_at(&mut tasks, "a0000001", "r".into(), Some(commit), false, false, "t").unwrap();
    let c = tasks[0].metadata.as_ref().unwrap().get("commit").unwrap();
    assert!(matches!(c.get("sha"), Some(Json::Str(s)) if s == "abc1234"));
}

#[test]
fn create_task_links_parent_and_blockers() {
    let mut tasks = vec![task("p0000001"), task("b0000001"), task("c0000001")];
    let id = create_task(
        &mut tasks,
        "Child".into(),
        Some("desc".into()),
        Some(3),
        Some("p0000001"),
        &vec!["b0000001, c0000001".to_string()],
        7,
    )
    .unwrap();
    let new = tasks.iter().find(|t| t.id == id).unwrap();
    assert_eq!(new.name, "Child");
    assert_eq!(new.priority, 3);
    assert_eq!(new.parent_id.as_deref(), Some("p0000001"));
    assert_eq!(new.blocked_by, vec!["b0000001", "c0000001"]);
    assert_eq!(tasks[0].children, vec![id.clone()]);
    assert_eq!(tasks[1].blocks, vec![id.clone()]);
    let before = tasks.len();
    let err = create_task(&mut tasks, "Orphan".into(), None, None, Some("nope1234"), &Vec::new(), 7).unwrap_err();
    assert!(err.message().contains("not found"));
    assert_eq!(tasks.len(), before);
}

#[test]
fn edit_moves_parent_and_changes_fields() {
    let mut tasks = vec![task("o0000001"), task("n0000001"), task("c0000001"), task("b0000001")];
    set_parent(&mut tasks, "c0000001", Some("o0000001")).unwrap();
    edit_at(
        &mut tasks,
        "c0000001",
        Some("New name".into()),
        None,
        Some(9),
        Some("n0000001"),
        &vec!["b0000001".to_string()],
        &Vec::new(),
        None,
        "2026-01-09T00:00:00Z",
    )
    .unwrap();
    assert!(tasks[0].children.is_empty());
    assert_eq!(tasks[1].children, vec!["c0000001"]);
    assert_eq!(tasks[2].name, "New name");
    assert_eq!(tasks[2].priority, 9);
    assert_eq!(tasks[2].blocked_by, vec!["b0000001"]);
    assert_eq!(tasks[2].updated_at.as_deref(), Some("2026-01-09T00:00:00Z"));
    let err = edit_at(&mut tasks, "c0000001", None, None, None, None, &vec!["c0000001".into()], &Vec::new(), None, "t");
    assert!(err.is_err());
    assert_eq!(tasks[2].blocked_by, vec!["b0000001"]);
}

#[test]
fn delete_with_subtasks_requires_force_and_removes_subtree() {
    let mut tasks = vec![task("p0000001"), task("c0000001"), task("g0000001"), task("o0000001")];
    set_parent(&mut tasks, "c0000001", Some("p0000001")).unwrap();
    set_parent(&mut tasks, "g0000001", Some("c0000001")).unwrap();
    let err = delete_task(&mut tasks, "p0000001", false).unwrap_err();
    assert_eq!(
        err.message(),
        "task p0000001 has 2 subtasks that would also be deleted\nHint: Use --force to delete the task and its subtasks"
    );
    assert_eq!(tasks.len(), 4);
    let removed = delete_task(&mut tasks, "p0000001", true).unwrap();
    assert_eq!(removed.len(), 3);
    assert_eq!(tasks.len(), 1);
    assert_eq!(deleted_line("p0000001", removed.len() - 1), "Deleted task p0000001 and 2 subtasks");
    assert_eq!(deleted_line("x", 1), "Deleted task x and 1 subtask");
    assert_eq!(deleted_line("x", 0), "Deleted task x");
    assert!(matches!(delete_task(&mut tasks, "nope", false), Err(DexError::NotFound { .. })));
}

#[test]
fn unknown_command_suggests_the_closest() {
    assert_eq!(
        unknown_command("lst", "dex"),
        "Unknown command: lst\nDid you mean \"list\"?\nRun dex help for usage information."
    );
    assert_eq!(unknown_command("zzzzzzzz", "dex"), "Unknown command: zzzzzzzz\nRun dex help for usage information.");
}

#[test]
fn completion_hint_when_siblings_are_done() {
    let mut tasks = vec![task("p0000001"), task("c0000001")];
    set_parent(&mut tasks, "c0000001", Some("p0000001")).unwrap();
    assert!(completion_hint(&tasks, "c0000001").is_empty());
    tasks[1].completed = true;
    assert_eq!(
        completion_hint(&tasks, "c0000001"),
        vec![
            "".to_string(),
            "Hint: All subtasks of Name p0000001 are now complete.".to_string(),
            "  • Complete parent: dex complete p0000001 --result \"...\"".to_string(),
        ]
    );
}

#[test]
fn archive_summary_lines() {
    assert_eq!(
        archive_summary(3, 1, false, true, 40),
        vec!["Would archive 3 tasks (1 root task)", "  Subtasks: 2", "  Size reduction: 40%"]
    );
    assert_eq!(archive_summary(1, 1, true, false, 0), vec!["Archived 1 task", "  Size reduction: 0%"]);
    assert_eq!(reduction_percent(200, 150), 25);
    assert_eq!(reduction_percent(0, 0), 0);
}

#[test]
fn ids_of_values_split_and_trim() {
    assert_eq!(ids_of_values(&vec!["a, b".to_string(), " ,c".to_string()]), vec!["a", "b", "c"]);
}
