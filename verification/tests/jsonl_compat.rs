use dexrs::json::Json;
use dexrs::task::Task;
use dexrs::validate::{validate_completion, validate_tasks};

fn fixture() -> Vec<Task> {
    let mut parent = Task::new("abc123xy".to_string(), "Parent task".to_string(), Some("Top-level work".to_string()), None);
    parent.blocks = vec!["def456uv".to_string()];
    parent.children = vec!["def456uv".to_string()];
    parent.metadata = Some(Json::Object(
        vec!["unknown".to_string()],
        vec![Json::Object(vec!["nested".to_string()], vec![Json::Bool(true)])],
    ));
    let mut child = Task::new("def456uv".to_string(), "Child task".to_string(), None, None);
    child.parent_id = Some("abc123xy".to_string());
    child.completed = true;
    child.result = Some("done".to_string());
    child.blocked_by = vec!["abc123xy".to_string()];
    vec![parent, child]
}

#[test]
fn fixture_is_valid() {
    assert!(validate_tasks(&fixture()).is_ok());
}

#[test]
fn validate_rejects_missing_parent() {
    let mut tasks = fixture();
    tasks[0].children.clear();
    tasks[1].parent_id = Some("missing1".to_string());

    let error = validate_tasks(&tasks).unwrap_err().message();

    assert!(error.contains("missing parent"));
}

#[test]
fn validate_rejects_mismatched_children() {
    let mut tasks = fixture();
    tasks[0].children.clear();

    let error = validate_tasks(&tasks).unwrap_err().message();

    assert!(error.contains("children missing child def456uv"));
}

#[test]
fn validate_rejects_mismatched_blockers() {
    let mut tasks = fixture();
    tasks[0].blocks.clear();

    let error = validate_tasks(&tasks).unwrap_err().message();

    assert!(error.contains("blocks missing def456uv"));
}

#[test]
fn validate_rejects_blocking_cycles() {
    let mut tasks = fixture();
    tasks[0].blocked_by.push("def456uv".to_string());
    tasks[1].blocks.push("abc123xy".to_string());

    let error = validate_tasks(&tasks).unwrap_err().message();

    assert!(error.contains("blocking cycle"));
}

#[test]
fn validate_completion_rejects_incomplete_children_without_force() {
    let mut tasks = fixture();
    tasks[1].completed = false;

    let error = validate_completion(&tasks, "abc123xy", false).unwrap_err().message();

    assert!(error.contains("incomplete child def456uv"));
    validate_completion(&tasks, "abc123xy", true).unwrap();
}

#[test]
fn validate_rejects_duplicate_ids() {
    let mut tasks = fixture();
    let copy = tasks[1].clone();
    tasks.push(copy);
    let error = validate_tasks(&tasks).unwrap_err().message();
    assert_eq!(error, "duplicate task id def456uv");
}
