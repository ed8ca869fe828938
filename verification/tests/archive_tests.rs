use dexrs::archive::{archive_subtrees_at, bulk_candidates, check_archivable, cutoff_at, days_of_duration};
use dexrs::task::Task;

fn task(id: &str, parent: Option<&str>, completed: bool) -> Task {
    let mut t = Task::new(id.to_string(), format!("Task {id}"), None, None);
    t.parent_id = parent.map(str::to_string);
    t.completed = completed;
    if completed {
        t.completed_at = Some("2026-01-05T00:00:00.000Z".to_string());
    }
    t
}

fn family() -> Vec<Task> {
    let mut root = task("root0001", None, true);
    root.children = vec!["kid00001".into(), "kid00002".into()];
    let kid1 = task("kid00001", Some("root0001"), true);
    let kid2 = task("kid00002", Some("root0001"), true);
    let mut other = task("other001", None, false);
    other.blocked_by = vec!["kid00002".into()];
    let mut kid2b = kid2;
    kid2b.blocks = vec!["other001".into()];
    vec![root, kid1, kid2b, other]
}

#[test]
fn check_archivable_explains_each_refusal() {
    let tasks = family();
    assert!(check_archivable(&tasks, "root0001").is_ok());
    assert_eq!(
        check_archivable(&tasks, "nope0001").err().unwrap(),
        "task nope0001 not found\nHint: Run dex list --all to see all tasks"
    );
    assert_eq!(
        check_archivable(&tasks, "other001").err().unwrap(),
        "task other001 is not completed\nHint: Complete the task with 'dex complete other001 --result \"...\"' first"
    );
    let mut open_root = family();
    open_root[0].completed = false;
    assert_eq!(check_archivable(&open_root, "kid00001").err().unwrap(), "task kid00001 has incomplete ancestor root0001");
    let mut lost = family();
    lost[1].parent_id = Some("gone0001".into());
    assert_eq!(check_archivable(&lost, "kid00001").err().unwrap(), "task kid00001 has missing parent gone0001");
    let mut open_kid = family();
    open_kid[1].completed = false;
    assert_eq!(check_archivable(&open_kid, "root0001").err().unwrap(), "task root0001 has incomplete subtasks: kid00001");
}

#[test]
fn bulk_candidates_take_top_completed_roots_sorted() {
    let mut tasks = family();
    let mut b = task("b0000001", None, true);
    b.completed_at = Some("2025-12-01T00:00:00.000Z".into());
    let a = task("a0000001", None, true);
    tasks.push(b);
    tasks.push(a);
    let all = bulk_candidates(&tasks, None, &Vec::new());
    assert_eq!(all, vec!["a0000001", "b0000001", "root0001"]);
    let old = bulk_candidates(&tasks, Some("2026-01-01T00:00:00.000Z"), &Vec::new());
    assert_eq!(old, vec!["b0000001"]);
    let except = bulk_candidates(&tasks, None, &vec!["kid00001".to_string()]);
    assert_eq!(except, vec!["a0000001", "b0000001"]);
}

#[test]
fn archive_subtrees_records_by_id_and_unlinks_the_rest() {
    let mut tasks = family();
    let records = archive_subtrees_at(&mut tasks, &vec!["root0001".to_string()], "2026-02-01T00:00:00.000Z");
    let ids: Vec<&str> = records.iter().map(|r| r.id.as_str()).collect();
    assert_eq!(ids, vec!["kid00001", "kid00002", "root0001"]);
    assert_eq!(records[2].archived_at, "2026-02-01T00:00:00.000Z");
    let children: Vec<&str> = records[2].archived_children.iter().map(|c| c.id.as_str()).collect();
    assert_eq!(children, vec!["kid00001", "kid00002"]);
    assert_eq!(tasks.len(), 1);
    assert_eq!(tasks[0].id, "other001");
    assert!(tasks[0].blocked_by.is_empty());
}

#[test]
fn durations_read_as_days() {
    assert_eq!(days_of_duration("30d"), Ok(30));
    assert_eq!(days_of_duration("2w"), Ok(14));
    assert_eq!(days_of_duration("3m"), Ok(90));
    assert_eq!(
        days_of_duration("5y").err().unwrap(),
        "Invalid duration format: 5y\nHint: Expected format: 30d (days), 12w (weeks), 6m (months)"
    );
    assert!(days_of_duration("").is_err());
    assert!(days_of_duration("d").is_err());
}

#[test]
fn cutoff_counts_back_whole_days() {
    let day: i128 = 86_400_000_000_000;
    assert_eq!(cutoff_at(1, 2 * day).as_deref(), Some("1970-01-02T00:00:00Z"));
    assert_eq!(cutoff_at(0, 0).as_deref(), Some("1970-01-01T00:00:00Z"));
}
