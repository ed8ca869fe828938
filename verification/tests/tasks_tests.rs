use dexrs::commands::{complete_at, start_at};
use dexrs::listing::{is_blocked, is_ready, render_flat, render_tree, select, status_icon, task_line, ListFilter};
use dexrs::relations::{add_blocker, remove_blocker, set_parent, split_ids, subtree_ids};
use dexrs::service::{create, delete, update, CreateInput, UpdateInput};
use dexrs::show::{render, truncate};
use dexrs::status::{dashboard, render_at};
use dexrs::task::{generate_id, Task};

fn task(id: &str, name: &str) -> Task {
    Task::new(id.to_string(), name.to_string(), None, None)
}

fn filter() -> ListFilter {
    ListFilter { all: false, completed: false, in_progress: false, blocked: false, ready: false, query: None }
}

fn input(name: &str) -> CreateInput {
    CreateInput {
        id: None,
        name: name.to_string(),
        description: None,
        parent_id: None,
        priority: None,
        completed: None,
        result: None,
        metadata: None,
        created_at: None,
        updated_at: None,
        started_at: None,
        completed_at: None,
        blocked_by: Vec::new(),
    }
}

fn update_input(id: &str) -> UpdateInput {
    UpdateInput {
        id: id.to_string(),
        name: None,
        description: None,
        parent_id: None,
        priority: None,
        completed: None,
        completed_at: None,
        result: None,
        started_at: None,
        updated_at: None,
        metadata: None,
        add_blocked_by: Vec::new(),
        remove_blocked_by: Vec::new(),
    }
}

#[test]
fn blockers_link_both_ways_and_unlink() {
    let mut tasks = vec![task("a0000001", "A"), task("b0000001", "B")];
    add_blocker(&mut tasks, "a0000001", "b0000001").unwrap();
    assert_eq!(tasks[0].blocked_by, vec!["b0000001"]);
    assert_eq!(tasks[1].blocks, vec!["a0000001"]);
    add_blocker(&mut tasks, "a0000001", "b0000001").unwrap();
    assert_eq!(tasks[0].blocked_by, vec!["b0000001"]);
    assert!(add_blocker(&mut tasks, "a0000001", "a0000001").is_err());
    assert!(add_blocker(&mut tasks, "a0000001", "zzzzzzzz").is_err());
    remove_blocker(&mut tasks, "a0000001", "b0000001").unwrap();
    assert!(tasks[0].blocked_by.is_empty());
    assert!(tasks[1].blocks.is_empty());
}

#[test]
fn parents_link_both_ways_and_refuse_loops() {
    let mut tasks = vec![task("p0000001", "P"), task("c0000001", "C")];
    set_parent(&mut tasks, "c0000001", Some("p0000001")).unwrap();
    assert_eq!(tasks[0].children, vec!["c0000001"]);
    assert_eq!(tasks[1].parent_id.as_deref(), Some("p0000001"));
    let err = set_parent(&mut tasks, "p0000001", Some("c0000001")).unwrap_err();
    assert_eq!(err.message(), "task c0000001 is a subtask of p0000001 and cannot become its parent");
    assert_eq!(set_parent(&mut tasks, "p0000001", Some("p0000001")).unwrap_err().message(), "task p0000001 cannot be its own parent");
    set_parent(&mut tasks, "c0000001", None).unwrap();
    assert!(tasks[0].children.is_empty());
    let ids = subtree_ids(&tasks, "p0000001");
    assert_eq!(ids, vec!["p0000001"]);
}

#[test]
fn split_ids_trims_and_drops_empty() {
    assert_eq!(split_ids(" a, b ,,c "), vec!["a", "b", "c"]);
    assert!(split_ids(" , ").is_empty());
}

#[test]
fn listing_lines_icons_and_filters() {
    let mut tasks = vec![task("a0000001", "Ready"), task("b0000001", "Started"), task("c0000001", "Blocked")];
    add_blocker(&mut tasks, "c0000001", "a0000001").unwrap();
    start_at(&mut tasks, "b0000001", false, "2026-01-01T00:00:00Z").unwrap();
    tasks[2].priority = 3;
    assert_eq!(status_icon(&tasks[1]), "[>]");
    assert_eq!(task_line(&tasks, &tasks[2]), "[ ] c0000001 [p3] [B: a0000001]: Blocked");
    assert!(is_blocked(&tasks, &tasks[2]));
    assert!(is_ready(&tasks, &tasks[0]));
    let mut f = filter();
    f.ready = true;
    let ready = select(&tasks, &f);
    assert_eq!(render_flat(&tasks, &ready), "[ ] a0000001: Ready\n");
    let mut f = filter();
    f.in_progress = true;
    assert_eq!(render_flat(&tasks, &select(&tasks, &f)), "[>] b0000001: Started\n");
    complete_at(&mut tasks, "a0000001", "ok".into(), None, false, false, "2026-01-02T00:00:00Z").unwrap();
    assert_eq!(task_line(&tasks, &tasks[2]), "[ ] c0000001 [p3]: Blocked");
    assert_eq!(render_flat(&tasks, &select(&tasks, &filter())).lines().count(), 2);
}

#[test]
fn tree_keeps_ancestors_for_context() {
    let mut tasks = vec![task("p0000001", "Parent"), task("c0000001", "Child"), task("s0000001", "Sibling")];
    set_parent(&mut tasks, "c0000001", Some("p0000001")).unwrap();
    start_at(&mut tasks, "c0000001", false, "2026-01-01T00:00:00Z").unwrap();
    let mut f = filter();
    f.in_progress = true;
    let sel = select(&tasks, &f);
    assert_eq!(render_tree(&tasks, &sel), "[ ] p0000001: Parent\n└── [>] c0000001: Child\n");
    let mut q = filter();
    q.query = Some("SIBL".into());
    assert_eq!(render_flat(&tasks, &select(&tasks, &q)), "[ ] s0000001: Sibling\n");
}

#[test]
fn status_dashboard_groups_tasks_like_original_dex() {
    let mut tasks = vec![
        task("parent01", "Parent"),
        task("started1", "Child one"),
        task("ready001", "Child two"),
        task("blocked1", "Blocked"),
        task("done0001", "Done already"),
    ];
    set_parent(&mut tasks, "started1", Some("parent01")).unwrap();
    set_parent(&mut tasks, "ready001", Some("parent01")).unwrap();
    add_blocker(&mut tasks, "blocked1", "started1").unwrap();
    tasks[3].priority = 3;
    complete_at(&mut tasks, "done0001", "finished".into(), None, false, false, "2026-01-01T00:00:00Z").unwrap();
    start_at(&mut tasks, "started1", false, "2026-01-01T00:00:00Z").unwrap();
    let d = dashboard(&tasks);
    assert_eq!((d.stats.total, d.stats.pending, d.stats.completed), (5, 4, 1));
    assert_eq!(d.stats.pending + d.stats.completed, d.stats.total);
    assert!(d.stats.blocked + d.stats.ready <= d.stats.pending);
    let now: i128 = 1_767_225_600_000_000_000;
    let out = render_at(&tasks, &d, &vec![now]);
    let expected = "  20%        1        1        2   \n\
         complete   active   ready   blocked\n\
         \n\
         In Progress (1)\n\
         ────────────────────\n\
         [ ] parent01: Parent\n\
         └── [>] started1: Child one\n\
         \n\
         Ready to Work (1)\n\
         ────────────────────\n\
         [ ] parent01: Parent\n\
         └── [ ] ready001: Child two\n\
         \n\
         Blocked (2)\n\
         ────────────────────\n\
         [ ] parent01: Parent\n\
         [ ] blocked1 [p3] [B: started1]: Blocked\n\
         \n\
         Recently Completed\n\
         ────────────────────\n\
         [x] done0001: Done already (0m ago)\n";
    assert_eq!(out, expected);
    let empty: Vec<Task> = Vec::new();
    let d = dashboard(&empty);
    assert_eq!(
        render_at(&empty, &d, &Vec::new()),
        "No tasks yet. Create one with: dex create \"Task name\" --description \"Details\"\n"
    );
}

#[test]
fn show_prints_task_with_context_sections() {
    let mut tasks = vec![task("parent01", "Parent"), task("child001", "Child")];
    tasks[0].description = "parent details".into();
    set_parent(&mut tasks, "child001", Some("parent01")).unwrap();
    complete_at(&mut tasks, "child001", "child result".into(), None, false, false, "2026-01-01T00:00:00Z").unwrap();
    let out = render(&tasks, &tasks[0], false, false);
    assert!(out.contains("[ ] parent01: Parent (1 subtask)  ← viewing"), "{out}");
    assert!(out.contains("└── [x] child001: Child"), "{out}");
    assert!(out.contains("Description:\n  parent details"), "{out}");
    assert!(out.contains("Created:"), "{out}");
    let out = render(&tasks, &tasks[1], false, false);
    assert!(out.contains("[x] child001: Child  ← viewing"), "{out}");
    assert!(out.contains("Result:\n  child result"), "{out}");
}

#[test]
fn truncate_cuts_long_text() {
    assert_eq!(truncate("short", 10), "short");
    let long = "x".repeat(20);
    let cut = truncate(&long, 10);
    assert!(cut.chars().count() <= 13);
    assert!(cut.ends_with("..."));
}

#[test]
fn service_create_update_delete() {
    let mut tasks: Vec<Task> = Vec::new();
    let mut first = input("First");
    first.id = Some("first001".into());
    create(&mut tasks, first, 1).unwrap();
    let mut dup = input("Again");
    dup.id = Some("first001".into());
    assert_eq!(
        create(&mut tasks, dup, 1).unwrap_err().message(),
        "Task with ID 'first001' already exists\nHint: Use a different ID or omit to auto-generate"
    );
    let mut child = input("Child");
    child.parent_id = Some("first001".into());
    child.blocked_by = vec!["first001".into()];
    let made = create(&mut tasks, child, 1).unwrap();
    assert_eq!(tasks[0].children, vec![made.id.clone()]);
    assert_eq!(tasks[0].blocks, vec![made.id.clone()]);
    let mut up = update_input(&made.id);
    up.name = Some("Renamed".into());
    up.completed = Some(true);
    let updated = update(&mut tasks, up).unwrap();
    assert_eq!(updated.name, "Renamed");
    assert!(updated.completed);
    let missing = update(&mut tasks, update_input("missing1")).unwrap_err();
    assert_eq!(missing.message(), "Task \"missing1\" not found\nHint: Run \"dex list --all\" to see all available tasks");
    let removed = delete(&mut tasks, "first001").unwrap();
    assert_eq!(removed.len(), 2);
    assert!(tasks.is_empty());
}

#[test]
fn generated_ids_are_fresh() {
    let tasks = vec![task("a0000001", "A")];
    let id = generate_id(&tasks, 42);
    assert_ne!(id, "a0000001");
    assert_eq!(id.chars().count(), 8);
}
