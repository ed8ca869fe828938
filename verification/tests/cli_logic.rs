use dexrs::commands::{complete, create_task, edit, start};
use dexrs::imports::import_plan;
use dexrs::json::Json;
use dexrs::listing::{render_flat, render_tree, select, ListFilter};
use dexrs::relations::add_blocker;
use dexrs::steps::{github_parent_step, shortcut_parent_step, IssueStep, RemoteIssue, RemoteStory, StoryStep};
use dexrs::task::Task;

/// `dex create NAME [-p P] [--parent ID] [-d DESC] [--blocked-by IDS]`.
fn create(tasks: &mut Vec<Task>, name: &str, priority: Option<i64>, parent: Option<&str>, description: Option<&str>, blocked_by: Option<&str>) -> String {
    let blockers: Vec<String> = blocked_by.into_iter().map(str::to_string).collect();
    create_task(tasks, name.to_string(), description.map(str::to_string), priority, parent, &blockers, 4242).unwrap()
}

fn add(tasks: &mut Vec<Task>, name: &str) -> String {
    create(tasks, name, None, None, None, None)
}

fn task<'a>(tasks: &'a [Task], id: &str) -> &'a Task {
    tasks.iter().find(|task| task.id == id).unwrap()
}

fn filter() -> ListFilter {
    ListFilter { all: false, completed: false, in_progress: false, blocked: false, ready: false, query: None }
}

/// What `dex list` prints for a filter.
fn list(tasks: &Vec<Task>, filter: &ListFilter, flat: bool) -> String {
    let selected = select(tasks, filter);
    if selected.is_empty() {
        "No tasks found.\n".to_string()
    } else if flat {
        render_flat(tasks, &selected)
    } else {
        render_tree(tasks, &selected)
    }
}

fn finish(tasks: &mut Vec<Task>, id: &str) {
    complete(tasks, id, "x".to_string(), None, false, false).unwrap();
}

#[test]
fn create_with_parent_links_both_directions() {
    let mut tasks = Vec::new();
    let parent = add(&mut tasks, "Parent");
    let child = create(&mut tasks, "Child", None, Some(parent.as_str()), None, None);
    assert_eq!(task(&tasks, &child).parent_id.as_deref(), Some(parent.as_str()));
    assert_eq!(task(&tasks, &parent).children, vec![child]);
}

#[test]
fn create_with_missing_parent_fails() {
    let mut tasks = Vec::new();
    let error = create_task(&mut tasks, "Orphan".to_string(), None, None, Some("nope1234"), &Vec::new(), 1).unwrap_err();
    assert!(error.message().contains("nope1234"));
    assert!(tasks.is_empty());
}

#[test]
fn create_with_blocked_by_links_both_directions() {
    let mut tasks = Vec::new();
    let first = add(&mut tasks, "First");
    let second = add(&mut tasks, "Second");
    let blocked = create(&mut tasks, "Blocked", None, None, None, Some(format!("{first},{second}").as_str()));
    assert_eq!(task(&tasks, &blocked).blocked_by, vec![first.clone(), second.clone()]);
    assert_eq!(task(&tasks, &first).blocks, vec![blocked.clone()]);
    assert_eq!(task(&tasks, &second).blocks, vec![blocked]);
}

#[test]
fn edit_parent_moves_task_between_parents() {
    let mut tasks = Vec::new();
    let old_parent = add(&mut tasks, "Old");
    let new_parent = add(&mut tasks, "New");
    let child = create(&mut tasks, "Child", None, Some(old_parent.as_str()), None, None);
    edit(&mut tasks, &child, None, None, None, Some(new_parent.as_str()), &Vec::new(), &Vec::new(), None).unwrap();
    assert_eq!(task(&tasks, &child).parent_id.as_deref(), Some(new_parent.as_str()));
    assert!(task(&tasks, &old_parent).children.is_empty());
    assert_eq!(task(&tasks, &new_parent).children, vec![child]);
}

#[test]
fn edit_adds_and_removes_blockers() {
    let mut tasks = Vec::new();
    let blocker = add(&mut tasks, "Blocker");
    let other = add(&mut tasks, "Other");
    let blocked = add(&mut tasks, "Blocked");
    edit(&mut tasks, &blocked, None, None, None, None, &vec![format!("{blocker},{other}")], &Vec::new(), None).unwrap();
    assert_eq!(task(&tasks, &blocked).blocked_by, vec![blocker.clone(), other.clone()]);
    assert_eq!(task(&tasks, &blocker).blocks, vec![blocked.clone()]);
    edit(&mut tasks, &blocked, None, None, None, None, &Vec::new(), &vec![blocker.clone()], None).unwrap();
    assert_eq!(task(&tasks, &blocked).blocked_by, vec![other]);
    assert!(task(&tasks, &blocker).blocks.is_empty());
}

#[test]
fn list_hides_completed_unless_asked() {
    let mut tasks = Vec::new();
    let open = add(&mut tasks, "Open");
    let done = add(&mut tasks, "Done");
    finish(&mut tasks, &done);

    let default = list(&tasks, &filter(), false);
    assert!(default.contains(&open) && !default.contains(&done), "{default}");

    let all = list(&tasks, &ListFilter { all: true, ..filter() }, false);
    assert!(all.contains(&open) && all.contains(&done), "{all}");

    let completed = list(&tasks, &ListFilter { completed: true, ..filter() }, false);
    assert!(!completed.contains(&open) && completed.contains(&done), "{completed}");
}

#[test]
fn list_renders_children_as_a_tree_sorted_by_priority_then_id() {
    let mut tasks = Vec::new();
    let parent = add(&mut tasks, "Parent");
    let child_a = create(&mut tasks, "Child A", None, Some(parent.as_str()), None, None);
    let child_b = create(&mut tasks, "Child B", Some(2), Some(parent.as_str()), None, None);
    let later = create(&mut tasks, "Later", Some(3), None, None, None);

    let output = list(&tasks, &filter(), false);

    let expected = format!(
        "[ ] {parent}: Parent\n├── [ ] {child_a}: Child A\n└── [ ] {child_b} [p2]: Child B\n[ ] {later} [p3]: Later\n"
    );
    assert_eq!(output, expected);
}

#[test]
fn list_shows_blocker_indicator_only_while_blocker_is_open() {
    let mut tasks = Vec::new();
    let blocker = add(&mut tasks, "Blocker");
    let blocked = create(&mut tasks, "Blocked", None, None, None, Some(blocker.as_str()));
    assert!(list(&tasks, &filter(), false).contains(&format!("{blocked} [B: {blocker}]: Blocked")));
    finish(&mut tasks, &blocker);
    assert!(list(&tasks, &filter(), false).contains(&format!("{blocked}: Blocked")));
}

#[test]
fn list_filters_ready_blocked_and_in_progress() {
    let mut tasks = Vec::new();
    let ready = add(&mut tasks, "Ready");
    let started = add(&mut tasks, "Started");
    let blocked = create(&mut tasks, "Blocked", None, None, None, Some(ready.as_str()));
    start(&mut tasks, &started, false).unwrap();

    let output = list(&tasks, &ListFilter { ready: true, ..filter() }, false);
    assert!(output.contains(&ready) && !output.contains(&started) && !output.contains(&blocked), "{output}");

    let output = list(&tasks, &ListFilter { blocked: true, ..filter() }, false);
    assert!(!output.contains(": Ready") && output.contains(": Blocked"), "{output}");

    let output = list(&tasks, &ListFilter { in_progress: true, ..filter() }, false);
    assert!(output.contains(&format!("[>] {started}")) && !output.contains(&ready), "{output}");
}

#[test]
fn list_filter_keeps_ancestors_for_context() {
    let mut tasks = Vec::new();
    let parent = add(&mut tasks, "Parent");
    let child = create(&mut tasks, "Child", None, Some(parent.as_str()), None, None);
    let sibling = create(&mut tasks, "Sibling", None, Some(parent.as_str()), None, None);
    start(&mut tasks, &child, false).unwrap();

    let output = list(&tasks, &ListFilter { in_progress: true, ..filter() }, false);

    assert_eq!(output, format!("[ ] {parent}: Parent\n└── [>] {child}: Child\n"));
    assert!(!output.contains(&sibling));
}

#[test]
fn list_positional_argument_selects_subtree_or_searches() {
    let mut tasks = Vec::new();
    let parent = add(&mut tasks, "Parent");
    let child = create(&mut tasks, "Child", None, Some(parent.as_str()), None, None);
    let other = create(&mut tasks, "Other", None, None, Some("mentions needle here"), None);

    let output = list(&tasks, &ListFilter { query: Some(parent.clone()), ..filter() }, false);
    assert!(output.contains(&parent) && output.contains(&child) && !output.contains(&other), "{output}");

    let output = list(&tasks, &ListFilter { query: Some("needle".to_string()), ..filter() }, false);
    assert!(output.contains(&other) && !output.contains(&parent), "{output}");

    let output = list(&tasks, &ListFilter { query: Some("NEEDLE".to_string()), ..filter() }, false);
    assert!(output.contains(&other), "{output}");
}

#[test]
fn list_flat_drops_tree_prefixes_and_empty_list_says_so() {
    let mut tasks = Vec::new();
    assert_eq!(list(&tasks, &filter(), false), "No tasks found.\n");

    let parent = add(&mut tasks, "Parent");
    let child = create(&mut tasks, "Child", None, Some(parent.as_str()), None, None);

    let output = list(&tasks, &filter(), true);
    let mut lines = [format!("[ ] {child}: Child"), format!("[ ] {parent}: Parent")];
    lines.sort();
    assert_eq!(output, format!("{}\n{}\n", lines[0], lines[1]));
}

#[test]
fn add_blocker_twice_changes_nothing_more() {
    let mut tasks = Vec::new();
    let first = add(&mut tasks, "First");
    let second = add(&mut tasks, "Second");
    let blocked = add(&mut tasks, "Blocked");
    add_blocker(&mut tasks, &blocked, &first).unwrap();
    add_blocker(&mut tasks, &blocked, &second).unwrap();
    let once: Vec<String> = tasks.iter().map(|t| format!("{:?}{:?}", t.blocked_by, t.blocks)).collect();
    add_blocker(&mut tasks, &blocked, &first).unwrap();
    let twice: Vec<String> = tasks.iter().map(|t| format!("{:?}{:?}", t.blocked_by, t.blocks)).collect();
    assert_eq!(task(&tasks, &blocked).blocked_by, vec![first.clone(), second]);
    assert_eq!(once, twice);
    assert_eq!(add_blocker(&mut tasks, &blocked, &blocked).unwrap_err().message(), format!("task {blocked} cannot block itself"));
}

#[test]
fn import_plan_never_imports_a_linked_issue_again() {
    let mut tasks = Vec::new();
    let linked = add(&mut tasks, "Linked");
    let index = tasks.iter().position(|t| t.id == linked).unwrap();
    tasks[index].metadata = Some(Json::Object(
        vec!["github".to_string()],
        vec![Json::Object(vec!["issueNumber".to_string()], vec![Json::Number("7".to_string())])],
    ));
    let (fresh, known, skipped) = import_plan(&tasks, &vec![5, 7, 9], false, false);
    assert_eq!(fresh, vec![0, 2]);
    assert!(known.is_empty());
    assert_eq!(skipped, 1);
    let (fresh, known, skipped) = import_plan(&tasks, &vec![5, 7, 9], true, false);
    assert_eq!(fresh, vec![0, 2]);
    assert_eq!(known, vec![(1, index)]);
    assert_eq!(skipped, 0);
}

#[test]
fn github_step_creates_then_leaves_an_updated_issue_alone() {
    let mut tasks = Vec::new();
    let id = add(&mut tasks, "Root");
    let root = task(&tasks, &id).clone();
    let pushed: Vec<String> = Vec::new();
    let (title, body, labels) = match github_parent_step(&root, &tasks, &pushed, None, &None, true, "dex") {
        IssueStep::Create { title, body, labels, close, comment } => {
            assert!(!close);
            assert!(comment.is_none());
            (title, body, labels)
        }
        _ => panic!("expected a create"),
    };
    assert_eq!(title, "Root");
    assert_eq!(labels, vec!["dex", "dex:priority-1", "dex:pending"]);
    let stale = RemoteIssue { title: "Old".into(), body: body.clone(), state: "open".into(), labels: labels.clone() };
    match github_parent_step(&root, &tasks, &pushed, Some(3), &Some(stale), false, "dex") {
        IssueStep::Update { title, state, .. } => {
            assert_eq!(title, "Root");
            assert_eq!(state.as_deref(), Some("open"));
        }
        _ => panic!("expected an update"),
    }
    let fresh = RemoteIssue { title, body, state: "open".into(), labels };
    assert!(matches!(github_parent_step(&root, &tasks, &pushed, Some(3), &Some(fresh), false, "dex"), IssueStep::Unchanged));
}

#[test]
fn shortcut_step_updates_until_the_story_matches() {
    let mut tasks = Vec::new();
    let id = add(&mut tasks, "Root");
    let root = task(&tasks, &id).clone();
    let pushed: Vec<String> = Vec::new();
    let description = match shortcut_parent_step(&root, &tasks, &pushed, None, &None, "dex") {
        StoryStep::Create { name, description, complete } => {
            assert_eq!(name, "Root");
            assert!(!complete);
            description
        }
        _ => panic!("expected a create"),
    };
    let stale = RemoteStory { name: "Root".into(), description: description.clone(), completed: false, labels: vec![] };
    assert!(matches!(shortcut_parent_step(&root, &tasks, &pushed, Some(8), &Some(stale), "dex"), StoryStep::Update { .. }));
    let fresh = RemoteStory { name: "Root".into(), description, completed: false, labels: vec!["dex".into()] };
    assert!(matches!(shortcut_parent_step(&root, &tasks, &pushed, Some(8), &Some(fresh), "dex"), StoryStep::Unchanged));
}

#[test]
fn sync_roots_walks_up_to_the_root_or_lists_top_level_tasks() {
    let mut tasks = Vec::new();
    let root = add(&mut tasks, "Root");
    let child = create(&mut tasks, "Child", None, Some(root.as_str()), None, None);
    let grandchild = create(&mut tasks, "Grandchild", None, Some(child.as_str()), None, None);
    let other = add(&mut tasks, "Other");
    let root_index = tasks.iter().position(|t| t.id == root).unwrap();
    let other_index = tasks.iter().position(|t| t.id == other).unwrap();
    assert_eq!(dexrs::steps::sync_roots(&tasks, Some(grandchild.as_str())).unwrap(), vec![root_index]);
    let mut top = vec![root_index, other_index];
    top.sort();
    assert_eq!(dexrs::steps::sync_roots(&tasks, None).unwrap(), top);
    assert_eq!(dexrs::steps::sync_roots(&tasks, Some("nope1234")).unwrap_err(), "Task nope1234 not found");
    assert_eq!(
        dexrs::steps::sync_roots(&tasks, Some("https://github.com/a/b/issues/1")).unwrap_err(),
        "Task https://github.com/a/b/issues/1 not found\nDid you mean: dex import https://github.com/a/b/issues/1"
    );
}

#[test]
fn encoded_metadata_values_hold_no_line_break_or_comment_end() {
    for value in ["two\nlines", "a --> b", "base64:x", "plain"] {
        let encoded = dexrs::sync::encode_metadata_value(value);
        assert!(!encoded.contains('\n') && !encoded.contains("-->"), "{encoded}");
        assert_eq!(dexrs::sync::decode_metadata_value(&encoded), value);
    }
    assert_eq!(dexrs::sync::encode_metadata_value("two\nlines"), "base64:dHdvCmxpbmVz");
    assert_eq!(dexrs::sync::encode_metadata_value("base64:x"), "base64:YmFzZTY0Ong=");
}

#[test]
fn dashboard_sections_hold_pending_tasks_in_order() {
    let mut tasks = Vec::new();
    let low = create(&mut tasks, "Low", Some(3), None, None, None);
    let high = create(&mut tasks, "High", Some(1), None, None, None);
    let done = add(&mut tasks, "Done");
    finish(&mut tasks, &done);
    let d = dexrs::status::dashboard(&tasks);
    let ready: Vec<&str> = d.ready.iter().map(|&i| tasks[i].id.as_str()).collect();
    assert_eq!(ready, vec![high.as_str(), low.as_str()]);
    let recent: Vec<&str> = d.recently_completed.iter().map(|&i| tasks[i].id.as_str()).collect();
    assert_eq!(recent, vec![done.as_str()]);
    assert_eq!(d.stats.pending, 2);
}
