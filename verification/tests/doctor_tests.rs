use dexrs::doctor::{
    apply_fix, check_config, check_storage, check_storage_location, count_tasks, report, summary, ConfigFile, Fix,
};
use dexrs::json::Json;
use dexrs::show::render_archived;
use dexrs::archive::{ArchivedChild, ArchivedTask};
use dexrs::sync::{is_sync_stale, sync_stale_at, SyncState};
use dexrs::task::Task;
use dexrs::task_json::{enriched_json, task_json};

fn task(id: &str, parent: Option<&str>) -> Task {
    let mut t = Task::new(id.to_string(), format!("Task {id}"), None, None);
    t.parent_id = parent.map(str::to_string);
    t
}

#[test]
fn storage_check_reports_broken_links_and_fixes_repair_them() {
    let mut orphan = task("orphan01", Some("missing1"));
    orphan.blocked_by = vec!["ghost001".to_string()];
    let parent = task("parent01", None);
    let child = task("child001", Some("parent01"));
    let mut tasks = vec![orphan, parent, child];
    let findings = check_storage(&tasks);
    let messages: Vec<&str> = findings.iter().map(|f| f.message.as_str()).collect();
    assert_eq!(
        messages,
        vec![
            "Task orphan01: parent_id 'missing1' does not exist (orphaned)",
            "Task orphan01: blockedBy 'ghost001' does not exist (dangling reference)",
            "Task child001: parent_id 'parent01' but parent does not list it as a child",
        ]
    );
    assert!(findings.iter().all(|f| !f.error && f.fix.is_some()));
    for f in &findings {
        apply_fix(&mut tasks, f.fix.as_ref().unwrap());
    }
    assert!(check_storage(&tasks).is_empty());
    assert_eq!(tasks[1].children, vec!["child001".to_string()]);
    assert_eq!(tasks[0].parent_id, None);
    assert!(tasks[0].blocked_by.is_empty());
}

#[test]
fn storage_check_finds_loops_and_deep_trees() {
    let mut a = task("a0000001", Some("b0000001"));
    a.children = vec!["b0000001".to_string()];
    let mut b = task("b0000001", Some("a0000001"));
    b.children = vec!["a0000001".to_string()];
    let findings = check_storage(&vec![a, b]);
    assert!(findings.iter().any(|f| f.error && f.message == "Task a0000001: circular parent reference detected"));
    let mut chain = Vec::new();
    for i in 0..5 {
        let id = format!("t000000{i}");
        let mut t = task(&id, if i == 0 { None } else { Some("") });
        if i > 0 {
            t.parent_id = Some(format!("t000000{}", i - 1));
        }
        if i < 4 {
            t.children = vec![format!("t000000{}", i + 1)];
        }
        chain.push(t);
    }
    let findings = check_storage(&chain);
    let messages: Vec<&str> = findings.iter().map(|f| f.message.as_str()).collect();
    assert_eq!(
        messages,
        vec!["Task t0000003: exceeds max depth (depth=4, max=3)", "Task t0000004: exceeds max depth (depth=5, max=3)"]
    );
}

#[test]
fn config_and_location_checks_and_reports() {
    let mut doc_keys = Vec::new();
    let mut doc_values = Vec::new();
    doc_keys.push("sync".to_string());
    doc_values.push(Json::Object(
        vec!["github".to_string()],
        vec![Json::Object(vec!["enabled".to_string()], vec![Json::Bool(true)])],
    ));
    let global = Some(ConfigFile { path: "/h/.config/dex/dex.toml".to_string(), exists: true, document: Some(Json::Object(doc_keys, doc_values)) });
    let project = Some(ConfigFile { path: "/p/.dex/config.toml".to_string(), exists: true, document: None });
    let findings = check_config(&global, &project, "sqlite", true, &None, false);
    let messages: Vec<&str> = findings.iter().map(|f| f.message.as_str()).collect();
    assert_eq!(
        messages,
        vec![
            "Project config invalid TOML: /p/.dex/config.toml",
            "Unsupported storage engine 'sqlite'. Only 'file' is supported. Use sync.github for GitHub integration.",
            "GitHub sync enabled but no token found (checked GITHUB_TOKEN env var and gh CLI)",
            "Missing [sync.github.auto] in global config (/h/.config/dex/dex.toml)",
        ]
    );
    assert!(matches!(findings[3].fix, Some(Fix::Config { .. })));
    let location = check_storage_location("/p/.dex", &Some(("/h/.dex/projects/k".to_string(), "centralized (~/.dex/projects/k/)".to_string())), 2);
    assert_eq!(location[0].message, "Found 2 task(s) in previous centralized (~/.dex/projects/k/) location. These were not migrated when storage mode changed.");
    assert!(check_storage_location("/p/.dex", &Some(("/p/.dex".to_string(), "x".to_string())), 2).is_empty());
    assert_eq!(report(&Vec::new(), "Config valid"), "  ✓ Config valid\n");
    assert_eq!(report(&findings[..2].iter().map(|f| dexrs::doctor::Finding { error: f.error, message: f.message.clone(), fix: None }).collect(), "x"),
        "  ✗ Project config invalid TOML: /p/.dex/config.toml\n  ✗ Unsupported storage engine 'sqlite'. Only 'file' is supported. Use sync.github for GitHub integration.\n");
    assert_eq!(summary(&findings, false), "Found 2 error(s), 2 warning(s).\n\nRun dex doctor --fix to fix 1 issue(s).\n");
    assert_eq!(summary(&Vec::new(), false), "No issues found.\n");
    assert_eq!(count_tasks("{\"id\":1}\n\n  \n{\"id\":2}\n"), 2);
}

#[test]
fn sync_staleness_follows_the_recorded_time() {
    let day = 86_400_000_000_000i128;
    let state = SyncState { last_sync: Some("1970-01-02T00:00:00Z".to_string()) };
    assert_eq!(sync_stale_at("1h", &state, 2 * day), Some(true));
    assert_eq!(sync_stale_at("2d", &state, 2 * day), Some(false));
    assert_eq!(sync_stale_at("1w", &state, 2 * day), None);
    assert_eq!(sync_stale_at("1h", &SyncState { last_sync: None }, 0), Some(true));
    assert_eq!(sync_stale_at("1h", &SyncState { last_sync: Some("garbage".to_string()) }, 0), Some(true));
    assert_eq!(is_sync_stale("1h", &SyncState { last_sync: None }), Some(true));
}

#[test]
fn archived_cards_and_enriched_json() {
    let record = ArchivedTask {
        id: "a0000001".to_string(),
        parent_id: None,
        name: "Done".to_string(),
        description: String::new(),
        result: Some("shipped".to_string()),
        completed_at: Some("2026-01-01T00:00:00Z".to_string()),
        archived_at: "2026-02-01T00:00:00Z".to_string(),
        metadata: None,
        archived_children: vec![ArchivedChild {
            id: "c0000001".to_string(),
            name: "Sub".to_string(),
            description: String::new(),
            result: None,
        }],
    };
    assert_eq!(
        render_archived(&record),
        "[x] a0000001: Done (1 subtask) (ARCHIVED)\n\nDescription:\n  (no description)\n\nResult:\n  shipped\n\nCompleted: 2026-01-01T00:00:00Z\nArchived:  2026-02-01T00:00:00Z\n"
    );
    let mut parent = task("p0000001", None);
    parent.children = vec!["c0000001".to_string()];
    let child = task("c0000001", Some("p0000001"));
    let mut blocker = task("b0000001", None);
    blocker.blocks = vec!["c0000001".to_string()];
    let mut child2 = child.clone();
    child2.blocked_by = vec!["b0000001".to_string()];
    let tasks = vec![parent.clone(), child2.clone(), blocker];
    let j = enriched_json(&tasks, &child2, false);
    assert_eq!(j.get("depth").and_then(|v| v.as_u64()), Some(1));
    assert_eq!(j.get("isBlocked").and_then(|v| v.as_bool()), Some(true));
    let p = enriched_json(&tasks, &parent, true);
    let subtasks = p.get("subtasks").unwrap();
    assert_eq!(subtasks.get("pending").and_then(|v| v.as_u64()), Some(1));
    assert!(matches!(p.get("grandchildren"), Some(Json::Null)));
    let raw = task_json(&child);
    assert!(raw.get("blockedBy").is_some());
    assert!(matches!(raw.get("result"), Some(Json::Null)));
}
