use dexrs::config_file::{config_document, config_text};
use dexrs::mcp::{mcp_step, McpAction};
use dexrs::json::Json;
use dexrs::remote::{parse_github_url, parse_issue_ref, GitHubRepo};
use dexrs::sync::{
    collect_descendants, decode_metadata_value, encode_metadata_value, extract_task_id, parse_duration_ms,
    parse_metadata_comments, parse_root_task_metadata, parse_story_description, render_issue_body,
    render_root_body, render_story_description, render_task_metadata_comments, strip_task_comments,
};
use dexrs::issue_body::{parse_hierarchical_issue_body, parse_hierarchical_issue_body_at};
use dexrs::task::Task;

fn task(id: &str, name: &str, parent: Option<&str>) -> Task {
    let mut task = Task::new(id.to_string(), name.to_string(), None, None);
    task.parent_id = parent.map(str::to_string);
    task.created_at = Some("2026-01-01T00:00:00.000Z".to_string());
    task.updated_at = Some("2026-01-02T00:00:00.000Z".to_string());
    task
}

fn object(pairs: Vec<(&str, Json)>) -> Json {
    let mut keys = Vec::new();
    let mut values = Vec::new();
    for (k, v) in pairs {
        keys.push(k.to_string());
        values.push(v);
    }
    Json::Object(keys, values)
}

fn text(s: &str) -> Json {
    Json::Str(s.to_string())
}

fn str_member<'a>(j: &'a Json, key: &str) -> Option<&'a str> {
    j.get(key).and_then(|v| v.as_str()).map(|s| s.as_str())
}

#[test]
fn metadata_values_round_trip_through_base64_when_needed() {
    assert_eq!(encode_metadata_value("plain"), "plain");
    assert_eq!(encode_metadata_value("two\nlines"), "base64:dHdvCmxpbmVz");
    assert_eq!(encode_metadata_value("ends -->"), "base64:ZW5kcyAtLT4=");
    assert_eq!(encode_metadata_value("base64:x"), "base64:YmFzZTY0Ong=");
    for value in ["plain", "two\nlines", "ends -->", "base64:x"] {
        assert_eq!(decode_metadata_value(&encode_metadata_value(value)), value);
    }
}

#[test]
fn decoding_keeps_values_that_are_not_base64() {
    assert_eq!(decode_metadata_value("base64:!!!"), "base64:!!!");
    assert_eq!(decode_metadata_value("base64:/w=="), "base64:/w==");
    assert_eq!(decode_metadata_value("plain"), "plain");
}

#[test]
fn github_url_and_issue_ref_parsing_match_original() {
    let repo = GitHubRepo { owner: "acme".into(), repo: "widgets".into() };
    assert_eq!(parse_github_url("git@github.com:acme/widgets.git"), Some(repo.clone()));
    assert_eq!(parse_github_url("https://github.com/acme/widgets"), Some(repo.clone()));
    assert_eq!(parse_github_url("https://github.com/acme/widgets.git"), Some(repo.clone()));
    assert_eq!(parse_github_url("https://gitlab.com/acme/widgets"), None);
    assert_eq!(parse_github_url("nonsense"), None);

    let issue = parse_issue_ref("https://github.com/other/repo/issues/12", Some(&repo)).unwrap();
    assert_eq!((issue.owner.as_str(), issue.repo.as_str(), issue.number), ("other", "repo", 12));
    let issue = parse_issue_ref("owner/name#7", None).unwrap();
    assert_eq!((issue.owner.as_str(), issue.repo.as_str(), issue.number), ("owner", "name", 7));
    let issue = parse_issue_ref("#42", Some(&repo)).unwrap();
    assert_eq!((issue.owner.as_str(), issue.number), ("acme", 42));
    assert!(parse_issue_ref("42", Some(&repo)).is_some());
    assert!(parse_issue_ref("#42", None).is_none());
    assert!(parse_issue_ref("garbage", Some(&repo)).is_none());
}

#[test]
fn root_metadata_comments_render_and_parse_round_trip() {
    let mut root = task("abc12345", "Root", None);
    root.priority = 2;
    root.completed = true;
    root.started_at = Some("2026-01-01T01:00:00.000Z".into());
    root.completed_at = Some("2026-01-03T00:00:00.000Z".into());
    root.blocked_by = vec!["blk00001".into()];
    root.result = Some("done\nwith newline".into());
    root.metadata = Some(object(vec![(
        "commit",
        object(vec![
            ("sha", text("deadbeef")),
            ("message", text("fix: it")),
            ("branch", text("main")),
            ("timestamp", text("2026-01-03T00:00:00.000Z")),
        ]),
    )]));

    let lines = render_task_metadata_comments(&root, "task", None);
    assert_eq!(
        lines,
        vec![
            "<!-- dex:task:id:abc12345 -->",
            "<!-- dex:task:priority:2 -->",
            "<!-- dex:task:completed:true -->",
            "<!-- dex:task:created_at:2026-01-01T00:00:00.000Z -->",
            "<!-- dex:task:updated_at:2026-01-02T00:00:00.000Z -->",
            "<!-- dex:task:started_at:2026-01-01T01:00:00.000Z -->",
            "<!-- dex:task:completed_at:2026-01-03T00:00:00.000Z -->",
            "<!-- dex:task:blockedBy:[\"blk00001\"] -->",
            "<!-- dex:task:blocks:[] -->",
            "<!-- dex:task:result:base64:ZG9uZQp3aXRoIG5ld2xpbmU= -->",
            "<!-- dex:task:commit_sha:deadbeef -->",
            "<!-- dex:task:commit_message:fix: it -->",
            "<!-- dex:task:commit_branch:main -->",
            "<!-- dex:task:commit_timestamp:2026-01-03T00:00:00.000Z -->",
        ]
    );

    let parsed = parse_root_task_metadata(&lines.join("\n")).unwrap();
    assert_eq!(parsed.id.as_deref(), Some("abc12345"));
    assert_eq!(parsed.priority, Some(2));
    assert_eq!(parsed.completed, Some(true));
    assert_eq!(parsed.started_at, Some(Some("2026-01-01T01:00:00.000Z".into())));
    assert_eq!(parsed.completed_at, Some(Some("2026-01-03T00:00:00.000Z".into())));
    assert_eq!(parsed.blocked_by, Some(vec!["blk00001".to_string()]));
    assert_eq!(parsed.result.as_deref(), Some("done\nwith newline"));
    assert_eq!(str_member(parsed.commit.as_ref().unwrap(), "sha"), Some("deadbeef"));
    assert_eq!(str_member(parsed.commit.as_ref().unwrap(), "message"), Some("fix: it"));

    assert_eq!(parse_root_task_metadata("<!-- dex:task:legacy99 -->").unwrap().id.as_deref(), Some("legacy99"));
    assert!(parse_root_task_metadata("no comments here").is_none());
}

#[test]
fn story_description_round_trips_metadata_and_context() {
    let mut task = task("story001", "Story", Some("parent01"));
    task.description = "Do the thing".into();
    task.result = Some("line1\nline2".into());
    task.metadata = Some(object(vec![("commit", object(vec![("sha", text("abc")), ("branch", text("main"))]))]));

    let rendered = render_story_description(&task);
    assert_eq!(
        rendered,
        "<!-- dex:task:id:story001 -->\n<!-- dex:task:parent_id:parent01 -->\n<!-- dex:task:priority:1 -->\n<!-- dex:task:completed:false -->\n<!-- dex:task:created_at:2026-01-01T00:00:00.000Z -->\n<!-- dex:task:updated_at:2026-01-02T00:00:00.000Z -->\n<!-- dex:task:completed_at:null -->\n<!-- dex:task:result:base64:bGluZTEKbGluZTI= -->\n<!-- dex:task:commit_sha:abc -->\n<!-- dex:task:commit_branch:main -->\n\nDo the thing"
    );

    let parsed = parse_story_description(&rendered);
    assert_eq!(parsed.context, "Do the thing");
    let metadata = parsed.metadata.unwrap();
    assert_eq!(metadata.id.as_deref(), Some("story001"));
    assert_eq!(metadata.parent_id.as_deref(), Some("parent01"));
    assert_eq!(metadata.result.as_deref(), Some("line1\nline2"));
    assert_eq!(str_member(metadata.commit.as_ref().unwrap(), "sha"), Some("abc"));
    assert!(parse_story_description("plain text").metadata.is_none());
}

#[test]
fn duration_parsing() {
    assert_eq!(parse_duration_ms("30s"), Some(30_000));
    assert_eq!(parse_duration_ms("30m"), Some(1_800_000));
    assert_eq!(parse_duration_ms("2h"), Some(7_200_000));
    assert_eq!(parse_duration_ms("1d"), Some(86_400_000));
    assert_eq!(parse_duration_ms("1w"), None);
    assert_eq!(parse_duration_ms("abc"), None);
    assert_eq!(parse_duration_ms(""), None);
    assert_eq!(parse_duration_ms("-2s"), Some(-2_000));
}

#[test]
fn hierarchical_issue_body_renders_details_blocks_and_parses_back() {
    let root = task("root0001", "Root", None);
    let mut child = task("child001", "Child", Some("root0001"));
    child.description = "child desc".into();
    let mut grandchild = task("grand001", "Grandchild", Some("child001"));
    grandchild.completed = true;
    grandchild.result = Some("gc result".into());
    grandchild.priority = 3;
    let mut other_root = task("other001", "Other", None);
    other_root.priority = 0;
    let tasks = vec![root.clone(), child.clone(), grandchild.clone(), other_root];

    let descendants = collect_descendants(&tasks, "root0001");
    let summary: Vec<(String, usize, String)> =
        descendants.iter().map(|d| (d.task.id.clone(), d.depth, d.parent_id.clone())).collect();
    assert_eq!(
        summary,
        vec![
            ("child001".to_string(), 0, "root0001".to_string()),
            ("grand001".to_string(), 1, "child001".to_string()),
        ]
    );

    let body = render_issue_body("root context", &descendants);
    assert!(body.starts_with("root context\n\n## Tasks\n\n<details>\n<summary><b>Child</b></summary>\n\n<!-- dex:subtask:id:child001 -->\n<!-- dex:subtask:parent:root0001 -->\n"), "{body}");
    assert!(body.contains("\n### Description\nchild desc\n\n</details>\n\n<details>\n<summary>✅ └─ <b>Grandchild</b></summary>\n\n<!-- dex:subtask:id:grand001 -->\n<!-- dex:subtask:parent:child001 -->\n"), "{body}");
    assert!(body.contains("\n### Result\ngc result\n\n</details>\n"), "{body}");
    assert!(body.ends_with("</details>\n"), "{body}");
    assert_eq!(render_issue_body("just context", &Vec::new()), "just context");

    let parsed = parse_hierarchical_issue_body(&body);
    assert_eq!(parsed.description, "root context");
    assert_eq!(parsed.subtasks.len(), 2);
    let first = &parsed.subtasks[0];
    assert_eq!(first.task.id, "child001");
    assert_eq!(first.task.name, "Child");
    assert_eq!(first.task.description, "child desc");
    assert_eq!(first.parent_id.as_deref(), Some("root0001"));
    assert!(!first.task.completed);
    let second = &parsed.subtasks[1];
    assert_eq!(second.task.id, "grand001");
    assert!(second.task.completed);
    assert_eq!(second.task.priority, 3);
    assert_eq!(second.task.result.as_deref(), Some("gc result"));
    assert_eq!(second.parent_id.as_deref(), Some("child001"));

    let legacy = "context\n\n## Subtasks\n\n<details>\n<summary>[x] ↳ <b>Old</b> <code>old00001</code></summary>\n<!-- dex:subtask:id:old00001 -->\n<!-- dex:subtask:status:completed -->\n### Context\nold body\n</details>";
    let parsed = parse_hierarchical_issue_body(legacy);
    assert_eq!(parsed.description, "context");
    assert_eq!(parsed.subtasks[0].task.name, "Old");
    assert!(parsed.subtasks[0].task.completed);
    assert_eq!(parsed.subtasks[0].task.description, "old body");
}

#[test]
fn root_body_puts_the_metadata_before_the_issue_body() {
    let root = task("root0001", "Root", None);
    let child = task("child001", "Child", Some("root0001"));
    let tasks = vec![root.clone(), child];
    let descendants = collect_descendants(&tasks, "root0001");
    let root_body = render_root_body(&root, &descendants);
    assert!(root_body.starts_with("<!-- dex:task:id:root0001 -->\n<!-- dex:task:priority:1 -->\n"), "{root_body}");
    let root_issue = render_issue_body("", &descendants);
    assert!(root_issue.starts_with("\n\n## Tasks\n\n<details>"), "{root_issue}");
    assert!(root_body.ends_with(&format!("<!-- dex:task:blocks:[] -->\n{root_issue}")), "{root_body}");
}

#[test]
fn issue_bodies_without_a_task_section_are_all_context() {
    let parsed = parse_hierarchical_issue_body_at("  just words  ", "2026-01-01T00:00:00Z");
    assert_eq!(parsed.description, "just words");
    assert!(parsed.subtasks.is_empty());
    let parsed = parse_hierarchical_issue_body_at("ctx\n## Task Tree\n- a\n", "2026-01-01T00:00:00Z");
    assert_eq!(parsed.description, "ctx");
    assert!(parsed.subtasks.is_empty());
    let body = "ctx\n## Task Tree\n## Task Details\n<details><SUMMARY> [ ] <b>Name</b> </Summary>\n<!-- dex:subtask:id:x1 -->\n</details><details>no end";
    let parsed = parse_hierarchical_issue_body_at(body, "2026-01-01T00:00:00Z");
    assert_eq!(parsed.subtasks.len(), 1);
    let t = &parsed.subtasks[0].task;
    assert_eq!(t.name, "Name");
    assert!(!t.completed);
    assert_eq!(t.created_at.as_deref(), Some("2026-01-01T00:00:00Z"));
    assert_eq!(t.description, "");
    assert_eq!(t.result, None);
}

#[test]
fn children_come_by_priority() {
    let root = task("root0001", "Root", None);
    let mut a = task("a0000001", "A", Some("root0001"));
    a.priority = 5;
    let mut b = task("b0000001", "B", Some("root0001"));
    b.priority = 2;
    let c = task("c0000001", "C", Some("root0001"));
    let tasks = vec![root, a, b, c];
    let ids: Vec<String> = collect_descendants(&tasks, "root0001").iter().map(|d| d.task.id.clone()).collect();
    assert_eq!(ids, vec!["c0000001", "b0000001", "a0000001"]);
}

#[test]
fn task_ids_and_task_comments_are_found() {
    assert_eq!(extract_task_id("x <!-- dex:task:id:ab12 --> y").as_deref(), Some("ab12"));
    assert_eq!(extract_task_id("<!-- dex:task:legacy1 -->").as_deref(), Some("legacy1"));
    assert_eq!(extract_task_id("<!-- dex:task:id:UPPER -->"), None);
    assert_eq!(extract_task_id("nothing"), None);
    assert_eq!(strip_task_comments("<!-- dex:task:id:a1 -->\n<!-- dex:task:x:y -->\n\n  body  "), "body");
    assert_eq!(strip_task_comments("keep <!-- dex:task:a b --> this"), "keep <!-- dex:task:a b --> this");
}

#[test]
fn comments_need_one_line_and_a_word_key() {
    assert!(parse_metadata_comments("<!-- dex:task:id:one\ntwo -->", "task").is_none());
    assert!(parse_metadata_comments("<!-- dex:task::value -->", "task").is_none());
    let m = parse_metadata_comments("<!-- dex:task:status:completed --><!-- dex:task:completed:false -->", "task").unwrap();
    assert_eq!(m.completed, Some(false));
    let m = parse_metadata_comments("<!-- dex:task:completed:true --><!-- dex:task:status:open -->", "task").unwrap();
    assert_eq!(m.completed, Some(true));
    let m = parse_metadata_comments("<!-- dex:task:started_at:null --><!-- dex:task:priority:x -->", "task").unwrap();
    assert_eq!(m.started_at, Some(None));
    assert_eq!(m.priority, None);
    let m = parse_metadata_comments("<!-- dex:task:commit_message:m -->", "task").unwrap();
    assert!(m.commit.is_none());
    let m = parse_metadata_comments("<!-- dex:task:blocks:not json -->", "task").unwrap();
    assert_eq!(m.blocks, Some(Vec::new()));
}

#[test]
fn sync_state_file_and_duration_parsing() {
    assert_eq!(dexrs::sync::read_sync_state(None).last_sync, None);
    let raw = dexrs::sync::sync_state_text("2026-01-01T00:00:00.000Z");
    assert_eq!(
        dexrs::sync::read_sync_state(Some(raw.as_str())).last_sync.as_deref(),
        Some("2026-01-01T00:00:00.000Z")
    );
    assert_eq!(raw, "{\n  \"lastSync\": \"2026-01-01T00:00:00.000Z\"\n}\n");

    assert_eq!(parse_duration_ms("30s"), Some(30_000));
    assert_eq!(parse_duration_ms("30m"), Some(1_800_000));
    assert_eq!(parse_duration_ms("2h"), Some(7_200_000));
    assert_eq!(parse_duration_ms("1d"), Some(86_400_000));
    assert_eq!(parse_duration_ms("1w"), None);
    assert_eq!(parse_duration_ms("abc"), None);
}

#[test]
fn sync_state_that_is_not_json_records_nothing() {
    assert_eq!(dexrs::sync::read_sync_state(Some("not json")).last_sync, None);
    assert_eq!(dexrs::sync::read_sync_state(Some("{\"lastSync\": 5}")).last_sync, None);
}

#[test]
fn config_documents_read_and_write_as_toml() {
    let empty = config_document(None, "/x/dex.toml").unwrap();
    assert!(dexrs::config::lookup(&empty, "storage.engine").is_none());
    let doc = config_document(Some("[storage]\nengine = \"file\"\n\n[archive]\nage_days = 30\n"), "/x/dex.toml").unwrap();
    assert!(matches!(dexrs::config::lookup(&doc, "storage.engine"), Some(dexrs::json::Json::Str(s)) if s == "file"));
    assert!(matches!(dexrs::config::lookup(&doc, "archive.age_days"), Some(dexrs::json::Json::Number(n)) if n == "30"));
    assert_eq!(config_document(Some("not = = toml"), "/x/dex.toml").unwrap_err(), "Failed to parse config file at /x/dex.toml");
    let text = config_text(&doc).unwrap();
    let again = config_document(Some(text.as_str()), "/x/dex.toml").unwrap();
    assert!(matches!(dexrs::config::lookup(&again, "archive.age_days"), Some(dexrs::json::Json::Number(n)) if n == "30"));
    assert_eq!(config_text(&dexrs::json::Json::Null).unwrap_err(), "config root must be a table");
}

#[test]
fn mcp_lines_are_answered_by_method() {
    assert!(matches!(mcp_step("   "), McpAction::Ignore));
    assert!(matches!(mcp_step("{\"jsonrpc\":\"2.0\",\"method\":\"notifications/initialized\"}"), McpAction::Ignore));
    match mcp_step("{not json") {
        McpAction::Reply(r) => {
            let text = dexrs::json::compact(&r);
            assert!(text.contains("\"code\":-32700") && text.contains("Parse error: "), "{text}");
            assert!(text.contains("\"id\":null"), "{text}");
        }
        _ => panic!("expected a reply"),
    }
    match mcp_step("{\"jsonrpc\":\"2.0\",\"id\":1,\"method\":\"bogus\"}") {
        McpAction::Reply(r) => {
            assert_eq!(
                dexrs::json::compact(&r),
                "{\"error\":{\"code\":-32601,\"message\":\"Method not found: bogus\"},\"id\":1,\"jsonrpc\":\"2.0\"}"
            );
        }
        _ => panic!("expected a reply"),
    }
    match mcp_step("{\"jsonrpc\":\"2.0\",\"id\":2,\"method\":\"ping\"}") {
        McpAction::Reply(r) => assert_eq!(dexrs::json::compact(&r), "{\"id\":2,\"jsonrpc\":\"2.0\",\"result\":{}}"),
        _ => panic!("expected a reply"),
    }
    assert!(matches!(mcp_step("{\"id\":3,\"method\":\"tools/list\"}"), McpAction::ListTools(_)));
    match mcp_step("{\"id\":4,\"method\":\"tools/call\",\"params\":{\"name\":\"list_tasks\"}}") {
        McpAction::CallTool { name, arguments, .. } => {
            assert_eq!(name, "list_tasks");
            assert_eq!(dexrs::json::compact(&arguments), "{}");
        }
        _ => panic!("expected a tool call"),
    }
}
