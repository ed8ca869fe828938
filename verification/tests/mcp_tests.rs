use dexrs::json::Json;
use dexrs::mcp::{
    create_request, error_body, help_text, list_request, optional_id_list, optional_priority, optional_text,
    tool_answer, update_request, validation, UpdateRequest,
};

fn obj(pairs: Vec<(&str, Json)>) -> Json {
    let mut keys = Vec::new();
    let mut values = Vec::new();
    for (k, v) in pairs {
        keys.push(k.to_string());
        values.push(v);
    }
    Json::Object(keys, values)
}

fn s(t: &str) -> Json {
    Json::Str(t.to_string())
}

#[test]
fn create_requires_name_and_description() {
    let err = create_request(&obj(vec![("description", s("no name"))])).err().unwrap();
    assert_eq!(err, "Validation error: name: Required");
    let err = create_request(&obj(vec![])).err().unwrap();
    assert_eq!(err, "Validation error: name: Required, description: Required");
    let ok = create_request(&obj(vec![
        ("name", s("Parent")),
        ("description", s("Parent body")),
        ("priority", Json::Number("3".into())),
        ("blocked_by", Json::Array(vec![s("a"), s("b")])),
    ]))
    .unwrap();
    assert_eq!(ok.name, "Parent");
    assert_eq!(ok.description.as_deref(), Some("Parent body"));
    assert_eq!(ok.priority, Some(3));
    assert_eq!(ok.blocked_by, vec!["a", "b"]);
}

#[test]
fn argument_errors_are_collected_in_order() {
    let args = obj(vec![
        ("name", s("")),
        ("priority", Json::Number("101".into())),
        ("ids", Json::Array(vec![s(""), Json::Null, s("ok")])),
        ("flag", Json::Number("1".into())),
    ]);
    let mut errors = Vec::new();
    assert_eq!(optional_text(&args, "name", &mut errors), None);
    assert_eq!(optional_priority(&args, &mut errors), None);
    assert_eq!(optional_id_list(&args, "ids", &mut errors), vec!["ok"]);
    assert_eq!(optional_text(&args, "flag", &mut errors), None);
    assert_eq!(
        errors,
        vec![
            "name: String must contain at least 1 character(s)",
            "priority: Expected integer between 0 and 100",
            "ids: Expected non-empty string ids",
            "ids: Expected non-empty string ids",
            "flag: Expected string",
        ]
    );
    assert_eq!(
        validation(&errors).err().unwrap(),
        "Validation error: name: String must contain at least 1 character(s), priority: Expected integer between 0 and 100, ids: Expected non-empty string ids, ids: Expected non-empty string ids, flag: Expected string"
    );
    assert!(validation(&Vec::new()).is_ok());
    let long = "x".repeat(51201);
    let mut errors = Vec::new();
    assert_eq!(optional_text(&obj(vec![("t", s(&long))]), "t", &mut errors), None);
    assert_eq!(errors, vec!["t: String must contain at most 51200 character(s)"]);
}

#[test]
fn update_checks_sha_url_and_time() {
    let err = update_request(
        &obj(vec![
            ("id", s("t1")),
            ("commit_sha", s("xyz")),
            ("commit_url", s("ftp://x")),
            ("started_at", s("yesterday")),
        ]),
        "now",
    )
    .err()
    .unwrap();
    assert_eq!(
        err,
        "Validation error: started_at: Invalid datetime, commit_sha: Invalid git SHA format (expected 7-40 hex characters), commit_url: Invalid url"
    );
    match update_request(&obj(vec![("id", s("t1")), ("delete", Json::Bool(true))]), "now").unwrap() {
        UpdateRequest::Delete { id } => assert_eq!(id, "t1"),
        _ => panic!("expected a deletion"),
    }
    match update_request(
        &obj(vec![
            ("id", s("t1")),
            ("completed", Json::Bool(true)),
            ("result", s("Done it")),
            ("commit_sha", s("ABC1234")),
            ("commit_message", s("feat: child")),
            ("parent_id", Json::Null),
            ("started_at", s("2026-01-01T00:00:00Z")),
        ]),
        "2026-02-02T00:00:00Z",
    )
    .unwrap()
    {
        UpdateRequest::Update(input) => {
            assert_eq!(input.id, "t1");
            assert_eq!(input.completed, Some(true));
            assert_eq!(input.result, Some(Some("Done it".to_string())));
            assert_eq!(input.parent_id, Some(None));
            assert_eq!(input.started_at, Some(Some("2026-01-01T00:00:00Z".to_string())));
            let commit = input.metadata.unwrap().unwrap();
            let c = commit.get("commit").unwrap();
            assert!(matches!(c.get("sha"), Some(Json::Str(x)) if x == "ABC1234"));
            assert!(matches!(c.get("timestamp"), Some(Json::Str(x)) if x == "2026-02-02T00:00:00Z"));
            assert!(matches!(c.get("message"), Some(Json::Str(x)) if x == "feat: child"));
            assert!(c.get("branch").is_none());
        },
        _ => panic!("expected an update"),
    }
}

#[test]
fn list_request_builds_the_filter() {
    let f = list_request(&obj(vec![("all", Json::Bool(true)), ("query", s("needle"))])).unwrap();
    assert!(f.all);
    assert!(!f.completed);
    assert_eq!(f.query.as_deref(), Some("needle"));
    assert_eq!(list_request(&obj(vec![("ready", s("yes"))])).err().unwrap(), "Validation error: ready: Expected boolean");
}

#[test]
fn error_body_splits_the_hint() {
    let body = error_body("Task \"missing1\" not found\nHint: Run \"dex list --all\" to see all available tasks");
    assert!(matches!(body.get("error"), Some(Json::Str(x)) if x == "Task \"missing1\" not found"));
    assert!(matches!(body.get("suggestion"), Some(Json::Str(x)) if x == "Run \"dex list --all\" to see all available tasks"));
    let body = error_body("plain");
    assert!(body.get("suggestion").is_none());
    let answer = tool_answer("boom".into(), true);
    assert!(matches!(answer.get("isError"), Some(Json::Bool(true))));
    let out = dexrs::json::compact(&tool_answer("hi".into(), false));
    // serde_json writes object members in key order.
    assert_eq!(out, "{\"content\":[{\"text\":\"hi\",\"type\":\"text\"}]}");
}

#[test]
fn help_text_names_the_program() {
    let h = help_text("dexrs");
    assert!(h.starts_with("dexrs mcp - Start MCP (Model Context Protocol) server\n\nUSAGE:\n  dexrs mcp [options]\n"));
    assert!(h.ends_with("  dexrs mcp --storage-path ~/.dex/tasks\n"));
}
