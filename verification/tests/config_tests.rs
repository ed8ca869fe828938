use dexrs::config::{
    empty_object, format_value, global_config_path, home_dir, join_path, load, lookup, merge, parse_value,
    project_config_path, settings, spec, unset, ArchiveConfig, IntegrationConfig, Kind,
};
use dexrs::json::Json;

fn obj(pairs: Vec<(&str, Json)>) -> Json {
    let mut keys = Vec::new();
    let mut values = Vec::new();
    for (k, v) in pairs {
        keys.push(k.to_string());
        values.push(v);
    }
    Json::Object(keys, values)
}

fn s(t: &str) -> Json {
    Json::Str(t.to_string())
}

fn text_of(j: Option<&Json>) -> Option<String> {
    j.and_then(|v| v.as_str()).cloned()
}

#[test]
fn spec_finds_keys_and_refuses_unknown_ones() {
    let k = spec("sync.github.enabled").unwrap();
    assert_eq!(k.key, "sync.github.enabled");
    assert!(matches!(k.kind, Kind::Bool));
    let k = spec("storage.file.mode").unwrap();
    match &k.kind {
        Kind::Enum(options) => assert_eq!(options, &vec!["in-repo", "centralized"]),
        _ => panic!("expected an enum"),
    }
    assert!(matches!(spec("archive.age_days").unwrap().kind, Kind::Number));
    assert!(matches!(spec("sync.shortcut.team").unwrap().kind, Kind::String));
    assert_eq!(
        spec("nope.key").err().unwrap(),
        "Unknown config key: nope.key\nRun dex config --help for available keys."
    );
}

#[test]
fn parse_value_reads_each_kind() {
    let b = spec("archive.auto").unwrap();
    assert!(matches!(parse_value(&b, "yes").unwrap(), Json::Bool(true)));
    assert!(matches!(parse_value(&b, "0").unwrap(), Json::Bool(false)));
    assert_eq!(
        parse_value(&b, "maybe").err().unwrap(),
        "Invalid boolean value: \"maybe\". Use true/false, 1/0, or yes/no."
    );
    let n = spec("archive.age_days").unwrap();
    match parse_value(&n, "-12").unwrap() {
        Json::Number(t) => assert_eq!(t, "-12"),
        _ => panic!("expected a number"),
    }
    assert_eq!(parse_value(&n, "1.5").err().unwrap(), "Invalid number value: \"1.5\"");
    let e = spec("storage.file.mode").unwrap();
    assert_eq!(
        parse_value(&e, "shared").err().unwrap(),
        "Invalid value \"shared\" for storage.file.mode. Valid options: in-repo, centralized"
    );
    assert_eq!(text_of(Some(&parse_value(&e, "centralized").unwrap())).as_deref(), Some("centralized"));
    let t = spec("sync.github.token_env").unwrap();
    assert_eq!(text_of(Some(&parse_value(&t, "MY_TOKEN").unwrap())).as_deref(), Some("MY_TOKEN"));
}

#[test]
fn set_then_lookup_gives_the_value_and_makes_tables() {
    let mut doc = empty_object();
    dexrs::config::set(&mut doc, "sync.github.enabled", Json::Bool(true));
    dexrs::config::set(&mut doc, "sync.github.token_env", s("TOKEN"));
    assert!(matches!(lookup(&doc, "sync.github.enabled"), Some(Json::Bool(true))));
    assert_eq!(text_of(lookup(&doc, "sync.github.token_env")).as_deref(), Some("TOKEN"));
    assert!(lookup(&doc, "sync.github.label").is_none());
    dexrs::config::set(&mut doc, "sync", s("flat"));
    dexrs::config::set(&mut doc, "sync.github.enabled", Json::Bool(false));
    assert!(matches!(lookup(&doc, "sync.github.enabled"), Some(Json::Bool(false))));
    assert!(lookup(&doc, "sync.github.token_env").is_none());
}

#[test]
fn unset_reports_whether_the_key_was_set() {
    let mut doc = obj(vec![("archive", obj(vec![("auto", Json::Bool(true)), ("age_days", Json::Number("3".into()))]))]);
    assert!(unset(&mut doc, "archive.auto"));
    assert!(lookup(&doc, "archive.auto").is_none());
    assert!(lookup(&doc, "archive.age_days").is_some());
    assert!(!unset(&mut doc, "archive.auto"));
    assert!(!unset(&mut doc, "missing.table.key"));
    assert!(!unset(&mut doc, "archive.age_days.deeper"));
}

#[test]
fn format_value_shows_strings_bare_and_others_as_json() {
    assert_eq!(format_value(None), "(not set)");
    assert_eq!(format_value(Some(&s("plain"))), "plain");
    assert_eq!(format_value(Some(&Json::Bool(true))), "true");
    assert_eq!(format_value(Some(&Json::Number("42".into()))), "42");
    assert_eq!(format_value(Some(&Json::Array(vec![s("a"), Json::Null]))), "[\"a\",null]");
}

#[test]
fn merge_lays_the_project_over_the_global_settings() {
    let global = obj(vec![
        ("storage", obj(vec![("file", obj(vec![("path", s("/global")), ("mode", s("in-repo"))]))])),
        ("archive", obj(vec![("auto", Json::Bool(true))])),
    ]);
    let project = obj(vec![
        ("storage", obj(vec![("file", obj(vec![("path", s("/project"))]))])),
        ("archive", s("not a table")),
    ]);
    let merged = merge(global, project);
    assert_eq!(text_of(lookup(&merged, "storage.file.path")).as_deref(), Some("/project"));
    assert_eq!(text_of(lookup(&merged, "storage.file.mode")).as_deref(), Some("in-repo"));
    assert_eq!(text_of(lookup(&merged, "archive")).as_deref(), Some("not a table"));
}

#[test]
fn settings_take_defaults_and_refuse_other_engines() {
    let c = settings(&empty_object()).unwrap();
    assert_eq!(c.engine, "file");
    assert_eq!(c.storage_path, None);
    assert!(!c.centralized);
    assert!(!c.github.enabled);
    assert!(c.github.syncs_on_change());
    assert!(!c.archive.auto);
    assert_eq!(c.archive.age_days, 90);
    assert_eq!(c.archive.keep_recent, 50);

    let doc = obj(vec![
        ("storage", obj(vec![("file", obj(vec![("mode", s("centralized")), ("path", s("/p"))]))])),
        (
            "sync",
            obj(vec![(
                "github",
                obj(vec![
                    ("enabled", Json::Bool(true)),
                    ("workflow", Json::Number("7".into())),
                    ("auto", obj(vec![("on_change", Json::Bool(false))])),
                ]),
            )]),
        ),
        ("archive", obj(vec![("keep_recent", Json::Number("-3".into())), ("age_days", Json::Number("10".into()))])),
    ]);
    let c = settings(&doc).unwrap();
    assert!(c.centralized);
    assert_eq!(c.storage_path.as_deref(), Some("/p"));
    assert!(c.github.enabled);
    assert_eq!(c.github.workflow.as_deref(), Some("7"));
    assert!(!c.github.syncs_on_change());
    assert_eq!(c.archive.keep_recent, 0);
    assert_eq!(c.archive.age_days, 10);

    let bad = obj(vec![("storage", obj(vec![("engine", s("sqlite"))]))]);
    assert_eq!(
        settings(&bad).err().unwrap(),
        "Unsupported storage engine: sqlite.\nOnly \"file\" storage is supported. Use sync.github for GitHub integration."
    );
}

#[test]
fn load_merges_global_and_project() {
    let global = obj(vec![("archive", obj(vec![("age_days", Json::Number("30".into()))]))]);
    let project = obj(vec![("archive", obj(vec![("auto", Json::Bool(true))]))]);
    let c = load(global, Some(project)).unwrap();
    assert!(c.archive.auto);
    assert_eq!(c.archive.age_days, 30);
}

#[test]
fn paths_join_like_path_join() {
    assert_eq!(join_path("/a", "b"), "/a/b");
    assert_eq!(join_path("/a/", "b"), "/a/b");
    assert_eq!(join_path("", "b"), "b");
    assert_eq!(global_config_path("/home/u/.config/dex"), "/home/u/.config/dex/dex.toml");
    assert_eq!(project_config_path(Some("/repo")).as_deref(), Some("/repo/.dex/config.toml"));
    assert_eq!(project_config_path(None), None);
    assert_eq!(home_dir(Some("/dh"), Some("/x"), Some("/h")).unwrap(), "/dh");
    assert_eq!(home_dir(None, Some("/x"), Some("/h")).unwrap(), "/x/dex");
    assert_eq!(home_dir(None, None, Some("/h")).unwrap(), "/h/.config/dex");
    assert_eq!(home_dir(None, None, None).err().unwrap(), "HOME is not set");
}

#[test]
fn integration_switches_default_to_syncing() {
    let mut c = IntegrationConfig {
        enabled: true,
        token_env: None,
        label_prefix: None,
        label: None,
        team: None,
        workspace: None,
        workflow: None,
        auto_on_change: None,
        auto_max_age: None,
    };
    assert!(c.syncs_on_change());
    c.auto_on_change = Some(true);
    assert!(c.syncs_on_change());
    c.auto_on_change = Some(false);
    assert!(!c.syncs_on_change());
    let a = ArchiveConfig::default();
    assert_eq!((a.auto, a.age_days, a.keep_recent), (false, 90, 50));
}
