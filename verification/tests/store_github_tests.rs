use dexrs::github::{
    is_newer, issue_metadata, issue_needs_update, issue_url, labels, own_labels, remote_id, remote_url, short,
};
use dexrs::json::Json;
use dexrs::store::{centralized_dir, normalize_git_url, project_key, repository_dir, short_hash, store_choice, StoreChoice};

fn obj(pairs: Vec<(&str, Json)>) -> Json {
    let mut keys = Vec::new();
    let mut values = Vec::new();
    for (k, v) in pairs {
        keys.push(k.to_string());
        values.push(v);
    }
    Json::Object(keys, values)
}

#[test]
fn short_hash_is_twelve_hex_digits_of_sha256() {
    assert_eq!(short_hash("abc"), "ba7816bf8f01");
    assert_eq!(short_hash(""), "e3b0c44298fc");
}

#[test]
fn git_urls_normalize_to_keys() {
    assert_eq!(normalize_git_url("git@github.com:acme/widgets.git"), "github.com-acme-widgets");
    assert_eq!(normalize_git_url("https://user@github.com/acme/widgets.git"), "github.com-acme-widgets");
    assert_eq!(normalize_git_url("ssh://git@host.example//deep/path/repo"), "host.example-deep-path-repo");
    assert_eq!(normalize_git_url("plain"), format!("url-{}", short_hash("plain")));
    assert_eq!(project_key(Some("git@github.com:a/b"), "/x"), "github.com-a-b");
    assert_eq!(project_key(Some(""), "/x"), format!("path-{}", short_hash("/x")));
    assert_eq!(project_key(None, "/x"), format!("path-{}", short_hash("/x")));
}

#[test]
fn store_place_follows_precedence() {
    assert!(matches!(store_choice(Some("/cli"), Some("/cfg"), Some("/env"), true), StoreChoice::Given(p) if p == "/cli"));
    assert!(matches!(store_choice(None, Some("/cfg"), Some("/env"), true), StoreChoice::Given(p) if p == "/cfg"));
    assert!(matches!(store_choice(None, None, Some("/env"), true), StoreChoice::Given(p) if p == "/env"));
    assert!(matches!(store_choice(None, None, None, true), StoreChoice::Centralized));
    assert!(matches!(store_choice(None, None, None, false), StoreChoice::ByRepository));
    assert_eq!(centralized_dir("/home/dex", "key"), "/home/dex/projects/key");
    assert_eq!(repository_dir(Some("/repo"), "/home/dex"), "/repo/.dex");
    assert_eq!(repository_dir(None, "/home/dex"), "/home/dex/local");
}

#[test]
fn labels_and_updates() {
    assert_eq!(labels("dex", 2, false), vec!["dex", "dex:priority-2", "dex:pending"]);
    assert_eq!(labels("x", -1, true), vec!["x", "x:priority--1", "x:completed"]);
    let have = vec!["dex:pending".to_string(), "bug".to_string(), "dex".to_string()];
    assert_eq!(own_labels(&have, "dex"), vec!["dex:pending", "dex"]);
    let want = labels("dex", 1, false);
    let mine = vec!["dex:pending".to_string(), "dex".to_string(), "dex:priority-1".to_string()];
    assert!(!issue_needs_update("T", " body\n", "open", &mine, "T", "body", &want, false));
    assert!(issue_needs_update("T", "body", "open", &mine, "U", "body", &want, false));
    assert!(issue_needs_update("T", "body", "open", &mine, "T", "body", &want, true));
    assert!(issue_needs_update("T", "body", "open", &vec!["dex".to_string()], "T", "body", &want, false));
}

#[test]
fn newer_and_short() {
    assert!(is_newer("2026-02-01T00:00:00.000Z", "2026-01-01T00:00:00Z"));
    assert!(!is_newer("2026-01-01T00:00:00Z", "2026-01-01T00:00:00Z"));
    assert!(!is_newer("garbage", "2026-01-01T00:00:00Z"));
    assert_eq!(short("abc1234def"), "abc1234");
    assert_eq!(short("abc"), "abc");
}

#[test]
fn issue_links_in_metadata() {
    let m = Some(obj(vec![("github", obj(vec![("issueNumber", Json::Number("7".into()))]))]));
    assert_eq!(remote_id(&m), Some(7));
    assert_eq!(remote_id(&Some(obj(vec![("github_issue_number", Json::Number("9".into()))]))), Some(9));
    assert_eq!(remote_id(&None), None);
    assert_eq!(issue_url("acme", "widgets", 7), "https://github.com/acme/widgets/issues/7");
    assert_eq!(remote_url(&m, "acme", "widgets").as_deref(), Some("https://github.com/acme/widgets/issues/7"));
    let stored = Some(obj(vec![("github", obj(vec![("issueUrl", Json::Str("u".into()))]))]));
    assert_eq!(remote_url(&stored, "acme", "widgets").as_deref(), Some("u"));
    let out = dexrs::json::compact(&issue_metadata(7, "u", "acme/widgets", "open"));
    assert_eq!(out, "{\"issueNumber\":7,\"issueUrl\":\"u\",\"repo\":\"acme/widgets\",\"state\":\"open\"}");
}
