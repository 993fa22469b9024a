use localtools::raider::json::Json;
use localtools::raider::permission::{
    build_permission_view, parent_dir, permission_to_prompt, request_path, titlecase, PermissionRequest,
};

fn request(permission: &str, patterns: &[&str], meta: Vec<(&str, &str)>) -> PermissionRequest {
    PermissionRequest {
        id: "per_1".to_string(),
        session_id: "ses_1".to_string(),
        permission: permission.to_string(),
        patterns: patterns.iter().map(|p| p.to_string()).collect(),
        metadata: meta.into_iter().map(|(k, v)| (k.to_string(), Json::String(v.to_string()))).collect(),
        always: vec!["*".to_string()],
    }
}

#[test]
fn parent_directories() {
    assert_eq!(parent_dir("/etc/hosts"), "/etc");
    assert_eq!(parent_dir("/hosts"), "/");
    assert_eq!(parent_dir("hosts"), ".");
    assert_eq!(parent_dir("a/b/*"), "a/b");
}

#[test]
fn words_are_capitalised() {
    assert_eq!(titlecase("general"), "General");
    assert_eq!(titlecase("docs-writer_bot x"), "Docs-Writer_Bot X");
    assert_eq!(titlecase(""), "");
}

#[test]
fn read_prefers_file_path_then_patterns() {
    let req = request("read", &["/p/one.rs"], vec![("filepath", "/p/two.rs")]);
    assert_eq!(request_path(&req).as_deref(), Some("/p/two.rs"));
    let req = request("read", &["/p/one.rs"], vec![]);
    assert_eq!(request_path(&req).as_deref(), Some("/p/one.rs"));
    let v = build_permission_view(&req, "one.rs");
    assert_eq!(v.icon, "→");
    assert_eq!(v.title, "Read one.rs");
    assert_eq!(v.detail, vec!["Path: one.rs".to_string()]);
    let empty = request("read", &[], vec![]);
    assert!(build_permission_view(&empty, "").detail.is_empty());
}

#[test]
fn search_permissions_show_their_pattern() {
    let req = request("glob", &["**/*.rs"], vec![]);
    let v = build_permission_view(&req, "");
    assert_eq!(v.icon, "✱");
    assert_eq!(v.title, "Glob \"**/*.rs\"");
    assert_eq!(v.detail, vec!["Pattern: **/*.rs".to_string()]);
    let req = request("grep", &[], vec![("pattern", "fn main")]);
    assert_eq!(build_permission_view(&req, "").title, "Grep \"fn main\"");
    assert_eq!(request_path(&req), None);
}

#[test]
fn bash_and_task_permissions() {
    let req = request("bash", &[], vec![("description", ""), ("command", "rm -rf target")]);
    let v = build_permission_view(&req, "");
    assert_eq!(v.icon, "#");
    assert_eq!(v.title, "Shell command");
    assert_eq!(v.detail, vec!["$ rm -rf target".to_string()]);
    let req = request("task", &[], vec![("subagent_type", "docs-writer"), ("description", "check it")]);
    let v = build_permission_view(&req, "");
    assert_eq!(v.title, "Docs-Writer Task");
    assert_eq!(v.detail, vec!["◉ check it".to_string()]);
    let req = request("task", &[], vec![]);
    assert_eq!(build_permission_view(&req, "").title, "Unknown Task");
}

#[test]
fn web_permissions() {
    let req = request("webfetch", &[], vec![("url", "https://example.com")]);
    let v = build_permission_view(&req, "");
    assert_eq!((v.icon.as_str(), v.title.as_str()), ("%", "WebFetch https://example.com"));
    assert_eq!(v.detail, vec!["URL: https://example.com".to_string()]);
    let req = request("websearch", &[], vec![("query", "verus")]);
    let v = build_permission_view(&req, "");
    assert_eq!(v.icon, "◈");
    assert_eq!(v.title, "WebSearch \"verus\"");
    assert_eq!(v.detail, vec!["Query: verus".to_string()]);
}

#[test]
fn external_directory_lists_patterns() {
    let req = request("external_directory", &["/data/logs/*", "/data/tmp"], vec![]);
    assert_eq!(request_path(&req).as_deref(), Some("/data/logs"));
    let v = build_permission_view(&req, "/data/logs");
    assert_eq!(v.icon, "←");
    assert_eq!(v.title, "Access external directory /data/logs");
    assert_eq!(v.detail, vec!["Patterns".to_string(), "- /data/logs/*".to_string(), "- /data/tmp".to_string()]);
    let req = request("external_directory", &["/x/*"], vec![("parentDir", "/x")]);
    assert_eq!(request_path(&req).as_deref(), Some("/x"));
}

#[test]
fn other_permissions() {
    let v = build_permission_view(&request("doom_loop", &[], vec![]), "");
    assert_eq!(v.icon, "⟳");
    assert_eq!(v.title, "Continue after repeated failures");
    assert_eq!(v.detail.len(), 1);
    let v = build_permission_view(&request("mcp_call", &[], vec![]), "");
    assert_eq!(v.icon, "⚙");
    assert_eq!(v.title, "Call tool mcp_call");
    assert_eq!(v.detail, vec!["Tool: mcp_call".to_string()]);
}

#[test]
fn prompt_carries_the_request() {
    let req = request("edit", &[], vec![("filepath", "/w/src/a.rs")]);
    assert_eq!(request_path(&req).as_deref(), Some("/w/src/a.rs"));
    let prompt = permission_to_prompt(req, "src/a.rs");
    assert_eq!(prompt.id, "per_1");
    assert_eq!(prompt.session_id, "ses_1");
    assert_eq!(prompt.always, vec!["*".to_string()]);
    assert_eq!(prompt.view.title, "Edit src/a.rs");
    assert!(prompt.view.detail.is_empty());
}
