use localtools::raider::call::{tool_part_to_call, child_tool_ref_from_part, PatchKind, ToolPart, ToolState, MAX_TOOL_OUTPUT_BYTES};
use localtools::raider::json::{
    extract_agent, extract_assistant_error, extract_model_display, extract_provider, is_message_aborted_error,
    unwrap_error_message, Json, JsonNumber,
};
use localtools::raider::tool::{capitalize_first, format_input_primitives, normalize_workspace_path, synthesize_tool_title};

const CWD: Option<&str> = Some("/home/dev/project");

fn s(t: &str) -> Json {
    Json::String(t.to_string())
}

fn n(v: u64) -> Json {
    Json::Number(JsonNumber { text: v.to_string(), unsigned: Some(v) })
}

fn members(es: Vec<(&str, Json)>) -> Vec<(String, Json)> {
    es.into_iter().map(|(k, v)| (k.to_string(), v)).collect()
}

fn obj(es: Vec<(&str, Json)>) -> Json {
    Json::Object(members(es))
}

fn title(tool: &str, server: &str, input: Option<&Vec<(String, Json)>>, meta: Option<&Vec<(String, Json)>>) -> String {
    synthesize_tool_title(tool, server, input, meta, CWD)
}

fn part(id: &str, tool: &str, status: &str, input: Json, output: &str, server_title: &str, metadata: Json, error: Option<&str>) -> ToolPart {
    ToolPart {
        id: id.to_string(),
        tool_name: tool.to_string(),
        state: ToolState {
            status: status.to_string(),
            input,
            output: output.to_string(),
            title: server_title.to_string(),
            metadata,
            error: error.map(|e| e.to_string()),
        },
    }
}

#[test]
fn extract_agent_returns_string_when_present() {
    let extra = members(vec![("agent", s("build"))]);
    assert_eq!(extract_agent(&extra), Some("build".to_string()));
}

#[test]
fn extract_agent_returns_none_when_missing_or_wrong_type() {
    assert_eq!(extract_agent(&Vec::new()), None);
    let wrong = members(vec![("agent", n(123))]);
    assert_eq!(extract_agent(&wrong), None);
}

#[test]
fn extract_model_display_prefers_assistant_shape() {
    let extra = members(vec![("modelID", s("large-model-4-7"))]);
    assert_eq!(extract_model_display(&extra), Some("large-model-4-7".to_string()));
}

#[test]
fn extract_model_display_falls_back_to_user_shape() {
    let extra = members(vec![("model", obj(vec![("providerID", s("opencode")), ("modelID", s("big-pickle"))]))]);
    assert_eq!(extract_model_display(&extra), Some("big-pickle".to_string()));
}

#[test]
fn extract_model_display_accepts_legacy_id_key() {
    let extra = members(vec![("model", obj(vec![("providerID", s("opencode")), ("id", s("qwen3.6-plus-free"))]))]);
    assert_eq!(extract_model_display(&extra), Some("qwen3.6-plus-free".to_string()));
}

#[test]
fn extract_provider_pulls_top_level_or_nested_field() {
    let top = members(vec![("providerID", s("anthropic"))]);
    assert_eq!(extract_provider(&top), Some("anthropic".to_string()));
    let nested = members(vec![("model", obj(vec![("providerID", s("opencode")), ("modelID", s("big-pickle"))]))]);
    assert_eq!(extract_provider(&nested), Some("opencode".to_string()));
    assert_eq!(extract_provider(&Vec::new()), None);
}

#[test]
fn extract_model_display_returns_none_when_no_field() {
    assert_eq!(extract_model_display(&Vec::new()), None);
}

#[test]
fn error_messages_are_unwrapped() {
    assert_eq!(unwrap_error_message(&Json::Null), None);
    assert_eq!(unwrap_error_message(&s("  boom  ")), Some("boom".to_string()));
    assert_eq!(unwrap_error_message(&s("   ")), None);
    let nested = obj(vec![("name", s("APIError")), ("data", obj(vec![("message", s(" overloaded "))]))]);
    assert_eq!(unwrap_error_message(&nested), Some("overloaded".to_string()));
    let named = obj(vec![("name", s("UnknownError")), ("data", obj(vec![("message", s(""))]))]);
    assert_eq!(unwrap_error_message(&named), Some("UnknownError".to_string()));
    assert_eq!(unwrap_error_message(&obj(vec![])), None);
    assert_eq!(unwrap_error_message(&Json::Array(vec![])), None);
    assert_eq!(unwrap_error_message(&n(42)), Some("42".to_string()));
    let odd = obj(vec![("code", n(7))]);
    assert_eq!(unwrap_error_message(&odd), Some("{\"code\":7}".to_string()));
    let extra = members(vec![("error", nested)]);
    assert_eq!(extract_assistant_error(&extra), Some("overloaded".to_string()));
    assert_eq!(extract_assistant_error(&Vec::new()), None);
}

#[test]
fn aborted_errors_are_recognised() {
    assert!(is_message_aborted_error(&obj(vec![("name", s("MessageAbortedError"))])));
    assert!(!is_message_aborted_error(&obj(vec![("name", s("APIError"))])));
    assert!(!is_message_aborted_error(&s("MessageAbortedError")));
}

#[test]
fn workspace_paths_are_shown_relative() {
    assert_eq!(normalize_workspace_path("", CWD), "");
    assert_eq!(normalize_workspace_path("src/lib.rs", CWD), "src/lib.rs");
    assert_eq!(normalize_workspace_path("/home/dev/project/src/lib.rs", CWD), "src/lib.rs");
    assert_eq!(normalize_workspace_path("/home/dev/project", CWD), ".");
    assert_eq!(normalize_workspace_path("/home/dev/projects/x", CWD), "/home/dev/projects/x");
    assert_eq!(normalize_workspace_path("/etc/hosts", None), "/etc/hosts");
}

#[test]
fn first_letter_is_capitalised() {
    assert_eq!(capitalize_first(""), "");
    assert_eq!(capitalize_first("explore"), "Explore");
    assert_eq!(capitalize_first("ßeta"), "SSeta");
}

#[test]
fn input_primitives_are_listed_in_order() {
    let input = members(vec![("a", s("x")), ("skip", n(1)), ("list", Json::Array(vec![])), ("b", Json::Bool(false)), ("n", n(3))]);
    assert_eq!(format_input_primitives(Some(&input), &["skip"]), "[a=x, b=false, n=3]");
    assert_eq!(format_input_primitives(Some(&input), &["a", "skip", "b", "n"]), "");
    assert_eq!(format_input_primitives(None, &[]), "");
}

#[test]
fn synthesize_tool_title_glob_with_pattern_path_count() {
    let input = members(vec![("pattern", s("**/*.rs")), ("path", s("src"))]);
    let meta = members(vec![("count", n(17))]);
    assert_eq!(title("glob", "", Some(&input), Some(&meta)), "Glob \"**/*.rs\" in src (17 matches)");
}

#[test]
fn synthesize_tool_title_glob_singular_match_uses_match_not_matches() {
    let input = members(vec![("pattern", s("Cargo.toml"))]);
    let meta = members(vec![("count", n(1))]);
    assert_eq!(title("glob", "", Some(&input), Some(&meta)), "Glob \"Cargo.toml\" (1 match)");
}

#[test]
fn synthesize_tool_title_glob_pending_omits_count_and_path() {
    let input = members(vec![("pattern", s("lib/**/*.ts"))]);
    assert_eq!(title("glob", "", Some(&input), None), "Glob \"lib/**/*.ts\"");
}

#[test]
fn synthesize_tool_title_read_carries_filepath_and_extras() {
    let input = members(vec![("filePath", s("crates/raider-tui/src/ui.rs")), ("offset", n(1855)), ("limit", n(55))]);
    let t = title("read", "ignored server label", Some(&input), None);
    assert!(t.starts_with("Read crates/raider-tui/src/ui.rs "), "got: {t:?}");
    assert!(t.contains("offset=1855"), "got: {t:?}");
    assert!(t.contains("limit=55"), "got: {t:?}");
    assert!(!t.contains("filePath="), "got: {t:?}");
}

#[test]
fn bridge_read_tool_title_includes_input_extras_suffix() {
    let input = members(vec![("filePath", s("/x")), ("offset", n(10)), ("limit", n(100))]);
    let t = title("read", "", Some(&input), None);
    assert!(t.starts_with("Read /x ["), "got: {t:?}");
    assert!(t.ends_with(']'), "got: {t:?}");
    assert!(t.contains("offset=10"), "got: {t:?}");
    assert!(t.contains("limit=100"), "got: {t:?}");
    assert!(!t.contains("filePath="), "got: {t:?}");
    assert!(t == "Read /x [offset=10, limit=100]" || t == "Read /x [limit=100, offset=10]", "got: {t:?}");
}

#[test]
fn synthesize_tool_title_grep_with_pattern_path_matches() {
    let input = members(vec![("pattern", s("truncate_path_left|file_change_line")), ("path", s("crates/raider-tui/src/ui.rs"))]);
    let meta = members(vec![("matches", n(5))]);
    assert_eq!(
        title("grep", "", Some(&input), Some(&meta)),
        "Grep \"truncate_path_left|file_change_line\" in crates/raider-tui/src/ui.rs (5 matches)"
    );
}

#[test]
fn synthesize_tool_title_webfetch_returns_url() {
    let input = members(vec![("url", s("https://example.com/x"))]);
    assert_eq!(title("webfetch", "", Some(&input), None), "WebFetch https://example.com/x");
}

#[test]
fn synthesize_tool_title_websearch_with_provider_and_results() {
    let input = members(vec![("query", s("rust ratatui"))]);
    let meta = members(vec![("provider", s("Tavily")), ("numResults", n(10))]);
    assert_eq!(title("websearch", "", Some(&input), Some(&meta)), "Tavily \"rust ratatui\" (10 results)");
}

#[test]
fn synthesize_tool_title_write_returns_path() {
    let input = members(vec![("filePath", s("src/new.rs")), ("content", s("fn main(){}"))]);
    assert_eq!(title("write", "", Some(&input), None), "Write src/new.rs");
}

#[test]
fn synthesize_tool_title_edit_carries_replace_all_flag() {
    let input = members(vec![("filePath", s("src/foo.rs")), ("oldString", s("bar")), ("newString", s("baz")), ("replaceAll", Json::Bool(true))]);
    let t = title("edit", "", Some(&input), None);
    assert!(t.starts_with("Edit src/foo.rs "), "got: {t:?}");
    assert!(t.contains("replaceAll=true"), "got: {t:?}");
    assert!(t.contains("oldString=bar"));
    assert!(t.contains("newString=baz"));
}

#[test]
fn synthesize_tool_title_task_with_subagent_and_description() {
    let input = members(vec![("subagent_type", s("explore")), ("description", s("find all auth helpers"))]);
    assert_eq!(title("task", "", Some(&input), None), "Explore Task — find all auth helpers");
}

#[test]
fn synthesize_tool_title_task_defaults_subagent_to_general() {
    let input = members(vec![("description", s("do thing"))]);
    assert_eq!(title("task", "", Some(&input), None), "General Task — do thing");
}

#[test]
fn synthesize_tool_title_question_counts_questions() {
    let q = |t: &str| obj(vec![("question", s(t))]);
    let input = members(vec![("questions", Json::Array(vec![q("color?"), q("size?"), q("shape?")]))]);
    assert_eq!(title("question", "", Some(&input), None), "Asked 3 questions");
    let one = members(vec![("questions", Json::Array(vec![q("q?")]))]);
    assert_eq!(title("question", "", Some(&one), None), "Asked 1 question");
}

#[test]
fn synthesize_tool_title_question_with_zero_questions_returns_bare_name() {
    let empty_input = members(vec![("questions", Json::Array(vec![]))]);
    assert_eq!(title("question", "", Some(&empty_input), None), "Question");
    let no_field = members(vec![]);
    assert_eq!(title("question", "", Some(&no_field), None), "Question");
    assert_eq!(title("question", "", None, None), "Question");
}

#[test]
fn synthesize_tool_title_generic_tool_lists_all_primitives() {
    let input = members(vec![("foo", s("bar")), ("n", n(7)), ("ok", Json::Bool(true))]);
    let t = title("custom_tool", "", Some(&input), None);
    assert!(t.starts_with("custom_tool "), "got: {t:?}");
    assert!(t.contains("foo=bar"), "got: {t:?}");
    assert!(t.contains("n=7"), "got: {t:?}");
    assert!(t.contains("ok=true"), "got: {t:?}");
    assert_eq!(title("custom_tool", "", None, None), "custom_tool");
}

#[test]
fn synthesize_tool_title_skill_quotes_name() {
    let input = members(vec![("name", s("git-commit"))]);
    assert_eq!(title("skill", "", Some(&input), None), "Skill \"git-commit\"");
}

#[test]
fn synthesize_tool_title_bash_uses_description_field() {
    let input = members(vec![("command", s("ls -la")), ("description", s("List dir"))]);
    assert_eq!(title("bash", "", Some(&input), None), "List dir");
    assert_eq!(title("bash", "Show files", Some(&input), None), "Show files");
    assert_eq!(title("bash", "", None, None), "Shell");
}

#[test]
fn todowrite_title_is_fixed() {
    assert_eq!(title("todowrite", "whatever", None, None), "Todos");
}

#[test]
fn tool_part_to_call_bash_extracts_command_and_metadata_output() {
    let p = part(
        "prt_x",
        "bash",
        "completed",
        obj(vec![("command", s("ls -la")), ("description", s("List dir"))]),
        "fallback",
        "List dir",
        obj(vec![("output", s("primary"))]),
        None,
    );
    let call = tool_part_to_call(&p, CWD);
    assert_eq!(call.name, "bash");
    assert_eq!(call.title, "List dir");
    assert_eq!(call.command.as_deref(), Some("ls -la"));
    assert_eq!(call.output, "primary");
    assert!(call.error.is_none());
    assert_eq!(call.status, "completed");
}

#[test]
fn tool_part_to_call_picks_state_output_when_metadata_missing() {
    let p = part(
        "prt_x",
        "read",
        "completed",
        obj(vec![("filePath", s("/etc/hosts"))]),
        "127.0.0.1 localhost",
        "Read /etc/hosts",
        Json::Null,
        None,
    );
    let call = tool_part_to_call(&p, CWD);
    assert_eq!(call.output, "127.0.0.1 localhost");
    assert_eq!(call.title, "Read /etc/hosts");
}

#[test]
fn tool_part_to_call_caps_runaway_bash_output_to_tail_window() {
    let huge: String = "y\n".repeat(1_000_000);
    let p = part(
        "prt_yes",
        "bash",
        "running",
        obj(vec![("command", s("yes")), ("description", s("Forever"))]),
        &huge,
        "Forever",
        obj(vec![("output", s(&huge))]),
        None,
    );
    let call = tool_part_to_call(&p, CWD);
    assert!(call.output.len() <= MAX_TOOL_OUTPUT_BYTES + 5, "got {} bytes", call.output.len());
    assert!(call.output.ends_with("y\n"));
    assert!(call.output.starts_with("...\n"));
}

#[test]
fn tool_part_to_call_leaves_small_output_untouched() {
    let p = part(
        "prt_x",
        "bash",
        "completed",
        obj(vec![("command", s("echo hi"))]),
        "hi\n",
        "Echo",
        obj(vec![("output", s("hi\n"))]),
        None,
    );
    let call = tool_part_to_call(&p, CWD);
    assert_eq!(call.output, "hi\n");
    assert!(!call.output.starts_with("...\n"));
}

#[test]
fn tool_part_to_call_populates_loaded_for_read_from_metadata() {
    let p = part(
        "prt_read_with_loaded",
        "read",
        "completed",
        obj(vec![("filePath", s("/main.rs"))]),
        "fn main() {}",
        "ignored",
        obj(vec![("loaded", Json::Array(vec![s("/main.rs"), s("/included.rs"), s("/also.rs")]))]),
        None,
    );
    let call = tool_part_to_call(&p, CWD);
    assert_eq!(call.loaded, vec!["/main.rs".to_string(), "/included.rs".to_string(), "/also.rs".to_string()]);
}

#[test]
fn tool_part_to_call_does_not_populate_loaded_for_non_read_tools() {
    let p = part(
        "prt_glob",
        "glob",
        "completed",
        obj(vec![("pattern", s("**/*.rs"))]),
        "",
        "ignored",
        obj(vec![("loaded", Json::Array(vec![s("/junk.rs")]))]),
        None,
    );
    let call = tool_part_to_call(&p, CWD);
    assert!(call.loaded.is_empty(), "got: {:?}", call.loaded);
}

#[test]
fn tool_part_to_call_surfaces_error_message_on_error_status() {
    let p = part("prt_x", "edit", "error", Json::Null, "", "Apply patch", Json::Null, Some("file not found"));
    let call = tool_part_to_call(&p, CWD);
    assert_eq!(call.status, "error");
    assert_eq!(call.error.as_deref(), Some("file not found"));
}

#[test]
fn tool_part_to_call_carries_part_id_for_upsert_matching() {
    let p = part("prt_glob_xyz", "glob", "running", obj(vec![("pattern", s("**/*.rs"))]), "", "", Json::Null, None);
    let call = tool_part_to_call(&p, CWD);
    assert_eq!(call.id.as_deref(), Some("prt_glob_xyz"), "got: {:?}", call.id);
}

#[test]
fn empty_error_is_dropped() {
    let p = part("p", "bash", "error", Json::Null, "", "", Json::Null, Some(""));
    assert!(tool_part_to_call(&p, CWD).error.is_none());
}

#[test]
fn completed_write_shows_content_as_added_lines() {
    let input = obj(vec![("filePath", s("src/a.rs")), ("content", s("one\r\ntwo\nthree"))]);
    let done = part("p", "write", "completed", input, "", "", Json::Null, None);
    assert_eq!(tool_part_to_call(&done, CWD).diff.as_deref(), Some("+one\n+two\n+three\n"));
    let input = obj(vec![("filePath", s("src/a.rs")), ("content", s("one"))]);
    let running = part("p", "write", "running", input, "", "", Json::Null, None);
    assert!(tool_part_to_call(&running, CWD).diff.is_none());
}

#[test]
fn edit_diff_comes_from_metadata() {
    let meta = obj(vec![("diff", s("-a\n+b\n"))]);
    let p = part("p", "edit", "completed", obj(vec![("filePath", s("a"))]), "", "", meta, None);
    let call = tool_part_to_call(&p, CWD);
    assert_eq!(call.diff.as_deref(), Some("-a\n+b\n"));
    assert_eq!(call.file_path.as_deref(), Some("a"));
}

#[test]
fn todos_patches_and_questions_are_read() {
    let todos = Json::Array(vec![
        obj(vec![("content", s("write tests")), ("status", s("pending"))]),
        obj(vec![]),
        s("not an object"),
        obj(vec![("status", s("done"))]),
    ]);
    let p = part("p", "todowrite", "completed", obj(vec![("todos", todos)]), "", "", Json::Null, None);
    let call = tool_part_to_call(&p, CWD);
    assert_eq!(call.todos.len(), 2);
    assert_eq!(call.todos[0].content, "write tests");
    assert_eq!(call.todos[1].content, "");
    assert_eq!(call.todos[1].status, "done");

    let files = Json::Array(vec![
        obj(vec![("type", s("add")), ("filePath", s("/w/a.rs")), ("relativePath", s("a.rs")), ("patch", s("+x"))]),
        obj(vec![("type", s("move")), ("filePath", s("/w/b.rs")), ("movePath", s("/w/c.rs"))]),
        obj(vec![("type", s("update")), ("filePath", s("/w/d.rs")), ("patch", s(""))]),
    ]);
    let p = part("p", "apply_patch", "completed", Json::Null, "", "", obj(vec![("files", files)]), None);
    let call = tool_part_to_call(&p, CWD);
    assert_eq!(call.patches.len(), 3);
    assert_eq!(call.patches[0].kind, PatchKind::Created);
    assert_eq!(call.patches[0].path, "a.rs");
    assert_eq!(call.patches[0].diff.as_deref(), Some("+x"));
    assert_eq!(call.patches[1].kind, PatchKind::Moved);
    assert_eq!(call.patches[1].path, "/w/b.rs");
    assert_eq!(call.patches[1].new_path.as_deref(), Some("/w/c.rs"));
    assert_eq!(call.patches[2].kind, PatchKind::Patched);
    assert_eq!(call.patches[2].path, "/w/d.rs");
    assert!(call.patches[2].diff.is_none());

    let questions = Json::Array(vec![obj(vec![
        ("question", s("color?")),
        ("options", Json::Array(vec![s("red"), obj(vec![("header", s("blue"))]), n(3)])),
    ])]);
    let answers = Json::Array(vec![Json::Array(vec![s("red")]), Json::Null]);
    let p = part("p", "question", "completed", obj(vec![("questions", questions)]), "", "", obj(vec![("answers", answers)]), None);
    let call = tool_part_to_call(&p, CWD);
    assert_eq!(call.questions.len(), 1);
    assert_eq!(call.questions[0].text, "color?");
    assert_eq!(call.questions[0].options, vec!["red".to_string(), "blue".to_string()]);
    assert_eq!(call.answers, vec![vec!["red".to_string()], Vec::<String>::new()]);
}

#[test]
fn child_reference_carries_title_and_paths() {
    let p = part("c1", "read", "running", obj(vec![("filePath", s("/home/dev/project/src/x.rs"))]), "", "", Json::Null, None);
    let child = child_tool_ref_from_part(&p, CWD);
    assert_eq!(child.part_id, "c1");
    assert_eq!(child.title, "Read src/x.rs");
    assert_eq!(child.file_path.as_deref(), Some("/home/dev/project/src/x.rs"));
    assert!(child.command.is_none());
}
