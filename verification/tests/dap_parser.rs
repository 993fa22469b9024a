use localtools::dap::command_parser::parse_line_command;
use localtools::dap::diff_parser::{
    MARKER_DELETE, MARKER_DIVIDER, MARKER_MOVE, MARKER_REPLACE_END, MARKER_SEARCH_START,
};
use localtools::dap::parser::parse;
use localtools::dap::types::{Hunk, HunkLine, Patch, PatchOp};
use localtools::dap::udiff_parser::{
    parse_header_path, parse_udiff_hunk_header, HeaderSide, PathStyle, UdiffSection,
};

fn chars(s: &str) -> Vec<char> {
    s.chars().collect()
}

#[test]
fn test_parse_diff_fenced() {
    let patch_text = format!(
        "src/main.rs\n{}\nold\n{}\nnew\n{}\n",
        MARKER_SEARCH_START, MARKER_DIVIDER, MARKER_REPLACE_END
    );
    let patches = parse(&patch_text);
    assert_eq!(patches.len(), 1);
    assert_eq!(patches[0].file_path, "src/main.rs");
    if let PatchOp::Modify { search, .. } = &patches[0].op {
        assert!(search.contains("old"));
    } else {
        panic!("Wrong op");
    }
}

#[test]
fn test_parse_marker_edge_cases() {
    let indented = format!(
        "\n    file1.rs\n      {}\n    old\n    {}\n    new\n    {}\n    ",
        MARKER_SEARCH_START, MARKER_DIVIDER, MARKER_REPLACE_END
    );
    let patches = parse(&indented);
    assert_eq!(patches.len(), 1, "Should parse indented start markers");
    assert_eq!(patches[0].file_path, "file1.rs");

    let polluted = format!(
        "\n    file2.rs\n    some_code {}\n    old\n    {}\n    new\n    {}\n    ",
        MARKER_SEARCH_START, MARKER_DIVIDER, MARKER_REPLACE_END
    );
    let patches_bad = parse(&polluted);
    assert_eq!(
        patches_bad.len(),
        0,
        "Should ignore markers preceded by text"
    );
}

#[test]
fn test_parse_move_delete() {
    let content = format!(
        "file_to_delete.rs {}\nsrc/old.rs {} src/new.rs",
        MARKER_DELETE, MARKER_MOVE
    );
    let patches = parse(&content);
    assert_eq!(patches.len(), 2);
    assert_eq!(patches[0].op, PatchOp::Delete);
    if let PatchOp::Move(dest) = &patches[1].op {
        assert_eq!(dest, "src/new.rs");
    } else {
        panic!("Expected Move op");
    }
}

#[test]
fn test_parse_mixed_formats() {
    let mixed_content = format!(
        r#"--- file1.py
+++ file1.py
@@ -1,1 +1,2 @@
 print("hello")
+print("world")

file2.rs
{}
old code
{}
new code
{}

file3.txt {}
"#,
        MARKER_SEARCH_START, MARKER_DIVIDER, MARKER_REPLACE_END, MARKER_DELETE
    );

    let patches = parse(&mixed_content);
    assert_eq!(patches.len(), 3);

    match &patches[0].op {
        PatchOp::Udiff(_) => {}
        _ => panic!("Expected Udiff op"),
    }

    match &patches[1].op {
        PatchOp::Modify { .. } => {}
        _ => panic!("Expected Modify op"),
    }

    match &patches[2].op {
        PatchOp::Delete => {}
        _ => panic!("Expected Delete op"),
    }
}

#[test]
fn test_parse_git_diff_modify_and_create() {
    let content = r#"diff --git a/config/aliases.sh b/config/aliases.sh
index b114f32..15d52fb 100644
--- a/config/aliases.sh
+++ b/config/aliases.sh
@@ -39,6 +39,7 @@ alias gc='git commit'
 alias gcm='git commit -m'
+alias gsu='gsu.sh'
 
diff --git a/bin/gsu.sh b/bin/gsu.sh
new file mode 100755
index 0000000..325dc66
--- /dev/null
+++ b/bin/gsu.sh
@@ -0,0 +1,2 @@
+#!/usr/bin/env bash
+set -euo pipefail
"#;

    let patches = parse(content);
    assert_eq!(patches.len(), 2);

    assert_eq!(patches[0].file_path, "config/aliases.sh");
    match &patches[0].op {
        PatchOp::Udiff(hunks) => assert_eq!(hunks[0].old_start, 39),
        _ => panic!("Expected Udiff op"),
    }

    assert_eq!(patches[1].file_path, "bin/gsu.sh");
    match &patches[1].op {
        PatchOp::Udiff(hunks) => assert_eq!(hunks[0].old_start, 0),
        _ => panic!("Expected Udiff op"),
    }
}

#[test]
fn test_parse_git_diff_delete() {
    let content = r#"diff --git a/src/old.rs b/src/old.rs
deleted file mode 100644
index 325dc66..0000000
--- a/src/old.rs
+++ /dev/null
@@ -1,1 +0,0 @@
-fn main() {}
"#;

    let patches = parse(content);
    assert_eq!(patches.len(), 1);
    assert_eq!(patches[0].file_path, "src/old.rs");
    assert_eq!(patches[0].op, PatchOp::Delete);
}

#[test]
fn test_parse_git_diff_pure_rename() {
    let content = r#"diff --git a/src/old.rs b/src/new.rs
similarity index 100%
rename from src/old.rs
rename to src/new.rs
"#;

    let patches = parse(content);
    assert_eq!(patches.len(), 1);
    assert_eq!(patches[0].file_path, "src/old.rs");
    assert_eq!(patches[0].op, PatchOp::Move("src/new.rs".to_string()));
}

#[test]
fn test_parse_git_diff_rename_with_changes() {
    let content = r#"diff --git a/src/old.rs b/src/new.rs
similarity index 87%
rename from src/old.rs
rename to src/new.rs
index b114f32..15d52fb 100644
--- a/src/old.rs
+++ b/src/new.rs
@@ -1,1 +1,1 @@
-fn main() {}
+fn main() { run() }
"#;

    let patches = parse(content);
    assert_eq!(patches.len(), 2);
    assert_eq!(patches[0].file_path, "src/old.rs");
    assert_eq!(patches[0].op, PatchOp::Move("src/new.rs".to_string()));

    assert_eq!(patches[1].file_path, "src/new.rs");
    match &patches[1].op {
        PatchOp::Udiff(_) => {}
        _ => panic!("Expected Udiff op"),
    }
}

#[test]
fn test_parse_git_diff_keeps_literal_prefix_directories() {
    let content = r#"diff --git a/a/main.rs b/a/main.rs
index b114f32..15d52fb 100644
--- a/a/main.rs
+++ b/a/main.rs
@@ -1,1 +1,1 @@
-fn main() {}
+fn main() { run() }
"#;

    let patches = parse(content);
    assert_eq!(patches.len(), 1);
    assert_eq!(patches[0].file_path, "a/main.rs");
}

#[test]
fn test_parse_udiff_without_git_header_keeps_paths_verbatim() {
    let content = r#"--- a/main.rs
+++ a/main.rs
@@ -1,1 +1,1 @@
-fn main() {}
+fn main() { run() }
"#;

    let patches = parse(content);
    assert_eq!(patches.len(), 1);
    assert_eq!(patches[0].file_path, "a/main.rs");
    match &patches[0].op {
        PatchOp::Udiff(_) => {}
        _ => panic!("Expected Udiff op"),
    }
}

#[test]
fn test_parse_udiff_header_timestamps() {
    let content = "--- main.rs\t2024-01-01 00:00:00.000000000 +0000\n\
                   +++ main.rs\t2024-01-02 00:00:00.000000000 +0000\n\
                   @@ -1,1 +1,1 @@\n\
                   -fn main() {}\n\
                   +fn main() { run() }\n";

    let patches = parse(content);
    assert_eq!(patches.len(), 1);
    assert_eq!(patches[0].file_path, "main.rs");
}

#[test]
fn test_parse_git_diff_mode_change_only() {
    let content = r#"diff --git a/bin/run.sh b/bin/run.sh
old mode 100644
new mode 100755
"#;

    assert!(parse(content).is_empty());
}

#[test]
fn parse_empty_text_gives_nothing() {
    assert!(parse("").is_empty());
    assert!(parse("just some prose\n\n```\n").is_empty());
}

#[test]
fn parse_keeps_hunk_lines_with_their_markers() {
    let content = "--- f.txt\n+++ f.txt\n@@ -2,2 +2,2 @@\n keep\n-old\n+new\n\\ No newline at end of file\n";
    let patches = parse(content);
    assert_eq!(
        patches,
        vec![Patch {
            file_path: "f.txt".to_string(),
            op: PatchOp::Udiff(vec![Hunk {
                old_start: 2,
                old_len: 0,
                new_start: 0,
                new_len: 0,
                lines: vec![
                    HunkLine::Context(" keep\n".to_string()),
                    HunkLine::Remove("-old\n".to_string()),
                    HunkLine::Add("+new\n".to_string()),
                ],
            }]),
        }]
    );
}

#[test]
fn line_commands_need_a_path() {
    assert_eq!(
        parse_line_command(&format!("  a.txt {}  ", MARKER_DELETE)),
        Some(Patch {
            file_path: "a.txt".to_string(),
            op: PatchOp::Delete
        })
    );
    assert_eq!(parse_line_command(MARKER_DELETE), None);
    assert_eq!(parse_line_command(&format!("{} b.txt", MARKER_MOVE)), None);
    assert_eq!(parse_line_command("plain text"), None);
}

#[test]
fn test_parse_udiff_hunk_header_variations() {
    let zero_hunk = Hunk {
        old_start: 0,
        old_len: 0,
        new_start: 0,
        new_len: 0,
        lines: Vec::new(),
    };

    let hunk_standard = Hunk {
        old_start: 10,
        ..zero_hunk.clone()
    };
    assert_eq!(
        parse_udiff_hunk_header("@@ -10,5 +12,8 @@"),
        Some(hunk_standard)
    );

    assert_eq!(
        parse_udiff_hunk_header("@@ ... @@"),
        Some(zero_hunk.clone())
    );

    assert_eq!(parse_udiff_hunk_header("@@"), Some(zero_hunk.clone()));

    assert_eq!(
        parse_udiff_hunk_header("@@ nonsense @@"),
        Some(zero_hunk.clone())
    );

    assert_eq!(parse_udiff_hunk_header("no markers"), None);
}

#[test]
fn test_parse_header_path_variations() {
    assert_eq!(
        parse_header_path(&chars("a/src/main.rs"), PathStyle::Git, HeaderSide::Old),
        chars("src/main.rs")
    );
    assert_eq!(
        parse_header_path(&chars("b/src/main.rs"), PathStyle::Git, HeaderSide::New),
        chars("src/main.rs")
    );

    assert_eq!(
        parse_header_path(&chars("a/a/main.rs"), PathStyle::Git, HeaderSide::Old),
        chars("a/main.rs")
    );

    assert_eq!(
        parse_header_path(&chars("b/src/main.rs"), PathStyle::Git, HeaderSide::Old),
        chars("b/src/main.rs")
    );

    assert_eq!(
        parse_header_path(&chars("a/src/main.rs"), PathStyle::Verbatim, HeaderSide::Old),
        chars("a/src/main.rs")
    );

    assert_eq!(
        parse_header_path(
            &chars("src/main.rs\t2024-01-01 00:00:00.000000000 +0000"),
            PathStyle::Verbatim,
            HeaderSide::Old
        ),
        chars("src/main.rs")
    );

    assert_eq!(
        parse_header_path(&chars("/dev/null"), PathStyle::Git, HeaderSide::Old),
        chars("/dev/null")
    );
}

#[test]
fn section_finalize_resolves_paths_and_resets() {
    let mut s = UdiffSection::default();
    assert!(s.finalize().is_empty());
    s.set_old_path("x.rs");
    assert!(s.has_file_paths());
    assert!(s.finalize().is_empty());
    assert!(!s.has_file_paths());
    s.set_rename_from("a.rs");
    s.set_rename_to("b.rs");
    assert_eq!(
        s.finalize(),
        vec![Patch {
            file_path: "a.rs".to_string(),
            op: PatchOp::Move("b.rs".to_string())
        }]
    );
    s.set_style(PathStyle::Git);
    s.set_old_path("a/gone.rs");
    s.set_new_path("/dev/null");
    assert_eq!(
        s.finalize(),
        vec![Patch {
            file_path: "gone.rs".to_string(),
            op: PatchOp::Delete
        }]
    );
}

#[test]
fn header_paths_are_compared_as_paths() {
    let content = "--- src/x.rs\n+++ src//x.rs/\n@@ -1,1 +1,1 @@\n-a\n+b\n";
    let patches = parse(content);
    assert_eq!(patches.len(), 1);
    match &patches[0].op {
        PatchOp::Udiff(_) => {}
        _ => panic!("the same path written two ways is no move"),
    }
    let content = "--- src/x.rs\n+++ /dev//null\n";
    let patches = parse(content);
    assert_eq!(patches.len(), 1);
    assert!(matches!(patches[0].op, PatchOp::Delete));
}
