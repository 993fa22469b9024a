use localtools::dap::hunks::{apply_hunks, hunk_line_content, HunkFailure};
use localtools::dap::types::{Hunk, HunkLine};

fn hunk(old_start: usize, lines: Vec<HunkLine>) -> Hunk {
    Hunk {
        old_start,
        old_len: 0,
        new_start: 0,
        new_len: 0,
        lines,
    }
}

fn chars(s: &str) -> Vec<char> {
    s.chars().collect()
}

#[test]
fn test_apply_hunks_creates_content_from_empty() {
    let hunks = vec![hunk(
        0,
        vec![
            HunkLine::Add("+first\n".to_string()),
            HunkLine::Add("+second\n".to_string()),
        ],
    )];

    assert_eq!(apply_hunks("", &hunks), Ok("first\nsecond\n".to_string()));
}

#[test]
fn test_apply_hunks_reports_failing_hunk_index() {
    let hunks = vec![
        hunk(1, vec![HunkLine::Context(" keep\n".to_string())]),
        hunk(2, vec![HunkLine::Remove("-missing\n".to_string())]),
    ];

    let failure = apply_hunks("keep\n", &hunks).unwrap_err();
    assert_eq!(failure.index, 1);
    assert_eq!(failure.matches, 0);
    assert_eq!(failure.search_block, "missing\n");
}

#[test]
fn test_hunk_line_content_handles_multi_byte_markers() {
    assert_eq!(
        hunk_line_content(&HunkLine::Context("\u{00A0}\n".to_string())),
        chars("\n")
    );
    assert_eq!(
        hunk_line_content(&HunkLine::Context("\n".to_string())),
        chars("\n")
    );
    assert_eq!(
        hunk_line_content(&HunkLine::Add("+value\n".to_string())),
        chars("value\n")
    );
}

#[test]
fn apply_hunks_adds_and_removes_lines() {
    let add = vec![hunk(
        1,
        vec![
            HunkLine::Context(" def hello():\n".to_string()),
            HunkLine::Add("+    print('Hello')\n".to_string()),
            HunkLine::Context("     pass\n".to_string()),
        ],
    )];
    let out = apply_hunks("def hello():\n    pass", &add).unwrap();
    assert_eq!(out, "def hello():\n    print('Hello')\n    pass\n");

    let remove = vec![hunk(
        1,
        vec![
            HunkLine::Context(" a\n".to_string()),
            HunkLine::Remove("-b\n".to_string()),
        ],
    )];
    assert_eq!(apply_hunks("a\nb\nc\n", &remove), Ok("a\nc\n".to_string()));
}

#[test]
fn apply_hunks_uses_the_line_hint_for_repeated_blocks() {
    let h = vec![hunk(
        3,
        vec![
            HunkLine::Remove("-x\n".to_string()),
            HunkLine::Add("+y\n".to_string()),
        ],
    )];
    assert_eq!(apply_hunks("x\nz\nx\n", &h), Ok("x\nz\ny\n".to_string()));

    let no_hint = vec![hunk(
        0,
        vec![HunkLine::Remove("-x\n".to_string())],
    )];
    assert_eq!(
        apply_hunks("x\nz\nx\n", &no_hint),
        Err(HunkFailure {
            index: 0,
            matches: 2,
            search_block: "x\n".to_string()
        })
    );
}

#[test]
fn apply_no_hunks_keeps_content() {
    assert_eq!(apply_hunks("same\n", &[]), Ok("same\n".to_string()));
}
