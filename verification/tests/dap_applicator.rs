use localtools::dap::applicator::{plan_patch, replace_once, PatchEffect};
use localtools::dap::types::{Hunk, HunkLine, Patch, PatchOp};

fn patch(path: &str, op: PatchOp) -> Patch {
    Patch { file_path: path.to_string(), op }
}

fn written(p: &Patch, current: &str) -> String {
    match plan_patch(p, false, current).unwrap().effect {
        PatchEffect::Write(t) => t,
        other => panic!("unexpected {other:?}"),
    }
}

fn addition_hunk() -> Hunk {
    Hunk {
        old_start: 1,
        old_len: 2,
        new_start: 1,
        new_len: 3,
        lines: vec![
            HunkLine::Context(" def hello():\n".to_string()),
            HunkLine::Add("+    print('Hello')\n".to_string()),
            HunkLine::Context("     pass\n".to_string()),
        ],
    }
}

#[test]
fn modify_replaces_the_single_block() {
    let p = patch(
        "code.py",
        PatchOp::Modify {
            search: "def hello():\n    print('Hi')".to_string(),
            replace: "def hello():\n    print('Hello World')".to_string(),
        },
    );
    let content = written(&p, "def hello():\n    print('Hi')");
    assert!(content.contains("Hello World"));
    assert!(!content.contains("Hi'"));
    let plan = plan_patch(&p, false, "def hello():\n    print('Hi')").unwrap();
    assert_eq!(plan.message, "    [SUCCESS] Patch applied.");
}

#[test]
fn modify_needs_exactly_one_match() {
    let p = patch("a.txt", PatchOp::Modify { search: "x\n".to_string(), replace: "y\n".to_string() });
    let err = plan_patch(&p, false, "x\nx\n").unwrap_err();
    assert_eq!(err, "    [ERROR] Expected 1 replacement, but 2 occurred. Aborting.");
    assert_eq!(replace_once("a\nb\nc\n", "b\n", "B\n"), Ok("a\nB\nc\n".to_string()));
    assert_eq!(replace_once("a\n", "z\n", "B\n"), Err(0));
}

#[test]
fn blank_search_creates_the_file() {
    let p = patch("new.rs", PatchOp::Modify { search: "".to_string(), replace: "fn main() {}".to_string() });
    assert_eq!(written(&p, ""), "fn main() {}");
    let dry = plan_patch(&p, true, "").unwrap();
    assert_eq!(dry.effect, PatchEffect::Nothing);
    assert_eq!(dry.message, "    [DRY RUN] File would be created/overwritten.");
}

#[test]
fn move_and_delete() {
    let p = patch("old.py", PatchOp::Move("subdir/new.py".to_string()));
    let plan = plan_patch(&p, false, "").unwrap();
    assert_eq!(plan.effect, PatchEffect::MoveTo("subdir/new.py".to_string()));
    assert_eq!(plan.message, "    [SUCCESS] File moved to subdir/new.py");
    let plan = plan_patch(&patch("old.py", PatchOp::Delete), false, "").unwrap();
    assert_eq!(plan.effect, PatchEffect::Remove);
    assert_eq!(plan.message, "    [SUCCESS] File deleted.");
}

#[test]
fn udiff_addition_and_removal() {
    let p = patch("test.py", PatchOp::Udiff(vec![addition_hunk()]));
    let content = written(&p, "def hello():\n    pass");
    assert!(content.contains("print('Hello')"));
    assert!(content.contains("def hello():"));
    assert!(content.contains("pass"));
    let removal = Hunk {
        old_start: 1,
        old_len: 3,
        new_start: 1,
        new_len: 2,
        lines: vec![
            HunkLine::Context(" def hello():\n".to_string()),
            HunkLine::Remove("-    print('Debug')\n".to_string()),
            HunkLine::Context("     pass\n".to_string()),
        ],
    };
    let p = patch("test.py", PatchOp::Udiff(vec![removal]));
    let content = written(&p, "def hello():\n    print('Debug')\n    pass");
    assert!(!content.contains("print('Debug')"));
    assert!(content.contains("pass"));
}

#[test]
fn udiff_dry_run_changes_nothing() {
    let p = patch("test.py", PatchOp::Udiff(vec![addition_hunk()]));
    let plan = plan_patch(&p, true, "def hello():\n    pass").unwrap();
    assert_eq!(plan.effect, PatchEffect::Nothing);
    assert!(plan.message.contains("DRY RUN"));
}

#[test]
fn udiff_reports_the_failing_hunk() {
    let p = patch("test.py", PatchOp::Udiff(vec![addition_hunk()]));
    let err = plan_patch(&p, false, "something else\n").unwrap_err();
    assert_eq!(
        err,
        "    [ERROR] Hunk #1 failed. Expected 1 match for block, found 0.\nSearch block:\n---\ndef hello():\n    pass\n---"
    );
}
