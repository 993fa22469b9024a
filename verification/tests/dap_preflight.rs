use localtools::dap::preflight_checks::{check_patch, paths_to_load, report_line, ProjectedFile, ProjectedTree};
use localtools::dap::types::{Hunk, HunkLine, Patch, PatchOp};

fn tree_with(files: &[(&str, Option<&str>)]) -> ProjectedTree {
    let mut t = ProjectedTree::new();
    for (p, c) in files {
        let state = match c {
            Some(text) => ProjectedFile::Text(text.to_string()),
            None => ProjectedFile::Absent,
        };
        t.load(p, state);
    }
    t
}

fn run(patches: &[Patch], tree: &mut ProjectedTree) -> Result<(), Vec<String>> {
    let mut errors = Vec::new();
    for (i, p) in patches.iter().enumerate() {
        for path in paths_to_load(p) {
            assert!(tree.knows(&path), "test tree must know {path}");
        }
        if let Err(e) = check_patch(p, false, tree) {
            errors.push(report_line(i, &p.file_path, &e));
        }
    }
    if errors.is_empty() {
        Ok(())
    } else {
        Err(errors)
    }
}

#[test]
fn test_run_preflight_checks_modify_success() {
    let mut t = tree_with(&[("test.py", Some("def hello():\n    pass"))]);
    let patch = Patch {
        file_path: "test.py".into(),
        op: PatchOp::Modify {
            search: "def hello():\n    pass".to_string(),
            replace: "def world()".to_string(),
        },
    };
    assert!(run(&[patch], &mut t).is_ok());
    assert_eq!(
        t.get("test.py"),
        Some(ProjectedFile::Text("def world()".to_string()))
    );
}

#[test]
fn test_run_preflight_checks_modify_not_found() {
    let mut t = tree_with(&[("nonexistent.py", None)]);
    let patch = Patch {
        file_path: "nonexistent.py".into(),
        op: PatchOp::Modify {
            search: "def hello()".to_string(),
            replace: "def world()".to_string(),
        },
    };
    let errors = run(&[patch], &mut t).unwrap_err();
    assert!(errors[0].contains("File not found"));
    assert_eq!(
        errors[0],
        "  - Patch #1 for 'nonexistent.py': FAILED (File not found)"
    );
}

#[test]
fn test_run_preflight_checks_udiff_empty_hunks() {
    let mut t = tree_with(&[("test.py", Some("def hello():\n    pass"))]);
    let patch = Patch {
        file_path: "test.py".into(),
        op: PatchOp::Udiff(vec![]),
    };
    let errors = run(&[patch], &mut t).unwrap_err();
    assert!(errors[0].contains("contains no hunks"));
}

#[test]
fn test_run_preflight_checks_udiff_file_not_found() {
    let mut t = tree_with(&[("nonexistent.py", None)]);
    let patch = Patch {
        file_path: "nonexistent.py".into(),
        op: PatchOp::Udiff(vec![Hunk {
            old_start: 1,
            old_len: 1,
            new_start: 1,
            new_len: 1,
            lines: vec![HunkLine::Context(" test\n".to_string())],
        }]),
    };
    let errors = run(&[patch], &mut t).unwrap_err();
    assert!(errors[0].contains("File not found"));
}

#[test]
fn test_run_preflight_checks_move_then_patch_destination() {
    let mut t = tree_with(&[("old.py", Some("print('old')\n")), ("new.py", None)]);
    let patches = vec![
        Patch {
            file_path: "old.py".into(),
            op: PatchOp::Move("new.py".into()),
        },
        Patch {
            file_path: "new.py".into(),
            op: PatchOp::Udiff(vec![Hunk {
                old_start: 1,
                old_len: 1,
                new_start: 1,
                new_len: 1,
                lines: vec![
                    HunkLine::Remove("-print('old')\n".to_string()),
                    HunkLine::Add("+print('new')\n".to_string()),
                ],
            }]),
        },
    ];
    assert!(run(&patches, &mut t).is_ok());
    assert_eq!(t.get("old.py"), Some(ProjectedFile::Absent));
    assert_eq!(
        t.get("new.py"),
        Some(ProjectedFile::Text("print('new')\n".to_string()))
    );
}

#[test]
fn test_run_preflight_checks_reports_stale_source_after_move() {
    let mut t = tree_with(&[("old.py", Some("print('old')\n")), ("new.py", None)]);
    let patches = vec![
        Patch {
            file_path: "old.py".into(),
            op: PatchOp::Move("new.py".into()),
        },
        Patch {
            file_path: "old.py".into(),
            op: PatchOp::Delete,
        },
    ];
    let errors = run(&patches, &mut t).unwrap_err();
    assert_eq!(errors.len(), 1);
    assert!(errors[0].contains("File not found, cannot delete"));
}

#[test]
fn test_run_preflight_checks_chains_edits_on_one_file() {
    let mut t = tree_with(&[("test.py", Some("one\ntwo\n"))]);
    let patches = vec![
        Patch {
            file_path: "test.py".into(),
            op: PatchOp::Modify {
                search: "one\n".to_string(),
                replace: "uno\n".to_string(),
            },
        },
        Patch {
            file_path: "test.py".into(),
            op: PatchOp::Modify {
                search: "uno\n".to_string(),
                replace: "first\n".to_string(),
            },
        },
    ];
    assert!(run(&patches, &mut t).is_ok());
    assert_eq!(
        t.get("test.py"),
        Some(ProjectedFile::Text("first\ntwo\n".to_string()))
    );
}

#[test]
fn preflight_refuses_read_only_and_ambiguous_blocks() {
    let mut t = tree_with(&[("a.txt", Some("x\nx\n"))]);
    let p = Patch {
        file_path: "a.txt".into(),
        op: PatchOp::Delete,
    };
    assert_eq!(
        check_patch(&p, true, &mut t),
        Err("FAILED (File is read-only)".to_string())
    );
    let m = Patch {
        file_path: "a.txt".into(),
        op: PatchOp::Modify {
            search: "x\n".into(),
            replace: "y\n".into(),
        },
    };
    assert_eq!(
        check_patch(&m, false, &mut t),
        Err("FAILED (Search block is ambiguous, found 2 times)".to_string())
    );
    let mut t2 = tree_with(&[("b.txt", None), ("c.txt", Some("z"))]);
    let mv = Patch {
        file_path: "c.txt".into(),
        op: PatchOp::Move("c.txt".into()),
    };
    assert_eq!(
        check_patch(&mv, false, &mut t2),
        Err("FAILED (Destination file 'c.txt' already exists)".to_string())
    );
    let create = Patch {
        file_path: "b.txt".into(),
        op: PatchOp::Modify {
            search: "  ".into(),
            replace: "new".into(),
        },
    };
    assert_eq!(
        check_patch(&create, false, &mut t2),
        Ok("OK (New file creation)".to_string())
    );
    assert_eq!(
        check_patch(&create, false, &mut t2),
        Ok("OK (File will be overwritten)".to_string())
    );
}

#[test]
fn preflight_reports_unreadable_files() {
    let mut t = ProjectedTree::new();
    t.load("u.txt", ProjectedFile::Unreadable("denied".into()));
    t.load("u.txt", ProjectedFile::Absent);
    let m = Patch {
        file_path: "u.txt".into(),
        op: PatchOp::Modify {
            search: "a".into(),
            replace: "b".into(),
        },
    };
    assert_eq!(
        check_patch(&m, false, &mut t),
        Err("FAILED (Could not read file: denied)".to_string())
    );
}

#[test]
fn the_tree_compares_paths_as_paths() {
    let mut t = tree_with(&[("src/a.rs", Some("x\n"))]);
    assert!(t.knows("src//a.rs"));
    assert!(t.knows("src/./a.rs/"));
    assert!(!t.knows("./src/a.rs"));
    t.set("src//a.rs", ProjectedFile::Absent);
    assert!(matches!(t.get("src/a.rs"), Some(ProjectedFile::Absent)));
}

#[test]
fn path_keys_follow_path_components() {
    use_key("a//b/", "a/b");
    use_key("/a/./b", "/a/b");
    use_key("./a", "./a");
    use_key(".", ".");
    use_key("", "");
    use_key("/", "/");
    use_key("a/../b", "a/../b");
    use_key("./", ".");
}

fn use_key(path: &str, key: &str) {
    assert_eq!(localtools::text::path_key_of(path), key, "{path}");
    assert_eq!(
        std::path::Path::new(path) == std::path::Path::new(key),
        true,
        "{path} and {key} name different paths"
    );
}

fn all_paths(max: usize) -> Vec<String> {
    let mut out = vec![String::new()];
    let mut frontier = vec![String::new()];
    for _ in 0..max {
        let mut next = Vec::new();
        for p in &frontier {
            for c in ['a', '.', '/'] {
                let mut q = p.clone();
                q.push(c);
                next.push(q);
            }
        }
        out.extend(next.iter().cloned());
        frontier = next;
    }
    out
}

#[test]
fn path_keys_are_equal_exactly_when_paths_are() {
    let paths = all_paths(5);
    let keys: Vec<String> = paths.iter().map(|p| localtools::text::path_key_of(p)).collect();
    for (i, a) in paths.iter().enumerate() {
        for (j, b) in paths.iter().enumerate() {
            let same = std::path::Path::new(a) == std::path::Path::new(b);
            assert_eq!(keys[i] == keys[j], same, "{a:?} {b:?}");
        }
    }
}
