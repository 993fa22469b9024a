use localtools::raider::mirror::{MessageRole, PartKind, PartMirror};

fn id(s: &str) -> String {
    s.to_string()
}

#[test]
fn diff_emits_only_new_suffix() {
    let mut m = PartMirror::new();
    assert_eq!(m.diff_text(id("m"), id("p"), "hello"), Some("hello".to_string()));
    assert_eq!(m.diff_text(id("m"), id("p"), "hello world"), Some(" world".to_string()));
    assert_eq!(m.diff_text(id("m"), id("p"), "hello world"), None);
}

#[test]
fn diff_resets_on_non_prefix_change() {
    let mut m = PartMirror::new();
    m.diff_text(id("m"), id("p"), "abc");
    let delta = m.diff_text(id("m"), id("p"), "xyz");
    assert_eq!(delta, Some("xyz".to_string()));
}

#[test]
fn mark_message_complete_drops_text_and_reasoning_for_that_message() {
    let mut m = PartMirror::new();
    let _ = m.diff_text(id("m1"), id("p1"), "hello");
    let _ = m.diff_reasoning(id("m1"), id("p2"), "thinking");
    let _ = m.diff_text(id("m2"), id("p3"), "other");

    m.mark_message_complete("m1");

    assert!(m.streamed_text("m1", "p1").is_none());
    assert!(m.streamed_reasoning("m1", "p2").is_none());
    assert_eq!(m.streamed_text("m2", "p3").map(String::as_str), Some("other"), "unrelated message must remain");
}

#[test]
fn forget_session_drops_all_state_for_that_session() {
    let mut m = PartMirror::new();
    m.associate_message_with_session(id("m1"), id("s1"));
    m.associate_message_with_session(id("m2"), id("s2"));
    let _ = m.diff_text(id("m1"), id("p1"), "in-s1");
    let _ = m.diff_text(id("m2"), id("p2"), "in-s2");
    m.remember_role(id("m1"), MessageRole::User);
    m.remember_role(id("m2"), MessageRole::Assistant);

    m.forget_session("s1");

    assert!(m.streamed_text("m1", "p1").is_none());
    assert!(!m.is_user_message("m1"));
    assert_eq!(m.streamed_text("m2", "p2").map(String::as_str), Some("in-s2"), "other session is untouched");
}

#[test]
fn forget_session_drops_child_session_links_for_that_parent() {
    let mut m = PartMirror::new();
    m.remember_child_parent(id("child"), id("parent"));
    m.forget_session("parent");
    assert!(m.parent_session_for_child("child").is_none());
}

#[test]
fn associate_then_forget_lets_subsequent_associations_for_same_message_work() {
    let mut m = PartMirror::new();
    m.associate_message_with_session(id("m1"), id("s1"));
    m.forget_session("s1");
    m.associate_message_with_session(id("m1"), id("s2"));
    assert!(m.text_is_empty());
}

#[test]
fn streamed_pieces_accumulate_by_kind() {
    let mut m = PartMirror::new();
    m.note_streamed_part(id("m"), id("p"), PartKind::Text, "he");
    m.note_streamed_part(id("m"), id("p"), PartKind::Text, "llo");
    m.note_streamed_part(id("m"), id("r"), PartKind::Reasoning, "hmm");
    m.note_streamed_part(id("m"), id("t"), PartKind::Tool, "ignored");
    assert_eq!(m.streamed_text("m", "p").map(String::as_str), Some("hello"));
    assert_eq!(m.streamed_reasoning("m", "r").map(String::as_str), Some("hmm"));
    assert!(m.streamed_text("m", "t").is_none());
    assert_eq!(m.diff_text(id("m"), id("p"), "hello!"), Some("!".to_string()));
}

#[test]
fn child_calls_are_counted_once_each() {
    let mut m = PartMirror::new();
    assert_eq!(m.record_child_tool(id("task"), id("c1")), 1);
    assert_eq!(m.record_child_tool(id("task"), id("c2")), 2);
    assert_eq!(m.record_child_tool(id("task"), id("c1")), 2);
    assert_eq!(m.record_child_tool(id("other"), id("c1")), 1);
}

#[test]
fn links_and_kinds_are_remembered() {
    let mut m = PartMirror::new();
    m.remember_task_child_session(id("child"), id("task-part"));
    m.note_child_session_current_tool(id("child"), id("call-7"));
    m.remember_kind(id("m"), id("p"), PartKind::Reasoning);
    assert_eq!(m.parent_part_for_child("child"), Some("task-part".to_string()));
    assert_eq!(m.child_session_current_tool("child").map(String::as_str), Some("call-7"));
    assert_eq!(m.kind_of("m", "p"), Some(PartKind::Reasoning));
    assert_eq!(m.kind_of("m", "q"), None);
    m.forget_session("child");
    assert!(m.parent_part_for_child("child").is_none());
    assert!(m.child_session_current_tool("child").is_none());
    m.clear();
    assert_eq!(m.kind_of("m", "p"), None);
}
