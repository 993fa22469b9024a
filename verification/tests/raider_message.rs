use localtools::raider::call::{ToolPart, ToolState};
use localtools::raider::json::Json;
use localtools::raider::message::{message_to_host, messages_to_host, HostMessagePart, MessagePart, Sender, StoredMessage};
use localtools::raider::mirror::MessageRole;

fn stored(role: MessageRole, created: Option<i64>, completed: Option<i64>, extra: Vec<(&str, Json)>, parts: Vec<MessagePart>) -> StoredMessage {
    StoredMessage {
        id: "msg_x".into(),
        role,
        created,
        completed,
        extra: extra.into_iter().map(|(k, v)| (k.to_string(), v)).collect(),
        parts,
    }
}

#[test]
fn message_duration_computed_from_created_and_completed() {
    let m = stored(
        MessageRole::Assistant,
        Some(1_000),
        Some(2_500),
        vec![("agent", Json::String("build".into())), ("modelID", Json::String("big-pickle".into()))],
        vec![],
    );
    let host = message_to_host(&m, None);
    assert_eq!(host.agent.as_deref(), Some("build"));
    assert_eq!(host.model.as_deref(), Some("big-pickle"));
    assert_eq!(host.duration_ms, Some(1_500));
}

#[test]
fn message_to_host_preserves_ordered_assistant_parts() {
    let m = stored(
        MessageRole::Assistant,
        None,
        None,
        vec![],
        vec![
            MessagePart::Text("first text".into()),
            MessagePart::Reasoning("**Thought A**\n\nbody a".into()),
            MessagePart::Text("second text".into()),
        ],
    );
    let host = message_to_host(&m, None);
    assert_eq!(host.content, "first textsecond text");
    assert_eq!(host.thoughts, "**Thought A**\n\nbody a");
    assert!(matches!(
        host.parts.as_slice(),
        [HostMessagePart::Text(a), HostMessagePart::Thought(b), HostMessagePart::Text(c)]
            if a == "first text" && b == "**Thought A**\n\nbody a" && c == "second text"
    ));
}

#[test]
fn message_duration_none_when_completed_missing() {
    let m = stored(MessageRole::Assistant, Some(1_000), None, vec![], vec![]);
    let host = message_to_host(&m, None);
    assert_eq!(host.duration_ms, None);
    assert!(host.is_streaming);
}

#[test]
fn messages_carry_sender_tools_and_last_compaction() {
    let tool = ToolPart {
        id: "prt_1".into(),
        tool_name: "bash".into(),
        state: ToolState {
            status: "completed".into(),
            input: Json::Object(vec![("command".into(), Json::String("ls".into()))]),
            output: "a\nb".into(),
            title: "".into(),
            metadata: Json::Null,
            error: None,
        },
    };
    let m = stored(
        MessageRole::User,
        Some(5),
        Some(3),
        vec![("error", Json::String("  boom ".into()))],
        vec![
            MessagePart::Compaction { auto: true },
            MessagePart::StepStart,
            MessagePart::Tool(tool),
            MessagePart::Compaction { auto: false },
            MessagePart::Other,
        ],
    );
    let all = messages_to_host(&vec![m], Some("/w"));
    let host = &all[0];
    assert_eq!(host.sender, Sender::User);
    assert!(!host.is_streaming);
    assert_eq!(host.duration_ms, None);
    assert_eq!(host.server_id.as_deref(), Some("msg_x"));
    assert_eq!(host.error.as_deref(), Some("boom"));
    assert_eq!(host.tool_calls.len(), 1);
    assert_eq!(host.tool_calls[0].command.as_deref(), Some("ls"));
    assert_eq!(host.parts.len(), 1);
    assert!(matches!(&host.parts[0], HostMessagePart::Tool(c) if c.name == "bash"));
    assert_eq!(host.compaction, Some(false));
    assert!(host.content.is_empty() && host.thoughts.is_empty() && host.timestamp.is_empty());
}
