//! A stored message as the transcript shows it: its text, its thoughts, its
//! tool calls and its parts in order, with who wrote it, what produced it and
//! how long it took.
use vstd::prelude::*;
use vstd::string::*;
use crate::raider::call::{call_of, cwd_view, opt_view, tool_part_to_call, ToolCall, ToolPart};
use crate::raider::json::{
    as_text, error_message, extract_agent, extract_assistant_error, extract_model_display, extract_provider, member,
    text_member, as_members, Json,
};
use crate::raider::mirror::MessageRole;

verus! {

/// A part of a stored message.
pub enum MessagePart {
    Text(String),
    Reasoning(String),
    Tool(ToolPart),
    Compaction { auto: bool },
    StepStart,
    StepFinish,
    Other,
}

/// A stored message: its id, who wrote it, when it was created and completed
/// (milliseconds), its other fields, and its parts.
pub struct StoredMessage {
    pub id: String,
    pub role: MessageRole,
    pub created: Option<i64>,
    pub completed: Option<i64>,
    pub extra: Vec<(String, Json)>,
    pub parts: Vec<MessagePart>,
}

/// Who a transcript message is from.
#[derive(Debug, Clone, Copy, PartialEq, Eq, Structural)]
pub enum Sender {
    User,
    Assistant,
    System,
}

/// A part of a transcript message, in the order the message holds it.
pub enum HostMessagePart {
    Text(String),
    Thought(String),
    Tool(ToolCall),
}

/// A message as the transcript shows it.
pub struct HostMessage {
    pub sender: Sender,
    pub content: String,
    pub thoughts: String,
    pub server_id: Option<String>,
    pub timestamp: String,
    pub is_streaming: bool,
    pub agent: Option<String>,
    pub model: Option<String>,
    pub provider_id: Option<String>,
    pub duration_ms: Option<u64>,
    pub error: Option<String>,
    pub tool_calls: Vec<ToolCall>,
    pub parts: Vec<HostMessagePart>,
    pub compaction: Option<bool>,
}

/// The texts of the text parts among `ps`, run together.
pub open spec fn content_of(ps: Seq<MessagePart>) -> Seq<char>
    decreases ps.len(),
{
    if ps.len() == 0 {
        seq![]
    } else {
        content_of(ps.drop_last()) + match ps.last() {
            MessagePart::Text(t) => t@,
            _ => seq![],
        }
    }
}

/// The texts of the reasoning parts among `ps`, run together.
pub open spec fn thoughts_of(ps: Seq<MessagePart>) -> Seq<char>
    decreases ps.len(),
{
    if ps.len() == 0 {
        seq![]
    } else {
        thoughts_of(ps.drop_last()) + match ps.last() {
            MessagePart::Reasoning(t) => t@,
            _ => seq![],
        }
    }
}

/// The tool parts among `ps`, in order.
pub open spec fn tool_parts(ps: Seq<MessagePart>) -> Seq<ToolPart>
    decreases ps.len(),
{
    if ps.len() == 0 {
        seq![]
    } else {
        tool_parts(ps.drop_last()) + match ps.last() {
            MessagePart::Tool(t) => seq![t],
            _ => seq![],
        }
    }
}

/// The parts among `ps` the transcript shows: text, reasoning and tool parts,
/// in order.
pub open spec fn shown_parts(ps: Seq<MessagePart>) -> Seq<MessagePart>
    decreases ps.len(),
{
    if ps.len() == 0 {
        seq![]
    } else {
        shown_parts(ps.drop_last()) + match ps.last() {
            MessagePart::Text(_) | MessagePart::Reasoning(_) | MessagePart::Tool(_) => seq![ps.last()],
            _ => seq![],
        }
    }
}

/// Whether the transcript part `h` shows the message part `p`.
pub open spec fn shows(p: MessagePart, h: HostMessagePart, cwd: Option<Seq<char>>) -> bool {
    match (p, h) {
        (MessagePart::Text(t), HostMessagePart::Text(u)) => u@ == t@,
        (MessagePart::Reasoning(t), HostMessagePart::Thought(u)) => u@ == t@,
        (MessagePart::Tool(t), HostMessagePart::Tool(c)) => call_of(t, cwd, c),
        _ => false,
    }
}

/// Whether the last compaction part among `ps` was automatic, if there is one.
pub open spec fn compaction_of(ps: Seq<MessagePart>) -> Option<bool>
    decreases ps.len(),
{
    if ps.len() == 0 {
        None
    } else {
        match ps.last() {
            MessagePart::Compaction { auto } => Some(auto),
            _ => compaction_of(ps.drop_last()),
        }
    }
}

/// The sender of a message of role `r`.
pub open spec fn sender_of(r: MessageRole) -> Sender {
    match r {
        MessageRole::User => Sender::User,
        MessageRole::Assistant => Sender::Assistant,
        MessageRole::System => Sender::System,
    }
}

/// How long a message took: from creation to completion, when both are known
/// and completion is not earlier.
pub open spec fn duration_of(created: Option<i64>, completed: Option<i64>) -> Option<int> {
    match (created, completed) {
        (Some(s), Some(e)) => if e >= s { Some(e - s) } else { None },
        _ => None,
    }
}

/// Whether `h` is how the transcript shows the message `m` (tool calls in the
/// working directory `cwd`): the sender of its role; its text and its thoughts
/// run together; its id; no timestamp; still streaming when an assistant
/// message is not completed; its agent, model, provider and error as its fields
/// give them; its duration; its tool calls, and its text, reasoning and tool
/// parts in order; and whether its last compaction was automatic.
pub open spec fn host_message_of(m: StoredMessage, cwd: Option<Seq<char>>, h: HostMessage) -> bool {
    let ps = m.parts@;
    let tools = tool_parts(ps);
    let shown = shown_parts(ps);
    &&& h.sender == sender_of(m.role)
    &&& h.content@ == content_of(ps)
    &&& h.thoughts@ == thoughts_of(ps)
    &&& opt_view(h.server_id) == Some(m.id@)
    &&& h.timestamp@.len() == 0
    &&& h.is_streaming == (m.role == MessageRole::Assistant && m.completed is None)
    &&& opt_view(h.agent) == as_text(member(m.extra@, "agent"@))
    &&& opt_view(h.model) == (match as_text(member(m.extra@, "modelID"@)) {
        Some(t) => Some(t),
        None => match text_member(as_members(member(m.extra@, "model"@)), "modelID"@) {
            Some(t) => Some(t),
            None => text_member(as_members(member(m.extra@, "model"@)), "id"@),
        },
    })
    &&& opt_view(h.provider_id) == (match as_text(member(m.extra@, "providerID"@)) {
        Some(t) => Some(t),
        None => text_member(as_members(member(m.extra@, "model"@)), "providerID"@),
    })
    &&& opt_view(h.error) == (match member(m.extra@, "error"@) {
        Some(raw) => error_message(raw),
        None => None,
    })
    &&& (match duration_of(m.created, m.completed) {
        Some(d) => h.duration_ms == Some(d as u64),
        None => h.duration_ms is None,
    })
    &&& h.tool_calls@.len() == tools.len()
    &&& (forall|k: int| 0 <= k < tools.len() ==> call_of(tools[k], cwd, #[trigger] h.tool_calls@[k]))
    &&& h.parts@.len() == shown.len()
    &&& (forall|k: int| 0 <= k < shown.len() ==> shows(shown[k], #[trigger] h.parts@[k], cwd))
    &&& h.compaction == compaction_of(ps)
}

fn duration_ms_of(created: Option<i64>, completed: Option<i64>) -> (r: Option<u64>)
    ensures
        match duration_of(created, completed) {
            Some(d) => r == Some(d as u64),
            None => r is None,
        },
{
    match (created, completed) {
        (Some(s), Some(e)) => if e >= s {
            let d = (e as i128) - (s as i128);
            Some(d as u64)
        } else {
            None
        },
        _ => None,
    }
}

/// A stored message as the transcript shows it (see `host_message_of`).
pub fn message_to_host(m: &StoredMessage, cwd: Option<&str>) -> (r: HostMessage)
    ensures
        host_message_of(*m, cwd_view(cwd), r),
{
    let sender = match m.role {
        MessageRole::User => Sender::User,
        MessageRole::Assistant => Sender::Assistant,
        MessageRole::System => Sender::System,
    };
    let ghost ps = m.parts@;
    let ghost c = cwd_view(cwd);
    let mut content = String::new();
    let mut thoughts = String::new();
    let mut tool_calls: Vec<ToolCall> = Vec::new();
    let mut parts: Vec<HostMessagePart> = Vec::new();
    let mut compaction: Option<bool> = None;
    let mut i: usize = 0;
    while i < m.parts.len()
        invariant
            i <= ps.len(),
            ps == m.parts@,
            c == cwd_view(cwd),
            content@ == content_of(ps.take(i as int)),
            thoughts@ == thoughts_of(ps.take(i as int)),
            tool_calls@.len() == tool_parts(ps.take(i as int)).len(),
            forall|k: int| 0 <= k < tool_calls@.len() ==> call_of(tool_parts(ps.take(i as int))[k], c, #[trigger] tool_calls@[k]),
            parts@.len() == shown_parts(ps.take(i as int)).len(),
            forall|k: int| 0 <= k < parts@.len() ==> shows(shown_parts(ps.take(i as int))[k], #[trigger] parts@[k], c),
            compaction == compaction_of(ps.take(i as int)),
        decreases ps.len() - i,
    {
        let ghost pre = ps.take(i as int);
        let ghost post = ps.take(i + 1);
        proof {
            assert(post.drop_last() =~= pre);
            assert(post.last() == ps[i as int]);
        }
        let ghost tools_before = tool_calls@;
        let ghost parts_before = parts@;
        match &m.parts[i] {
            MessagePart::Text(t) => {
                content.append(t.as_str());
                parts.push(HostMessagePart::Text(t.clone()));
            },
            MessagePart::Reasoning(t) => {
                thoughts.append(t.as_str());
                parts.push(HostMessagePart::Thought(t.clone()));
            },
            MessagePart::Tool(t) => {
                tool_calls.push(tool_part_to_call(t, cwd));
                parts.push(HostMessagePart::Tool(tool_part_to_call(t, cwd)));
            },
            MessagePart::Compaction { auto } => {
                compaction = Some(*auto);
            },
            _ => {},
        }
        proof {
            assert(content@ =~= content_of(post));
            assert(thoughts@ =~= thoughts_of(post));
            assert forall|k: int| 0 <= k < tool_calls@.len() implies call_of(tool_parts(post)[k], c, #[trigger] tool_calls@[k]) by {
                if k < tools_before.len() {
                    assert(tool_calls@[k] == tools_before[k]);
                    assert(tool_parts(post)[k] == tool_parts(pre)[k]);
                }
            }
            assert forall|k: int| 0 <= k < parts@.len() implies shows(shown_parts(post)[k], #[trigger] parts@[k], c) by {
                if k < parts_before.len() {
                    assert(parts@[k] == parts_before[k]);
                    assert(shown_parts(post)[k] == shown_parts(pre)[k]);
                }
            }
        }
        i += 1;
    }
    proof {
        assert(ps.take(ps.len() as int) =~= ps);
    }
    let is_streaming = match m.role {
        MessageRole::Assistant => m.completed.is_none(),
        _ => false,
    };
    HostMessage {
        sender,
        content,
        thoughts,
        server_id: Some(m.id.clone()),
        timestamp: String::new(),
        is_streaming,
        agent: extract_agent(&m.extra),
        model: extract_model_display(&m.extra),
        provider_id: extract_provider(&m.extra),
        duration_ms: duration_ms_of(m.created, m.completed),
        error: extract_assistant_error(&m.extra),
        tool_calls,
        parts,
        compaction,
    }
}

/// The transcript of stored messages, in order (see `host_message_of`).
pub fn messages_to_host(ms: &Vec<StoredMessage>, cwd: Option<&str>) -> (r: Vec<HostMessage>)
    ensures
        r@.len() == ms@.len(),
        forall|k: int| 0 <= k < ms@.len() ==> host_message_of(ms@[k], cwd_view(cwd), #[trigger] r@[k]),
{
    let mut out: Vec<HostMessage> = Vec::new();
    let mut i: usize = 0;
    while i < ms.len()
        invariant
            i <= ms@.len(),
            out@.len() == i,
            forall|k: int| 0 <= k < i ==> host_message_of(ms@[k], cwd_view(cwd), #[trigger] out@[k]),
        decreases ms@.len() - i,
    {
        out.push(message_to_host(&ms[i], cwd));
        i += 1;
    }
    out
}

} // verus!
