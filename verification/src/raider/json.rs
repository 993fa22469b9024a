//! JSON values as the agent server sends them, and the lookups made on them.
use vstd::prelude::*;
use crate::text::{str_eq, trim, trim_str, string_of};

verus! {

/// A JSON number: the text it is written as, and its value when it is a whole
/// number in the range of `u64`.
#[derive(Debug)]
pub struct JsonNumber {
    pub text: String,
    pub unsigned: Option<u64>,
}

/// A JSON value. An object keeps its members in the order the reader gave them.
#[derive(Debug)]
pub enum Json {
    Null,
    Bool(bool),
    Number(JsonNumber),
    String(String),
    Array(Vec<Json>),
    Object(Vec<(String, Json)>),
}

/// The value of the first member of `es` from `k` on whose name is `key`.
pub open spec fn member_from(es: Seq<(String, Json)>, key: Seq<char>, k: int) -> Option<Json>
    decreases es.len() - k,
{
    if k < 0 || k >= es.len() {
        None
    } else if es[k].0@ == key {
        Some(es[k].1)
    } else {
        member_from(es, key, k + 1)
    }
}

/// What `Map::get(key)` gives on an object's members.
pub open spec fn member(es: Seq<(String, Json)>, key: Seq<char>) -> Option<Json> {
    member_from(es, key, 0)
}

/// The member `key` of an object that may be missing.
pub open spec fn lookup(m: Option<Seq<(String, Json)>>, key: Seq<char>) -> Option<Json> {
    match m {
        Some(es) => member(es, key),
        None => None,
    }
}

/// What `as_str` gives on a value that may be missing.
pub open spec fn as_text(v: Option<Json>) -> Option<Seq<char>> {
    match v {
        Some(Json::String(s)) => Some(s@),
        _ => None,
    }
}

/// What `as_u64` gives on a value that may be missing.
pub open spec fn as_unsigned(v: Option<Json>) -> Option<u64> {
    match v {
        Some(Json::Number(n)) => n.unsigned,
        _ => None,
    }
}

/// What `as_array` gives on a value that may be missing.
pub open spec fn as_items(v: Option<Json>) -> Option<Seq<Json>> {
    match v {
        Some(Json::Array(xs)) => Some(xs@),
        _ => None,
    }
}

/// What `as_object` gives on a value that may be missing.
pub open spec fn as_members(v: Option<Json>) -> Option<Seq<(String, Json)>> {
    match v {
        Some(Json::Object(es)) => Some(es@),
        _ => None,
    }
}

/// The text member `key` of an object that may be missing.
pub open spec fn text_member(m: Option<Seq<(String, Json)>>, key: Seq<char>) -> Option<Seq<char>> {
    as_text(lookup(m, key))
}

/// The value of `key` among an object's members (see `member`).
pub fn member_of<'a>(es: &'a Vec<(String, Json)>, key: &str) -> (r: Option<&'a Json>)
    ensures
        match member(es@, key@) {
            Some(x) => r matches Some(y) && *y == x,
            None => r is None,
        },
{
    let mut k: usize = 0;
    while k < es.len()
        invariant
            k <= es@.len(),
            member_from(es@, key@, k as int) == member(es@, key@),
        decreases es@.len() - k,
    {
        if str_eq(es[k].0.as_str(), key) {
            return Some(&es[k].1);
        }
        k = k + 1;
    }
    None
}

/// The member `key` of an object that may be missing (see `lookup`).
pub fn lookup_in<'a>(m: Option<&'a Vec<(String, Json)>>, key: &str) -> (r: Option<&'a Json>)
    ensures
        match lookup(
            match m {
                Some(es) => Some(es@),
                None => None,
            },
            key@,
        ) {
            Some(x) => r matches Some(y) && *y == x,
            None => r is None,
        },
{
    match m {
        Some(es) => member_of(es, key),
        None => None,
    }
}

/// The members of an object that may be missing, as a sequence.
pub open spec fn members_view(m: Option<&Vec<(String, Json)>>) -> Option<Seq<(String, Json)>> {
    match m {
        Some(es) => Some(es@),
        None => None,
    }
}

/// The text of a value that may be missing, copied (see `as_text`).
pub fn text_of(v: Option<&Json>) -> (r: Option<String>)
    ensures
        match v {
            Some(x) => match as_text(Some(*x)) {
                Some(t) => r matches Some(s) && s@ == t,
                None => r is None,
            },
            None => r is None,
        },
{
    match v {
        Some(Json::String(s)) => Some(s.clone()),
        _ => None,
    }
}

/// The whole number of a value that may be missing (see `as_unsigned`).
pub fn unsigned_of(v: Option<&Json>) -> (r: Option<u64>)
    ensures
        r == match v {
            Some(x) => as_unsigned(Some(*x)),
            None => None,
        },
{
    match v {
        Some(Json::Number(n)) => n.unsigned,
        _ => None,
    }
}

/// The items of a value that may be missing (see `as_items`).
pub fn items_of(v: Option<&Json>) -> (r: Option<&Vec<Json>>)
    ensures
        match v {
            Some(x) => match *x {
                Json::Array(xs) => r matches Some(y) && *y == xs,
                _ => r is None,
            },
            None => r is None,
        },
{
    match v {
        Some(Json::Array(xs)) => Some(xs),
        _ => None,
    }
}

/// The members of a value that may be missing (see `as_members`).
pub fn members_of(v: Option<&Json>) -> (r: Option<&Vec<(String, Json)>>)
    ensures
        match v {
            Some(x) => match *x {
                Json::Object(es) => r matches Some(y) && *y == es,
                _ => r is None,
            },
            None => r is None,
        },
{
    match v {
        Some(Json::Object(es)) => Some(es),
        _ => None,
    }
}

/// The text member `key` of an object that may be missing, copied (see
/// `text_member`).
pub fn text_member_of(m: Option<&Vec<(String, Json)>>, key: &str) -> (r: Option<String>)
    ensures
        match text_member(members_view(m), key@) {
            Some(t) => r matches Some(s) && s@ == t,
            None => r is None,
        },
{
    text_of(lookup_in(m, key))
}

/// What `serde_json::to_string` gives for a value (`None` when it fails).
pub uninterp spec fn json_serialized(v: Json) -> Option<Seq<char>>;

/// `serde_json::Value`, declared so that a converter can return it; nothing of
/// its contents is visible to proofs.
#[verifier::external_type_specification]
#[verifier::external_body]
pub struct ExJsonValue(serde_json::Value);

/// The `serde_json::Value` a `Json` stands for: each variant for its own, a
/// number read back from its text (`null` if the text is not a JSON number).
/// No contract is claimed of it.
#[verifier::external_body]
fn to_serde_json(v: &Json) -> serde_json::Value {
    match v {
        Json::Null => serde_json::Value::Null,
        Json::Bool(b) => serde_json::Value::Bool(*b),
        Json::Number(n) => n.text.parse().map(serde_json::Value::Number).unwrap_or(serde_json::Value::Null),
        Json::String(s) => serde_json::Value::String(s.clone()),
        Json::Array(xs) => serde_json::Value::Array(xs.iter().map(to_serde_json).collect()),
        Json::Object(es) => serde_json::Value::Object(es.iter().map(|(k, x)| (k.clone(), to_serde_json(x))).collect()),
    }
}

/// `serde_json::to_string` of the value (`None` when it fails), named by
/// `json_serialized`.
#[verifier::external_body]
fn serialized(v: &Json) -> (r: Option<String>)
    ensures
        match json_serialized(*v) {
            Some(t) => r matches Some(s) && s@ == t,
            None => r is None,
        },
{
    serde_json::to_string(&to_serde_json(v)).ok()
}

/// What is left of an error's serialized text to show: nothing when it is
/// missing, blank, `null`, `{}` or `[]`, else the text as it stands.
pub open spec fn shown_serialized(s: Option<Seq<char>>) -> Option<Seq<char>> {
    match s {
        Some(t) => {
            let u = trim(t);
            if u == "null"@ || u == "{}"@ || u == "[]"@ || u.len() == 0 {
                None
            } else {
                Some(t)
            }
        },
        None => None,
    }
}

/// The trimmed text when it is not blank.
pub open spec fn nonblank(t: Seq<char>) -> Option<Seq<char>> {
    if trim(t).len() == 0 {
        None
    } else {
        Some(trim(t))
    }
}

/// The message an error value carries: nothing for `null`; a string trimmed
/// (nothing when blank); for an object, its `data.message`, else its `name`
/// (each trimmed, when not blank); otherwise the value's serialized text, unless
/// that says nothing.
pub open spec fn error_message(raw: Json) -> Option<Seq<char>> {
    match raw {
        Json::Null => None,
        Json::String(s) => nonblank(s@),
        Json::Object(es) => {
            let data_msg = text_member(as_members(member(es@, "data"@)), "message"@);
            let name = as_text(member(es@, "name"@));
            if data_msg is Some && nonblank(data_msg->0) is Some {
                nonblank(data_msg->0)
            } else if name is Some && nonblank(name->0) is Some {
                nonblank(name->0)
            } else {
                shown_serialized(json_serialized(raw))
            }
        },
        _ => shown_serialized(json_serialized(raw)),
    }
}

/// The trimmed text when it is not blank (see `nonblank`).
fn nonblank_of(t: &str) -> (r: Option<String>)
    ensures
        match nonblank(t@) {
            Some(u) => r matches Some(s) && s@ == u,
            None => r is None,
        },
{
    let u = trim_str(t);
    if u.len() == 0 {
        None
    } else {
        Some(string_of(&u))
    }
}

/// What is shown of an error's serialized text (see `shown_serialized`).
pub fn shown_serialized_of(s: Option<String>) -> (r: Option<String>)
    ensures
        match shown_serialized(match s {
            Some(t) => Some(t@),
            None => None,
        }) {
            Some(u) => r matches Some(x) && x@ == u,
            None => r is None,
        },
{
    match s {
        Some(t) => {
            let u = string_of(&trim_str(t.as_str()));
            let blank = u.as_str().is_empty();
            proof {
                reveal_strlit("null");
                reveal_strlit("{}");
                reveal_strlit("[]");
            }
            if str_eq(u.as_str(), "null") || str_eq(u.as_str(), "{}") || str_eq(u.as_str(), "[]") || blank {
                None
            } else {
                Some(t)
            }
        },
        None => None,
    }
}

/// The message an error value carries (see `error_message`).
pub fn unwrap_error_message(raw: &Json) -> (r: Option<String>)
    ensures
        match error_message(*raw) {
            Some(u) => r matches Some(x) && x@ == u,
            None => r is None,
        },
{
    match raw {
        Json::Null => {
            return None;
        },
        Json::String(s) => {
            return nonblank_of(s.as_str());
        },
        Json::Object(es) => {
            let data = members_of(member_of(es, "data"));
            if let Some(msg) = text_member_of(data, "message") {
                let m = nonblank_of(msg.as_str());
                if m.is_some() {
                    return m;
                }
            }
            if let Some(name) = text_of(member_of(es, "name")) {
                let m = nonblank_of(name.as_str());
                if m.is_some() {
                    return m;
                }
            }
        },
        _ => {},
    }
    shown_serialized_of(serialized(raw))
}

/// Whether an error value is the one a cancelled message carries: an object
/// whose `name` is `MessageAbortedError`.
pub fn is_message_aborted_error(raw: &Json) -> (r: bool)
    ensures
        r == (as_text(lookup(as_members(Some(*raw)), "name"@)) == Some("MessageAbortedError"@)),
{
    match text_member_of(members_of(Some(raw)), "name") {
        Some(n) => str_eq(n.as_str(), "MessageAbortedError"),
        None => false,
    }
}

/// The provider of a message: its `providerID`, else its model's `providerID`.
pub fn extract_provider(extra: &Vec<(String, Json)>) -> (r: Option<String>)
    ensures
        match (match as_text(member(extra@, "providerID"@)) {
            Some(t) => Some(t),
            None => text_member(as_members(member(extra@, "model"@)), "providerID"@),
        }) {
            Some(t) => r matches Some(s) && s@ == t,
            None => r is None,
        },
{
    if let Some(id) = text_of(member_of(extra, "providerID")) {
        return Some(id);
    }
    text_member_of(members_of(member_of(extra, "model")), "providerID")
}

/// The agent of a message: its `agent` text.
pub fn extract_agent(extra: &Vec<(String, Json)>) -> (r: Option<String>)
    ensures
        match as_text(member(extra@, "agent"@)) {
            Some(t) => r matches Some(s) && s@ == t,
            None => r is None,
        },
{
    text_of(member_of(extra, "agent"))
}

/// The error an assistant message ended with (see `error_message`).
pub fn extract_assistant_error(extra: &Vec<(String, Json)>) -> (r: Option<String>)
    ensures
        match member(extra@, "error"@) {
            Some(raw) => match error_message(raw) {
                Some(u) => r matches Some(x) && x@ == u,
                None => r is None,
            },
            None => r is None,
        },
{
    match member_of(extra, "error") {
        Some(raw) => unwrap_error_message(raw),
        None => None,
    }
}

/// The model a message names: its `modelID`, else its model's `modelID`, else
/// its model's `id`.
pub fn extract_model_display(extra: &Vec<(String, Json)>) -> (r: Option<String>)
    ensures
        match (match as_text(member(extra@, "modelID"@)) {
            Some(t) => Some(t),
            None => match text_member(as_members(member(extra@, "model"@)), "modelID"@) {
                Some(t) => Some(t),
                None => text_member(as_members(member(extra@, "model"@)), "id"@),
            },
        }) {
            Some(t) => r matches Some(s) && s@ == t,
            None => r is None,
        },
{
    if let Some(id) = text_of(member_of(extra, "modelID")) {
        return Some(id);
    }
    let model = members_of(member_of(extra, "model"));
    if let Some(id) = text_member_of(model, "modelID") {
        return Some(id);
    }
    text_member_of(model, "id")
}

} // verus!
