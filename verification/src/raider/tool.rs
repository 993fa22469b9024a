//! How a tool call of the agent is shown: its one-line title and the fields the
//! transcript renders.
use vstd::prelude::*;
use vstd::string::*;
use crate::text::{chars_of, decimal, slice_chars, str_eq, string_of, to_uppercase_char, u64_to_string, uppercase_of};
use crate::raider::json::{
    as_items, as_members, as_text, as_unsigned, lookup, lookup_in, members_view, text_member,
    text_member_of, items_of, unsigned_of, Json,
};

verus! {

/// What `Path::strip_prefix(base)` gives for `path`, displayed: the rest of the
/// path after the whole components of `base`, or `None` when `base` is not a
/// prefix of it.
pub uninterp spec fn relative_path_of(path: Seq<char>, base: Seq<char>) -> Option<Seq<char>>;

/// `Path::new(path).strip_prefix(base)`, displayed as text; named by
/// `relative_path_of`.
#[verifier::external_body]
fn strip_path_prefix(path: &str, base: &str) -> (r: Option<String>)
    ensures
        match relative_path_of(path@, base@) {
            Some(t) => r matches Some(s) && s@ == t,
            None => r is None,
        },
{
    std::path::Path::new(path).strip_prefix(base).ok().map(|rel| rel.display().to_string())
}

/// A path as the transcript shows it: empty stays empty; with no working
/// directory, or for a relative path, the path itself; an absolute path under
/// the working directory is shown relative to it (`.` for the directory itself);
/// any other path as it is. Paths are Unix paths: absolute when they start with `/`.
pub open spec fn shown_path(p: Seq<char>, cwd: Option<Seq<char>>) -> Seq<char> {
    if p.len() == 0 {
        Seq::empty()
    } else {
        match cwd {
            None => p,
            Some(c) => if p[0] != '/' {
                p
            } else {
                relative_or(p, relative_path_of(p, c))
            },
        }
    }
}

/// The path relative to the working directory when there is one (`.` when it is
/// empty), else the path itself.
pub open spec fn relative_or(p: Seq<char>, rel: Option<Seq<char>>) -> Seq<char> {
    match rel {
        Some(r) => if r.len() == 0 {
            "."@
        } else {
            r
        },
        None => p,
    }
}

/// The path relative to the working directory when there is one (see
/// `relative_or`).
pub fn relative_or_input(input: &str, rel: Option<String>) -> (r: String)
    ensures
        r@ == relative_or(input@, match rel {
            Some(s) => Some(s@),
            None => None,
        }),
{
    match rel {
        Some(s) => if s.as_str().is_empty() {
            String::from_str(".")
        } else {
            s
        },
        None => String::from_str(input),
    }
}

/// A path as the transcript shows it, given the working directory when it is
/// known (see `shown_path`).
pub fn normalize_workspace_path(input: &str, cwd: Option<&str>) -> (r: String)
    ensures
        r@ == shown_path(input@, match cwd {
            Some(c) => Some(c@),
            None => None,
        }),
{
    if input.is_empty() {
        return String::new();
    }
    match cwd {
        None => String::from_str(input),
        Some(c) => {
            let v = chars_of(input);
            if v[0] != '/' {
                String::from_str(input)
            } else {
                relative_or_input(input, strip_path_prefix(input, c))
            }
        },
    }
}

/// The text with its first character in upper case.
pub open spec fn capitalized(s: Seq<char>) -> Seq<char> {
    if s.len() == 0 {
        Seq::empty()
    } else {
        uppercase_of(s[0]) + s.drop_first()
    }
}

/// The text with its first character in upper case (see `capitalized`).
pub fn capitalize_first(s: &str) -> (r: String)
    ensures
        r@ == capitalized(s@),
{
    let v = chars_of(s);
    if v.len() == 0 {
        return String::new();
    }
    let mut out = to_uppercase_char(v[0]);
    let rest = string_of(&slice_chars(&v, 1, v.len()));
    out.append(rest.as_str());
    proof {
        assert(rest@ =~= s@.drop_first());
    }
    out
}

/// `key=value` for a member whose value is a string, a number or a boolean.
pub open spec fn primitive_text(key: Seq<char>, v: Json) -> Option<Seq<char>> {
    match v {
        Json::String(s) => Some(key + "="@ + s@),
        Json::Number(n) => Some(key + "="@ + n.text@),
        Json::Bool(b) => Some(key + "="@ + if b {
            "true"@
        } else {
            "false"@
        }),
        _ => None,
    }
}

/// The `key=value` texts of the members of `es` whose names are not in `omit`,
/// in order.
pub open spec fn primitive_parts(es: Seq<(String, Json)>, omit: Seq<Seq<char>>) -> Seq<Seq<char>>
    decreases es.len(),
{
    if es.len() == 0 {
        Seq::empty()
    } else {
        let rest = primitive_parts(es.drop_last(), omit);
        let k = es.last().0@;
        if omit.contains(k) {
            rest
        } else {
            match primitive_text(k, es.last().1) {
                Some(t) => rest.push(t),
                None => rest,
            }
        }
    }
}

/// The texts joined with `sep` between each two.
pub open spec fn joined(parts: Seq<Seq<char>>, sep: Seq<char>) -> Seq<char>
    decreases parts.len(),
{
    if parts.len() == 0 {
        Seq::empty()
    } else if parts.len() == 1 {
        parts[0]
    } else {
        joined(parts.drop_last(), sep) + sep + parts.last()
    }
}

/// The primitive members of a tool's input as `[k=v, k=v]`, or nothing when
/// there are none.
pub open spec fn primitives_text(input: Option<Seq<(String, Json)>>, omit: Seq<Seq<char>>) -> Seq<char> {
    match input {
        None => Seq::empty(),
        Some(es) => {
            let parts = primitive_parts(es, omit);
            if parts.len() == 0 {
                Seq::empty()
            } else {
                "["@ + joined(parts, ", "@) + "]"@
            }
        },
    }
}

/// The names to leave out, as texts.
pub open spec fn omit_view(omit: Seq<&str>) -> Seq<Seq<char>> {
    omit.map_values(|s: &str| s@)
}

fn omitted(omit: &[&str], key: &str) -> (r: bool)
    ensures
        r == omit_view(omit@).contains(key@),
{
    let mut i: usize = 0;
    while i < omit.len()
        invariant
            i <= omit@.len(),
            forall|j: int| 0 <= j < i ==> omit@[j]@ != key@,
        decreases omit@.len() - i,
    {
        if str_eq(omit[i], key) {
            proof {
                assert(omit_view(omit@)[i as int] == key@);
            }
            return true;
        }
        i = i + 1;
    }
    proof {
        if omit_view(omit@).contains(key@) {
            let j = choose|j: int| 0 <= j < omit_view(omit@).len() && omit_view(omit@)[j] == key@;
            assert(omit@[j]@ == key@);
        }
    }
    false
}

fn primitive_of(key: &str, v: &Json) -> (r: Option<String>)
    ensures
        match primitive_text(key@, *v) {
            Some(t) => r matches Some(s) && s@ == t,
            None => r is None,
        },
{
    let text = match v {
        Json::String(s) => s.as_str(),
        Json::Number(n) => n.text.as_str(),
        Json::Bool(b) => if *b {
            "true"
        } else {
            "false"
        },
        _ => {
            return None;
        },
    };
    let mut out = String::from_str(key);
    out.append("=");
    out.append(text);
    Some(out)
}

/// The primitive members of a tool's input as `[k=v, k=v]` (see
/// `primitives_text`), leaving out the names in `omit`.
pub fn format_input_primitives(input: Option<&Vec<(String, Json)>>, omit: &[&str]) -> (r: String)
    ensures
        r@ == primitives_text(members_view(input), omit_view(omit@)),
{
    let es = match input {
        None => {
            return String::new();
        },
        Some(es) => es,
    };
    let ghost om = omit_view(omit@);
    let mut body = String::new();
    let mut count: usize = 0;
    let mut k: usize = 0;
    while k < es.len()
        invariant
            k <= es@.len(),
            om == omit_view(omit@),
            count == primitive_parts(es@.subrange(0, k as int), om).len(),
            count <= k,
            body@ == joined(primitive_parts(es@.subrange(0, k as int), om), ", "@),
        decreases es@.len() - k,
    {
        proof {
            assert(es@.subrange(0, k + 1).drop_last() =~= es@.subrange(0, k as int));
        }
        let ghost before = primitive_parts(es@.subrange(0, k as int), om);
        let key = es[k].0.as_str();
        if !omitted(omit, key) {
            if let Some(t) = primitive_of(key, &es[k].1) {
                proof {
                    assert(before.push(t@).drop_last() =~= before);
                    assert(before.push(t@).last() == t@);
                }
                if count > 0 {
                    body.append(", ");
                } else {
                    assert(body@ =~= Seq::<char>::empty());
                    assert(Seq::<char>::empty() + t@ =~= t@);
                }
                body.append(t.as_str());
                count = count + 1;
            }
        }
        k = k + 1;
    }
    proof {
        assert(es@.subrange(0, es@.len() as int) =~= es@);
    }
    if count == 0 {
        String::new()
    } else {
        let mut out = String::from_str("[");
        out.append(body.as_str());
        out.append("]");
        out
    }
}


/// The text, or nothing when it is missing.
pub open spec fn or_empty(t: Option<Seq<char>>) -> Seq<char> {
    match t {
        Some(x) => x,
        None => Seq::empty(),
    }
}

/// ` (n match)` or ` (n matches)` after a count, nothing without one.
pub open spec fn count_suffix(n: Option<u64>) -> Seq<char> {
    match n {
        Some(n) => " ("@ + decimal(n as nat) + if n == 1 {
            " match)"@
        } else {
            " matches)"@
        },
        None => Seq::empty(),
    }
}

/// ` in <path>` for a search path, nothing without one.
pub open spec fn in_suffix(p: Option<Seq<char>>, cwd: Option<Seq<char>>) -> Seq<char> {
    match p {
        Some(p) => " in "@ + shown_path(p, cwd),
        None => Seq::empty(),
    }
}

/// The head followed by a space and the extras, or the head alone.
pub open spec fn with_extras(head: Seq<char>, extras: Seq<char>) -> Seq<char> {
    if extras.len() == 0 {
        head
    } else {
        head + " "@ + extras
    }
}

/// The one-line title of a tool call, from the tool's name, the title the server
/// gave, the call's input and metadata, and the working directory paths are
/// shown relative to.
pub open spec fn tool_title(
    tool: Seq<char>,
    server_title: Seq<char>,
    input: Option<Seq<(String, Json)>>,
    metadata: Option<Seq<(String, Json)>>,
    cwd: Option<Seq<char>>,
) -> Seq<char> {
    if tool == "bash"@ {
        if server_title.len() > 0 {
            server_title
        } else {
            match text_member(input, "description"@) {
                Some(d) => d,
                None => "Shell"@,
            }
        }
    } else if tool == "glob"@ {
        "Glob \""@ + or_empty(text_member(input, "pattern"@)) + "\""@ + in_suffix(text_member(input, "path"@), cwd)
            + count_suffix(as_unsigned(lookup(metadata, "count"@)))
    } else if tool == "read"@ {
        with_extras(
            "Read "@ + shown_path(or_empty(text_member(input, "filePath"@)), cwd),
            primitives_text(input, seq!["filePath"@]),
        )
    } else if tool == "grep"@ {
        "Grep \""@ + or_empty(text_member(input, "pattern"@)) + "\""@ + in_suffix(text_member(input, "path"@), cwd)
            + count_suffix(as_unsigned(lookup(metadata, "matches"@)))
    } else if tool == "webfetch"@ {
        "WebFetch "@ + or_empty(text_member(input, "url"@))
    } else if tool == "websearch"@ {
        let provider = match text_member(metadata, "provider"@) {
            Some(p) => p,
            None => "WebSearch"@,
        };
        provider + " \""@ + or_empty(text_member(input, "query"@)) + "\""@ + match as_unsigned(lookup(metadata, "numResults"@)) {
            Some(n) => " ("@ + decimal(n as nat) + " results)"@,
            None => Seq::empty(),
        }
    } else if tool == "write"@ {
        "Write "@ + shown_path(or_empty(text_member(input, "filePath"@)), cwd)
    } else if tool == "edit"@ {
        with_extras(
            "Edit "@ + shown_path(or_empty(text_member(input, "filePath"@)), cwd),
            primitives_text(input, seq!["filePath"@]),
        )
    } else if tool == "todowrite"@ {
        "Todos"@
    } else if tool == "skill"@ {
        "Skill \""@ + or_empty(text_member(input, "name"@)) + "\""@
    } else if tool == "task"@ {
        let sub = capitalized(match text_member(input, "subagent_type"@) {
            Some(s) => s,
            None => "General"@,
        });
        let d = or_empty(text_member(input, "description"@));
        if d.len() == 0 {
            sub + " Task"@
        } else {
            sub + " Task \u{2014} "@ + d
        }
    } else if tool == "question"@ {
        let n = match as_items(lookup(input, "questions"@)) {
            Some(xs) => xs.len(),
            None => 0,
        };
        if n == 0 {
            "Question"@
        } else {
            "Asked "@ + decimal(n) + if n == 1 {
                " question"@
            } else {
                " questions"@
            }
        }
    } else {
        with_extras(tool, primitives_text(input, Seq::empty()))
    }
}

fn or_empty_of(t: Option<String>) -> (r: String)
    ensures
        r@ == or_empty(match t {
            Some(s) => Some(s@),
            None => None,
        }),
{
    match t {
        Some(s) => s,
        None => String::new(),
    }
}

fn count_suffix_of(n: Option<u64>) -> (r: String)
    ensures
        r@ == count_suffix(n),
{
    match n {
        Some(n) => {
            let mut out = String::from_str(" (");
            out.append(u64_to_string(n).as_str());
            out.append(if n == 1 {
                " match)"
            } else {
                " matches)"
            });
            out
        },
        None => String::new(),
    }
}

fn in_suffix_of(p: Option<String>, cwd: Option<&str>) -> (r: String)
    ensures
        r@ == in_suffix(match p {
            Some(s) => Some(s@),
            None => None,
        }, match cwd {
            Some(c) => Some(c@),
            None => None,
        }),
{
    match p {
        Some(p) => {
            let mut out = String::from_str(" in ");
            out.append(normalize_workspace_path(p.as_str(), cwd).as_str());
            out
        },
        None => String::new(),
    }
}

fn with_extras_of(head: String, extras: String) -> (r: String)
    ensures
        r@ == with_extras(head@, extras@),
{
    if extras.as_str().is_empty() {
        head
    } else {
        let mut out = head;
        out.append(" ");
        out.append(extras.as_str());
        out
    }
}

/// `Glob "<pattern>"` or `Grep "<pattern>"`, the search path and the count.
fn search_title(
    head: &str,
    input: Option<&Vec<(String, Json)>>,
    count: Option<u64>,
    cwd: Option<&str>,
) -> (r: String)
    ensures
        r@ == head@ + or_empty(text_member(members_view(input), "pattern"@)) + "\""@ + in_suffix(
            text_member(members_view(input), "path"@),
            match cwd {
                Some(c) => Some(c@),
                None => None,
            },
        ) + count_suffix(count),
{
    let mut out = String::from_str(head);
    out.append(or_empty_of(text_member_of(input, "pattern")).as_str());
    out.append("\"");
    out.append(in_suffix_of(text_member_of(input, "path"), cwd).as_str());
    out.append(count_suffix_of(count).as_str());
    out
}

/// `<head><path>` followed by the input's other primitive members.
fn path_title(head: &str, input: Option<&Vec<(String, Json)>>, cwd: Option<&str>, extras: bool) -> (r: String)
    ensures
        extras ==> r@ == with_extras(
            head@ + shown_path(or_empty(text_member(members_view(input), "filePath"@)), match cwd {
                Some(c) => Some(c@),
                None => None,
            }),
            primitives_text(members_view(input), seq!["filePath"@]),
        ),
        !extras ==> r@ == head@ + shown_path(or_empty(text_member(members_view(input), "filePath"@)), match cwd {
            Some(c) => Some(c@),
            None => None,
        }),
{
    let file_path = or_empty_of(text_member_of(input, "filePath"));
    let mut out = String::from_str(head);
    out.append(normalize_workspace_path(file_path.as_str(), cwd).as_str());
    if extras {
        let omit: [&str; 1] = ["filePath"];
        let e = format_input_primitives(input, &omit);
        proof {
            assert(omit_view(omit@) =~= seq!["filePath"@]);
        }
        with_extras_of(out, e)
    } else {
        out
    }
}

fn task_title(input: Option<&Vec<(String, Json)>>) -> (r: String)
    ensures
        r@ == ({
            let sub = capitalized(match text_member(members_view(input), "subagent_type"@) {
                Some(s) => s,
                None => "General"@,
            });
            let d = or_empty(text_member(members_view(input), "description"@));
            if d.len() == 0 {
                sub + " Task"@
            } else {
                sub + " Task \u{2014} "@ + d
            }
        }),
{
    let description = or_empty_of(text_member_of(input, "description"));
    let subagent = match text_member_of(input, "subagent_type") {
        Some(s) => s,
        None => String::from_str("General"),
    };
    let mut out = capitalize_first(subagent.as_str());
    if description.as_str().is_empty() {
        out.append(" Task");
    } else {
        out.append(" Task \u{2014} ");
        out.append(description.as_str());
    }
    out
}

fn question_title(input: Option<&Vec<(String, Json)>>) -> (r: String)
    ensures
        r@ == ({
            let n = match as_items(lookup(members_view(input), "questions"@)) {
                Some(xs) => xs.len(),
                None => 0,
            };
            if n == 0 {
                "Question"@
            } else {
                "Asked "@ + decimal(n) + if n == 1 {
                    " question"@
                } else {
                    " questions"@
                }
            }
        }),
{
    let n: usize = match items_of(lookup_in(input, "questions")) {
        Some(xs) => xs.len(),
        None => 0,
    };
    if n == 0 {
        String::from_str("Question")
    } else {
        let mut out = String::from_str("Asked ");
        out.append(u64_to_string(n as u64).as_str());
        out.append(if n == 1 {
            " question"
        } else {
            " questions"
        });
        out
    }
}

fn websearch_title(input: Option<&Vec<(String, Json)>>, metadata: Option<&Vec<(String, Json)>>) -> (r: String)
    ensures
        r@ == ({
            let provider = match text_member(members_view(metadata), "provider"@) {
                Some(p) => p,
                None => "WebSearch"@,
            };
            provider + " \""@ + or_empty(text_member(members_view(input), "query"@)) + "\""@ + match as_unsigned(lookup(members_view(metadata), "numResults"@)) {
                Some(n) => " ("@ + decimal(n as nat) + " results)"@,
                None => Seq::empty(),
            }
        }),
{
    let mut out = match text_member_of(metadata, "provider") {
        Some(p) => p,
        None => String::from_str("WebSearch"),
    };
    out.append(" \"");
    out.append(or_empty_of(text_member_of(input, "query")).as_str());
    out.append("\"");
    if let Some(n) = unsigned_of(lookup_in(metadata, "numResults")) {
        out.append(" (");
        out.append(u64_to_string(n).as_str());
        out.append(" results)");
    }
    out
}

/// The one-line title of a tool call (see `tool_title`); `cwd` is the working
/// directory, when it is known.
pub fn synthesize_tool_title(
    tool_name: &str,
    server_title: &str,
    input: Option<&Vec<(String, Json)>>,
    metadata: Option<&Vec<(String, Json)>>,
    cwd: Option<&str>,
) -> (r: String)
    ensures
        r@ == tool_title(tool_name@, server_title@, members_view(input), members_view(metadata), match cwd {
            Some(c) => Some(c@),
            None => None,
        }),
{
    if str_eq(tool_name, "bash") {
        if !server_title.is_empty() {
            String::from_str(server_title)
        } else {
            match text_member_of(input, "description") {
                Some(d) => d,
                None => String::from_str("Shell"),
            }
        }
    } else if str_eq(tool_name, "glob") {
        search_title("Glob \"", input, unsigned_of(lookup_in(metadata, "count")), cwd)
    } else if str_eq(tool_name, "read") {
        path_title("Read ", input, cwd, true)
    } else if str_eq(tool_name, "grep") {
        search_title("Grep \"", input, unsigned_of(lookup_in(metadata, "matches")), cwd)
    } else if str_eq(tool_name, "webfetch") {
        let mut out = String::from_str("WebFetch ");
        out.append(or_empty_of(text_member_of(input, "url")).as_str());
        out
    } else if str_eq(tool_name, "websearch") {
        websearch_title(input, metadata)
    } else if str_eq(tool_name, "write") {
        path_title("Write ", input, cwd, false)
    } else if str_eq(tool_name, "edit") {
        path_title("Edit ", input, cwd, true)
    } else if str_eq(tool_name, "todowrite") {
        String::from_str("Todos")
    } else if str_eq(tool_name, "skill") {
        let mut out = String::from_str("Skill \"");
        out.append(or_empty_of(text_member_of(input, "name")).as_str());
        out.append("\"");
        out
    } else if str_eq(tool_name, "task") {
        task_title(input)
    } else if str_eq(tool_name, "question") {
        question_title(input)
    } else {
        let omit: [&str; 0] = [];
        let e = format_input_primitives(input, &omit);
        proof {
            assert(omit_view(omit@) =~= Seq::<Seq<char>>::empty());
        }
        with_extras_of(String::from_str(tool_name), e)
    }
}

} // verus!
