//! How a permission request of the agent is shown: an icon, a title and lines
//! of detail, chosen by the kind of permission asked.
use vstd::prelude::*;
use vstd::string::*;
use crate::text::{chars_of, push_char, slice_chars, str_eq, string_of, to_uppercase_char, uppercase_of};
use crate::raider::json::{as_text, member, member_of, text_of, Json};
use crate::raider::tool::or_empty;

verus! {

/// A permission the agent asks for.
#[derive(Debug)]
pub struct PermissionRequest {
    pub id: String,
    pub session_id: String,
    pub permission: String,
    pub patterns: Vec<String>,
    pub metadata: Vec<(String, Json)>,
    pub always: Vec<String>,
}

/// How a permission request is shown.
#[derive(Debug, PartialEq, Eq)]
pub struct PermissionView {
    pub icon: String,
    pub title: String,
    pub detail: Vec<String>,
}

/// A permission request together with how it is shown.
#[derive(Debug)]
pub struct PermissionPrompt {
    pub id: String,
    pub session_id: String,
    pub permission: String,
    pub patterns: Vec<String>,
    pub metadata: Vec<(String, Json)>,
    pub always: Vec<String>,
    pub view: PermissionView,
}

/// The views of texts.
pub open spec fn lines_view(v: Seq<String>) -> Seq<Seq<char>> {
    v.map_values(|t: String| t@)
}

/// A shown permission as texts: icon, title, detail lines.
pub type ShownPermission = (Seq<char>, Seq<char>, Seq<Seq<char>>);

/// The view of a shown permission.
pub open spec fn shown_view(v: PermissionView) -> ShownPermission {
    (v.icon@, v.title@, lines_view(v.detail@))
}

/// The text member `key` of the request's metadata.
pub open spec fn meta_text(meta: Seq<(String, Json)>, key: Seq<char>) -> Option<Seq<char>> {
    as_text(member(meta, key))
}

/// The first text, else the second.
pub open spec fn either(a: Option<Seq<char>>, b: Option<Seq<char>>) -> Option<Seq<char>> {
    match a {
        Some(x) => Some(x),
        None => b,
    }
}

/// The request's first pattern.
pub open spec fn first_pattern(patterns: Seq<String>) -> Option<Seq<char>> {
    if patterns.len() > 0 {
        Some(patterns[0]@)
    } else {
        None
    }
}

/// The index of the last `/` in `s`, or -1.
pub open spec fn last_slash_before(s: Seq<char>, end: int) -> int
    decreases end,
{
    if end <= 0 {
        -1
    } else if s[end - 1] == '/' {
        end - 1
    } else {
        last_slash_before(s, end - 1)
    }
}

/// The directory part of a path: `/` for a path right under the root, `.` for
/// a path with no `/`.
pub open spec fn parent_dir_of(p: Seq<char>) -> Seq<char> {
    let i = last_slash_before(p, p.len() as int);
    if i == 0 {
        "/"@
    } else if i > 0 {
        p.subrange(0, i)
    } else {
        "."@
    }
}

/// Whether a character separates words in a title.
pub open spec fn is_word_sep(c: char) -> bool {
    c == '-' || c == '_' || c == ' '
}

/// The text with the first letter of each word in upper case (words are
/// separated by `-`, `_` or a space).
pub open spec fn titled(s: Seq<char>) -> Seq<char>
    decreases s.len(),
{
    if s.len() == 0 {
        Seq::empty()
    } else {
        let i = s.len() - 1;
        titled(s.drop_last()) + if !is_word_sep(s[i]) && (i == 0 || is_word_sep(s[i - 1])) {
            uppercase_of(s[i])
        } else {
            seq![s[i]]
        }
    }
}

/// The path a request is about, for the kinds that show one: the file of an
/// edit; the file of a read (its `filePath`, else `filepath`, else its first
/// pattern); the directory of a listing; for an external directory its
/// `parentDir`, else its `filepath`, else its first pattern (its directory when
/// the pattern has a `*`). Empty when none is given.
pub open spec fn permission_path(permission: Seq<char>, patterns: Seq<String>, meta: Seq<(String, Json)>) -> Option<Seq<char>> {
    if permission == "edit"@ {
        Some(or_empty(meta_text(meta, "filepath"@)))
    } else if permission == "read"@ {
        Some(or_empty(either(either(meta_text(meta, "filePath"@), meta_text(meta, "filepath"@)), first_pattern(patterns))))
    } else if permission == "list"@ {
        Some(or_empty(meta_text(meta, "path"@)))
    } else if permission == "external_directory"@ {
        let derived = match first_pattern(patterns) {
            Some(p) => Some(if p.contains('*') {
                parent_dir_of(p)
            } else {
                p
            }),
            None => None,
        };
        Some(or_empty(either(either(meta_text(meta, "parentDir"@), meta_text(meta, "filepath"@)), derived)))
    } else {
        None
    }
}

/// One line of detail when the value is not empty, else none.
pub open spec fn detail_if(value: Seq<char>, line: Seq<char>) -> Seq<Seq<char>> {
    if value.len() == 0 {
        Seq::empty()
    } else {
        seq![line]
    }
}

/// The lines listing the patterns: `Patterns`, then `- <pattern>` for each.
pub open spec fn pattern_lines(patterns: Seq<String>) -> Seq<Seq<char>> {
    if patterns.len() == 0 {
        Seq::empty()
    } else {
        seq!["Patterns"@] + patterns.map_values(|p: String| "- "@ + p@)
    }
}

/// How a request is shown, given the request's path as the transcript shows it
/// (`shown`, for the kinds that have a path; see `permission_path`).
pub open spec fn permission_shown(
    permission: Seq<char>,
    patterns: Seq<String>,
    meta: Seq<(String, Json)>,
    shown: Seq<char>,
) -> ShownPermission {
    let arrow = "\u{2192}"@;
    let star = "\u{2731}"@;
    let path = or_empty(permission_path(permission, patterns, meta));
    let pattern = or_empty(either(first_pattern(patterns), meta_text(meta, "pattern"@)));
    if permission == "edit"@ {
        (arrow, "Edit "@ + shown, Seq::empty())
    } else if permission == "read"@ {
        (arrow, "Read "@ + shown, detail_if(path, "Path: "@ + shown))
    } else if permission == "glob"@ {
        (star, "Glob \""@ + pattern + "\""@, detail_if(pattern, "Pattern: "@ + pattern))
    } else if permission == "grep"@ {
        (star, "Grep \""@ + pattern + "\""@, detail_if(pattern, "Pattern: "@ + pattern))
    } else if permission == "list"@ {
        (arrow, "List "@ + shown, detail_if(path, "Path: "@ + shown))
    } else if permission == "bash"@ {
        let title = match meta_text(meta, "description"@) {
            Some(d) => if d.len() > 0 {
                d
            } else {
                "Shell command"@
            },
            None => "Shell command"@,
        };
        let command = or_empty(meta_text(meta, "command"@));
        ("#"@, title, detail_if(command, "$ "@ + command))
    } else if permission == "task"@ {
        let ty = match meta_text(meta, "subagent_type"@) {
            Some(t) => t,
            None => "Unknown"@,
        };
        let desc = or_empty(meta_text(meta, "description"@));
        ("#"@, titled(ty) + " Task"@, detail_if(desc, "\u{25c9} "@ + desc))
    } else if permission == "webfetch"@ {
        let url = or_empty(meta_text(meta, "url"@));
        ("%"@, "WebFetch "@ + url, detail_if(url, "URL: "@ + url))
    } else if permission == "websearch"@ {
        let query = or_empty(meta_text(meta, "query"@));
        let provider = match meta_text(meta, "provider"@) {
            Some(p) => p,
            None => "WebSearch"@,
        };
        ("\u{25c8}"@, provider + " \""@ + query + "\""@, detail_if(query, "Query: "@ + query))
    } else if permission == "external_directory"@ {
        ("\u{2190}"@, "Access external directory "@ + shown, pattern_lines(patterns))
    } else if permission == "doom_loop"@ {
        (
            "\u{27f3}"@,
            "Continue after repeated failures"@,
            seq!["This keeps the session running despite repeated failures."@],
        )
    } else {
        ("\u{2699}"@, "Call tool "@ + permission, seq!["Tool: "@ + permission])
    }
}

fn meta_text_of(meta: &Vec<(String, Json)>, key: &str) -> (r: Option<String>)
    ensures
        match meta_text(meta@, key@) {
            Some(t) => r matches Some(s) && s@ == t,
            None => r is None,
        },
{
    text_of(member_of(meta, key))
}

fn either_of(a: Option<String>, b: Option<String>) -> (r: Option<String>)
    ensures
        match either(
            match a {
                Some(s) => Some(s@),
                None => None,
            },
            match b {
                Some(s) => Some(s@),
                None => None,
            },
        ) {
            Some(t) => r matches Some(s) && s@ == t,
            None => r is None,
        },
{
    match a {
        Some(x) => Some(x),
        None => b,
    }
}

fn first_pattern_of(patterns: &Vec<String>) -> (r: Option<String>)
    ensures
        match first_pattern(patterns@) {
            Some(t) => r matches Some(s) && s@ == t,
            None => r is None,
        },
{
    if patterns.len() > 0 {
        Some(patterns[0].clone())
    } else {
        None
    }
}

fn text_or_empty(t: Option<String>) -> (r: String)
    ensures
        r@ == or_empty(match t {
            Some(s) => Some(s@),
            None => None,
        }),
{
    match t {
        Some(s) => s,
        None => String::new(),
    }
}

/// The directory part of a path (see `parent_dir_of`).
pub fn parent_dir(p: &str) -> (r: String)
    ensures
        r@ == parent_dir_of(p@),
{
    let v = chars_of(p);
    let mut end: usize = v.len();
    while end > 0 && v[end - 1] != '/'
        invariant
            end <= v@.len(),
            v@ == p@,
            last_slash_before(p@, end as int) == last_slash_before(p@, p@.len() as int),
        decreases end,
    {
        end = end - 1;
    }
    if end == 0 {
        String::from_str(".")
    } else if end == 1 {
        String::from_str("/")
    } else {
        string_of(&slice_chars(&v, 0, end - 1))
    }
}

/// The text with each word capitalised (see `titled`).
pub fn titlecase(s: &str) -> (r: String)
    ensures
        r@ == titled(s@),
{
    let v = chars_of(s);
    let mut out = String::new();
    let mut up = true;
    let mut i: usize = 0;
    while i < v.len()
        invariant
            i <= v@.len(),
            v@ == s@,
            out@ == titled(s@.subrange(0, i as int)),
            up == (i == 0 || is_word_sep(s@[i - 1])),
        decreases v@.len() - i,
    {
        let c = v[i];
        proof {
            assert(s@.subrange(0, i + 1).drop_last() =~= s@.subrange(0, i as int));
        }
        if c == '-' || c == '_' || c == ' ' {
            push_char(&mut out, c);
            up = true;
        } else if up {
            let u = to_uppercase_char(c);
            out.append(u.as_str());
            up = false;
        } else {
            push_char(&mut out, c);
        }
        i = i + 1;
    }
    proof {
        assert(s@.subrange(0, v@.len() as int) =~= s@);
    }
    out
}

fn contains_star(p: &str) -> (r: bool)
    ensures
        r == p@.contains('*'),
{
    let v = chars_of(p);
    let mut i: usize = 0;
    while i < v.len()
        invariant
            i <= v@.len(),
            v@ == p@,
            forall|j: int| 0 <= j < i ==> p@[j] != '*',
        decreases v@.len() - i,
    {
        if v[i] == '*' {
            return true;
        }
        i = i + 1;
    }
    false
}

/// The path a request is about (see `permission_path`).
pub fn request_path(req: &PermissionRequest) -> (r: Option<String>)
    ensures
        match permission_path(req.permission@, req.patterns@, req.metadata@) {
            Some(t) => r matches Some(s) && s@ == t,
            None => r is None,
        },
{
    let meta = &req.metadata;
    let perm = req.permission.as_str();
    if str_eq(perm, "edit") {
        Some(text_or_empty(meta_text_of(meta, "filepath")))
    } else if str_eq(perm, "read") {
        let named = either_of(meta_text_of(meta, "filePath"), meta_text_of(meta, "filepath"));
        Some(text_or_empty(either_of(named, first_pattern_of(&req.patterns))))
    } else if str_eq(perm, "list") {
        Some(text_or_empty(meta_text_of(meta, "path")))
    } else if str_eq(perm, "external_directory") {
        let derived = match first_pattern_of(&req.patterns) {
            Some(p) => if contains_star(p.as_str()) {
                Some(parent_dir(p.as_str()))
            } else {
                Some(p)
            },
            None => None,
        };
        let named = either_of(meta_text_of(meta, "parentDir"), meta_text_of(meta, "filepath"));
        Some(text_or_empty(either_of(named, derived)))
    } else {
        None
    }
}

fn one_line_if(value: &str, head: &str, tail: &str) -> (r: Vec<String>)
    ensures
        lines_view(r@) == detail_if(value@, head@ + tail@),
{
    if value.is_empty() {
        let r: Vec<String> = Vec::new();
        proof {
            assert(lines_view(r@) =~= Seq::<Seq<char>>::empty());
        }
        r
    } else {
        let mut line = String::from_str(head);
        line.append(tail);
        let r = vec![line];
        proof {
            assert(lines_view(r@) =~= seq![head@ + tail@]);
        }
        r
    }
}

fn view_of(icon: &str, title: String, detail: Vec<String>) -> (r: PermissionView)
    ensures
        r.icon@ == icon@,
        r.title@ == title@,
        r.detail@ == detail@,
{
    PermissionView { icon: String::from_str(icon), title, detail }
}

fn concat2(a: &str, b: &str) -> (r: String)
    ensures
        r@ == a@ + b@,
{
    let mut out = String::from_str(a);
    out.append(b);
    out
}

fn concat3(a: &str, b: &str, c: &str) -> (r: String)
    ensures
        r@ == a@ + b@ + c@,
{
    let mut out = String::from_str(a);
    out.append(b);
    out.append(c);
    out
}

fn pattern_lines_of(patterns: &Vec<String>) -> (r: Vec<String>)
    ensures
        lines_view(r@) == pattern_lines(patterns@),
{
    let mut out: Vec<String> = Vec::new();
    if patterns.len() == 0 {
        proof {
            assert(lines_view(out@) =~= Seq::<Seq<char>>::empty());
        }
        return out;
    }
    out.push(String::from_str("Patterns"));
    let mut i: usize = 0;
    while i < patterns.len()
        invariant
            i <= patterns@.len(),
            lines_view(out@) == seq!["Patterns"@] + patterns@.subrange(0, i as int).map_values(|p: String| "- "@ + p@),
        decreases patterns@.len() - i,
    {
        let ghost before = out@;
        out.push(concat2("- ", patterns[i].as_str()));
        proof {
            assert(lines_view(out@) =~= lines_view(before).push("- "@ + patterns@[i as int]@));
            assert(patterns@.subrange(0, i + 1).map_values(|p: String| "- "@ + p@)
                =~= patterns@.subrange(0, i as int).map_values(|p: String| "- "@ + p@).push("- "@ + patterns@[i as int]@));
        }
        i = i + 1;
    }
    proof {
        assert(patterns@.subrange(0, patterns@.len() as int) =~= patterns@);
    }
    out
}

/// How a request is shown (see `permission_shown`), given its path as the
/// transcript shows it.
pub fn build_permission_view(req: &PermissionRequest, shown: &str) -> (r: PermissionView)
    ensures
        shown_view(r) == permission_shown(req.permission@, req.patterns@, req.metadata@, shown@),
{
    let meta = &req.metadata;
    let perm = req.permission.as_str();
    let path = text_or_empty(request_path(req));
    let pattern = text_or_empty(either_of(first_pattern_of(&req.patterns), meta_text_of(meta, "pattern")));
    if str_eq(perm, "edit") {
        let d: Vec<String> = Vec::new();
        proof {
            assert(lines_view(d@) =~= Seq::<Seq<char>>::empty());
        }
        view_of("\u{2192}", concat2("Edit ", shown), d)
    } else if str_eq(perm, "read") {
        view_of("\u{2192}", concat2("Read ", shown), one_line_if(path.as_str(), "Path: ", shown))
    } else if str_eq(perm, "glob") {
        view_of("\u{2731}", concat3("Glob \"", pattern.as_str(), "\""), one_line_if(pattern.as_str(), "Pattern: ", pattern.as_str()))
    } else if str_eq(perm, "grep") {
        view_of("\u{2731}", concat3("Grep \"", pattern.as_str(), "\""), one_line_if(pattern.as_str(), "Pattern: ", pattern.as_str()))
    } else if str_eq(perm, "list") {
        view_of("\u{2192}", concat2("List ", shown), one_line_if(path.as_str(), "Path: ", shown))
    } else if str_eq(perm, "bash") {
        let title = match meta_text_of(meta, "description") {
            Some(d) => if d.as_str().is_empty() {
                String::from_str("Shell command")
            } else {
                d
            },
            None => String::from_str("Shell command"),
        };
        let command = text_or_empty(meta_text_of(meta, "command"));
        view_of("#", title, one_line_if(command.as_str(), "$ ", command.as_str()))
    } else if str_eq(perm, "task") {
        let ty = match meta_text_of(meta, "subagent_type") {
            Some(t) => t,
            None => String::from_str("Unknown"),
        };
        let desc = text_or_empty(meta_text_of(meta, "description"));
        let mut title = titlecase(ty.as_str());
        title.append(" Task");
        view_of("#", title, one_line_if(desc.as_str(), "\u{25c9} ", desc.as_str()))
    } else if str_eq(perm, "webfetch") {
        let url = text_or_empty(meta_text_of(meta, "url"));
        view_of("%", concat2("WebFetch ", url.as_str()), one_line_if(url.as_str(), "URL: ", url.as_str()))
    } else if str_eq(perm, "websearch") {
        let query = text_or_empty(meta_text_of(meta, "query"));
        let provider = match meta_text_of(meta, "provider") {
            Some(p) => p,
            None => String::from_str("WebSearch"),
        };
        let mut title = concat3(provider.as_str(), " \"", query.as_str());
        title.append("\"");
        view_of("\u{25c8}", title, one_line_if(query.as_str(), "Query: ", query.as_str()))
    } else if str_eq(perm, "external_directory") {
        view_of("\u{2190}", concat2("Access external directory ", shown), pattern_lines_of(&req.patterns))
    } else if str_eq(perm, "doom_loop") {
        let d = vec![String::from_str("This keeps the session running despite repeated failures.")];
        proof {
            assert(lines_view(d@) =~= seq!["This keeps the session running despite repeated failures."@]);
        }
        view_of("\u{27f3}", String::from_str("Continue after repeated failures"), d)
    } else {
        let d = vec![concat2("Tool: ", perm)];
        proof {
            assert(lines_view(d@) =~= seq!["Tool: "@ + perm@]);
        }
        view_of("\u{2699}", concat2("Call tool ", perm), d)
    }
}


/// A permission request with how it is shown (see `permission_shown`), given
/// the request's path as the transcript shows it. The request is moved into
/// the prompt.
pub fn permission_to_prompt(req: PermissionRequest, shown: &str) -> (r: PermissionPrompt)
    ensures
        r.id == req.id,
        r.session_id == req.session_id,
        r.permission == req.permission,
        r.patterns == req.patterns,
        r.metadata == req.metadata,
        r.always == req.always,
        shown_view(r.view) == permission_shown(req.permission@, req.patterns@, req.metadata@, shown@),
{
    let view = build_permission_view(&req, shown);
    PermissionPrompt {
        id: req.id,
        session_id: req.session_id,
        permission: req.permission,
        patterns: req.patterns,
        metadata: req.metadata,
        always: req.always,
        view,
    }
}

} // verus!
