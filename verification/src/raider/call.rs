//! A tool call as the transcript holds it, made from the part the server sent.
use vstd::prelude::*;
use vstd::string::*;
use crate::text::{chars_of, lines_of, str_eq, string_of, text_lines};
use crate::raider::helpers::{tail_bytes, tail_view};
use crate::raider::json::{
    as_items, as_members, as_text, lookup, lookup_in, member, member_of, members_of, members_view,
    text_member, text_member_of, text_of, items_of, Json,
};
use crate::raider::tool::{or_empty, synthesize_tool_title, tool_title};

verus! {

/// The most bytes of a tool's output the transcript keeps.
pub const MAX_TOOL_OUTPUT_BYTES: usize = 30000;

/// The most lines of a tool's output the transcript shows.
pub const MAX_TOOL_OUTPUT_LINES: usize = 256;

/// The state of a tool call as the server reports it. `status` is as the server
/// writes it: `pending`, `running`, `completed` or `error`.
#[derive(Debug)]
pub struct ToolState {
    pub status: String,
    pub input: Json,
    pub output: String,
    pub title: String,
    pub metadata: Json,
    pub error: Option<String>,
}

/// A tool part of a message.
#[derive(Debug)]
pub struct ToolPart {
    pub id: String,
    pub tool_name: String,
    pub state: ToolState,
}

/// One entry of a todo list.
#[derive(Debug, PartialEq, Eq)]
pub struct TodoEntry {
    pub content: String,
    pub status: String,
}

/// What a patch did to a file.
#[derive(Debug, Clone, Copy, PartialEq, Eq, Structural)]
pub enum PatchKind {
    Created,
    Deleted,
    Moved,
    Patched,
}

/// One file of a patch: what happened to it, its path (and new path when it
/// moved), and its diff.
#[derive(Debug, PartialEq, Eq)]
pub struct PatchFile {
    pub kind: PatchKind,
    pub path: String,
    pub new_path: Option<String>,
    pub diff: Option<String>,
}

/// A question the agent asked, with its options.
#[derive(Debug, PartialEq, Eq)]
pub struct Question {
    pub text: String,
    pub options: Vec<String>,
}

/// A call a sub-agent is making, as its parent task shows it.
#[derive(Debug, PartialEq, Eq)]
pub struct ChildToolRef {
    pub part_id: String,
    pub name: String,
    pub status: String,
    pub file_path: Option<String>,
    pub command: Option<String>,
    pub title: String,
}

/// A tool call as the transcript holds it.
#[derive(Debug)]
pub struct ToolCall {
    pub id: Option<String>,
    pub name: String,
    pub status: String,
    pub title: String,
    pub command: Option<String>,
    pub output: String,
    pub error: Option<String>,
    pub todos: Vec<TodoEntry>,
    pub file_path: Option<String>,
    pub diff: Option<String>,
    pub loaded: Vec<String>,
    pub patches: Vec<PatchFile>,
    pub questions: Vec<Question>,
    pub answers: Vec<Vec<String>>,
    pub expanded: bool,
    pub current_child: Option<ChildToolRef>,
    pub child_tool_count: u32,
    pub started_at_ms: Option<u64>,
    pub completed_at_ms: Option<u64>,
}

/// A text that may be missing, as a sequence.
pub open spec fn opt_view(o: Option<String>) -> Option<Seq<char>> {
    match o {
        Some(s) => Some(s@),
        None => None,
    }
}

/// The text when it is there and not empty.
pub open spec fn nonempty(t: Option<Seq<char>>) -> Option<Seq<char>> {
    match t {
        Some(x) => if x.len() > 0 {
            Some(x)
        } else {
            None
        },
        None => None,
    }
}

/// What `f` keeps of `xs`, in order (`filter_map`).
pub open spec fn kept<A, B>(xs: Seq<A>, f: spec_fn(A) -> Option<B>) -> Seq<B>
    decreases xs.len(),
{
    if xs.len() == 0 {
        Seq::empty()
    } else {
        let r = kept(xs.drop_last(), f);
        match f(xs.last()) {
            Some(b) => r.push(b),
            None => r,
        }
    }
}

proof fn lemma_kept_step<A, B>(xs: Seq<A>, f: spec_fn(A) -> Option<B>, k: int)
    requires
        0 <= k < xs.len(),
    ensures
        kept(xs.subrange(0, k + 1), f) == match f(xs[k]) {
            Some(b) => kept(xs.subrange(0, k), f).push(b),
            None => kept(xs.subrange(0, k), f),
        },
{
    assert(xs.subrange(0, k + 1).drop_last() =~= xs.subrange(0, k));
}

proof fn lemma_whole<A>(xs: Seq<A>)
    ensures
        xs.subrange(0, xs.len() as int) == xs,
{
    assert(xs.subrange(0, xs.len() as int) =~= xs);
}

/// The members of a value, when it is an object.
pub open spec fn object_of(v: Json) -> Option<Seq<(String, Json)>> {
    as_members(Some(v))
}

/// The output the transcript shows: the metadata's `output` when it is there
/// and not empty, else the state's output; in either case its tail.
pub open spec fn call_output(st: ToolState) -> Seq<char> {
    tail_view(
        match nonempty(text_member(object_of(st.metadata), "output"@)) {
            Some(t) => t,
            None => st.output@,
        },
        MAX_TOOL_OUTPUT_BYTES as nat,
    )
}

/// Line `k` of `s` as `str::lines` gives it: a carriage return before the
/// line's newline is dropped.
pub open spec fn line_at(s: Seq<char>, k: int) -> Seq<char> {
    let l = text_lines(s)[k];
    let ended = k + 1 < text_lines(s).len() || (s.len() > 0 && s.last() == '\n');
    if ended && l.len() > 0 && l.last() == '\r' {
        l.drop_last()
    } else {
        l
    }
}

/// The lines of `s` as `str::lines` gives them.
pub open spec fn str_lines(s: Seq<char>) -> Seq<Seq<char>> {
    Seq::new(text_lines(s).len(), |k: int| line_at(s, k))
}

/// Each line with `+` before it and a newline after it.
pub open spec fn plus_lines(ls: Seq<Seq<char>>) -> Seq<char>
    decreases ls.len(),
{
    if ls.len() == 0 {
        Seq::empty()
    } else {
        plus_lines(ls.drop_last()) + "+"@ + ls.last() + "\n"@
    }
}

/// The diff shown for a call: an edit's `diff` metadata; for a completed write,
/// every line of the written content as an added line; nothing for others.
pub open spec fn call_diff(name: Seq<char>, st: ToolState) -> Option<Seq<char>> {
    if name == "edit"@ {
        nonempty(text_member(object_of(st.metadata), "diff"@))
    } else if name == "write"@ {
        if st.status@ == "completed"@ {
            match nonempty(text_member(object_of(st.input), "content"@)) {
                Some(c) => Some(plus_lines(str_lines(c))),
                None => None,
            }
        } else {
            None
        }
    } else {
        None
    }
}

/// A todo entry from an item of a todo list: its content and status (empty when
/// missing); nothing for an item that is not an object, or has neither.
pub open spec fn todo_of(v: Json) -> Option<(Seq<char>, Seq<char>)> {
    match object_of(v) {
        Some(es) => {
            let c = or_empty(as_text(member(es, "content"@)));
            let s = or_empty(as_text(member(es, "status"@)));
            if c.len() == 0 && s.len() == 0 {
                None
            } else {
                Some((c, s))
            }
        },
        None => None,
    }
}

/// The todo entries of a list.
pub open spec fn todo_list(xs: Seq<Json>) -> Seq<(Seq<char>, Seq<char>)> {
    kept(xs, |v: Json| todo_of(v))
}

/// The strings among the items.
pub open spec fn text_list(xs: Seq<Json>) -> Seq<Seq<char>> {
    kept(xs, |v: Json| as_text(Some(v)))
}

/// A patched file as a tuple: kind, path, new path, diff.
pub type PatchView = (PatchKind, Seq<char>, Option<Seq<char>>, Option<Seq<char>>);

/// The kind of a patched file from its `type`.
pub open spec fn patch_kind(t: Seq<char>) -> PatchKind {
    if t == "add"@ {
        PatchKind::Created
    } else if t == "delete"@ {
        PatchKind::Deleted
    } else if t == "move"@ {
        PatchKind::Moved
    } else {
        PatchKind::Patched
    }
}

/// A patched file from an item of a patch's `files`: a moved file keeps its
/// `filePath` and gets its `relativePath` (else its `movePath`) as new path;
/// any other file is shown at its `relativePath`, else its `filePath`.
pub open spec fn patch_of(v: Json) -> Option<PatchView> {
    match object_of(v) {
        Some(es) => {
            let kind = patch_kind(or_empty(as_text(member(es, "type"@))));
            let fp = or_empty(as_text(member(es, "filePath"@)));
            let rp = or_empty(as_text(member(es, "relativePath"@)));
            let diff = nonempty(as_text(member(es, "patch"@)));
            if kind == PatchKind::Moved {
                let mv = nonempty(as_text(member(es, "movePath"@)));
                Some((kind, fp, if rp.len() > 0 { Some(rp) } else { mv }, diff))
            } else {
                Some((kind, if rp.len() > 0 { rp } else { fp }, None, diff))
            }
        },
        None => None,
    }
}

/// The patched files of a list.
pub open spec fn patch_list(xs: Seq<Json>) -> Seq<PatchView> {
    kept(xs, |v: Json| patch_of(v))
}

/// An option of a question: a string, or an object's `header`.
pub open spec fn option_of(v: Json) -> Option<Seq<char>> {
    match v {
        Json::String(s) => Some(s@),
        Json::Object(es) => as_text(member(es@, "header"@)),
        _ => None,
    }
}

/// The options of a question.
pub open spec fn option_list(xs: Seq<Json>) -> Seq<Seq<char>> {
    kept(xs, |v: Json| option_of(v))
}

/// A question from an item of `questions`: its `question` (empty when missing)
/// and its options.
pub open spec fn question_of(v: Json) -> Option<(Seq<char>, Seq<Seq<char>>)> {
    match object_of(v) {
        Some(es) => Some((
            or_empty(as_text(member(es, "question"@))),
            match as_items(member(es, "options"@)) {
                Some(os) => option_list(os),
                None => Seq::empty(),
            },
        )),
        None => None,
    }
}

/// The questions of a list.
pub open spec fn question_list(xs: Seq<Json>) -> Seq<(Seq<char>, Seq<Seq<char>>)> {
    kept(xs, |v: Json| question_of(v))
}

/// The answers to one question: the strings of an array, else none.
pub open spec fn answer_of(v: Json) -> Seq<Seq<char>> {
    match v {
        Json::Array(xs) => text_list(xs@),
        _ => Seq::empty(),
    }
}

/// The answers to each question, one list per item.
pub open spec fn answer_list(xs: Seq<Json>) -> Seq<Seq<Seq<char>>> {
    kept(xs, |v: Json| Some(answer_of(v)))
}

/// The items of the member `key` of an object, none when it is missing.
pub open spec fn items_at(m: Option<Seq<(String, Json)>>, key: Seq<char>) -> Seq<Json> {
    match as_items(lookup(m, key)) {
        Some(xs) => xs,
        None => Seq::empty(),
    }
}

/// The views of todo entries.
pub open spec fn todos_view(v: Seq<TodoEntry>) -> Seq<(Seq<char>, Seq<char>)> {
    v.map_values(|t: TodoEntry| (t.content@, t.status@))
}

/// The views of texts.
pub open spec fn texts_view(v: Seq<String>) -> Seq<Seq<char>> {
    v.map_values(|t: String| t@)
}

/// The view of a patched file.
pub open spec fn patch_view(p: PatchFile) -> PatchView {
    (p.kind, p.path@, opt_view(p.new_path), opt_view(p.diff))
}

/// The views of patched files.
pub open spec fn patches_view(v: Seq<PatchFile>) -> Seq<PatchView> {
    v.map_values(|p: PatchFile| patch_view(p))
}

/// The views of questions.
pub open spec fn questions_view(v: Seq<Question>) -> Seq<(Seq<char>, Seq<Seq<char>>)> {
    v.map_values(|q: Question| (q.text@, texts_view(q.options@)))
}

/// The views of answer lists.
pub open spec fn answers_view(v: Seq<Vec<String>>) -> Seq<Seq<Seq<char>>> {
    v.map_values(|a: Vec<String>| texts_view(a@))
}

fn nonempty_of(t: Option<String>) -> (r: Option<String>)
    ensures
        opt_view(r) == nonempty(opt_view(t)),
{
    match t {
        Some(x) => if x.as_str().is_empty() {
            None
        } else {
            Some(x)
        },
        None => None,
    }
}

fn text_items(xs: &Vec<Json>) -> (r: Vec<String>)
    ensures
        texts_view(r@) == text_list(xs@),
{
    let mut out: Vec<String> = Vec::new();
    let mut k: usize = 0;
    while k < xs.len()
        invariant
            k <= xs@.len(),
            texts_view(out@) == text_list(xs@.subrange(0, k as int)),
        decreases xs@.len() - k,
    {
        proof {
            lemma_kept_step(xs@, |v: Json| as_text(Some(v)), k as int);
        }
        if let Some(t) = text_of(Some(&xs[k])) {
            let ghost before = out@;
            out.push(t);
            proof {
                assert(texts_view(out@) =~= texts_view(before).push(t@));
            }
        }
        k = k + 1;
    }
    proof {
        lemma_whole(xs@);
    }
    out
}

fn plus_lines_of(content: &str) -> (r: String)
    ensures
        r@ == plus_lines(str_lines(content@)),
{
    let v = chars_of(content);
    let lines = lines_of(&v);
    let ends_nl = v.len() > 0 && v[v.len() - 1] == '\n';
    let mut out = String::new();
    let mut k: usize = 0;
    while k < lines.len()
        invariant
            v@ == content@,
            k <= lines@.len(),
            lines@.len() == text_lines(v@).len(),
            forall|j: int| 0 <= j < lines@.len() ==> (#[trigger] lines@[j])@ == text_lines(v@)[j],
            ends_nl == (v@.len() > 0 && v@.last() == '\n'),
            out@ == plus_lines(str_lines(content@).subrange(0, k as int)),
        decreases lines@.len() - k,
    {
        let piece = &lines[k];
        let ended = k + 1 < lines.len() || ends_nl;
        let n = piece.len();
        let line = if ended && n > 0 && piece[n - 1] == '\r' {
            string_of(&crate::text::slice_chars(piece, 0, n - 1))
        } else {
            string_of(piece)
        };
        proof {
            assert(line@ =~= line_at(content@, k as int));
            assert(str_lines(content@).subrange(0, k + 1).drop_last() =~= str_lines(content@).subrange(0, k as int));
        }
        out.append("+");
        out.append(line.as_str());
        out.append("\n");
        k = k + 1;
    }
    proof {
        lemma_whole(str_lines(content@));
    }
    out
}

fn call_diff_of(name: &str, st: &ToolState) -> (r: Option<String>)
    ensures
        opt_view(r) == call_diff(name@, *st),
{
    if str_eq(name, "edit") {
        nonempty_of(text_member_of(members_of(Some(&st.metadata)), "diff"))
    } else if str_eq(name, "write") {
        if str_eq(st.status.as_str(), "completed") {
            match nonempty_of(text_member_of(members_of(Some(&st.input)), "content")) {
                Some(c) => Some(plus_lines_of(c.as_str())),
                None => None,
            }
        } else {
            None
        }
    } else {
        None
    }
}

fn todo_entries(xs: &Vec<Json>) -> (r: Vec<TodoEntry>)
    ensures
        todos_view(r@) == todo_list(xs@),
{
    let mut out: Vec<TodoEntry> = Vec::new();
    let mut k: usize = 0;
    while k < xs.len()
        invariant
            k <= xs@.len(),
            todos_view(out@) == todo_list(xs@.subrange(0, k as int)),
        decreases xs@.len() - k,
    {
        proof {
            lemma_kept_step(xs@, |v: Json| todo_of(v), k as int);
        }
        if let Some(es) = members_of(Some(&xs[k])) {
            let content = or_empty_text(text_of(member_of(es, "content")));
            let status = or_empty_text(text_of(member_of(es, "status")));
            if !(content.as_str().is_empty() && status.as_str().is_empty()) {
                let ghost before = out@;
                let entry = TodoEntry { content, status };
                out.push(entry);
                proof {
                    assert(todos_view(out@) =~= todos_view(before).push((entry.content@, entry.status@)));
                }
            }
        }
        k = k + 1;
    }
    proof {
        lemma_whole(xs@);
    }
    out
}

fn or_empty_text(t: Option<String>) -> (r: String)
    ensures
        r@ == or_empty(opt_view(t)),
{
    match t {
        Some(s) => s,
        None => String::new(),
    }
}

fn patch_kind_of(t: &str) -> (r: PatchKind)
    ensures
        r == patch_kind(t@),
{
    if str_eq(t, "add") {
        PatchKind::Created
    } else if str_eq(t, "delete") {
        PatchKind::Deleted
    } else if str_eq(t, "move") {
        PatchKind::Moved
    } else {
        PatchKind::Patched
    }
}

fn patch_file_of(es: &Vec<(String, Json)>) -> (r: PatchFile)
    ensures
        Some(patch_view(r)) == patch_of(Json::Object(*es)),
{
    let kind = patch_kind_of(or_empty_text(text_of(member_of(es, "type"))).as_str());
    let file_path = or_empty_text(text_of(member_of(es, "filePath")));
    let relative_path = or_empty_text(text_of(member_of(es, "relativePath")));
    let diff = nonempty_of(text_of(member_of(es, "patch")));
    match kind {
        PatchKind::Moved => {
            let move_path = nonempty_of(text_of(member_of(es, "movePath")));
            let new_path = if !relative_path.as_str().is_empty() {
                Some(relative_path)
            } else {
                move_path
            };
            PatchFile { kind, path: file_path, new_path, diff }
        },
        _ => {
            let path = if !relative_path.as_str().is_empty() {
                relative_path
            } else {
                file_path
            };
            PatchFile { kind, path, new_path: None, diff }
        },
    }
}

fn patch_files(xs: &Vec<Json>) -> (r: Vec<PatchFile>)
    ensures
        patches_view(r@) == patch_list(xs@),
{
    let mut out: Vec<PatchFile> = Vec::new();
    let mut k: usize = 0;
    while k < xs.len()
        invariant
            k <= xs@.len(),
            patches_view(out@) == patch_list(xs@.subrange(0, k as int)),
        decreases xs@.len() - k,
    {
        proof {
            lemma_kept_step(xs@, |v: Json| patch_of(v), k as int);
        }
        if let Some(es) = members_of(Some(&xs[k])) {
            let ghost before = out@;
            let p = patch_file_of(es);
            out.push(p);
            proof {
                assert(patches_view(out@) =~= patches_view(before).push(patch_view(p)));
            }
        }
        k = k + 1;
    }
    proof {
        lemma_whole(xs@);
    }
    out
}

fn option_texts(xs: &Vec<Json>) -> (r: Vec<String>)
    ensures
        texts_view(r@) == option_list(xs@),
{
    let mut out: Vec<String> = Vec::new();
    let mut k: usize = 0;
    while k < xs.len()
        invariant
            k <= xs@.len(),
            texts_view(out@) == option_list(xs@.subrange(0, k as int)),
        decreases xs@.len() - k,
    {
        proof {
            lemma_kept_step(xs@, |v: Json| option_of(v), k as int);
        }
        let o = match &xs[k] {
            Json::String(s) => Some(s.clone()),
            Json::Object(es) => text_of(member_of(es, "header")),
            _ => None,
        };
        if let Some(t) = o {
            let ghost before = out@;
            out.push(t);
            proof {
                assert(texts_view(out@) =~= texts_view(before).push(t@));
            }
        }
        k = k + 1;
    }
    proof {
        lemma_whole(xs@);
    }
    out
}

fn question_items(xs: &Vec<Json>) -> (r: Vec<Question>)
    ensures
        questions_view(r@) == question_list(xs@),
{
    let mut out: Vec<Question> = Vec::new();
    let mut k: usize = 0;
    while k < xs.len()
        invariant
            k <= xs@.len(),
            questions_view(out@) == question_list(xs@.subrange(0, k as int)),
        decreases xs@.len() - k,
    {
        proof {
            lemma_kept_step(xs@, |v: Json| question_of(v), k as int);
        }
        if let Some(es) = members_of(Some(&xs[k])) {
            let text = or_empty_text(text_of(member_of(es, "question")));
            let options = match items_of(member_of(es, "options")) {
                Some(os) => option_texts(os),
                None => Vec::new(),
            };
            let ghost before = out@;
            let q = Question { text, options };
            out.push(q);
            proof {
                assert(texts_view(Seq::<String>::empty()) =~= Seq::<Seq<char>>::empty());
                assert(questions_view(out@) =~= questions_view(before).push((q.text@, texts_view(q.options@))));
            }
        }
        k = k + 1;
    }
    proof {
        lemma_whole(xs@);
    }
    out
}

fn answer_items(xs: &Vec<Json>) -> (r: Vec<Vec<String>>)
    ensures
        answers_view(r@) == answer_list(xs@),
{
    let mut out: Vec<Vec<String>> = Vec::new();
    let mut k: usize = 0;
    while k < xs.len()
        invariant
            k <= xs@.len(),
            answers_view(out@) == answer_list(xs@.subrange(0, k as int)),
        decreases xs@.len() - k,
    {
        proof {
            lemma_kept_step(xs@, |v: Json| Some(answer_of(v)), k as int);
        }
        let a = match &xs[k] {
            Json::Array(inner) => text_items(inner),
            _ => Vec::new(),
        };
        proof {
            assert(texts_view(Seq::<String>::empty()) =~= Seq::<Seq<char>>::empty());
            assert(texts_view(a@) == answer_of(xs@[k as int]));
        }
        let ghost before = out@;
        out.push(a);
        proof {
            assert(answers_view(out@) =~= answers_view(before).push(texts_view(a@)));
        }
        k = k + 1;
    }
    proof {
        lemma_whole(xs@);
    }
    out
}

/// The items of the member `key` of an object that may be missing (see
/// `items_at`).
fn items_at_of<'a>(m: Option<&'a Vec<(String, Json)>>, key: &str) -> (r: Option<&'a Vec<Json>>)
    ensures
        match r {
            Some(xs) => xs@ == items_at(members_view(m), key@),
            None => items_at(members_view(m), key@) == Seq::<Json>::empty(),
        },
{
    items_of(lookup_in(m, key))
}

/// The working directory as a sequence, when it is known.
pub open spec fn cwd_view(cwd: Option<&str>) -> Option<Seq<char>> {
    match cwd {
        Some(c) => Some(c@),
        None => None,
    }
}

/// Whether `r` is the call that `tool_part_to_call` makes of `part` in the
/// working directory `cwd` (see the clauses below).
pub open spec fn call_of(part: ToolPart, cwd: Option<Seq<char>>, r: ToolCall) -> bool {
    &&& r.id matches Some(i) && i@ == part.id@
    &&& r.name@ == part.tool_name@
    &&& r.status@ == part.state.status@
    &&& r.title@ == tool_title(
            part.tool_name@,
            part.state.title@,
            object_of(part.state.input),
            object_of(part.state.metadata),
            cwd,
        )
    &&& opt_view(r.command) == text_member(object_of(part.state.input), "command"@)
    &&& r.output@ == call_output(part.state)
    &&& opt_view(r.error) == nonempty(opt_view(part.state.error))
    &&& opt_view(r.file_path) == text_member(object_of(part.state.input), "filePath"@)
    &&& opt_view(r.diff) == call_diff(part.tool_name@, part.state)
    &&& todos_view(r.todos@) == if part.tool_name@ == "todowrite"@ {
            todo_list(items_at(object_of(part.state.input), "todos"@))
        } else {
            Seq::empty()
        }
    &&& texts_view(r.loaded@) == if part.tool_name@ == "read"@ {
            text_list(items_at(object_of(part.state.metadata), "loaded"@))
        } else {
            Seq::empty()
        }
    &&& patches_view(r.patches@) == if part.tool_name@ == "apply_patch"@ {
            patch_list(items_at(object_of(part.state.metadata), "files"@))
        } else {
            Seq::empty()
        }
    &&& questions_view(r.questions@) == if part.tool_name@ == "question"@ {
            question_list(items_at(object_of(part.state.input), "questions"@))
        } else {
            Seq::empty()
        }
    &&& answers_view(r.answers@) == if part.tool_name@ == "question"@ {
            answer_list(items_at(object_of(part.state.metadata), "answers"@))
        } else {
            Seq::empty()
        }
    &&& !r.expanded
    &&& r.current_child is None
    &&& r.child_tool_count == 0
    &&& r.started_at_ms is None
    &&& r.completed_at_ms is None
}

/// A tool part as the transcript holds it: its id, name and status; its title
/// (see `tool_title`); its input's `command` and `filePath`; its output (see
/// `call_output`); its error when not empty; its diff (see `call_diff`); for
/// `todowrite` the todo list of its input, for `read` the `loaded` files of its
/// metadata, for `apply_patch` the `files` of its metadata, for `question` the
/// questions of its input and the answers of its metadata; collapsed, with no
/// child call and no times.
pub fn tool_part_to_call(part: &ToolPart, cwd: Option<&str>) -> (r: ToolCall)
    ensures
        call_of(*part, cwd_view(cwd), r),
{
    let state = &part.state;
    let input_obj = members_of(Some(&state.input));
    let metadata_obj = members_of(Some(&state.metadata));
    let name = part.tool_name.as_str();
    let title = synthesize_tool_title(name, state.title.as_str(), input_obj, metadata_obj, cwd);
    let command = text_member_of(input_obj, "command");
    let chosen = match nonempty_of(text_member_of(metadata_obj, "output")) {
        Some(t) => t,
        None => state.output.clone(),
    };
    let output = tail_bytes(chosen.as_str(), MAX_TOOL_OUTPUT_BYTES);
    let error = nonempty_of(state.error.clone());
    let file_path = text_member_of(input_obj, "filePath");
    let diff = call_diff_of(name, state);
    let todos = if str_eq(name, "todowrite") {
        match items_at_of(input_obj, "todos") {
            Some(xs) => todo_entries(xs),
            None => Vec::new(),
        }
    } else {
        Vec::new()
    };
    let loaded = if str_eq(name, "read") {
        match items_at_of(metadata_obj, "loaded") {
            Some(xs) => text_items(xs),
            None => Vec::new(),
        }
    } else {
        Vec::new()
    };
    let patches = if str_eq(name, "apply_patch") {
        match items_at_of(metadata_obj, "files") {
            Some(xs) => patch_files(xs),
            None => Vec::new(),
        }
    } else {
        Vec::new()
    };
    let (questions, answers) = if str_eq(name, "question") {
        let qs = match items_at_of(input_obj, "questions") {
            Some(xs) => question_items(xs),
            None => Vec::new(),
        };
        let ans = match items_at_of(metadata_obj, "answers") {
            Some(xs) => answer_items(xs),
            None => Vec::new(),
        };
        (qs, ans)
    } else {
        (Vec::new(), Vec::new())
    };
    proof {
        assert(todos_view(Seq::<TodoEntry>::empty()) =~= Seq::<(Seq<char>, Seq<char>)>::empty());
        assert(texts_view(Seq::<String>::empty()) =~= Seq::<Seq<char>>::empty());
        assert(patches_view(Seq::<PatchFile>::empty()) =~= Seq::<PatchView>::empty());
        assert(questions_view(Seq::<Question>::empty()) =~= Seq::<(Seq<char>, Seq<Seq<char>>)>::empty());
        assert(answers_view(Seq::<Vec<String>>::empty()) =~= Seq::<Seq<Seq<char>>>::empty());
        assert(kept(Seq::<Json>::empty(), |v: Json| todo_of(v)) == Seq::<(Seq<char>, Seq<char>)>::empty());
        assert(kept(Seq::<Json>::empty(), |v: Json| as_text(Some(v))) == Seq::<Seq<char>>::empty());
        assert(kept(Seq::<Json>::empty(), |v: Json| patch_of(v)) == Seq::<PatchView>::empty());
        assert(kept(Seq::<Json>::empty(), |v: Json| question_of(v)) == Seq::<(Seq<char>, Seq<Seq<char>>)>::empty());
        assert(kept(Seq::<Json>::empty(), |v: Json| Some(answer_of(v))) == Seq::<Seq<Seq<char>>>::empty());
    }
    ToolCall {
        id: Some(part.id.clone()),
        name: part.tool_name.clone(),
        status: state.status.clone(),
        title,
        command,
        output,
        error,
        todos,
        file_path,
        diff,
        loaded,
        patches,
        questions,
        answers,
        expanded: false,
        current_child: None,
        child_tool_count: 0,
        started_at_ms: None,
        completed_at_ms: None,
    }
}

/// A sub-agent's call as its parent task shows it: its id, name, status, the
/// `filePath` and `command` of its input, and its title (see `tool_title`).
pub fn child_tool_ref_from_part(part: &ToolPart, cwd: Option<&str>) -> (r: ChildToolRef)
    ensures
        r.part_id@ == part.id@,
        r.name@ == part.tool_name@,
        r.status@ == part.state.status@,
        opt_view(r.file_path) == text_member(object_of(part.state.input), "filePath"@),
        opt_view(r.command) == text_member(object_of(part.state.input), "command"@),
        r.title@ == tool_title(
            part.tool_name@,
            part.state.title@,
            object_of(part.state.input),
            object_of(part.state.metadata),
            cwd_view(cwd),
        ),
{
    let state = &part.state;
    let input_obj = members_of(Some(&state.input));
    let metadata_obj = members_of(Some(&state.metadata));
    let file_path = text_member_of(input_obj, "filePath");
    let command = text_member_of(input_obj, "command");
    let title = synthesize_tool_title(part.tool_name.as_str(), state.title.as_str(), input_obj, metadata_obj, cwd);
    ChildToolRef {
        part_id: part.id.clone(),
        name: part.tool_name.clone(),
        status: state.status.clone(),
        file_path,
        command,
        title,
    }
}

} // verus!
