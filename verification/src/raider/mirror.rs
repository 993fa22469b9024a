//! What the front end remembers of the parts the server streams: the text of
//! each part so far (to send only what is new), the kind of each part, the role
//! of each message, the session each message belongs to, and how sub-agent
//! sessions hang under the task calls of their parents.
use vstd::prelude::*;
use vstd::string::*;
use crate::text::{chars_of, has_prefix, slice_chars, starts_with, str_eq, string_of};
use crate::raider::table::{Table, TextKey};

verus! {

/// The kind of a message part.
#[derive(Clone, Copy, Debug, PartialEq, Eq, Structural)]
pub enum PartKind {
    Text,
    Reasoning,
    Tool,
    Other,
}

/// Who wrote a message.
#[derive(Clone, Copy, Debug, PartialEq, Eq, Structural)]
pub enum MessageRole {
    User,
    Assistant,
    System,
}

/// A (message, part) key as texts.
pub type PartKey = (Seq<char>, Seq<char>);

/// What the mirror holds, as maps over texts.
#[verifier::ext_equal]
pub struct MirrorView {
    pub text: Map<PartKey, Seq<char>>,
    pub reasoning: Map<PartKey, Seq<char>>,
    pub roles: Map<Seq<char>, MessageRole>,
    pub kinds: Map<PartKey, PartKind>,
    pub task_child_session_to_part: Map<Seq<char>, Seq<char>>,
    pub child_session_to_parent: Map<Seq<char>, Seq<char>>,
    pub child_session_current_tool: Map<Seq<char>, Seq<char>>,
    pub task_child_tool_ids: Map<Seq<char>, Set<Seq<char>>>,
    pub message_to_session: Map<Seq<char>, Seq<char>>,
}

/// A map of texts as a map of sequences.
pub open spec fn texts_of<K>(m: Map<K, String>) -> Map<K, Seq<char>> {
    m.map_values(|s: String| s@)
}

/// A list of texts as a set.
pub open spec fn text_set(v: Vec<String>) -> Set<Seq<char>> {
    v@.map_values(|s: String| s@).to_set()
}

/// Whether no text occurs twice in the list.
pub open spec fn distinct_texts(v: Seq<String>) -> bool {
    v.map_values(|s: String| s@).no_duplicates()
}

/// The set of child calls of a task part (empty when none is known).
pub open spec fn child_calls(ids: Map<Seq<char>, Set<Seq<char>>>, parent: Seq<char>) -> Set<Seq<char>> {
    if ids.contains_key(parent) {
        ids[parent]
    } else {
        Set::empty()
    }
}

fn contains_text(v: &Vec<String>, t: &String) -> (r: bool)
    ensures
        r == v@.map_values(|s: String| s@).contains(t@),
{
    let mut i: usize = 0;
    while i < v.len()
        invariant
            i <= v@.len(),
            forall|j: int| 0 <= j < i ==> v@[j]@ != t@,
        decreases v@.len() - i,
    {
        if str_eq(v[i].as_str(), t.as_str()) {
            proof {
                assert(v@.map_values(|s: String| s@)[i as int] == t@);
            }
            return true;
        }
        i = i + 1;
    }
    proof {
        if v@.map_values(|s: String| s@).contains(t@) {
            let w = v@.map_values(|s: String| s@);
            let j = choose|j: int| 0 <= j < w.len() && #[trigger] w[j] == t@;
            assert(v@[j]@ == t@);
        }
    }
    false
}

fn copy_texts(v: &Vec<String>) -> (r: Vec<String>)
    ensures
        r@.map_values(|s: String| s@) == v@.map_values(|s: String| s@),
{
    let mut out: Vec<String> = Vec::new();
    let mut i: usize = 0;
    while i < v.len()
        invariant
            i <= v@.len(),
            out@.map_values(|s: String| s@) == v@.subrange(0, i as int).map_values(|s: String| s@),
        decreases v@.len() - i,
    {
        let ghost old_out = out@;
        let c = v[i].clone();
        out.push(c);
        proof {
            assert(out@ == old_out.push(c));
            assert(out@.map_values(|s: String| s@) =~= old_out.map_values(|s: String| s@).push(c@));
            assert(v@.subrange(0, i + 1).map_values(|s: String| s@) =~= v@.subrange(0, i as int).map_values(|s: String| s@).push(v@[i as int]@));
        }
        i = i + 1;
    }
    proof {
        assert(v@.subrange(0, v@.len() as int) =~= v@);
    }
    out
}

/// The part streamed so far, or nothing.
pub open spec fn so_far(m: Map<PartKey, Seq<char>>, k: PartKey) -> Seq<char> {
    if m.contains_key(k) {
        m[k]
    } else {
        Seq::empty()
    }
}

/// What is sent when a part's full text arrives after `prev` was seen: the new
/// end when `prev` is its beginning, else the whole text; nothing when that is
/// empty.
pub open spec fn streamed_delta(prev: Seq<char>, full: Seq<char>) -> Option<Seq<char>> {
    let d = if has_prefix(full, prev) {
        full.subrange(prev.len() as int, full.len() as int)
    } else {
        full
    };
    if d.len() == 0 {
        None
    } else {
        Some(d)
    }
}

/// The parts of a message stream back whole: when what was seen is the
/// beginning of the full text, what was seen followed by what is sent is the
/// full text; otherwise the full text is sent as it stands.
pub proof fn law_stream_reassembles(prev: Seq<char>, full: Seq<char>)
    ensures
        has_prefix(full, prev) ==> prev + match streamed_delta(prev, full) {
            Some(d) => d,
            None => Seq::empty(),
        } == full,
        !has_prefix(full, prev) ==> streamed_delta(prev, full) == if full.len() == 0 {
            None
        } else {
            Some(full)
        },
{
    if has_prefix(full, prev) {
        assert(prev + full.subrange(prev.len() as int, full.len() as int) =~= full);
        assert(prev + Seq::<char>::empty() =~= prev);
    }
}

/// Records the full text of a part and gives what is new in it (see
/// `streamed_delta`); afterwards the part's text is the full text.
pub fn diff_into(map: &mut Table<(String, String), String>, key: (String, String), full: &str) -> (r: Option<String>)
    ensures
        texts_of(final(map)@) == texts_of(old(map)@).insert(key@, full@),
        match streamed_delta(so_far(texts_of(old(map)@), key@), full@) {
            Some(d) => r matches Some(s) && s@ == d,
            None => r is None,
        },
{
    let prev = match map.get(&key) {
        Some(p) => chars_of(p.as_str()),
        None => Vec::new(),
    };
    let f = chars_of(full);
    proof {
        assert(prev@ == so_far(texts_of(old(map)@), key@));
    }
    let delta = if starts_with(&f, &prev) {
        slice_chars(&f, prev.len(), f.len())
    } else {
        f
    };
    let ghost k = key@;
    map.insert(key, String::from_str(full));
    proof {
        assert(texts_of(final(map)@) =~= texts_of(old(map)@).insert(k, full@));
    }
    if delta.len() == 0 {
        None
    } else {
        Some(string_of(&delta))
    }
}

/// The front end's memory of streamed parts.
pub struct PartMirror {
    text: Table<(String, String), String>,
    reasoning: Table<(String, String), String>,
    roles: Table<String, MessageRole>,
    kinds: Table<(String, String), PartKind>,
    task_child_session_to_part: Table<String, String>,
    child_session_to_parent: Table<String, String>,
    child_session_current_tool: Table<String, String>,
    task_child_tool_ids: Table<String, Vec<String>>,
    message_to_session: Table<String, String>,
}

impl View for PartMirror {
    type V = MirrorView;

    closed spec fn view(&self) -> MirrorView {
        MirrorView {
            text: texts_of(self.text@),
            reasoning: texts_of(self.reasoning@),
            roles: self.roles@,
            kinds: self.kinds@,
            task_child_session_to_part: texts_of(self.task_child_session_to_part@),
            child_session_to_parent: texts_of(self.child_session_to_parent@),
            child_session_current_tool: texts_of(self.child_session_current_tool@),
            task_child_tool_ids: self.task_child_tool_ids@.map_values(|v: Vec<String>| text_set(v)),
            message_to_session: texts_of(self.message_to_session@),
        }
    }
}

/// The messages a session owns.
pub open spec fn owned_messages(v: MirrorView, session: Seq<char>) -> Set<Seq<char>> {
    Set::new(|m: Seq<char>| v.message_to_session.contains_key(m) && v.message_to_session[m] == session)
}

/// The part keys of the given messages.
pub open spec fn parts_of(messages: Set<Seq<char>>) -> Set<PartKey> {
    Set::new(|k: PartKey| messages.contains(k.0))
}

/// The children whose parent is `session`.
pub open spec fn children_of(links: Map<Seq<char>, Seq<char>>, session: Seq<char>) -> Set<Seq<char>> {
    Set::new(|c: Seq<char>| links.contains_key(c) && links[c] == session)
}

/// An empty mirror.
pub open spec fn empty_view() -> MirrorView {
    MirrorView {
        text: Map::empty(),
        reasoning: Map::empty(),
        roles: Map::empty(),
        kinds: Map::empty(),
        task_child_session_to_part: Map::empty(),
        child_session_to_parent: Map::empty(),
        child_session_current_tool: Map::empty(),
        task_child_tool_ids: Map::empty(),
        message_to_session: Map::empty(),
    }
}

/// The mirror after a session is forgotten: the messages it owns go with their
/// parts, kinds and roles; its own links go; its children lose their parent.
pub open spec fn forgotten(v: MirrorView, session: Seq<char>) -> MirrorView {
    let o = owned_messages(v, session);
    let parents = v.child_session_to_parent.remove(session);
    MirrorView {
        text: v.text.remove_keys(parts_of(o)),
        reasoning: v.reasoning.remove_keys(parts_of(o)),
        kinds: v.kinds.remove_keys(parts_of(o)),
        roles: v.roles.remove_keys(o),
        message_to_session: v.message_to_session.remove_keys(o),
        task_child_session_to_part: v.task_child_session_to_part.remove(session),
        child_session_to_parent: parents.remove_keys(children_of(parents, session)),
        child_session_current_tool: v.child_session_current_tool.remove(session),
        task_child_tool_ids: v.task_child_tool_ids,
    }
}

/// Forgetting a session leaves no trace of it: no message belongs to it, no part
/// of its messages is kept, no session names it as parent and it has no links
/// of its own; what belongs to other sessions stays as it was.
pub proof fn law_forgotten_session_leaves_no_trace(v: MirrorView, session: Seq<char>)
    ensures
        forall|m: Seq<char>| #[trigger] forgotten(v, session).message_to_session.contains_key(m)
            ==> forgotten(v, session).message_to_session[m] != session,
        forall|k: PartKey| #[trigger] forgotten(v, session).text.contains_key(k)
            ==> !(v.message_to_session.contains_key(k.0) && v.message_to_session[k.0] == session),
        forall|c: Seq<char>| #[trigger] forgotten(v, session).child_session_to_parent.contains_key(c)
            ==> forgotten(v, session).child_session_to_parent[c] != session,
        !forgotten(v, session).child_session_to_parent.contains_key(session),
        !forgotten(v, session).task_child_session_to_part.contains_key(session),
        !forgotten(v, session).child_session_current_tool.contains_key(session),
        forall|k: PartKey| #[trigger] v.text.contains_key(k) && !(v.message_to_session.contains_key(k.0) && v.message_to_session[k.0] == session)
            ==> forgotten(v, session).text.contains_key(k) && forgotten(v, session).text[k] == v.text[k],
{
}

impl PartMirror {
    /// Every list of a task's child calls names each call once.
    pub closed spec fn wf(&self) -> bool {
        forall|k: Seq<char>| #[trigger] self.task_child_tool_ids@.contains_key(k) ==> distinct_texts(self.task_child_tool_ids@[k]@)
    }

    /// An empty mirror.
    pub fn new() -> (r: Self)
        ensures
            r@ == empty_view(),
            r.wf(),
    {
        let r = PartMirror {
            text: Table::new(),
            reasoning: Table::new(),
            roles: Table::new(),
            kinds: Table::new(),
            task_child_session_to_part: Table::new(),
            child_session_to_parent: Table::new(),
            child_session_current_tool: Table::new(),
            task_child_tool_ids: Table::new(),
            message_to_session: Table::new(),
        };
        proof {
            assert(r@ =~= empty_view());
        }
        r
    }

    /// Forgets everything.
    pub fn clear(&mut self)
        ensures
            final(self)@ == empty_view(),
            final(self).wf(),
    {
        self.text.clear();
        self.reasoning.clear();
        self.roles.clear();
        self.kinds.clear();
        self.task_child_session_to_part.clear();
        self.child_session_to_parent.clear();
        self.child_session_current_tool.clear();
        self.task_child_tool_ids.clear();
        self.message_to_session.clear();
        proof {
            assert(final(self)@ =~= empty_view());
        }
    }

    /// Records that a message belongs to a session.
    pub fn associate_message_with_session(&mut self, message_id: String, session_id: String)
        requires
            old(self).wf(),
        ensures
            final(self).wf(),
            final(self)@ == (MirrorView {
                message_to_session: old(self)@.message_to_session.insert(message_id@, session_id@),
                ..old(self)@
            }),
    {
        let ghost (m, s) = (message_id@, session_id@);
        self.message_to_session.insert(message_id, session_id);
        proof {
            assert(texts_of(self.message_to_session@) =~= texts_of(old(self).message_to_session@).insert(m, s));
            assert(final(self)@ =~= (MirrorView { message_to_session: old(self)@.message_to_session.insert(m, s), ..old(self)@ }));
        }
    }

    /// Forgets the streamed text and reasoning of a finished message.
    pub fn mark_message_complete(&mut self, message_id: &str)
        requires
            old(self).wf(),
        ensures
            final(self).wf(),
            final(self)@ == (MirrorView {
                text: old(self)@.text.remove_keys(parts_of(set![message_id@])),
                reasoning: old(self)@.reasoning.remove_keys(parts_of(set![message_id@])),
                ..old(self)@
            }),
    {
        self.text.remove_first(message_id);
        self.reasoning.remove_first(message_id);
        proof {
            let ghost ps = parts_of(set![message_id@]);
            assert(ps =~= Set::new(|k: (Seq<char>, Seq<char>)| k.0 == message_id@));
            assert(texts_of(self.text@) =~= texts_of(old(self).text@).remove_keys(ps));
            assert(texts_of(self.reasoning@) =~= texts_of(old(self).reasoning@).remove_keys(ps));
            assert(final(self)@ =~= (MirrorView {
                text: old(self)@.text.remove_keys(ps),
                reasoning: old(self)@.reasoning.remove_keys(ps),
                ..old(self)@
            }));
        }
    }

    /// Forgets a session: the messages it owns with their parts, kinds and roles;
    /// its own links to a task part, a parent and a current call; and the parent
    /// links of its children.
    pub fn forget_session(&mut self, session_id: &str)
        requires
            old(self).wf(),
        ensures
            final(self).wf(),
            final(self)@ == forgotten(old(self)@, session_id@),
    {
        let ghost o = owned_messages(old(self)@, session_id@);
        let owned = self.message_to_session.keys_with_text(session_id);
        assert(self.message_to_session@ == old(self).message_to_session@);
        let ghost mut done: Set<Seq<char>> = Set::empty();
        let mut i: usize = 0;
        while i < owned.len()
            invariant
                i <= owned@.len(),
                forall|m: Seq<char>| done.contains(m) <==> exists|j: int| 0 <= j < i && (#[trigger] owned@[j])@ == m,
                forall|m: Seq<char>| (old(self).message_to_session@.contains_key(m) && old(self).message_to_session@[m]@ == session_id@) <==> exists|j: int| 0 <= j < owned@.len() && (#[trigger] owned@[j])@ == m,
                self.text@ == old(self).text@.remove_keys(parts_of(done)),
                self.reasoning@ == old(self).reasoning@.remove_keys(parts_of(done)),
                self.kinds@ == old(self).kinds@.remove_keys(parts_of(done)),
                self.roles@ == old(self).roles@.remove_keys(done),
                self.message_to_session@ == old(self).message_to_session@.remove_keys(done),
                self.task_child_session_to_part@ == old(self).task_child_session_to_part@,
                self.child_session_to_parent@ == old(self).child_session_to_parent@,
                self.child_session_current_tool@ == old(self).child_session_current_tool@,
                self.task_child_tool_ids@ == old(self).task_child_tool_ids@,
            decreases owned@.len() - i,
        {
            let mid = owned[i].as_str();
            let ghost before = done;
            self.text.remove_first(mid);
            self.reasoning.remove_first(mid);
            self.kinds.remove_first(mid);
            self.roles.remove(&owned[i]);
            self.message_to_session.remove(&owned[i]);
            proof {
                done = done.insert(mid@);
                let hit = Set::new(|k: (Seq<char>, Seq<char>)| k.0 == mid@);
                assert(parts_of(before).union(hit) =~= parts_of(done));
                assert(old(self).text@.remove_keys(parts_of(before)).remove_keys(hit) =~= old(self).text@.remove_keys(parts_of(done)));
                assert(old(self).reasoning@.remove_keys(parts_of(before)).remove_keys(hit) =~= old(self).reasoning@.remove_keys(parts_of(done)));
                assert(old(self).kinds@.remove_keys(parts_of(before)).remove_keys(hit) =~= old(self).kinds@.remove_keys(parts_of(done)));
                assert(old(self).roles@.remove_keys(before).remove(mid@) =~= old(self).roles@.remove_keys(done));
                assert(old(self).message_to_session@.remove_keys(before).remove(mid@) =~= old(self).message_to_session@.remove_keys(done));
                assert forall|m: Seq<char>| done.contains(m) <==> exists|j: int| 0 <= j < i + 1 && (#[trigger] owned@[j])@ == m by {
                    if m == mid@ {
                        assert(owned@[i as int]@ == m);
                    }
                }
            }
            i = i + 1;
        }
        proof {
            assert(done =~= o);
        }
        let sid = String::from_str(session_id);
        self.task_child_session_to_part.remove(&sid);
        self.child_session_to_parent.remove(&sid);
        self.child_session_current_tool.remove(&sid);
        let ghost parents = self.child_session_to_parent@;
        let stale = self.child_session_to_parent.keys_with_text(session_id);
        let ghost mut gone: Set<Seq<char>> = Set::empty();
        let mut j: usize = 0;
        while j < stale.len()
            invariant
                j <= stale@.len(),
                forall|c: Seq<char>| gone.contains(c) <==> exists|t: int| 0 <= t < j && (#[trigger] stale@[t])@ == c,
                forall|c: Seq<char>| (parents.contains_key(c) && parents[c]@ == session_id@) <==> exists|t: int| 0 <= t < stale@.len() && (#[trigger] stale@[t])@ == c,
                self.child_session_to_parent@ == parents.remove_keys(gone),
                self.text@ == old(self).text@.remove_keys(parts_of(o)),
                self.reasoning@ == old(self).reasoning@.remove_keys(parts_of(o)),
                self.kinds@ == old(self).kinds@.remove_keys(parts_of(o)),
                self.roles@ == old(self).roles@.remove_keys(o),
                self.message_to_session@ == old(self).message_to_session@.remove_keys(o),
                self.task_child_session_to_part@ == old(self).task_child_session_to_part@.remove(session_id@),
                self.child_session_current_tool@ == old(self).child_session_current_tool@.remove(session_id@),
                self.task_child_tool_ids@ == old(self).task_child_tool_ids@,
            decreases stale@.len() - j,
        {
            let ghost before = gone;
            self.child_session_to_parent.remove(&stale[j]);
            proof {
                gone = gone.insert(stale@[j as int]@);
                assert(parents.remove_keys(before).remove(stale@[j as int]@) =~= parents.remove_keys(gone));
                assert forall|c: Seq<char>| gone.contains(c) <==> exists|t: int| 0 <= t < j + 1 && (#[trigger] stale@[t])@ == c by {
                    if c == stale@[j as int]@ {
                        assert(stale@[j as int]@ == c);
                    }
                }
            }
            j = j + 1;
        }
        proof {
            let pv = texts_of(parents);
            assert(pv == old(self)@.child_session_to_parent.remove(session_id@));
            assert(gone =~= children_of(pv, session_id@));
            assert(texts_of(self.text@) =~= old(self)@.text.remove_keys(parts_of(o)));
            assert(texts_of(self.reasoning@) =~= old(self)@.reasoning.remove_keys(parts_of(o)));
            assert(texts_of(self.message_to_session@) =~= old(self)@.message_to_session.remove_keys(o));
            assert(texts_of(self.task_child_session_to_part@) =~= old(self)@.task_child_session_to_part.remove(session_id@));
            assert(texts_of(self.child_session_current_tool@) =~= old(self)@.child_session_current_tool.remove(session_id@));
            assert(texts_of(self.child_session_to_parent@) =~= pv.remove_keys(children_of(pv, session_id@)));
            assert(final(self)@ =~= forgotten(old(self)@, session_id@));
        }
    }

    /// Records a call a task's sub-agent made, and gives how many distinct calls
    /// that task has now (cut to 32 bits).
    pub fn record_child_tool(&mut self, parent_part: String, child_part: String) -> (r: u32)
        requires
            old(self).wf(),
        ensures
            final(self).wf(),
            final(self)@ == (MirrorView {
                task_child_tool_ids: old(self)@.task_child_tool_ids.insert(
                    parent_part@,
                    child_calls(old(self)@.task_child_tool_ids, parent_part@).insert(child_part@),
                ),
                ..old(self)@
            }),
            r == (child_calls(old(self)@.task_child_tool_ids, parent_part@).insert(child_part@).len() as u32),
    {
        let ghost (p, c) = (parent_part@, child_part@);
        let mut calls = match self.task_child_tool_ids.get(&parent_part) {
            Some(v) => copy_texts(v),
            None => Vec::new(),
        };
        let ghost before = calls@.map_values(|s: String| s@);
        proof {
            assert(before.to_set() == child_calls(old(self)@.task_child_tool_ids, p));
        }
        if !contains_text(&calls, &child_part) {
            calls.push(child_part);
            proof {
                assert(calls@.map_values(|s: String| s@) =~= before.push(c));
                before.lemma_push_to_set_commute(c);
                assert(before.push(c).no_duplicates());
            }
        } else {
            proof {
                assert(before.to_set().insert(c) =~= before.to_set());
            }
        }
        let ghost after = calls@.map_values(|s: String| s@);
        proof {
            assert(after.to_set() == child_calls(old(self)@.task_child_tool_ids, p).insert(c));
            after.unique_seq_to_set();
        }
        let n = calls.len();
        self.task_child_tool_ids.insert(parent_part, calls);
        proof {
            assert(final(self)@ =~= (MirrorView {
                task_child_tool_ids: old(self)@.task_child_tool_ids.insert(p, child_calls(old(self)@.task_child_tool_ids, p).insert(c)),
                ..old(self)@
            }));
        }
        #[verifier::truncate]
        (n as u32)
    }

    /// Records the task part a sub-agent session works for.
    pub fn remember_task_child_session(&mut self, child: String, parent_part: String)
        requires
            old(self).wf(),
        ensures
            final(self).wf(),
            final(self)@ == (MirrorView {
                task_child_session_to_part: old(self)@.task_child_session_to_part.insert(child@, parent_part@),
                ..old(self)@
            }),
    {
        let ghost (c, p) = (child@, parent_part@);
        self.task_child_session_to_part.insert(child, parent_part);
        proof {
            assert(final(self)@ =~= (MirrorView {
                task_child_session_to_part: old(self)@.task_child_session_to_part.insert(c, p),
                ..old(self)@
            }));
        }
    }

    /// Records the parent of a sub-agent session.
    pub fn remember_child_parent(&mut self, child: String, parent: String)
        requires
            old(self).wf(),
        ensures
            final(self).wf(),
            final(self)@ == (MirrorView {
                child_session_to_parent: old(self)@.child_session_to_parent.insert(child@, parent@),
                ..old(self)@
            }),
    {
        let ghost (c, p) = (child@, parent@);
        self.child_session_to_parent.insert(child, parent);
        proof {
            assert(final(self)@ =~= (MirrorView {
                child_session_to_parent: old(self)@.child_session_to_parent.insert(c, p),
                ..old(self)@
            }));
        }
    }

    /// The task part a sub-agent session works for.
    pub fn parent_part_for_child(&self, child: &str) -> (r: Option<String>)
        ensures
            match r {
                Some(p) => self@.task_child_session_to_part.contains_key(child@)
                    && self@.task_child_session_to_part[child@] == p@,
                None => !self@.task_child_session_to_part.contains_key(child@),
            },
    {
        match self.task_child_session_to_part.get(&String::from_str(child)) {
            Some(p) => Some(p.clone()),
            None => None,
        }
    }

    /// The parent of a sub-agent session.
    pub fn parent_session_for_child(&self, child: &str) -> (r: Option<&String>)
        ensures
            match r {
                Some(p) => self@.child_session_to_parent.contains_key(child@)
                    && self@.child_session_to_parent[child@] == p@,
                None => !self@.child_session_to_parent.contains_key(child@),
            },
    {
        self.child_session_to_parent.get(&String::from_str(child))
    }

    /// Records the call a sub-agent session is making now.
    pub fn note_child_session_current_tool(&mut self, child: String, part: String)
        requires
            old(self).wf(),
        ensures
            final(self).wf(),
            final(self)@ == (MirrorView {
                child_session_current_tool: old(self)@.child_session_current_tool.insert(child@, part@),
                ..old(self)@
            }),
    {
        let ghost (c, p) = (child@, part@);
        self.child_session_current_tool.insert(child, part);
        proof {
            assert(final(self)@ =~= (MirrorView {
                child_session_current_tool: old(self)@.child_session_current_tool.insert(c, p),
                ..old(self)@
            }));
        }
    }

    /// The call a sub-agent session is making now.
    pub fn child_session_current_tool(&self, child: &str) -> (r: Option<&String>)
        ensures
            match r {
                Some(p) => self@.child_session_current_tool.contains_key(child@)
                    && self@.child_session_current_tool[child@] == p@,
                None => !self@.child_session_current_tool.contains_key(child@),
            },
    {
        self.child_session_current_tool.get(&String::from_str(child))
    }

    /// Records the kind of a part.
    pub fn remember_kind(&mut self, message_id: String, part_id: String, kind: PartKind)
        requires
            old(self).wf(),
        ensures
            final(self).wf(),
            final(self)@ == (MirrorView {
                kinds: old(self)@.kinds.insert((message_id@, part_id@), kind),
                ..old(self)@
            }),
    {
        let ghost k = (message_id@, part_id@);
        self.kinds.insert((message_id, part_id), kind);
        proof {
            assert(final(self)@ =~= (MirrorView { kinds: old(self)@.kinds.insert(k, kind), ..old(self)@ }));
        }
    }

    /// The kind of a part, when it was recorded.
    pub fn kind_of(&self, message_id: &str, part_id: &str) -> (r: Option<PartKind>)
        ensures
            match r {
                Some(k) => self@.kinds.contains_key((message_id@, part_id@)) && self@.kinds[(message_id@, part_id@)] == k,
                None => !self@.kinds.contains_key((message_id@, part_id@)),
            },
    {
        match self.kinds.get(&(String::from_str(message_id), String::from_str(part_id))) {
            Some(k) => Some(*k),
            None => None,
        }
    }

    /// Records who wrote a message.
    pub fn remember_role(&mut self, message_id: String, role: MessageRole)
        requires
            old(self).wf(),
        ensures
            final(self).wf(),
            final(self)@ == (MirrorView { roles: old(self)@.roles.insert(message_id@, role), ..old(self)@ }),
    {
        let ghost m = message_id@;
        self.roles.insert(message_id, role);
        proof {
            assert(final(self)@ =~= (MirrorView { roles: old(self)@.roles.insert(m, role), ..old(self)@ }));
        }
    }

    /// Whether a message is known to be the user's.
    pub fn is_user_message(&self, message_id: &str) -> (r: bool)
        ensures
            r == (self@.roles.contains_key(message_id@) && self@.roles[message_id@] == MessageRole::User),
    {
        match self.roles.get(&String::from_str(message_id)) {
            Some(MessageRole::User) => true,
            _ => false,
        }
    }

    /// Adds a streamed piece to the text or reasoning of a part; other kinds
    /// are not kept.
    pub fn note_streamed_part(&mut self, message_id: String, part_id: String, kind: PartKind, delta: &str)
        requires
            old(self).wf(),
        ensures
            final(self).wf(),
            final(self)@ == match kind {
                PartKind::Text => MirrorView {
                    text: old(self)@.text.insert(
                        (message_id@, part_id@),
                        so_far(old(self)@.text, (message_id@, part_id@)) + delta@,
                    ),
                    ..old(self)@
                },
                PartKind::Reasoning => MirrorView {
                    reasoning: old(self)@.reasoning.insert(
                        (message_id@, part_id@),
                        so_far(old(self)@.reasoning, (message_id@, part_id@)) + delta@,
                    ),
                    ..old(self)@
                },
                _ => old(self)@,
            },
    {
        let key = (message_id, part_id);
        let ghost k = key@;
        match kind {
            PartKind::Text => {
                let mut cur = match self.text.get(&key) {
                    Some(t) => t.clone(),
                    None => String::new(),
                };
                cur.append(delta);
                self.text.insert(key, cur);
                proof {
                    assert(texts_of(self.text@) =~= texts_of(old(self).text@).insert(k, so_far(old(self)@.text, k) + delta@));
                    assert(final(self)@ =~= (MirrorView {
                        text: old(self)@.text.insert(k, so_far(old(self)@.text, k) + delta@),
                        ..old(self)@
                    }));
                }
            },
            PartKind::Reasoning => {
                let mut cur = match self.reasoning.get(&key) {
                    Some(t) => t.clone(),
                    None => String::new(),
                };
                cur.append(delta);
                self.reasoning.insert(key, cur);
                proof {
                    assert(texts_of(self.reasoning@) =~= texts_of(old(self).reasoning@).insert(k, so_far(old(self)@.reasoning, k) + delta@));
                    assert(final(self)@ =~= (MirrorView {
                        reasoning: old(self)@.reasoning.insert(k, so_far(old(self)@.reasoning, k) + delta@),
                        ..old(self)@
                    }));
                }
            },
            _ => {},
        }
    }

    /// Records the full text of a text part and gives what is new in it (see
    /// `streamed_delta`).
    pub fn diff_text(&mut self, message_id: String, part_id: String, full_text: &str) -> (r: Option<String>)
        requires
            old(self).wf(),
        ensures
            final(self).wf(),
            final(self)@ == (MirrorView {
                text: old(self)@.text.insert((message_id@, part_id@), full_text@),
                ..old(self)@
            }),
            match streamed_delta(so_far(old(self)@.text, (message_id@, part_id@)), full_text@) {
                Some(d) => r matches Some(s) && s@ == d,
                None => r is None,
            },
    {
        let ghost k = (message_id@, part_id@);
        let r = diff_into(&mut self.text, (message_id, part_id), full_text);
        proof {
            assert(final(self)@ =~= (MirrorView { text: old(self)@.text.insert(k, full_text@), ..old(self)@ }));
        }
        r
    }

    /// Records the full text of a reasoning part and gives what is new in it
    /// (see `streamed_delta`).
    pub fn diff_reasoning(&mut self, message_id: String, part_id: String, full_text: &str) -> (r: Option<String>)
        requires
            old(self).wf(),
        ensures
            final(self).wf(),
            final(self)@ == (MirrorView {
                reasoning: old(self)@.reasoning.insert((message_id@, part_id@), full_text@),
                ..old(self)@
            }),
            match streamed_delta(so_far(old(self)@.reasoning, (message_id@, part_id@)), full_text@) {
                Some(d) => r matches Some(s) && s@ == d,
                None => r is None,
            },
    {
        let ghost k = (message_id@, part_id@);
        let r = diff_into(&mut self.reasoning, (message_id, part_id), full_text);
        proof {
            assert(final(self)@ =~= (MirrorView { reasoning: old(self)@.reasoning.insert(k, full_text@), ..old(self)@ }));
        }
        r
    }

    /// The text of a part streamed so far.
    pub fn streamed_text(&self, message_id: &str, part_id: &str) -> (r: Option<&String>)
        ensures
            match r {
                Some(t) => self@.text.contains_key((message_id@, part_id@)) && self@.text[(message_id@, part_id@)] == t@,
                None => !self@.text.contains_key((message_id@, part_id@)),
            },
    {
        self.text.get(&(String::from_str(message_id), String::from_str(part_id)))
    }

    /// The reasoning of a part streamed so far.
    pub fn streamed_reasoning(&self, message_id: &str, part_id: &str) -> (r: Option<&String>)
        ensures
            match r {
                Some(t) => self@.reasoning.contains_key((message_id@, part_id@)) && self@.reasoning[(message_id@, part_id@)] == t@,
                None => !self@.reasoning.contains_key((message_id@, part_id@)),
            },
    {
        self.reasoning.get(&(String::from_str(message_id), String::from_str(part_id)))
    }

    /// Whether no part text is kept.
    pub fn text_is_empty(&self) -> (r: bool)
        ensures
            r == (self@.text == Map::<PartKey, Seq<char>>::empty()),
    {
        let r = self.text.is_empty();
        proof {
            assert(texts_of(self.text@).dom() =~= self.text@.dom());
            if r {
                assert(texts_of(self.text@) =~= Map::<PartKey, Seq<char>>::empty());
            } else if texts_of(self.text@) == Map::<PartKey, Seq<char>>::empty() {
                assert(self.text@.dom() =~= Set::<PartKey>::empty());
                assert(self.text@ =~= Map::<PartKey, String>::empty());
            }
        }
        r
    }
}

} // verus!
