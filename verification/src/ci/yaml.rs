//! YAML documents as the workflow reader sees them, and the lookups it makes.
use vstd::prelude::*;
use serde_yaml::value::{Tag, TaggedValue};
use serde_yaml::Value as YamlValue;

verus! {

/// A YAML value. A number keeps the text it is displayed as; a mapping keeps its
/// entries in document order, each key once; a tagged value keeps its tag.
#[derive(Debug)]
pub enum Yaml {
    Null,
    Bool(bool),
    Number(String),
    String(String),
    Sequence(Vec<Yaml>),
    Mapping(Vec<(Yaml, Yaml)>),
    Tagged(String, Box<Yaml>),
}

/// The value under its tags.
pub open spec fn untagged(v: Yaml) -> Yaml
    decreases v,
{
    match v {
        Yaml::Tagged(_, inner) => untagged(*inner),
        _ => v,
    }
}

/// The value of the first entry of `es` from `k` on whose key is the string `key`.
pub open spec fn entry_for(es: Seq<(Yaml, Yaml)>, key: Seq<char>, k: int) -> Option<Yaml>
    decreases es.len() - k,
{
    if k < 0 || k >= es.len() {
        None
    } else if es[k].0 matches Yaml::String(s) && s@ == key {
        Some(es[k].1)
    } else {
        entry_for(es, key, k + 1)
    }
}

/// What `Value::get(key)` gives: in a mapping (under its tags), the value whose
/// key is the string `key`.
pub open spec fn yaml_get(v: Yaml, key: Seq<char>) -> Option<Yaml> {
    match untagged(v) {
        Yaml::Mapping(es) => entry_for(es@, key, 0),
        _ => None,
    }
}

/// What `Value::as_str` gives: the string under the tags.
pub open spec fn yaml_str(v: Yaml) -> Option<Seq<char>> {
    match untagged(v) {
        Yaml::String(s) => Some(s@),
        _ => None,
    }
}

/// What `Value::as_sequence` gives: the items under the tags.
pub open spec fn yaml_seq(v: Yaml) -> Option<Seq<Yaml>> {
    match untagged(v) {
        Yaml::Sequence(xs) => Some(xs@),
        _ => None,
    }
}

/// What `Value::as_mapping` gives: the entries under the tags.
pub open spec fn yaml_map(v: Yaml) -> Option<Seq<(Yaml, Yaml)>> {
    match untagged(v) {
        Yaml::Mapping(es) => Some(es@),
        _ => None,
    }
}

/// Every tag in `v` is non-empty, as in every value the YAML reader gives.
pub open spec fn well_tagged(v: Yaml) -> bool
    decreases v,
{
    match v {
        Yaml::Sequence(xs) => forall|i: int| 0 <= i < xs@.len() ==> well_tagged(#[trigger] xs@[i]),
        Yaml::Mapping(es) => forall|i: int| 0 <= i < es@.len() ==> well_tagged(#[trigger] es@[i].0) && well_tagged(es@[i].1),
        Yaml::Tagged(t, inner) => t@.len() > 0 && well_tagged(*inner),
        _ => true,
    }
}

/// What `serde_yaml::to_string` gives for a value (an empty text if it fails).
pub uninterp spec fn yaml_text_of(v: Yaml) -> Seq<char>;

/// `serde_yaml::Value`, declared so that a converter can return it; nothing of
/// its contents is visible to proofs.
#[verifier::external_type_specification]
#[verifier::external_body]
pub struct ExYamlValue(serde_yaml::Value);

/// The `serde_yaml::Value` a `Yaml` stands for: each variant for its own, a
/// number read back from its text. No contract is claimed of it.
#[verifier::external_body]
fn to_serde(v: &Yaml) -> serde_yaml::Value
    requires
        well_tagged(*v),
{
    match v {
        Yaml::Null => YamlValue::Null,
        Yaml::Bool(b) => YamlValue::Bool(*b),
        Yaml::Number(t) => t.parse().map(YamlValue::Number).unwrap_or(YamlValue::Null),
        Yaml::String(s) => YamlValue::String(s.clone()),
        Yaml::Sequence(xs) => YamlValue::Sequence(xs.iter().map(to_serde).collect()),
        Yaml::Mapping(es) => YamlValue::Mapping(es.iter().map(|(k, x)| (to_serde(k), to_serde(x))).collect()),
        Yaml::Tagged(t, inner) => tagged_to_serde(t, inner),
    }
}

/// A tagged `serde_yaml::Value`: `Tag::new` of the tag around the converted
/// value. No contract is claimed of it beyond its `requires` (a non-empty tag,
/// which `Tag::new` asserts).
#[verifier::external_body]
fn tagged_to_serde(tag: &String, inner: &Yaml) -> serde_yaml::Value
    requires
        tag@.len() > 0,
        well_tagged(*inner),
{
    let value = to_serde(inner);
    YamlValue::Tagged(Box::new(TaggedValue { tag: Tag::new(tag.clone()), value }))
}

/// What `serde_yaml::from_str` reads from a text as a `serde_yaml::Value`: the
/// document as a `Yaml`, or the text of the error it reports.
pub uninterp spec fn yaml_parsed(text: Seq<char>) -> Result<Yaml, Seq<char>>;

/// The `Yaml` a `serde_yaml::Value` stands for: each variant for its own, a
/// number by the text it displays as, a tag by its display (`!` and the tag).
/// No contract is claimed of it.
#[verifier::external_body]
fn from_serde(v: &serde_yaml::Value) -> Yaml {
    match v {
        YamlValue::Null => Yaml::Null,
        YamlValue::Bool(b) => Yaml::Bool(*b),
        YamlValue::Number(n) => Yaml::Number(n.to_string()),
        YamlValue::String(s) => Yaml::String(s.clone()),
        YamlValue::Sequence(xs) => Yaml::Sequence(xs.iter().map(from_serde).collect()),
        YamlValue::Mapping(m) => Yaml::Mapping(m.iter().map(|(k, x)| (from_serde(k), from_serde(x))).collect()),
        YamlValue::Tagged(t) => Yaml::Tagged(t.tag.to_string(), Box::new(from_serde(&t.value))),
    }
}

/// `serde_yaml::from_str::<serde_yaml::Value>` of `text`, named by
/// `yaml_parsed`: the document, or the text of the error. A tag reads as its
/// display, which `Tag`'s `Display` writes as `!` before the tag, so no tag of
/// the document is empty.
#[verifier::external_body]
pub(crate) fn parse_yaml_text(text: &str) -> (r: Result<Yaml, String>)
    ensures
        match yaml_parsed(text@) {
            Ok(y) => r matches Ok(v) && v == y,
            Err(e) => r matches Err(m) && m@ == e,
        },
        r matches Ok(v) ==> well_tagged(v),
{
    match serde_yaml::from_str::<serde_yaml::Value>(text) {
        Ok(v) => Ok(from_serde(&v)),
        Err(e) => Err(e.to_string()),
    }
}

/// `serde_yaml::to_string` of the value (an empty text if it fails), named by
/// `yaml_text_of`.
#[verifier::external_body]
pub(crate) fn yaml_text(v: &Yaml) -> (r: String)
    requires
        well_tagged(*v),
    ensures
        r@ == yaml_text_of(*v),
{
    serde_yaml::to_string(&to_serde(v)).unwrap_or_default()
}

impl Yaml {
    /// The value under its tags (see `untagged`).
    pub fn untag(&self) -> (r: &Yaml)
        ensures
            *r == untagged(*self),
        decreases self,
    {
        match self {
            Yaml::Tagged(_, inner) => inner.untag(),
            _ => self,
        }
    }

    /// The value of `key` in this mapping (see `yaml_get`).
    pub fn get(&self, key: &str) -> (r: Option<&Yaml>)
        ensures
            match yaml_get(*self, key@) {
                Some(x) => r matches Some(y) && *y == x,
                None => r is None,
            },
    {
        match self.untag() {
            Yaml::Mapping(es) => {
                let mut k: usize = 0;
                while k < es.len()
                    invariant
                        k <= es@.len(),
                        untagged(*self) == Yaml::Mapping(*es),
                        entry_for(es@, key@, k as int) == entry_for(es@, key@, 0),
                    decreases es@.len() - k,
                {
                    if let Yaml::String(s) = &es[k].0 {
                        if s.as_str().to_string() == key.to_string() {
                            return Some(&es[k].1);
                        }
                    }
                    k = k + 1;
                }
                None
            },
            _ => None,
        }
    }

    /// The items under the tags (see `yaml_seq`).
    pub fn as_sequence(&self) -> (r: Option<&Vec<Yaml>>)
        ensures
            match untagged(*self) {
                Yaml::Sequence(xs) => r matches Some(y) && *y == xs,
                _ => r is None,
            },
    {
        match self.untag() {
            Yaml::Sequence(xs) => Some(xs),
            _ => None,
        }
    }

    /// The entries under the tags (see `yaml_map`).
    pub fn as_mapping(&self) -> (r: Option<&Vec<(Yaml, Yaml)>>)
        ensures
            match untagged(*self) {
                Yaml::Mapping(es) => r matches Some(y) && *y == es,
                _ => r is None,
            },
    {
        match self.untag() {
            Yaml::Mapping(es) => Some(es),
            _ => None,
        }
    }

    /// The string under the tags (see `yaml_str`).
    pub fn as_str(&self) -> (r: Option<&str>)
        ensures
            match yaml_str(*self) {
                Some(x) => r matches Some(y) && y@ == x,
                None => r is None,
            },
    {
        match self.untag() {
            Yaml::String(s) => Some(s.as_str()),
            _ => None,
        }
    }
}

/// The parts of a well-tagged value are well tagged.
pub proof fn lemma_untagged_well(v: Yaml)
    requires
        well_tagged(v),
    ensures
        well_tagged(untagged(v)),
    decreases v,
{
    if let Yaml::Tagged(_, inner) = v {
        lemma_untagged_well(*inner);
    }
}

proof fn lemma_entry_for_well(es: Seq<(Yaml, Yaml)>, key: Seq<char>, k: int)
    requires
        forall|i: int| 0 <= i < es.len() ==> well_tagged(#[trigger] es[i].0) && well_tagged(es[i].1),
    ensures
        entry_for(es, key, k) matches Some(x) ==> well_tagged(x),
    decreases es.len() - k,
{
    if 0 <= k < es.len() && !(es[k].0 matches Yaml::String(s) && s@ == key) {
        lemma_entry_for_well(es, key, k + 1);
    }
}

/// What `get` finds in a well-tagged value is well tagged.
pub proof fn lemma_get_well(v: Yaml, key: Seq<char>)
    requires
        well_tagged(v),
    ensures
        yaml_get(v, key) matches Some(x) ==> well_tagged(x),
        yaml_seq(v) matches Some(xs) ==> forall|i: int| 0 <= i < xs.len() ==> well_tagged(#[trigger] xs[i]),
        yaml_map(v) matches Some(es) ==> forall|i: int| 0 <= i < es.len() ==> well_tagged(#[trigger] es[i].0) && well_tagged(es[i].1),
{
    lemma_untagged_well(v);
    if let Yaml::Mapping(es) = untagged(v) {
        lemma_entry_for_well(es@, key, 0);
    }
}

/// The entries of a well-tagged mapping are well tagged.
pub proof fn lemma_map_entries_well(v: Yaml, es: Seq<(Yaml, Yaml)>)
    requires
        well_tagged(v),
        yaml_map(v) == Some(es),
    ensures
        forall|i: int| 0 <= i < es.len() ==> well_tagged(#[trigger] es[i].0) && well_tagged(es[i].1),
{
    lemma_untagged_well(v);
    if let Yaml::Mapping(x) = untagged(v) {
        assert(x@ == es);
        assert forall|i: int| 0 <= i < es.len() implies well_tagged(#[trigger] es[i].0) && well_tagged(es[i].1) by {
            assert(es[i] == x@[i]);
        }
    }
}

/// The items of a well-tagged sequence are well tagged.
pub proof fn lemma_seq_items_well(v: Yaml, xs: Seq<Yaml>)
    requires
        well_tagged(v),
        yaml_seq(v) == Some(xs),
    ensures
        forall|i: int| 0 <= i < xs.len() ==> well_tagged(#[trigger] xs[i]),
{
    lemma_untagged_well(v);
    if let Yaml::Sequence(x) = untagged(v) {
        assert(x@ == xs);
        assert forall|i: int| 0 <= i < xs.len() implies well_tagged(#[trigger] xs[i]) by {
            assert(xs[i] == x@[i]);
        }
    }
}

} // verus!
