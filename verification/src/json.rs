//! JSON documents as plain values.
//!
//! `serde_json` reads JSON and `yaml_serde` reads YAML. What they read is turned
//! into a [`Json`] value, which the rest of the library works on. Its entries
//! keep the order that they have in the document.

use crate::binary64::Binary64;
use crate::text;
use vstd::prelude::*;

verus! {

/// A number of a document: its value as an `i64`, where it is one, and its
/// value as a binary64 number.
#[derive(Debug, Clone, Copy, PartialEq, Eq, Structural)]
pub struct JsonNumber {
    pub int: Option<i64>,
    pub real: Option<Binary64>,
}

/// A value of a document, with its compact text.
#[derive(Debug)]
pub struct Json {
    pub text: String,
    pub node: JsonNode,
}

#[derive(Debug)]
pub enum JsonNode {
    Null,
    Bool(bool),
    Number(JsonNumber),
    Text(String),
    Array(Vec<Json>),
    Object(Vec<(String, Json)>),
}

/// The mathematical value of a [`Json`].
pub struct JsonView {
    pub text: Seq<char>,
    pub node: NodeView,
}

pub enum NodeView {
    Null,
    Bool(bool),
    Number(JsonNumber),
    Text(Seq<char>),
    Array(Seq<JsonView>),
    Object(Seq<(Seq<char>, JsonView)>),
}

impl View for Json {
    type V = JsonView;

    open spec fn view(&self) -> JsonView {
        view_of(*self)
    }
}

pub open spec fn view_of(doc: Json) -> JsonView
    decreases doc,
{
    JsonView {
        text: doc.text@,
        node: match doc.node {
            JsonNode::Null => NodeView::Null,
            JsonNode::Bool(b) => NodeView::Bool(b),
            JsonNode::Number(n) => NodeView::Number(n),
            JsonNode::Text(s) => NodeView::Text(s@),
            JsonNode::Array(items) => NodeView::Array(
                Seq::new(
                    items@.len(),
                    |i: int|
                        if 0 <= i < items@.len() {
                            view_of(items@[i])
                        } else {
                            arbitrary()
                        },
                ),
            ),
            JsonNode::Object(entries) => NodeView::Object(
                Seq::new(
                    entries@.len(),
                    |i: int|
                        if 0 <= i < entries@.len() {
                            (entries@[i].0@, view_of(entries@[i].1))
                        } else {
                            arbitrary()
                        },
                ),
            ),
        },
    }
}

/// What `serde_json::from_str` reads from a text: the document, or nothing where
/// the text is not one JSON document.
pub uninterp spec fn json_document(text: Seq<char>) -> Option<JsonView>;

/// What `yaml_serde::from_str` reads from a text: the document, or the message
/// of the error.
pub uninterp spec fn yaml_document(text: Seq<char>) -> Result<JsonView, Seq<char>>;

/// The value type of `serde_json`, which the library only carries from a reader
/// to its conversion.
#[verifier::external_type_specification]
#[verifier::external_body]
pub struct ExSerdeValue(serde_json::Value);

/// Turns a `serde_json::Value` into a [`Json`], variant by variant. The text is
/// what `serde_json::Value::to_string` prints. Nothing is claimed of the result
/// here; the readers below claim that it is a function of the text read.
#[verifier::external_body]
fn json_of_value(value: serde_json::Value) -> (r: Json) {
    let text = value.to_string();
    let node = match value {
        serde_json::Value::Null => JsonNode::Null,
        serde_json::Value::Bool(b) => JsonNode::Bool(b),
        serde_json::Value::Number(n) => JsonNode::Number(
            JsonNumber { int: n.as_i64(), real: n.as_f64().map(|x| Binary64 { bits: x.to_bits() }) },
        ),
        serde_json::Value::String(s) => JsonNode::Text(s),
        serde_json::Value::Array(a) => JsonNode::Array(a.into_iter().map(json_of_value).collect()),
        serde_json::Value::Object(o) => JsonNode::Object(
            o.into_iter().map(|(k, v)| (k, json_of_value(v))).collect(),
        ),
    };
    Json { text, node }
}

/// `serde_json::from_str` reads the text as one JSON value. The claim is that
/// the outcome is a function of the text alone, which [`json_document`] names.
#[verifier::external_body]
fn read_json(text: &str) -> (r: Option<Json>)
    ensures
        match r {
            Some(doc) => json_document(text@) == Some(doc@),
            None => json_document(text@) is None,
        },
{
    serde_json::from_str::<serde_json::Value>(text).ok().map(json_of_value)
}

/// `yaml_serde::from_str` reads the text as one YAML document into a JSON value.
/// The claim is that the outcome, the message of an error with it, is a function
/// of the text alone, which [`yaml_document`] names.
#[verifier::external_body]
fn read_yaml(text: &str) -> (r: Result<Json, String>)
    ensures
        match r {
            Ok(doc) => yaml_document(text@) == Ok::<JsonView, Seq<char>>(doc@),
            Err(message) => yaml_document(text@) == Err::<JsonView, Seq<char>>(message@),
        },
{
    yaml_serde::from_str::<serde_json::Value>(text).map(json_of_value).map_err(|e| e.to_string())
}

/// The value of the first entry with the given key.
pub open spec fn entry_of(entries: Seq<(Seq<char>, JsonView)>, key: Seq<char>) -> Option<JsonView>
    decreases entries.len(),
{
    if entries.len() == 0 {
        None
    } else if entries[0].0 == key {
        Some(entries[0].1)
    } else {
        entry_of(entries.drop_first(), key)
    }
}

/// The member of an object with the given key; nothing for any other value.
pub open spec fn member(doc: JsonView, key: Seq<char>) -> Option<JsonView> {
    match doc.node {
        NodeView::Object(entries) => entry_of(entries, key),
        _ => None,
    }
}

pub open spec fn as_text(doc: Option<JsonView>) -> Option<Seq<char>> {
    match doc {
        Some(JsonView { node: NodeView::Text(s), text: _ }) => Some(s),
        _ => None,
    }
}

pub open spec fn as_bool(doc: Option<JsonView>) -> Option<bool> {
    match doc {
        Some(JsonView { node: NodeView::Bool(b), text: _ }) => Some(b),
        _ => None,
    }
}

pub open spec fn as_number(doc: Option<JsonView>) -> Option<JsonNumber> {
    match doc {
        Some(JsonView { node: NodeView::Number(n), text: _ }) => Some(n),
        _ => None,
    }
}

pub open spec fn as_array(doc: Option<JsonView>) -> Option<Seq<JsonView>> {
    match doc {
        Some(JsonView { node: NodeView::Array(items), text: _ }) => Some(items),
        _ => None,
    }
}

pub open spec fn as_object(doc: Option<JsonView>) -> Option<Seq<(Seq<char>, JsonView)>> {
    match doc {
        Some(JsonView { node: NodeView::Object(entries), text: _ }) => Some(entries),
        _ => None,
    }
}

/// The member with the given key, where it is a string.
pub open spec fn text_member(doc: JsonView, key: Seq<char>) -> Option<Seq<char>> {
    as_text(member(doc, key))
}

/// A text option by its view.
pub open spec fn opt_view(s: Option<&str>) -> Option<Seq<char>> {
    match s {
        Some(s) => Some(s@),
        None => None,
    }
}

/// A JSON option by its view.
pub open spec fn opt_json(doc: Option<&Json>) -> Option<JsonView> {
    match doc {
        Some(doc) => Some(doc@),
        None => None,
    }
}

/// An owned JSON option by its view.
pub open spec fn opt_document(doc: Option<Json>) -> Option<JsonView> {
    match doc {
        Some(doc) => Some(doc@),
        None => None,
    }
}

pub open spec fn items_view(items: Seq<Json>) -> Seq<JsonView> {
    items.map_values(|doc: Json| doc@)
}

pub open spec fn entries_view(entries: Seq<(String, Json)>) -> Seq<(Seq<char>, JsonView)> {
    entries.map_values(|e: (String, Json)| (e.0@, e.1@))
}

impl Json {
    /// Reads a JSON text; nothing where it is not one document.
    pub fn parse(text: &str) -> (r: Option<Json>)
        ensures
            match r {
                Some(doc) => json_document(text@) == Some(doc@),
                None => json_document(text@) is None,
            },
    {
        read_json(text)
    }

    /// Reads a YAML text; the message of the error where it is not one document.
    pub fn parse_yaml(text: &str) -> (r: Result<Json, String>)
        ensures
            match r {
                Ok(doc) => yaml_document(text@) == Ok::<JsonView, Seq<char>>(doc@),
                Err(message) => yaml_document(text@) == Err::<JsonView, Seq<char>>(message@),
            },
    {
        read_yaml(text)
    }

    /// The null value.
    pub fn null() -> (r: Json)
        ensures
            r@.node == NodeView::Null,
            r@.text == "null"@,
    {
        Json { text: "null".to_owned(), node: JsonNode::Null }
    }

    /// The member of an object with the given key; nothing for any other value.
    pub fn get(&self, key: &str) -> (r: Option<&Json>)
        ensures
            opt_json(r) == member(self@, key@),
    {
        match &self.node {
            JsonNode::Object(entries) => {
                proof {
                    assert(self@.node->Object_0 =~= entries_view(entries@));
                }
                find_entry(entries, key)
            },
            _ => None,
        }
    }

    pub fn text_of(&self, key: &str) -> (r: Option<&str>)
        ensures
            opt_view(r) == text_member(self@, key@),
    {
        match self.get(key) {
            Some(doc) => doc.as_str(),
            None => None,
        }
    }

    pub fn as_str(&self) -> (r: Option<&str>)
        ensures
            opt_view(r) == as_text(Some(self@)),
    {
        match &self.node {
            JsonNode::Text(s) => Some(s.as_str()),
            _ => None,
        }
    }

    pub fn as_bool(&self) -> (r: Option<bool>)
        ensures
            r == as_bool(Some(self@)),
    {
        match &self.node {
            JsonNode::Bool(b) => Some(*b),
            _ => None,
        }
    }

    pub fn as_number(&self) -> (r: Option<JsonNumber>)
        ensures
            r == as_number(Some(self@)),
    {
        match &self.node {
            JsonNode::Number(n) => Some(*n),
            _ => None,
        }
    }

    pub fn as_array(&self) -> (r: Option<&Vec<Json>>)
        ensures
            match r {
                Some(items) => as_array(Some(self@)) == Some(items_view(items@)),
                None => as_array(Some(self@)) is None,
            },
    {
        match &self.node {
            JsonNode::Array(items) => {
                proof {
                    assert(self@.node->Array_0 =~= items_view(items@));
                }
                Some(items)
            },
            _ => None,
        }
    }

    /// The items of an array.
    pub fn into_array(self) -> (r: Option<Vec<Json>>)
        ensures
            match r {
                Some(items) => as_array(Some(self@)) == Some(items_view(items@)),
                None => as_array(Some(self@)) is None,
            },
    {
        match self.node {
            JsonNode::Array(items) => {
                proof {
                    assert(self@.node->Array_0 =~= items_view(items@));
                }
                Some(items)
            },
            _ => None,
        }
    }

    pub fn as_object(&self) -> (r: Option<&Vec<(String, Json)>>)
        ensures
            match r {
                Some(entries) => as_object(Some(self@)) == Some(entries_view(entries@)),
                None => as_object(Some(self@)) is None,
            },
    {
        match &self.node {
            JsonNode::Object(entries) => {
                proof {
                    assert(self@.node->Object_0 =~= entries_view(entries@));
                }
                Some(entries)
            },
            _ => None,
        }
    }

    pub fn is_null(&self) -> (r: bool)
        ensures
            r == (self@.node is Null),
    {
        match &self.node {
            JsonNode::Null => true,
            _ => false,
        }
    }
}

fn find_entry<'a>(entries: &'a Vec<(String, Json)>, key: &str) -> (r: Option<&'a Json>)
    ensures
        opt_json(r) == entry_of(entries_view(entries@), key@),
{
    let ghost all = entries_view(entries@);
    let mut i: usize = 0;
    assert(all.skip(0) =~= all);
    while i < entries.len()
        invariant
            i <= entries@.len(),
            all == entries_view(entries@),
            entry_of(all, key@) == entry_of(all.skip(i as int), key@),
        decreases entries@.len() - i,
    {
        assert(all.skip(i as int).drop_first() =~= all.skip(i + 1));
        if text::same_text(entries[i].0.as_str(), key) {
            return Some(&entries[i].1);
        }
        i += 1;
    }
    None
}

// ── laws ──

/// The member with a key is the first entry with it.
pub proof fn law_first_entry_is_the_member(doc: JsonView, entries: Seq<(Seq<char>, JsonView)>, i: int)
    requires
        doc.node == NodeView::Object(entries),
        0 <= i < entries.len(),
        forall|j: int| 0 <= j < i ==> (#[trigger] entries[j]).0 != entries[i].0,
    ensures
        member(doc, entries[i].0) == Some(entries[i].1),
{
    lemma_first_entry(entries, i);
}

proof fn lemma_first_entry(entries: Seq<(Seq<char>, JsonView)>, i: int)
    requires
        0 <= i < entries.len(),
        forall|j: int| 0 <= j < i ==> (#[trigger] entries[j]).0 != entries[i].0,
    ensures
        entry_of(entries, entries[i].0) == Some(entries[i].1),
    decreases entries.len(),
{
    if i > 0 {
        let rest = entries.drop_first();
        assert(entries[0].0 != entries[i].0);
        assert(rest[i - 1] == entries[i]);
        assert forall|j: int| 0 <= j < i - 1 implies (#[trigger] rest[j]).0 != rest[i - 1].0 by {
            assert(rest[j] == entries[j + 1]);
        }
        lemma_first_entry(rest, i - 1);
    }
}

/// A key that no entry has names no member, and only an object has members.
pub proof fn law_absent_members(doc: JsonView, key: Seq<char>)
    requires
        !(doc.node is Object) || forall|i: int|
            0 <= i < doc.node->Object_0.len() ==> (#[trigger] doc.node->Object_0[i]).0 != key,
    ensures
        member(doc, key) is None,
{
    if doc.node is Object {
        lemma_no_entry(doc.node->Object_0, key);
    }
}

proof fn lemma_no_entry(entries: Seq<(Seq<char>, JsonView)>, key: Seq<char>)
    requires
        forall|i: int| 0 <= i < entries.len() ==> (#[trigger] entries[i]).0 != key,
    ensures
        entry_of(entries, key) is None,
    decreases entries.len(),
{
    if entries.len() > 0 {
        let rest = entries.drop_first();
        assert forall|i: int| 0 <= i < rest.len() implies (#[trigger] rest[i]).0 != key by {
            assert(rest[i] == entries[i + 1]);
        }
        lemma_no_entry(rest, key);
        assert(entries[0].0 != key);
    }
}

/// Each kind of value is read as that kind, with what it holds, and as no other.
pub proof fn law_kinds_are_apart(doc: JsonView)
    ensures
        as_text(None) is None && as_bool(None) is None && as_number(None) is None,
        as_array(None) is None && as_object(None) is None,
        as_text(Some(doc)) is Some <==> doc.node is Text,
        as_bool(Some(doc)) is Some <==> doc.node is Bool,
        as_number(Some(doc)) is Some <==> doc.node is Number,
        as_array(Some(doc)) is Some <==> doc.node is Array,
        as_object(Some(doc)) is Some <==> doc.node is Object,
        doc.node is Text ==> doc.node == NodeView::Text(as_text(Some(doc))->0),
        doc.node is Bool ==> doc.node == NodeView::Bool(as_bool(Some(doc))->0),
        doc.node is Number ==> doc.node == NodeView::Number(as_number(Some(doc))->0),
        doc.node is Array ==> doc.node == NodeView::Array(as_array(Some(doc))->0),
        doc.node is Object ==> doc.node == NodeView::Object(as_object(Some(doc))->0),
{
}

/// A text member is what a member holds that is a string.
pub proof fn law_text_members(doc: JsonView, key: Seq<char>)
    ensures
        text_member(doc, key) is Some <==> (member(doc, key) matches Some(m) && m.node is Text),
        text_member(doc, key) is Some ==> member(doc, key)->0.node == NodeView::Text(
            text_member(doc, key)->0,
        ),
{
}

} // verus!
