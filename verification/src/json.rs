//! JSON, as far as the review reads and writes it.

use crate::textmap::TextMap;
use std::collections::HashMap;
use vstd::prelude::*;

verus! {

#[verifier::external_type_specification]
#[verifier::external_body]
pub struct ExJsonValue(serde_json::Value);

/// A JSON value.
pub ghost enum JsonTree {
    Null,
    Flag(bool),
    Whole(u64),
    /// any other number, as its text
    Number(Seq<char>),
    Text(Seq<char>),
    List(Seq<JsonTree>),
    /// the members of an object, by name
    Table(Map<Seq<char>, JsonTree>),
}

/// What `serde_json` reads a text as; none where it is not JSON.
pub uninterp spec fn json_document(text: Seq<char>) -> Option<JsonTree>;

/// What a value of `serde_json` holds.
pub uninterp spec fn json_tree(v: serde_json::Value) -> JsonTree;

/// One level of a JSON value.
pub enum JsonNode {
    Null,
    Flag(bool),
    Whole(u64),
    Number(String),
    Text(String),
    List(Vec<serde_json::Value>),
    Table(TextMap<serde_json::Value>),
}

pub open spec fn json_list(v: Seq<serde_json::Value>) -> Seq<JsonTree> {
    Seq::new(v.len(), |i: int| json_tree(v[i]))
}

pub open spec fn json_table(m: Map<Seq<char>, serde_json::Value>) -> Map<Seq<char>, JsonTree> {
    m.map_values(|v: serde_json::Value| json_tree(v))
}

impl JsonNode {
    pub open spec fn tree(self) -> JsonTree {
        match self {
            JsonNode::Null => JsonTree::Null,
            JsonNode::Flag(b) => JsonTree::Flag(b),
            JsonNode::Whole(n) => JsonTree::Whole(n),
            JsonNode::Number(s) => JsonTree::Number(s@),
            JsonNode::Text(s) => JsonTree::Text(s@),
            JsonNode::List(v) => JsonTree::List(json_list(v@)),
            JsonNode::Table(m) => JsonTree::Table(json_table(m@)),
        }
    }
}

/// Reads a text with `serde_json::from_str`. Which texts are JSON is left to the
/// crate.
#[verifier::external_body]
pub(crate) fn parse_json(text: &str) -> (r: Option<serde_json::Value>)
    ensures
        match r {
            Some(v) => json_document(text@) == Some(json_tree(v)),
            None => json_document(text@) is None,
        },
{
    serde_json::from_str(text).ok()
}

/// Tells the variants of `serde_json::Value` apart; a number that
/// `Number::as_u64` takes is whole, another gives its text.
#[verifier::external_body]
pub(crate) fn peel_json(v: &serde_json::Value) -> (r: JsonNode)
    ensures
        r.tree() == json_tree(*v),
{
    match v.clone() {
        serde_json::Value::Null => JsonNode::Null,
        serde_json::Value::Bool(b) => JsonNode::Flag(b),
        serde_json::Value::Number(n) => match n.as_u64() {
            Some(u) => JsonNode::Whole(u),
            None => JsonNode::Number(n.to_string()),
        },
        serde_json::Value::String(s) => JsonNode::Text(s),
        serde_json::Value::Array(a) => JsonNode::List(a),
        serde_json::Value::Object(m) => JsonNode::Table(TextMap { entries: m.into_iter().collect() }),
    }
}

/// The object with a number under each name.
pub open spec fn number_table(m: Map<Seq<char>, u64>) -> JsonTree {
    JsonTree::Table(m.map_values(|n: u64| JsonTree::Whole(n)))
}

/// The object with a text under each name.
pub open spec fn text_table(m: Map<Seq<char>, String>) -> JsonTree {
    JsonTree::Table(m.map_values(|s: String| JsonTree::Text(s@)))
}

/// Writes an object of numbers with `serde_json::to_string`, in whichever order
/// a `HashMap` is walked: a map from strings to integers always serialises, and
/// what is written reads back as the object.
#[verifier::external_body]
pub(crate) fn write_numbers(entries: TextMap<u64>) -> (r: Option<String>)
    ensures
        r is Some && json_document(r->0@) == Some(number_table(entries@)),
{
    serde_json::to_string(&entries.entries.into_iter().collect::<HashMap<String, u64>>()).ok()
}

/// Writes an object of texts with `serde_json::to_string`, in whichever order a
/// `HashMap` is walked: a map from strings to strings always serialises, and
/// what is written reads back as the object.
#[verifier::external_body]
pub(crate) fn write_texts(entries: TextMap<String>) -> (r: Option<String>)
    ensures
        r is Some && json_document(r->0@) == Some(text_table(entries@)),
{
    serde_json::to_string(&entries.entries.into_iter().collect::<HashMap<String, String>>()).ok()
}

/// The member `key` of an object.
pub open spec fn member(t: JsonTree, key: Seq<char>) -> Option<JsonTree> {
    match t {
        JsonTree::Table(m) => if m.dom().contains(key) {
            Some(m[key])
        } else {
            None
        },
        _ => None,
    }
}

/// The text under `key`, and nothing where there is none.
pub open spec fn text_at(t: JsonTree, key: Seq<char>) -> Seq<char> {
    match member(t, key) {
        Some(JsonTree::Text(s)) => s,
        _ => ""@,
    }
}

/// The elements of the list under `key`, where there is one.
pub open spec fn list_at(t: JsonTree, key: Seq<char>) -> Option<Seq<JsonTree>> {
    match member(t, key) {
        Some(JsonTree::List(v)) => Some(v),
        _ => None,
    }
}

fn member_of(v: &serde_json::Value, key: &str) -> (r: Option<JsonNode>)
    ensures
        match r {
            Some(n) => member(json_tree(*v), key@) == Some(n.tree()),
            None => member(json_tree(*v), key@) is None,
        },
{
    match peel_json(v) {
        JsonNode::Table(m) => match m.get(key) {
            Some(w) => Some(peel_json(w)),
            None => None,
        },
        _ => None,
    }
}

/// The text under `key`, and nothing where there is none.
pub(crate) fn field(v: &serde_json::Value, key: &str) -> (r: String)
    ensures
        r@ == text_at(json_tree(*v), key@),
{
    match member_of(v, key) {
        Some(JsonNode::Text(s)) => s,
        _ => "".to_owned(),
    }
}

/// The elements of the list under `key`, where there is one.
pub(crate) fn array(v: &serde_json::Value, key: &str) -> (r: Option<Vec<serde_json::Value>>)
    ensures
        match r {
            Some(l) => list_at(json_tree(*v), key@) == Some(json_list(l@)),
            None => list_at(json_tree(*v), key@) is None,
        },
{
    match member_of(v, key) {
        Some(JsonNode::List(l)) => Some(l),
        _ => None,
    }
}

} // verus!
