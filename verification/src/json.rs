//! JSON documents, read with `serde_json`.
//!
//! A parsed document stays a `serde_json::Value`; what it holds is the tree
//! `json_tree` of it, and the accessors below say what they return of that tree.

use vstd::prelude::*;

verus! {

/// A JSON value as a tree. Only texts, lists and tables are told apart.
pub enum JsonTree {
    Text(Seq<char>),
    List(Seq<JsonTree>),
    Table(Map<Seq<char>, JsonTree>),
    Other,
}

#[verifier::external_type_specification]
#[verifier::external_body]
pub struct ExValue(serde_json::Value);

#[verifier::external_type_specification]
#[verifier::external_body]
pub struct ExError(serde_json::Error);

/// What a parsed document holds.
pub uninterp spec fn json_tree(v: serde_json::Value) -> JsonTree;

/// What `serde_json::from_str` reads from a text: the document, or the words of its
/// error where the text is no JSON.
pub uninterp spec fn json_of_text(text: Seq<char>) -> Result<JsonTree, Seq<char>>;

/// What `serde_json::from_slice` reads from bytes: the document, or nothing where
/// the bytes are no JSON.
pub uninterp spec fn json_of_bytes(bytes: Seq<u8>) -> Option<JsonTree>;

/// The entry of a table under `key`.
pub open spec fn entry(v: JsonTree, key: Seq<char>) -> Option<JsonTree> {
    match v {
        JsonTree::Table(m) => if m.contains_key(key) {
            Some(m[key])
        } else {
            None
        },
        _ => None,
    }
}

/// `serde_json::from_str` into a `Value`, with its error in words: whether the text is
/// JSON, what it holds, and what is said of it where it is none, depend on the text alone.
#[verifier::external_body]
pub(crate) fn parse_text(text: &str) -> (r: Result<serde_json::Value, String>)
    ensures
        match r {
            Ok(v) => json_of_text(text@) == Ok::<JsonTree, Seq<char>>(json_tree(v)),
            Err(words) => json_of_text(text@) == Err::<JsonTree, Seq<char>>(words@),
        },
{
    match serde_json::from_str(text) {
        Ok(v) => Ok(v),
        Err(e) => Err(e.to_string()),
    }
}

/// `serde_json::from_slice` into a `Value`: whether the bytes are JSON, and what
/// they hold, depends on the bytes alone.
#[verifier::external_body]
pub(crate) fn parse_bytes(bytes: &[u8]) -> (r: Result<serde_json::Value, serde_json::Error>)
    ensures
        match r {
            Ok(v) => json_of_bytes(bytes@) == Some(json_tree(v)),
            Err(_) => json_of_bytes(bytes@) is None,
        },
{
    serde_json::from_slice(bytes)
}

/// `Value::as_array` returns the items of a list in order, and nothing for any
/// other value.
pub assume_specification[ serde_json::Value::as_array ](v: &serde_json::Value) -> (items: Option<
    &Vec<serde_json::Value>,
>)
    ensures
        match json_tree(*v) {
            JsonTree::List(trees) => items is Some && items->0@.len() == trees.len() && forall|
                i: int,
            |
                0 <= i < trees.len() ==> json_tree(#[trigger] items->0@[i]) == trees[i],
            _ => items is None,
        },
;

/// `Value::as_str` returns the characters of a text, and nothing for any other
/// value.
pub assume_specification[ serde_json::Value::as_str ](v: &serde_json::Value) -> (s: Option<&str>)
    ensures
        match json_tree(*v) {
            JsonTree::Text(t) => s is Some && s->0@ == t,
            _ => s is None,
        },
;

/// `Value::get` with a string returns the entry of a table under that key, and
/// nothing where the key is missing or the value is no table.
#[verifier::external_body]
pub(crate) fn get<'a>(v: &'a serde_json::Value, key: &str) -> (found: Option<&'a serde_json::Value>)
    ensures
        match found {
            Some(f) => entry(json_tree(*v), key@) == Some(json_tree(*f)),
            None => entry(json_tree(*v), key@) is None,
        },
{
    v.get(key)
}

/// A table gives back under a key what was put there last, and nothing else changes it; no
/// other value has entries.
pub proof fn law_entry_is_what_was_put_there(
    m: Map<Seq<char>, JsonTree>,
    key: Seq<char>,
    other: Seq<char>,
    v: JsonTree,
)
    ensures
        entry(JsonTree::Table(m.insert(key, v)), key) == Some(v),
        other != key ==> entry(JsonTree::Table(m.insert(key, v)), other) == entry(
            JsonTree::Table(m),
            other,
        ),
        entry(JsonTree::Table(Map::empty()), key) is None,
        !(v is Table) ==> entry(v, key) is None,
{
}

} // verus!
