//! JSON values, as `serde_json` holds them: what they are made of, how they
//! are read and how they are written.

use vstd::prelude::*;
#[allow(unused_imports)]
use vstd::utf8::encode_utf8;

verus! {

/// What a JSON value is made of. A number is given by its text.
pub enum JsonTree {
    Null,
    Bool(bool),
    Number(Seq<char>),
    Text(Seq<char>),
    List(Seq<JsonTree>),
    Object(Map<Seq<char>, JsonTree>),
}

/// The member of an object under a key; of anything else there is none.
pub open spec fn member_of(tree: JsonTree, key: Seq<char>) -> Option<JsonTree> {
    match tree {
        JsonTree::Object(members) => members.get(key),
        _ => None,
    }
}

/// The item of a list at an index; of anything else there is none.
pub open spec fn item_of(tree: JsonTree, index: int) -> Option<JsonTree> {
    match tree {
        JsonTree::List(items) => if 0 <= index < items.len() {
            Some(items[index])
        } else {
            None
        },
        _ => None,
    }
}

/// The characters of a text; of anything else there are none.
pub open spec fn text_in(tree: JsonTree) -> Option<Seq<char>> {
    match tree {
        JsonTree::Text(text) => Some(text),
        _ => None,
    }
}

/// What is found below a value that may not be there, member by member.
pub open spec fn member_below(tree: Option<JsonTree>, key: Seq<char>) -> Option<JsonTree> {
    match tree {
        Some(tree) => member_of(tree, key),
        None => None,
    }
}

/// What is found below a value that may not be there, at an index.
pub open spec fn item_below(tree: Option<JsonTree>, index: int) -> Option<JsonTree> {
    match tree {
        Some(tree) => item_of(tree, index),
        None => None,
    }
}

/// The characters of a value that may not be there.
pub open spec fn text_below(tree: Option<JsonTree>) -> Option<Seq<char>> {
    match tree {
        Some(tree) => text_in(tree),
        None => None,
    }
}

/// Whether a value is made of texts, lists and objects alone, with no more than
/// `depth` lists and objects around each other.
pub open spec fn is_plain(tree: JsonTree, depth: nat) -> bool
    decreases depth,
{
    match tree {
        JsonTree::Text(_) => true,
        JsonTree::List(items) => depth > 0 && forall|i: int|
            0 <= i < items.len() ==> is_plain(#[trigger] items[i], (depth - 1) as nat),
        JsonTree::Object(members) => depth > 0 && forall|key: Seq<char>|
            members.contains_key(key) ==> is_plain(#[trigger] members[key], (depth - 1) as nat),
        _ => false,
    }
}

/// `serde_json::Value`: a JSON value.
#[verifier::external_type_specification]
#[verifier::external_body]
pub struct ExJsonValue(serde_json::Value);

/// `serde_json::Error`: why bytes are not JSON.
#[verifier::external_type_specification]
#[verifier::external_body]
pub struct ExJsonError(serde_json::Error);

/// What a `serde_json::Value` holds.
pub uninterp spec fn json_tree(value: serde_json::Value) -> JsonTree;

/// What `serde_json::from_slice` reads from bytes: a value, or nothing where
/// they are not JSON.
pub uninterp spec fn json_document(bytes: Seq<u8>) -> Option<JsonTree>;

/// How `serde_json` writes a value, without spaces.
pub uninterp spec fn json_text(tree: JsonTree) -> Seq<char>;

/// `serde_json::from_slice`: which value it reads, and whether it reads one,
/// depends on the bytes alone.
#[verifier::external_body]
pub(crate) fn parse(bytes: &[u8]) -> (value: Result<serde_json::Value, serde_json::Error>)
    ensures
        match value {
            Ok(value) => json_document(bytes@) == Some(json_tree(value)),
            Err(_) => json_document(bytes@) is None,
        },
{
    serde_json::from_slice(bytes)
}

/// `serde_json::Value::get` with a string: the member of an object under the
/// key.
#[verifier::external_body]
pub(crate) fn member<'a>(value: &'a serde_json::Value, key: &str) -> (member: Option<
    &'a serde_json::Value,
>)
    ensures
        match member {
            Some(member) => member_of(json_tree(*value), key@) == Some(json_tree(*member)),
            None => member_of(json_tree(*value), key@) is None,
        },
{
    value.get(key)
}

/// `serde_json::Value::get` with a number: the item of a list at the index.
#[verifier::external_body]
pub(crate) fn item<'a>(value: &'a serde_json::Value, index: usize) -> (item: Option<
    &'a serde_json::Value,
>)
    ensures
        match item {
            Some(item) => item_of(json_tree(*value), index as int) == Some(json_tree(*item)),
            None => item_of(json_tree(*value), index as int) is None,
        },
{
    value.get(index)
}

/// `serde_json::Value::as_str`: the characters of a text.
#[verifier::external_body]
pub(crate) fn as_text<'a>(value: &'a serde_json::Value) -> (text: Option<&'a str>)
    ensures
        match text {
            Some(text) => text_in(json_tree(*value)) == Some(text@),
            None => text_in(json_tree(*value)) is None,
        },
{
    value.as_str()
}

/// `serde_json::Value::String`: a value that is a text.
#[verifier::external_body]
pub(crate) fn from_text(text: &str) -> (value: serde_json::Value)
    ensures
        json_tree(value) == JsonTree::Text(text@),
{
    serde_json::Value::String(text.to_owned())
}

/// `serde_json::Value::Array`: a value that is a list.
#[verifier::external_body]
pub(crate) fn from_items(items: Vec<serde_json::Value>) -> (value: serde_json::Value)
    ensures
        json_tree(value) == JsonTree::List(
            items@.map_values(|item: serde_json::Value| json_tree(item)),
        ),
{
    serde_json::Value::Array(items)
}

/// `serde_json::Map::new`: a value that is an object without members.
#[verifier::external_body]
pub(crate) fn empty_object() -> (value: serde_json::Value)
    ensures
        json_tree(value) == JsonTree::Object(Map::empty()),
{
    serde_json::Value::Object(serde_json::Map::new())
}

/// Indexing a `serde_json::Value` that is an object by a key, to assign: the
/// member under the key is there afterwards, the others are as they were.
/// Indexing panics on a value that is neither an object nor null.
#[verifier::external_body]
pub(crate) fn set_member(value: &mut serde_json::Value, key: &str, member: serde_json::Value)
    requires
        json_tree(*old(value)) is Object,
    ensures
        json_tree(*final(value)) == JsonTree::Object(
            json_tree(*old(value))->Object_0.insert(key@, json_tree(member)),
        ),
{
    value[key] = member;
}

/// `serde_json::Value::to_string`: the text depends on what the value holds
/// alone. A value without numbers that is not nested deeply is read back from
/// its text by `serde_json::from_slice`. Nothing is said of reading back others:
/// a number may come back rounded, and nesting is read to a depth of 127 only.
#[verifier::external_body]
pub(crate) fn to_text(value: &serde_json::Value) -> (text: String)
    ensures
        text@ == json_text(json_tree(*value)),
        is_plain(json_tree(*value), 127) ==> json_document(encode_utf8(text@)) == Some(
            json_tree(*value),
        ),
{
    value.to_string()
}

} // verus!
