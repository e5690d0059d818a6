//! Reading JSON documents held as `serde_json::Value`.
//!
//! A document is opaque to the verifier; [`json_tree`] names the tree that it
//! holds, and each accessor below is stated in terms of that tree.

use vstd::prelude::*;
use serde_json::Value;

verus! {

/// `serde_json::Value`, a JSON document. Nothing inside it is visible to
/// proofs.
#[verifier::external_type_specification]
#[verifier::external_body]
pub struct ExValue(serde_json::Value);

/// The shape of a JSON document. A number is kept only as far as it is a
/// non-negative integer that fits in 64 bits; every other number reads as
/// `Number(None)`.
pub enum JsonTree {
    Null,
    Bool(bool),
    Number(Option<u64>),
    Text(Seq<char>),
    Array(Seq<JsonTree>),
    Object(Map<Seq<char>, JsonTree>),
}

impl JsonTree {
    /// The member stored under `key`, or `Null` where there is none or the
    /// tree is not an object.
    pub open spec fn member(self, key: Seq<char>) -> JsonTree {
        match self {
            JsonTree::Object(m) => if m.contains_key(key) {
                m[key]
            } else {
                JsonTree::Null
            },
            _ => JsonTree::Null,
        }
    }

    /// The element at position `i`, or `Null` where there is none or the tree
    /// is not an array.
    pub open spec fn element(self, i: int) -> JsonTree {
        match self {
            JsonTree::Array(s) => if 0 <= i < s.len() {
                s[i]
            } else {
                JsonTree::Null
            },
            _ => JsonTree::Null,
        }
    }

    /// The tree read as an unsigned integer.
    pub open spec fn as_u64(self) -> Option<u64> {
        match self {
            JsonTree::Number(n) => n,
            _ => None,
        }
    }

    /// The tree read as text.
    pub open spec fn as_text(self) -> Option<Seq<char>> {
        match self {
            JsonTree::Text(s) => Some(s),
            _ => None,
        }
    }

    /// The tree read as a list of elements.
    pub open spec fn as_items(self) -> Option<Seq<JsonTree>> {
        match self {
            JsonTree::Array(s) => Some(s),
            _ => None,
        }
    }
}

/// The tree that a document holds.
pub uninterp spec fn json_tree(v: Value) -> JsonTree;

/// The trees of a list of documents, in order.
pub open spec fn json_trees(items: Seq<Value>) -> Seq<JsonTree> {
    Seq::new(items.len(), |i: int| json_tree(items[i]))
}

/// `value[key]` of `serde_json`: the member under `key` where `value` is an
/// object that has one, and a null document in every other case. It never
/// panics.
#[verifier::external_body]
pub(crate) fn member<'a>(value: &'a Value, key: &str) -> (r: &'a Value)
    ensures
        json_tree(*r) == json_tree(*value).member(key@),
{
    &value[key]
}

/// `value[index]` of `serde_json`: the element at `index` where `value` is an
/// array that long, and a null document in every other case. It never panics.
#[verifier::external_body]
pub(crate) fn element<'a>(value: &'a Value, index: usize) -> (r: &'a Value)
    ensures
        json_tree(*r) == json_tree(*value).element(index as int),
{
    &value[index]
}

/// `Value::as_u64`: the number where the document is a non-negative integer
/// that fits in 64 bits, `None` otherwise.
#[verifier::external_body]
pub(crate) fn as_u64(value: &Value) -> (r: Option<u64>)
    ensures
        r == json_tree(*value).as_u64(),
{
    value.as_u64()
}

/// `Value::as_str`: the text where the document is a string, `None`
/// otherwise.
#[verifier::external_body]
pub(crate) fn as_text<'a>(value: &'a Value) -> (r: Option<&'a str>)
    ensures
        r is Some == json_tree(*value).as_text() is Some,
        r is Some ==> r->0@ == json_tree(*value).as_text()->0,
{
    value.as_str()
}

/// `Value::as_array`: the elements where the document is an array, `None`
/// otherwise.
#[verifier::external_body]
pub(crate) fn as_items<'a>(value: &'a Value) -> (r: Option<&'a Vec<Value>>)
    ensures
        r is Some == json_tree(*value).as_items() is Some,
        r is Some ==> json_trees(r->0@) == json_tree(*value).as_items()->0,
{
    value.as_array()
}

} // verus!
