//! JSON documents: the tree that a `serde_json::Value` holds, and the calls
//! into `serde_json` that read and write it.

use serde_json::Value;
use vstd::prelude::*;

verus! {

/// A JSON value as plain data. A number is kept as the text that it prints as.
pub enum JsonTree {
    Null,
    Bool(bool),
    Number(Seq<char>),
    Text(Seq<char>),
    Array(Seq<JsonTree>),
    Object(Map<Seq<char>, JsonTree>),
}

impl JsonTree {
    /// The member of an object under `key`; nothing for any other value.
    pub open spec fn member(self, key: Seq<char>) -> Option<JsonTree> {
        match self {
            JsonTree::Object(members) => if members.contains_key(key) {
                Some(members[key])
            } else {
                None
            },
            _ => None,
        }
    }

    /// The elements of an array; nothing for any other value.
    pub open spec fn elements(self) -> Option<Seq<JsonTree>> {
        match self {
            JsonTree::Array(items) => Some(items),
            _ => None,
        }
    }

    /// A tree that the text it prints as reads back as: arrays and objects are
    /// nested at most `depth` deep, every number is an integer, and no object has
    /// the key that `serde_json` keeps for raw values.
    pub open spec fn is_rereadable(self, depth: nat) -> bool
        decreases self,
    {
        match self {
            JsonTree::Number(text) => forall|i: int|
                0 <= i < text.len() ==> #[trigger] text[i] == '-' || '0' <= text[i] <= '9',
            JsonTree::Array(items) => depth > 0 && forall|i: int|
                0 <= i < items.len() ==> (#[trigger] items[i]).is_rereadable((depth - 1) as nat),
            JsonTree::Object(members) => depth > 0 && forall|key: Seq<char>| #[trigger]
                members.contains_key(key) ==> key != raw_value_key()
                    && members[key].is_rereadable((depth - 1) as nat),
            _ => true,
        }
    }
}

/// The key that `serde_json` keeps for raw values. Where its feature `raw_value`
/// is on, as the engine asks, an object that starts with this key is not read as
/// an object: the text under the key is read in its place.
pub open spec fn raw_value_key() -> Seq<char> {
    "$serde_json::private::RawValue"@
}

/// A JSON value of `serde_json`.
#[verifier::external_type_specification]
#[verifier::external_body]
pub struct ExValue(Value);

/// An error of `serde_json`.
#[verifier::external_type_specification]
#[verifier::external_body]
pub struct ExError(serde_json::Error);

/// What a `serde_json::Value` holds.
pub uninterp spec fn json_tree(value: Value) -> JsonTree;

/// What `serde_json::from_str` reads a text as: nothing where it is not one
/// JSON document.
pub uninterp spec fn json_document(text: Seq<char>) -> Option<JsonTree>;

/// The text that `serde_json::to_string` prints a value as: without spaces, the
/// members of an object in the order of their keys.
pub uninterp spec fn json_text(tree: JsonTree) -> Seq<char>;

/// The trees of a list of values.
pub open spec fn json_trees(values: Seq<Value>) -> Seq<JsonTree> {
    values.map_values(|value: Value| json_tree(value))
}

/// Texts one after the other, with a comma between any two.
pub open spec fn comma_joined(texts: Seq<Seq<char>>) -> Seq<char>
    decreases texts.len(),
{
    if texts.len() == 0 {
        Seq::empty()
    } else if texts.len() == 1 {
        texts[0]
    } else {
        comma_joined(texts.drop_last()) + ","@ + texts.last()
    }
}

/// The object whose only member is an array.
pub open spec fn array_under(key: Seq<char>, items: Seq<JsonTree>) -> JsonTree {
    JsonTree::Object(map![key => JsonTree::Array(items)])
}

/// How such an object prints, the key being one that prints as it is.
pub open spec fn array_under_text(key: Seq<char>, items: Seq<JsonTree>) -> Seq<char> {
    "{\""@ + key + "\":["@ + comma_joined(items.map_values(|item: JsonTree| json_text(item)))
        + "]}"@
}

/// A text that prints as it is between quotes: it holds no quote, no backslash
/// and no control character below the space.
pub open spec fn needs_no_escape(text: Seq<char>) -> bool {
    forall|i: int|
        0 <= i < text.len() ==> #[trigger] text[i] != '"' && text[i] != '\\' && text[i] >= ' '
}

/// Calls `serde_json::from_str`, reading a `Value`.
///
/// Claimed: whether it succeeds, and the tree that it then gives, depend on the
/// text alone.
#[verifier::external_body]
pub(crate) fn parse_json(text: &str) -> (parsed: Result<Value, serde_json::Error>)
    ensures
        match parsed {
            Ok(value) => json_document(text@) == Some(json_tree(value)),
            Err(_) => json_document(text@) is None,
        },
{
    serde_json::from_str::<Value>(text)
}

/// Calls `Value::get` with a string index.
///
/// Claimed: it gives the member of an object under that key, and nothing where
/// there is none or the value is not an object.
#[verifier::external_body]
pub(crate) fn get_member<'a>(value: &'a Value, key: &str) -> (member: Option<&'a Value>)
    ensures
        match member {
            Some(found) => json_tree(*value).member(key@) == Some(json_tree(*found)),
            None => json_tree(*value).member(key@) is None,
        },
{
    value.get(key)
}

/// `Value::as_array`: the elements of an array in their order, and nothing for
/// any other value.
pub assume_specification[ Value::as_array ](value: &Value) -> (items: Option<&Vec<Value>>)
    ensures
        match items {
            Some(found) => json_tree(*value).elements() == Some(json_trees(found@)),
            None => json_tree(*value).elements() is None,
        },
;

/// Calls `Value::from` on a list of values.
///
/// Claimed: it gives the array of those values, in their order.
#[verifier::external_body]
pub(crate) fn array_of(items: Vec<Value>) -> (value: Value)
    ensures
        json_tree(value) == JsonTree::Array(json_trees(items@)),
{
    Value::from(items)
}

/// Calls `Value::from_iter` on one pair of a key and a value.
///
/// Claimed: it gives the object whose only member is that one.
#[verifier::external_body]
pub(crate) fn object_of(key: &str, member: Value) -> (value: Value)
    ensures
        json_tree(value) == JsonTree::Object(map![key@ => json_tree(member)]),
{
    Value::from_iter([(key, member)])
}

/// Calls `serde_json::to_string` on a value.
///
/// Claimed: it succeeds, since a `Value` holds string keys and finite numbers
/// only; the text depends on the tree alone; an object whose only member is an
/// array prints as the key between quotes and the texts of the items between
/// commas, without spaces, where the key needs no escape; and
/// `serde_json::from_str` reads
/// the text back as the value it was written from, where the numbers are
/// integers, the nesting stays within the depth that the parser accepts, and no
/// object has the key that is kept for raw values. A number with a fraction may
/// come back rounded, and an object with that key as something else or not at
/// all, so nothing is claimed of them.
#[verifier::external_body]
pub(crate) fn print_json(value: &Value) -> (printed: Result<String, serde_json::Error>)
    ensures
        printed is Ok,
        printed matches Ok(text) ==> text@ == json_text(json_tree(*value)),
        printed matches Ok(text) ==> forall|key: Seq<char>, items: Seq<JsonTree>|
            json_tree(*value) == #[trigger] array_under(key, items) && needs_no_escape(key)
                ==> text@ == array_under_text(key, items),
        printed matches Ok(text) ==> (json_tree(*value).is_rereadable(127) ==> json_document(text@)
            == Some(json_tree(*value))),
{
    serde_json::to_string(value)
}

} // verus!
