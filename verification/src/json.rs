//! JSON documents.
//!
//! Documents are held and read by `serde_json`. The verified code speaks of
//! what a document says, [`JsonView`], and reaches a document only through the
//! functions below.
use serde_json::Value;
use vstd::prelude::*;

verus! {

/// What a JSON document says. The order of an object's members says nothing.
pub enum JsonView {
    Null,
    Bool(bool),
    /// A number, by its JSON text.
    Number(Seq<char>),
    Str(Seq<char>),
    Array(Seq<JsonView>),
    Object(Map<Seq<char>, JsonView>),
}

impl JsonView {
    /// The member of an object under `key`, if this is an object that has one.
    pub open spec fn member(self, key: Seq<char>) -> Option<JsonView> {
        match self {
            JsonView::Object(members) => if members.contains_key(key) {
                Some(members[key])
            } else {
                None
            },
            _ => None,
        }
    }

    /// The characters of a JSON string.
    pub open spec fn as_text(self) -> Option<Seq<char>> {
        match self {
            JsonView::Str(text) => Some(text),
            _ => None,
        }
    }

    /// The value of a JSON boolean.
    pub open spec fn as_truth(self) -> Option<bool> {
        match self {
            JsonView::Bool(truth) => Some(truth),
            _ => None,
        }
    }

    /// The characters of the string under `key`, if there is one.
    pub open spec fn text_member(self, key: Seq<char>) -> Option<Seq<char>> {
        match self.member(key) {
            Some(value) => value.as_text(),
            None => None,
        }
    }

    /// The boolean under `key`, if there is one.
    pub open spec fn truth_member(self, key: Seq<char>) -> Option<bool> {
        match self.member(key) {
            Some(value) => value.as_truth(),
            None => None,
        }
    }
}

/// The object without members.
pub open spec fn json_empty_object() -> JsonView {
    JsonView::Object(Map::empty())
}

/// What each of several documents says.
pub open spec fn json_views(values: Seq<Value>) -> Seq<JsonView> {
    Seq::new(values.len(), |i: int| json_view(values[i]))
}

/// What an optional document says.
pub open spec fn opt_json_view(value: Option<Value>) -> Option<JsonView> {
    match value {
        Some(v) => Some(json_view(v)),
        None => None,
    }
}

/// What a document that may be missing says, by reference.
pub open spec fn opt_json_ref_view(value: Option<&Value>) -> Option<JsonView> {
    match value {
        Some(v) => Some(json_view(*v)),
        None => None,
    }
}

/// `serde_json::Value`, the document itself.
#[verifier::external_type_specification]
#[verifier::external_body]
pub struct ExValue(serde_json::Value);

/// What a `serde_json::Value` holds.
pub uninterp spec fn json_view(value: serde_json::Value) -> JsonView;

/// What `serde_json::from_str` makes of a text: the document that it reads, or
/// nothing where it refuses the text.
pub uninterp spec fn json_parse(text: Seq<char>) -> Option<JsonView>;

/// Calls `serde_json::from_str` for a document of any shape. The outcome
/// depends on the characters of the text alone.
#[verifier::external_body]
pub(crate) fn parse_json(text: &str) -> (r: Option<Value>)
    ensures
        opt_json_view(r) == json_parse(text@),
{
    serde_json::from_str(text).ok()
}

/// A clone of a document says what the document says.
pub assume_specification[ <serde_json::Value as Clone>::clone ](
    value: &serde_json::Value,
) -> (r: serde_json::Value)
    ensures
        json_view(r) == json_view(*value),
;

/// `Value::as_str` gives the characters of a string, and nothing for anything else.
pub assume_specification[ serde_json::Value::as_str ](value: &serde_json::Value) -> (r: Option<
    &str,
>)
    ensures
        match r {
            Some(text) => json_view(*value).as_text() == Some(text@),
            None => json_view(*value).as_text() is None,
        },
;

/// `Value::as_bool` gives the value of a boolean, and nothing for anything else.
pub assume_specification[ serde_json::Value::as_bool ](value: &serde_json::Value) -> (r: Option<
    bool,
>)
    ensures
        r == json_view(*value).as_truth(),
;

/// `Value::is_object` tells objects from everything else.
pub assume_specification[ serde_json::Value::is_object ](value: &serde_json::Value) -> (r: bool)
    ensures
        r == (json_view(*value) is Object),
;

/// Builds the variant `Value::Null`.
#[verifier::external_body]
pub(crate) fn null_value() -> (r: Value)
    ensures
        json_view(r) == JsonView::Null,
{
    Value::Null
}

/// Builds the variant `Value::String`, which holds the characters it is given.
#[verifier::external_body]
pub(crate) fn string_value(text: String) -> (r: Value)
    ensures
        json_view(r) == JsonView::Str(text@),
{
    Value::String(text)
}

/// Builds the variant `Value::Object` around `serde_json::Map::new`, a map
/// without members.
#[verifier::external_body]
pub(crate) fn empty_object() -> (r: Value)
    ensures
        json_view(r) == json_empty_object(),
{
    Value::Object(serde_json::Map::new())
}

/// Calls `Value::get` with a string: the member of an object under that key,
/// and nothing where there is none or the document is no object.
#[verifier::external_body]
pub(crate) fn member<'a>(value: &'a Value, key: &str) -> (r: Option<&'a Value>)
    ensures
        opt_json_ref_view(r) == json_view(*value).member(key@),
{
    value.get(key)
}

/// Calls `serde_json::Map::insert` on the members of an object: the key then
/// has the new value, whatever it had before, and no other key changes.
#[verifier::external_body]
pub(crate) fn insert_member(value: &mut Value, key: &str, new: Value)
    requires
        json_view(*old(value)) is Object,
    ensures
        json_view(*final(value)) == JsonView::Object(
            json_view(*old(value))->Object_0.insert(key@, json_view(new)),
        ),
{
    if let Value::Object(members) = value {
        members.insert(key.to_string(), new);
    }
}

/// Calls `serde_json::Map::remove` on the members of an object: the key is then
/// gone, and no other key changes.
#[verifier::external_body]
pub(crate) fn remove_member(value: &mut Value, key: &str)
    requires
        json_view(*old(value)) is Object,
    ensures
        json_view(*final(value)) == JsonView::Object(
            json_view(*old(value))->Object_0.remove(key@),
        ),
{
    if let Value::Object(members) = value {
        members.remove(key);
    }
}

/// The characters of the string under `key`, if there is one.
pub fn text_member<'a>(value: &'a Value, key: &str) -> (r: Option<&'a str>)
    ensures
        match r {
            Some(text) => json_view(*value).text_member(key@) == Some(text@),
            None => json_view(*value).text_member(key@) is None,
        },
{
    match member(value, key) {
        Some(found) => found.as_str(),
        None => None,
    }
}

/// The boolean under `key`, if there is one.
pub fn truth_member(value: &Value, key: &str) -> (r: Option<bool>)
    ensures
        r == json_view(*value).truth_member(key@),
{
    match member(value, key) {
        Some(found) => found.as_bool(),
        None => None,
    }
}

/// Whether the document is an object with a member under `key`.
pub fn has_member(value: &Value, key: &str) -> (r: bool)
    ensures
        r == (json_view(*value).member(key@) is Some),
{
    member(value, key).is_some()
}

} // verus!
