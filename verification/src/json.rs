//! JSON objects that tool calls are answered with.

use vstd::prelude::*;

verus! {

/// `serde_json::Value`, a JSON value.
#[verifier::external_type_specification]
#[verifier::external_body]
pub struct ExJsonValue(serde_json::Value);

/// What stands under a key of a JSON object.
pub enum JsonField {
    Flag(bool),
    Text(Seq<char>),
    /// Anything else.
    Other,
}

/// The entries of a JSON object by key; nothing for a value that is no object.
pub uninterp spec fn object_fields(value: serde_json::Value) -> Option<Map<Seq<char>, JsonField>>;

/// Makes `serde_json::Value::Object` of an empty `serde_json::Map`: an object without entries.
#[verifier::external_body]
pub(crate) fn empty_object() -> (value: serde_json::Value)
    ensures
        object_fields(value) == Some(Map::<Seq<char>, JsonField>::empty()),
{
    serde_json::Value::Object(serde_json::Map::new())
}

/// Assigns through `serde_json::Value`'s `IndexMut`, which panics unless the value is an object
/// or null: the entry `key` is then the boolean `flag`, and the others are as they were.
#[verifier::external_body]
pub(crate) fn set_flag(value: &mut serde_json::Value, key: &str, flag: bool)
    requires
        object_fields(*old(value)) is Some,
    ensures
        object_fields(*final(value)) == Some(
            object_fields(*old(value))->0.insert(key@, JsonField::Flag(flag)),
        ),
{
    value[key] = serde_json::Value::Bool(flag);
}

/// Assigns through `serde_json::Value`'s `IndexMut`, which panics unless the value is an object
/// or null: the entry `key` is then the string `text`, and the others are as they were.
#[verifier::external_body]
pub(crate) fn set_text(value: &mut serde_json::Value, key: &str, text: &str)
    requires
        object_fields(*old(value)) is Some,
    ensures
        object_fields(*final(value)) == Some(
            object_fields(*old(value))->0.insert(key@, JsonField::Text(text@)),
        ),
{
    value[key] = serde_json::Value::String(text.to_string());
}

} // verus!
