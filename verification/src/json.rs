//! The archive's metadata, a JSON text.

use vstd::prelude::*;
use crate::text::same_text;

verus! {

/// A parsed JSON value.
#[verifier::external_type_specification]
#[verifier::external_body]
pub struct ExValue(serde_json::Value);

/// Why a text is not JSON.
#[verifier::external_type_specification]
#[verifier::external_body]
pub struct ExError(serde_json::Error);

/// What `serde_json::from_str` makes of a text: nothing where it gives an error,
/// else the members of the object it reads, each written out. A text that holds
/// anything but an object has no members.
pub uninterp spec fn json_object(text: Seq<char>) -> Option<Map<Seq<char>, Seq<char>>>;

/// The members of a parsed value, each written out.
pub uninterp spec fn json_members(value: serde_json::Value) -> Map<Seq<char>, Seq<char>>;

/// Calls `serde_json::from_str`: whether it succeeds, and which members the value
/// has, depends on the text alone. Which texts it accepts is not said here.
#[verifier::external_body]
fn parse_json(text: &str) -> (r: Result<serde_json::Value, serde_json::Error>)
    ensures
        r is Ok <==> json_object(text@) is Some,
        r matches Ok(v) ==> json_members(v) == json_object(text@)->0,
{
    serde_json::from_str::<serde_json::Value>(text)
}

/// Calls `serde_json::Value::get` with a string: the member of that name, written
/// out, or nothing where the value is no object or lacks it.
#[verifier::external_body]
fn member(value: &serde_json::Value, key: &str) -> (r: Option<String>)
    ensures
        r is Some <==> json_members(*value).contains_key(key@),
        r matches Some(t) ==> t@ == json_members(*value)[key@],
{
    match value.get(key) {
        Some(m) => Some(m.to_string()),
        None => None,
    }
}

/// A member that is there and not null.
pub open spec fn present(member: Option<Seq<char>>) -> Option<Seq<char>> {
    match member {
        Some(t) => if t == "null"@ {
            None
        } else {
            Some(t)
        },
        None => None,
    }
}

/// The model configuration in an archive's metadata.
pub open spec fn config_member(object: Option<Map<Seq<char>, Seq<char>>>) -> Option<Seq<char>> {
    match object {
        Some(m) => if m.contains_key("model_config"@) {
            present(Some(m["model_config"@]))
        } else {
            None
        },
        None => None,
    }
}

/// Drops a null member.
pub fn non_null(member: Option<String>) -> (r: Option<String>)
    ensures
        r is Some <==> member is Some && member->0@ != "null"@,
        r matches Some(t) ==> t@ == member->0@,
{
    match member {
        Some(t) => {
            if same_text(t.as_str(), "null") {
                None
            } else {
                Some(t)
            }
        },
        None => None,
    }
}

/// The model configuration embedded in an archive's metadata: none where the
/// metadata cannot be parsed, has no `model_config` or a null one.
pub fn embedded_config(metadata: &str) -> (r: Option<String>)
    ensures
        r is Some <==> config_member(json_object(metadata@)) is Some,
        r matches Some(t) ==> t@ == config_member(json_object(metadata@))->0,
{
    match parse_json(metadata) {
        Ok(value) => non_null(member(&value, "model_config")),
        Err(_) => None,
    }
}

} // verus!
