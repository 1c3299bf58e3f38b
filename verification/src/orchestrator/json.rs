//! What tools answer in JSON, read member by member.

use vstd::prelude::*;

use crate::text::pieces;

verus! {

/// The member `key` of the object that `text` spells in JSON: `None` where `text` is not JSON, is
/// no object or has no such member, `Some(None)` where the member is not a string.
pub uninterp spec fn json_text(text: Seq<char>, key: Seq<char>) -> Option<Option<Seq<char>>>;

/// The member `key` of the object that `text` spells in JSON: `None` where `text` is not JSON, is
/// no object or has no such member, `Some(None)` where the member is not a number that fits in
/// `u64`.
pub uninterp spec fn json_unsigned(text: Seq<char>, key: Seq<char>) -> Option<Option<u64>>;

/// How many items the array has that `text` spells in JSON, `None` where `text` is not JSON or no
/// array.
pub uninterp spec fn json_length(text: Seq<char>) -> Option<usize>;

/// Calls `serde_json::from_str` into a `Value`, then `Value::get` and `Value::as_str`. Trusted:
/// the result depends on the text and the key alone.
#[verifier::external_body]
pub(crate) fn member_text(text: &str, key: &str) -> (r: Option<Option<String>>)
    ensures
        match r {
            Some(m) => json_text(text@, key@) == Some(pieces::text_in(m)),
            None => json_text(text@, key@) is None,
        },
{
    let value = match serde_json::from_str::<serde_json::Value>(text) {
        Ok(value) => value,
        Err(_) => return None,
    };
    match value.get(key) {
        Some(member) => Some(member.as_str().map(str::to_string)),
        None => None,
    }
}

/// Calls `serde_json::from_str` into a `Value`, then `Value::get` and `Value::as_u64`. Trusted:
/// the result depends on the text and the key alone.
#[verifier::external_body]
pub(crate) fn member_unsigned(text: &str, key: &str) -> (r: Option<Option<u64>>)
    ensures
        r == json_unsigned(text@, key@),
{
    let value = match serde_json::from_str::<serde_json::Value>(text) {
        Ok(value) => value,
        Err(_) => return None,
    };
    match value.get(key) {
        Some(member) => Some(member.as_u64()),
        None => None,
    }
}

/// Calls `serde_json::from_str` into a `Value`, then `Value::as_array`. Trusted: the result
/// depends on the text alone.
#[verifier::external_body]
pub(crate) fn array_length(text: &str) -> (r: Option<usize>)
    ensures
        r == json_length(text@),
{
    let value = match serde_json::from_str::<serde_json::Value>(text) {
        Ok(value) => value,
        Err(_) => return None,
    };
    match value.as_array() {
        Some(items) => Some(items.len()),
        None => None,
    }
}

} // verus!
