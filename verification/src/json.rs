//! The JSON values that travel in frames, and the calls into `serde_json`
//! that the transport makes on them.
//!
//! Nothing in this module is proved: each function states what the
//! corresponding `serde_json` function does, and the rest of the crate is
//! verified against those statements.

use vstd::prelude::*;

verus! {

/// `serde_json::Value`, carried through as it is: the verifier sees nothing
/// of what a value holds.
#[verifier::external_type_specification]
#[verifier::external_body]
pub struct ExValue(serde_json::Value);

/// `serde_json::Error`, carried through as it is.
#[verifier::external_type_specification]
#[verifier::external_body]
pub struct ExJsonError(serde_json::Error);

/// The compact JSON text of a value, as UTF-8 bytes: what
/// `serde_json::to_vec` returns for it, or `None` where it fails.
pub uninterp spec fn json_text(value: serde_json::Value) -> Option<Seq<u8>>;

/// The value that a JSON text denotes: what `serde_json::from_slice` returns
/// for these bytes, or `None` where it rejects them.
pub uninterp spec fn json_value(text: Seq<u8>) -> Option<serde_json::Value>;

/// Calls `serde_json::to_vec`. The bytes returned are the value's JSON text,
/// the same for the same value; an error is returned exactly where the value
/// has none.
#[verifier::external_body]
pub(crate) fn to_json_bytes(value: &serde_json::Value) -> (r: Result<Vec<u8>, serde_json::Error>)
    ensures
        match r {
            Ok(bytes) => json_text(*value) == Some(bytes@),
            Err(_) => json_text(*value) is None,
        },
{
    serde_json::to_vec(value)
}

/// Calls `serde_json::from_slice` at type `Value`. The value returned is the
/// one the text denotes; an error is returned exactly where the bytes are not
/// one JSON text.
#[verifier::external_body]
pub(crate) fn from_json_bytes(text: &[u8]) -> (r: Result<serde_json::Value, serde_json::Error>)
    ensures
        match r {
            Ok(value) => json_value(text@) == Some(value),
            Err(_) => json_value(text@) is None,
        },
{
    serde_json::from_slice(text)
}

/// The member of an object under a name: what `Value::get` returns for a
/// string index. `None` where the value is no object, or has no such member.
pub uninterp spec fn json_member(value: serde_json::Value, name: Seq<char>) -> Option<
    serde_json::Value,
>;

/// The number that a value holds, where it is an integer that fits a `u64`:
/// what `Value::as_u64` returns.
pub uninterp spec fn json_as_u64(value: serde_json::Value) -> Option<u64>;

/// Calls `Value::get` with a string index, and so looks a member up by its
/// name.
#[verifier::external_body]
pub(crate) fn member<'a>(value: &'a serde_json::Value, name: &str) -> (r: Option<
    &'a serde_json::Value,
>)
    ensures
        match r {
            Some(found) => json_member(*value, name@) == Some(*found),
            None => json_member(*value, name@) is None,
        },
{
    value.get(name)
}

/// Calls `Value::as_u64`.
#[verifier::external_body]
pub(crate) fn as_u64(value: &serde_json::Value) -> (r: Option<u64>)
    ensures
        r == json_as_u64(*value),
{
    value.as_u64()
}

} // verus!
