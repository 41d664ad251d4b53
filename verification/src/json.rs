//! The payload type: a JSON value of `serde_json`, carried through unread.

use vstd::prelude::*;

verus! {

/// `serde_json::Value`, declared without its variants: the store moves and
/// copies payloads and never looks inside one, so nothing is claimed of what
/// a value holds.
#[verifier::external_type_specification]
#[verifier::external_body]
pub struct ExJsonValue(serde_json::Value);

/// What `serde_json::Value::is_null` returns for a value: whether it is the
/// JSON null.
pub uninterp spec fn json_is_null(v: serde_json::Value) -> bool;

/// Trusted: `Clone::clone` of `serde_json::Value`, which the crate derives.
/// The contract claims that the copy is the same JSON value as the one
/// copied.
pub assume_specification[ <serde_json::Value as Clone>::clone ](v: &serde_json::Value) -> (r:
    serde_json::Value)
    ensures
        r == *v,
;

/// The JSON null, which marks a deleted key.
///
/// Trusted: the body builds `serde_json::Value::Null`. The contract claims
/// that `Value::is_null` answers true for it, as that function's source
/// shows: it tests for this variant.
#[verifier::external_body]
pub(crate) fn null_value() -> (v: serde_json::Value)
    ensures
        json_is_null(v),
{
    serde_json::Value::Null
}

/// Trusted: the body calls `serde_json::Value::is_null`, and the contract
/// gives its answer the name `json_is_null`.
#[verifier::external_body]
pub(crate) fn value_is_null(v: &serde_json::Value) -> (b: bool)
    ensures
        b == json_is_null(*v),
{
    v.is_null()
}

} // verus!
