//! JSON values carried through the library as they come, unread.
use vstd::prelude::*;

verus! {

/// `serde_json::Value`, carried opaquely: the library never looks inside one.
#[verifier::external_type_specification]
#[verifier::external_body]
pub struct ExJsonValue(serde_json::Value);

/// Calls `<serde_json::Value as Clone>::clone`.
///
/// Claimed: the copy equals the value copied. `serde_json::Value` derives `Clone`
/// over its variants, so the copy holds the same data.
#[verifier::external_body]
pub(crate) fn json_clone(v: &serde_json::Value) -> (r: serde_json::Value)
    ensures
        r == *v,
{
    v.clone()
}

} // verus!
