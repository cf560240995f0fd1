//! The structured-data format of user payloads: JSON text, parsed by serde_json.

use vstd::prelude::*;

verus! {

/// A parsed JSON document, carried through the library untouched.
#[verifier::external_type_specification]
#[verifier::external_body]
pub struct ExJsonValue(serde_json::Value);

/// Why a JSON text was rejected.
#[verifier::external_type_specification]
#[verifier::external_body]
pub struct ExJsonError(serde_json::Error);

/// Whether serde_json accepts the text as one complete JSON document.
pub uninterp spec fn json_accepts(text: Seq<char>) -> bool;

/// Relies on `serde_json::from_str::<serde_json::Value>`: parsing depends on the
/// text alone, and succeeds exactly on the texts it accepts.
#[verifier::external_body]
pub(crate) fn parse_json(text: &str) -> (r: Result<serde_json::Value, serde_json::Error>)
    ensures
        r is Ok <==> json_accepts(text@),
{
    serde_json::from_str::<serde_json::Value>(text)
}

} // verus!
