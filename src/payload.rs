//! Encoding of the payload that resumes a suspension.
use vstd::prelude::*;

verus! {

/// The JSON text of a string with characters `s`.
pub uninterp spec fn json_text(s: Seq<char>) -> Seq<u8>;

/// Relies on serde_json::to_vec: a `String` serialises, without fail, to the
/// JSON string literal of its characters, which depends on them alone.
#[verifier::external_body]
pub(crate) fn encode_text(s: &String) -> (r: Vec<u8>)
    ensures
        r@ == json_text(s@),
{
    serde_json::to_vec(s).unwrap()
}

} // verus!
