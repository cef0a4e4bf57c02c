//! Base64 in the standard alphabet with padding, as the `base64` crate does it.

use base64::Engine;
use vstd::prelude::*;

verus! {

/// The text that `base64::engine::general_purpose::STANDARD.encode` makes of `data`.
pub uninterp spec fn encoded(data: Seq<u8>) -> Seq<char>;

/// What `base64::engine::general_purpose::STANDARD.decode` makes of `text`: the bytes, or the
/// words in which the crate describes the error.
pub uninterp spec fn decoded(text: Seq<char>) -> Result<Seq<u8>, Seq<char>>;

/// Calls `base64::engine::general_purpose::STANDARD.encode`. The claims: the text depends on the
/// bytes alone, has four characters for every three bytes begun, and decodes to the bytes. The
/// bound keeps the length of the text inside what a vector can hold.
#[verifier::external_body]
pub(crate) fn encode(data: &[u8]) -> (text: String)
    requires
        data@.len() <= usize::MAX / 8,
    ensures
        text@ == encoded(data@),
        text@.len() == 4 * ((data@.len() + 2) / 3),
        decoded(text@) is Ok && decoded(text@)->Ok_0 == data@,
{
    base64::engine::general_purpose::STANDARD.encode(data)
}

/// Calls `base64::engine::general_purpose::STANDARD.decode` and turns its error into the text
/// that its `Display` gives. The claim: bytes and error text depend on the input alone.
#[verifier::external_body]
pub(crate) fn decode(text: &str) -> (bytes: Result<Vec<u8>, String>)
    ensures
        match bytes {
            Ok(bytes) => decoded(text@) is Ok && decoded(text@)->Ok_0 == bytes@,
            Err(error) => decoded(text@) is Err && decoded(text@)->Err_0 == error@,
        },
{
    base64::engine::general_purpose::STANDARD.decode(text).map_err(|error| format!("{error}"))
}

} // verus!
