//! Base64 in its standard alphabet, as the `base64` crate codes it.

use base64::engine::general_purpose::STANDARD;
use base64::Engine;

use vstd::prelude::*;

verus! {

/// Why a text is not base64.
#[verifier::external_type_specification]
#[verifier::external_body]
pub struct ExDecodeError(base64::DecodeError);

/// The bytes that a base64 text stands for; `None` where it is malformed.
pub uninterp spec fn base64_bytes(text: Seq<char>) -> Option<Seq<u8>>;

/// The standard base64 text of some bytes.
pub uninterp spec fn base64_text(bytes: Seq<u8>) -> Seq<char>;

/// `base64::engine::general_purpose::STANDARD.decode`: the bytes, or an error where the text is
/// malformed. Both are functions of the text; which texts are well-formed is left to the crate.
#[verifier::external_body]
pub(crate) fn decode_base64(text: &str) -> (r: Result<Vec<u8>, base64::DecodeError>)
    ensures
        match r {
            Ok(b) => base64_bytes(text@) == Some(b@),
            Err(_) => base64_bytes(text@) is None,
        },
{
    STANDARD.decode(text)
}

/// `base64::engine::general_purpose::STANDARD.encode`: the text of some bytes, a function of
/// them. Its length has to be countable, or the call panics.
#[verifier::external_body]
pub(crate) fn encode_base64(bytes: &[u8]) -> (r: String)
    requires
        bytes@.len() <= usize::MAX / 4,
    ensures
        r@ == base64_text(bytes@),
{
    STANDARD.encode(bytes)
}

} // verus!
