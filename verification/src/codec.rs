//! The two outside services that the protocol logic calls: the base64 text
//! form of ciphertext, and random identities for new connections.

use vstd::prelude::*;

verus! {

/// The standard base64 text (RFC 4648 alphabet, padded) of a sequence of
/// bytes.
pub uninterp spec fn base64_text(bytes: Seq<u8>) -> Seq<char>;

/// The bytes that a standard base64 text stands for, or `None` where the text
/// is not canonical padded base64.
pub uninterp spec fn base64_bytes(text: Seq<char>) -> Option<Seq<u8>>;

#[verifier::external_type_specification]
#[verifier::external_body]
pub struct ExDecodeError(base64::DecodeError);

/// Calls `base64::Engine::encode` on the `STANDARD` engine. Trusted: the text
/// that comes back is a function of the bytes alone, here named
/// `base64_text`. The call panics only where the text's length would not fit
/// in `usize`, which takes more bytes than a vector can hold.
#[verifier::external_body]
pub(crate) fn encode_standard(bytes: &Vec<u8>) -> (text: String)
    ensures
        text@ == base64_text(bytes@),
{
    base64::Engine::encode(&base64::engine::general_purpose::STANDARD, bytes)
}

/// Calls `base64::Engine::decode` on the `STANDARD` engine. Trusted: whether
/// the call succeeds, and the bytes that it then returns, are a function of
/// the text alone, here named `base64_bytes`.
#[verifier::external_body]
pub(crate) fn decode_standard(text: &String) -> (decoded: Result<Vec<u8>, base64::DecodeError>)
    ensures
        match decoded {
            Ok(bytes) => base64_bytes(text@) == Some(bytes@),
            Err(_) => base64_bytes(text@) is None,
        },
{
    base64::Engine::decode(&base64::engine::general_purpose::STANDARD, text)
}

/// Calls `uuid::Uuid::new_v4` and writes the identifier out in its hyphenated
/// form. The identifier is random: nothing is claimed of it.
#[verifier::external_body]
pub(crate) fn random_identity() -> (identity: String) {
    uuid::Uuid::new_v4().to_string()
}

} // verus!
