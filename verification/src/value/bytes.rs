//! Bytes as text. The format has no variant for bytes: they travel as the
//! base64 text of a string.

use vstd::prelude::*;
use vstd::string::StringSliceAdditionalSpecFns;

verus! {

/// The error of `base64::decode`. Nothing is read from it.
#[verifier::external_type_specification]
#[verifier::external_body]
pub struct ExDecodeError(base64::DecodeError);

/// The standard base64 text of `bytes`, with padding, as `base64::encode`
/// gives it.
pub uninterp spec fn base64_text(bytes: Seq<u8>) -> Seq<char>;

/// The bytes that `text` is the standard base64 text of, as
/// `base64::decode` gives them, or `None` where it refuses the text.
pub uninterp spec fn base64_bytes(text: Seq<char>) -> Option<Seq<u8>>;

/// Calls `base64::encode`. The result is a function of the bytes alone,
/// and `base64::decode` gives the bytes back from it. The call panics
/// where the length of the text would not fit the machine's integers:
/// such inputs are left out.
#[verifier::external_body]
pub(crate) fn encode_base64(bytes: &[u8]) -> (r: String)
    requires
        bytes@.len() / 3 * 4 + 4 <= usize::MAX,
    ensures
        r@ == base64_text(bytes@),
        base64_bytes(r@) == Some(bytes@),
{
    base64::encode(bytes)
}

/// Calls `base64::decode`. Whether it takes the text, and the bytes it
/// gives, are functions of the text alone. The call panics where the
/// length of the text in bytes, rounded up, would not fit the machine's
/// integers: such inputs are left out.
#[verifier::external_body]
pub(crate) fn decode_base64(text: &str) -> (r: Result<Vec<u8>, base64::DecodeError>)
    requires
        text.spec_bytes().len() + 7 <= usize::MAX,
    ensures
        match r {
            Ok(bytes) => base64_bytes(text@) == Some(bytes@),
            Err(_) => base64_bytes(text@) is None,
        },
{
    base64::decode(text)
}

/// Whether the base64 text of `n` bytes can be built on this machine.
pub open spec fn encodable_len(n: nat) -> bool {
    n / 3 * 4 + 4 <= usize::MAX
}

/// Whether a text of `n` bytes can be handed to the decoder on this
/// machine.
pub open spec fn decodable_len(n: nat) -> bool {
    n + 7 <= usize::MAX
}

/// The base64 text of `bytes`, or `None` where it cannot be built on this
/// machine.
pub fn bytes_to_text(bytes: &[u8]) -> (r: Option<String>)
    ensures
        match r {
            Some(text) => encodable_len(bytes@.len()) && text@ == base64_text(bytes@)
                && base64_bytes(text@) == Some(bytes@),
            None => !encodable_len(bytes@.len()),
        },
{
    let n = bytes.len();
    if n / 3 <= (usize::MAX - 4) / 4 {
        Some(encode_base64(bytes))
    } else {
        None
    }
}

/// What [`text_to_bytes`] answers, given what the decoder said.
pub open spec fn decoded_bytes(text: Seq<char>) -> Option<Seq<u8>> {
    if decodable_len(vstd::utf8::encode_utf8(text).len()) {
        base64_bytes(text)
    } else {
        None
    }
}

/// The bytes that `text` is the base64 text of, or `None` where it is
/// none, or cannot be handed to the decoder on this machine.
pub fn text_to_bytes(text: &str) -> (r: Option<Vec<u8>>)
    ensures
        match r {
            Some(bytes) => decoded_bytes(text@) == Some(bytes@),
            None => decoded_bytes(text@) is None,
        },
{
    let n = text.as_bytes().len();
    if n <= usize::MAX - 7 {
        match decode_base64(text) {
            Ok(bytes) => Some(bytes),
            Err(_) => None,
        }
    } else {
        None
    }
}

} // verus!
