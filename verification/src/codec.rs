//! Base64, in which a chunk carries its bytes.

use vstd::prelude::*;

verus! {

/// The text that `base64::encode` gives for `bytes`.
pub uninterp spec fn base64_text(bytes: Seq<u8>) -> Seq<char>;

/// The bytes that `base64::decode` gives for `text`; `None` where it rejects the text.
pub uninterp spec fn base64_bytes(text: Seq<char>) -> Option<Seq<u8>>;

/// The view of optional bytes.
pub open spec fn optional_bytes(bytes: Option<Vec<u8>>) -> Option<Seq<u8>> {
    match bytes {
        Some(bytes) => Some(bytes@),
        None => None,
    }
}

/// `base64::encode`: the standard alphabet, with padding.
///
/// The contract names the text and claims one thing of it: `base64::decode` reads it
/// back as the bytes it was made from, both working with the one standard
/// configuration. The call panics where the length of the text would not fit in a
/// `usize`; `requires` keeps those inputs out.
#[verifier::external_body]
pub(crate) fn encode(bytes: &[u8]) -> (text: String)
    requires
        bytes@.len() / 3 * 4 + 4 <= usize::MAX,
    ensures
        text@ == base64_text(bytes@),
        base64_bytes(text@) == Some(bytes@),
{
    base64::encode(bytes)
}

/// `base64::decode`: the standard alphabet, padding optional. The reason of a
/// rejection is dropped.
///
/// The call panics on a text of more than `usize::MAX - 3` bytes. No `str` is that
/// long, since no allocation exceeds `isize::MAX` bytes.
#[verifier::external_body]
pub(crate) fn decode(text: &str) -> (bytes: Option<Vec<u8>>)
    ensures
        optional_bytes(bytes) == base64_bytes(text@),
{
    base64::decode(text).ok()
}

} // verus!
