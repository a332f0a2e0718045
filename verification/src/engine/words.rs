//! Bytes as text, and text without capitals.
use vstd::prelude::*;
use vstd::utf8::{decode_utf8, encode_utf8, valid_utf8};

verus! {

/// The text that ill-formed bytes hold, with a replacement character for each
/// part that is no text.
pub uninterp spec fn mended(bytes: Seq<u8>) -> Seq<char>;

/// The text that bytes hold, with a replacement character for what is no text.
pub open spec fn lossy(bytes: Seq<u8>) -> Seq<char> {
    if valid_utf8(bytes) {
        decode_utf8(bytes)
    } else {
        mended(bytes)
    }
}

/// Bytes as text, by `String::from_utf8_lossy`: the text that well-formed bytes
/// encode, and for others a text that depends on the bytes alone.
#[verifier::external_body]
pub(crate) fn lossy_text(bytes: &[u8]) -> (r: String)
    ensures
        valid_utf8(bytes@) ==> r@ == decode_utf8(bytes@),
        !valid_utf8(bytes@) ==> r@ == mended(bytes@),
{
    String::from_utf8_lossy(bytes).into_owned()
}

/// A text survives being written as bytes and read back.
pub proof fn texts_survive(s: Seq<char>)
    ensures
        lossy(encode_utf8(s)) == s,
{
    vstd::utf8::encode_utf8_valid_utf8(s);
    vstd::utf8::encode_utf8_decode_utf8(s);
}

/// A text in lower case.
pub uninterp spec fn lowercase(s: Seq<char>) -> Seq<char>;

/// A text in lower case, by `str::to_lowercase`: a text that depends on the
/// given one alone.
#[verifier::external_body]
pub(crate) fn lowered(s: &str) -> (r: String)
    ensures
        r@ == lowercase(s@),
{
    s.to_lowercase()
}

} // verus!
