//! Source reading policy: strict UTF-8 first, Shift-JIS as the fallback that
//! never fails.
use vstd::prelude::*;

verus! {

/// The text that `bytes` encode as UTF-8, or `None` where they are not valid UTF-8.
pub uninterp spec fn utf8_decoded(bytes: Seq<u8>) -> Option<Seq<char>>;

/// The text that encoding_rs's Shift_JIS decoder makes of `bytes`.
pub uninterp spec fn shift_jis_decoded(bytes: Seq<u8>) -> Seq<char>;

/// Relies on `std::str::from_utf8`: `Ok` exactly for valid UTF-8, with the
/// characters the bytes encode.
#[verifier::external_body]
fn decode_utf8(bytes: &Vec<u8>) -> (r: Option<Vec<char>>)
    ensures
        r matches Some(t) ==> utf8_decoded(bytes@) == Some(t@),
        r is None ==> utf8_decoded(bytes@) is None,
{
    std::str::from_utf8(bytes.as_slice()).ok().map(|s| s.chars().collect())
}

/// Relies on `encoding_rs::SHIFT_JIS.decode`, which always returns text
/// (malformed sequences become U+FFFD).
#[verifier::external_body]
fn decode_shift_jis(bytes: &Vec<u8>) -> (r: Vec<char>)
    ensures
        r@ == shift_jis_decoded(bytes@),
{
    encoding_rs::SHIFT_JIS.decode(bytes.as_slice()).0.chars().collect()
}

/// The text of a source file: its UTF-8 decoding where the bytes are valid
/// UTF-8, its Shift-JIS decoding otherwise.
pub open spec fn source_text(bytes: Seq<u8>) -> Seq<char> {
    match utf8_decoded(bytes) {
        Some(t) => t,
        None => shift_jis_decoded(bytes),
    }
}

/// Decodes the bytes of a source file; never fails.
pub fn decode_source(bytes: &Vec<u8>) -> (text: Vec<char>)
    ensures
        text@ == source_text(bytes@),
{
    match decode_utf8(bytes) {
        Some(t) => t,
        None => decode_shift_jis(bytes),
    }
}

} // verus!
