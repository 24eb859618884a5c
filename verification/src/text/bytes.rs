//! Text out of raw bytes.

use vstd::prelude::*;
use vstd::utf8::*;

verus! {

/// The text that a byte sequence stands for, whatever in it is not UTF-8
/// replaced by U+FFFD.
pub uninterp spec fn lossy_text(bytes: Seq<u8>) -> Seq<char>;

/// Decodes bytes: `String::from_utf8_lossy` of the standard library.
///
/// The claim: the result is a function of the bytes, and bytes that are valid
/// UTF-8 are decoded as they are. How many replacement characters stand for
/// an invalid stretch is not stated.
#[verifier::external_body]
pub(crate) fn decode_lossy(bytes: &[u8]) -> (r: String)
    ensures
        r@ == lossy_text(bytes@),
        valid_utf8(bytes@) ==> r@ == decode_utf8(bytes@),
{
    String::from_utf8_lossy(bytes).into_owned()
}

/// Decodes bytes that have to be UTF-8: `std::str::from_utf8`.
///
/// The claim: it succeeds exactly on valid UTF-8, with the text encoded there.
#[verifier::external_body]
pub(crate) fn decode_strict(bytes: &[u8]) -> (r: Option<String>)
    ensures
        r is Some == valid_utf8(bytes@),
        r is Some ==> r->0@ == decode_utf8(bytes@),
{
    std::str::from_utf8(bytes).ok().map(|s| s.to_owned())
}

} // verus!
