//! Decoding TLV value bytes to text, with lossy replacement of invalid
//! UTF-8: total, never an error.

use vstd::prelude::*;
use vstd::utf8::{decode_utf8, valid_utf8};

verus! {

/// What `String::from_utf8_lossy` returns on a byte sequence that is not
/// valid UTF-8: the decoding with each invalid sequence replaced by U+FFFD.
/// A function of the bytes alone.
pub uninterp spec fn lossy_utf8(b: Seq<u8>) -> Seq<char>;

/// The text that a byte sequence decodes to: the exact decoding for valid
/// UTF-8, the lossy replacement decoding otherwise. Total: every byte
/// sequence, including invalid UTF-8, decodes to some text.
pub open spec fn text_of(b: Seq<u8>) -> Seq<char> {
    if valid_utf8(b) {
        decode_utf8(b)
    } else {
        lossy_utf8(b)
    }
}

/// Relies on `String::from_utf8_lossy`: it never fails; on valid UTF-8 it
/// returns exactly the decoded characters, and on invalid UTF-8 it
/// substitutes U+FFFD for each invalid sequence (that result is named
/// `lossy_utf8`).
#[verifier::external_body]
pub(crate) fn bytes_to_text(b: &Vec<u8>) -> (r: String)
    ensures
        r@ == text_of(b@),
        !valid_utf8(b@) ==> r@ == lossy_utf8(b@),
{
    String::from_utf8_lossy(b.as_slice()).into_owned()
}

} // verus!
