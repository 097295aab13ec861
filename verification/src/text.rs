//! Conversions between bytes and text that the standard library performs.

use vstd::prelude::*;
use vstd::utf8::*;

verus! {

/// What `String::from_utf8_lossy` makes of bytes that are not valid UTF-8:
/// the valid parts decoded, each invalid part replaced by U+FFFD.
pub uninterp spec fn lossy_text(bytes: Seq<u8>) -> Seq<char>;

/// The text that bytes stand for when nothing may fail: valid UTF-8 is
/// decoded as it is, anything else lossily.
pub open spec fn decoded(bytes: Seq<u8>) -> Seq<char> {
    if valid_utf8(bytes) {
        decode_utf8(bytes)
    } else {
        lossy_text(bytes)
    }
}

/// Calls `String::from_utf8_lossy` and owns what it returns. Not proved:
/// that valid UTF-8 comes back decoded unchanged, and that the result for
/// other bytes depends on the bytes alone.
#[verifier::external_body]
pub(crate) fn decode_lossy(bytes: &[u8]) -> (text: String)
    ensures
        text@ == (if valid_utf8(bytes@) {
            decode_utf8(bytes@)
        } else {
            lossy_text(bytes@)
        }),
{
    String::from_utf8_lossy(bytes).into_owned()
}

/// Calls `String::from_utf8` on a copy of the bytes. Not proved: that it
/// accepts exactly the valid UTF-8 sequences and returns their decoding.
#[verifier::external_body]
pub(crate) fn decode_strict(bytes: &[u8]) -> (text: Option<String>)
    ensures
        text is Some <==> valid_utf8(bytes@),
        text matches Some(t) ==> t@ == decode_utf8(bytes@),
{
    String::from_utf8(bytes.to_vec()).ok()
}

/// In valid UTF-8 a character starts behind every ASCII byte.
pub proof fn lemma_boundary_behind_ascii(bytes: Seq<u8>, i: int)
    requires
        valid_utf8(bytes),
        0 <= i < bytes.len(),
        bytes[i] < 0x80,
    ensures
        is_char_boundary(bytes, i + 1),
    decreases bytes.len(),
{
    let n = length_of_first_scalar(bytes);
    let rest = pop_first_scalar(bytes);
    if i < n {
        assert(i == 0 && n == 1);
        assert(is_char_boundary(rest, 0));
    } else {
        assert(rest[i - n] == bytes[i]);
        lemma_boundary_behind_ascii(rest, i - n);
    }
}

/// Valid UTF-8 that is cut behind an ASCII byte, or at its end, is valid
/// UTF-8 on both sides, and its text is the text of the two sides.
pub proof fn lemma_cut_behind_ascii(bytes: Seq<u8>, at: int)
    requires
        valid_utf8(bytes),
        0 <= at <= bytes.len(),
        0 < at < bytes.len() ==> bytes[at - 1] < 0x80,
    ensures
        valid_utf8(bytes.subrange(0, at)),
        valid_utf8(bytes.subrange(at, bytes.len() as int)),
        decode_utf8(bytes) == decode_utf8(bytes.subrange(0, at)) + decode_utf8(
            bytes.subrange(at, bytes.len() as int),
        ),
{
    if 0 < at < bytes.len() {
        lemma_boundary_behind_ascii(bytes, at - 1);
    } else {
        is_char_boundary_start_end_of_seq(bytes);
    }
    valid_utf8_split(bytes, at);
    decode_utf8_split(bytes, at);
}

} // verus!
