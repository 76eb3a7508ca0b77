//! Decoding of a file's bytes to text: a UTF-8 byte-order mark wins, then
//! strict UTF-8, then GBK for the whole input.

use vstd::prelude::*;
use vstd::utf8::*;

verus! {

/// Longest input that the decoders are handed: their output buffers are
/// sized at a little over three times the input.
pub const MAX_INPUT_LEN: usize = usize::MAX / 8;

/// What `String::from_utf8_lossy` makes of bytes that are not valid UTF-8.
pub uninterp spec fn utf8_lossy(bytes: Seq<u8>) -> Seq<char>;

/// What `encoding_rs::GBK` decodes `bytes` to, without byte-order-mark
/// handling and with malformed sequences replaced.
pub uninterp spec fn gbk_decode(bytes: Seq<u8>) -> Seq<char>;

/// Whether `bytes` starts with the UTF-8 byte-order mark `EF BB BF`.
pub open spec fn has_bom(bytes: Seq<u8>) -> bool {
    bytes.len() >= 3 && bytes[0] == 0xEF && bytes[1] == 0xBB && bytes[2] == 0xBF
}

/// Lossy UTF-8 decoding: valid input decodes to its characters, anything
/// else to what `String::from_utf8_lossy` makes of it.
pub open spec fn lossy_text(bytes: Seq<u8>) -> Seq<char> {
    if valid_utf8(bytes) {
        decode_utf8(bytes)
    } else {
        utf8_lossy(bytes)
    }
}

/// The text of a file with content `bytes`. The choice of decoder is made
/// once, for the whole input.
pub open spec fn decoded_text(bytes: Seq<u8>) -> Seq<char> {
    if has_bom(bytes) {
        lossy_text(bytes.skip(3))
    } else if valid_utf8(bytes) {
        decode_utf8(bytes)
    } else {
        gbk_decode(bytes)
    }
}

/// Calls `String::from_utf8_lossy`. Trusted: valid UTF-8 comes back as the
/// characters it encodes, as std documents; for other input the result is
/// only named.
#[verifier::external_body]
fn utf8_lossy_string(bytes: &[u8]) -> (s: String)
    ensures
        valid_utf8(bytes@) ==> s@ == decode_utf8(bytes@),
        !valid_utf8(bytes@) ==> s@ == utf8_lossy(bytes@),
{
    String::from_utf8_lossy(bytes).into_owned()
}

/// Calls `encoding_rs::UTF_8.decode_without_bom_handling`. Trusted: the flag
/// reports malformed sequences, that is input that is not valid UTF-8, and
/// without them the text is the input's characters. Of the text with
/// replacements nothing is claimed.
#[verifier::external_body]
fn utf8_decode(bytes: &[u8]) -> (r: (String, bool))
    requires
        bytes@.len() <= MAX_INPUT_LEN,
    ensures
        r.1 == !valid_utf8(bytes@),
        !r.1 ==> r.0@ == decode_utf8(bytes@),
{
    let (text, had_errors) = encoding_rs::UTF_8.decode_without_bom_handling(bytes);
    (text.into_owned(), had_errors)
}

/// Calls `encoding_rs::GBK.decode_without_bom_handling` and keeps the text.
/// Trusted: the text is a function of the bytes alone.
#[verifier::external_body]
fn gbk_decode_string(bytes: &[u8]) -> (s: String)
    requires
        bytes@.len() <= MAX_INPUT_LEN,
    ensures
        s@ == gbk_decode(bytes@),
{
    encoding_rs::GBK.decode_without_bom_handling(bytes).0.into_owned()
}

/// Whether `bytes` starts with the UTF-8 byte-order mark.
pub fn starts_with_bom(bytes: &[u8]) -> (b: bool)
    ensures
        b == has_bom(bytes@),
{
    bytes.len() >= 3 && bytes[0] == 0xEF && bytes[1] == 0xBB && bytes[2] == 0xBF
}

/// Decodes a file's bytes. A leading byte-order mark is stripped and the
/// rest read as UTF-8, lossily. Without one, valid UTF-8 is taken as it is
/// and anything else is read as GBK, from the first byte on.
pub fn detect_and_decode(bytes: &[u8]) -> (text: String)
    requires
        bytes@.len() <= MAX_INPUT_LEN,
    ensures
        text@ == decoded_text(bytes@),
{
    if starts_with_bom(bytes) {
        let rest = vstd::slice::slice_subrange(bytes, 3, bytes.len());
        assert(rest@ == bytes@.skip(3));
        return utf8_lossy_string(rest);
    }
    let (text, had_errors) = utf8_decode(bytes);
    if !had_errors {
        return text;
    }
    gbk_decode_string(bytes)
}

} // verus!
