//! BLAKE3 content hashes, as lower-case hexadecimal text.

use vstd::prelude::*;
use vstd::string::*;

verus! {

/// The incremental hasher `blake3::Hasher`. Nothing inside it is visible
/// here; what it has taken in is spoken of by name.
#[verifier::external_type_specification]
#[verifier::external_body]
pub struct ExHasher(blake3::Hasher);

/// The BLAKE3 hash of `data`, as 64 lower-case hexadecimal digits.
pub uninterp spec fn blake3_hex(data: Seq<u8>) -> Seq<char>;

/// The bytes that a hasher has taken in since it was made.
pub uninterp spec fn hasher_input(h: blake3::Hasher) -> Seq<u8>;

/// Whether a hasher hashes from the start of its input: it was made by
/// `Hasher::new` and no input offset was set on it.
pub uninterp spec fn hasher_rooted(h: blake3::Hasher) -> bool;

/// The hash of a text: that of its UTF-8 bytes.
pub open spec fn text_hex(text: Seq<char>) -> Seq<char> {
    blake3_hex(vstd::utf8::encode_utf8(text))
}

/// Calls `blake3::hash` and `Hash::to_hex`. Trusted: the digits are a
/// function of the data alone.
#[verifier::external_body]
fn hash_hex(data: &[u8]) -> (hex: String)
    ensures
        hex@ == blake3_hex(data@),
{
    blake3::hash(data).to_hex().to_string()
}

/// Calls `blake3::Hasher::new`. Trusted: the hasher has taken in nothing and
/// hashes from the start.
#[verifier::external_body]
pub(crate) fn hasher_new() -> (h: blake3::Hasher)
    ensures
        hasher_input(h) == Seq::<u8>::empty(),
        hasher_rooted(h),
{
    blake3::Hasher::new()
}

/// Calls `blake3::Hasher::update`. Trusted: the chunk is added behind what
/// the hasher had taken in, and a hasher that hashes from the start takes
/// any chunk without panicking.
#[verifier::external_body]
pub(crate) fn hasher_update(h: &mut blake3::Hasher, chunk: &[u8])
    requires
        hasher_rooted(*old(h)),
    ensures
        hasher_input(*final(h)) == hasher_input(*old(h)) + chunk@,
        hasher_rooted(*final(h)),
    no_unwind
{
    h.update(chunk);
}

/// Calls `blake3::Hasher::finalize` and `Hash::to_hex`. Trusted: the result
/// is the hash of all that the hasher has taken in, as `blake3::hash` would
/// give it for the same bytes in one piece.
#[verifier::external_body]
pub(crate) fn hasher_finalize_hex(h: &blake3::Hasher) -> (hex: String)
    requires
        hasher_rooted(*h),
    ensures
        hex@ == blake3_hex(hasher_input(*h)),
{
    h.finalize().to_hex().to_string()
}

/// The BLAKE3 hash of the UTF-8 bytes of `text` in hexadecimal.
pub fn text_hash(text: &str) -> (hex: String)
    ensures
        hex@ == text_hex(text@),
{
    hash_hex(text.as_bytes())
}

} // verus!
