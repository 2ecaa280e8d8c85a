use vstd::prelude::*;

verus! {

/// The lowercase hexadecimal SHA-1 digest of a byte sequence, as a sequence
/// of characters. The digest is a pure function of the bytes alone; its
/// value is not spelled out here, only named, and every statement about a
/// concrete digest goes through the executable [`sha1_hex`].
pub uninterp spec fn sha1_hex_of(bytes: Seq<u8>) -> Seq<char>;

/// Relies on sha1's `Sha1::digest` (a 20-byte digest that is a function of
/// the input bytes alone) and hex's `encode` (two lowercase hex digits per
/// byte), so the result always has 40 characters.
#[verifier::external_body]
pub fn sha1_hex(bytes: &[u8]) -> (r: String)
    ensures
        r@ == sha1_hex_of(bytes@),
        r@.len() == 40,
{
    let digest = <sha1::Sha1 as sha1::Digest>::digest(bytes);
    hex::encode(digest)
}

/// Compares a computed digest against an expected one, character for
/// character.
pub fn hash_matches(actual: &str, expected: &str) -> (r: bool)
    ensures
        r == (actual@ == expected@),
{
    crate::strutil::str_eq(actual, expected)
}

} // verus!
