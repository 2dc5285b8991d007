//! The fingerprint hasher: trimmed sample bytes map to a lowercase
//! hexadecimal SHA-256 digest, stable and deterministic.

use vstd::prelude::*;

verus! {

/// The lowercase hexadecimal SHA-256 digest of a byte sequence. The digest
/// is a function of the bytes alone, so it carries a name rather than a
/// written-out definition.
pub uninterp spec fn sha256_hex(bytes: Seq<u8>) -> Seq<char>;

/// A lowercase hexadecimal digit.
pub open spec fn is_lower_hex_char(c: char) -> bool {
    ('0' <= c && c <= '9') || ('a' <= c && c <= 'f')
}

/// Relies on `sha2::Sha256` through the `Digest` interface: the digest of a
/// byte slice is 32 bytes, determined by the input alone, and each byte is
/// rendered here as two lowercase hexadecimal digits.
#[verifier::external_body]
fn sha256_hex_digest(bytes: &Vec<u8>) -> (r: String)
    ensures
        r@ == sha256_hex(bytes@),
        r@.len() == 64,
        forall|i: int| 0 <= i < r@.len() ==> is_lower_hex_char(r@[i]),
{
    let digest = <sha2::Sha256 as sha2::Digest>::digest(bytes.as_slice());
    let mut out = String::new();
    for byte in digest.iter() {
        out.push_str(&format!("{:02x}", byte));
    }
    out
}

/// Computes the fingerprint of a sample: the lowercase hexadecimal SHA-256
/// digest of its bytes, 64 digits long.
pub fn hash_hex(bytes: &Vec<u8>) -> (r: String)
    ensures
        r@ == sha256_hex(bytes@),
        r@.len() == 64,
        forall|i: int| 0 <= i < r@.len() ==> is_lower_hex_char(r@[i]),
{
    sha256_hex_digest(bytes)
}

/// Law: hashing is deterministic — equal inputs always yield equal digests.
pub proof fn lemma_hash_deterministic(a: Seq<u8>, b: Seq<u8>)
    requires
        a == b,
    ensures
        sha256_hex(a) == sha256_hex(b),
{
}

} // verus!
