//! The content hasher: maps a canonical text to the fixed-length lowercase
//! hexadecimal digest used as the translation-memory key component.

use sha2::Digest;
use vstd::prelude::*;

verus! {

/// The SHA-256 digest of the UTF-8 encoding of a character sequence, as
/// `sha2::Sha256` computes it. The result depends on the characters alone.
pub uninterp spec fn sha256_of(s: Seq<char>) -> Seq<u8>;

/// The lowercase hexadecimal digit character for a value below sixteen.
pub open spec fn hex_digit(d: nat) -> char {
    if d < 10 {
        crate::strutil::dec_digit(d)
    } else if d == 10 {
        'a'
    } else if d == 11 {
        'b'
    } else if d == 12 {
        'c'
    } else if d == 13 {
        'd'
    } else if d == 14 {
        'e'
    } else {
        'f'
    }
}

/// The lowercase hexadecimal rendering of a byte sequence: two digits per
/// byte, high digit first.
pub open spec fn hex_of(b: Seq<u8>) -> Seq<char>
    decreases b.len(),
{
    if b.len() == 0 {
        Seq::empty()
    } else {
        hex_of(b.drop_last()).push(hex_digit((b.last() / 16) as nat)).push(
            hex_digit((b.last() % 16) as nat),
        )
    }
}

/// The digest of a canonical text: the SHA-256 hash of its UTF-8 bytes,
/// rendered in lowercase hexadecimal.
pub open spec fn digest_of(s: Seq<char>) -> Seq<char> {
    hex_of(sha256_of(s))
}

/// Relies on `sha2::Sha256::digest`: the 32-byte SHA-256 digest of the
/// input bytes, a function of the input alone.
#[verifier::external_body]
fn sha256_bytes(s: &str) -> (r: Vec<u8>)
    ensures
        r@ == sha256_of(s@),
        r@.len() == 32,
{
    sha2::Sha256::digest(s.as_bytes()).to_vec()
}

/// Relies on `hex::encode`: encodes the bytes as lowercase hexadecimal, each
/// byte as exactly two digits.
#[verifier::external_body]
fn hex_encode(b: &Vec<u8>) -> (r: String)
    ensures
        r@ == hex_of(b@),
{
    hex::encode(b)
}

/// The length of a hexadecimal rendering is twice the length of the bytes.
pub proof fn lemma_hex_len(b: Seq<u8>)
    ensures
        hex_of(b).len() == 2 * b.len(),
    decreases b.len(),
{
    if b.len() > 0 {
        lemma_hex_len(b.drop_last());
    }
}

/// Computes the digest of the canonical text `norm`: 64 lowercase
/// hexadecimal characters identifying its content.
pub fn hash_norm(norm: &str) -> (r: String)
    ensures
        r@ == digest_of(norm@),
        r@.len() == 64,
{
    let bytes = sha256_bytes(norm);
    let r = hex_encode(&bytes);
    proof {
        lemma_hex_len(bytes@);
    }
    r
}

/// The key derivation is deterministic: two independent computations of the
/// digest of the canonical form of the same text give the same string, in
/// this process or any other.
pub fn digest_norm_pair(text: &str) -> (r: (String, String))
    ensures
        r.0@ == r.1@,
        r.0@ == digest_of(crate::text::normalize_spec(text@)),
{
    let a = hash_norm(crate::text::normalize(text).as_str());
    let b = hash_norm(crate::text::normalize(text).as_str());
    (a, b)
}

} // verus!
