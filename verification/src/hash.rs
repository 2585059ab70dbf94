//! Cryptographic hashing of byte slices.
//!
//! Key and nonce derivation both rest on SHA-3 digests of the password
//! bytes. The digests themselves are computed by the `sha3` crate; this
//! module gives each digest a name that the rest of the crate's contracts
//! can speak about.

use vstd::prelude::*;

use sha3::Digest;

verus! {

/// The SHA3-256 digest of a byte sequence: a 32-byte value that is a
/// function of the input bytes alone.
pub uninterp spec fn sha3_256_of(input: Seq<u8>) -> Seq<u8>;

/// The SHA3-224 digest of a byte sequence: a 28-byte value that is a
/// function of the input bytes alone.
pub uninterp spec fn sha3_224_of(input: Seq<u8>) -> Seq<u8>;

/// Relies on `sha3::Sha3_256` through `Digest::digest`: the digest is
/// 32 bytes long and depends on the input bytes alone.
#[verifier::external_body]
fn sha3_256_raw(input: &[u8]) -> (digest: Vec<u8>)
    ensures
        digest@ == sha3_256_of(input@),
        digest@.len() == 32,
{
    sha3::Sha3_256::digest(input).to_vec()
}

/// Relies on `sha3::Sha3_224` through `Digest::digest`: the digest is
/// 28 bytes long and depends on the input bytes alone.
#[verifier::external_body]
fn sha3_224_raw(input: &[u8]) -> (digest: Vec<u8>)
    ensures
        digest@ == sha3_224_of(input@),
        digest@.len() == 28,
{
    sha3::Sha3_224::digest(input).to_vec()
}

/// Hashes a slice with SHA3-256. The 32-byte result seeds the cipher key.
pub fn sha3_256_digest(input: &[u8]) -> (digest: Vec<u8>)
    ensures
        digest@ == sha3_256_of(input@),
        digest@.len() == 32,
{
    sha3_256_raw(input)
}

/// Hashes a slice with SHA3-224. The 28-byte result seeds the cipher nonce.
pub fn sha3_224_digest(input: &[u8]) -> (digest: Vec<u8>)
    ensures
        digest@ == sha3_224_of(input@),
        digest@.len() == 28,
{
    sha3_224_raw(input)
}

} // verus!
