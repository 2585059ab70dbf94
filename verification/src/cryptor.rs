//! The keyed stream cipher and its password derivation.
//!
//! A password determines a 256-bit key (SHA3-256 of the password bytes) and
//! a 192-bit nonce (SHA3-224 of the password bytes, truncated to 24 bytes).
//! The pair seeds an XChaCha20 stream cipher whose keystream position
//! advances monotonically as bytes are transformed; the whole run threads
//! one cipher through every file it touches, so the bytes a file receives
//! depend on everything processed before it.

use vstd::prelude::*;

use chacha20::cipher::KeyIvInit;
use chacha20::cipher::StreamCipher;

use crate::hash::{sha3_224_digest, sha3_224_of, sha3_256_digest, sha3_256_of};

verus! {

/// Upper bound on the total number of keystream bytes one cipher may
/// produce. XChaCha20 counts 64-byte blocks with a 32-bit counter, so its
/// keystream ends after a little under 2^38 bytes; staying at or below
/// 2^37 bytes keeps every transform inside the stream.
pub const KEYSTREAM_LIMIT: u64 = 0x20_0000_0000;

/// The byte the XChaCha20 keystream produces at position `i` of the stream
/// seeded by `key` and `nonce`: a function of those three values alone.
pub uninterp spec fn keystream_byte(key: Seq<u8>, nonce: Seq<u8>, i: int) -> u8;

/// The key derived from a password: the SHA3-256 digest of its bytes.
pub open spec fn key_of(password: Seq<u8>) -> Seq<u8> {
    sha3_256_of(password)
}

/// The nonce derived from a password: the first 24 bytes of the SHA3-224
/// digest of its bytes.
pub open spec fn nonce_of(password: Seq<u8>) -> Seq<u8> {
    sha3_224_of(password).take(24)
}

/// `data` XORed byte for byte against the keystream of (`key`, `nonce`)
/// starting at position `pos`.
pub open spec fn keystream_xor(key: Seq<u8>, nonce: Seq<u8>, pos: int, data: Seq<u8>) -> Seq<u8> {
    Seq::new(data.len(), |i: int| data[i] ^ keystream_byte(key, nonce, pos + i))
}

/// Holds the cipher state of the `chacha20` crate. Opaque: everything the
/// contracts say about it is said through the fields of [`Cipher`] beside it.
#[verifier::external_body]
struct CipherInner {
    cipher: chacha20::XChaCha20,
}

/// A keyed XChaCha20 stream cipher at a keystream position.
///
/// `pos` mirrors the number of keystream bytes the inner cipher has
/// consumed since construction; only [`Cipher::transform`] advances the
/// inner cipher, and it keeps the two in step. The ghost `key` and `nonce`
/// record the bytes the cipher was seeded with.
pub struct Cipher {
    inner: CipherInner,
    pos: u64,
    key: Ghost<Seq<u8>>,
    nonce: Ghost<Seq<u8>>,
}

impl Cipher {
    /// The key this cipher was seeded with.
    pub closed spec fn key(&self) -> Seq<u8> {
        self.key@
    }

    /// The nonce this cipher was seeded with.
    pub closed spec fn nonce(&self) -> Seq<u8> {
        self.nonce@
    }

    /// The keystream position: how many bytes this cipher has transformed
    /// since it was constructed.
    pub closed spec fn pos(&self) -> int {
        self.pos as int
    }

    /// The keystream position, for callers that must check
    /// [`KEYSTREAM_LIMIT`] at run time.
    pub fn position(&self) -> (p: u64)
        ensures
            p == self.pos(),
    {
        self.pos
    }

    /// XORs `data` against the next `data.len()` keystream bytes and
    /// advances the position by that many bytes. Applying the transform a
    /// second time, from the same position of a freshly seeded cipher,
    /// restores the original bytes.
    pub fn transform(&mut self, data: Vec<u8>) -> (out: Vec<u8>)
        requires
            old(self).pos() + data@.len() <= KEYSTREAM_LIMIT,
        ensures
            final(self).key() == old(self).key(),
            final(self).nonce() == old(self).nonce(),
            final(self).pos() == old(self).pos() + data@.len(),
            out@.len() == data@.len(),
            out@ == keystream_xor(old(self).key(), old(self).nonce(), old(self).pos(), data@),
    {
        let mut buf = data;
        apply_keystream_raw(self, &mut buf);
        self.pos = self.pos + buf.len() as u64;
        proof {
            assert(buf@ =~= keystream_xor(old(self).key(), old(self).nonce(), old(self).pos(), data@));
        }
        buf
    }

    /// Like [`Cipher::transform`], but checks the keystream bound at run
    /// time: hands the input back unchanged, with the cipher untouched,
    /// when transforming it would run past [`KEYSTREAM_LIMIT`].
    pub fn try_transform(&mut self, data: Vec<u8>) -> (out: Result<Vec<u8>, Vec<u8>>)
        ensures
            final(self).key() == old(self).key(),
            final(self).nonce() == old(self).nonce(),
            old(self).pos() + data@.len() <= KEYSTREAM_LIMIT ==> (out matches Ok(t)
                && t@ == keystream_xor(old(self).key(), old(self).nonce(), old(self).pos(), data@)
                && final(self).pos() == old(self).pos() + data@.len()),
            old(self).pos() + data@.len() > KEYSTREAM_LIMIT ==> (out matches Err(back)
                && back@ == data@ && final(self).pos() == old(self).pos()),
    {
        if data.len() as u64 <= KEYSTREAM_LIMIT && self.pos <= KEYSTREAM_LIMIT - data.len() as u64 {
            Ok(self.transform(data))
        } else {
            Err(data)
        }
    }
}

/// Relies on `chacha20::XChaCha20::new_from_slices` (`cipher::KeyIvInit`):
/// seeds an XChaCha20 cipher from a 32-byte key and a 24-byte nonce, with
/// its keystream at position 0. [`create_cipher`] is its only caller; it
/// records the same key and nonce, and position 0, in the [`Cipher`] it
/// builds around the result, which is what the contract of
/// [`apply_keystream_raw`] relies on.
#[verifier::external_body]
fn cipher_inner_new(key: &Vec<u8>, nonce: &Vec<u8>) -> (inner: CipherInner)
    requires
        key@.len() == 32,
        nonce@.len() == 24,
{
    let cipher = chacha20::XChaCha20::new_from_slices(key.as_slice(), nonce.as_slice()).unwrap();
    CipherInner { cipher }
}

/// Relies on `cipher::StreamCipher::apply_keystream` for XChaCha20: XORs
/// the buffer in place against the next `data.len()` keystream bytes of
/// the stream this cipher was seeded with. The keystream position is the
/// `pos` field beside the inner cipher, which this module keeps equal to
/// the bytes consumed so far; `apply_keystream` panics near the end of the
/// keystream, which the precondition keeps out of reach.
#[verifier::external_body]
fn apply_keystream_raw(c: &mut Cipher, data: &mut Vec<u8>)
    requires
        old(c).pos() + old(data)@.len() <= KEYSTREAM_LIMIT,
    ensures
        final(c).key() == old(c).key(),
        final(c).nonce() == old(c).nonce(),
        final(c).pos() == old(c).pos(),
        final(data)@.len() == old(data)@.len(),
        forall|i: int|
            0 <= i < old(data)@.len() ==> final(data)@[i] == (old(data)@[i] ^ keystream_byte(
                old(c).key(),
                old(c).nonce(),
                old(c).pos() + i,
            )),
{
    c.inner.cipher.apply_keystream(data.as_mut_slice());
}

/// Derives the 24-byte cipher nonce from a byte slice: the SHA3-224 digest
/// truncated to 24 bytes.
pub fn generate_nonce(input: &[u8]) -> (nonce: Vec<u8>)
    ensures
        nonce@ == nonce_of(input@),
        nonce@.len() == 24,
{
    let mut digest = sha3_224_digest(input);
    digest.truncate(24);
    assert(digest@ =~= nonce_of(input@));
    digest
}

/// Builds a stream cipher from a password: key and nonce are derived from
/// the password bytes alone, and the keystream starts at position 0.
/// Derivation is pure, so the same password always rebuilds the same
/// cipher — which is what lets a later run invert an earlier one.
pub fn create_cipher(password: &[u8]) -> (c: Cipher)
    ensures
        c.key() == key_of(password@),
        c.nonce() == nonce_of(password@),
        c.pos() == 0,
{
    let key = sha3_256_digest(password);
    let nonce = generate_nonce(password);
    let inner = cipher_inner_new(&key, &nonce);
    Cipher { inner, pos: 0, key: Ghost(key@), nonce: Ghost(nonce@) }
}

/// Derivation is deterministic: any two key/nonce pairs derived from the
/// same password bytes — as [`create_cipher`] derives them — are
/// bit-identical.
pub proof fn lemma_derivation_deterministic(
    password: Seq<u8>,
    key1: Seq<u8>,
    nonce1: Seq<u8>,
    key2: Seq<u8>,
    nonce2: Seq<u8>,
)
    requires
        key1 == key_of(password),
        nonce1 == nonce_of(password),
        key2 == key_of(password),
        nonce2 == nonce_of(password),
    ensures
        key1 == key2,
        nonce1 == nonce2,
{
}

/// The transform is an involution: XORing a byte sequence against the
/// keystream of (`key`, `nonce`) at position `pos`, and then XORing the
/// result against the same keystream at the same position, restores the
/// original sequence.
pub proof fn lemma_keystream_xor_involution(key: Seq<u8>, nonce: Seq<u8>, pos: int, data: Seq<u8>)
    ensures
        keystream_xor(key, nonce, pos, keystream_xor(key, nonce, pos, data)) == data,
{
    let once = keystream_xor(key, nonce, pos, data);
    let twice = keystream_xor(key, nonce, pos, once);
    assert forall|i: int| 0 <= i < data.len() implies twice[i] == data[i] by {
        let d = data[i];
        let k = keystream_byte(key, nonce, pos + i);
        assert(((d ^ k) ^ k) == d) by (bit_vector);
    }
    assert(twice =~= data);
}

/// Round trip: for any password and any finite byte sequence, transforming
/// the sequence with a freshly derived cipher and transforming the result
/// with a second freshly derived cipher from the same password — both
/// starting at position 0, as [`create_cipher`] builds them — gives back
/// the original sequence.
pub proof fn lemma_round_trip(password: Seq<u8>, data: Seq<u8>)
    ensures
        keystream_xor(
            key_of(password),
            nonce_of(password),
            0,
            keystream_xor(key_of(password), nonce_of(password), 0, data),
        ) == data,
{
    lemma_keystream_xor_involution(key_of(password), nonce_of(password), 0, data);
}

/// Transforming two chunks in order is the same as transforming their
/// concatenation in one call: the keystream position threads from the
/// first chunk into the second, so chunking does not change the output —
/// but reordering the chunks would.
pub proof fn lemma_keystream_xor_chunks(
    key: Seq<u8>,
    nonce: Seq<u8>,
    pos: int,
    first: Seq<u8>,
    second: Seq<u8>,
)
    ensures
        keystream_xor(key, nonce, pos, first + second) == keystream_xor(key, nonce, pos, first)
            + keystream_xor(key, nonce, pos + first.len(), second),
{
    let whole = keystream_xor(key, nonce, pos, first + second);
    let parts = keystream_xor(key, nonce, pos, first) + keystream_xor(
        key,
        nonce,
        pos + first.len(),
        second,
    );
    assert forall|i: int| 0 <= i < whole.len() implies whole[i] == parts[i] by {
        if i < first.len() {
            assert((first + second)[i] == first[i]);
        } else {
            assert((first + second)[i] == second[i - first.len()]);
        }
    }
    assert(whole =~= parts);
}

} // verus!
