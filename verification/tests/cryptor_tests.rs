use clave::cryptor::{create_cipher, generate_nonce};
use clave::hash::{sha3_224_digest, sha3_256_digest};

use chacha20::cipher::KeyIvInit;
use chacha20::cipher::StreamCipher;
use sha3::Digest;

const TEST_PASSWORD: &str = "This is a super secret password no one's able to guess.";

#[test]
fn test_hash_str() {
    let hash32 = sha3_256_digest("test_files/dir_to_process".as_bytes());
    let hash28 = sha3_224_digest("test_files/dir_to_process".as_bytes());

    assert_eq!(hash32.len(), 32);
    assert_eq!(hash28.len(), 28);
}

#[test]
fn test_generate_nonce() {
    generate_nonce(TEST_PASSWORD.as_bytes());
}

#[test]
fn test_create_cipher() {
    create_cipher(TEST_PASSWORD.as_bytes());
}

/// The two digest functions really hash: they agree with the sha3 crate
/// called directly, and differ from their input.
#[test]
fn digests_match_sha3_crate() {
    let input = b"The quick brown fox jumps over the lazy dog";

    let expected32 = sha3::Sha3_256::digest(input.as_slice()).to_vec();
    let expected28 = sha3::Sha3_224::digest(input.as_slice()).to_vec();

    assert_eq!(sha3_256_digest(input), expected32);
    assert_eq!(sha3_224_digest(input), expected28);
    assert_ne!(sha3_256_digest(input), input.to_vec());
    assert_ne!(&sha3_256_digest(input)[..28], sha3_224_digest(input).as_slice());
}

/// The nonce is the first 24 bytes of the SHA3-224 digest.
#[test]
fn nonce_truncates_sha3_224() {
    let nonce = generate_nonce(TEST_PASSWORD.as_bytes());
    let digest = sha3_224_digest(TEST_PASSWORD.as_bytes());
    assert_eq!(nonce.len(), 24);
    assert_eq!(nonce.as_slice(), &digest[..24]);
}

/// The cipher agrees with XChaCha20 of the chacha20 crate seeded with the
/// same derived key and nonce: the trusted wrappers neither reseed nor
/// hand their input back unchanged.
#[test]
fn transform_matches_chacha20_crate() {
    let plaintext = b"hello, stream".to_vec();

    let mut cipher = create_cipher(TEST_PASSWORD.as_bytes());
    let ciphertext = cipher.transform(plaintext.clone());

    let key = sha3::Sha3_256::digest(TEST_PASSWORD.as_bytes());
    let digest = sha3::Sha3_224::digest(TEST_PASSWORD.as_bytes());
    let mut reference =
        chacha20::XChaCha20::new_from_slices(key.as_slice(), &digest.as_slice()[..24]).unwrap();
    let mut expected = plaintext.clone();
    reference.apply_keystream(&mut expected);

    assert_eq!(ciphertext, expected);
    assert_ne!(ciphertext, plaintext);
}

/// Derivation is deterministic: two ciphers from one password produce the
/// same bytes, and the digests of one input never vary between calls.
#[test]
fn derivation_is_deterministic() {
    let data = b"determinism probe".to_vec();
    let mut first = create_cipher(b"hunter2");
    let mut second = create_cipher(b"hunter2");
    assert_eq!(first.transform(data.clone()), second.transform(data.clone()));
    assert_eq!(sha3_256_digest(b"hunter2"), sha3_256_digest(b"hunter2"));
    assert_eq!(sha3_224_digest(b"hunter2"), sha3_224_digest(b"hunter2"));
}

/// Passwords differing in a single byte derive different keys and nonces.
#[test]
fn avalanche_on_password_change() {
    assert_ne!(sha3_256_digest(b"hunter2"), sha3_256_digest(b"hunter3"));
    assert_ne!(generate_nonce(b"hunter2"), generate_nonce(b"hunter3"));

    let data = b"avalanche probe".to_vec();
    let mut first = create_cipher(b"hunter2");
    let mut second = create_cipher(b"hunter3");
    assert_ne!(first.transform(data.clone()), second.transform(data));
}

/// Transforming twice with two freshly derived ciphers restores the
/// original bytes, whatever their length.
#[test]
fn transform_round_trips() {
    let cases: Vec<Vec<u8>> = vec![
        vec![],
        vec![0],
        b"hello".to_vec(),
        vec![0xff; 64],
        (0..=255u8).cycle().take(1000).collect(),
    ];
    for plaintext in cases {
        let mut enc = create_cipher(b"round trip");
        let ciphertext = enc.transform(plaintext.clone());
        assert_eq!(ciphertext.len(), plaintext.len());

        let mut dec = create_cipher(b"round trip");
        assert_eq!(dec.transform(ciphertext), plaintext);
    }
}

/// Chunked transforms concatenate to the one-shot transform: the keystream
/// position threads across calls.
#[test]
fn chunked_transform_equals_whole() {
    let plaintext: Vec<u8> = (0..=255u8).cycle().take(300).collect();

    let mut whole = create_cipher(b"chunking");
    let expected = whole.transform(plaintext.clone());

    let mut chunked = create_cipher(b"chunking");
    let mut combined = chunked.transform(plaintext[..100].to_vec());
    assert_eq!(chunked.position(), 100);
    combined.extend(chunked.transform(plaintext[100..].to_vec()));
    assert_eq!(chunked.position(), 300);

    assert_eq!(combined, expected);
}

/// Within the keystream bound, the checked transform behaves as the plain
/// one and advances the position.
#[test]
fn try_transform_within_bound() {
    let plaintext = b"bounded".to_vec();

    let mut plain = create_cipher(b"bound");
    let expected = plain.transform(plaintext.clone());

    let mut checked = create_cipher(b"bound");
    let out = checked.try_transform(plaintext.clone());
    assert_eq!(out.unwrap(), expected);
    assert_eq!(checked.position(), plaintext.len() as u64);
}
