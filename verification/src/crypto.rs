//! Encryption of stored secrets (service passwords, API tokens).
//!
//! A secret is sealed with AES-256-GCM under a key derived from the server's
//! secret key by SHA-256, with a fresh random 12-byte nonce; the nonce and
//! the ciphertext are stored together, base64-encoded. Decryption undoes each
//! step and fails with a [`CryptoError`] when any step does.
use aes_gcm::aead::{Aead, AeadCore, KeyInit};
use base64::Engine;
use sha2::Digest;
use vstd::prelude::*;
use vstd::utf8::{decode_utf8, encode_utf8, valid_utf8};

use crate::text::push_all;

verus! {

broadcast use vstd::utf8::group_utf8_lib;

/// The SHA-256 digest of a byte string.
pub uninterp spec fn spec_sha256(data: Seq<u8>) -> Seq<u8>;

/// AES-256-GCM sealing (no associated data): ciphertext followed by the tag.
pub uninterp spec fn spec_aes256gcm_seal(key: Seq<u8>, nonce: Seq<u8>, plaintext: Seq<u8>) -> Seq<u8>;

/// AES-256-GCM opening (no associated data): the plaintext, or `None` when
/// the tag does not authenticate the ciphertext.
pub uninterp spec fn spec_aes256gcm_open(
    key: Seq<u8>,
    nonce: Seq<u8>,
    ciphertext: Seq<u8>,
) -> Option<Seq<u8>>;

/// Base64 encoding with the standard alphabet and padding.
pub uninterp spec fn spec_base64_encode(data: Seq<u8>) -> Seq<char>;

/// Base64 decoding with the standard alphabet and canonical padding.
pub uninterp spec fn spec_base64_decode(text: Seq<char>) -> Option<Seq<u8>>;

/// The longest plaintext AES-GCM accepts, in bytes.
pub const AES_GCM_MAX_PLAINTEXT: u64 = 0x10_0000_0000;

/// Length of the nonce stored in front of every ciphertext.
pub const NONCE_LEN: usize = 12;

/// `Sha256::digest`.
#[verifier::external_body]
pub(crate) fn sha256_digest(data: &[u8]) -> (r: [u8; 32])
    ensures
        r@ == spec_sha256(data@),
{
    sha2::Sha256::digest(data).into()
}

/// `Aes256Gcm::generate_nonce(&mut OsRng)`: 12 random bytes. Nothing is
/// promised of them but their number.
#[verifier::external_body]
fn random_nonce() -> (r: Vec<u8>)
    ensures
        r@.len() == NONCE_LEN,
{
    aes_gcm::Aes256Gcm::generate_nonce(&mut aes_gcm::aead::OsRng).to_vec()
}

/// `Aes256Gcm::new(key).encrypt(nonce, plaintext)`. It fails exactly when the
/// plaintext is longer than `P_MAX` (2^36 bytes); the error is given as its
/// display text.
#[verifier::external_body]
fn aes256gcm_encrypt(key: &[u8; 32], nonce: &[u8], plaintext: &[u8]) -> (r: Result<Vec<u8>, String>)
    requires
        nonce@.len() == NONCE_LEN,
    ensures
        r is Err <==> plaintext@.len() > AES_GCM_MAX_PLAINTEXT,
        r matches Ok(c) ==> c@ == spec_aes256gcm_seal(key@, nonce@, plaintext@),
        r matches Ok(c) ==> c@.len() == plaintext@.len() + 16,
{
    aes_gcm::Aes256Gcm::new(key.into()).encrypt(aes_gcm::Nonce::from_slice(nonce), plaintext).map_err(
        |e| e.to_string(),
    )
}

/// `Aes256Gcm::new(key).decrypt(nonce, ciphertext)`. It succeeds exactly when
/// opening succeeds, and opening what sealing produced under the same key and
/// nonce gives the sealed plaintext back (AEAD correctness). The error is
/// given as its display text.
#[verifier::external_body]
fn aes256gcm_decrypt(key: &[u8; 32], nonce: &[u8], ciphertext: &[u8]) -> (r: Result<Vec<u8>, String>)
    requires
        nonce@.len() == NONCE_LEN,
    ensures
        r is Ok <==> spec_aes256gcm_open(key@, nonce@, ciphertext@) is Some,
        r matches Ok(p) ==> spec_aes256gcm_open(key@, nonce@, ciphertext@) == Some(p@),
        r is Err ==> forall|p: Seq<u8>|
            p.len() <= AES_GCM_MAX_PLAINTEXT ==> #[trigger] spec_aes256gcm_seal(key@, nonce@, p)
                != ciphertext@,
        r matches Ok(q) ==> forall|p: Seq<u8>|
            p.len() <= AES_GCM_MAX_PLAINTEXT && #[trigger] spec_aes256gcm_seal(key@, nonce@, p)
                == ciphertext@ ==> q@ == p,
{
    aes_gcm::Aes256Gcm::new(key.into()).decrypt(aes_gcm::Nonce::from_slice(nonce), ciphertext).map_err(
        |e| e.to_string(),
    )
}

/// Whether base64 with padding can encode `n` bytes without the output length
/// overflowing `usize` (the engine panics otherwise).
pub open spec fn base64_len_fits(n: nat) -> bool {
    if n % 3 == 0 {
        n / 3 * 4 <= usize::MAX
    } else {
        n / 3 * 4 + 4 <= usize::MAX
    }
}

/// `base64::engine::general_purpose::STANDARD.encode(data)`.
#[verifier::external_body]
fn base64_encode(data: &[u8]) -> (r: String)
    requires
        base64_len_fits(data@.len()),
    ensures
        r@ == spec_base64_encode(data@),
{
    base64::engine::general_purpose::STANDARD.encode(data)
}

/// `base64::engine::general_purpose::STANDARD.decode(text)`. Decoding what
/// encoding produced gives the encoded bytes back. The error is given as its
/// display text.
#[verifier::external_body]
fn base64_decode(text: &str) -> (r: Result<Vec<u8>, String>)
    ensures
        r is Ok <==> spec_base64_decode(text@) is Some,
        r matches Ok(b) ==> spec_base64_decode(text@) == Some(b@),
        r is Err ==> forall|b: Seq<u8>| #[trigger] spec_base64_encode(b) != text@,
        r matches Ok(x) ==> forall|b: Seq<u8>| #[trigger] spec_base64_encode(b) == text@ ==> x@ == b,
{
    base64::engine::general_purpose::STANDARD.decode(text).map_err(|e| e.to_string())
}

/// `String::from_utf8`: succeeds exactly on valid UTF-8, with the decoded
/// characters. The error is given as its display text.
#[verifier::external_body]
fn string_from_utf8(bytes: Vec<u8>) -> (r: Result<String, String>)
    ensures
        r is Ok <==> valid_utf8(bytes@),
        r matches Ok(s) ==> s@ == decode_utf8(bytes@),
{
    String::from_utf8(bytes).map_err(|e| e.to_string())
}

/// Why encrypting or decrypting a secret failed. Each variant that wraps a
/// string holds the underlying library's own message.
#[derive(Debug)]
pub enum CryptoError {
    /// The cipher refused the plaintext.
    Encrypt(String),
    /// The stored text is not valid base64.
    Decode(String),
    /// The decoded bytes are too short to hold a nonce.
    TooShort,
    /// The ciphertext did not authenticate under the key.
    Decrypt(String),
    /// The decrypted bytes are not UTF-8.
    InvalidUtf8(String),
}

impl CryptoError {
    /// The message the server reports for this error.
    pub fn message(&self) -> (m: String)
        ensures
            match self {
                CryptoError::Encrypt(e) => m@ == "Encryption failed: "@ + e@,
                CryptoError::Decode(e) => m@ == "Base64 decode failed: "@ + e@,
                CryptoError::TooShort => m@ == "Ciphertext too short"@,
                CryptoError::Decrypt(e) => m@ == "Decryption failed: "@ + e@,
                CryptoError::InvalidUtf8(e) => m@ == "Invalid UTF-8: "@ + e@,
            },
    {
        let mut m = String::new();
        match self {
            CryptoError::Encrypt(e) => {
                push_all(&mut m, "Encryption failed: ");
                push_all(&mut m, e.as_str());
            },
            CryptoError::Decode(e) => {
                push_all(&mut m, "Base64 decode failed: ");
                push_all(&mut m, e.as_str());
            },
            CryptoError::TooShort => {
                push_all(&mut m, "Ciphertext too short");
            },
            CryptoError::Decrypt(e) => {
                push_all(&mut m, "Decryption failed: ");
                push_all(&mut m, e.as_str());
            },
            CryptoError::InvalidUtf8(e) => {
                push_all(&mut m, "Invalid UTF-8: ");
                push_all(&mut m, e.as_str());
            },
        }
        m
    }
}

/// The encryption key for a server secret: SHA-256 of its UTF-8 bytes.
pub open spec fn key_for(secret_key: Seq<char>) -> Seq<u8> {
    spec_sha256(encode_utf8(secret_key))
}

/// The stored form of `plaintext` sealed under `secret_key` with `nonce`:
/// base64 of the nonce followed by the ciphertext.
pub open spec fn sealed_text(secret_key: Seq<char>, plaintext: Seq<char>, nonce: Seq<u8>) -> Seq<char> {
    spec_base64_encode(
        nonce + spec_aes256gcm_seal(key_for(secret_key), nonce, encode_utf8(plaintext)),
    )
}

/// Derive the 32-byte AES key from the server's secret key.
pub fn derive_key(secret_key: &str) -> (k: [u8; 32])
    ensures
        k@ == key_for(secret_key@),
{
    sha256_digest(secret_key.as_bytes())
}

/// Encrypt `plaintext` under `secret_key` with a fresh random nonce.
///
/// It fails only for a plaintext of more than 2^36 bytes; otherwise the result
/// is the stored form of the plaintext for some 12-byte nonce.
pub fn encrypt(secret_key: &str, plaintext: &str) -> (r: Result<String, CryptoError>)
    requires
        base64_len_fits(encode_utf8(plaintext@).len() + 28),
    ensures
        r is Err <==> encode_utf8(plaintext@).len() > AES_GCM_MAX_PLAINTEXT,
        r matches Err(e) ==> e is Encrypt,
        r matches Ok(s) ==> exists|nonce: Seq<u8>|
            nonce.len() == NONCE_LEN && s@ == #[trigger] sealed_text(secret_key@, plaintext@, nonce),
{
    let key = derive_key(secret_key);
    let nonce = random_nonce();
    let ciphertext = match aes256gcm_encrypt(&key, nonce.as_slice(), plaintext.as_bytes()) {
        Ok(c) => c,
        Err(e) => return Err(CryptoError::Encrypt(e)),
    };
    let mut combined = nonce.clone();
    let mut i: usize = 0;
    while i < ciphertext.len()
        invariant
            i <= ciphertext.len(),
            combined@ == nonce@ + ciphertext@.take(i as int),
        decreases ciphertext.len() - i,
    {
        combined.push(ciphertext[i]);
        assert(ciphertext@.take(i + 1) == ciphertext@.take(i as int).push(ciphertext@[i as int]));
        i += 1;
    }
    assert(ciphertext@.take(ciphertext@.len() as int) =~= ciphertext@);
    proof {
        assert(combined@ == nonce@ + spec_aes256gcm_seal(key@, nonce@, encode_utf8(plaintext@)));
        assert(combined@.len() == encode_utf8(plaintext@).len() + 28);
    }
    let s = base64_encode(combined.as_slice());
    assert(s@ == sealed_text(secret_key@, plaintext@, nonce@));
    Ok(s)
}

/// What decrypting the stored text `encoded` under `secret_key` yields: the
/// base64 is decoded, the first 12 bytes are the nonce, the rest is opened
/// with AES-256-GCM, and the plaintext must be UTF-8. The error variant is
/// named by the first step that fails.
pub open spec fn decrypt_outcome(secret_key: Seq<char>, encoded: Seq<char>) -> Result<Seq<char>, ()> {
    match spec_base64_decode(encoded) {
        None => Err(()),
        Some(combined) => if combined.len() < NONCE_LEN {
            Err(())
        } else {
            match spec_aes256gcm_open(
                key_for(secret_key),
                combined.take(NONCE_LEN as int),
                combined.skip(NONCE_LEN as int),
            ) {
                None => Err(()),
                Some(p) => if valid_utf8(p) {
                    Ok(decode_utf8(p))
                } else {
                    Err(())
                },
            }
        },
    }
}

/// The step at which decrypting fails, as a [`CryptoError`] variant test.
pub open spec fn decrypt_error_matches(
    secret_key: Seq<char>,
    encoded: Seq<char>,
    e: CryptoError,
) -> bool {
    match spec_base64_decode(encoded) {
        None => e is Decode,
        Some(combined) => if combined.len() < NONCE_LEN {
            e is TooShort
        } else {
            match spec_aes256gcm_open(
                key_for(secret_key),
                combined.take(NONCE_LEN as int),
                combined.skip(NONCE_LEN as int),
            ) {
                None => e is Decrypt,
                Some(p) => e is InvalidUtf8,
            }
        },
    }
}

/// Decrypt the stored text `encoded` under `secret_key`.
///
/// The result is exactly [`decrypt_outcome`], with the error of the step that
/// failed; and decrypting what [`encrypt`] stored under the same secret key
/// gives the same plaintext back, whatever nonce it drew.
pub fn decrypt(secret_key: &str, encoded: &str) -> (r: Result<String, CryptoError>)
    ensures
        match r {
            Ok(s) => decrypt_outcome(secret_key@, encoded@) == Ok::<Seq<char>, ()>(s@),
            Err(e) => decrypt_outcome(secret_key@, encoded@) is Err && decrypt_error_matches(
                secret_key@,
                encoded@,
                e,
            ),
        },
        forall|plaintext: Seq<char>, nonce: Seq<u8>|
            nonce.len() == NONCE_LEN && encode_utf8(plaintext).len() <= AES_GCM_MAX_PLAINTEXT
                && encoded@ == #[trigger] sealed_text(secret_key@, plaintext, nonce) ==> (r matches Ok(
                s,
            ) && s@ == plaintext),
{
    let combined = match base64_decode(encoded) {
        Ok(c) => c,
        Err(e) => return Err(CryptoError::Decode(e)),
    };
    let key = derive_key(secret_key);
    proof {
        assert forall|pt: Seq<char>, nonce: Seq<u8>|
            nonce.len() == NONCE_LEN && encode_utf8(pt).len() <= AES_GCM_MAX_PLAINTEXT
                && encoded@ == #[trigger] sealed_text(secret_key@, pt, nonce) implies combined@
            == nonce + spec_aes256gcm_seal(key@, nonce, encode_utf8(pt)) by {}
    }
    if combined.len() < NONCE_LEN {
        return Err(CryptoError::TooShort);
    }
    let (nonce_bytes, ciphertext) = combined.as_slice().split_at(NONCE_LEN);
    proof {
        assert(nonce_bytes@ =~= combined@.take(NONCE_LEN as int));
        assert(ciphertext@ =~= combined@.skip(NONCE_LEN as int));
        assert forall|pt: Seq<char>, nonce: Seq<u8>|
            nonce.len() == NONCE_LEN && encode_utf8(pt).len() <= AES_GCM_MAX_PLAINTEXT
                && encoded@ == #[trigger] sealed_text(secret_key@, pt, nonce) implies nonce_bytes@
            == nonce && spec_aes256gcm_seal(key@, nonce_bytes@, encode_utf8(pt)) == ciphertext@ by {
            let ct = spec_aes256gcm_seal(key@, nonce, encode_utf8(pt));
            assert(combined@ == nonce + ct);
            assert(combined@.take(NONCE_LEN as int) =~= nonce);
            assert(combined@.skip(NONCE_LEN as int) =~= ct);
        }
    }
    let plaintext = match aes256gcm_decrypt(&key, nonce_bytes, ciphertext) {
        Ok(p) => p,
        Err(e) => return Err(CryptoError::Decrypt(e)),
    };
    match string_from_utf8(plaintext) {
        Ok(s) => Ok(s),
        Err(e) => Err(CryptoError::InvalidUtf8(e)),
    }
}

} // verus!
