//! At-rest encryption of stored values.
//!
//! A `Crypto` holds a 32-byte key derived from a password. Sealing
//! prepends the fresh 12-byte nonce to the ciphertext; opening splits
//! it off again. The cipher itself is AES-256-GCM, called through
//! trusted wrappers; what this module verifies is the framing around
//! it and that a sealed blob opens back to its plaintext.

use vstd::prelude::*;
use vstd::string::StringSliceAdditionalSpecFns;
use crate::errors::MeshError;

verus! {

/// What AES-256-GCM sealing returns for a key, nonce and plaintext.
/// The result depends on those three alone.
pub uninterp spec fn gcm_seal(key: Seq<u8>, nonce: Seq<u8>, pt: Seq<u8>) -> Seq<u8>;

/// What AES-256-GCM opening returns for a key, nonce and ciphertext:
/// the plaintext, or nothing when authentication fails. The result
/// depends on those three alone.
pub uninterp spec fn gcm_open(key: Seq<u8>, nonce: Seq<u8>, ct: Seq<u8>) -> Option<Seq<u8>>;

/// Relies on argon2's `Argon2::hash_password_into` with a fresh random
/// 16-byte salt: fills exactly the 32-byte buffer it is given, and —
/// with a valid salt and output length — fails only on a password over
/// its four-gigabyte bound. The salt is random, so nothing is stated of
/// the key's value.
#[verifier::external_body]
fn derive_key(password: &str) -> (r: Option<Vec<u8>>)
    ensures
        r is Some <==> password.spec_bytes().len() <= 0xFFFFFFFF,
        r matches Some(k) ==> k@.len() == 32,
{
    let mut salt = [0u8; 16];
    argon2::password_hash::rand_core::RngCore::fill_bytes(
        &mut argon2::password_hash::rand_core::OsRng,
        &mut salt,
    );
    let mut key = [0u8; 32];
    match argon2::Argon2::default().hash_password_into(password.as_bytes(), &salt, &mut key) {
        Ok(()) => Some(key.to_vec()),
        Err(_) => None,
    }
}

/// Relies on `OsRng::fill_bytes` from the rand_core that aes-gcm
/// re-exports: fills exactly twelve random bytes.
#[verifier::external_body]
fn random_nonce() -> (r: Vec<u8>)
    ensures
        r@.len() == 12,
{
    let mut nonce = [0u8; 12];
    aes_gcm::aead::rand_core::RngCore::fill_bytes(&mut aes_gcm::aead::OsRng, &mut nonce);
    nonce.to_vec()
}

/// Relies on aes-gcm's `Aes256Gcm` with the `Aead` encrypt: sealing is
/// deterministic in key, nonce and plaintext; it refuses exactly the
/// plaintexts over GCM's bound of 2^36 bytes; the ciphertext is the
/// plaintext's length plus the 16-byte tag; and the AEAD contract opens
/// a sealed message back to its plaintext under the same key and nonce.
#[verifier::external_body]
fn aead_seal(key: &Vec<u8>, nonce: &Vec<u8>, pt: &[u8]) -> (r: Option<Vec<u8>>)
    requires
        key@.len() == 32,
        nonce@.len() == 12,
    ensures
        r is Some <==> pt@.len() <= 0x1000000000,
        r matches Some(ct) ==> ct@.len() == pt@.len() + 16 && ct@ == gcm_seal(key@, nonce@, pt@)
            && gcm_open(key@, nonce@, ct@) == Some(pt@),
{
    let cipher = match <aes_gcm::Aes256Gcm as aes_gcm::KeyInit>::new_from_slice(key.as_slice()) {
        Ok(c) => c,
        Err(_) => {
            return None;
        },
    };
    match aes_gcm::aead::Aead::encrypt(&cipher, aes_gcm::Nonce::from_slice(nonce.as_slice()), pt) {
        Ok(ct) => Some(ct),
        Err(_) => None,
    }
}

/// Relies on aes-gcm's `Aes256Gcm` with the `Aead` decrypt: opening is
/// deterministic in key, nonce and ciphertext, and fails exactly when
/// authentication fails.
#[verifier::external_body]
fn aead_open(key: &Vec<u8>, nonce: &Vec<u8>, ct: &[u8]) -> (r: Option<Vec<u8>>)
    requires
        key@.len() == 32,
        nonce@.len() == 12,
    ensures
        r is Some <==> gcm_open(key@, nonce@, ct@) is Some,
        r matches Some(pt) ==> gcm_open(key@, nonce@, ct@) == Some(pt@),
{
    let cipher = match <aes_gcm::Aes256Gcm as aes_gcm::KeyInit>::new_from_slice(key.as_slice()) {
        Ok(c) => c,
        Err(_) => {
            return None;
        },
    };
    match aes_gcm::aead::Aead::decrypt(&cipher, aes_gcm::Nonce::from_slice(nonce.as_slice()), ct) {
        Ok(pt) => Some(pt),
        Err(_) => None,
    }
}

/// The at-rest cipher: a 32-byte key derived from a password.
pub struct Crypto {
    key: Vec<u8>,
}

impl Crypto {
    /// The key, at the spec level.
    pub closed spec fn key_v(&self) -> Seq<u8> {
        self.key@
    }

    /// Well-formedness: the key is exactly 32 bytes.
    pub closed spec fn wf(&self) -> bool {
        self.key@.len() == 32
    }

    /// Derive a cipher from a password with a fresh random salt.
    /// Succeeds for every password within the derivation's
    /// four-gigabyte bound.
    pub fn new(password: &str) -> (r: Result<Crypto, MeshError>)
        ensures
            r is Ok <==> password.spec_bytes().len() <= 0xFFFFFFFF,
            r matches Ok(c) ==> c.wf(),
    {
        match derive_key(password) {
            Some(key) => Ok(Crypto { key }),
            None => {
                proof {
                    reveal_strlit("key derivation failed");
                }
                Err(MeshError::StoreFailed(String::from_str("key derivation failed")))
            },
        }
    }

    /// Seal a plaintext: a fresh 12-byte nonce, then the ciphertext.
    /// Succeeds for every plaintext within the cipher's bound, the blob
    /// is the plaintext's length plus 28 bytes of nonce and tag, and —
    /// whatever nonce was drawn — the blob opens back to the plaintext
    /// under this cipher's key.
    pub fn encrypt(&self, plaintext: &[u8]) -> (r: Result<Vec<u8>, MeshError>)
        requires
            self.wf(),
        ensures
            r is Ok <==> plaintext@.len() <= 0x1000000000,
            r matches Ok(blob) ==> blob@.len() == plaintext@.len() + 28 && gcm_open(
                self.key_v(),
                blob@.take(12),
                blob@.skip(12),
            ) == Some(plaintext@),
    {
        let nonce = random_nonce();
        let ct = match aead_seal(&self.key, &nonce, plaintext) {
            Some(ct) => ct,
            None => {
                proof {
                    reveal_strlit("encryption failed");
                }
                return Err(MeshError::StoreFailed(String::from_str("encryption failed")));
            },
        };
        let mut blob = nonce;
        let n = ct.len();
        let mut i: usize = 0;
        while i < n
            invariant
                0 <= i <= n,
                n == ct@.len(),
                blob@ == nonce@ + ct@.take(i as int),
                nonce@.len() == 12,
                gcm_open(self.key_v(), nonce@, ct@) == Some(plaintext@),
            decreases n - i,
        {
            blob.push(ct[i]);
            proof {
                assert(blob@ =~= nonce@ + ct@.take(i as int + 1));
            }
            i = i + 1;
        }
        proof {
            assert(ct@.take(n as int) =~= ct@);
            assert(blob@.take(12) =~= nonce@);
            assert(blob@.skip(12) =~= ct@);
        }
        Ok(blob)
    }

    /// Open a sealed blob: split the nonce off and authenticate the
    /// rest. Fails exactly on blobs shorter than a nonce and on blobs
    /// the key does not authenticate.
    pub fn decrypt(&self, data: &[u8]) -> (r: Result<Vec<u8>, MeshError>)
        requires
            self.wf(),
        ensures
            r is Ok <==> data@.len() >= 12 && gcm_open(
                self.key_v(),
                data@.take(12),
                data@.skip(12),
            ) is Some,
            r matches Ok(pt) ==> gcm_open(self.key_v(), data@.take(12), data@.skip(12)) == Some(
                pt@,
            ),
    {
        proof {
            reveal_strlit("ciphertext too short");
            reveal_strlit("decryption failed");
        }
        if data.len() < 12 {
            return Err(MeshError::StoreFailed(String::from_str("ciphertext too short")));
        }
        let mut nonce: Vec<u8> = Vec::new();
        let mut i: usize = 0;
        while i < 12
            invariant
                0 <= i <= 12,
                data@.len() >= 12,
                nonce@ == data@.take(i as int),
            decreases 12 - i,
        {
            nonce.push(data[i]);
            proof {
                assert(nonce@ =~= data@.take(i as int + 1));
            }
            i = i + 1;
        }
        let n = data.len();
        let mut ct: Vec<u8> = Vec::new();
        let mut j: usize = 12;
        while j < n
            invariant
                12 <= j <= n,
                n == data@.len(),
                ct@ == data@.subrange(12, j as int),
            decreases n - j,
        {
            ct.push(data[j]);
            proof {
                assert(ct@ =~= data@.subrange(12, j as int + 1));
            }
            j = j + 1;
        }
        proof {
            assert(ct@ =~= data@.skip(12));
        }
        match aead_open(&self.key, &nonce, ct.as_slice()) {
            Some(pt) => Ok(pt),
            None => Err(MeshError::StoreFailed(String::from_str("decryption failed"))),
        }
    }
}

} // verus!
