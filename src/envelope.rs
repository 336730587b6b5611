//! Server-side encryption of object bodies: AES-256-GCM with a fresh key and
//! nonce per object, the key material kept base64-encoded in the sidecar.

use vstd::prelude::*;
use aes_gcm::aead::{Aead, KeyInit};
use base64::Engine;
use rand::RngCore;
use crate::models::ObjectEncryption;

verus! {

/// The AES-256-GCM ciphertext (with its tag) of `plaintext` under `key` and
/// `nonce`, with no associated data.
pub uninterp spec fn aes_gcm_sealed(key: Seq<u8>, nonce: Seq<u8>, plaintext: Seq<u8>) -> Seq<u8>;

/// The standard, padded base64 text of `b`.
pub uninterp spec fn base64_text(b: Seq<u8>) -> Seq<char>;

/// `r` holds every plaintext that `ciphertext` is the sealing of.
pub open spec fn unseals(r: Option<Vec<u8>>, key: Seq<u8>, nonce: Seq<u8>, ciphertext: Seq<u8>) -> bool {
    forall|p: Seq<u8>| #[trigger] aes_gcm_sealed(key, nonce, p) == ciphertext ==> (r matches Some(x) && x@ == p)
}

/// `r` holds every byte string whose base64 text is `s`.
pub open spec fn decodes(r: Option<Vec<u8>>, s: Seq<char>) -> bool {
    forall|b: Seq<u8>| #[trigger] base64_text(b) == s ==> (r matches Some(x) && x@ == b)
}

/// Relies on `rand::rngs::OsRng::fill_bytes`: `n` bytes from the operating
/// system's generator.
#[verifier::external_body]
fn random_bytes(n: usize) -> (r: Vec<u8>)
    ensures
        r@.len() == n,
{
    let mut b = vec![0u8; n];
    rand::rngs::OsRng.fill_bytes(&mut b);
    b
}

/// Relies on `aes_gcm::Aes256Gcm::encrypt`: seals the plaintext with no
/// associated data; it fails only for a plaintext longer than 2^36 bytes.
#[verifier::external_body]
fn aes_gcm_seal(key: &[u8], nonce: &[u8], plaintext: &[u8]) -> (r: Option<Vec<u8>>)
    requires
        key@.len() == 32,
        nonce@.len() == 12,
    ensures
        r matches Some(c) ==> c@ == aes_gcm_sealed(key@, nonce@, plaintext@),
        plaintext@.len() <= 68719476736 ==> r is Some,
{
    let cipher = aes_gcm::Aes256Gcm::new(aes_gcm::Key::<aes_gcm::Aes256Gcm>::from_slice(key));
    cipher.encrypt(aes_gcm::Nonce::from_slice(nonce), plaintext).ok()
}

/// Relies on `aes_gcm::Aes256Gcm::decrypt`: opening what was sealed under the
/// same key and nonce gives back the plaintext.
#[verifier::external_body]
fn aes_gcm_open(key: &[u8], nonce: &[u8], ciphertext: &[u8]) -> (r: Option<Vec<u8>>)
    requires
        key@.len() == 32,
        nonce@.len() == 12,
    ensures
        unseals(r, key@, nonce@, ciphertext@),
{
    let cipher = aes_gcm::Aes256Gcm::new(aes_gcm::Key::<aes_gcm::Aes256Gcm>::from_slice(key));
    cipher.decrypt(aes_gcm::Nonce::from_slice(nonce), ciphertext).ok()
}

/// Relies on `base64::engine::general_purpose::STANDARD.encode`.
#[verifier::external_body]
fn to_base64(b: &[u8]) -> (r: String)
    ensures
        r@ == base64_text(b@),
{
    base64::engine::general_purpose::STANDARD.encode(b)
}

/// Relies on `base64::engine::general_purpose::STANDARD.decode`: decoding the
/// encoding of some bytes gives those bytes back.
#[verifier::external_body]
fn from_base64(s: &str) -> (r: Option<Vec<u8>>)
    ensures
        decodes(r, s@),
{
    base64::engine::general_purpose::STANDARD.decode(s).ok()
}

/// An encrypted body and the sidecar entry needed to open it.
pub struct SealedBody {
    pub ciphertext: Vec<u8>,
    pub encryption: ObjectEncryption,
}

/// Encrypts `data` under the given 256-bit key and 96-bit nonce; `None` only
/// where the cipher refuses the plaintext.
pub fn seal_with(data: &[u8], key: &[u8], nonce: &[u8]) -> (r: Option<SealedBody>)
    requires
        key@.len() == 32,
        nonce@.len() == 12,
    ensures
        r matches Some(s) ==> s.ciphertext@ == aes_gcm_sealed(key@, nonce@, data@)
            && s.encryption.algorithm@ == "AES256"@
            && s.encryption.key_base64@ == base64_text(key@)
            && s.encryption.nonce_base64@ == base64_text(nonce@),
        data@.len() <= 68719476736 ==> r is Some,
{
    match aes_gcm_seal(key, nonce, data) {
        Some(c) => Some(SealedBody {
            ciphertext: c,
            encryption: ObjectEncryption {
                algorithm: "AES256".to_owned(),
                key_base64: to_base64(key),
                nonce_base64: to_base64(nonce),
            },
        }),
        None => None,
    }
}

/// Encrypts `data` under a fresh random key and nonce.
pub fn seal_object(data: &[u8]) -> (r: Option<SealedBody>)
    ensures
        r matches Some(s) ==> exists|k: Seq<u8>, n: Seq<u8>| k.len() == 32 && n.len() == 12
            && #[trigger] aes_gcm_sealed(k, n, data@) == s.ciphertext@
            && s.encryption.key_base64@ == base64_text(k) && s.encryption.nonce_base64@ == base64_text(n),
        data@.len() <= 68719476736 ==> r is Some,
{
    let key = random_bytes(32);
    let nonce = random_bytes(12);
    seal_with(data, key.as_slice(), nonce.as_slice())
}

/// Decrypts an object body with the key material of its sidecar. Fails where
/// the material does not decode to a 256-bit key and a 96-bit nonce, or the
/// body does not open under them.
pub fn open_object(ciphertext: &[u8], encryption: &ObjectEncryption) -> (r: Option<Vec<u8>>)
    ensures
        forall|k: Seq<u8>, n: Seq<u8>, p: Seq<u8>|
            k.len() == 32 && n.len() == 12 && base64_text(k) == encryption.key_base64@ && base64_text(n) == encryption.nonce_base64@
                && #[trigger] aes_gcm_sealed(k, n, p) == ciphertext@ ==> (r matches Some(x) && x@ == p),
{
    let key = match from_base64(encryption.key_base64.as_str()) {
        Some(k) => k,
        None => {
            return None;
        },
    };
    let nonce = match from_base64(encryption.nonce_base64.as_str()) {
        Some(n) => n,
        None => {
            return None;
        },
    };
    if key.len() != 32 || nonce.len() != 12 {
        return None;
    }
    aes_gcm_open(key.as_slice(), nonce.as_slice(), ciphertext)
}

/// What is stored for an encrypted object opens back to the bytes the client
/// sent: `body` is what `seal_object` or `seal_with` returned for `data`, and
/// `opened` is what `open_object` returns for it.
pub proof fn lemma_encryption_round_trip(
    data: Seq<u8>,
    k: Seq<u8>,
    n: Seq<u8>,
    ciphertext: Seq<u8>,
    key_text: Seq<char>,
    nonce_text: Seq<char>,
    opened: Option<Seq<u8>>,
)
    requires
        k.len() == 32,
        n.len() == 12,
        ciphertext == aes_gcm_sealed(k, n, data),
        key_text == base64_text(k),
        nonce_text == base64_text(n),
        forall|k2: Seq<u8>, n2: Seq<u8>, p: Seq<u8>|
            k2.len() == 32 && n2.len() == 12 && base64_text(k2) == key_text && base64_text(n2) == nonce_text
                && #[trigger] aes_gcm_sealed(k2, n2, p) == ciphertext ==> opened == Some(p),
    ensures
        opened == Some(data),
{
    assert(aes_gcm_sealed(k, n, data) == ciphertext);
}

} // verus!
