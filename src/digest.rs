//! Digests, MACs and their hexadecimal text: MD5 for ETags, SHA-256 and
//! HMAC-SHA256 for Signature V4.

use vstd::prelude::*;
use hmac::Mac;
use sha2::Digest;

verus! {

/// The MD5 digest of `data`.
pub uninterp spec fn md5_of(data: Seq<u8>) -> Seq<u8>;

/// The SHA-256 digest of `data`.
pub uninterp spec fn sha256_of(data: Seq<u8>) -> Seq<u8>;

/// HMAC-SHA256 of `data` under `key`.
pub uninterp spec fn hmac_sha256_of(key: Seq<u8>, data: Seq<u8>) -> Seq<u8>;

pub open spec fn hex_digit_char(v: nat) -> char {
    seq!['0', '1', '2', '3', '4', '5', '6', '7', '8', '9', 'a', 'b', 'c', 'd', 'e', 'f'][v as int]
}

/// Two lower-case hexadecimal digits for each byte, high digit first.
pub open spec fn hex_text(b: Seq<u8>) -> Seq<char>
    decreases b.len(),
{
    if b.len() == 0 {
        Seq::empty()
    } else {
        hex_text(b.drop_last()) + seq![
            hex_digit_char((b.last() / 16) as nat),
            hex_digit_char((b.last() % 16) as nat),
        ]
    }
}

/// The text of an ETag: the hex MD5 digest of the bytes.
pub open spec fn etag_text(data: Seq<u8>) -> Seq<char> {
    hex_text(md5_of(data))
}

/// Relies on `md5::compute`: the 16-byte MD5 digest of the data.
#[verifier::external_body]
pub fn md5_digest(data: &[u8]) -> (r: Vec<u8>)
    ensures
        r@ == md5_of(data@),
        r@.len() == 16,
{
    md5::compute(data).0.to_vec()
}

/// Relies on `sha2::Sha256::digest`: the 32-byte SHA-256 digest of the data.
#[verifier::external_body]
pub fn sha256_digest(data: &[u8]) -> (r: Vec<u8>)
    ensures
        r@ == sha256_of(data@),
        r@.len() == 32,
{
    sha2::Sha256::digest(data).to_vec()
}

/// Relies on `hmac::Hmac<Sha256>`: the 32-byte MAC of `data` under `key`; a key
/// of any length is accepted.
#[verifier::external_body]
pub fn hmac_sha256(key: &[u8], data: &[u8]) -> (r: Vec<u8>)
    ensures
        r@ == hmac_sha256_of(key@, data@),
        r@.len() == 32,
{
    match hmac::Hmac::<sha2::Sha256>::new_from_slice(key) {
        Ok(mut mac) => {
            mac.update(data);
            mac.finalize().into_bytes().to_vec()
        },
        Err(_) => Vec::new(),
    }
}

/// Relies on `hex::encode`: two lower-case hexadecimal digits per byte.
#[verifier::external_body]
pub fn to_hex(b: &[u8]) -> (r: String)
    ensures
        r@ == hex_text(b@),
{
    hex::encode(b)
}

/// The ETag of a body: the hex MD5 digest of its bytes.
pub fn etag_of(data: &[u8]) -> (r: String)
    ensures
        r@ == etag_text(data@),
{
    let d = md5_digest(data);
    to_hex(d.as_slice())
}

} // verus!
