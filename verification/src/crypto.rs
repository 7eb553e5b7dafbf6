//! Trusted bindings to the base64 codec and the cryptographic primitives.
//!
//! Each executable function here wraps one call into an outside crate and
//! is trusted rather than verified. None of these results has a short
//! mathematical statement, so an uninterpreted spec function stands for
//! each; every one of them depends on the arguments alone.

use base64::Engine;
use hmac::Mac;
use sha2::Digest;
use vstd::prelude::*;

verus! {

/// What base64's STANDARD engine decodes a byte string to: the decoded
/// bytes when the input is valid standard base64 with padding, nothing
/// otherwise.
pub uninterp spec fn base64_decoding(s: Seq<u8>) -> Option<Seq<u8>>;

/// What base64's STANDARD engine encodes a byte sequence to.
pub uninterp spec fn base64_encoding(bytes: Seq<u8>) -> Seq<char>;

/// The SHA-256 digest of a byte sequence.
pub uninterp spec fn sha256_digest(data: Seq<u8>) -> Seq<u8>;

/// The HMAC-SHA512 authentication tag for a message under a key.
pub uninterp spec fn hmac_sha512_tag(key: Seq<u8>, message: Seq<u8>) -> Seq<u8>;

/// Relies on base64's `Engine::decode` with the STANDARD engine: success
/// and the decoded bytes depend on the input alone.
#[verifier::external_body]
pub(crate) fn base64_decode(s: &[u8]) -> (r: Option<Vec<u8>>)
    ensures
        match r {
            Some(v) => base64_decoding(s@) == Some(v@),
            None => base64_decoding(s@) is None,
        },
{
    base64::engine::general_purpose::STANDARD.decode(s).ok()
}

/// Relies on base64's `Engine::encode` with the STANDARD engine: standard
/// alphabet with padding, so four output characters stand for every three
/// input bytes, and the result depends on the input bytes alone.
#[verifier::external_body]
pub(crate) fn base64_encode(bytes: &[u8]) -> (r: String)
    ensures
        r@ == base64_encoding(bytes@),
        r@.len() == ((bytes@.len() + 2) / 3) * 4,
{
    base64::engine::general_purpose::STANDARD.encode(bytes)
}

/// Relies on sha2's `Sha256`: a 32-byte digest that depends on the input
/// bytes alone.
#[verifier::external_body]
pub(crate) fn sha256(data: &[u8]) -> (r: Vec<u8>)
    ensures
        r@ == sha256_digest(data@),
        r@.len() == 32,
{
    let mut hasher = sha2::Sha256::new();
    hasher.update(data);
    hasher.finalize().to_vec()
}

/// Relies on hmac's `Hmac<Sha512>`: `new_from_slice` accepts a key of any
/// length, and the 64-byte tag depends on key and message alone.
#[verifier::external_body]
pub(crate) fn hmac_sha512(key: &[u8], message: &[u8]) -> (r: Vec<u8>)
    ensures
        r@ == hmac_sha512_tag(key@, message@),
        r@.len() == 64,
{
    let mut mac = <hmac::Hmac<sha2::Sha512> as hmac::KeyInit>::new_from_slice(key).expect(
        "HMAC accepts keys of any length",
    );
    mac.update(message);
    mac.finalize().into_bytes().to_vec()
}

} // verus!
