//! The signing routine: derives the per-request authentication signature
//! from the secret key, the endpoint path, the nonce and the parameters.

use crate::crypto::base64_decode;
use crate::crypto::base64_decoding;
use crate::crypto::base64_encode;
use crate::crypto::base64_encoding;
use crate::crypto::hmac_sha512;
use crate::crypto::hmac_sha512_tag;
use crate::crypto::sha256;
use crate::crypto::sha256_digest;
use crate::encoding::encoded_params;
use crate::encoding::form_urlencode;
use crate::encoding::params_view;
use crate::errors::SignError;
use vstd::prelude::*;

verus! {

/// The raw signature bytes: the HMAC-SHA512 tag, under the decoded secret
/// key, of the endpoint path followed by the SHA-256 digest of the nonce
/// concatenated with the canonical URL-encoding of the parameters.
pub open spec fn signature_tag(
    secret: Seq<u8>,
    path: Seq<u8>,
    nonce: Seq<u8>,
    params: Seq<(Seq<u8>, Seq<u8>)>,
) -> Seq<u8> {
    hmac_sha512_tag(secret, path + sha256_digest(nonce + encoded_params(params)))
}

/// What signing returns, for every input: the base64 encoding of the
/// signature tag when the secret key is valid base64, and a configuration
/// error otherwise.
pub open spec fn api_sign_result(
    secret_b64: Seq<u8>,
    path: Seq<u8>,
    nonce: Seq<u8>,
    params: Seq<(Seq<u8>, Seq<u8>)>,
) -> Result<Seq<char>, SignError> {
    match base64_decoding(secret_b64) {
        Some(secret) => Ok(base64_encoding(signature_tag(secret, path, nonce, params))),
        None => Err(SignError::ConfigurationError),
    }
}

/// The mathematical view of an executable signing result.
pub open spec fn result_view(r: Result<String, SignError>) -> Result<Seq<char>, SignError> {
    match r {
        Ok(sig) => Ok(sig@),
        Err(e) => Err(e),
    }
}

/// Concatenates two byte strings.
fn concat_bytes(a: &[u8], b: &[u8]) -> (r: Vec<u8>)
    ensures
        r@ == a@ + b@,
{
    let mut out: Vec<u8> = Vec::new();
    let mut i: usize = 0;
    while i < a.len()
        invariant
            i <= a.len(),
            out@ == a@.take(i as int),
        decreases a.len() - i,
    {
        out.push(a[i]);
        assert(out@ =~= a@.take(i + 1 as int));
        i += 1;
    }
    assert(out@ =~= a@);
    let mut j: usize = 0;
    while j < b.len()
        invariant
            j <= b.len(),
            out@ == a@ + b@.take(j as int),
        decreases b.len() - j,
    {
        out.push(b[j]);
        assert(out@ =~= a@ + b@.take(j + 1 as int));
        j += 1;
    }
    assert(out@ =~= a@ + b@);
    out
}

/// Produces the authentication signature for one request.
///
/// The secret key is the base64-encoded credential from process
/// configuration, passed in explicitly; `url_path` is the literal API
/// route, used verbatim; `nonce` is the caller's strictly increasing
/// per-request value; `params` is the request body as ordered `key=value`
/// pairs. On success the signature is the base64 encoding of a 64-byte
/// HMAC-SHA512 tag, hence always 88 characters; a secret key that is not
/// valid base64 is the one failure, reported as `ConfigurationError`.
pub fn generate_api_sign(
    secret_b64: &[u8],
    url_path: &[u8],
    nonce: &[u8],
    params: &Vec<(Vec<u8>, Vec<u8>)>,
) -> (r: Result<String, SignError>)
    ensures
        result_view(r) == api_sign_result(secret_b64@, url_path@, nonce@, params_view(params@)),
        r matches Ok(sig) ==> sig@.len() == 88,
{
    match base64_decode(secret_b64) {
        None => Err(SignError::ConfigurationError),
        Some(secret) => {
            let url_data = form_urlencode(params);
            let payload = concat_bytes(nonce, url_data.as_slice());
            let digest = sha256(payload.as_slice());
            let message = concat_bytes(url_path, digest.as_slice());
            let tag = hmac_sha512(secret.as_slice(), message.as_slice());
            Ok(base64_encode(tag.as_slice()))
        },
    }
}

/// The MAC input determines the endpoint path and the digest: since the
/// digest has a fixed length, two MAC inputs built from equal-length
/// digests coincide only when both the path and the digest do.
pub proof fn lemma_mac_input_determines_parts(
    path1: Seq<u8>,
    digest1: Seq<u8>,
    path2: Seq<u8>,
    digest2: Seq<u8>,
)
    requires
        digest1.len() == digest2.len(),
        path1 + digest1 == path2 + digest2,
    ensures
        path1 == path2,
        digest1 == digest2,
{
    assert((path1 + digest1).len() == path1.len() + digest1.len());
    assert((path2 + digest2).len() == path2.len() + digest2.len());
    assert(path1.len() == path2.len());
    assert(path1 =~= (path1 + digest1).take(path1.len() as int));
    assert(path2 =~= (path2 + digest2).take(path2.len() as int));
    assert(digest1 =~= (path1 + digest1).skip(path1.len() as int));
    assert(digest2 =~= (path2 + digest2).skip(path2.len() as int));
}

/// Determinism: the signature is a pure function of the secret key, the
/// endpoint path, the nonce and the parameters; two signing results for
/// the same inputs are the same.
pub proof fn lemma_signing_deterministic(
    secret_b64: Seq<u8>,
    path: Seq<u8>,
    nonce: Seq<u8>,
    params: Seq<(Seq<u8>, Seq<u8>)>,
    r1: Result<Seq<char>, SignError>,
    r2: Result<Seq<char>, SignError>,
)
    requires
        r1 == api_sign_result(secret_b64, path, nonce, params),
        r2 == api_sign_result(secret_b64, path, nonce, params),
    ensures
        r1 == r2,
{
}

} // verus!
