//! Error taxonomy of the signing routine.

use vstd::prelude::*;

verus! {

/// Failure modes of the signer.
///
/// `ConfigurationError` reports a secret key that is not valid base64;
/// proceeding would produce a signature the remote API must reject, so the
/// caller has to fail loudly. `EncodingError` is reserved for request
/// parameters that cannot be represented as text; with byte-string
/// parameters it is never produced, and it is kept only so the error
/// taxonomy is complete for callers that match on it.
#[derive(Clone, Copy, PartialEq, Eq, Structural, Debug)]
pub enum SignError {
    ConfigurationError,
    EncodingError,
}

} // verus!
