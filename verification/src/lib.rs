//! Request signing for a private REST API.
//!
//! The signer derives a per-request authentication signature from a
//! base64-encoded secret key, a caller-supplied nonce, the endpoint path,
//! and the request parameters.

pub mod crypto;
pub mod decoding;
pub mod encoding;
pub mod errors;
pub mod sign;

pub use encoding::form_urlencode;
pub use errors::SignError;
pub use sign::generate_api_sign;
