use api_signer::{generate_api_sign, SignError};
use base64::Engine;

fn params(pairs: &[(&str, &str)]) -> Vec<(Vec<u8>, Vec<u8>)> {
    pairs
        .iter()
        .map(|(k, v)| (k.as_bytes().to_vec(), v.as_bytes().to_vec()))
        .collect()
}

const SECRET: &str = "AAECAwQFBgcICQoLDA0ODxAREhMUFRYXGBkaGxwdHh8=";
const PATH: &str = "/0/private/OpenOrders";
const NONCE: &str = "1616492376594";

#[test]
fn known_vector() {
    let data = params(&[("nonce", NONCE), ("trades", "true")]);
    let sig = generate_api_sign(SECRET.as_bytes(), PATH.as_bytes(), NONCE.as_bytes(), &data)
        .expect("signing with a valid key succeeds");
    assert_eq!(
        sig,
        "hd2xN3QpIZiQUUO6wOKQReleJdoJCqWXvqJfAvkPbFusR4K3T2Jj0buyRc1QJVhzpggfa0mTgab/CtPO9UGX/Q=="
    );
}

#[test]
fn repeated_calls_agree() {
    let data = params(&[("nonce", NONCE), ("trades", "true")]);
    let first = generate_api_sign(SECRET.as_bytes(), PATH.as_bytes(), NONCE.as_bytes(), &data);
    let second = generate_api_sign(SECRET.as_bytes(), PATH.as_bytes(), NONCE.as_bytes(), &data);
    assert_eq!(first, second);
}

#[test]
fn nonce_change_changes_signature() {
    let data = params(&[("nonce", NONCE), ("trades", "true")]);
    let sig = generate_api_sign(SECRET.as_bytes(), PATH.as_bytes(), NONCE.as_bytes(), &data)
        .unwrap();
    let other = generate_api_sign(SECRET.as_bytes(), PATH.as_bytes(), "1616492376595".as_bytes(), &data)
        .unwrap();
    assert_ne!(sig, other);
}

#[test]
fn param_value_change_changes_signature() {
    let data = params(&[("nonce", NONCE), ("trades", "true")]);
    let changed = params(&[("nonce", NONCE), ("trades", "trus")]);
    let sig = generate_api_sign(SECRET.as_bytes(), PATH.as_bytes(), NONCE.as_bytes(), &data)
        .unwrap();
    let other = generate_api_sign(SECRET.as_bytes(), PATH.as_bytes(), NONCE.as_bytes(), &changed)
        .unwrap();
    assert_ne!(sig, other);
}

#[test]
fn path_change_changes_signature() {
    let data = params(&[("nonce", NONCE), ("trades", "true")]);
    let sig = generate_api_sign(SECRET.as_bytes(), PATH.as_bytes(), NONCE.as_bytes(), &data)
        .unwrap();
    let other = generate_api_sign(
        SECRET.as_bytes(),
        "/0/private/Balance".as_bytes(),
        NONCE.as_bytes(),
        &data,
    )
    .unwrap();
    assert_ne!(sig, other);
}

#[test]
fn key_change_changes_signature() {
    let data = params(&[("nonce", NONCE), ("trades", "true")]);
    let other_secret = "AQECAwQFBgcICQoLDA0ODxAREhMUFRYXGBkaGxwdHh8=";
    let sig = generate_api_sign(SECRET.as_bytes(), PATH.as_bytes(), NONCE.as_bytes(), &data)
        .unwrap();
    let other = generate_api_sign(other_secret.as_bytes(), PATH.as_bytes(), NONCE.as_bytes(), &data)
        .unwrap();
    assert_ne!(sig, other);
}

#[test]
fn pair_order_changes_signature() {
    let data = params(&[("nonce", NONCE), ("trades", "true")]);
    let swapped = params(&[("trades", "true"), ("nonce", NONCE)]);
    let sig = generate_api_sign(SECRET.as_bytes(), PATH.as_bytes(), NONCE.as_bytes(), &data)
        .unwrap();
    let other = generate_api_sign(SECRET.as_bytes(), PATH.as_bytes(), NONCE.as_bytes(), &swapped)
        .unwrap();
    assert_ne!(sig, other);
}

#[test]
fn invalid_key_is_a_configuration_error() {
    let data = params(&[("nonce", NONCE)]);
    let r = generate_api_sign("not base64!!!".as_bytes(), PATH.as_bytes(), NONCE.as_bytes(), &data);
    assert_eq!(r, Err(SignError::ConfigurationError));
}

#[test]
fn truncated_key_is_a_configuration_error() {
    let data = params(&[("nonce", NONCE)]);
    let bad = &SECRET[..SECRET.len() - 1];
    let r = generate_api_sign(bad.as_bytes(), PATH.as_bytes(), NONCE.as_bytes(), &data);
    assert_eq!(r, Err(SignError::ConfigurationError));
}

#[test]
fn empty_params_sign_successfully() {
    let data: Vec<(Vec<u8>, Vec<u8>)> = Vec::new();
    let sig = generate_api_sign(SECRET.as_bytes(), PATH.as_bytes(), NONCE.as_bytes(), &data)
        .expect("empty parameters still sign");
    assert_eq!(sig.len(), 88);
    assert_eq!(
        sig,
        "ybgWhDh+MSGUeUeAo+lPumyCCH86rjoQrdgfIbqNNrMucA1QkeFyDvr6TDUFluUiTU8DcG9RpgYNc4GKdBcP4w=="
    );
}

#[test]
fn signature_is_valid_base64_of_64_bytes() {
    let data = params(&[("nonce", NONCE), ("trades", "true")]);
    let sig = generate_api_sign(SECRET.as_bytes(), PATH.as_bytes(), NONCE.as_bytes(), &data)
        .unwrap();
    let mac = base64::engine::general_purpose::STANDARD
        .decode(sig.as_bytes())
        .expect("the signature is valid base64");
    assert_eq!(mac.len(), 64);
}

#[test]
fn signature_length_is_independent_of_input_size() {
    let long_value = "x".repeat(4096);
    let data = params(&[("nonce", NONCE), ("blob", &long_value)]);
    let sig = generate_api_sign(SECRET.as_bytes(), PATH.as_bytes(), NONCE.as_bytes(), &data)
        .unwrap();
    assert_eq!(sig.len(), 88);
}
