use api_signer::form_urlencode;

fn params(pairs: &[(&str, &str)]) -> Vec<(Vec<u8>, Vec<u8>)> {
    pairs
        .iter()
        .map(|(k, v)| (k.as_bytes().to_vec(), v.as_bytes().to_vec()))
        .collect()
}

fn encode_str(pairs: &[(&str, &str)]) -> String {
    String::from_utf8(form_urlencode(&params(pairs))).expect("encoded output is ASCII")
}

#[test]
fn plain_pairs_pass_through() {
    assert_eq!(
        encode_str(&[("nonce", "1616492376594"), ("trades", "true")]),
        "nonce=1616492376594&trades=true"
    );
}

#[test]
fn space_becomes_plus() {
    assert_eq!(encode_str(&[("a b", "c d")]), "a+b=c+d");
}

#[test]
fn reserved_bytes_are_percent_encoded() {
    assert_eq!(encode_str(&[("k", "%&=+")]), "k=%25%26%3D%2B");
}

#[test]
fn unreserved_marks_pass_through() {
    assert_eq!(encode_str(&[("~.-_", "*")]), "~.-_=%2A");
}

#[test]
fn multibyte_values_encode_each_byte() {
    assert_eq!(encode_str(&[("pair", "XBT€")]), "pair=XBT%E2%82%AC");
}

#[test]
fn empty_key_and_value_encode_to_separator_alone() {
    assert_eq!(encode_str(&[("", "")]), "=");
}

#[test]
fn no_params_encode_to_empty_string() {
    assert_eq!(encode_str(&[]), "");
}

#[test]
fn encoding_round_trips_through_an_independent_decoder() {
    let pairs = [
        ("nonce", "1616492376594"),
        ("order type", "limit"),
        ("pair", "XBT/USD"),
        ("note", "50% +fees & more=yes ~done"),
    ];
    let encoded = form_urlencode(&params(&pairs));
    let decoded: Vec<(String, String)> = url::form_urlencoded::parse(&encoded)
        .into_owned()
        .collect();
    let expected: Vec<(String, String)> = pairs
        .iter()
        .map(|(k, v)| (k.to_string(), v.to_string()))
        .collect();
    assert_eq!(decoded, expected);
}

#[test]
fn empty_value_round_trips() {
    let pairs = [("key", "")];
    let encoded = form_urlencode(&params(&pairs));
    assert_eq!(encoded, b"key=".to_vec());
    let decoded: Vec<(String, String)> = url::form_urlencoded::parse(&encoded)
        .into_owned()
        .collect();
    assert_eq!(decoded, vec![("key".to_string(), "".to_string())]);
}
