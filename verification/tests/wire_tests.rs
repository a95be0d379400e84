use traffic_link::wire::{encode_values, parse_payload};

#[test]
fn encodes_values_as_fixed_point_decimals() {
    let out = encode_values(&vec![0, 100, 10000, 9999, 305]);
    assert_eq!(out, b"[0.00,1.00,100.00,99.99,3.05]".to_vec());
}

#[test]
fn encodes_the_empty_array() {
    let out = encode_values(&vec![]);
    assert_eq!(out, b"[]".to_vec());
}

#[test]
fn parsing_an_encoded_payload_returns_the_values() {
    let values: Vec<u32> = vec![0, 1, 99, 100, 101, 999, 1000, 9999, 10000, 42];
    let out = encode_values(&values);
    let back = parse_payload(&out).expect("round trip must parse");
    assert_eq!(back, values);
}

#[test]
fn parser_rejects_malformed_payloads() {
    assert!(parse_payload(&b"".to_vec()).is_none());
    assert!(parse_payload(&b"[".to_vec()).is_none());
    assert!(parse_payload(&b"]".to_vec()).is_none());
    assert!(parse_payload(&b"[1]".to_vec()).is_none());
    assert!(parse_payload(&b"[1.0]".to_vec()).is_none());
    assert!(parse_payload(&b"[1.000]".to_vec()).is_none());
    assert!(parse_payload(&b"[1.00,]".to_vec()).is_none());
    assert!(parse_payload(&b"[1.00".to_vec()).is_none());
    assert!(parse_payload(&b"1.00]".to_vec()).is_none());
    assert!(parse_payload(&b"[1234.00]".to_vec()).is_none());
    assert!(parse_payload(&b"[abc]".to_vec()).is_none());
}

#[test]
fn payload_is_valid_json_for_an_outside_parser() {
    let values: Vec<u32> = vec![0, 100, 1250, 10000];
    let out = encode_values(&values);
    let parsed: Vec<f64> = serde_json::from_slice(&out).expect("payload must be valid JSON");
    let expected: Vec<f64> = values.iter().map(|&q| q as f64 / 100.0).collect();
    assert_eq!(parsed.len(), expected.len());
    for (a, b) in parsed.iter().zip(expected.iter()) {
        assert!((a - b).abs() < 1e-9);
    }
}
