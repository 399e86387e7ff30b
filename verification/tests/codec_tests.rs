use media_pipeline::base64_decode;
use media_pipeline::base64_encode;

#[test]
fn encodes_full_groups() {
    assert_eq!(base64_encode(b"Man"), "TWFu");
    assert_eq!(base64_encode(b"ManMan"), "TWFuTWFu");
}

#[test]
fn encodes_partial_groups_with_padding() {
    assert_eq!(base64_encode(b"Ma"), "TWE=");
    assert_eq!(base64_encode(b"M"), "TQ==");
    assert_eq!(base64_encode(b""), "");
}

#[test]
fn encodes_known_vectors() {
    assert_eq!(base64_encode(b"hello world"), "aGVsbG8gd29ybGQ=");
    assert_eq!(base64_encode(&[0xFF, 0xD8, 0xFF]), "/9j/");
    assert_eq!(base64_encode(&[0x00]), "AA==");
    assert_eq!(base64_encode(&[0xFF, 0xFF, 0xFF]), "////");
}

#[test]
fn round_trip_all_byte_values() {
    let data: Vec<u8> = (0u8..=255).collect();
    let encoded = base64_encode(&data);
    let decoded = base64_decode(&encoded).expect("decodes");
    assert_eq!(decoded, data);
}

#[test]
fn round_trip_odd_lengths() {
    for len in 0..10usize {
        let data: Vec<u8> = (0..len as u8).map(|b| b.wrapping_mul(37)).collect();
        let decoded = base64_decode(&base64_encode(&data)).expect("decodes");
        assert_eq!(decoded, data);
    }
}

#[test]
fn decode_rejects_bad_input() {
    assert!(base64_decode("TWF").is_none());
    assert!(base64_decode("TW!=").is_none());
    assert!(base64_decode("=AAA").is_none());
    assert!(base64_decode("TQ==TQ==").is_none());
    assert_eq!(base64_decode(""), Some(Vec::new()));
}
