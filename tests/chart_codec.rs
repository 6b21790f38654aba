use bram_engine::chart::{decode_chart, encode_chart, ChartError};

#[test]
fn encode_then_decode_small_payload() {
    let bytes = encode_chart(&vec![1, 2, 3], 30).unwrap();
    let (payload, rate) = decode_chart(&bytes).unwrap();
    assert_eq!(payload, vec![1, 2, 3]);
    assert_eq!(rate, 30);
}

#[test]
fn encoded_layout_is_exact() {
    let bytes = encode_chart(&vec![1, 2, 3], 30).unwrap();
    assert_eq!(bytes, vec![0x42, 0x41, 0x52, 0x4D, 1, 30, 3, 0, 0, 0, 1, 2, 3]);
}

#[test]
fn length_field_is_little_endian() {
    let payload: Vec<u8> = (0..300u32).map(|i| (i % 251) as u8).collect();
    let bytes = encode_chart(&payload, 7).unwrap();
    assert_eq!(&bytes[6..10], &[0x2C, 0x01, 0, 0]);
    assert_eq!(bytes.len(), 310);
    assert_eq!(decode_chart(&bytes).unwrap(), (payload, 7));
}

#[test]
fn round_trip_over_rates_and_payloads() {
    let payloads: Vec<Vec<u8>> = vec![vec![], vec![0], vec![255, 0, 255], (0..=255u8).collect()];
    for p in payloads.iter() {
        for r in [0u8, 1, 30, 128, 255] {
            let bytes = encode_chart(p, r).unwrap();
            assert_eq!(decode_chart(&bytes).unwrap(), (p.clone(), r));
        }
    }
}

#[test]
fn empty_payload_has_header_only() {
    let bytes = encode_chart(&vec![], 255).unwrap();
    assert_eq!(bytes.len(), 10);
    assert_eq!(decode_chart(&bytes).unwrap(), (vec![], 255));
}

#[test]
fn corrupted_magic_is_rejected() {
    let mut bytes = encode_chart(&vec![1, 2, 3], 30).unwrap();
    bytes[1] = b'X';
    assert_eq!(decode_chart(&bytes), Err(ChartError::UnsupportedVersion));
}

#[test]
fn unknown_version_is_rejected() {
    let mut bytes = encode_chart(&vec![1, 2, 3], 30).unwrap();
    bytes[4] = 2;
    assert_eq!(decode_chart(&bytes), Err(ChartError::UnsupportedVersion));
}

#[test]
fn short_header_is_truncated() {
    assert_eq!(decode_chart(&vec![]), Err(ChartError::Truncated));
    assert_eq!(decode_chart(&vec![0x42, 0x41, 0x52]), Err(ChartError::Truncated));
    assert_eq!(decode_chart(&vec![0x42, 0x41, 0x52, 0x4D]), Err(ChartError::Truncated));
    assert_eq!(decode_chart(&vec![0x42, 0x41, 0x52, 0x4D, 1, 30, 0, 0]), Err(ChartError::Truncated));
}

#[test]
fn short_marker_with_wrong_bytes_is_unsupported() {
    assert_eq!(decode_chart(&vec![0, 0, 0, 0]), Err(ChartError::UnsupportedVersion));
}

#[test]
fn missing_payload_bytes_are_truncated() {
    let mut bytes = encode_chart(&vec![1, 2, 3], 30).unwrap();
    bytes.pop();
    assert_eq!(decode_chart(&bytes), Err(ChartError::Truncated));
}

#[test]
fn trailing_bytes_are_truncated() {
    let mut bytes = encode_chart(&vec![1, 2, 3], 30).unwrap();
    bytes.push(9);
    assert_eq!(decode_chart(&bytes), Err(ChartError::Truncated));
}
