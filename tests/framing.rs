use canary::{decode_record, decode_records, encode_record, payload_len, Failure, DEFAULT_CEILING};

#[test]
fn record_has_big_endian_length_prefix() {
    let r = encode_record(&[7, 8, 9]);
    assert_eq!(r, vec![0, 0, 0, 0, 0, 0, 0, 3, 7, 8, 9]);
}

#[test]
fn record_length_uses_all_eight_bytes() {
    let payload = vec![1u8; 300];
    let r = encode_record(&payload);
    assert_eq!(&r[..8], &[0, 0, 0, 0, 0, 0, 1, 44]);
    assert_eq!(r.len(), 308);
}

#[test]
fn record_round_trip() {
    let r = encode_record(b"hello");
    let (p, n) = decode_record(&r, DEFAULT_CEILING).unwrap();
    assert_eq!(p, b"hello".to_vec());
    assert_eq!(n, 13);
}

#[test]
fn empty_record() {
    let r = encode_record(&[]);
    assert_eq!(r, vec![0u8; 8]);
    assert_eq!(decode_record(&r, DEFAULT_CEILING), Ok((vec![], 8)));
}

#[test]
fn short_header_is_connection_closed() {
    assert_eq!(decode_record(&[0, 0, 0], DEFAULT_CEILING), Err(Failure::ConnectionClosed));
}

#[test]
fn short_body_is_connection_closed() {
    let mut r = encode_record(b"abcdef");
    r.truncate(10);
    assert_eq!(decode_record(&r, DEFAULT_CEILING), Err(Failure::ConnectionClosed));
}

#[test]
fn record_over_ceiling_is_too_large() {
    let r = encode_record(&[0u8; 20]);
    assert_eq!(decode_record(&r, 19), Err(Failure::TooLarge));
    assert!(decode_record(&r, 20).is_ok());
    let huge = [0, 0, 0, 0, 1, 0, 0, 1];
    assert_eq!(decode_record(&huge, DEFAULT_CEILING), Err(Failure::TooLarge));
}

#[test]
fn records_come_back_in_order() {
    let payloads: Vec<Vec<u8>> = vec![b"one".to_vec(), vec![], b"three".to_vec(), vec![0xff; 70000]];
    let mut wire = Vec::new();
    for p in &payloads {
        wire.extend(encode_record(p));
    }
    assert_eq!(decode_records(&wire, DEFAULT_CEILING), Ok(payloads));
}

#[test]
fn records_with_trailing_garbage_fail() {
    let mut wire = encode_record(b"x");
    wire.extend([0, 0]);
    assert_eq!(decode_records(&wire, DEFAULT_CEILING), Err(Failure::ConnectionClosed));
}

#[test]
fn header_declares_payload_length() {
    let r = encode_record(&[5u8; 258]);
    assert_eq!(payload_len(&r[..8], DEFAULT_CEILING), Ok(258));
    assert_eq!(payload_len(&r[..8], 100), Err(Failure::TooLarge));
    assert_eq!(payload_len(&r[..4], DEFAULT_CEILING), Err(Failure::ConnectionClosed));
}
