use step_harness::errors::HarnessError;
use step_harness::hexcodec::{from_hex, from_hex_char, to_hex};

#[test]
fn hex_char_values() {
    assert_eq!(from_hex_char(b'0'), 0);
    assert_eq!(from_hex_char(b'9'), 9);
    assert_eq!(from_hex_char(b'a'), 10);
    assert_eq!(from_hex_char(b'f'), 15);
    assert_eq!(from_hex_char(b'A'), 10);
    assert_eq!(from_hex_char(b'F'), 15);
    assert_eq!(from_hex_char(b'g'), -1);
    assert_eq!(from_hex_char(b'x'), -1);
    assert_eq!(from_hex_char(b' '), -1);
}

#[test]
fn decode_even_with_prefix() {
    assert_eq!(from_hex(b"0x1234").unwrap(), vec![0x12, 0x34]);
    assert_eq!(from_hex(b"0xDeadBeef").unwrap(), vec![0xde, 0xad, 0xbe, 0xef]);
}

#[test]
fn decode_even_without_prefix() {
    assert_eq!(from_hex(b"1234").unwrap(), vec![0x12, 0x34]);
}

#[test]
fn decode_odd_first_digit_stands_alone() {
    assert_eq!(from_hex(b"abc").unwrap(), vec![0x0a, 0xbc]);
    assert_eq!(from_hex(b"0x123").unwrap(), vec![0x01, 0x23]);
    assert_eq!(from_hex(b"0x0").unwrap(), vec![0x00]);
}

#[test]
fn decode_empty() {
    assert_eq!(from_hex(b"").unwrap(), Vec::<u8>::new());
    assert_eq!(from_hex(b"0x").unwrap(), Vec::<u8>::new());
}

#[test]
fn decode_rejects_non_hex() {
    assert_eq!(from_hex(b"12g4"), Err(HarnessError::MalformedHex));
    assert_eq!(from_hex(b"0x12zz"), Err(HarnessError::MalformedHex));
    assert_eq!(from_hex(b"q"), Err(HarnessError::MalformedHex));
}

#[test]
fn encode_lowercase_even() {
    assert_eq!(to_hex(&[0xde, 0xad, 0xbe, 0xef]), b"deadbeef".to_vec());
    assert_eq!(to_hex(&[]), Vec::<u8>::new());
    assert_eq!(to_hex(&[0x00, 0x0f]), b"000f".to_vec());
}

#[test]
fn encode_decode_round_trip_case_normalized() {
    let text = b"DeadBeef0012".to_vec();
    let decoded = from_hex(&text).unwrap();
    assert_eq!(to_hex(&decoded), b"deadbeef0012".to_vec());

    let lower = b"00ff7a".to_vec();
    assert_eq!(to_hex(&from_hex(&lower).unwrap()), lower);
}
