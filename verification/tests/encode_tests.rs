use hgecko::codes::{sort_by_addr, Code};
use hgecko::encode::{codes_encodable, encode_codes};

const MAGIC: [u8; 8] = [0x00, 0xD0, 0xC0, 0xDE, 0x00, 0xD0, 0xC0, 0xDE];
const TERM: [u8; 8] = [0xF0, 0x00, 0x00, 0x00, 0x00, 0x00, 0x00, 0x00];

#[test]
fn single_word_record_round_trip() {
    let codes = vec![Code { addr: 0x80001234, code: vec![0x38, 0x60, 0x00, 0x01] }];
    assert!(codes_encodable(&codes));
    let out = encode_codes(&codes);
    let mut expected = Vec::new();
    expected.extend_from_slice(&MAGIC);
    expected.extend_from_slice(&[0x04, 0x00, 0x12, 0x34]);
    expected.extend_from_slice(&[0x38, 0x60, 0x00, 0x01]);
    expected.extend_from_slice(&TERM);
    assert_eq!(out, expected);
}

#[test]
fn two_word_record_round_trip() {
    let code = vec![0x38, 0x60, 0x00, 0x01, 0x38, 0x80, 0x00, 0x02];
    let codes = vec![Code { addr: 0x80000100, code: code.clone() }];
    let out = encode_codes(&codes);
    let mut expected = Vec::new();
    expected.extend_from_slice(&MAGIC);
    expected.extend_from_slice(&[0xC2, 0x00, 0x01, 0x00]);
    expected.extend_from_slice(&[0x00, 0x00, 0x00, 0x02]); // (2 + 2) / 2 lines
    expected.extend_from_slice(&code);
    expected.extend_from_slice(&[0x60, 0x00, 0x00, 0x00]); // no-op pad, even words
    expected.extend_from_slice(&[0x00, 0x00, 0x00, 0x00]); // zero filler
    expected.extend_from_slice(&TERM);
    assert_eq!(out, expected);
}

#[test]
fn odd_word_record_has_no_nop_pad() {
    let code = vec![0x11, 0x12, 0x13, 0x14, 0x21, 0x22, 0x23, 0x24, 0x31, 0x32, 0x33, 0x34];
    let codes = vec![Code { addr: 0x80400000, code: code.clone() }];
    let out = encode_codes(&codes);
    let mut expected = Vec::new();
    expected.extend_from_slice(&MAGIC);
    expected.extend_from_slice(&[0xC2, 0x40, 0x00, 0x00]);
    expected.extend_from_slice(&[0x00, 0x00, 0x00, 0x02]); // (3 + 1) / 2 lines
    expected.extend_from_slice(&code);
    expected.extend_from_slice(&[0x00, 0x00, 0x00, 0x00]); // zero filler only
    expected.extend_from_slice(&TERM);
    assert_eq!(out, expected);
}

#[test]
fn tag_is_ored_over_the_offset_high_byte() {
    // an offset above 24 bits leaks into the tag byte: 0x81001234 - base
    // = 0x01001234, so the single-word tag 0x04 becomes 0x05
    let codes = vec![Code { addr: 0x81001234, code: vec![9, 9, 9, 9] }];
    let out = encode_codes(&codes);
    assert_eq!(&out[8..12], &[0x05, 0x00, 0x12, 0x34]);
}

#[test]
fn empty_record_contributes_nothing() {
    let codes = vec![Code { addr: 0x80001234, code: Vec::new() }];
    let out = encode_codes(&codes);
    let mut expected = Vec::new();
    expected.extend_from_slice(&MAGIC);
    expected.extend_from_slice(&TERM);
    assert_eq!(out, expected);
}

#[test]
fn no_records_is_header_and_terminator() {
    let out = encode_codes(&Vec::new());
    let mut expected = Vec::new();
    expected.extend_from_slice(&MAGIC);
    expected.extend_from_slice(&TERM);
    assert_eq!(out, expected);
}

#[test]
fn encoding_twice_is_byte_identical() {
    let codes = vec![
        Code { addr: 0x80001000, code: vec![1, 2, 3, 4] },
        Code { addr: 0x80002000, code: vec![5, 6, 7, 8, 9, 10, 11, 12] },
    ];
    let a = encode_codes(&codes);
    let b = encode_codes(&codes);
    assert_eq!(a, b);
}

#[test]
fn misaligned_code_is_rejected() {
    let codes = vec![Code { addr: 0x80001000, code: vec![1, 2, 3] }];
    assert!(!codes_encodable(&codes));
}

#[test]
fn low_address_is_rejected() {
    let codes = vec![Code { addr: 0x7FFFFFFF, code: vec![1, 2, 3, 4] }];
    assert!(!codes_encodable(&codes));
}

#[test]
fn empty_record_needs_no_address_check() {
    let codes = vec![Code { addr: 0, code: Vec::new() }];
    assert!(codes_encodable(&codes));
}

#[test]
fn sort_is_stable_for_equal_addresses() {
    let codes = vec![
        Code { addr: 0x80002000, code: vec![0xAA, 0, 0, 0] },
        Code { addr: 0x80001000, code: vec![0xBB, 0, 0, 0] }, // discovered first of the tie
        Code { addr: 0x80001000, code: vec![0xCC, 0, 0, 0] }, // discovered second
    ];
    let sorted = sort_by_addr(codes);
    let view: Vec<(u32, u8)> = sorted.iter().map(|c| (c.addr, c.code[0])).collect();
    assert_eq!(
        view,
        vec![(0x80001000, 0xBB), (0x80001000, 0xCC), (0x80002000, 0xAA)]
    );
}

#[test]
fn sort_orders_by_address() {
    let codes = vec![
        Code { addr: 0x80000300, code: Vec::new() },
        Code { addr: 0x80000100, code: Vec::new() },
        Code { addr: 0x80000200, code: Vec::new() },
    ];
    let sorted = sort_by_addr(codes);
    let addrs: Vec<u32> = sorted.iter().map(|c| c.addr).collect();
    assert_eq!(addrs, vec![0x80000100, 0x80000200, 0x80000300]);
}
