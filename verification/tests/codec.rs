use timetrial::codec::{dec_encode, dec_parse, hex_decode, hex_encode};

#[test]
fn hex_encode_exact() {
    assert_eq!(hex_encode(&[]), Vec::<u8>::new());
    assert_eq!(hex_encode(&[0x00, 0xff, 0x1a]), b"00ff1a".to_vec());
    assert_eq!(hex_encode(&[0x48, 0x53]), b"4853".to_vec());
}

#[test]
fn hex_round_trip() {
    let bytes: Vec<u8> = (0u16..=255).map(|b| b as u8).collect();
    let enc = hex_encode(&bytes);
    let dec = hex_decode(&enc).expect("valid hex must decode");
    assert_eq!(dec, bytes);
}

#[test]
fn hex_decode_rejects_odd_length() {
    assert!(hex_decode(b"abc").is_none());
}

#[test]
fn hex_decode_rejects_stray_characters() {
    assert!(hex_decode(b"0g").is_none());
    assert!(hex_decode(b"AB").is_none(), "uppercase is not the encoding hex_encode emits");
    assert!(hex_decode(b"0.").is_none());
}

#[test]
fn dec_encode_exact() {
    assert_eq!(dec_encode(0), b"0".to_vec());
    assert_eq!(dec_encode(7), b"7".to_vec());
    assert_eq!(dec_encode(1234), b"1234".to_vec());
    assert_eq!(dec_encode(u64::MAX), b"18446744073709551615".to_vec());
}

#[test]
fn dec_round_trip() {
    for n in [0u64, 1, 9, 10, 99, 100, 12345678901234567, u64::MAX] {
        assert_eq!(dec_parse(&dec_encode(n)), Some(n));
    }
}

#[test]
fn dec_parse_rejects_non_canonical() {
    assert_eq!(dec_parse(b""), None);
    assert_eq!(dec_parse(b"007"), None);
    assert_eq!(dec_parse(b"12a3"), None);
    assert_eq!(dec_parse(b"-1"), None);
    assert_eq!(dec_parse(b"18446744073709551616"), None, "one past u64::MAX");
    assert_eq!(dec_parse(b"18446744073709551615"), Some(u64::MAX));
}
