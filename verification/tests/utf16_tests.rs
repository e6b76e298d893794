use ell_http::utf16::{
    decode_utf16, decode_utf16_or_empty, encode_utf16, is_valid_utf16, read_le_units, read_utf16_le,
};

#[test]
fn decode_utf16_plain_text() {
    assert_eq!(decode_utf16(&[0x48, 0x69]), "Hi");
}

#[test]
fn decode_utf16_surrogate_pair() {
    assert_eq!(decode_utf16(&[0x41, 0xD83D, 0xDE00]), "A\u{1F600}");
}

#[test]
fn is_valid_utf16_rejects_lone_surrogates() {
    assert!(is_valid_utf16(&[0x41, 0xD83D, 0xDE00]));
    assert!(!is_valid_utf16(&[0xDC00]));
    assert!(!is_valid_utf16(&[0xD800]));
    assert!(!is_valid_utf16(&[0xD800, 0x41]));
    assert!(is_valid_utf16(&[]));
}

#[test]
fn decode_utf16_or_empty_on_bad_input() {
    assert_eq!(decode_utf16_or_empty(&[0x61, 0xDC00]), "");
    assert_eq!(decode_utf16_or_empty(&[0x61, 0x62]), "ab");
}

#[test]
fn encode_utf16_matches_std() {
    let s = "A\u{1F600}z\u{E9}";
    assert_eq!(encode_utf16(s), s.encode_utf16().collect::<Vec<u16>>());
    assert_eq!(encode_utf16("A\u{1F600}"), vec![0x41, 0xD83D, 0xDE00]);
}

#[test]
fn utf16_round_trip_both_ways() {
    let s = "Content-Type: text/html; \u{4E2D}\u{1F600}";
    assert_eq!(decode_utf16(&encode_utf16(s)), s);
    let units: Vec<u16> = vec![0x20, 0xD83D, 0xDE00, 0xFFFF, 0x0];
    assert_eq!(encode_utf16(&decode_utf16(&units)), units);
}

#[test]
fn read_le_units_drops_odd_byte() {
    assert_eq!(read_le_units(&[0x34, 0x12, 0xFF]), vec![0x1234]);
}

#[test]
fn read_utf16_le_reads_little_endian_text() {
    assert_eq!(read_utf16_le(&[0x48, 0x00, 0x69, 0x00, 0x21]), "Hi");
    assert_eq!(read_utf16_le(&[0x3D, 0xD8, 0x00, 0xDE]), "\u{1F600}");
}
