use ell_http::values::{
    buffer_loggable, buffer_replay_ok, buffer_value, callback_value, is_valid_utf8, pointer_value,
    read_utf8, replay_buffer, to_csv, u32_pointer_value, usize_value, wide_string_loggable,
    wide_string_value, Encoding, LogValue, RowValue,
};

fn text(s: &str) -> LogValue {
    LogValue::Text(s.to_string())
}

fn row_text(s: &str) -> RowValue {
    RowValue::Text(s.to_string())
}

fn wide(s: &str) -> Vec<u16> {
    s.encode_utf16().collect()
}

#[test]
fn pointer_value_null_and_address() {
    assert_eq!(pointer_value(0), LogValue::Null);
    assert_eq!(pointer_value(0x1234), LogValue::Integer(0x1234));
}

#[test]
fn u32_pointer_value_reads_target() {
    assert_eq!(u32_pointer_value(None), LogValue::Null);
    assert_eq!(u32_pointer_value(Some(4096)), LogValue::Integer(4096));
    assert_eq!(u32_pointer_value(Some(u32::MAX)), LogValue::Integer(4294967295));
}

#[test]
fn callback_and_usize_values() {
    assert_eq!(callback_value(None), LogValue::Null);
    assert_eq!(callback_value(Some(0x40_1000)), LogValue::Integer(0x40_1000));
    assert_eq!(usize_value(45), LogValue::Integer(45));
}

#[test]
fn wide_string_value_text_or_null() {
    assert_eq!(wide_string_value(None), LogValue::Null);
    let u = wide("WinHttp Agent");
    assert_eq!(wide_string_value(Some(&u)), text("WinHttp Agent"));
    assert!(wide_string_loggable(Some(&u)));
    assert!(!wide_string_loggable(Some(&[0xDC00])));
    assert!(wide_string_loggable(None));
}

#[test]
fn buffer_value_in_each_encoding() {
    assert_eq!(buffer_value(Some(b"hello"), Encoding::Base64), text("aGVsbG8="));
    assert_eq!(buffer_value(Some(b"hi\x01"), Encoding::Base64), text("aGkB"));
    assert_eq!(buffer_value(Some("h\u{e9}".as_bytes()), Encoding::Utf8), text("h\u{e9}"));
    assert_eq!(buffer_value(Some(&[0x4F, 0x00, 0x4B, 0x00]), Encoding::Utf16), text("OK"));
    assert_eq!(buffer_value(None, Encoding::Utf8), LogValue::Null);
}

#[test]
fn buffer_loggable_checks_text_encodings() {
    assert!(buffer_loggable(Some(&[0xFF, 0xFE]), Encoding::Base64));
    assert!(!buffer_loggable(Some(&[0xFF, 0xFE]), Encoding::Utf8));
    assert!(!buffer_loggable(Some(&[0x00, 0xDC]), Encoding::Utf16));
    assert!(buffer_loggable(Some(&[0x41, 0x00]), Encoding::Utf16));
    assert!(buffer_loggable(None, Encoding::Utf8));
}

#[test]
fn utf8_helpers() {
    assert!(is_valid_utf8(b"abc"));
    assert!(!is_valid_utf8(&[0xC3]));
    assert_eq!(read_utf8("caf\u{e9}".as_bytes()), "caf\u{e9}");
}

#[test]
fn to_csv_joins_with_comma() {
    assert_eq!(to_csv(None), LogValue::Null);
    let list = vec![wide("text/html"), wide("*/*")];
    assert_eq!(to_csv(Some(&list)), text("text/html, */*"));
    assert_eq!(to_csv(Some(&[])), text(""));
}

#[test]
fn to_csv_counts_bad_string_as_empty() {
    let list = vec![wide("a"), vec![0xD800], wide("b")];
    assert_eq!(to_csv(Some(&list)), text("a, , b"));
}

#[test]
fn replay_buffer_base64_cut_to_length() {
    let v = row_text("aGVsbG8=");
    assert!(buffer_replay_ok(true, &v, Encoding::Base64, 3));
    assert_eq!(replay_buffer(true, &v, Encoding::Base64, 3), Some(b"hel".to_vec()));
    assert_eq!(replay_buffer(true, &v, Encoding::Base64, 5), Some(b"hello".to_vec()));
}

#[test]
fn replay_buffer_utf8_as_c_string() {
    let v = row_text("abc");
    assert!(buffer_replay_ok(true, &v, Encoding::Utf8, 4));
    assert_eq!(replay_buffer(true, &v, Encoding::Utf8, 4), Some(b"abc\0".to_vec()));
    assert_eq!(replay_buffer(true, &v, Encoding::Utf8, 2), Some(b"ab".to_vec()));
}

#[test]
fn replay_buffer_utf16_as_wide_string() {
    let v = row_text("hi");
    assert_eq!(replay_buffer(true, &v, Encoding::Utf16, 4), Some(vec![0x68, 0, 0x69, 0]));
    assert_eq!(replay_buffer(true, &v, Encoding::Utf16, 10), Some(vec![0x68, 0, 0x69, 0, 0, 0]));
    assert_eq!(replay_buffer(true, &v, Encoding::Utf16, 3), Some(vec![0x68, 0]));
}

#[test]
fn replay_buffer_without_text() {
    assert_eq!(replay_buffer(true, &RowValue::Null, Encoding::Utf16, 2), Some(vec![0, 0]));
    assert_eq!(replay_buffer(true, &RowValue::Integer(5), Encoding::Base64, 8), Some(vec![0, 0]));
    assert_eq!(replay_buffer(true, &RowValue::Null, Encoding::Utf16, 1), None);
    assert_eq!(replay_buffer(false, &row_text("aGk="), Encoding::Base64, 8), None);
}

#[test]
fn buffer_replay_ok_detects_faults() {
    assert!(!buffer_replay_ok(true, &row_text("!!"), Encoding::Base64, 1));
    // only canonical base64 is taken: padding required, no stray low bits
    assert!(!buffer_replay_ok(true, &row_text("aGk"), Encoding::Base64, 0));
    assert!(!buffer_replay_ok(true, &row_text("aGl="), Encoding::Base64, 0));
    assert!(buffer_replay_ok(true, &row_text("aGk="), Encoding::Base64, 2));
    assert!(!buffer_replay_ok(true, &row_text("a\0b"), Encoding::Utf8, 1));
    assert!(buffer_replay_ok(true, &row_text("a\0b"), Encoding::Utf16, 8));
    assert!(buffer_replay_ok(true, &RowValue::Null, Encoding::Base64, 8));
    assert!(buffer_replay_ok(false, &row_text("!!"), Encoding::Base64, 8));
}

#[test]
fn buffer_replay_ok_needs_enough_data() {
    // "aGVsbG8=" decodes to five bytes; "abc" makes a C string of four
    assert!(buffer_replay_ok(true, &row_text("aGVsbG8="), Encoding::Base64, 5));
    assert!(!buffer_replay_ok(true, &row_text("aGVsbG8="), Encoding::Base64, 6));
    assert!(buffer_replay_ok(true, &row_text("abc"), Encoding::Utf8, 4));
    assert!(!buffer_replay_ok(true, &row_text("abc"), Encoding::Utf8, 5));
    assert!(buffer_replay_ok(true, &row_text("abc"), Encoding::Utf16, 100));
}

#[test]
fn buffer_round_trip_each_encoding() {
    let cases: Vec<(Vec<u8>, Encoding, Vec<u8>)> = vec![
        (vec![0, 1, 2, 255, 254], Encoding::Base64, vec![0, 1, 2, 255, 254]),
        ("GET /index.html".as_bytes().to_vec(), Encoding::Utf8, "GET /index.html".as_bytes().to_vec()),
        (vec![0x48, 0x00, 0x3D, 0xD8, 0x00, 0xDE, 0x7F], Encoding::Utf16, vec![0x48, 0x00, 0x3D, 0xD8, 0x00, 0xDE]),
    ];
    for (bytes, enc, expected) in cases {
        let recorded = match buffer_value(Some(&bytes), enc) {
            LogValue::Text(t) => RowValue::Text(t),
            other => panic!("unexpected {:?}", other),
        };
        assert!(buffer_replay_ok(true, &recorded, enc, bytes.len() as u32));
        assert_eq!(replay_buffer(true, &recorded, enc, bytes.len() as u32), Some(expected));
    }
}
