use snapshot_codec::encoding::{decode_control, EncodingClass};
use snapshot_codec::error::FormatError;
use snapshot_codec::scalar::{decode_scalar, encode_int, ScalarValue};
use snapshot_codec::scanner::{scan_one, Entry, Record};
use snapshot_codec::snapshot::{decode, encode};

fn header() -> Vec<u8> {
    b"REDIS0009".to_vec()
}

fn text_entry(key: &str, value: &str, expire_at_ms: Option<u64>) -> Entry {
    Entry {
        key: ScalarValue::Text(key.to_string()),
        value: ScalarValue::Text(value.to_string()),
        expire_at_ms,
    }
}

#[test]
fn concrete_scenario_single_entry() {
    let mut buf = header();
    buf.extend_from_slice(&[0xFE, 0x00]);
    buf.extend_from_slice(&[0xFB, 0x01, 0x01]);
    buf.extend_from_slice(&[0x00, 0x03, b'f', b'o', b'o', 0x03, b'b', b'a', b'r', 0xFF]);
    let entries = decode(&buf).unwrap();
    assert_eq!(entries, vec![text_entry("foo", "bar", None)]);
}

#[test]
fn round_trip_small_map() {
    let entries = vec![
        text_entry("alpha", "1", None),
        text_entry("beta", "two", Some(5000)),
        text_entry("gamma", "3", Some(123)),
        text_entry("", "empty key is a key too", None),
        text_entry("delta", "", Some(5_000_000_000_000)),
    ];
    let buf = encode(&entries);
    let back = decode(&buf).unwrap();
    assert_eq!(back, entries);
}

#[test]
fn round_trip_keeps_file_order() {
    let entries = vec![
        text_entry("k", "1", None),
        text_entry("k", "2", None),
        text_entry("a", "3", None),
    ];
    let back = decode(&encode(&entries)).unwrap();
    assert_eq!(back, entries);
}

#[test]
fn length_class_6_bit() {
    let value: String = "x".repeat(10);
    let entries = vec![text_entry("k", &value, None)];
    let buf = encode(&entries);
    // header 9 + tag 1 + key (1 + 1) = offset 12: value control byte
    assert_eq!(buf[12], 10);
    assert_eq!(decode(&buf).unwrap(), entries);
}

#[test]
fn length_class_14_bit() {
    let value: String = "x".repeat(1000);
    let entries = vec![text_entry("k", &value, None)];
    let buf = encode(&entries);
    assert_eq!(buf[12], 0x40 | 0x03);
    assert_eq!(buf[13], 0xE8);
    assert_eq!(decode(&buf).unwrap(), entries);
}

#[test]
fn length_class_32_bit() {
    let value: String = "x".repeat(100000);
    let entries = vec![text_entry("k", &value, None)];
    let buf = encode(&entries);
    assert_eq!(&buf[12..17], &[0x80, 0x00, 0x01, 0x86, 0xA0]);
    assert_eq!(decode(&buf).unwrap(), entries);
}

#[test]
fn decode_control_classes() {
    assert_eq!(decode_control(&[0x0A]).unwrap(), (EncodingClass::Len6, 1, 10));
    assert_eq!(decode_control(&[0x43, 0xE8]).unwrap(), (EncodingClass::Len14, 2, 1000));
    assert_eq!(
        decode_control(&[0x80, 0x00, 0x01, 0x86, 0xA0]).unwrap(),
        (EncodingClass::Len32, 5, 100000)
    );
    assert_eq!(decode_control(&[0xC0]).unwrap(), (EncodingClass::Special, 1, 0));
    assert_eq!(decode_control(&[]).unwrap_err(), FormatError::TruncatedFile);
}

#[test]
fn compact_integer_scalars() {
    let buf = encode_int(100);
    assert_eq!(buf, vec![0xC0, 100]);
    assert_eq!(decode_scalar(&buf).unwrap(), (ScalarValue::Int8(100), 2));
}

#[test]
fn negative_integer_sign_extension() {
    let buf = encode_int(-1);
    assert_eq!(buf, vec![0xC0, 0xFF]);
    // -1 must come back as -1, not as 255
    assert_eq!(decode_scalar(&buf).unwrap(), (ScalarValue::Int8(-1), 2));
    assert_eq!(
        decode_scalar(&[0xC1, 0xFE, 0xFF]).unwrap(),
        (ScalarValue::Int16(-2), 3)
    );
    assert_eq!(
        decode_scalar(&[0xC2, 0xFD, 0xFF, 0xFF, 0xFF]).unwrap(),
        (ScalarValue::Int32(-3), 5)
    );
}

#[test]
fn wider_integer_scalars() {
    assert_eq!(
        decode_scalar(&encode_int(300)).unwrap(),
        (ScalarValue::Int16(300), 3)
    );
    assert_eq!(
        decode_scalar(&encode_int(100000)).unwrap(),
        (ScalarValue::Int32(100000), 5)
    );
}

#[test]
fn bad_magic_rejected() {
    let mut buf = b"QEDIS0009".to_vec();
    buf.push(0xFF);
    assert_eq!(decode(&buf).unwrap_err(), FormatError::BadMagic);
    assert_eq!(decode(&[0x52]).unwrap_err(), FormatError::BadMagic);
    assert_eq!(decode(&[]).unwrap_err(), FormatError::BadMagic);
}

#[test]
fn version_mismatch_rejected() {
    let mut buf = b"REDIS0010".to_vec();
    buf.push(0xFF);
    assert_eq!(decode(&buf).unwrap_err(), FormatError::VersionMismatch);
    assert_eq!(decode(b"REDIS00").unwrap_err(), FormatError::VersionMismatch);
}

#[test]
fn truncation_at_record_boundaries() {
    let mut buf = header();
    buf.extend_from_slice(&[0xFE, 0x00]);
    buf.extend_from_slice(&[0xFB, 0x01, 0x01]);
    buf.extend_from_slice(&[0x00, 0x03, b'f', b'o', b'o', 0x03, b'b', b'a', b'r']);
    // boundaries: after header, selector, resize hint, entry; 0xFF never comes
    for cut in [9usize, 11, 14, 23] {
        let prefix = buf[..cut].to_vec();
        assert_eq!(decode(&prefix).unwrap_err(), FormatError::TruncatedFile);
    }
}

#[test]
fn truncation_inside_record() {
    let mut buf = header();
    buf.extend_from_slice(&[0x00, 0x03, b'f', b'o']);
    assert_eq!(decode(&buf).unwrap_err(), FormatError::TruncatedFile);
    let mut buf2 = header();
    buf2.push(0xFD);
    buf2.extend_from_slice(&[0x01, 0x02]);
    assert_eq!(decode(&buf2).unwrap_err(), FormatError::TruncatedFile);
}

#[test]
fn compressed_string_fails_closed() {
    assert_eq!(decode_scalar(&[0xC3, 0x00]).unwrap_err(), FormatError::UnsupportedCompression);
    let mut buf = header();
    buf.extend_from_slice(&[0x00, 0xC3, 0x01, 0x01]);
    assert_eq!(decode(&buf).unwrap_err(), FormatError::UnsupportedCompression);
}

#[test]
fn unknown_special_mode_fails_closed() {
    assert_eq!(decode_scalar(&[0xC4]).unwrap_err(), FormatError::UnsupportedEncoding);
    assert_eq!(decode_scalar(&[0xFE]).unwrap_err(), FormatError::UnsupportedEncoding);
}

#[test]
fn nonzero_database_index_fails_closed() {
    let mut buf = header();
    buf.extend_from_slice(&[0xFE, 0x01]);
    assert_eq!(decode(&buf).unwrap_err(), FormatError::UnsupportedFeature);
}

#[test]
fn nonstring_value_type_fails_closed() {
    let mut buf = header();
    buf.extend_from_slice(&[0x01, 0x01, b'k', 0x01, b'v', 0xFF]);
    assert_eq!(decode(&buf).unwrap_err(), FormatError::UnsupportedValueType);
}

#[test]
fn invalid_utf8_rejected() {
    let mut buf = header();
    buf.extend_from_slice(&[0x00, 0x01, b'k', 0x01, 0xFF]);
    assert_eq!(decode(&buf).unwrap_err(), FormatError::InvalidUtf8);
}

#[test]
fn expiry_units_normalize_to_milliseconds() {
    // seconds opcode, 1000 seconds, little-endian
    let mut with_seconds = header();
    with_seconds.extend_from_slice(&[0xFD, 0xE8, 0x03, 0x00, 0x00]);
    with_seconds.extend_from_slice(&[0x01, b'a', 0x01, b'b', 0xFF]);
    // milliseconds opcode, 1000000 milliseconds, little-endian
    let mut with_ms = header();
    with_ms.extend_from_slice(&[0xFC, 0x40, 0x42, 0x0F, 0x00, 0x00, 0x00, 0x00, 0x00]);
    with_ms.extend_from_slice(&[0x01, b'a', 0x01, b'b', 0xFF]);
    let a = decode(&with_seconds).unwrap();
    let b = decode(&with_ms).unwrap();
    assert_eq!(a, b);
    assert_eq!(a, vec![text_entry("a", "b", Some(1_000_000))]);
}

#[test]
fn encoder_picks_expiry_opcode() {
    let whole_seconds = encode(&vec![text_entry("k", "v", Some(2000))]);
    assert_eq!(whole_seconds[9], 0xFD);
    let fractional = encode(&vec![text_entry("k", "v", Some(2500))]);
    assert_eq!(fractional[9], 0xFC);
    let plain = encode(&vec![text_entry("k", "v", None)]);
    assert_eq!(plain[9], 0x00);
}

#[test]
fn auxiliary_and_selector_records_are_dropped() {
    let mut buf = header();
    buf.extend_from_slice(&[0xFE, 0x00]);
    buf.extend_from_slice(&[0xFA, 0x03, b'v', b'e', b'r', 0x01, b'9']);
    buf.extend_from_slice(&[0x00, 0x01, b'k', 0x01, b'v', 0xFF]);
    let entries = decode(&buf).unwrap();
    assert_eq!(entries, vec![text_entry("k", "v", None)]);
}

#[test]
fn auxiliary_integer_scalars_accepted() {
    let mut buf = header();
    buf.extend_from_slice(&[0xFA, 0x04, b'b', b'i', b't', b's', 0xC0, 64]);
    buf.push(0xFF);
    assert_eq!(decode(&buf).unwrap(), vec![]);
}

#[test]
fn scan_one_steps_through_records() {
    let mut buf = header();
    buf.extend_from_slice(&[0xFE, 0x00]);
    buf.extend_from_slice(&[0x00, 0x01, b'k', 0x01, b'v', 0xFF]);
    let (rec, cursor) = scan_one(&buf, 9).unwrap();
    assert_eq!(rec, Record::SelectDatabase(0));
    assert_eq!(cursor, 11);
    let (rec, cursor) = scan_one(&buf, cursor).unwrap();
    assert_eq!(rec, Record::Entry(text_entry("k", "v", None)));
    assert_eq!(cursor, 16);
    let (rec, cursor) = scan_one(&buf, cursor).unwrap();
    assert_eq!(rec, Record::EndOfFile);
    assert_eq!(cursor, 17);
}

#[test]
fn trailing_bytes_after_eof_are_ignored() {
    let mut buf = header();
    buf.extend_from_slice(&[0x00, 0x01, b'k', 0x01, b'v', 0xFF]);
    buf.extend_from_slice(&[0xDE, 0xAD, 0xBE, 0xEF]);
    assert_eq!(decode(&buf).unwrap(), vec![text_entry("k", "v", None)]);
}

#[test]
fn resize_hint_with_integer_class_fails_closed() {
    let mut buf = b"REDIS0009".to_vec();
    buf.extend_from_slice(&[0xFB, 0xC0, 0x05, 0x01, 0xFF]);
    assert_eq!(decode(&buf).unwrap_err(), FormatError::UnsupportedEncoding);
}

#[test]
fn resize_hint_with_wide_lengths_is_consumed() {
    let mut buf = b"REDIS0009".to_vec();
    buf.extend_from_slice(&[0xFB, 0x43, 0xE8, 0x80, 0x00, 0x01, 0x86, 0xA0]);
    buf.extend_from_slice(&[0x00, 0x01, b'k', 0x01, b'v', 0xFF]);
    assert_eq!(
        decode(&buf).unwrap(),
        vec![Entry {
            key: ScalarValue::Text("k".to_string()),
            value: ScalarValue::Text("v".to_string()),
            expire_at_ms: None,
        }]
    );
}
