//! Row and key encodings, value by value.

use strata_db::storage::codec::{DecodeError, KeyCodec, ValueCodec};
use strata_db::storage::decimal::Decimal;
use strata_db::storage::json::Json;
use strata_db::storage::types::{Float32, Float64, LogicalType, Value};

/// Encode `v`, then decode and assert we get the same value back and consume every byte.
fn roundtrip<T: ValueCodec + PartialEq + std::fmt::Debug>(v: T) {
    let mut buf = Vec::new();
    v.encode(&mut buf);
    assert_eq!(buf.len(), v.encoded_size(), "encoded_size mismatch for {v:?}");
    let mut cursor: &[u8] = &buf;
    let decoded = T::decode(&mut cursor).unwrap();
    assert_eq!(decoded, v);
    assert!(cursor.is_empty(), "trailing bytes after decode of {v:?}");
}

/// For ascending values, the encoded keys must be ascending too.
fn assert_key_order_preserving<T: KeyCodec>(ascending: &[T]) {
    let keys: Vec<Vec<u8>> = ascending
        .iter()
        .map(|v| {
            let mut b = Vec::new();
            v.encode_key(&mut b);
            b
        })
        .collect();
    for pair in keys.windows(2) {
        assert!(pair[0] < pair[1], "keys not ascending: {:?}", pair);
    }
}

fn dec(s: &str) -> Decimal {
    Decimal::parse(s).unwrap()
}

fn double(x: f64) -> Float64 {
    Float64 { bits: x.to_bits() }
}

fn single(x: f32) -> Float32 {
    Float32 { bits: x.to_bits() }
}

fn json(text: &str) -> Json {
    Json::from_slice(text.as_bytes()).unwrap()
}

#[test]
fn codec_bool_roundtrip() {
    roundtrip(true);
    roundtrip(false);
}

#[test]
fn codec_i16_roundtrip() {
    for n in [0i16, 1, -1, i16::MAX, i16::MIN] {
        roundtrip(n);
    }
}

#[test]
fn codec_i32_roundtrip() {
    for n in [0i32, 1, -1, i32::MAX, i32::MIN] {
        roundtrip(n);
    }
}

#[test]
fn codec_i64_roundtrip() {
    for n in [0i64, 1, -1, i64::MAX, i64::MIN] {
        roundtrip(n);
    }
}

#[test]
fn codec_string_roundtrip() {
    for s in ["", "hi", "hello world", "Привет", "🦀 rust"] {
        roundtrip(s.to_string());
    }
}

#[test]
fn codec_invalid_bool_byte_errors() {
    let buf = [0x02u8];
    let mut cursor: &[u8] = &buf;
    assert!(matches!(
        bool::decode(&mut cursor),
        Err(DecodeError::InvalidBool(0x02))
    ));
}

#[test]
fn codec_invalid_utf8_errors() {
    let mut buf = Vec::new();
    buf.extend_from_slice(&3u32.to_le_bytes());
    buf.extend_from_slice(&[0xff, 0xfe, 0xfd]);
    let mut cursor: &[u8] = &buf;
    assert!(matches!(
        String::decode(&mut cursor),
        Err(DecodeError::InvalidUtf8)
    ));
}

#[test]
fn codec_short_buffer_errors() {
    let buf = [0x01u8, 0x02];
    let mut cursor: &[u8] = &buf;
    assert!(matches!(
        i32::decode(&mut cursor),
        Err(DecodeError::UnexpectedEof)
    ));
}

#[test]
fn codec_value_dispatch_matches_codec() {
    let mut buf = Vec::new();
    Value::Int32(42).encode(&mut buf);
    let mut cursor: &[u8] = &buf;
    let decoded = Value::decode(&LogicalType::Int32, &mut cursor).unwrap();
    assert_eq!(decoded, Value::Int32(42));
}

#[test]
fn codec_json_roundtrip() {
    for text in [
        "null",
        "true",
        "42",
        "\"hello\"",
        "[1, 2, 3]",
        "{\"name\": \"acme\", \"id\": 7, \"tags\": [\"a\", \"b\"]}",
    ] {
        roundtrip(json(text));
    }
}

#[test]
fn codec_json_via_value_dispatch_roundtrip() {
    let original = Value::Json(json("{\"k\": \"v\", \"n\": 1}"));
    let mut buf = Vec::new();
    original.encode(&mut buf);
    assert_eq!(buf.len(), original.encoded_size());
    let mut cursor: &[u8] = &buf;
    let decoded = Value::decode(&LogicalType::Json, &mut cursor).unwrap();
    assert_eq!(decoded, original);
}

#[test]
fn codec_invalid_json_errors() {
    let bad = b"{not json}";
    let mut buf = Vec::new();
    buf.extend_from_slice(&(bad.len() as u32).to_le_bytes());
    buf.extend_from_slice(bad);
    let mut cursor: &[u8] = &buf;
    assert!(matches!(
        Json::decode(&mut cursor),
        Err(DecodeError::InvalidJson)
    ));
}

#[test]
fn codec_integer_keys_sort_in_numeric_order() {
    assert_key_order_preserving(&[i16::MIN, -100, -1, 0, 1, 100, i16::MAX]);
    assert_key_order_preserving(&[i32::MIN, -100, -1, 0, 1, 100, i32::MAX]);
    assert_key_order_preserving(&[i64::MIN, -100, -1, 0, 1, 100, i64::MAX]);
}

#[test]
fn codec_float_keys_sort_in_numeric_order() {
    // Order-preserving across sign, signed zero, and the infinities.
    let doubles: Vec<Float64> = [
        f64::NEG_INFINITY,
        -100.5,
        -1.0,
        -0.0,
        0.0,
        1.0,
        100.5,
        f64::INFINITY,
    ]
    .iter()
    .map(|x| double(*x))
    .collect();
    assert_key_order_preserving(&doubles);
    let singles: Vec<Float32> = [
        f32::NEG_INFINITY,
        -100.5f32,
        -1.0,
        -0.0,
        0.0,
        1.0,
        100.5,
        f32::INFINITY,
    ]
    .iter()
    .map(|x| single(*x))
    .collect();
    assert_key_order_preserving(&singles);
}

#[test]
fn codec_date_keys_sort_chronologically() {
    // Days before the epoch are negative.
    let mut prev: Option<Vec<u8>> = None;
    for days in [-1000i32, -1, 0, 1, 20617] {
        let mut buf = Vec::new();
        Value::Date(days).encode_key(&mut buf).unwrap();
        if let Some(p) = &prev {
            assert!(*p < buf, "date keys not ascending at {days}");
        }
        prev = Some(buf);
    }
}

#[test]
fn codec_decimal_value_roundtrips() {
    for s in [
        "0",
        "1.5",
        "-2.25",
        "100",
        "0.001",
        "-0.001",
        "79228162514264337593543950335",
    ] {
        let d = dec(s);
        let mut buf = Vec::new();
        d.encode(&mut buf);
        assert_eq!(buf.len(), d.encoded_size());
        let mut cur: &[u8] = &buf;
        assert_eq!(Decimal::decode(&mut cur).unwrap(), d);
        assert!(cur.is_empty());
    }
}

#[test]
fn codec_decimal_keys_sort_in_numeric_order() {
    let ascending: Vec<Decimal> = [
        "-1000.25", "-100", "-10", "-9.5", "-1", "-0.5", "-0.05", "-0.001", "0", "0.001", "0.05",
        "0.5", "1", "9.5", "10", "100", "1000.25",
    ]
    .iter()
    .map(|s| dec(s))
    .collect();
    assert_key_order_preserving(&ascending);
}

#[test]
fn codec_decimal_equal_values_encode_identically() {
    // Different scales, same value: identical keys.
    let mut a = Vec::new();
    dec("1.5").encode_key(&mut a);
    let mut b = Vec::new();
    dec("1.50").encode_key(&mut b);
    assert_eq!(a, b);
}
