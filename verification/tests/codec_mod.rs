//! Row and key encodings: layouts, arrays and the decimal and JSON documents behind them.

use strata_db::storage::codec::{DecodeError, KeyCodec, ValueCodec};
use strata_db::storage::decimal::Decimal;
use strata_db::storage::json::Json;
use strata_db::storage::types::{Float32, Float64, Interval, LogicalType, Uuid, Value};

/// Encode `v`, then decode and assert we get the same value back and consume every byte.
fn roundtrip<T: ValueCodec + PartialEq + std::fmt::Debug>(v: T) {
    let mut buf = Vec::new();
    v.encode(&mut buf);
    assert_eq!(buf.len(), v.encoded_size(), "encoded_size mismatch for {v:?}");
    let mut cursor: &[u8] = &buf;
    let decoded = T::decode(&mut cursor).unwrap();
    assert_eq!(decoded, v);
    assert!(cursor.is_empty(), "trailing bytes after decode of {v:?}");
}

/// For ascending values, the encoded keys must be ascending too.
fn assert_key_order_preserving<T: KeyCodec>(ascending: &[T]) {
    let keys: Vec<Vec<u8>> = ascending
        .iter()
        .map(|v| {
            let mut b = Vec::new();
            v.encode_key(&mut b);
            b
        })
        .collect();
    for pair in keys.windows(2) {
        assert!(pair[0] < pair[1], "keys not ascending: {:?}", pair);
    }
}

fn dec(s: &str) -> Decimal {
    Decimal::parse(s).unwrap()
}

fn double(x: f64) -> Float64 {
    Float64 { bits: x.to_bits() }
}

fn single(x: f32) -> Float32 {
    Float32 { bits: x.to_bits() }
}

fn json(text: &str) -> Json {
    Json::from_slice(text.as_bytes()).unwrap()
}

#[test]
fn mod_bool_roundtrip() {
    roundtrip(true);
    roundtrip(false);
}

#[test]
fn mod_i16_roundtrip() {
    for n in [0i16, 1, -1, i16::MAX, i16::MIN] {
        roundtrip(n);
    }
}

#[test]
fn mod_i32_roundtrip() {
    for n in [0i32, 1, -1, i32::MAX, i32::MIN] {
        roundtrip(n);
    }
}

#[test]
fn mod_i64_roundtrip() {
    for n in [0i64, 1, -1, i64::MAX, i64::MIN] {
        roundtrip(n);
    }
}

#[test]
fn mod_string_roundtrip() {
    for s in ["", "hi", "hello world", "Привет", "🦀 rust"] {
        roundtrip(s.to_string());
    }
}

#[test]
fn mod_invalid_bool_byte_errors() {
    let buf = [0x02u8];
    let mut cursor: &[u8] = &buf;
    assert!(matches!(
        bool::decode(&mut cursor),
        Err(DecodeError::InvalidBool(0x02))
    ));
}

#[test]
fn mod_invalid_utf8_errors() {
    let mut buf = Vec::new();
    buf.extend_from_slice(&3u32.to_le_bytes());
    buf.extend_from_slice(&[0xff, 0xfe, 0xfd]);
    let mut cursor: &[u8] = &buf;
    assert!(matches!(
        String::decode(&mut cursor),
        Err(DecodeError::InvalidUtf8)
    ));
}

#[test]
fn mod_short_buffer_errors() {
    let buf = [0x01u8, 0x02];
    let mut cursor: &[u8] = &buf;
    assert!(matches!(
        i32::decode(&mut cursor),
        Err(DecodeError::UnexpectedEof)
    ));
}

#[test]
fn mod_value_dispatch_matches_codec() {
    let mut buf = Vec::new();
    Value::Int32(42).encode(&mut buf);
    let mut cursor: &[u8] = &buf;
    let decoded = Value::decode(&LogicalType::Int32, &mut cursor).unwrap();
    assert_eq!(decoded, Value::Int32(42));
}

#[test]
fn mod_json_roundtrip() {
    for text in [
        "null",
        "true",
        "42",
        "\"hello\"",
        "[1, 2, 3]",
        "{\"name\": \"acme\", \"id\": 7, \"tags\": [\"a\", \"b\"]}",
    ] {
        roundtrip(json(text));
    }
}

#[test]
fn mod_json_via_value_dispatch_roundtrip() {
    let original = Value::Json(json("{\"k\": \"v\", \"n\": 1}"));
    let mut buf = Vec::new();
    original.encode(&mut buf);
    assert_eq!(buf.len(), original.encoded_size());
    let mut cursor: &[u8] = &buf;
    let decoded = Value::decode(&LogicalType::Json, &mut cursor).unwrap();
    assert_eq!(decoded, original);
}

#[test]
fn mod_invalid_json_errors() {
    let bad = b"{not json}";
    let mut buf = Vec::new();
    buf.extend_from_slice(&(bad.len() as u32).to_le_bytes());
    buf.extend_from_slice(bad);
    let mut cursor: &[u8] = &buf;
    assert!(matches!(
        Json::decode(&mut cursor),
        Err(DecodeError::InvalidJson)
    ));
}

#[test]
fn mod_integer_keys_sort_in_numeric_order() {
    assert_key_order_preserving(&[i16::MIN, -100, -1, 0, 1, 100, i16::MAX]);
    assert_key_order_preserving(&[i32::MIN, -100, -1, 0, 1, 100, i32::MAX]);
    assert_key_order_preserving(&[i64::MIN, -100, -1, 0, 1, 100, i64::MAX]);
}

#[test]
fn mod_float_keys_sort_in_numeric_order() {
    // Order-preserving across sign, signed zero, and the infinities.
    let doubles: Vec<Float64> = [
        f64::NEG_INFINITY,
        -100.5,
        -1.0,
        -0.0,
        0.0,
        1.0,
        100.5,
        f64::INFINITY,
    ]
    .iter()
    .map(|x| double(*x))
    .collect();
    assert_key_order_preserving(&doubles);
    let singles: Vec<Float32> = [
        f32::NEG_INFINITY,
        -100.5f32,
        -1.0,
        -0.0,
        0.0,
        1.0,
        100.5,
        f32::INFINITY,
    ]
    .iter()
    .map(|x| single(*x))
    .collect();
    assert_key_order_preserving(&singles);
}

#[test]
fn mod_date_keys_sort_chronologically() {
    // Days before the epoch are negative.
    let mut prev: Option<Vec<u8>> = None;
    for days in [-1000i32, -1, 0, 1, 20617] {
        let mut buf = Vec::new();
        Value::Date(days).encode_key(&mut buf).unwrap();
        if let Some(p) = &prev {
            assert!(*p < buf, "date keys not ascending at {days}");
        }
        prev = Some(buf);
    }
}

#[test]
fn mod_decimal_value_roundtrips() {
    for s in [
        "0",
        "1.5",
        "-2.25",
        "100",
        "0.001",
        "-0.001",
        "79228162514264337593543950335",
    ] {
        let d = dec(s);
        let mut buf = Vec::new();
        d.encode(&mut buf);
        assert_eq!(buf.len(), d.encoded_size());
        let mut cur: &[u8] = &buf;
        assert_eq!(Decimal::decode(&mut cur).unwrap(), d);
        assert!(cur.is_empty());
    }
}

#[test]
fn mod_decimal_keys_sort_in_numeric_order() {
    let ascending: Vec<Decimal> = [
        "-1000.25", "-100", "-10", "-9.5", "-1", "-0.5", "-0.05", "-0.001", "0", "0.001", "0.05",
        "0.5", "1", "9.5", "10", "100", "1000.25",
    ]
    .iter()
    .map(|s| dec(s))
    .collect();
    assert_key_order_preserving(&ascending);
}

#[test]
fn mod_decimal_equal_values_encode_identically() {
    // Different scales, same value: identical keys.
    let mut a = Vec::new();
    dec("1.5").encode_key(&mut a);
    let mut b = Vec::new();
    dec("1.50").encode_key(&mut b);
    assert_eq!(a, b);
}

#[test]
fn array_value_roundtrips() {
    let arr = Value::Array(vec![Value::Int32(1), Value::Int32(2), Value::Int32(3)]);
    let mut buf = Vec::new();
    arr.encode(&mut buf);
    assert_eq!(buf.len(), arr.encoded_size());
    let ty = LogicalType::Array(Box::new(LogicalType::Int32));
    let mut cur: &[u8] = &buf;
    assert_eq!(Value::decode(&ty, &mut cur).unwrap(), arr);
    assert!(cur.is_empty());
}

#[test]
fn array_keys_order_element_wise() {
    let key = |items: &[i32]| {
        let mut b = Vec::new();
        Value::Array(items.iter().map(|n| Value::Int32(*n)).collect())
            .encode_key(&mut b)
            .unwrap();
        b
    };
    // A prefix sorts before a longer array; otherwise element order wins.
    assert!(key(&[1, 2]) < key(&[1, 2, 9]));
    assert!(key(&[1, 2, 9]) < key(&[1, 3]));
    assert!(key(&[1]) < key(&[2]));
}

#[test]
fn scalar_layouts_are_little_endian() {
    let bytes = |v: Value| {
        let mut b = Vec::new();
        v.encode(&mut b);
        b
    };
    assert_eq!(bytes(Value::Int16(0x0102)), vec![0x02, 0x01]);
    assert_eq!(bytes(Value::Int32(-2)), vec![0xfe, 0xff, 0xff, 0xff]);
    assert_eq!(bytes(Value::Text("hi".into())), vec![2, 0, 0, 0, b'h', b'i']);
    assert_eq!(bytes(Value::Bool(true)), vec![1]);
    assert_eq!(bytes(Value::Float64(double(1.0))), 1.0f64.to_le_bytes().to_vec());
    assert_eq!(bytes(Value::Float32(single(1.0))), 1.0f32.to_le_bytes().to_vec());
}

#[test]
fn integer_keys_are_offset_big_endian() {
    let key = |v: Value| {
        let mut b = Vec::new();
        v.encode_key(&mut b).unwrap();
        b
    };
    assert_eq!(key(Value::Int16(-1)), vec![0x7f, 0xff]);
    assert_eq!(key(Value::Int32(1)), vec![0x80, 0, 0, 1]);
    assert_eq!(key(Value::Int64(0)), vec![0x80, 0, 0, 0, 0, 0, 0, 0]);
}

#[test]
fn null_has_no_key() {
    let mut b = Vec::new();
    assert!(Value::Null.encode_key(&mut b).is_err());
}

#[test]
fn json_text_is_compacted() {
    let j = json("{ \"b\" : [ 1 , 2 ] }");
    assert_eq!(j.as_str(), "{\"b\":[1,2]}");
    assert!(j.same(&json("{\"b\":[1,2]}")));
    assert!(!j.same(&json("{\"b\":[2,1]}")));
}

#[test]
fn decimal_wrappers_compute() {
    assert_eq!(dec("2.50").to_text(), "2.50");
    assert_eq!(dec("2.50").parts(), (false, 250, 2));
    assert_eq!(dec("2.50").normalize().parts(), (false, 25, 1));
    assert_eq!(dec("2.5").floor().to_text(), "2");
    assert_eq!(dec("2.1").ceil().to_text(), "3");
    assert_eq!(dec("-2.7").to_i64(), Some(-2));
    assert_eq!(dec("1.5").negate().to_text(), "-1.5");
    assert_eq!(dec("-1.5").abs().to_text(), "1.5");
    assert_eq!(Decimal::from_i64(-7).to_text(), "-7");
    assert_eq!(Decimal::from_parts(true, 5, 1).unwrap().to_text(), "-0.5");
    assert!(Decimal::parse("1.2.3").is_none());
}

#[test]
fn equal_length_rows_keep_their_trailing_bytes() {
    let mut buf = Vec::new();
    Value::Int32(1).encode(&mut buf);
    Value::Text("tail".into()).encode(&mut buf);
    let mut cur: &[u8] = &buf;
    assert_eq!(Value::decode(&LogicalType::Int32, &mut cur).unwrap(), Value::Int32(1));
    assert_eq!(Value::decode(&LogicalType::Text, &mut cur).unwrap(), Value::Text("tail".into()));
    assert!(cur.is_empty());
}

#[test]
fn every_scalar_type_comes_back() {
    let cases = vec![
        (Value::Date(-3), LogicalType::Date),
        (Value::Timestamp(1_700_000_000_000_000), LogicalType::Timestamp),
        (Value::Time(5), LogicalType::Time),
        (Value::Uuid(Uuid { value: 0x0102 }), LogicalType::Uuid),
        (
            Value::Interval(Interval { months: -1, days: 40, micros: 7 }),
            LogicalType::Interval,
        ),
        (Value::Bytes(vec![1, 2, 3]), LogicalType::Bytes),
        (Value::Numeric(dec("-12.340")), LogicalType::Numeric),
        (Value::Float32(single(0.1)), LogicalType::Float32),
        (Value::Float64(double(0.1)), LogicalType::Float64),
    ];
    for (v, ty) in cases {
        let mut buf = Vec::new();
        v.encode(&mut buf);
        assert_eq!(buf.len(), v.encoded_size());
        let mut cur: &[u8] = &buf;
        assert_eq!(Value::decode(&ty, &mut cur).unwrap(), v);
        assert!(cur.is_empty());
    }
}

#[test]
fn a_cut_off_value_is_an_unexpected_eof() {
    let values = vec![
        (LogicalType::Bool, Value::Bool(true)),
        (LogicalType::Int16, Value::Int16(-2)),
        (LogicalType::Int64, Value::Int64(7)),
        (LogicalType::Text, Value::Text("héllo".into())),
        (LogicalType::Bytes, Value::Bytes(vec![1, 2, 3])),
        (LogicalType::Interval, Value::Interval(Interval { months: 1, days: 2, micros: 3 })),
        (
            LogicalType::Array(Box::new(LogicalType::Text)),
            Value::Array(vec![Value::Text("a".into()), Value::Text("bc".into())]),
        ),
    ];
    for (ty, value) in values {
        let mut whole = Vec::new();
        value.encode(&mut whole);
        for k in 0..whole.len() {
            let mut cut = &whole[..k];
            assert!(
                matches!(Value::decode(&ty, &mut cut), Err(DecodeError::UnexpectedEof)),
                "{value:?} cut to {k}"
            );
        }
    }
}

#[test]
fn arrays_have_equal_keys_where_their_elements_are_equal() {
    let key = |items: &[i32]| {
        let array = Value::Array(items.iter().map(|n| Value::Int32(*n)).collect());
        let mut buf = Vec::new();
        array.encode_key(&mut buf).unwrap();
        buf
    };
    assert_eq!(key(&[1, 2]), key(&[1, 2]));
    assert_ne!(key(&[1, 2]), key(&[1, 2, 0]));
    assert_ne!(key(&[1, 2]), key(&[2, 1]));
    assert_ne!(key(&[]), key(&[0]));
}
