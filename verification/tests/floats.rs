//! Floats by their bits: their order, their keys, their equality and their casts.

use strata_db::query::error::QueryError;
use strata_db::query::expression::cast::eval_cast;
use strata_db::query::expression::compare::{order_values, values_eq};
use strata_db::query::host::Answers;
use strata_db::storage::codec::{KeyCodec, ValueCodec};
use strata_db::storage::decimal::Order;
use strata_db::storage::types::{Float32, Float64, LogicalType, Value};

fn f(x: f64) -> Float64 {
    Float64 { bits: x.to_bits() }
}

fn g(x: f32) -> Float32 {
    Float32 { bits: x.to_bits() }
}

fn key<T: KeyCodec>(v: T) -> Vec<u8> {
    let mut buf = Vec::new();
    v.encode_key(&mut buf);
    buf
}

#[test]
fn every_nan_sorts_above_infinity() {
    let nans = [0x7ff8_0000_0000_0000, 0xfff8_0000_0000_0000, 0xffff_ffff_ffff_ffff];
    for bits in nans {
        for x in [f64::NEG_INFINITY, -1.0, -0.0, 0.0, 1.0, f64::MAX, f64::INFINITY] {
            assert!(key(f(x)) < key(Float64 { bits }), "{x} against {bits:x}");
        }
        assert_eq!(key(Float64 { bits }), key(f(f64::NAN)));
    }
    for bits in [0x7fc0_0000, 0xffc0_0000] {
        assert!(key(g(f32::INFINITY)) < key(Float32 { bits }));
        assert!(key(g(f32::NEG_INFINITY)) < key(Float32 { bits }));
    }
}

#[test]
fn nans_are_equal_and_greatest() {
    let none = Answers::new();
    let nan = Value::Float64(f(f64::NAN));
    let minus_nan = Value::Float64(f(-f64::NAN));
    let infinity = Value::Float64(f(f64::INFINITY));
    assert!(values_eq(&nan, &minus_nan, &none).unwrap());
    assert_eq!(order_values(&minus_nan, &infinity, &none).unwrap(), Order::Greater);
    assert_eq!(order_values(&minus_nan, &nan, &none).unwrap(), Order::Same);
    let zeros = (Value::Float64(f(-0.0)), Value::Float64(f(0.0)));
    assert!(!values_eq(&zeros.0, &zeros.1, &none).unwrap());
    assert_eq!(order_values(&zeros.0, &zeros.1, &none).unwrap(), Order::Less);
}

#[test]
fn rust_equality_is_ieee() {
    assert!(f(0.0) == f(-0.0));
    assert!(f(f64::NAN) != f(f64::NAN));
    assert!(Value::Float32(g(0.0)) == Value::Float32(g(-0.0)));
    assert!(Value::Float64(f(f64::NAN)) != Value::Float64(f(f64::NAN)));
}

#[test]
fn widening_is_exact() {
    let samples = [
        0x0000_0000u32, 0x8000_0000, 0x0000_0001, 0x8000_0001, 0x0000_0002, 0x0000_0003,
        0x0040_0000, 0x007f_ffff, 0x0080_0000, 0x3f80_0000, 0xbfc0_0000, 0x7f7f_ffff,
        0x7f80_0000, 0xff80_0000, 0x4049_0fdb,
    ];
    for bits in samples {
        let wide = Float32 { bits }.widen();
        assert_eq!(wide.bits, f64::from(f32::from_bits(bits)).to_bits(), "{bits:x}");
    }
    for bits in [0x7f80_0001, 0x7fc0_0000, 0xffc0_0001] {
        assert!(f64::from_bits(Float32 { bits }.widen().bits).is_nan());
    }
    // A 32-bit float beside a 64-bit one needs no answer of the host.
    let none = Answers::new();
    let half = (Value::Float32(g(0.5)), Value::Float64(f(0.5)));
    assert!(values_eq(&half.0, &half.1, &none).unwrap());
    assert_eq!(
        order_values(&Value::Float32(g(-1.5)), &Value::Float64(f(1e-300)), &none).unwrap(),
        Order::Less
    );
}

#[test]
fn rounding_goes_to_the_nearest_integer() {
    let samples = [
        0.0, -0.0, 0.4, 0.5, -0.5, 0.49999999999999994, 1.5, 2.5, -2.5, 1e-300, 5e-324, 123456.789,
        4503599627370495.5, 4503599627370496.5, 9007199254740993.0, 9.2e18, -9.2e18,
        9223372036854774784.0, -9223372036854775808.0,
    ];
    for x in samples {
        assert_eq!(f(x).to_nearest_i64(), Some(x.round() as i64), "{x}");
    }
    for x in [9223372036854775808.0, -9223372036854777856.0, 1e300, f64::INFINITY, f64::NAN] {
        assert_eq!(f(x).to_nearest_i64(), None, "{x}");
    }
}

#[test]
fn out_of_range_floats_do_not_cast_to_integers() {
    let none = Answers::new();
    let cast = |v: Value, ty: LogicalType| eval_cast(v, &ty, &none);
    for x in [1e300, -1e300, 9223372036854775808.0, f64::NAN, -f64::NAN, f64::INFINITY] {
        for ty in [LogicalType::Int16, LogicalType::Int32, LogicalType::Int64] {
            assert!(matches!(cast(Value::Float64(f(x)), ty), Err(QueryError::Type(_))), "{x}");
        }
    }
    let single = Value::Float32(g(1e30));
    assert!(matches!(cast(single, LogicalType::Int64), Err(QueryError::Type(_))));
    let past_i16 = Value::Float64(f(32767.5));
    assert!(matches!(cast(past_i16, LogicalType::Int16), Err(QueryError::Type(_))));
    assert_eq!(cast(Value::Float64(f(32767.4)), LogicalType::Int16).unwrap(), Value::Int16(32767));
    assert_eq!(cast(Value::Float64(f(-2.5)), LogicalType::Int32).unwrap(), Value::Int32(-3));
    assert_eq!(
        cast(Value::Float64(f(-9223372036854775808.0)), LogicalType::Int64).unwrap(),
        Value::Int64(i64::MIN)
    );
    // A float's own type, and the wider one, are reached without the host.
    assert_eq!(cast(Value::Float32(g(0.1)), LogicalType::Float32).unwrap(), Value::Float32(g(0.1)));
    assert_eq!(
        cast(Value::Float32(g(0.1)), LogicalType::Float64).unwrap(),
        Value::Float64(f(f64::from(0.1f32)))
    );
}

#[test]
fn a_stored_nan_keeps_its_bits() {
    let mut buf = Vec::new();
    let minus_nan = Float64 { bits: 0xfff8_0000_0000_0001 };
    minus_nan.encode(&mut buf);
    let mut rest = buf.as_slice();
    assert_eq!(Float64::decode(&mut rest).unwrap().bits, minus_nan.bits);
}
