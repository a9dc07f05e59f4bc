//! Keys sort as the values do.

use vstd::prelude::*;
use vstd::utf8::encode_utf8;

use super::decimal_order::law_decimal_key_order;
use super::scalar::{bool_bytes, float32_key, float64_key, int_key};
use super::{key_of, key_written, keys_written};
use crate::storage::bytes::{
    lemma_be_len, lemma_be_order, lemma_lex_extend, lemma_lex_irreflexive, lemma_lex_prefix,
    lemma_lex_total, lemma_pow256_values, lex_lt, pow256,
};
use crate::storage::float::{float32_rank, float64_rank, is_nan32, is_nan64};
use crate::storage::types::{Datum, Float32, Float64, Interval};

verus! {

/// Whether two data are of one scalar type.
pub open spec fn same_kind(a: Datum, b: Datum) -> bool {
    match (a, b) {
        (Datum::Bool(_), Datum::Bool(_)) => true,
        (Datum::Int16(_), Datum::Int16(_)) => true,
        (Datum::Int32(_), Datum::Int32(_)) => true,
        (Datum::Int64(_), Datum::Int64(_)) => true,
        (Datum::Text(_), Datum::Text(_)) => true,
        (Datum::Bytes(_), Datum::Bytes(_)) => true,
        (Datum::Json(_), Datum::Json(_)) => true,
        (Datum::Date(_), Datum::Date(_)) => true,
        (Datum::Timestamp(_), Datum::Timestamp(_)) => true,
        (Datum::Float32(_), Datum::Float32(_)) => true,
        (Datum::Float64(_), Datum::Float64(_)) => true,
        (Datum::Numeric(p), Datum::Numeric(q)) => p.in_range() && q.in_range(),
        (Datum::Time(_), Datum::Time(_)) => true,
        (Datum::Uuid(_), Datum::Uuid(_)) => true,
        (Datum::Interval(_), Datum::Interval(_)) => true,
        _ => false,
    }
}

/// Whether a datum is of a type whose keys all have one length.
pub open spec fn fixed_width(a: Datum) -> bool {
    match a {
        Datum::Null => false,
        Datum::Text(_) => false,
        Datum::Bytes(_) => false,
        Datum::Json(_) => false,
        Datum::Numeric(_) => false,
        Datum::Array(_) => false,
        _ => true,
    }
}

/// The order of two data of one scalar type: numbers by value, text and bytes by their bytes,
/// floats by their total order, intervals by their length.
pub open spec fn datum_less(a: Datum, b: Datum) -> bool {
    match (a, b) {
        (Datum::Bool(x), Datum::Bool(y)) => !x && y,
        (Datum::Int16(x), Datum::Int16(y)) => x < y,
        (Datum::Int32(x), Datum::Int32(y)) => x < y,
        (Datum::Int64(x), Datum::Int64(y)) => x < y,
        (Datum::Text(x), Datum::Text(y)) => lex_lt(encode_utf8(x), encode_utf8(y)),
        (Datum::Bytes(x), Datum::Bytes(y)) => lex_lt(x, y),
        (Datum::Json(x), Datum::Json(y)) => lex_lt(encode_utf8(x), encode_utf8(y)),
        (Datum::Date(x), Datum::Date(y)) => x < y,
        (Datum::Timestamp(x), Datum::Timestamp(y)) => x < y,
        (Datum::Float32(x), Datum::Float32(y)) => float32_rank(x) < float32_rank(y),
        (Datum::Float64(x), Datum::Float64(y)) => float64_rank(x) < float64_rank(y),
        (Datum::Numeric(x), Datum::Numeric(y)) => x.less(y),
        (Datum::Time(x), Datum::Time(y)) => x < y,
        (Datum::Uuid(x), Datum::Uuid(y)) => x.value < y.value,
        (Datum::Interval(x), Datum::Interval(y)) => x.total_micros() < y.total_micros(),
        _ => false,
    }
}

/// Whether two data of one scalar type rank the same: equal, but for decimals that stand for
/// one number, intervals of one length, and NaNs, which all rank last.
pub open spec fn datum_same(a: Datum, b: Datum) -> bool {
    match (a, b) {
        (Datum::Numeric(x), Datum::Numeric(y)) => x.same(y),
        (Datum::Interval(x), Datum::Interval(y)) => x.total_micros() == y.total_micros(),
        (Datum::Float32(x), Datum::Float32(y)) => float32_rank(x) == float32_rank(y),
        (Datum::Float64(x), Datum::Float64(y)) => float64_rank(x) == float64_rank(y),
        _ => a == b,
    }
}

proof fn lemma_int_order(x: int, y: int, n: nat)
    requires
        n == 2 || n == 4 || n == 8,
        -(pow256(n) as int) <= 2 * x < pow256(n),
        -(pow256(n) as int) <= 2 * y < pow256(n),
    ensures
        lex_lt(int_key(x, n), int_key(y, n)) == (x < y),
        (int_key(x, n) == int_key(y, n)) == (x == y),
{
    lemma_pow256_values();
    lemma_be_order((x + pow256(n) / 2) as nat, (y + pow256(n) / 2) as nat, n);
}

/// An interval's microseconds stay far inside 128 bits.
proof fn lemma_micros_bound(i: Interval)
    ensures
        -0x8000_0000_0000_0000_0000_0000_0000_0000 <= i.total_micros()
            < 0x8000_0000_0000_0000_0000_0000_0000_0000,
{
}

proof fn lemma_utf8_injective(x: Seq<char>, y: Seq<char>)
    requires
        encode_utf8(x) == encode_utf8(y),
    ensures
        x == y,
{
    vstd::utf8::encode_utf8_decode_utf8(x);
    vstd::utf8::encode_utf8_decode_utf8(y);
}

/// The key of a value sorts byte by byte as the value sorts among values of its type, and two
/// values share a key exactly where they rank the same.
pub proof fn law_key_order(a: Datum, b: Datum)
    requires
        same_kind(a, b),
    ensures
        key_of(a) is Some,
        key_of(b) is Some,
        lex_lt(key_of(a)->0, key_of(b)->0) == datum_less(a, b),
        (key_of(a)->0 == key_of(b)->0) == datum_same(a, b),
{
    lemma_pow256_values();
    match (a, b) {
        (Datum::Bool(x), Datum::Bool(y)) => {
            reveal_with_fuel(lex_lt, 2);
            assert(bool_bytes(x)[0] == if x {
                1u8
            } else {
                0u8
            });
            assert(bool_bytes(y)[0] == if y {
                1u8
            } else {
                0u8
            });
            if x == y {
                lemma_lex_irreflexive(bool_bytes(x));
            }
        },
        (Datum::Int16(x), Datum::Int16(y)) => lemma_int_order(x as int, y as int, 2),
        (Datum::Int32(x), Datum::Int32(y)) => lemma_int_order(x as int, y as int, 4),
        (Datum::Int64(x), Datum::Int64(y)) => lemma_int_order(x as int, y as int, 8),
        (Datum::Text(x), Datum::Text(y)) => {
            if encode_utf8(x) == encode_utf8(y) {
                lemma_utf8_injective(x, y);
            }
        },
        (Datum::Json(x), Datum::Json(y)) => {
            if encode_utf8(x) == encode_utf8(y) {
                lemma_utf8_injective(x, y);
            }
        },
        (Datum::Date(x), Datum::Date(y)) => lemma_int_order(x as int, y as int, 4),
        (Datum::Timestamp(x), Datum::Timestamp(y)) => lemma_int_order(x as int, y as int, 8),
        (Datum::Float32(x), Datum::Float32(y)) => lemma_be_order(
            float32_rank(x),
            float32_rank(y),
            4,
        ),
        (Datum::Float64(x), Datum::Float64(y)) => lemma_be_order(
            float64_rank(x),
            float64_rank(y),
            8,
        ),
        (Datum::Numeric(x), Datum::Numeric(y)) => law_decimal_key_order(x, y),
        (Datum::Time(x), Datum::Time(y)) => lemma_int_order(x as int, y as int, 8),
        (Datum::Uuid(x), Datum::Uuid(y)) => lemma_be_order(x.value as nat, y.value as nat, 16),
        (Datum::Interval(x), Datum::Interval(y)) => {
            lemma_micros_bound(x);
            lemma_micros_bound(y);
            lemma_be_order(
                (x.total_micros() + 0x8000_0000_0000_0000_0000_0000_0000_0000) as nat,
                (y.total_micros() + 0x8000_0000_0000_0000_0000_0000_0000_0000) as nat,
                16,
            );
        },
        _ => {},
    }
}

/// The key of a NaN, of either sign, sorts after the key of every other float of its width,
/// the infinities included, and all NaNs of one width share a key.
pub proof fn law_nan_keys_sort_last(f: Float64, g: Float64, h: Float32, k: Float32)
    requires
        is_nan64(f),
        is_nan32(h),
    ensures
        is_nan64(g) ==> float64_key(g) == float64_key(f),
        !is_nan64(g) ==> lex_lt(float64_key(g), float64_key(f)),
        is_nan32(k) ==> float32_key(k) == float32_key(h),
        !is_nan32(k) ==> lex_lt(float32_key(k), float32_key(h)),
{
    law_key_order(Datum::Float64(g), Datum::Float64(f));
    law_key_order(Datum::Float32(k), Datum::Float32(h));
}

/// A null has no key, and neither has an array that holds one.
pub proof fn law_null_has_no_key(items: Seq<Datum>, i: int)
    requires
        0 <= i < items.len(),
        items[i] is Null,
    ensures
        key_of(Datum::Null) is None,
        key_of(Datum::Array(items)) is None,
{
    lemma_null_stops(items, i, items.len());
}

proof fn lemma_null_stops(items: Seq<Datum>, i: int, n: nat)
    requires
        0 <= i < n <= items.len(),
        items[i] is Null,
    ensures
        !keys_written(items, n).1,
    decreases n,
{
    if i < n - 1 {
        lemma_null_stops(items, i, (n - 1) as nat);
    } else {
        assert(!key_written(items[i]).1);
    }
}

/// Element-wise order of two arrays: the first elements that rank differently decide, and a
/// shorter array comes before its extensions.
pub open spec fn array_less(xs: Seq<Datum>, ys: Seq<Datum>) -> bool
    decreases xs.len(),
{
    if ys.len() == 0 {
        false
    } else if xs.len() == 0 {
        true
    } else if datum_same(xs[0], ys[0]) {
        array_less(xs.drop_first(), ys.drop_first())
    } else {
        datum_less(xs[0], ys[0])
    }
}

/// Whether two arrays are equal element by element: of one length, with elements that rank the
/// same in every place.
pub open spec fn array_same(xs: Seq<Datum>, ys: Seq<Datum>) -> bool {
    xs.len() == ys.len() && forall|i: int|
        0 <= i < xs.len() ==> datum_same(#[trigger] xs[i], #[trigger] ys[i])
}

/// Whether every element is of the fixed-width type of `kind`.
pub open spec fn uniform(xs: Seq<Datum>, kind: Datum) -> bool {
    fixed_width(kind) && forall|i: int| 0 <= i < xs.len() ==> same_kind(#[trigger] xs[i], kind)
}

/// The keys of one fixed-width type have one length.
pub proof fn lemma_fixed_key(a: Datum, b: Datum)
    requires
        fixed_width(b),
        same_kind(a, b),
    ensures
        key_written(a).1,
        key_written(a).0.len() == key_written(b).0.len() > 0,
{
    match (a, b) {
        (Datum::Int16(x), Datum::Int16(y)) => {
            lemma_be_len((x + pow256(2) / 2) as nat, 2);
            lemma_be_len((y + pow256(2) / 2) as nat, 2);
        },
        (Datum::Int32(x), Datum::Int32(y)) => {
            lemma_be_len((x + pow256(4) / 2) as nat, 4);
            lemma_be_len((y + pow256(4) / 2) as nat, 4);
        },
        (Datum::Int64(x), Datum::Int64(y)) => {
            lemma_be_len((x + pow256(8) / 2) as nat, 8);
            lemma_be_len((y + pow256(8) / 2) as nat, 8);
        },
        (Datum::Date(x), Datum::Date(y)) => {
            lemma_be_len((x + pow256(4) / 2) as nat, 4);
            lemma_be_len((y + pow256(4) / 2) as nat, 4);
        },
        (Datum::Timestamp(x), Datum::Timestamp(y)) => {
            lemma_be_len((x + pow256(8) / 2) as nat, 8);
            lemma_be_len((y + pow256(8) / 2) as nat, 8);
        },
        (Datum::Time(x), Datum::Time(y)) => {
            lemma_be_len((x + pow256(8) / 2) as nat, 8);
            lemma_be_len((y + pow256(8) / 2) as nat, 8);
        },
        (Datum::Float32(x), Datum::Float32(y)) => {
            lemma_be_len(float32_rank(x), 4);
            lemma_be_len(float32_rank(y), 4);
        },
        (Datum::Float64(x), Datum::Float64(y)) => {
            lemma_be_len(float64_rank(x), 8);
            lemma_be_len(float64_rank(y), 8);
        },
        (Datum::Uuid(x), Datum::Uuid(y)) => {
            lemma_be_len(x.value as nat, 16);
            lemma_be_len(y.value as nat, 16);
        },
        (Datum::Interval(x), Datum::Interval(y)) => {
            lemma_be_len(
                (x.total_micros() + 0x8000_0000_0000_0000_0000_0000_0000_0000) as nat,
                16,
            );
            lemma_be_len(
                (y.total_micros() + 0x8000_0000_0000_0000_0000_0000_0000_0000) as nat,
                16,
            );
        },
        _ => {},
    }
}

/// The keys of a uniform array are its first element's key and then the rest's.
proof fn lemma_keys_front(xs: Seq<Datum>, kind: Datum, n: nat)
    requires
        uniform(xs, kind),
        1 <= n <= xs.len(),
    ensures
        keys_written(xs, n).1,
        keys_written(xs.drop_first(), (n - 1) as nat).1,
        keys_written(xs, n).0 == key_written(xs[0]).0 + keys_written(
            xs.drop_first(),
            (n - 1) as nat,
        ).0,
    decreases n,
{
    lemma_fixed_key(xs[n - 1], kind);
    if n == 1 {
        assert(keys_written(xs, 0) == (Seq::<u8>::empty(), true));
        assert(keys_written(xs, 1).0 =~= key_written(xs[0]).0);
        assert(key_written(xs[0]).0 + Seq::<u8>::empty() =~= key_written(xs[0]).0);
    } else {
        lemma_keys_front(xs, kind, (n - 1) as nat);
        assert(xs.drop_first()[n - 2] == xs[n - 1]);
        assert(keys_written(xs, n).0 =~= key_written(xs[0]).0 + keys_written(
            xs.drop_first(),
            (n - 1) as nat,
        ).0);
    }
}

/// Arrays of one fixed-width element type have keys that sort element by element, and equal keys
/// exactly where they are equal element by element.
pub proof fn law_array_key_order(xs: Seq<Datum>, ys: Seq<Datum>, kind: Datum)
    requires
        uniform(xs, kind),
        uniform(ys, kind),
    ensures
        key_of(Datum::Array(xs)) is Some,
        key_of(Datum::Array(ys)) is Some,
        lex_lt(key_of(Datum::Array(xs))->0, key_of(Datum::Array(ys))->0) == array_less(xs, ys),
        (key_of(Datum::Array(xs))->0 == key_of(Datum::Array(ys))->0) == array_same(xs, ys),
    decreases xs.len(),
{
    if xs.len() > 0 {
        lemma_keys_front(xs, kind, xs.len());
        lemma_fixed_key(xs[0], kind);
    }
    if ys.len() > 0 {
        lemma_keys_front(ys, kind, ys.len());
        lemma_fixed_key(ys[0], kind);
    }
    if xs.len() > 0 && ys.len() > 0 {
        let (a, b) = (key_written(xs[0]).0, key_written(ys[0]).0);
        let (x, y) = (xs.drop_first(), ys.drop_first());
        let (kx, ky) = (keys_written(x, x.len()).0, keys_written(y, y.len()).0);
        assert(same_kind(xs[0], ys[0])) by {
            assert(same_kind(xs[0], kind) && same_kind(ys[0], kind));
        }
        law_key_order(xs[0], ys[0]);
        assert forall|i: int| 0 <= i < x.len() implies same_kind(#[trigger] x[i], kind) by {
            assert(same_kind(xs[i + 1], kind));
        }
        assert forall|i: int| 0 <= i < y.len() implies same_kind(#[trigger] y[i], kind) by {
            assert(same_kind(ys[i + 1], kind));
        }
        if datum_same(xs[0], ys[0]) {
            law_array_key_order(x, y, kind);
            lemma_lex_prefix(a, kx, ky);
            assert((a + kx).skip(a.len() as int) =~= kx);
            assert((b + ky).skip(a.len() as int) =~= ky);
            if array_same(x, y) {
                assert forall|i: int| 0 <= i < xs.len() implies datum_same(
                    #[trigger] xs[i],
                    #[trigger] ys[i],
                ) by {
                    if i > 0 {
                        assert(datum_same(x[i - 1], y[i - 1]));
                    }
                }
            }
            if array_same(xs, ys) {
                assert forall|i: int| 0 <= i < x.len() implies datum_same(
                    #[trigger] x[i],
                    #[trigger] y[i],
                ) by {
                    assert(datum_same(xs[i + 1], ys[i + 1]));
                }
            }
        } else {
            assert((a + kx).take(a.len() as int) =~= a);
            assert((b + ky).take(a.len() as int) =~= b);
            lemma_lex_total(a, b);
            if lex_lt(a, b) {
                lemma_lex_extend(a, b, kx, ky);
            } else {
                lemma_lex_extend(b, a, ky, kx);
                lemma_lex_total(a + kx, b + ky);
            }
        }
    }
}

} // verus!
