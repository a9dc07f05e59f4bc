//! Which bytes values and keys are made of, byte by byte.

use vstd::prelude::*;

use super::scalar::{bool_parse, float32_key, float64_key, int_key, int_row};
use super::text::bytes_row;
use super::{key_of, key_written, row_layout, row_layouts};
use crate::catalog::ids::{DatasetId, ProjectId, TableId, TruncationId};
use crate::journal::{crc32, frame};
use crate::storage::bytes::{
    be_bytes, be_value, le_bytes, lemma_be_len, lemma_le_len, lemma_pow256_values, pow256,
};
use crate::storage::float::{
    float32_rank, float64_rank, is_nan32, is_nan64, magnitude64, nearest_whole, scale_of,
    significand, whole_of, INFINITY64,
};
use crate::storage::row::prefix_layout;
use crate::storage::types::{Datum, Float32, Float64, Interval, LogicalType, Uuid};

verus! {

// --- numbers as bytes ---

proof fn lemma_pow256_step(v: nat, i: nat)
    ensures
        pow256(i) > 0,
        (v / 256) / pow256(i) == v / pow256(i + 1),
    decreases i,
{
    if i > 0 {
        lemma_pow256_step(v, (i - 1) as nat);
    }
    let p = pow256(i) as int;
    assert(pow256(i + 1) == 256 * pow256(i));
    vstd::arithmetic::div_mod::lemma_div_denominator(v as int, 256, p);
}

/// The bytes of a number, least significant first: the `i`th is its `i`th digit to base 256.
pub proof fn law_least_significant_first(v: nat, n: nat, i: nat)
    requires
        i < n,
    ensures
        le_bytes(v, n).len() == n,
        le_bytes(v, n)[i as int] == (v / pow256(i)) % 256,
    decreases n,
{
    lemma_le_len(v, n);
    let rest = le_bytes(v / 256, (n - 1) as nat);
    if i == 0 {
        assert(pow256(0) == 1);
        assert(v / 1 == v);
    } else {
        law_least_significant_first(v / 256, (n - 1) as nat, (i - 1) as nat);
        assert(le_bytes(v, n)[i as int] == rest[i - 1]);
        lemma_pow256_step(v, (i - 1) as nat);
    }
}

/// The bytes of a number, most significant first: the `i`th from the end is its `i`th digit to
/// base 256.
pub proof fn law_most_significant_first(v: nat, n: nat, i: nat)
    requires
        i < n,
    ensures
        be_bytes(v, n).len() == n,
        be_bytes(v, n)[n - 1 - i] == (v / pow256(i)) % 256,
    decreases n,
{
    lemma_be_len(v, n);
    let rest = be_bytes(v / 256, (n - 1) as nat);
    if i == 0 {
        assert(pow256(0) == 1);
        assert(v / 1 == v);
    } else {
        law_most_significant_first(v / 256, (n - 1) as nat, (i - 1) as nat);
        assert(be_bytes(v, n)[n - 1 - i] == rest[n - 1 - i]);
        lemma_pow256_step(v, (i - 1) as nat);
    }
}

/// The bytes of an integer value: how many, and the number modulo 256 to that power.
pub open spec fn integer_bytes(d: Datum) -> Option<(nat, nat)> {
    match d {
        Datum::Int16(n) => Some((2, (n as int % 0x1_0000) as nat)),
        Datum::Int32(n) => Some((4, (n as int % 0x1_0000_0000) as nat)),
        Datum::Int64(n) => Some((8, (n as int % 0x1_0000_0000_0000_0000) as nat)),
        Datum::Date(n) => Some((4, (n as int % 0x1_0000_0000) as nat)),
        Datum::Timestamp(n) => Some((8, (n as int % 0x1_0000_0000_0000_0000) as nat)),
        Datum::Time(n) => Some((8, (n as int % 0x1_0000_0000_0000_0000) as nat)),
        Datum::Float32(f) => Some((4, f.bits as nat)),
        Datum::Float64(f) => Some((8, f.bits as nat)),
        _ => None,
    }
}

/// Integers, dates, times and floats stand in a row in two's complement, or as their bits, least
/// significant byte first.
pub proof fn law_numbers_in_rows(d: Datum, i: nat)
    requires
        integer_bytes(d) is Some,
        i < (integer_bytes(d)->0).0,
    ensures
        row_layout(d).len() == (integer_bytes(d)->0).0,
        row_layout(d)[i as int] == ((integer_bytes(d)->0).1 / pow256(i)) % 256,
{
    lemma_pow256_values();
    let (n, v) = integer_bytes(d)->0;
    assert(row_layout(d) == le_bytes(v, n));
    law_least_significant_first(v, n, i);
}

/// A bool is one byte, one or zero; a UUID sixteen, most significant first; a text or a byte
/// string its length in four bytes, least significant first, and then its bytes.
pub proof fn law_other_values_in_rows(b: bool, u: Uuid, bytes: Seq<u8>, s: Seq<char>, i: nat)
    ensures
        row_layout(Datum::Bool(b)) == seq![
            if b {
                1u8
            } else {
                0u8
            },
        ],
        i < 16 ==> row_layout(Datum::Uuid(u)).len() == 16 && row_layout(Datum::Uuid(u))[15 - i] == (
        u.value as nat / pow256(i)) % 256,
        row_layout(Datum::Bytes(bytes)).len() == 4 + bytes.len(),
        i < 4 ==> row_layout(Datum::Bytes(bytes))[i as int] == (bytes.len() / pow256(i)) % 256,
        row_layout(Datum::Bytes(bytes)).skip(4) == bytes,
        row_layout(Datum::Text(s)) == row_layout(Datum::Bytes(vstd::utf8::encode_utf8(s))),
        row_layout(Datum::Json(s)) == row_layout(Datum::Bytes(vstd::utf8::encode_utf8(s))),
        row_layout(Datum::Null).len() == 0,
{
    lemma_le_len(bytes.len(), 4);
    if i < 4 {
        law_least_significant_first(bytes.len(), 4, i);
    }
    if i < 16 {
        law_most_significant_first(u.value as nat, 16, i);
    }
    assert(bytes_row(bytes).skip(4) =~= bytes);
}

/// An interval is its months, its days and its microseconds, one after the other; an array the
/// number of its elements in four bytes, and then each element.
pub proof fn law_composite_values_in_rows(v: Interval, items: Seq<Datum>, x: Datum)
    ensures
        row_layout(Datum::Interval(v)) == row_layout(Datum::Int32(v.months)) + row_layout(
            Datum::Int32(v.days),
        ) + row_layout(Datum::Int64(v.micros)),
        row_layout(Datum::Array(items)) == le_bytes(items.len(), 4) + row_layouts(
            items,
            items.len(),
        ),
        row_layouts(items.push(x), items.len() + 1) == row_layouts(items, items.len())
            + row_layout(x),
{
    lemma_layouts_prefix(items, items.push(x), items.len());
    assert(items.push(x)[items.len() as int] == x);
}

proof fn lemma_layouts_prefix(items: Seq<Datum>, more: Seq<Datum>, n: nat)
    requires
        n <= items.len() <= more.len(),
        forall|i: int| 0 <= i < items.len() ==> items[i] == #[trigger] more[i],
    ensures
        row_layouts(items, n) == row_layouts(more, n),
    decreases n,
{
    if n > 0 {
        lemma_layouts_prefix(items, more, (n - 1) as nat);
        assert(items[n - 1] == more[n - 1]);
    }
}

/// The bytes of a number in a key: how many, and the number moved up by half their range.
pub open spec fn key_number(d: Datum) -> Option<(nat, nat)> {
    match d {
        Datum::Int16(n) => Some((2, (n + 0x8000) as nat)),
        Datum::Int32(n) => Some((4, (n + 0x8000_0000) as nat)),
        Datum::Int64(n) => Some((8, (n + 0x8000_0000_0000_0000) as nat)),
        Datum::Date(n) => Some((4, (n + 0x8000_0000) as nat)),
        Datum::Timestamp(n) => Some((8, (n + 0x8000_0000_0000_0000) as nat)),
        Datum::Time(n) => Some((8, (n + 0x8000_0000_0000_0000) as nat)),
        _ => None,
    }
}

/// Integers, dates and times stand in a key moved up by half their range, most significant byte
/// first.
pub proof fn law_numbers_in_keys(d: Datum, i: nat)
    requires
        key_number(d) is Some,
        i < (key_number(d)->0).0,
    ensures
        key_of(d) is Some,
        key_of(d)->0.len() == (key_number(d)->0).0,
        key_of(d)->0[(key_number(d)->0).0 - 1 - i] == ((key_number(d)->0).1 / pow256(i)) % 256,
{
    lemma_pow256_values();
    let (n, v) = key_number(d)->0;
    assert(key_of(d)->0 == be_bytes(v, n));
    law_most_significant_first(v, n, i);
}

/// A text's key is its bytes, a byte string's itself.
pub proof fn law_texts_in_keys(s: Seq<char>, b: Seq<u8>)
    ensures
        key_of(Datum::Text(s)) == Some(vstd::utf8::encode_utf8(s)),
        key_of(Datum::Bytes(b)) == Some(b),
        key_of(Datum::Null) is None,
{
}

// --- frames and row keys ---

/// A frame is the length of its payload in four bytes and the payload's checksum in four, each
/// most significant byte first, and then the payload.
pub proof fn law_frame_bytes(payload: Seq<u8>, i: nat)
    requires
        i < 4,
    ensures
        frame(payload).len() == 8 + payload.len(),
        frame(payload)[3 - i] == (payload.len() / pow256(i)) % 256,
        frame(payload)[7 - i] == (crc32(payload) as nat / pow256(i)) % 256,
        frame(payload).skip(8) == payload,
{
    law_most_significant_first(payload.len(), 4, i);
    law_most_significant_first(crc32(payload) as nat, 4, i);
    lemma_be_len(payload.len(), 4);
    lemma_be_len(crc32(payload) as nat, 4);
    assert(frame(payload).skip(8) =~= payload);
}

/// The prefix of a row key is the ids of its project, its dataset and its table, sixteen bytes
/// each, and the number of the incarnation in eight, all most significant byte first.
pub proof fn law_row_prefix_bytes(
    p: ProjectId,
    d: DatasetId,
    t: TableId,
    n: TruncationId,
    i: nat,
)
    ensures
        prefix_layout(p, d, t, n).len() == 56,
        i < 16 ==> prefix_layout(p, d, t, n)[15 - i] == (p.0.value as nat / pow256(i)) % 256,
        i < 16 ==> prefix_layout(p, d, t, n)[31 - i] == (d.0.value as nat / pow256(i)) % 256,
        i < 16 ==> prefix_layout(p, d, t, n)[47 - i] == (t.0.value as nat / pow256(i)) % 256,
        i < 8 ==> prefix_layout(p, d, t, n)[55 - i] == (n.0 as nat / pow256(i)) % 256,
{
    lemma_be_len(p.0.value as nat, 16);
    lemma_be_len(d.0.value as nat, 16);
    lemma_be_len(t.0.value as nat, 16);
    lemma_be_len(n.0 as nat, 8);
    if i < 16 {
        law_most_significant_first(p.0.value as nat, 16, i);
        law_most_significant_first(d.0.value as nat, 16, i);
        law_most_significant_first(t.0.value as nat, 16, i);
    }
    if i < 8 {
        law_most_significant_first(n.0 as nat, 8, i);
    }
}

// --- floats ---

/// The order of floats that are no NaN: every negative one before every positive one, positive
/// ones by their bits, negative ones against them.
pub proof fn law_floats_rank_by_sign_and_size(f: Float64, g: Float64)
    requires
        !is_nan64(f),
        !is_nan64(g),
    ensures
        ({
            let (a, b) = (f.bits, g.bits);
            let (down, up) = (a >= 0x8000_0000_0000_0000, b < 0x8000_0000_0000_0000);
            &&& down && up ==> float64_rank(f) < float64_rank(g)
            &&& !down && up ==> (float64_rank(f) < float64_rank(g) <==> a < b)
            &&& down && !up ==> (float64_rank(f) < float64_rank(g) <==> a > b)
            &&& float64_rank(f) == float64_rank(g) <==> a == b
        }),
{
}

/// The order of 32-bit floats, likewise.
pub proof fn law_small_floats_rank_by_sign_and_size(f: Float32, g: Float32)
    requires
        !is_nan32(f),
        !is_nan32(g),
    ensures
        ({
            let (a, b) = (f.bits, g.bits);
            let (down, up) = (a >= 0x8000_0000, b < 0x8000_0000);
            &&& down && up ==> float32_rank(f) < float32_rank(g)
            &&& !down && up ==> (float32_rank(f) < float32_rank(g) <==> a < b)
            &&& down && !up ==> (float32_rank(f) < float32_rank(g) <==> a > b)
            &&& float32_rank(f) == float32_rank(g) <==> a == b
        }),
{
}

/// The whole number nearest to a finite float of magnitude `s * 2^x`, halves away from zero: with
/// `x` not negative the magnitude itself, otherwise no further from it than a half, and above it
/// where it is a half away. The sign is the float's.
pub proof fn law_nearest_whole_number(f: Float64)
    requires
        magnitude64(f) < INFINITY64,
    ensures
        ({
            let m = magnitude64(f);
            let (s, x) = (significand(m) as int, scale_of(m));
            let n = if f.bits < 0x8000_0000_0000_0000 {
                whole_of(f)->0
            } else {
                -(whole_of(f)->0)
            };
            &&& whole_of(f) is Some
            &&& n >= 0
            &&& x >= 0 ==> n == s * vstd::arithmetic::power2::pow2(x as nat)
            &&& x < 0 ==> {
                let unit = vstd::arithmetic::power2::pow2((-x) as nat) as int;
                -unit < 2 * (n * unit - s) <= unit
            }
        }),
{
    let m = magnitude64(f);
    let (s, x) = (significand(m) as int, scale_of(m));
    if x < 0 {
        let u = vstd::arithmetic::power2::pow2((-x) as nat) as int;
        vstd::arithmetic::power2::lemma_pow2_pos((-x) as nat);
        let n = nearest_whole(m) as int;
        assert(n == (2 * s + u) / (2 * u));
        vstd::arithmetic::div_mod::lemma_fundamental_div_mod(2 * s + u, 2 * u);
        vstd::arithmetic::div_mod::lemma_mod_bound(2 * s + u, 2 * u);
        assert((2 * u) * n == 2 * (n * u)) by (nonlinear_arith);
        assert(n >= 0) by (nonlinear_arith)
            requires
                n == (2 * s + u) / (2 * u),
                s >= 0,
                u > 0,
        ;
    } else {
        let p = vstd::arithmetic::power2::pow2(x as nat) as int;
        assert(s * p >= 0) by (nonlinear_arith)
            requires
                s >= 0,
                p >= 0,
        ;
    }
}

} // verus!
