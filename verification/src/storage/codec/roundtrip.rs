//! What a read gives back of a write.

use vstd::prelude::*;
use vstd::utf8::encode_utf8;

use super::decimal::lemma_decimal_roundtrip;
use super::scalar::lemma_int_roundtrip;
use super::text::{bytes_parse, bytes_row, lemma_bytes_roundtrip};
use super::{no_nulls, none_null, parse_items, parse_value, row_layout, row_layouts, DecodeError};
use crate::storage::bytes::{
    le_bytes, lemma_be_len, lemma_le_len, lemma_le_roundtrip, lemma_pow256_values, to_unsigned,
};
use crate::storage::codec::ValueCodec;
use crate::storage::json::json_compact;
use crate::storage::types::{Datum, LogicalType};

verus! {

/// Whether a non-null datum is of type `ty`.
pub open spec fn has_type(d: Datum, ty: LogicalType) -> bool
    decreases d, 0nat,
{
    match (d, ty) {
        (Datum::Bool(_), LogicalType::Bool) => true,
        (Datum::Int16(_), LogicalType::Int16) => true,
        (Datum::Int32(_), LogicalType::Int32) => true,
        (Datum::Int64(_), LogicalType::Int64) => true,
        (Datum::Text(_), LogicalType::Text) => true,
        (Datum::Bytes(_), LogicalType::Bytes) => true,
        (Datum::Json(_), LogicalType::Json) => true,
        (Datum::Date(_), LogicalType::Date) => true,
        (Datum::Timestamp(_), LogicalType::Timestamp) => true,
        (Datum::Float32(_), LogicalType::Float32) => true,
        (Datum::Float64(_), LogicalType::Float64) => true,
        (Datum::Numeric(_), LogicalType::Numeric) => true,
        (Datum::Time(_), LogicalType::Time) => true,
        (Datum::Uuid(_), LogicalType::Uuid) => true,
        (Datum::Interval(_), LogicalType::Interval) => true,
        (Datum::Array(items), LogicalType::Array(elem)) => have_type(items, *elem, items.len()),
        _ => false,
    }
}

/// Whether the first `n` items are of type `elem`.
pub open spec fn have_type(items: Seq<Datum>, elem: LogicalType, n: nat) -> bool
    decreases items, n,
{
    n == 0 || n > items.len() || (have_type(items, elem, (n - 1) as nat) && has_type(
        items[n - 1],
        elem,
    ))
}

/// Whether a datum comes back from its own encoding: its lengths fit their prefixes, its
/// decimals are in range, and its JSON texts parse to themselves.
pub open spec fn storable(d: Datum) -> bool
    decreases d, 0nat,
{
    match d {
        Datum::Text(s) => encode_utf8(s).len() < 0x1_0000_0000,
        Datum::Bytes(b) => b.len() < 0x1_0000_0000,
        Datum::Json(s) => encode_utf8(s).len() < 0x1_0000_0000 && json_compact(encode_utf8(s))
            == Some(s),
        Datum::Numeric(p) => p.in_range(),
        Datum::Array(items) => items.len() < 0x1_0000_0000 && all_storable(items, items.len()),
        _ => true,
    }
}

/// Whether the first `n` items are storable.
pub open spec fn all_storable(items: Seq<Datum>, n: nat) -> bool
    decreases items, n,
{
    n == 0 || n > items.len() || (all_storable(items, (n - 1) as nat) && storable(items[n - 1]))
}

/// A typed datum holds no null, so it can be encoded.
pub proof fn law_typed_has_no_nulls(ty: LogicalType, d: Datum)
    requires
        has_type(d, ty),
    ensures
        no_nulls(d),
    decreases d, 0nat,
{
    if let Datum::Array(items) = d {
        lemma_typed_items(*ty->Array_0, items, items.len());
    }
}

proof fn lemma_typed_items(elem: LogicalType, items: Seq<Datum>, n: nat)
    requires
        have_type(items, elem, n),
        n <= items.len(),
    ensures
        none_null(items, n),
    decreases items, n,
{
    if n > 0 {
        lemma_typed_items(elem, items, (n - 1) as nat);
        law_typed_has_no_nulls(elem, items[n - 1]);
    }
}

/// Decoding what was encoded, at the value's own type, gives the value back and consumes
/// exactly the bytes that were written.
pub proof fn law_value_roundtrip(ty: LogicalType, d: Datum, rest: Seq<u8>)
    requires
        has_type(d, ty),
        storable(d),
    ensures
        parse_value(ty, row_layout(d) + rest) == (Ok::<Datum, DecodeError>(d), rest),
    decreases d, 0nat,
{
    lemma_pow256_values();
    match d {
        Datum::Null => {},
        Datum::Bool(b) => b.law_roundtrip(rest),
        Datum::Int16(n) => lemma_int_roundtrip(n as int, 2, rest),
        Datum::Int32(n) => lemma_int_roundtrip(n as int, 4, rest),
        Datum::Int64(n) => lemma_int_roundtrip(n as int, 8, rest),
        Datum::Text(s) => {
            lemma_bytes_roundtrip(encode_utf8(s), rest);
            vstd::utf8::encode_utf8_decode_utf8(s);
            vstd::utf8::encode_utf8_valid_utf8(s);
        },
        Datum::Bytes(b) => lemma_bytes_roundtrip(b, rest),
        Datum::Json(s) => lemma_bytes_roundtrip(encode_utf8(s), rest),
        Datum::Date(n) => lemma_int_roundtrip(n as int, 4, rest),
        Datum::Timestamp(n) => lemma_int_roundtrip(n as int, 8, rest),
        Datum::Float32(f) => f.law_roundtrip(rest),
        Datum::Float64(f) => f.law_roundtrip(rest),
        Datum::Numeric(p) => lemma_decimal_roundtrip(p, rest),
        Datum::Time(n) => lemma_int_roundtrip(n as int, 8, rest),
        Datum::Uuid(u) => u.law_roundtrip(rest),
        Datum::Interval(i) => i.law_roundtrip(rest),
        Datum::Array(items) => {
            let elem = *ty->Array_0;
            lemma_le_len(items.len(), 4);
            lemma_le_roundtrip(items.len(), 4);
            let all = row_layout(d) + rest;
            assert(all.take(4) =~= le_bytes(items.len(), 4));
            assert(all.skip(4) =~= row_layouts(items, items.len()) + rest);
            lemma_items_roundtrip(elem, items, items.len(), rest);
            assert(items.take(items.len() as int) =~= items);
        },
    }
}

proof fn lemma_items_roundtrip(elem: LogicalType, items: Seq<Datum>, n: nat, rest: Seq<u8>)
    requires
        n <= items.len(),
        have_type(items, elem, n),
        all_storable(items, n),
    ensures
        parse_items(elem, n, row_layouts(items, n) + rest) == (
            Ok::<Seq<Datum>, DecodeError>(items.take(n as int)),
            rest,
        ),
    decreases items, n,
{
    if n == 0 {
        assert(row_layouts(items, 0) + rest =~= rest);
        assert(items.take(0) =~= Seq::<Datum>::empty());
    } else {
        let last = items[n - 1];
        let before = row_layouts(items, (n - 1) as nat);
        assert(row_layouts(items, n) + rest =~= before + (row_layout(last) + rest));
        lemma_items_roundtrip(elem, items, (n - 1) as nat, row_layout(last) + rest);
        law_value_roundtrip(elem, last, rest);
        assert(items.take(n as int) =~= items.take(n - 1).push(last));
    }
}

// --- what a read makes of too few bytes ---

/// Whether the lengths in a datum fit their prefixes.
pub open spec fn lengths_fit(d: Datum) -> bool
    decreases d, 0nat,
{
    match d {
        Datum::Text(s) => encode_utf8(s).len() < 0x1_0000_0000,
        Datum::Bytes(b) => b.len() < 0x1_0000_0000,
        Datum::Json(s) => encode_utf8(s).len() < 0x1_0000_0000,
        Datum::Array(items) => items.len() < 0x1_0000_0000 && all_lengths_fit(items, items.len()),
        _ => true,
    }
}

/// Whether the lengths in the first `n` items fit their prefixes.
pub open spec fn all_lengths_fit(items: Seq<Datum>, n: nat) -> bool
    decreases items, n,
{
    n == 0 || n > items.len() || (all_lengths_fit(items, (n - 1) as nat) && lengths_fit(
        items[n - 1],
    ))
}

/// Whether the JSON texts in a datum parse.
pub open spec fn json_parses(d: Datum) -> bool
    decreases d, 0nat,
{
    match d {
        Datum::Json(s) => json_compact(encode_utf8(s)) is Some,
        Datum::Array(items) => all_json_parses(items, items.len()),
        _ => true,
    }
}

/// Whether the JSON texts in the first `n` items parse.
pub open spec fn all_json_parses(items: Seq<Datum>, n: nat) -> bool
    decreases items, n,
{
    n == 0 || n > items.len() || (all_json_parses(items, (n - 1) as nat) && json_parses(
        items[n - 1],
    ))
}

/// Decoding the encoding of a value, with anything behind it, succeeds and leaves just that.
proof fn lemma_read_over(ty: LogicalType, d: Datum, rest: Seq<u8>)
    requires
        has_type(d, ty),
        lengths_fit(d),
        json_parses(d),
    ensures
        parse_value(ty, row_layout(d) + rest).0 is Ok,
        parse_value(ty, row_layout(d) + rest).1 == rest,
    decreases d, 0nat,
{
    match d {
        Datum::Json(s) => lemma_bytes_roundtrip(encode_utf8(s), rest),
        Datum::Numeric(p) => {
            lemma_le_len(p.flag_word(), 4);
            lemma_le_len(p.coefficient, 12);
            assert((row_layout(d) + rest).skip(16) =~= rest);
        },
        Datum::Array(items) => {
            let elem = *ty->Array_0;
            lemma_pow256_values();
            lemma_le_len(items.len(), 4);
            lemma_le_roundtrip(items.len(), 4);
            let all = row_layout(d) + rest;
            assert(all.take(4) =~= le_bytes(items.len(), 4));
            assert(all.skip(4) =~= row_layouts(items, items.len()) + rest);
            lemma_items_read_over(elem, items, items.len(), rest);
        },
        _ => law_value_roundtrip(ty, d, rest),
    }
}

proof fn lemma_items_read_over(elem: LogicalType, items: Seq<Datum>, n: nat, rest: Seq<u8>)
    requires
        n <= items.len(),
        have_type(items, elem, n),
        all_lengths_fit(items, n),
        all_json_parses(items, n),
    ensures
        parse_items(elem, n, row_layouts(items, n) + rest).0 is Ok,
        parse_items(elem, n, row_layouts(items, n) + rest).1 == rest,
    decreases items, n,
{
    if n == 0 {
        assert(row_layouts(items, 0) + rest =~= rest);
    } else {
        let last = items[n - 1];
        let before = row_layouts(items, (n - 1) as nat);
        assert(row_layouts(items, n) + rest =~= before + (row_layout(last) + rest));
        lemma_items_read_over(elem, items, (n - 1) as nat, row_layout(last) + rest);
        lemma_read_over(elem, last, rest);
    }
}

/// A strict prefix of a length-prefixed byte string is too short.
proof fn lemma_bytes_cut(b: Seq<u8>, k: nat)
    requires
        b.len() < 0x1_0000_0000,
        k < bytes_row(b).len(),
    ensures
        bytes_parse(bytes_row(b).take(k as int)).0 == Err::<Seq<u8>, DecodeError>(
            DecodeError::UnexpectedEof,
        ),
{
    lemma_pow256_values();
    lemma_le_len(b.len(), 4);
    lemma_le_roundtrip(b.len(), 4);
    let cut = bytes_row(b).take(k as int);
    if k >= 4 {
        assert(cut.take(4) =~= le_bytes(b.len(), 4));
    }
}

/// Decoding a strict prefix of a value's encoding, at the value's own type, runs out of bytes:
/// it is no value and no other error. In an array the JSON texts before the cut are read, so they
/// must parse.
pub proof fn law_cut_off_value_is_unexpected_eof(ty: LogicalType, d: Datum, k: nat)
    requires
        has_type(d, ty),
        lengths_fit(d),
        d is Array ==> json_parses(d),
        k < row_layout(d).len(),
    ensures
        parse_value(ty, row_layout(d).take(k as int)).0 == Err::<Datum, DecodeError>(
            DecodeError::UnexpectedEof,
        ),
    decreases d, 0nat,
{
    match d {
        Datum::Null => {},
        Datum::Bool(_) => {},
        Datum::Int16(n) => lemma_le_len(to_unsigned(n as int, 2), 2),
        Datum::Int32(n) => lemma_le_len(to_unsigned(n as int, 4), 4),
        Datum::Int64(n) => lemma_le_len(to_unsigned(n as int, 8), 8),
        Datum::Text(s) => lemma_bytes_cut(encode_utf8(s), k),
        Datum::Bytes(b) => lemma_bytes_cut(b, k),
        Datum::Json(s) => lemma_bytes_cut(encode_utf8(s), k),
        Datum::Date(n) => lemma_le_len(to_unsigned(n as int, 4), 4),
        Datum::Timestamp(n) => lemma_le_len(to_unsigned(n as int, 8), 8),
        Datum::Float32(f) => lemma_le_len(f.bits as nat, 4),
        Datum::Float64(f) => lemma_le_len(f.bits as nat, 8),
        Datum::Numeric(p) => {
            lemma_le_len(p.flag_word(), 4);
            lemma_le_len(p.coefficient, 12);
        },
        Datum::Time(n) => lemma_le_len(to_unsigned(n as int, 8), 8),
        Datum::Uuid(u) => lemma_be_len(u.value as nat, 16),
        Datum::Interval(i) => {
            lemma_le_len(to_unsigned(i.months as int, 4), 4);
            lemma_le_len(to_unsigned(i.days as int, 4), 4);
            lemma_le_len(to_unsigned(i.micros as int, 8), 8);
        },
        Datum::Array(items) => {
            let elem = *ty->Array_0;
            lemma_pow256_values();
            lemma_le_len(items.len(), 4);
            lemma_le_roundtrip(items.len(), 4);
            let cut = row_layout(d).take(k as int);
            if k >= 4 {
                let tail = row_layouts(items, items.len());
                assert(cut.take(4) =~= le_bytes(items.len(), 4));
                assert(cut.skip(4) =~= tail.take(k - 4));
                lemma_items_cut(elem, items, items.len(), (k - 4) as nat);
            }
        },
    }
}

proof fn lemma_items_cut(elem: LogicalType, items: Seq<Datum>, n: nat, k: nat)
    requires
        n <= items.len(),
        have_type(items, elem, n),
        all_lengths_fit(items, n),
        all_json_parses(items, n),
        k < row_layouts(items, n).len(),
    ensures
        parse_items(elem, n, row_layouts(items, n).take(k as int)).0 == Err::<
            Seq<Datum>,
            DecodeError,
        >(DecodeError::UnexpectedEof),
    decreases items, n,
{
    if n > 0 {
        let last = row_layout(items[n - 1]);
        let before = row_layouts(items, (n - 1) as nat);
        let cut = row_layouts(items, n).take(k as int);
        if k < before.len() {
            assert(cut =~= before.take(k as int));
            lemma_items_cut(elem, items, (n - 1) as nat, k);
        } else {
            let left = (k - before.len()) as nat;
            assert(cut =~= before + last.take(left as int));
            lemma_items_read_over(elem, items, (n - 1) as nat, last.take(left as int));
            law_cut_off_value_is_unexpected_eof(elem, items[n - 1], left);
        }
    }
}

} // verus!
