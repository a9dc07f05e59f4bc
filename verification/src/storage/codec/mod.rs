//! Wire encoding for logical types.
//!
//! Two codecs sit side by side, one per role:
//!
//! - [`ValueCodec`]: the in-row column encoding. Variable-length types carry a `u32` length
//!   prefix so that columns decode positionally.
//! - [`KeyCodec`]: the storage user-key encoding, order-preserving, so that the engine's
//!   byte-wise sort matches the value's own order.
//!
//! `Null` is encoded by neither: nulls live in a row's null bitmap, and cannot be keys.

use vstd::prelude::*;

use crate::storage::bytes::{
    le_bytes, le_value, lemma_le_len, lemma_le_value_bound, lemma_pow256_values, push_le, read_le,
};
use crate::storage::decimal::Decimal;
use crate::storage::json::Json;
use crate::storage::types::{
    data_of, lemma_array_view, Datum, Float32, Float64, Interval, LogicalType, Uuid, Value,
};

pub mod decimal;
pub mod decimal_order;
pub mod interval;
pub mod layout_laws;
pub mod order;
pub mod roundtrip;
pub mod scalar;
pub mod text;

use decimal::{decimal_key, decimal_row, decimal_row_parse};
use interval::{interval_key, interval_row, interval_row_parse};
use scalar::{
    bool_bytes, bool_parse, float32_key, float64_key, int_key, int_parse, int_row, uuid_bytes,
    uuid_parse,
};
use text::{bytes_parse, bytes_row, json_parse, text_parse};

verus! {

/// Tried to encode a value that has no key form.
#[derive(Debug, Clone, Copy, PartialEq, Eq, Structural)]
pub enum KeyEncodeError {
    /// `Null` cannot be a key.
    NullKey,
}

/// Why a value could not be decoded.
#[derive(Debug, Clone, Copy, PartialEq, Eq, Structural)]
pub enum DecodeError {
    /// Not enough bytes left in the buffer.
    UnexpectedEof,
    /// A bool byte was neither 0 nor 1.
    InvalidBool(u8),
    /// Text bytes were not valid UTF-8.
    InvalidUtf8,
    /// JSON bytes did not parse.
    InvalidJson,
    /// Bytes were left over after the last field.
    TrailingBytes,
}

/// In-row column codec, one per primitive logical type.
pub trait ValueCodec: View + Sized {
    /// The bytes that `encode` appends.
    spec fn row_layout(&self) -> Seq<u8>;

    /// What `decode` makes of a buffer: the value or the error, and what is left of it.
    spec fn row_parse(b: Seq<u8>) -> (Result<Self::V, DecodeError>, Seq<u8>);

    /// Whether the value comes back from its own encoding.
    spec fn storable(&self) -> bool;

    /// How many bytes `encode` appends.
    fn encoded_size(&self) -> (n: usize)
        requires
            self.row_layout().len() <= usize::MAX,
        ensures
            n == self.row_layout().len(),
    ;

    /// Append the in-row encoding.
    fn encode(&self, buf: &mut Vec<u8>)
        ensures
            final(buf)@ == old(buf)@ + self.row_layout(),
    ;

    /// Decode one value, advancing `buf` past the bytes it consumed.
    fn decode(buf: &mut &[u8]) -> (r: Result<Self, DecodeError>)
        ensures
            final(buf)@ == Self::row_parse(old(buf)@).1,
            r is Ok <==> Self::row_parse(old(buf)@).0 is Ok,
            r is Ok ==> Self::row_parse(old(buf)@).0->Ok_0 == r->Ok_0@,
            r is Err ==> Self::row_parse(old(buf)@).0->Err_0 == r->Err_0,
    ;

    /// Decoding what was encoded gives the value back and consumes exactly its bytes.
    proof fn law_roundtrip(&self, rest: Seq<u8>)
        requires
            self.storable(),
        ensures
            Self::row_parse(self.row_layout() + rest) == (Ok::<Self::V, DecodeError>(self@), rest),
    ;
}

/// Storage user-key codec, order-preserving. Encode-only.
pub trait KeyCodec: Sized {
    /// The bytes that `encode_key` appends.
    spec fn key_layout(&self) -> Seq<u8>;

    /// Append the key encoding.
    fn encode_key(&self, buf: &mut Vec<u8>)
        ensures
            final(buf)@ == old(buf)@ + self.key_layout(),
    ;
}

/// Splitting `n` bytes off a buffer: them and the rest, or nothing where there are fewer.
pub open spec fn split_bytes(b: Seq<u8>, n: nat) -> Option<(Seq<u8>, Seq<u8>)> {
    if b.len() < n {
        None
    } else {
        Some((b.take(n as int), b.skip(n as int)))
    }
}

/// Split the first `n` bytes off `buf`, advancing the cursor past them.
pub fn take<'a>(buf: &mut &'a [u8], n: usize) -> (r: Result<&'a [u8], DecodeError>)
    ensures
        match split_bytes(old(buf)@, n as nat) {
            Some((head, tail)) => r is Ok && r->Ok_0@ == head && final(buf)@ == tail,
            None => r == Err::<&'a [u8], DecodeError>(DecodeError::UnexpectedEof) && final(buf)@
                == old(buf)@,
        },
{
    if buf.len() < n {
        return Err(DecodeError::UnexpectedEof);
    }
    let (head, tail) = buf.split_at(n);
    *buf = tail;
    assert(head@ =~= old(buf)@.take(n as int));
    assert(tail@ =~= old(buf)@.skip(n as int));
    Ok(head)
}

// --- the layout of a datum ---

/// The in-row encoding of a datum; a null, which the bitmap records, has none.
pub open spec fn row_layout(d: Datum) -> Seq<u8>
    decreases d, 0nat,
{
    match d {
        Datum::Null => Seq::empty(),
        Datum::Bool(b) => bool_bytes(b),
        Datum::Int16(n) => int_row(n as int, 2),
        Datum::Int32(n) => int_row(n as int, 4),
        Datum::Int64(n) => int_row(n as int, 8),
        Datum::Text(s) => bytes_row(vstd::utf8::encode_utf8(s)),
        Datum::Bytes(b) => bytes_row(b),
        Datum::Json(s) => bytes_row(vstd::utf8::encode_utf8(s)),
        Datum::Date(n) => int_row(n as int, 4),
        Datum::Timestamp(n) => int_row(n as int, 8),
        Datum::Float32(f) => le_bytes(f.bits as nat, 4),
        Datum::Float64(f) => le_bytes(f.bits as nat, 8),
        Datum::Numeric(p) => decimal_row(p),
        Datum::Time(n) => int_row(n as int, 8),
        Datum::Uuid(u) => uuid_bytes(u),
        Datum::Interval(i) => interval_row(i),
        Datum::Array(items) => le_bytes(items.len(), 4) + row_layouts(items, items.len()),
    }
}

/// The in-row encodings of the first `n` items, one after the other.
pub open spec fn row_layouts(items: Seq<Datum>, n: nat) -> Seq<u8>
    decreases items, n,
{
    if n == 0 || n > items.len() {
        Seq::empty()
    } else {
        row_layouts(items, (n - 1) as nat) + row_layout(items[n - 1])
    }
}

/// Whether no null stands in the datum, at any depth.
pub open spec fn no_nulls(d: Datum) -> bool
    decreases d, 0nat,
{
    match d {
        Datum::Null => false,
        Datum::Array(items) => none_null(items, items.len()),
        _ => true,
    }
}

/// Whether no null stands in any of the first `n` items.
pub open spec fn none_null(items: Seq<Datum>, n: nat) -> bool
    decreases items, n,
{
    n == 0 || n > items.len() || (none_null(items, (n - 1) as nat) && no_nulls(items[n - 1]))
}

/// Where no value holds a null, the one at `i` does not.
pub proof fn lemma_none_null(items: Seq<Datum>, n: nat, i: int)
    requires
        none_null(items, n),
        0 <= i < n <= items.len(),
    ensures
        no_nulls(items[i]),
    decreases n,
{
    if i < n - 1 {
        lemma_none_null(items, (n - 1) as nat, i);
    }
}

/// What `encode_key` writes of a datum, and whether it gets to the end: a null stops it.
pub open spec fn key_written(d: Datum) -> (Seq<u8>, bool)
    decreases d, 0nat,
{
    match d {
        Datum::Null => (Seq::empty(), false),
        Datum::Bool(b) => (bool_bytes(b), true),
        Datum::Int16(n) => (int_key(n as int, 2), true),
        Datum::Int32(n) => (int_key(n as int, 4), true),
        Datum::Int64(n) => (int_key(n as int, 8), true),
        Datum::Text(s) => (vstd::utf8::encode_utf8(s), true),
        Datum::Bytes(b) => (b, true),
        Datum::Json(s) => (vstd::utf8::encode_utf8(s), true),
        Datum::Date(n) => (int_key(n as int, 4), true),
        Datum::Timestamp(n) => (int_key(n as int, 8), true),
        Datum::Float32(f) => (float32_key(f), true),
        Datum::Float64(f) => (float64_key(f), true),
        Datum::Numeric(p) => (decimal_key(p), true),
        Datum::Time(n) => (int_key(n as int, 8), true),
        Datum::Uuid(u) => (uuid_bytes(u), true),
        Datum::Interval(i) => (interval_key(i), true),
        Datum::Array(items) => keys_written(items, items.len()),
    }
}

/// What is written of the first `n` items' keys, up to the first that has none.
pub open spec fn keys_written(items: Seq<Datum>, n: nat) -> (Seq<u8>, bool)
    decreases items, n,
{
    if n == 0 || n > items.len() {
        (Seq::empty(), true)
    } else {
        let before = keys_written(items, (n - 1) as nat);
        if before.1 {
            let last = key_written(items[n - 1]);
            (before.0 + last.0, last.1)
        } else {
            before
        }
    }
}

/// The key of a datum, where it has one.
pub open spec fn key_of(d: Datum) -> Option<Seq<u8>> {
    if key_written(d).1 {
        Some(key_written(d).0)
    } else {
        None
    }
}

/// What decoding a buffer as `ty` gives: the datum or the error, and what is left.
pub open spec fn parse_value(ty: LogicalType, b: Seq<u8>) -> (Result<Datum, DecodeError>, Seq<u8>)
    decreases ty, 0nat,
{
    match ty {
        LogicalType::Bool => map_parse(bool_parse(b), |v: bool| Datum::Bool(v)),
        LogicalType::Int16 => map_parse(int_parse(b, 2), |v: int| Datum::Int16(v as i16)),
        LogicalType::Int32 => map_parse(int_parse(b, 4), |v: int| Datum::Int32(v as i32)),
        LogicalType::Int64 => map_parse(int_parse(b, 8), |v: int| Datum::Int64(v as i64)),
        LogicalType::Text => map_parse(text_parse(b), |v: Seq<char>| Datum::Text(v)),
        LogicalType::Bytes => map_parse(bytes_parse(b), |v: Seq<u8>| Datum::Bytes(v)),
        LogicalType::Json => map_parse(json_parse(b), |v: Seq<char>| Datum::Json(v)),
        LogicalType::Date => map_parse(int_parse(b, 4), |v: int| Datum::Date(v as i32)),
        LogicalType::Timestamp => map_parse(int_parse(b, 8), |v: int| Datum::Timestamp(v as i64)),
        LogicalType::Float32 => match split_bytes(b, 4) {
            Some((head, tail)) => (
                Ok(Datum::Float32(Float32 { bits: le_value(head) as u32 })),
                tail,
            ),
            None => (Err(DecodeError::UnexpectedEof), b),
        },
        LogicalType::Float64 => match split_bytes(b, 8) {
            Some((head, tail)) => (
                Ok(Datum::Float64(Float64 { bits: le_value(head) as u64 })),
                tail,
            ),
            None => (Err(DecodeError::UnexpectedEof), b),
        },
        LogicalType::Numeric => map_parse(
            decimal_row_parse(b),
            |v: crate::storage::decimal::DecimalParts| Datum::Numeric(v),
        ),
        LogicalType::Time => map_parse(int_parse(b, 8), |v: int| Datum::Time(v as i64)),
        LogicalType::Uuid => map_parse(uuid_parse(b), |v: Uuid| Datum::Uuid(v)),
        LogicalType::Interval => map_parse(
            interval_row_parse(b),
            |v: Interval| Datum::Interval(v),
        ),
        LogicalType::Array(elem) => match split_bytes(b, 4) {
            Some((head, tail)) => map_parse(
                parse_items(*elem, le_value(head), tail),
                |v: Seq<Datum>| Datum::Array(v),
            ),
            None => (Err(DecodeError::UnexpectedEof), b),
        },
    }
}

/// What decoding `n` values of type `elem` in a row gives.
pub open spec fn parse_items(elem: LogicalType, n: nat, b: Seq<u8>) -> (
    Result<Seq<Datum>, DecodeError>,
    Seq<u8>,
)
    decreases elem, n,
{
    if n == 0 {
        (Ok(Seq::empty()), b)
    } else {
        match parse_items(elem, (n - 1) as nat, b) {
            (Ok(items), rest) => match parse_value(elem, rest) {
                (Ok(v), left) => (Ok(items.push(v)), left),
                (Err(e), left) => (Err(e), left),
            },
            (Err(e), rest) => (Err(e), rest),
        }
    }
}

/// Apply `f` to the value of a successful parse.
pub open spec fn map_parse<T>(p: (Result<T, DecodeError>, Seq<u8>), f: spec_fn(T) -> Datum) -> (
    Result<Datum, DecodeError>,
    Seq<u8>,
) {
    match p.0 {
        Ok(v) => (Ok(f(v)), p.1),
        Err(e) => (Err(e), p.1),
    }
}

impl Value {
    /// How many bytes `encode` appends; none for `Null`, which lives in the bitmap.
    pub fn encoded_size(&self) -> (n: usize)
        requires
            row_layout(self@).len() <= usize::MAX,
        ensures
            n == row_layout(self@).len(),
        decreases self,
    {
        match self {
            Value::Null => 0,
            Value::Bool(b) => b.encoded_size(),
            Value::Int16(n) => n.encoded_size(),
            Value::Int32(n) => n.encoded_size(),
            Value::Int64(n) => n.encoded_size(),
            Value::Text(s) => s.encoded_size(),
            Value::Bytes(b) => b.encoded_size(),
            Value::Json(j) => j.encoded_size(),
            Value::Date(n) => n.encoded_size(),
            Value::Timestamp(n) => n.encoded_size(),
            Value::Float32(f) => f.encoded_size(),
            Value::Float64(f) => f.encoded_size(),
            Value::Numeric(d) => d.encoded_size(),
            Value::Time(n) => n.encoded_size(),
            Value::Uuid(u) => u.encoded_size(),
            Value::Interval(i) => i.encoded_size(),
            Value::Array(items) => {
                proof {
                    lemma_array_view(*items);
                    lemma_le_len(items@.len(), 4);
                }
                4 + encoded_sizes(items)
            },
        }
    }

    /// Append the in-row encoding. A null has none: rows record it in their bitmap.
    pub fn encode(&self, buf: &mut Vec<u8>)
        requires
            no_nulls(self@),
        ensures
            final(buf)@ == old(buf)@ + row_layout(self@),
        decreases self,
    {
        match self {
            Value::Null => {},
            Value::Bool(b) => b.encode(buf),
            Value::Int16(n) => n.encode(buf),
            Value::Int32(n) => n.encode(buf),
            Value::Int64(n) => n.encode(buf),
            Value::Text(s) => s.encode(buf),
            Value::Bytes(b) => b.encode(buf),
            Value::Json(j) => j.encode(buf),
            Value::Date(n) => n.encode(buf),
            Value::Timestamp(n) => n.encode(buf),
            Value::Float32(f) => f.encode(buf),
            Value::Float64(f) => f.encode(buf),
            Value::Numeric(d) => d.encode(buf),
            Value::Time(n) => n.encode(buf),
            Value::Uuid(u) => u.encode(buf),
            Value::Interval(i) => i.encode(buf),
            Value::Array(items) => {
                proof {
                    lemma_array_view(*items);
                }
                push_le(buf, items.len() as u128, 4);
                encode_items(items, buf);
                assert(buf@ =~= old(buf)@ + row_layout(self@));
            },
        }
    }

    /// Append the key encoding. Fails on a null, at any depth; what was written before it
    /// stays in the buffer.
    pub fn encode_key(&self, buf: &mut Vec<u8>) -> (r: Result<(), KeyEncodeError>)
        ensures
            final(buf)@ == old(buf)@ + key_written(self@).0,
            r is Ok <==> key_written(self@).1,
            r is Err ==> r->Err_0 == KeyEncodeError::NullKey,
        decreases self,
    {
        match self {
            Value::Null => {
                assert(buf@ =~= old(buf)@ + Seq::<u8>::empty());
                return Err(KeyEncodeError::NullKey);
            },
            Value::Bool(b) => b.encode_key(buf),
            Value::Int16(n) => n.encode_key(buf),
            Value::Int32(n) => n.encode_key(buf),
            Value::Int64(n) => n.encode_key(buf),
            Value::Text(s) => s.encode_key(buf),
            Value::Bytes(b) => b.encode_key(buf),
            Value::Json(j) => j.encode_key(buf),
            Value::Date(n) => n.encode_key(buf),
            Value::Timestamp(n) => n.encode_key(buf),
            Value::Float32(f) => f.encode_key(buf),
            Value::Float64(f) => f.encode_key(buf),
            Value::Numeric(d) => d.encode_key(buf),
            Value::Time(n) => n.encode_key(buf),
            Value::Uuid(u) => u.encode_key(buf),
            Value::Interval(i) => i.encode_key(buf),
            Value::Array(items) => {
                proof {
                    lemma_array_view(*items);
                }
                return encode_item_keys(items, buf);
            },
        }
        Ok(())
    }

    /// Decode one non-null value of the given type, advancing `buf` past the bytes it
    /// consumed.
    pub fn decode(ty: &LogicalType, buf: &mut &[u8]) -> (r: Result<Value, DecodeError>)
        ensures
            final(buf)@ == parse_value(*ty, old(buf)@).1,
            r is Ok <==> parse_value(*ty, old(buf)@).0 is Ok,
            r is Ok ==> parse_value(*ty, old(buf)@).0->Ok_0 == r->Ok_0@,
            r is Err ==> parse_value(*ty, old(buf)@).0->Err_0 == r->Err_0,
        decreases ty, 0nat,
    {
        match ty {
            LogicalType::Bool => match bool::decode(buf) {
                Ok(v) => Ok(Value::Bool(v)),
                Err(e) => Err(e),
            },
            LogicalType::Int16 => match i16::decode(buf) {
                Ok(v) => Ok(Value::Int16(v)),
                Err(e) => Err(e),
            },
            LogicalType::Int32 => match i32::decode(buf) {
                Ok(v) => Ok(Value::Int32(v)),
                Err(e) => Err(e),
            },
            LogicalType::Int64 => match i64::decode(buf) {
                Ok(v) => Ok(Value::Int64(v)),
                Err(e) => Err(e),
            },
            LogicalType::Text => match String::decode(buf) {
                Ok(v) => Ok(Value::Text(v)),
                Err(e) => Err(e),
            },
            LogicalType::Bytes => match Vec::<u8>::decode(buf) {
                Ok(v) => Ok(Value::Bytes(v)),
                Err(e) => Err(e),
            },
            LogicalType::Json => match Json::decode(buf) {
                Ok(v) => Ok(Value::Json(v)),
                Err(e) => Err(e),
            },
            LogicalType::Date => match i32::decode(buf) {
                Ok(v) => Ok(Value::Date(v)),
                Err(e) => Err(e),
            },
            LogicalType::Timestamp => match i64::decode(buf) {
                Ok(v) => Ok(Value::Timestamp(v)),
                Err(e) => Err(e),
            },
            LogicalType::Float32 => match Float32::decode(buf) {
                Ok(v) => Ok(Value::Float32(v)),
                Err(e) => Err(e),
            },
            LogicalType::Float64 => match Float64::decode(buf) {
                Ok(v) => Ok(Value::Float64(v)),
                Err(e) => Err(e),
            },
            LogicalType::Numeric => match Decimal::decode(buf) {
                Ok(v) => Ok(Value::Numeric(v)),
                Err(e) => Err(e),
            },
            LogicalType::Time => match i64::decode(buf) {
                Ok(v) => Ok(Value::Time(v)),
                Err(e) => Err(e),
            },
            LogicalType::Uuid => match Uuid::decode(buf) {
                Ok(v) => Ok(Value::Uuid(v)),
                Err(e) => Err(e),
            },
            LogicalType::Interval => match Interval::decode(buf) {
                Ok(v) => Ok(Value::Interval(v)),
                Err(e) => Err(e),
            },
            LogicalType::Array(elem) => match take(buf, 4) {
                Err(e) => Err(e),
                Ok(head) => {
                    proof {
                        lemma_le_value_bound(head@);
                        lemma_pow256_values();
                    }
                    let count: u64 = read_le(head) as u64;
                    match decode_items(elem, count, buf) {
                        Ok(items) => {
                            proof {
                                lemma_array_view(items);
                            }
                            Ok(Value::Array(items))
                        },
                        Err(e) => Err(e),
                    }
                },
            },
        }
    }
}

/// The layouts of the first `n` items grow with `n`.
proof fn lemma_row_layouts_monotonic(items: Seq<Datum>, a: nat, b: nat)
    requires
        a <= b <= items.len(),
    ensures
        row_layouts(items, a).len() <= row_layouts(items, b).len(),
    decreases b,
{
    if a < b {
        lemma_row_layouts_monotonic(items, a, (b - 1) as nat);
    }
}

/// How many bytes the items' encodings take together.
fn encoded_sizes(items: &Vec<Value>) -> (n: usize)
    requires
        row_layouts(data_of(items@), items@.len()).len() <= usize::MAX,
    ensures
        n == row_layouts(data_of(items@), items@.len()).len(),
    decreases items,
{
    let ghost data = data_of(items@);
    let mut total: usize = 0;
    let mut i: usize = 0;
    while i < items.len()
        invariant
            i <= items@.len(),
            data == data_of(items@),
            row_layouts(data, items@.len()).len() <= usize::MAX,
            total == row_layouts(data, i as nat).len(),
        decreases items@.len() - i,
    {
        proof {
            lemma_row_layouts_monotonic(data, (i + 1) as nat, items@.len());
            assert(data[i as int] == items@[i as int]@);
            assert(decreases_to!(*items => items@[i as int]));
        }
        let n: usize = items[i].encoded_size();
        total = total + n;
        i = i + 1;
    }
    total
}

/// Append the items' in-row encodings.
fn encode_items(items: &Vec<Value>, buf: &mut Vec<u8>)
    requires
        no_nulls(Datum::Array(data_of(items@))),
    ensures
        final(buf)@ == old(buf)@ + row_layouts(data_of(items@), items@.len()),
    decreases items,
{
    let ghost data = data_of(items@);
    let mut i: usize = 0;
    assert(old(buf)@ + row_layouts(data, 0) =~= old(buf)@);
    while i < items.len()
        invariant
            i <= items@.len(),
            data == data_of(items@),
            no_nulls(Datum::Array(data)),
            buf@ == old(buf)@ + row_layouts(data, i as nat),
        decreases items@.len() - i,
    {
        proof {
            lemma_none_null(data, data.len(), i as int);
            assert(data[i as int] == items@[i as int]@);
            assert(decreases_to!(*items => items@[i as int]));
        }
        items[i].encode(buf);
        assert(buf@ =~= old(buf)@ + row_layouts(data, (i + 1) as nat));
        i = i + 1;
    }
}

/// Once an item has no key, nothing more is written.
proof fn lemma_keys_stop(items: Seq<Datum>, a: nat, b: nat)
    requires
        a <= b <= items.len(),
        !keys_written(items, a).1,
    ensures
        keys_written(items, b) == keys_written(items, a),
    decreases b,
{
    if a < b {
        lemma_keys_stop(items, a, (b - 1) as nat);
    }
}

/// Append the items' keys, up to the first that has none.
fn encode_item_keys(items: &Vec<Value>, buf: &mut Vec<u8>) -> (r: Result<(), KeyEncodeError>)
    ensures
        final(buf)@ == old(buf)@ + keys_written(data_of(items@), items@.len()).0,
        r is Ok <==> keys_written(data_of(items@), items@.len()).1,
        r is Err ==> r->Err_0 == KeyEncodeError::NullKey,
    decreases items,
{
    let ghost data = data_of(items@);
    let mut i: usize = 0;
    assert(old(buf)@ + keys_written(data, 0).0 =~= old(buf)@);
    while i < items.len()
        invariant
            i <= items@.len(),
            data == data_of(items@),
            buf@ == old(buf)@ + keys_written(data, i as nat).0,
            keys_written(data, i as nat).1,
        decreases items@.len() - i,
    {
        proof {
            assert(data[i as int] == items@[i as int]@);
            assert(decreases_to!(*items => items@[i as int]));
        }
        let one = items[i].encode_key(buf);
        assert(buf@ =~= old(buf)@ + keys_written(data, (i + 1) as nat).0);
        if one.is_err() {
            proof {
                lemma_keys_stop(data, (i + 1) as nat, items@.len());
            }
            return Err(KeyEncodeError::NullKey);
        }
        i = i + 1;
    }
    Ok(())
}

/// A failed run of items stays failed.
proof fn lemma_parse_stops(elem: LogicalType, a: nat, b: nat, buf: Seq<u8>)
    requires
        a <= b,
        parse_items(elem, a, buf).0 is Err,
    ensures
        parse_items(elem, b, buf) == parse_items(elem, a, buf),
    decreases b,
{
    if a < b {
        lemma_parse_stops(elem, a, (b - 1) as nat, buf);
    }
}

/// Decode `count` values of type `elem`.
fn decode_items(elem: &LogicalType, count: u64, buf: &mut &[u8]) -> (r: Result<
    Vec<Value>,
    DecodeError,
>)
    ensures
        final(buf)@ == parse_items(*elem, count as nat, old(buf)@).1,
        r is Ok <==> parse_items(*elem, count as nat, old(buf)@).0 is Ok,
        r is Ok ==> parse_items(*elem, count as nat, old(buf)@).0->Ok_0 == data_of(r->Ok_0@),
        r is Err ==> parse_items(*elem, count as nat, old(buf)@).0->Err_0 == r->Err_0,
    decreases elem, 1nat,
{
    let mut out: Vec<Value> = Vec::new();
    let mut i: u64 = 0;
    assert(data_of(out@) =~= Seq::<Datum>::empty());
    while i < count
        invariant
            i <= count,
            parse_items(*elem, i as nat, old(buf)@) == (
                Ok::<Seq<Datum>, DecodeError>(data_of(out@)),
                buf@,
            ),
        decreases count - i,
    {
        let ghost before = data_of(out@);
        match Value::decode(elem, buf) {
            Ok(v) => {
                out.push(v);
                assert(data_of(out@) =~= before.push(v@));
            },
            Err(e) => {
                proof {
                    lemma_parse_stops(*elem, (i + 1) as nat, count as nat, old(buf)@);
                }
                return Err(e);
            },
        }
        i = i + 1;
    }
    Ok(out)
}

} // verus!
