//! Codecs for the fixed-width scalar types: `bool`, the signed integers, the floats by their
//! bit patterns, and `Uuid`.
//!
//! In a row integers are little-endian. In a key they are big-endian with the sign bit
//! flipped, which adds half the range: negatives sort before positives. Floats get their place
//! in the order of floats, where every NaN comes last.

use vstd::prelude::*;

use super::{split_bytes, take, DecodeError, KeyCodec, ValueCodec};
use crate::storage::bytes::{
    be_bytes, be_value, le_bytes, le_value, lemma_be_len, lemma_be_roundtrip, lemma_be_value_bound,
    lemma_le_len, lemma_le_roundtrip, lemma_le_value_bound, lemma_pow256_values,
    lemma_signed_roundtrip, pow256, push_be, push_le, read_be, read_le, to_signed, to_unsigned,
};
use crate::storage::float::{float32_rank, float64_rank};
use crate::storage::types::{Float32, Float64, Uuid};

verus! {

/// A bool: one byte, in a row and in a key.
pub open spec fn bool_bytes(b: bool) -> Seq<u8> {
    seq![
        if b {
            1u8
        } else {
            0u8
        },
    ]
}

/// Reading a bool.
pub open spec fn bool_parse(b: Seq<u8>) -> (Result<bool, DecodeError>, Seq<u8>) {
    match split_bytes(b, 1) {
        Some((head, tail)) => if head[0] == 0 {
            (Ok(false), tail)
        } else if head[0] == 1 {
            (Ok(true), tail)
        } else {
            (Err(DecodeError::InvalidBool(head[0])), tail)
        },
        None => (Err(DecodeError::UnexpectedEof), b),
    }
}

/// A signed integer of `n` bytes in a row: two's complement, least significant byte first.
pub open spec fn int_row(v: int, n: nat) -> Seq<u8> {
    le_bytes(to_unsigned(v, n), n)
}

/// Reading a signed integer of `n` bytes.
pub open spec fn int_parse(b: Seq<u8>, n: nat) -> (Result<int, DecodeError>, Seq<u8>) {
    match split_bytes(b, n) {
        Some((head, tail)) => (Ok(to_signed(le_value(head), n)), tail),
        None => (Err(DecodeError::UnexpectedEof), b),
    }
}

/// A signed integer of `n` bytes in a key: half the range is added, most significant byte
/// first.
pub open spec fn int_key(v: int, n: nat) -> Seq<u8> {
    be_bytes((v + pow256(n) / 2) as nat, n)
}

/// The key of a 32-bit float.
pub open spec fn float32_key(f: Float32) -> Seq<u8> {
    be_bytes(float32_rank(f), 4)
}

/// The key of a 64-bit float.
pub open spec fn float64_key(f: Float64) -> Seq<u8> {
    be_bytes(float64_rank(f), 8)
}

/// The sixteen bytes of a UUID, in a row and in a key.
pub open spec fn uuid_bytes(u: Uuid) -> Seq<u8> {
    be_bytes(u.value as nat, 16)
}

/// Reading a UUID.
pub open spec fn uuid_parse(b: Seq<u8>) -> (Result<Uuid, DecodeError>, Seq<u8>) {
    match split_bytes(b, 16) {
        Some((head, tail)) => (Ok(Uuid { value: be_value(head) as u128 }), tail),
        None => (Err(DecodeError::UnexpectedEof), b),
    }
}

/// Whether `v` is a signed integer of `n` bytes, for the widths in use.
pub open spec fn fits_signed(v: int, n: nat) -> bool {
    &&& n == 2 || n == 4 || n == 8
    &&& -(pow256(n) as int) <= 2 * v < pow256(n)
}

/// `256^n` for the integer widths in use.
fn range_of(n: usize) -> (r: i128)
    requires
        n == 2 || n == 4 || n == 8,
    ensures
        r == pow256(n as nat),
        0 < r <= 0x1_0000_0000_0000_0000,
        r % 2 == 0,
{
    proof {
        lemma_pow256_values();
    }
    if n == 2 {
        0x1_0000
    } else if n == 4 {
        0x1_0000_0000
    } else {
        0x1_0000_0000_0000_0000
    }
}

/// Append a signed integer of `n` bytes.
pub fn push_int(buf: &mut Vec<u8>, v: i64, n: usize)
    requires
        fits_signed(v as int, n as nat),
    ensures
        final(buf)@ == old(buf)@ + int_row(v as int, n as nat),
{
    let range = range_of(n);
    let u: i128 = if v >= 0 {
        v as i128
    } else {
        v as i128 + range
    };
    push_le(buf, u as u128, n);
}

/// Append the key of a signed integer of `n` bytes.
pub fn push_int_key(buf: &mut Vec<u8>, v: i64, n: usize)
    requires
        fits_signed(v as int, n as nat),
    ensures
        final(buf)@ == old(buf)@ + int_key(v as int, n as nat),
{
    let range = range_of(n);
    let u: i128 = v as i128 + range / 2;
    push_be(buf, u as u128, n);
}

/// Read a signed integer of `n` bytes.
pub fn take_int(buf: &mut &[u8], n: usize) -> (r: Result<i64, DecodeError>)
    requires
        n == 2 || n == 4 || n == 8,
    ensures
        final(buf)@ == int_parse(old(buf)@, n as nat).1,
        r is Ok <==> int_parse(old(buf)@, n as nat).0 is Ok,
        r is Ok ==> int_parse(old(buf)@, n as nat).0->Ok_0 == r->Ok_0 && fits_signed(
            r->Ok_0 as int,
            n as nat,
        ),
        r is Err ==> int_parse(old(buf)@, n as nat).0->Err_0 == r->Err_0,
{
    match take(buf, n) {
        Err(e) => Err(e),
        Ok(head) => {
            let u = read_le(head);
            let range = range_of(n);
            proof {
                lemma_le_value_bound(head@);
                lemma_pow256_values();
            }
            let v: i128 = if 2 * (u as i128) < range {
                u as i128
            } else {
                u as i128 - range
            };
            Ok(v as i64)
        },
    }
}

/// Reading back an integer that was written gives it, and what followed.
pub proof fn lemma_int_roundtrip(v: int, n: nat, rest: Seq<u8>)
    requires
        -(pow256(n) as int) <= 2 * v < pow256(n),
    ensures
        int_parse(int_row(v, n) + rest, n) == (Ok::<int, DecodeError>(v), rest),
{
    lemma_signed_roundtrip(v, n);
    let u = to_unsigned(v, n);
    lemma_le_len(u, n);
    lemma_le_roundtrip(u, n);
    assert((int_row(v, n) + rest).take(n as int) =~= int_row(v, n));
    assert((int_row(v, n) + rest).skip(n as int) =~= rest);
}

impl ValueCodec for bool {
    open spec fn row_layout(&self) -> Seq<u8> {
        bool_bytes(*self)
    }

    open spec fn row_parse(b: Seq<u8>) -> (Result<bool, DecodeError>, Seq<u8>) {
        bool_parse(b)
    }

    open spec fn storable(&self) -> bool {
        true
    }

    fn encoded_size(&self) -> (n: usize) {
        1
    }

    fn encode(&self, buf: &mut Vec<u8>) {
        buf.push(
            if *self {
                1
            } else {
                0
            },
        );
        assert(buf@ =~= old(buf)@ + self.row_layout());
    }

    fn decode(buf: &mut &[u8]) -> (r: Result<Self, DecodeError>) {
        match take(buf, 1) {
            Err(e) => Err(e),
            Ok(bytes) => if bytes[0] == 0 {
                Ok(false)
            } else if bytes[0] == 1 {
                Ok(true)
            } else {
                Err(DecodeError::InvalidBool(bytes[0]))
            },
        }
    }

    proof fn law_roundtrip(&self, rest: Seq<u8>) {
        assert((self.row_layout() + rest).take(1) =~= self.row_layout());
        assert((self.row_layout() + rest).skip(1) =~= rest);
    }
}

impl KeyCodec for bool {
    open spec fn key_layout(&self) -> Seq<u8> {
        bool_bytes(*self)
    }

    fn encode_key(&self, buf: &mut Vec<u8>) {
        self.encode(buf);
    }
}

impl ValueCodec for i16 {
    open spec fn row_layout(&self) -> Seq<u8> {
        int_row(*self as int, 2)
    }

    open spec fn row_parse(b: Seq<u8>) -> (Result<i16, DecodeError>, Seq<u8>) {
        match int_parse(b, 2) {
            (Ok(v), rest) => (Ok(v as i16), rest),
            (Err(e), rest) => (Err(e), rest),
        }
    }

    open spec fn storable(&self) -> bool {
        true
    }

    fn encoded_size(&self) -> (n: usize) {
        proof {
            lemma_le_len(to_unsigned(*self as int, 2), 2);
        }
        2
    }

    fn encode(&self, buf: &mut Vec<u8>) {
        proof {
            lemma_pow256_values();
        }
        push_int(buf, *self as i64, 2);
    }

    fn decode(buf: &mut &[u8]) -> (r: Result<Self, DecodeError>) {
        proof {
            lemma_pow256_values();
        }
        match take_int(buf, 2) {
            Ok(v) => Ok(v as i16),
            Err(e) => Err(e),
        }
    }

    proof fn law_roundtrip(&self, rest: Seq<u8>) {
        lemma_pow256_values();
        lemma_int_roundtrip(*self as int, 2, rest);
    }
}

impl KeyCodec for i16 {
    open spec fn key_layout(&self) -> Seq<u8> {
        int_key(*self as int, 2)
    }

    fn encode_key(&self, buf: &mut Vec<u8>) {
        proof {
            lemma_pow256_values();
        }
        push_int_key(buf, *self as i64, 2);
    }
}

impl ValueCodec for i32 {
    open spec fn row_layout(&self) -> Seq<u8> {
        int_row(*self as int, 4)
    }

    open spec fn row_parse(b: Seq<u8>) -> (Result<i32, DecodeError>, Seq<u8>) {
        match int_parse(b, 4) {
            (Ok(v), rest) => (Ok(v as i32), rest),
            (Err(e), rest) => (Err(e), rest),
        }
    }

    open spec fn storable(&self) -> bool {
        true
    }

    fn encoded_size(&self) -> (n: usize) {
        proof {
            lemma_le_len(to_unsigned(*self as int, 4), 4);
        }
        4
    }

    fn encode(&self, buf: &mut Vec<u8>) {
        proof {
            lemma_pow256_values();
        }
        push_int(buf, *self as i64, 4);
    }

    fn decode(buf: &mut &[u8]) -> (r: Result<Self, DecodeError>) {
        proof {
            lemma_pow256_values();
        }
        match take_int(buf, 4) {
            Ok(v) => Ok(v as i32),
            Err(e) => Err(e),
        }
    }

    proof fn law_roundtrip(&self, rest: Seq<u8>) {
        lemma_pow256_values();
        lemma_int_roundtrip(*self as int, 4, rest);
    }
}

impl KeyCodec for i32 {
    open spec fn key_layout(&self) -> Seq<u8> {
        int_key(*self as int, 4)
    }

    fn encode_key(&self, buf: &mut Vec<u8>) {
        proof {
            lemma_pow256_values();
        }
        push_int_key(buf, *self as i64, 4);
    }
}

impl ValueCodec for i64 {
    open spec fn row_layout(&self) -> Seq<u8> {
        int_row(*self as int, 8)
    }

    open spec fn row_parse(b: Seq<u8>) -> (Result<i64, DecodeError>, Seq<u8>) {
        match int_parse(b, 8) {
            (Ok(v), rest) => (Ok(v as i64), rest),
            (Err(e), rest) => (Err(e), rest),
        }
    }

    open spec fn storable(&self) -> bool {
        true
    }

    fn encoded_size(&self) -> (n: usize) {
        proof {
            lemma_le_len(to_unsigned(*self as int, 8), 8);
        }
        8
    }

    fn encode(&self, buf: &mut Vec<u8>) {
        proof {
            lemma_pow256_values();
        }
        push_int(buf, *self, 8);
    }

    fn decode(buf: &mut &[u8]) -> (r: Result<Self, DecodeError>) {
        take_int(buf, 8)
    }

    proof fn law_roundtrip(&self, rest: Seq<u8>) {
        lemma_pow256_values();
        lemma_int_roundtrip(*self as int, 8, rest);
    }
}

impl KeyCodec for i64 {
    open spec fn key_layout(&self) -> Seq<u8> {
        int_key(*self as int, 8)
    }

    fn encode_key(&self, buf: &mut Vec<u8>) {
        proof {
            lemma_pow256_values();
        }
        push_int_key(buf, *self, 8);
    }
}

impl View for Float32 {
    type V = Float32;

    open spec fn view(&self) -> Float32 {
        *self
    }
}

impl View for Float64 {
    type V = Float64;

    open spec fn view(&self) -> Float64 {
        *self
    }
}

impl View for Uuid {
    type V = Uuid;

    open spec fn view(&self) -> Uuid {
        *self
    }
}

impl ValueCodec for Float32 {
    open spec fn row_layout(&self) -> Seq<u8> {
        le_bytes(self.bits as nat, 4)
    }

    open spec fn row_parse(b: Seq<u8>) -> (Result<Float32, DecodeError>, Seq<u8>) {
        match split_bytes(b, 4) {
            Some((head, tail)) => (Ok(Float32 { bits: le_value(head) as u32 }), tail),
            None => (Err(DecodeError::UnexpectedEof), b),
        }
    }

    open spec fn storable(&self) -> bool {
        true
    }

    fn encoded_size(&self) -> (n: usize) {
        proof {
            lemma_le_len(self.bits as nat, 4);
        }
        4
    }

    fn encode(&self, buf: &mut Vec<u8>) {
        push_le(buf, self.bits as u128, 4);
    }

    fn decode(buf: &mut &[u8]) -> (r: Result<Self, DecodeError>) {
        match take(buf, 4) {
            Err(e) => Err(e),
            Ok(head) => {
                proof {
                    lemma_le_value_bound(head@);
                    lemma_pow256_values();
                }
                Ok(Float32 { bits: read_le(head) as u32 })
            },
        }
    }

    proof fn law_roundtrip(&self, rest: Seq<u8>) {
        lemma_pow256_values();
        lemma_le_len(self.bits as nat, 4);
        lemma_le_roundtrip(self.bits as nat, 4);
        assert((self.row_layout() + rest).take(4) =~= self.row_layout());
        assert((self.row_layout() + rest).skip(4) =~= rest);
    }
}

impl KeyCodec for Float32 {
    open spec fn key_layout(&self) -> Seq<u8> {
        float32_key(*self)
    }

    fn encode_key(&self, buf: &mut Vec<u8>) {
        push_be(buf, self.rank() as u128, 4);
    }
}

impl ValueCodec for Float64 {
    open spec fn row_layout(&self) -> Seq<u8> {
        le_bytes(self.bits as nat, 8)
    }

    open spec fn row_parse(b: Seq<u8>) -> (Result<Float64, DecodeError>, Seq<u8>) {
        match split_bytes(b, 8) {
            Some((head, tail)) => (Ok(Float64 { bits: le_value(head) as u64 }), tail),
            None => (Err(DecodeError::UnexpectedEof), b),
        }
    }

    open spec fn storable(&self) -> bool {
        true
    }

    fn encoded_size(&self) -> (n: usize) {
        proof {
            lemma_le_len(self.bits as nat, 8);
        }
        8
    }

    fn encode(&self, buf: &mut Vec<u8>) {
        push_le(buf, self.bits as u128, 8);
    }

    fn decode(buf: &mut &[u8]) -> (r: Result<Self, DecodeError>) {
        match take(buf, 8) {
            Err(e) => Err(e),
            Ok(head) => {
                proof {
                    lemma_le_value_bound(head@);
                    lemma_pow256_values();
                }
                Ok(Float64 { bits: read_le(head) as u64 })
            },
        }
    }

    proof fn law_roundtrip(&self, rest: Seq<u8>) {
        lemma_pow256_values();
        lemma_le_len(self.bits as nat, 8);
        lemma_le_roundtrip(self.bits as nat, 8);
        assert((self.row_layout() + rest).take(8) =~= self.row_layout());
        assert((self.row_layout() + rest).skip(8) =~= rest);
    }
}

impl KeyCodec for Float64 {
    open spec fn key_layout(&self) -> Seq<u8> {
        float64_key(*self)
    }

    fn encode_key(&self, buf: &mut Vec<u8>) {
        push_be(buf, self.rank() as u128, 8);
    }
}

impl ValueCodec for Uuid {
    open spec fn row_layout(&self) -> Seq<u8> {
        uuid_bytes(*self)
    }

    open spec fn row_parse(b: Seq<u8>) -> (Result<Uuid, DecodeError>, Seq<u8>) {
        uuid_parse(b)
    }

    open spec fn storable(&self) -> bool {
        true
    }

    fn encoded_size(&self) -> (n: usize) {
        proof {
            lemma_be_len(self.value as nat, 16);
        }
        16
    }

    fn encode(&self, buf: &mut Vec<u8>) {
        push_be(buf, self.value, 16);
    }

    fn decode(buf: &mut &[u8]) -> (r: Result<Self, DecodeError>) {
        match take(buf, 16) {
            Err(e) => Err(e),
            Ok(head) => {
                proof {
                    lemma_be_value_bound(head@);
                    lemma_pow256_values();
                }
                Ok(Uuid { value: read_be(head) })
            },
        }
    }

    proof fn law_roundtrip(&self, rest: Seq<u8>) {
        lemma_pow256_values();
        lemma_be_len(self.value as nat, 16);
        lemma_be_roundtrip(self.value as nat, 16);
        assert((self.row_layout() + rest).take(16) =~= self.row_layout());
        assert((self.row_layout() + rest).skip(16) =~= rest);
    }
}

impl KeyCodec for Uuid {
    open spec fn key_layout(&self) -> Seq<u8> {
        uuid_bytes(*self)
    }

    fn encode_key(&self, buf: &mut Vec<u8>) {
        push_be(buf, self.value, 16);
    }
}

} // verus!
