//! Codecs for the variable-length types: text, bytes and JSON.
//!
//! In a row each carries a `u32` length prefix. In a key it is the raw bytes, so that the
//! byte-wise sort is the content's sort.

use vstd::prelude::*;
use vstd::utf8::{decode_utf8, encode_utf8, valid_utf8};

use super::{split_bytes, take, DecodeError, KeyCodec, ValueCodec};
use crate::storage::bytes::{
    copy_bytes, le_bytes, le_value, lemma_le_len, lemma_le_roundtrip, lemma_le_value_bound,
    lemma_pow256_values, push_all, push_le, read_le,
};
use crate::storage::json::{json_compact, Json};
use crate::storage::text::string_from_utf8;

verus! {

/// A byte string in a row: its length (its low 32 bits), then the bytes.
pub open spec fn bytes_row(b: Seq<u8>) -> Seq<u8> {
    le_bytes(b.len(), 4) + b
}

/// Reading a length-prefixed byte string.
pub open spec fn bytes_parse(b: Seq<u8>) -> (Result<Seq<u8>, DecodeError>, Seq<u8>) {
    match split_bytes(b, 4) {
        Some((head, tail)) => match split_bytes(tail, le_value(head)) {
            Some((body, rest)) => (Ok(body), rest),
            None => (Err(DecodeError::UnexpectedEof), tail),
        },
        None => (Err(DecodeError::UnexpectedEof), b),
    }
}

/// Reading a text: a byte string that is valid UTF-8.
pub open spec fn text_parse(b: Seq<u8>) -> (Result<Seq<char>, DecodeError>, Seq<u8>) {
    match bytes_parse(b) {
        (Ok(body), rest) => if valid_utf8(body) {
            (Ok(decode_utf8(body)), rest)
        } else {
            (Err(DecodeError::InvalidUtf8), rest)
        },
        (Err(e), rest) => (Err(e), rest),
    }
}

/// Reading a JSON document: a byte string that parses; what is kept is its compact text.
pub open spec fn json_parse(b: Seq<u8>) -> (Result<Seq<char>, DecodeError>, Seq<u8>) {
    match bytes_parse(b) {
        (Ok(body), rest) => match json_compact(body) {
            Some(text) => (Ok(text), rest),
            None => (Err(DecodeError::InvalidJson), rest),
        },
        (Err(e), rest) => (Err(e), rest),
    }
}

/// Read a length-prefixed byte string.
pub fn take_bytes<'a>(buf: &mut &'a [u8]) -> (r: Result<&'a [u8], DecodeError>)
    ensures
        final(buf)@ == bytes_parse(old(buf)@).1,
        r is Ok <==> bytes_parse(old(buf)@).0 is Ok,
        r is Ok ==> bytes_parse(old(buf)@).0->Ok_0 == r->Ok_0@,
        r is Err ==> bytes_parse(old(buf)@).0->Err_0 == r->Err_0,
{
    match take(buf, 4) {
        Err(e) => Err(e),
        Ok(head) => {
            proof {
                lemma_le_value_bound(head@);
                lemma_pow256_values();
            }
            let n: u128 = read_le(head);
            if n > buf.len() as u128 {
                return Err(DecodeError::UnexpectedEof);
            }
            take(buf, n as usize)
        },
    }
}

/// Append a length-prefixed byte string.
pub fn push_bytes(buf: &mut Vec<u8>, b: &[u8])
    ensures
        final(buf)@ == old(buf)@ + bytes_row(b@),
{
    push_le(buf, b.len() as u128, 4);
    push_all(buf, b);
    assert(buf@ =~= old(buf)@ + bytes_row(b@));
}

/// Reading back a byte string shorter than four gigabytes gives it, and what followed.
pub proof fn lemma_bytes_roundtrip(b: Seq<u8>, rest: Seq<u8>)
    requires
        b.len() < 0x1_0000_0000,
    ensures
        bytes_parse(bytes_row(b) + rest) == (Ok::<Seq<u8>, DecodeError>(b), rest),
{
    lemma_pow256_values();
    lemma_le_len(b.len(), 4);
    lemma_le_roundtrip(b.len(), 4);
    let all = bytes_row(b) + rest;
    assert(all.take(4) =~= le_bytes(b.len(), 4));
    let tail = all.skip(4);
    assert(tail =~= b + rest);
    assert(tail.take(b.len() as int) =~= b);
    assert(tail.skip(b.len() as int) =~= rest);
}

impl ValueCodec for String {
    open spec fn row_layout(&self) -> Seq<u8> {
        bytes_row(encode_utf8(self@))
    }

    open spec fn row_parse(b: Seq<u8>) -> (Result<Seq<char>, DecodeError>, Seq<u8>) {
        text_parse(b)
    }

    open spec fn storable(&self) -> bool {
        encode_utf8(self@).len() < 0x1_0000_0000
    }

    fn encoded_size(&self) -> (n: usize) {
        proof {
            lemma_le_len(encode_utf8(self@).len(), 4);
        }
        4 + self.as_str().as_bytes().len()
    }

    fn encode(&self, buf: &mut Vec<u8>) {
        push_bytes(buf, self.as_str().as_bytes());
    }

    fn decode(buf: &mut &[u8]) -> (r: Result<Self, DecodeError>) {
        match take_bytes(buf) {
            Err(e) => Err(e),
            Ok(body) => match string_from_utf8(copy_bytes(body)) {
                Some(s) => {
                    proof {
                        vstd::utf8::encode_utf8_decode_utf8(s@);
                    }
                    Ok(s)
                },
                None => Err(DecodeError::InvalidUtf8),
            },
        }
    }

    proof fn law_roundtrip(&self, rest: Seq<u8>) {
        lemma_bytes_roundtrip(encode_utf8(self@), rest);
        vstd::utf8::encode_utf8_decode_utf8(self@);
        vstd::utf8::encode_utf8_valid_utf8(self@);
    }
}

impl KeyCodec for String {
    open spec fn key_layout(&self) -> Seq<u8> {
        encode_utf8(self@)
    }

    fn encode_key(&self, buf: &mut Vec<u8>) {
        push_all(buf, self.as_str().as_bytes());
    }
}

impl ValueCodec for Vec<u8> {
    open spec fn row_layout(&self) -> Seq<u8> {
        bytes_row(self@)
    }

    open spec fn row_parse(b: Seq<u8>) -> (Result<Seq<u8>, DecodeError>, Seq<u8>) {
        bytes_parse(b)
    }

    open spec fn storable(&self) -> bool {
        self@.len() < 0x1_0000_0000
    }

    fn encoded_size(&self) -> (n: usize) {
        proof {
            lemma_le_len(self@.len(), 4);
        }
        4 + self.len()
    }

    fn encode(&self, buf: &mut Vec<u8>) {
        push_bytes(buf, self.as_slice());
    }

    fn decode(buf: &mut &[u8]) -> (r: Result<Self, DecodeError>) {
        match take_bytes(buf) {
            Err(e) => Err(e),
            Ok(body) => Ok(copy_bytes(body)),
        }
    }

    proof fn law_roundtrip(&self, rest: Seq<u8>) {
        lemma_bytes_roundtrip(self@, rest);
    }
}

impl KeyCodec for Vec<u8> {
    open spec fn key_layout(&self) -> Seq<u8> {
        self@
    }

    fn encode_key(&self, buf: &mut Vec<u8>) {
        push_all(buf, self.as_slice());
    }
}

impl ValueCodec for Json {
    open spec fn row_layout(&self) -> Seq<u8> {
        bytes_row(encode_utf8(self@))
    }

    open spec fn row_parse(b: Seq<u8>) -> (Result<Seq<char>, DecodeError>, Seq<u8>) {
        json_parse(b)
    }

    /// A document comes back where its compact text parses to itself; a float in it may be
    /// read as a neighbouring float.
    open spec fn storable(&self) -> bool {
        encode_utf8(self@).len() < 0x1_0000_0000 && json_compact(encode_utf8(self@)) == Some(self@)
    }

    fn encoded_size(&self) -> (n: usize) {
        proof {
            lemma_le_len(encode_utf8(self@).len(), 4);
        }
        4 + self.as_str().as_bytes().len()
    }

    fn encode(&self, buf: &mut Vec<u8>) {
        push_bytes(buf, self.as_str().as_bytes());
    }

    fn decode(buf: &mut &[u8]) -> (r: Result<Self, DecodeError>) {
        match take_bytes(buf) {
            Err(e) => Err(e),
            Ok(body) => match Json::from_slice(body) {
                Some(j) => Ok(j),
                None => Err(DecodeError::InvalidJson),
            },
        }
    }

    proof fn law_roundtrip(&self, rest: Seq<u8>) {
        lemma_bytes_roundtrip(encode_utf8(self@), rest);
    }
}

impl KeyCodec for Json {
    open spec fn key_layout(&self) -> Seq<u8> {
        encode_utf8(self@)
    }

    fn encode_key(&self, buf: &mut Vec<u8>) {
        push_all(buf, self.as_str().as_bytes());
    }
}

} // verus!
