//! Codec for `Interval`.
//!
//! In a row the three components stand as they are, so that `1 mon` reads back distinct from
//! `30 days`. In a key stands the normalized count of microseconds, so that the two share it.

use vstd::prelude::*;

use super::scalar::{int_parse, int_row, lemma_int_roundtrip, push_int, take_int};
use super::{DecodeError, KeyCodec, ValueCodec};
use crate::storage::bytes::{be_bytes, lemma_le_len, lemma_pow256_values, push_be, to_unsigned};
use crate::storage::types::Interval;

verus! {

/// An interval in a row: months, days, microseconds.
pub open spec fn interval_row(i: Interval) -> Seq<u8> {
    int_row(i.months as int, 4) + int_row(i.days as int, 4) + int_row(i.micros as int, 8)
}

/// Reading an interval.
pub open spec fn interval_row_parse(b: Seq<u8>) -> (Result<Interval, DecodeError>, Seq<u8>) {
    match int_parse(b, 4) {
        (Err(e), rest) => (Err(e), rest),
        (Ok(months), rest) => match int_parse(rest, 4) {
            (Err(e), rest) => (Err(e), rest),
            (Ok(days), rest) => match int_parse(rest, 8) {
                (Err(e), rest) => (Err(e), rest),
                (Ok(micros), rest) => (
                    Ok(
                        Interval {
                            months: months as i32,
                            days: days as i32,
                            micros: micros as i64,
                        },
                    ),
                    rest,
                ),
            },
        },
    }
}

/// An interval's key: its microseconds with the sign bit of a 128-bit number flipped.
pub open spec fn interval_key(i: Interval) -> Seq<u8> {
    be_bytes((i.total_micros() + 0x8000_0000_0000_0000_0000_0000_0000_0000) as nat, 16)
}

impl View for Interval {
    type V = Interval;

    open spec fn view(&self) -> Interval {
        *self
    }
}

impl ValueCodec for Interval {
    open spec fn row_layout(&self) -> Seq<u8> {
        interval_row(*self)
    }

    open spec fn row_parse(b: Seq<u8>) -> (Result<Interval, DecodeError>, Seq<u8>) {
        interval_row_parse(b)
    }

    open spec fn storable(&self) -> bool {
        true
    }

    fn encoded_size(&self) -> (n: usize) {
        proof {
            lemma_le_len(to_unsigned(self.months as int, 4), 4);
            lemma_le_len(to_unsigned(self.days as int, 4), 4);
            lemma_le_len(to_unsigned(self.micros as int, 8), 8);
        }
        16
    }

    fn encode(&self, buf: &mut Vec<u8>) {
        proof {
            lemma_pow256_values();
        }
        push_int(buf, self.months as i64, 4);
        push_int(buf, self.days as i64, 4);
        push_int(buf, self.micros, 8);
        assert(buf@ =~= old(buf)@ + interval_row(*self));
    }

    fn decode(buf: &mut &[u8]) -> (r: Result<Self, DecodeError>) {
        proof {
            lemma_pow256_values();
        }
        let months = match take_int(buf, 4) {
            Ok(v) => v as i32,
            Err(e) => return Err(e),
        };
        let days = match take_int(buf, 4) {
            Ok(v) => v as i32,
            Err(e) => return Err(e),
        };
        match take_int(buf, 8) {
            Ok(micros) => Ok(Interval { months, days, micros }),
            Err(e) => Err(e),
        }
    }

    proof fn law_roundtrip(&self, rest: Seq<u8>) {
        lemma_pow256_values();
        let m = int_row(self.months as int, 4);
        let d = int_row(self.days as int, 4);
        let u = int_row(self.micros as int, 8);
        lemma_int_roundtrip(self.months as int, 4, d + u + rest);
        lemma_int_roundtrip(self.days as int, 4, u + rest);
        lemma_int_roundtrip(self.micros as int, 8, rest);
        assert(m + d + u + rest =~= m + (d + u + rest));
        assert(d + u + rest =~= d + (u + rest));
    }
}

impl KeyCodec for Interval {
    open spec fn key_layout(&self) -> Seq<u8> {
        interval_key(*self)
    }

    fn encode_key(&self, buf: &mut Vec<u8>) {
        let micros: i128 = self.to_micros();
        let ordered: u128 = if micros >= 0 {
            micros as u128 + 0x8000_0000_0000_0000_0000_0000_0000_0000
        } else {
            0x8000_0000_0000_0000_0000_0000_0000_0000 - ((-micros) as u128)
        };
        push_be(buf, ordered, 16);
    }
}

} // verus!
