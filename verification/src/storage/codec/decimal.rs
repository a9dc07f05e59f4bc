//! Codec for `Numeric`.
//!
//! In a row stands the compact 16-byte form. That form does not sort, so the key is another:
//! a sign bucket, then the exponent, then the digits in base 100. The exponent leads, so that
//! magnitude dominates; for a negative number everything after the bucket is complemented, so
//! that larger magnitudes sort lower.

use vstd::prelude::*;

use super::{split_bytes, take, DecodeError, KeyCodec, ValueCodec};
use crate::storage::bytes::{
    complement, le_bytes, lemma_le_len, lemma_le_roundtrip, lemma_pow256_values, push_all,
};
use crate::storage::decimal::{decimal_of_bytes, pow10, Decimal, DecimalParts};
use crate::storage::text::{digits, digits_of};

verus! {

/// First byte of a negative number's key.
pub const DEC_NEG: u8 = 3;

/// The whole key of zero.
pub const DEC_ZERO: u8 = 4;

/// First byte of a positive number's key.
pub const DEC_POS: u8 = 5;

/// A decimal in a row.
pub open spec fn decimal_row(p: DecimalParts) -> Seq<u8> {
    p.row_bytes()
}

/// Reading a decimal.
pub open spec fn decimal_row_parse(b: Seq<u8>) -> (Result<DecimalParts, DecodeError>, Seq<u8>) {
    match split_bytes(b, 16) {
        Some((head, tail)) => (Ok(decimal_of_bytes(head)), tail),
        None => (Err(DecodeError::UnexpectedEof), b),
    }
}

/// The `i`-th digit of a digit string, zero past its end.
pub open spec fn digit_at(ds: Seq<nat>, i: int) -> nat {
    if 0 <= i < ds.len() {
        ds[i]
    } else {
        0
    }
}

/// The `j`-th pair of digits, as a number below 100.
pub open spec fn cent_at(ds: Seq<nat>, j: int) -> nat {
    10 * digit_at(ds, 2 * j) + digit_at(ds, 2 * j + 1)
}

/// The digit pairs of a digit string, each plus one, so that 0 is free to end the key.
pub open spec fn cents(ds: Seq<nat>) -> Seq<u8> {
    Seq::new(((ds.len() + 1) / 2) as nat, |j: int| (cent_at(ds, j) + 1) as u8)
}

/// Where the point stands: the number is `0.d1d2d3… × 10^exponent`.
pub open spec fn exponent(p: DecimalParts) -> int {
    digits(p.coefficient).len() - p.scale
}

/// The key of a normalized non-zero number's magnitude.
pub open spec fn magnitude_key(p: DecimalParts) -> Seq<u8> {
    seq![(exponent(p) + 128) as u8] + cents(digits(p.coefficient)) + seq![0u8]
}

/// The key of a decimal.
pub open spec fn decimal_key(p: DecimalParts) -> Seq<u8> {
    let n = p.normalized();
    if n.coefficient == 0 {
        seq![DEC_ZERO]
    } else if n.negative {
        seq![DEC_NEG] + complement(magnitude_key(n))
    } else {
        seq![DEC_POS] + magnitude_key(n)
    }
}

/// Every decimal digit is below ten, and there are no more of them than places.
pub proof fn lemma_digits_bound(n: nat, k: nat)
    requires
        n < pow10(k),
        k > 0,
    ensures
        1 <= digits(n).len() <= k,
        forall|i: int| 0 <= i < digits(n).len() ==> #[trigger] digits(n)[i] < 10,
    decreases k,
{
    if n >= 10 {
        assert(k > 1) by {
            assert(pow10(1) == 10 * pow10(0));
        }
        lemma_digits_bound(n / 10, (k - 1) as nat);
    }
}

/// A coefficient of 96 bits has at most 29 digits.
pub proof fn lemma_coefficient_digits(n: nat)
    requires
        n < 0x1_0000_0000_0000_0000_0000_0000,
    ensures
        1 <= digits(n).len() <= 29,
        forall|i: int| 0 <= i < digits(n).len() ==> #[trigger] digits(n)[i] < 10,
{
    reveal_with_fuel(pow10, 30);
    assert(pow10(29) == 100_000_000_000_000_000_000_000_000_000);
    lemma_digits_bound(n, 29);
}

impl ValueCodec for Decimal {
    open spec fn row_layout(&self) -> Seq<u8> {
        decimal_row(self@)
    }

    open spec fn row_parse(b: Seq<u8>) -> (Result<DecimalParts, DecodeError>, Seq<u8>) {
        decimal_row_parse(b)
    }

    /// The bounds that every decimal keeps.
    open spec fn storable(&self) -> bool {
        self@.in_range()
    }

    fn encoded_size(&self) -> (n: usize) {
        proof {
            lemma_le_len(self@.flag_word(), 4);
            lemma_le_len(self@.coefficient, 12);
        }
        16
    }

    fn encode(&self, buf: &mut Vec<u8>) {
        let bytes = self.serialize();
        push_all(buf, bytes.as_slice());
    }

    fn decode(buf: &mut &[u8]) -> (r: Result<Self, DecodeError>) {
        match take(buf, 16) {
            Err(e) => Err(e),
            Ok(head) => Ok(Decimal::deserialize(head)),
        }
    }

    proof fn law_roundtrip(&self, rest: Seq<u8>) {
        lemma_decimal_roundtrip(self@, rest);
    }
}

/// Reading back a decimal in range gives its parts, and what followed.
pub proof fn lemma_decimal_roundtrip(p: DecimalParts, rest: Seq<u8>)
    requires
        p.in_range(),
    ensures
        decimal_row_parse(decimal_row(p) + rest) == (Ok::<DecimalParts, DecodeError>(p), rest),
{
    lemma_pow256_values();
    let flags = le_bytes(p.flag_word(), 4);
    let body = le_bytes(p.coefficient, 12);
    lemma_le_len(p.flag_word(), 4);
    lemma_le_len(p.coefficient, 12);
    lemma_le_roundtrip(p.coefficient, 12);
    let row = decimal_row(p);
    assert((row + rest).take(16) =~= row);
    assert((row + rest).skip(16) =~= rest);
    assert(row.subrange(4, 16) =~= body);
    let w = p.flag_word();
    assert(w / 256 / 256 % 256 == p.scale) by (nonlinear_arith)
        requires
            w == p.scale * 0x1_0000 + if p.negative {
                0x8000_0000nat
            } else {
                0nat
            },
            p.scale <= 28,
    ;
    assert(w / 256 / 256 / 256 % 256 == if p.negative {
        128nat
    } else {
        0nat
    }) by (nonlinear_arith)
        requires
            w == p.scale * 0x1_0000 + if p.negative {
                0x8000_0000nat
            } else {
                0nat
            },
            p.scale <= 28,
    ;
    reveal_with_fuel(le_bytes, 5);
    assert(row[2] == flags[2] && row[3] == flags[3]);
    assert(flags[2] == (w / 256 / 256 % 256) as u8);
    assert(flags[3] == (w / 256 / 256 / 256 % 256) as u8);
}

impl KeyCodec for Decimal {
    open spec fn key_layout(&self) -> Seq<u8> {
        decimal_key(self@)
    }

    fn encode_key(&self, buf: &mut Vec<u8>) {
        let d = self.normalize();
        let (negative, coefficient, scale) = d.parts();
        if coefficient == 0 {
            buf.push(DEC_ZERO);
            assert(buf@ =~= old(buf)@ + decimal_key(self@));
            return;
        }
        let ds = digits_of(coefficient);
        let ghost ideal = digits(coefficient as nat);
        proof {
            lemma_coefficient_digits(coefficient as nat);
        }
        let mut payload: Vec<u8> = Vec::new();
        let exponent: i32 = ds.len() as i32 - scale as i32;
        payload.push((exponent + 128) as u8);
        let ghost lead = payload@;
        let n: usize = (ds.len() + 1) / 2;
        let mut j: usize = 0;
        assert(lead + cents(ideal).take(0) =~= lead);
        while j < n
            invariant
                j <= n,
                n == (ds@.len() + 1) / 2,
                ds@.len() == ideal.len() <= 29,
                forall|i: int| 0 <= i < ds@.len() ==> #[trigger] ds@[i] == ideal[i],
                forall|i: int| 0 <= i < ds@.len() ==> #[trigger] ds@[i] < 10,
                payload@ == lead + cents(ideal).take(j as int),
            decreases n - j,
        {
            let high: u8 = ds[2 * j];
            let low: u8 = if 2 * j + 1 < ds.len() {
                ds[2 * j + 1]
            } else {
                0
            };
            assert(cent_at(ideal, j as int) == 10 * high + low);
            payload.push(high * 10 + low + 1);
            assert(payload@ =~= lead + cents(ideal).take(j + 1));
            j = j + 1;
        }
        payload.push(0);
        assert(cents(ideal).take(n as int) =~= cents(ideal));
        assert(payload@ =~= magnitude_key(d@));
        if negative {
            buf.push(DEC_NEG);
            let mut i: usize = 0;
            let ghost bucket = buf@;
            assert(bucket + complement(payload@).take(0) =~= bucket);
            while i < payload.len()
                invariant
                    i <= payload@.len(),
                    buf@ == bucket + complement(payload@).take(i as int),
                decreases payload@.len() - i,
            {
                buf.push(255 - payload[i]);
                assert(buf@ =~= bucket + complement(payload@).take(i + 1));
                i = i + 1;
            }
            assert(complement(payload@).take(payload@.len() as int) =~= complement(payload@));
            assert(buf@ =~= old(buf)@ + decimal_key(self@));
        } else {
            buf.push(DEC_POS);
            push_all(buf, payload.as_slice());
            assert(buf@ =~= old(buf)@ + decimal_key(self@));
        }
    }
}

} // verus!
