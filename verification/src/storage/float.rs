//! Floating-point numbers by their bit patterns: their total order, IEEE equality, the exact
//! step from 32 to 64 bits, and rounding to an integer.
//!
//! Of the bits of a 64-bit float the first is the sign, the next eleven are the exponent, and
//! the other fifty-two are the fraction; a 32-bit float has one, eight and twenty-three.

use vstd::arithmetic::power2::{
    lemma2_to64, lemma2_to64_rest, lemma_pow2_pos, lemma_pow2_strictly_increases, lemma_pow2_unfold,
    pow2,
};
use vstd::prelude::*;

use super::types::{Float32, Float64};

verus! {

/// The bits of a 64-bit infinity, without its sign; a NaN has more.
pub const INFINITY64: u64 = 0x7ff0_0000_0000_0000;

/// The bits of a 32-bit infinity, without its sign; a NaN has more.
pub const INFINITY32: u32 = 0x7f80_0000;

/// The bits of the 64-bit float 2^63.
pub const TWO_TO_63: u64 = 0x43e0_0000_0000_0000;

/// The bits of the 64-bit float -2^63.
pub const MINUS_TWO_TO_63: u64 = 0xc3e0_0000_0000_0000;

/// The bits of a 64-bit float without its sign.
pub open spec fn magnitude64(f: Float64) -> nat {
    if f.bits < 0x8000_0000_0000_0000 {
        f.bits as nat
    } else {
        (f.bits - 0x8000_0000_0000_0000) as nat
    }
}

/// The bits of a 32-bit float without its sign.
pub open spec fn magnitude32(f: Float32) -> nat {
    if f.bits < 0x8000_0000 {
        f.bits as nat
    } else {
        (f.bits - 0x8000_0000) as nat
    }
}

/// Whether a 64-bit float is a NaN, of either sign.
pub open spec fn is_nan64(f: Float64) -> bool {
    magnitude64(f) > INFINITY64
}

/// Whether a 32-bit float is a NaN, of either sign.
pub open spec fn is_nan32(f: Float32) -> bool {
    magnitude32(f) > INFINITY32
}

/// The place of a 32-bit float in the order of floats: negative before positive, minus zero
/// before zero, and every NaN in the last place.
pub open spec fn float32_rank(f: Float32) -> nat {
    if is_nan32(f) {
        0xffff_ffff
    } else if f.bits < 0x8000_0000 {
        (f.bits + 0x8000_0000) as nat
    } else {
        (0xffff_ffff - f.bits) as nat
    }
}

/// The place of a 64-bit float in the order of floats, as for 32 bits.
pub open spec fn float64_rank(f: Float64) -> nat {
    if is_nan64(f) {
        0xffff_ffff_ffff_ffff
    } else if f.bits < 0x8000_0000_0000_0000 {
        (f.bits + 0x8000_0000_0000_0000) as nat
    } else {
        (0xffff_ffff_ffff_ffff - f.bits) as nat
    }
}

/// IEEE equality: a NaN equals nothing, and the two zeros are equal.
pub open spec fn ieee_same64(a: Float64, b: Float64) -> bool {
    &&& !is_nan64(a)
    &&& !is_nan64(b)
    &&& a.bits == b.bits || (magnitude64(a) == 0 && magnitude64(b) == 0)
}

/// IEEE equality of 32-bit floats.
pub open spec fn ieee_same32(a: Float32, b: Float32) -> bool {
    &&& !is_nan32(a)
    &&& !is_nan32(b)
    &&& a.bits == b.bits || (magnitude32(a) == 0 && magnitude32(b) == 0)
}

impl PartialEq for Float32 {
    fn eq(&self, other: &Self) -> (r: bool) {
        self.ieee_eq(*other)
    }
}

impl vstd::std_specs::cmp::PartialEqSpecImpl for Float32 {
    open spec fn obeys_eq_spec() -> bool {
        true
    }

    open spec fn eq_spec(&self, other: &Self) -> bool {
        ieee_same32(*self, *other)
    }
}

impl PartialEq for Float64 {
    fn eq(&self, other: &Self) -> (r: bool) {
        self.ieee_eq(*other)
    }
}

impl vstd::std_specs::cmp::PartialEqSpecImpl for Float64 {
    open spec fn obeys_eq_spec() -> bool {
        true
    }

    open spec fn eq_spec(&self, other: &Self) -> bool {
        ieee_same64(*self, *other)
    }
}

impl Float32 {
    /// The bits without the sign.
    pub fn magnitude(self) -> (r: u32)
        ensures
            r == magnitude32(self),
    {
        if self.bits < 0x8000_0000 {
            self.bits
        } else {
            self.bits - 0x8000_0000
        }
    }

    /// The place in the order of floats.
    pub fn rank(self) -> (r: u32)
        ensures
            r == float32_rank(self),
    {
        if self.magnitude() > INFINITY32 {
            0xffff_ffff
        } else if self.bits < 0x8000_0000 {
            self.bits + 0x8000_0000
        } else {
            0xffff_ffff - self.bits
        }
    }

    /// IEEE equality.
    pub fn ieee_eq(self, other: Float32) -> (r: bool)
        ensures
            r == ieee_same32(self, other),
    {
        let m: u32 = self.magnitude();
        let n: u32 = other.magnitude();
        m <= INFINITY32 && n <= INFINITY32 && (self.bits == other.bits || (m == 0 && n == 0))
    }

    /// The same number in 64 bits.
    pub fn widen(self) -> (r: Float64)
        ensures
            r == widened(self),
    {
        let m: u32 = self.magnitude();
        proof {
            lemma_widened_bound(m as nat);
        }
        let wide: u64 = widen_magnitude(m);
        if self.bits < 0x8000_0000 {
            Float64 { bits: wide }
        } else {
            Float64 { bits: wide + 0x8000_0000_0000_0000 }
        }
    }
}

impl Float64 {
    /// The bits without the sign.
    pub fn magnitude(self) -> (r: u64)
        ensures
            r == magnitude64(self),
    {
        if self.bits < 0x8000_0000_0000_0000 {
            self.bits
        } else {
            self.bits - 0x8000_0000_0000_0000
        }
    }

    /// The place in the order of floats.
    pub fn rank(self) -> (r: u64)
        ensures
            r == float64_rank(self),
    {
        if self.magnitude() > INFINITY64 {
            0xffff_ffff_ffff_ffff
        } else if self.bits < 0x8000_0000_0000_0000 {
            self.bits + 0x8000_0000_0000_0000
        } else {
            0xffff_ffff_ffff_ffff - self.bits
        }
    }

    /// IEEE equality.
    pub fn ieee_eq(self, other: Float64) -> (r: bool)
        ensures
            r == ieee_same64(self, other),
    {
        let m: u64 = self.magnitude();
        let n: u64 = other.magnitude();
        m <= INFINITY64 && n <= INFINITY64 && (self.bits == other.bits || (m == 0 && n == 0))
    }
}

/// Every NaN, of either sign, ranks after every other float.
pub proof fn law_a_nan_ranks_last(f: Float64, g: Float64)
    requires
        is_nan64(f),
    ensures
        float64_rank(g) <= float64_rank(f),
        float64_rank(g) == float64_rank(f) <==> is_nan64(g),
{
}

/// Every 32-bit NaN, of either sign, ranks after every other float.
pub proof fn law_a_nan_ranks_last_in_32_bits(f: Float32, g: Float32)
    requires
        is_nan32(f),
    ensures
        float32_rank(g) <= float32_rank(f),
        float32_rank(g) == float32_rank(f) <==> is_nan32(g),
{
}

// --- from 32 bits to 64 ---

/// The bits, without a sign, of the 64-bit float with exponent field `e` and a fraction that is
/// `m`, less its leading one, at twenty-three bits. Where `m` has no leading one there, it is
/// doubled and the exponent lowered until it has.
pub open spec fn scaled(m: nat, e: int) -> int
    decreases 0x100_0000 - m,
{
    if m >= 0x80_0000 || m == 0 {
        e * 0x10_0000_0000_0000 + (m - 0x80_0000) * 0x2000_0000
    } else {
        scaled(2 * m, e - 1)
    }
}

/// The bits, without its sign, of a 32-bit float's number in 64 bits. The exponent field grows
/// by 896, the difference of the two biases, and the fraction by twenty-nine zero bits; the
/// numbers below the least normal 32-bit one become normal. A NaN stays one, and is quiet.
pub open spec fn widened_magnitude(m: nat) -> int {
    if m == 0 {
        0
    } else if m < 0x80_0000 {
        scaled(m, 897)
    } else if m < INFINITY32 {
        m as int * 0x2000_0000 + 896 * 0x10_0000_0000_0000
    } else if m == INFINITY32 {
        INFINITY64 as int
    } else if m < 0x7fc0_0000 {
        INFINITY64 + (m - INFINITY32 + 0x40_0000) * 0x2000_0000
    } else {
        INFINITY64 + (m - INFINITY32) * 0x2000_0000
    }
}

/// A 32-bit float in 64 bits.
pub open spec fn widened(f: Float32) -> Float64 {
    let m = widened_magnitude(magnitude32(f));
    if f.bits < 0x8000_0000 {
        Float64 { bits: m as u64 }
    } else {
        Float64 { bits: (m + 0x8000_0000_0000_0000) as u64 }
    }
}

/// A number that has no leading one at the exponent `e` lies below all that have.
proof fn lemma_scaled_bound(m: nat, e: int)
    requires
        0 < m < 0x100_0000,
    ensures
        m < 0x80_0000 ==> scaled(m, e) < e * 0x10_0000_0000_0000,
        m >= 0x80_0000 ==> e * 0x10_0000_0000_0000 <= scaled(m, e) < (e + 1)
            * 0x10_0000_0000_0000,
    decreases 0x100_0000 - m,
{
    if m < 0x80_0000 {
        lemma_scaled_bound(2 * m, e - 1);
    }
}

proof fn lemma_scaled_grows(m: nat, n: nat, e: int)
    requires
        0 < m < n < 0x100_0000,
    ensures
        scaled(m, e) < scaled(n, e),
    decreases 0x100_0000 - m,
{
    lemma_scaled_bound(m, e);
    lemma_scaled_bound(n, e);
    if n < 0x80_0000 {
        lemma_scaled_grows(2 * m, 2 * n, e - 1);
    }
}

/// The least number of all.
proof fn lemma_least_scaled()
    ensures
        scaled(1, 897) == 874 * 0x10_0000_0000_0000,
{
    reveal_with_fuel(scaled, 25);
}

/// Widening keeps a magnitude in its place: among the numbers up to infinity, or among the NaNs.
proof fn lemma_widened_bound(m: nat)
    requires
        m < 0x8000_0000,
    ensures
        0 <= widened_magnitude(m) < 0x8000_0000_0000_0000,
        m <= INFINITY32 <==> widened_magnitude(m) <= INFINITY64,
        m > 0 ==> widened_magnitude(m) > 0,
{
    if 0 < m < 0x80_0000 {
        lemma_least_scaled();
        lemma_scaled_bound(m, 897);
        if m > 1 {
            lemma_scaled_grows(1, m, 897);
        }
    }
}

/// A greater number has the greater magnitude in 64 bits.
proof fn lemma_widened_grows(m: nat, n: nat)
    requires
        m < n <= INFINITY32,
    ensures
        widened_magnitude(m) < widened_magnitude(n),
{
    lemma_widened_bound(n);
    if 0 < m < 0x80_0000 {
        lemma_scaled_bound(m, 897);
        if n < 0x80_0000 {
            lemma_scaled_grows(m, n, 897);
        }
    }
}

fn widen_magnitude(m: u32) -> (r: u64)
    requires
        m < 0x8000_0000,
    ensures
        r == widened_magnitude(m as nat),
        r < 0x8000_0000_0000_0000,
{
    proof {
        lemma_widened_bound(m as nat);
    }
    if m == 0 {
        0
    } else if m < 0x80_0000 {
        let mut n: u32 = m;
        let mut e: i64 = 897;
        while n < 0x80_0000
            invariant
                0 < n < 0x100_0000,
                897 - e < n,
                e <= 897,
                scaled(n as nat, e as int) == scaled(m as nat, 897),
            decreases 0x100_0000 - n,
        {
            n = n * 2;
            e = e - 1;
        }
        let wide: i128 = e as i128 * 0x10_0000_0000_0000 + (n as i128 - 0x80_0000) * 0x2000_0000;
        wide as u64
    } else if m < INFINITY32 {
        m as u64 * 0x2000_0000 + 896 * 0x10_0000_0000_0000
    } else if m == INFINITY32 {
        INFINITY64
    } else if m < 0x7fc0_0000 {
        INFINITY64 + (m - INFINITY32 + 0x40_0000) as u64 * 0x2000_0000
    } else {
        INFINITY64 + (m - INFINITY32) as u64 * 0x2000_0000
    }
}

/// 32-bit floats keep their order in 64 bits.
pub proof fn law_widening_keeps_the_order(f: Float32, g: Float32)
    ensures
        float64_rank(widened(f)) < float64_rank(widened(g)) <==> float32_rank(f) < float32_rank(g),
        float64_rank(widened(f)) == float64_rank(widened(g)) <==> float32_rank(f)
            == float32_rank(g),
        is_nan64(widened(f)) <==> is_nan32(f),
{
    let (m, n) = (magnitude32(f), magnitude32(g));
    lemma_widened_bound(m);
    lemma_widened_bound(n);
    if m < n <= INFINITY32 {
        lemma_widened_grows(m, n);
    } else if n < m <= INFINITY32 {
        lemma_widened_grows(n, m);
    }
}

// --- rounding to an integer ---

/// A finite float's significand: the fraction behind its leading one, or alone where the number
/// is below the normal ones.
pub open spec fn significand(m: nat) -> nat {
    if m < 0x10_0000_0000_0000 {
        m
    } else {
        m % 0x10_0000_0000_0000 + 0x10_0000_0000_0000
    }
}

/// The power of two that a finite float's significand is to be scaled by.
pub open spec fn scale_of(m: nat) -> int {
    let e = m / 0x10_0000_0000_0000;
    (if e == 0 {
        1
    } else {
        e as int
    }) - 1075
}

/// The whole number nearest to a magnitude, halves away from zero.
pub open spec fn nearest_whole(m: nat) -> nat {
    let x = scale_of(m);
    if x >= 0 {
        significand(m) * pow2(x as nat)
    } else {
        (2 * significand(m) + pow2((-x) as nat)) / (2 * pow2((-x) as nat))
    }
}

/// The whole number nearest to a float, halves away from zero; a NaN and the infinities have
/// none.
pub open spec fn whole_of(f: Float64) -> Option<int> {
    let m = magnitude64(f);
    if m >= INFINITY64 {
        None
    } else if f.bits < 0x8000_0000_0000_0000 {
        Some(nearest_whole(m) as int)
    } else {
        Some(-(nearest_whole(m) as int))
    }
}

/// Whether a float is below 2^63 in magnitude, or is -2^63: those round to a 64-bit integer, and
/// no others do.
pub open spec fn within_i64(f: Float64) -> bool {
    magnitude64(f) < TWO_TO_63 || f.bits == MINUS_TWO_TO_63
}

/// The 64-bit integer nearest to a float, halves away from zero, where there is one.
pub open spec fn rounded_i64(f: Float64) -> Option<i64> {
    if within_i64(f) {
        Some(whole_of(f)->0 as i64)
    } else {
        None
    }
}

fn power_of_two(n: u64) -> (r: u128)
    requires
        n <= 60,
    ensures
        r == pow2(n as nat),
        0 < r <= 0x1000_0000_0000_0000,
{
    proof {
        lemma2_to64();
    }
    let mut r: u128 = 1;
    let mut i: u64 = 0;
    while i < n
        invariant
            i <= n <= 60,
            r == pow2(i as nat),
            0 < r,
        decreases n - i,
    {
        proof {
            lemma_pow2_unfold((i + 1) as nat);
            lemma2_to64_rest();
            if i + 1 < 60 {
                lemma_pow2_strictly_increases((i + 1) as nat, 60);
            }
        }
        r = r * 2;
        i = i + 1;
    }
    proof {
        lemma2_to64_rest();
        if n < 60 {
            lemma_pow2_strictly_increases(n as nat, 60);
        }
    }
    r
}

impl Float64 {
    /// The 64-bit integer nearest to the float, halves away from zero, where there is one.
    pub fn to_nearest_i64(self) -> (r: Option<i64>)
        ensures
            r == rounded_i64(self),
    {
        proof {
            law_floats_below_two_to_63_round_to_integers(self);
        }
        let m: u64 = self.magnitude();
        if m >= INFINITY64 {
            return None;
        }
        let e: u64 = m / 0x10_0000_0000_0000;
        let sig: u64 = if e == 0 {
            m
        } else {
            m % 0x10_0000_0000_0000 + 0x10_0000_0000_0000
        };
        let field: u64 = if e == 0 {
            1
        } else {
            e
        };
        let ghost x = scale_of(m as nat);
        assert(sig == significand(m as nat) && x == field - 1075);
        let n: u128 = if field >= 1087 {
            proof {
                lemma2_to64();
                if x > 12 {
                    lemma_pow2_strictly_increases(12, x as nat);
                }
                assert(sig * pow2(x as nat) >= 0x10_0000_0000_0000 * 0x1000) by (nonlinear_arith)
                    requires
                        sig >= 0x10_0000_0000_0000,
                        pow2(x as nat) >= 0x1000,
                ;
            }
            return None;
        } else if field >= 1075 {
            let p: u128 = power_of_two(field - 1075);
            proof {
                lemma2_to64();
                if x < 12 {
                    lemma_pow2_strictly_increases(x as nat, 12);
                }
                assert(sig as u128 * p <= 0x20_0000_0000_0000 * 0x1000) by (nonlinear_arith)
                    requires
                        sig <= 0x20_0000_0000_0000,
                        p <= 0x1000,
                ;
            }
            sig as u128 * p
        } else if field < 1021 {
            proof {
                let q = pow2((-x) as nat) as int;
                lemma2_to64_rest();
                if -x > 54 {
                    lemma_pow2_strictly_increases(54, (-x) as nat);
                }
                assert((2 * sig + q) / (2 * q) == 0) by (nonlinear_arith)
                    requires
                        2 * sig < q,
                        0 < q,
                ;
            }
            0
        } else {
            let q: u128 = power_of_two(1075 - field);
            (2 * sig as u128 + q) / (2 * q)
        };
        assert(n == nearest_whole(m as nat));
        if self.bits < 0x8000_0000_0000_0000 {
            if n <= 0x7fff_ffff_ffff_ffff {
                Some(n as i64)
            } else {
                None
            }
        } else if n <= 0x8000_0000_0000_0000 {
            Some((0 - n as i128) as i64)
        } else {
            None
        }
    }
}

/// The floats that round to a 64-bit integer are those below 2^63 in magnitude, and -2^63.
pub proof fn law_floats_below_two_to_63_round_to_integers(f: Float64)
    ensures
        within_i64(f) <==> whole_of(f) is Some && i64::MIN <= whole_of(f)->0 <= i64::MAX,
{
    let m = magnitude64(f);
    if m < INFINITY64 {
        let sig = significand(m) as int;
        let x = scale_of(m);
        lemma2_to64();
        lemma2_to64_rest();
        if x >= 11 {
            let p = pow2(x as nat) as int;
            if x > 11 {
                lemma_pow2_strictly_increases(11, x as nat);
            }
            assert(sig * p >= 0x10_0000_0000_0000 * 0x800) by (nonlinear_arith)
                requires
                    sig >= 0x10_0000_0000_0000,
                    p >= 0x800,
            ;
            if x == 11 {
                assert(sig * p == sig * 0x800) by (nonlinear_arith)
                    requires
                        p == 0x800,
                ;
            } else {
                assert(sig * p > 0x10_0000_0000_0000 * 0x800) by (nonlinear_arith)
                    requires
                        sig >= 0x10_0000_0000_0000,
                        p > 0x800,
                ;
            }
        } else if x >= 0 {
            let p = pow2(x as nat) as int;
            if x < 10 {
                lemma_pow2_strictly_increases(x as nat, 10);
            }
            assert(sig * p < 0x20_0000_0000_0000 * 0x400) by (nonlinear_arith)
                requires
                    0 <= sig < 0x20_0000_0000_0000,
                    0 < p <= 0x400,
            ;
        } else {
            let q = pow2((-x) as nat) as int;
            lemma_pow2_pos((-x) as nat);
            assert((2 * sig + q) / (2 * q) <= sig + 1) by (nonlinear_arith)
                requires
                    q >= 1,
                    sig >= 0,
            ;
        }
    }
}

} // verus!
