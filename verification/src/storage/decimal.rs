//! Exact decimals: a sign, a 96-bit coefficient and a scale, with the arithmetic that
//! `rust_decimal` does on them.

use vstd::prelude::*;

use crate::storage::bytes::{le_bytes, le_value, lemma_le_value_bound, lemma_pow256_values};

verus! {

/// The number a decimal stands for is `coefficient / 10^scale`, negated where `negative`.
/// A zero keeps its sign.
pub struct DecimalParts {
    pub negative: bool,
    pub coefficient: nat,
    pub scale: nat,
}

/// `10^n`.
pub open spec fn pow10(n: nat) -> nat
    decreases n,
{
    if n == 0 {
        1
    } else {
        10 * pow10((n - 1) as nat)
    }
}

impl DecimalParts {
    /// The bounds that every decimal keeps: a coefficient of 96 bits, at most 28 places.
    pub open spec fn in_range(self) -> bool {
        self.coefficient < 0x1_0000_0000_0000_0000_0000_0000 && self.scale <= 28
    }

    /// The coefficient with its sign.
    pub open spec fn signed(self) -> int {
        if self.negative {
            -(self.coefficient as int)
        } else {
            self.coefficient as int
        }
    }

    /// Numeric order: `self < other` as numbers.
    pub open spec fn less(self, other: DecimalParts) -> bool {
        self.signed() * pow10(other.scale) < other.signed() * pow10(self.scale)
    }

    /// Numeric equality: `self` and `other` stand for one number.
    pub open spec fn same(self, other: DecimalParts) -> bool {
        self.signed() * pow10(other.scale) == other.signed() * pow10(self.scale)
    }

    /// The whole decimal `n`.
    pub open spec fn whole(n: int) -> DecimalParts {
        DecimalParts {
            negative: n < 0,
            coefficient: if n < 0 {
                (-n) as nat
            } else {
                n as nat
            },
            scale: 0,
        }
    }

    /// The opposite sign; a zero's too.
    pub open spec fn negated(self) -> DecimalParts {
        DecimalParts { negative: !self.negative, ..self }
    }

    /// The sign taken off.
    pub open spec fn magnitude(self) -> DecimalParts {
        DecimalParts { negative: false, ..self }
    }

    /// Trailing zeros after the point taken off; a zero becomes plain zero.
    pub open spec fn normalized(self) -> DecimalParts
        decreases self.scale,
    {
        if self.coefficient == 0 {
            DecimalParts { negative: false, coefficient: 0, scale: 0 }
        } else if self.scale > 0 && self.coefficient % 10 == 0 {
            DecimalParts {
                negative: self.negative,
                coefficient: self.coefficient / 10,
                scale: (self.scale - 1) as nat,
            }.normalized()
        } else {
            self
        }
    }

    /// The coefficient's whole part, cut off.
    pub open spec fn whole_part(self) -> nat {
        self.coefficient / pow10(self.scale)
    }

    /// What is cut off with the places, in units of the last place.
    pub open spec fn places(self) -> nat {
        self.coefficient % pow10(self.scale)
    }

    /// The largest whole number not above `self`.
    pub open spec fn floored(self) -> DecimalParts {
        DecimalParts {
            negative: self.negative,
            coefficient: if self.negative && self.places() != 0 {
                self.whole_part() + 1
            } else {
                self.whole_part()
            },
            scale: 0,
        }
    }

    /// The smallest whole number not below `self`.
    pub open spec fn ceiled(self) -> DecimalParts {
        DecimalParts {
            negative: self.negative,
            coefficient: if !self.negative && self.places() != 0 {
                self.whole_part() + 1
            } else {
                self.whole_part()
            },
            scale: 0,
        }
    }

    /// The nearest whole number, halves to the even neighbour. A number that rounds to
    /// zero loses its sign.
    pub open spec fn rounded(self) -> DecimalParts {
        let up = 2 * self.places() > pow10(self.scale) || (2 * self.places() == pow10(self.scale)
            && self.whole_part() % 2 == 1);
        let coefficient = if up {
            self.whole_part() + 1
        } else {
            self.whole_part()
        };
        DecimalParts {
            negative: self.negative && (coefficient != 0 || self.coefficient == 0),
            coefficient,
            scale: 0,
        }
    }

    /// The whole part as an `i64`, where it fits.
    pub open spec fn truncated_i64(self) -> Option<i64> {
        let n = if self.negative {
            -(self.whole_part() as int)
        } else {
            self.whole_part() as int
        };
        if i64::MIN <= n <= i64::MAX {
            Some(n as i64)
        } else {
            None
        }
    }

    /// The flag word of the 16-byte form: the scale in bits 16 to 23, the sign in bit 31.
    pub open spec fn flag_word(self) -> nat {
        self.scale * 0x1_0000 + if self.negative {
            0x8000_0000nat
        } else {
            0nat
        }
    }

    /// The 16-byte form: the flag word, then the coefficient, both least significant first.
    pub open spec fn row_bytes(self) -> Seq<u8> {
        le_bytes(self.flag_word(), 4) + le_bytes(self.coefficient, 12)
    }
}

/// The decimal that 16 bytes stand for. Of the flag word only the sign bit and the low five
/// bits of the scale byte are read. A scale above 28 becomes 28 and the digits beyond it are cut
/// off; where they are five or more, read as a number, the coefficient grows by one.
pub open spec fn decimal_of_bytes(bytes: Seq<u8>) -> DecimalParts {
    let scale = (bytes[2] % 32) as nat;
    let coefficient = le_value(bytes.subrange(4, 16));
    if scale <= 28 {
        DecimalParts { negative: bytes[3] >= 128, coefficient, scale }
    } else {
        let cut = pow10((scale - 28) as nat);
        DecimalParts {
            negative: bytes[3] >= 128,
            coefficient: coefficient / cut + if coefficient % cut >= 5 {
                1nat
            } else {
                0nat
            },
            scale: 28,
        }
    }
}

/// Whatever the bytes, the decimal is in range.
proof fn lemma_bytes_in_range(bytes: Seq<u8>)
    requires
        bytes.len() == 16,
    ensures
        decimal_of_bytes(bytes).in_range(),
{
    let c = le_value(bytes.subrange(4, 16));
    lemma_le_value_bound(bytes.subrange(4, 16));
    lemma_pow256_values();
    let scale = (bytes[2] % 32) as nat;
    if scale > 28 {
        reveal_with_fuel(pow10, 4);
        let cut = pow10((scale - 28) as nat);
        assert(cut >= 10);
        assert(c / cut <= c / 10) by (nonlinear_arith)
            requires
                cut >= 10,
                c >= 0,
        ;
    }
}

/// The text of a decimal: what its `to_string` returns.
pub uninterp spec fn decimal_text(negative: bool, coefficient: nat, scale: nat) -> Seq<char>;

/// The decimal a text spells, where it spells one: what `str::parse::<Decimal>` returns.
pub uninterp spec fn decimal_parsed(s: Seq<char>) -> Option<DecimalParts>;

/// An exact decimal.
#[derive(Debug, Clone, Copy)]
pub struct Decimal {
    negative: bool,
    coefficient: u128,
    scale: u32,
}

impl View for Decimal {
    type V = DecimalParts;

    closed spec fn view(&self) -> DecimalParts {
        DecimalParts {
            negative: self.negative,
            coefficient: self.coefficient as nat,
            scale: self.scale as nat,
        }
    }
}

impl PartialEq for Decimal {
    /// Decimals are equal where they stand for one number.
    fn eq(&self, other: &Decimal) -> (r: bool) {
        match self.order(other) {
            Order::Same => true,
            _ => false,
        }
    }
}

impl vstd::std_specs::cmp::PartialEqSpecImpl for Decimal {
    open spec fn obeys_eq_spec() -> bool {
        true
    }

    open spec fn eq_spec(&self, other: &Decimal) -> bool {
        self@.same(other@)
    }
}

/// How two decimals stand to each other.
#[derive(Debug, Clone, Copy, PartialEq, Eq, Structural)]
pub enum Order {
    Less,
    Same,
    Greater,
}

impl Order {
    /// Less, read from the other side, is greater.
    pub open spec fn flipped(self) -> Order {
        match self {
            Order::Less => Order::Greater,
            Order::Same => Order::Same,
            Order::Greater => Order::Less,
        }
    }
}

/// The numeric order of two decimals.
pub open spec fn decimal_order(a: DecimalParts, b: DecimalParts) -> Order {
    if a.less(b) {
        Order::Less
    } else if a.same(b) {
        Order::Same
    } else {
        Order::Greater
    }
}

// --- calls into rust_decimal, from parts to parts ---

/// `Decimal::serialize`: the 16-byte form, [`DecimalParts::row_bytes`].
#[verifier::external_body]
fn serialize_parts(negative: bool, coefficient: u128, scale: u32) -> (r: Vec<u8>)
    requires
        (DecimalParts { negative, coefficient: coefficient as nat, scale: scale as nat }).in_range(),
    ensures
        r@ == (DecimalParts {
            negative,
            coefficient: coefficient as nat,
            scale: scale as nat,
        }).row_bytes(),
{
    let mut d = rust_decimal::Decimal::from_i128_with_scale(coefficient as i128, scale);
    d.set_sign_negative(negative);
    d.serialize().to_vec()
}

/// `Decimal::deserialize`: [`decimal_of_bytes`].
#[verifier::external_body]
fn deserialize_parts(bytes: &[u8]) -> (r: (bool, u128, u32))
    requires
        bytes@.len() == 16,
    ensures
        (DecimalParts { negative: r.0, coefficient: r.1 as nat, scale: r.2 as nat })
            == decimal_of_bytes(bytes@),
{
    let d = rust_decimal::Decimal::deserialize(bytes.try_into().unwrap());
    (d.is_sign_negative(), d.mantissa().unsigned_abs(), d.scale())
}

/// `Decimal::normalize`: trailing zeros after the point taken off; zero becomes plain zero.
#[verifier::external_body]
fn normalize_parts(negative: bool, coefficient: u128, scale: u32) -> (r: (bool, u128, u32))
    requires
        (DecimalParts { negative, coefficient: coefficient as nat, scale: scale as nat }).in_range(),
    ensures
        (DecimalParts { negative: r.0, coefficient: r.1 as nat, scale: r.2 as nat })
            == (DecimalParts {
            negative,
            coefficient: coefficient as nat,
            scale: scale as nat,
        }).normalized(),
{
    let mut d = rust_decimal::Decimal::from_i128_with_scale(coefficient as i128, scale);
    d.set_sign_negative(negative);
    let n = d.normalize();
    (n.is_sign_negative(), n.mantissa().unsigned_abs(), n.scale())
}

/// `Decimal::floor`: [`DecimalParts::floored`], where there are places to cut off.
#[verifier::external_body]
fn floor_parts(negative: bool, coefficient: u128, scale: u32) -> (r: (bool, u128, u32))
    requires
        (DecimalParts { negative, coefficient: coefficient as nat, scale: scale as nat }).in_range(),
    ensures
        (DecimalParts { negative: r.0, coefficient: r.1 as nat, scale: r.2 as nat })
            == (DecimalParts {
            negative,
            coefficient: coefficient as nat,
            scale: scale as nat,
        }).floored(),
{
    let mut d = rust_decimal::Decimal::from_i128_with_scale(coefficient as i128, scale);
    d.set_sign_negative(negative);
    let n = d.floor();
    (n.is_sign_negative(), n.mantissa().unsigned_abs(), n.scale())
}

/// `Decimal::ceil`: [`DecimalParts::ceiled`].
#[verifier::external_body]
fn ceil_parts(negative: bool, coefficient: u128, scale: u32) -> (r: (bool, u128, u32))
    requires
        (DecimalParts { negative, coefficient: coefficient as nat, scale: scale as nat }).in_range(),
    ensures
        (DecimalParts { negative: r.0, coefficient: r.1 as nat, scale: r.2 as nat })
            == (DecimalParts {
            negative,
            coefficient: coefficient as nat,
            scale: scale as nat,
        }).ceiled(),
{
    let mut d = rust_decimal::Decimal::from_i128_with_scale(coefficient as i128, scale);
    d.set_sign_negative(negative);
    let n = d.ceil();
    (n.is_sign_negative(), n.mantissa().unsigned_abs(), n.scale())
}

/// `Decimal::round`: [`DecimalParts::rounded`], halves to even.
#[verifier::external_body]
fn round_parts(negative: bool, coefficient: u128, scale: u32) -> (r: (bool, u128, u32))
    requires
        (DecimalParts { negative, coefficient: coefficient as nat, scale: scale as nat }).in_range(),
    ensures
        (DecimalParts { negative: r.0, coefficient: r.1 as nat, scale: r.2 as nat })
            == (DecimalParts {
            negative,
            coefficient: coefficient as nat,
            scale: scale as nat,
        }).rounded(),
{
    let mut d = rust_decimal::Decimal::from_i128_with_scale(coefficient as i128, scale);
    d.set_sign_negative(negative);
    let n = d.round();
    (n.is_sign_negative(), n.mantissa().unsigned_abs(), n.scale())
}

/// `Decimal`'s `ToPrimitive::to_i64`: the whole part, where an `i64` holds it.
#[verifier::external_body]
fn parts_to_i64(negative: bool, coefficient: u128, scale: u32) -> (r: Option<i64>)
    requires
        (DecimalParts { negative, coefficient: coefficient as nat, scale: scale as nat }).in_range(),
    ensures
        r == (DecimalParts {
            negative,
            coefficient: coefficient as nat,
            scale: scale as nat,
        }).truncated_i64(),
{
    let mut d = rust_decimal::Decimal::from_i128_with_scale(coefficient as i128, scale);
    d.set_sign_negative(negative);
    rust_decimal::prelude::ToPrimitive::to_i64(&d)
}

/// `Decimal`'s `<`: numeric order.
#[verifier::external_body]
fn parts_less(a: (bool, u128, u32), b: (bool, u128, u32)) -> (r: bool)
    requires
        (DecimalParts { negative: a.0, coefficient: a.1 as nat, scale: a.2 as nat }).in_range(),
        (DecimalParts { negative: b.0, coefficient: b.1 as nat, scale: b.2 as nat }).in_range(),
    ensures
        r == (DecimalParts { negative: a.0, coefficient: a.1 as nat, scale: a.2 as nat }).less(
            DecimalParts { negative: b.0, coefficient: b.1 as nat, scale: b.2 as nat },
        ),
{
    let mut x = rust_decimal::Decimal::from_i128_with_scale(a.1 as i128, a.2);
    x.set_sign_negative(a.0);
    let mut y = rust_decimal::Decimal::from_i128_with_scale(b.1 as i128, b.2);
    y.set_sign_negative(b.0);
    x < y
}

/// `Decimal`'s `to_string`, named [`decimal_text`].
#[verifier::external_body]
fn parts_to_text(negative: bool, coefficient: u128, scale: u32) -> (r: String)
    requires
        (DecimalParts { negative, coefficient: coefficient as nat, scale: scale as nat }).in_range(),
    ensures
        r@ == decimal_text(negative, coefficient as nat, scale as nat),
{
    let mut d = rust_decimal::Decimal::from_i128_with_scale(coefficient as i128, scale);
    d.set_sign_negative(negative);
    d.to_string()
}

/// `str::parse::<Decimal>`, named [`decimal_parsed`].
#[verifier::external_body]
fn parse_parts(s: &str) -> (r: Option<(bool, u128, u32)>)
    ensures
        r is Some <==> decimal_parsed(s@) is Some,
        r is Some ==> decimal_parsed(s@)->0 == (DecimalParts {
            negative: (r->0).0,
            coefficient: (r->0).1 as nat,
            scale: (r->0).2 as nat,
        }) && decimal_parsed(s@)->0.in_range(),
{
    match s.parse::<rust_decimal::Decimal>() {
        Ok(d) => Some((d.is_sign_negative(), d.mantissa().unsigned_abs(), d.scale())),
        Err(_) => None,
    }
}

pub proof fn lemma_pow10_positive(n: nat)
    ensures
        pow10(n) > 0,
    decreases n,
{
    if n > 0 {
        lemma_pow10_positive((n - 1) as nat);
    }
}

/// Normalizing keeps a decimal in range.
pub proof fn lemma_normalized_in_range(p: DecimalParts)
    requires
        p.in_range(),
    ensures
        p.normalized().in_range(),
    decreases p.scale,
{
    if p.coefficient != 0 && p.scale > 0 && p.coefficient % 10 == 0 {
        lemma_normalized_in_range(
            DecimalParts {
                negative: p.negative,
                coefficient: p.coefficient / 10,
                scale: (p.scale - 1) as nat,
            },
        );
    }
}

/// Rounding to a whole number never leaves the 96-bit range.
proof fn lemma_whole_in_range(p: DecimalParts)
    requires
        p.in_range(),
    ensures
        p.floored().in_range(),
        p.ceiled().in_range(),
        p.rounded().in_range(),
{
    lemma_pow10_positive(p.scale);
    let t = pow10(p.scale);
    let c = p.coefficient;
    assert(c / t <= c && c % t < t) by (nonlinear_arith)
        requires
            t > 0,
            c >= 0,
    ;
    if p.scale == 0 {
        assert(t == 1);
        assert(c % 1 == 0);
    } else {
        assert(t == 10 * pow10((p.scale - 1) as nat));
        lemma_pow10_positive((p.scale - 1) as nat);
        assert(c / t <= c / 10) by (nonlinear_arith)
            requires
                t >= 10,
                c >= 0,
        ;
    }
}

impl Decimal {
    #[verifier::type_invariant]
    spec fn bounded(self) -> bool {
        self@.in_range()
    }

    /// Every decimal is in range.
    pub fn parts(&self) -> (r: (bool, u128, u32))
        ensures
            self@ == (DecimalParts {
                negative: r.0,
                coefficient: r.1 as nat,
                scale: r.2 as nat,
            }),
            self@.in_range(),
    {
        proof {
            use_type_invariant(&*self);
        }
        (self.negative, self.coefficient, self.scale)
    }

    /// The decimal with the given sign, coefficient and scale, where they are in range.
    pub fn from_parts(negative: bool, coefficient: u128, scale: u32) -> (r: Option<Decimal>)
        ensures
            r is Some <==> (DecimalParts {
                negative,
                coefficient: coefficient as nat,
                scale: scale as nat,
            }).in_range(),
            r is Some ==> r->0@ == (DecimalParts {
                negative,
                coefficient: coefficient as nat,
                scale: scale as nat,
            }),
    {
        if coefficient < 0x1_0000_0000_0000_0000_0000_0000 && scale <= 28 {
            Some(Decimal { negative, coefficient, scale })
        } else {
            None
        }
    }

    /// The whole decimal `n`.
    pub fn from_i64(n: i64) -> (r: Decimal)
        ensures
            r@ == DecimalParts::whole(n as int),
    {
        if n < 0 {
            Decimal { negative: true, coefficient: (-(n as i128)) as u128, scale: 0 }
        } else {
            Decimal { negative: false, coefficient: n as u128, scale: 0 }
        }
    }

    /// Parse a decimal from its text.
    pub fn parse(s: &str) -> (r: Option<Decimal>)
        ensures
            r is Some <==> decimal_parsed(s@) is Some,
            r is Some ==> r->0@ == decimal_parsed(s@)->0,
    {
        match parse_parts(s) {
            Some((negative, coefficient, scale)) => Some(Decimal { negative, coefficient, scale }),
            None => None,
        }
    }

    /// The decimal's text.
    pub fn to_text(&self) -> (r: String)
        ensures
            r@ == decimal_text(self@.negative, self@.coefficient, self@.scale),
    {
        proof {
            use_type_invariant(&*self);
        }
        parts_to_text(self.negative, self.coefficient, self.scale)
    }

    /// Zeros after the point taken off the end.
    pub fn normalize(&self) -> (r: Decimal)
        ensures
            r@ == self@.normalized(),
    {
        proof {
            use_type_invariant(&*self);
        }
        let n = normalize_parts(self.negative, self.coefficient, self.scale);
        proof {
            lemma_normalized_in_range(self@);
        }
        Decimal { negative: n.0, coefficient: n.1, scale: n.2 }
    }

    /// Round down to a whole number.
    pub fn floor(&self) -> (r: Decimal)
        ensures
            r@ == self@.floored(),
    {
        proof {
            use_type_invariant(&*self);
            lemma_whole_in_range(self@);
        }
        let n = floor_parts(self.negative, self.coefficient, self.scale);
        Decimal { negative: n.0, coefficient: n.1, scale: n.2 }
    }

    /// Round up to a whole number.
    pub fn ceil(&self) -> (r: Decimal)
        ensures
            r@ == self@.ceiled(),
    {
        proof {
            use_type_invariant(&*self);
            lemma_whole_in_range(self@);
        }
        let n = ceil_parts(self.negative, self.coefficient, self.scale);
        Decimal { negative: n.0, coefficient: n.1, scale: n.2 }
    }

    /// Round to the nearest whole number.
    pub fn round(&self) -> (r: Decimal)
        ensures
            r@ == self@.rounded(),
    {
        proof {
            use_type_invariant(&*self);
            lemma_whole_in_range(self@);
        }
        let n = round_parts(self.negative, self.coefficient, self.scale);
        Decimal { negative: n.0, coefficient: n.1, scale: n.2 }
    }

    /// The whole part as an `i64`, where it fits.
    pub fn to_i64(&self) -> (r: Option<i64>)
        ensures
            r == self@.truncated_i64(),
    {
        proof {
            use_type_invariant(&*self);
        }
        parts_to_i64(self.negative, self.coefficient, self.scale)
    }

    /// The number with the opposite sign.
    pub fn negate(&self) -> (r: Decimal)
        ensures
            r@ == self@.negated(),
    {
        proof {
            use_type_invariant(&*self);
        }
        Decimal { negative: !self.negative, coefficient: self.coefficient, scale: self.scale }
    }

    /// The number without its sign.
    pub fn abs(&self) -> (r: Decimal)
        ensures
            r@ == self@.magnitude(),
    {
        proof {
            use_type_invariant(&*self);
        }
        Decimal { negative: false, coefficient: self.coefficient, scale: self.scale }
    }

    /// Numeric comparison.
    pub fn order(&self, other: &Decimal) -> (r: Order)
        ensures
            r == decimal_order(self@, other@),
    {
        let a = self.parts();
        let b = other.parts();
        if parts_less(a, b) {
            Order::Less
        } else if parts_less(b, a) {
            Order::Greater
        } else {
            Order::Same
        }
    }

    /// The 16-byte form.
    pub fn serialize(&self) -> (r: Vec<u8>)
        ensures
            r@ == self@.row_bytes(),
    {
        proof {
            use_type_invariant(&*self);
        }
        serialize_parts(self.negative, self.coefficient, self.scale)
    }

    /// The decimal that a 16-byte form stands for.
    pub fn deserialize(bytes: &[u8]) -> (r: Decimal)
        requires
            bytes@.len() == 16,
        ensures
            r@ == decimal_of_bytes(bytes@),
    {
        let n = deserialize_parts(bytes);
        proof {
            lemma_bytes_in_range(bytes@);
        }
        Decimal { negative: n.0, coefficient: n.1, scale: n.2 }
    }
}

} // verus!
