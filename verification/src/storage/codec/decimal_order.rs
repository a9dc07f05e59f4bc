//! Decimal keys sort as the numbers do.

use vstd::prelude::*;

use super::decimal::{
    cent_at, cents, decimal_key, digit_at, exponent, lemma_coefficient_digits, magnitude_key,
    DEC_NEG, DEC_POS,
};
use crate::storage::bytes::{
    complement, lemma_complement_reverses, lemma_lex_at, lemma_lex_prefix, lemma_lex_total, lex_lt,
};
use crate::storage::decimal::{lemma_pow10_positive, pow10, DecimalParts};
use crate::storage::text::digits;

verus! {

pub proof fn lemma_pow10_add(a: nat, b: nat)
    ensures
        pow10(a + b) == pow10(a) * pow10(b),
    decreases a,
{
    if a == 0 {
        assert(pow10(0) * pow10(b) == pow10(b)) by (nonlinear_arith)
            requires
                pow10(0) == 1,
        ;
    } else {
        lemma_pow10_add((a - 1) as nat, b);
        let x = pow10((a - 1) as nat);
        let y = pow10(b);
        assert((a - 1) as nat + b == (a + b - 1) as nat);
        assert(10 * (x * y) == (10 * x) * y) by (nonlinear_arith);
    }
}

pub proof fn lemma_pow10_monotonic(a: nat, b: nat)
    requires
        a <= b,
    ensures
        pow10(a) <= pow10(b),
    decreases b,
{
    if a < b {
        lemma_pow10_monotonic(a, (b - 1) as nat);
        lemma_pow10_positive((b - 1) as nat);
    }
}

/// The number that a digit string spells.
spec fn dvalue(s: Seq<nat>) -> nat
    decreases s.len(),
{
    if s.len() == 0 {
        0
    } else {
        10 * dvalue(s.drop_last()) + s.last()
    }
}

spec fn is_digits(s: Seq<nat>) -> bool {
    forall|i: int| 0 <= i < s.len() ==> #[trigger] s[i] < 10
}

/// `s` with zeros added up to length `n`.
spec fn padded(s: Seq<nat>, n: nat) -> Seq<nat> {
    Seq::new(n, |i: int| digit_at(s, i))
}

proof fn lemma_digits_spell(n: nat)
    ensures
        dvalue(digits(n)) == n,
    decreases n,
{
    if n < 10 {
        let s = digits(n);
        assert(s.drop_last() =~= Seq::<nat>::empty());
        assert(dvalue(s.drop_last()) == 0);
    } else {
        lemma_digits_spell(n / 10);
        assert(digits(n).drop_last() =~= digits(n / 10));
    }
}

/// `n` digits reach from `10^(n-1)` to `10^n`.
proof fn lemma_digits_magnitude(n: nat)
    requires
        n > 0,
    ensures
        digits(n).len() >= 1,
        pow10((digits(n).len() - 1) as nat) <= n < pow10(digits(n).len()),
    decreases n,
{
    if n < 10 {
        assert(digits(n).len() == 1);
        assert(pow10(0) == 1 && pow10(1) == 10) by {
            reveal_with_fuel(pow10, 2);
        }
    } else {
        lemma_digits_magnitude(n / 10);
        let k = digits(n / 10).len();
        assert(digits(n).len() == k + 1);
        assert(pow10(k) == 10 * pow10((k - 1) as nat));
        assert(pow10((k + 1) as nat) == 10 * pow10(k));
    }
}

proof fn lemma_padded_value(s: Seq<nat>, n: nat)
    requires
        s.len() <= n,
    ensures
        dvalue(padded(s, n)) == dvalue(s) * pow10((n - s.len()) as nat),
    decreases n,
{
    if n == s.len() {
        assert(padded(s, n) =~= s);
        assert(dvalue(s) * pow10(0) == dvalue(s)) by (nonlinear_arith)
            requires
                pow10(0) == 1,
        ;
    } else {
        lemma_padded_value(s, (n - 1) as nat);
        assert(padded(s, n).drop_last() =~= padded(s, (n - 1) as nat));
        let v = dvalue(s);
        let t = pow10((n - 1 - s.len()) as nat);
        assert(pow10((n - s.len()) as nat) == 10 * t);
        assert(10 * (v * t) == v * (10 * t)) by (nonlinear_arith);
    }
}

/// Digit strings of one length that spell one number are the same.
proof fn lemma_dvalue_injective(x: Seq<nat>, y: Seq<nat>)
    requires
        x.len() == y.len(),
        is_digits(x),
        is_digits(y),
        dvalue(x) == dvalue(y),
    ensures
        x == y,
    decreases x.len(),
{
    if x.len() > 0 {
        lemma_dvalue_injective(x.drop_last(), y.drop_last());
        assert(x =~= x.drop_last().push(x.last()));
        assert(y =~= y.drop_last().push(y.last()));
    } else {
        assert(x =~= y);
    }
}

/// Where one of two digit strings of one length spells less, it has the smaller digit at the
/// first place where they differ.
proof fn lemma_first_difference(x: Seq<nat>, y: Seq<nat>) -> (k: int)
    requires
        x.len() == y.len(),
        is_digits(x),
        is_digits(y),
        dvalue(x) < dvalue(y),
    ensures
        0 <= k < x.len(),
        x.take(k) == y.take(k),
        x[k] < y[k],
    decreases x.len(),
{
    if dvalue(x.drop_last()) < dvalue(y.drop_last()) {
        let k = lemma_first_difference(x.drop_last(), y.drop_last());
        assert(x.take(k) =~= x.drop_last().take(k));
        assert(y.take(k) =~= y.drop_last().take(k));
        k
    } else {
        assert(dvalue(x.drop_last()) == dvalue(y.drop_last()));
        lemma_dvalue_injective(x.drop_last(), y.drop_last());
        assert(x.take(x.len() - 1) =~= x.drop_last());
        assert(y.take(x.len() - 1) =~= y.drop_last());
        x.len() - 1
    }
}

/// A normalized non-zero number.
spec fn normal(p: DecimalParts) -> bool {
    p.coefficient > 0 && p.in_range() && (p.scale == 0 || p.coefficient % 10 != 0)
}

/// A smaller exponent means a smaller magnitude.
proof fn lemma_exponent_dominates(p: DecimalParts, q: DecimalParts)
    requires
        p.coefficient > 0,
        q.coefficient > 0,
        exponent(p) < exponent(q),
    ensures
        p.coefficient * pow10(q.scale) < q.coefficient * pow10(p.scale),
{
    let (m, n) = (p.coefficient, q.coefficient);
    lemma_digits_magnitude(m);
    lemma_digits_magnitude(n);
    let a = digits(m).len();
    let b = digits(n).len();
    lemma_pow10_positive(q.scale);
    lemma_pow10_positive(p.scale);
    lemma_pow10_add(a, q.scale);
    lemma_pow10_add((b - 1) as nat, p.scale);
    lemma_pow10_monotonic(a + q.scale, (b - 1 + p.scale) as nat);
    let (s, t) = (pow10(q.scale), pow10(p.scale));
    assert(m * s < pow10(a) * s) by (nonlinear_arith)
        requires
            m < pow10(a),
            s > 0,
    ;
    assert(pow10((b - 1) as nat) * t <= n * t) by (nonlinear_arith)
        requires
            pow10((b - 1) as nat) <= n,
    ;
}

/// With one exponent, comparing the numbers is comparing their digits, filled up with zeros.
proof fn lemma_align(p: DecimalParts, q: DecimalParts, len: nat)
    requires
        p.coefficient > 0,
        q.coefficient > 0,
        exponent(p) == exponent(q),
        len >= digits(p.coefficient).len(),
        len >= digits(q.coefficient).len(),
        p.coefficient * pow10(q.scale) < q.coefficient * pow10(p.scale),
    ensures
        p.coefficient * pow10((len - digits(p.coefficient).len()) as nat) < q.coefficient * pow10(
            (len - digits(q.coefficient).len()) as nat,
        ),
{
    let (m, n) = (p.coefficient, q.coefficient);
    let t = (len - digits(m).len()) as nat;
    let u = (len - digits(n).len()) as nat;
    lemma_pow10_positive(t);
    lemma_pow10_positive(u);
    if p.scale <= q.scale {
        let k = (q.scale - p.scale) as nat;
        assert(t == u + k);
        lemma_pow10_add(u, k);
        lemma_pow10_add(p.scale, k);
        lemma_pow10_positive(p.scale);
        let (ps, pk, pu) = (pow10(p.scale), pow10(k), pow10(u));
        assert(m * pk < n) by (nonlinear_arith)
            requires
                m * (ps * pk) < n * ps,
                ps > 0,
        ;
        assert(m * (pu * pk) < n * pu) by (nonlinear_arith)
            requires
                m * pk < n,
                pu > 0,
        ;
    } else {
        let k = (p.scale - q.scale) as nat;
        assert(u == t + k);
        lemma_pow10_add(t, k);
        lemma_pow10_add(q.scale, k);
        lemma_pow10_positive(q.scale);
        let (qs, pk, pt) = (pow10(q.scale), pow10(k), pow10(t));
        assert(m < n * pk) by (nonlinear_arith)
            requires
                m * qs < n * (qs * pk),
                qs > 0,
        ;
        assert(m * pt < n * (pt * pk)) by (nonlinear_arith)
            requires
                m < n * pk,
                pt > 0,
        ;
    }
}

/// Of two magnitudes, the smaller has the smaller byte where the keys first differ, and both
/// keys reach that place.
proof fn lemma_magnitude_order(p: DecimalParts, q: DecimalParts) -> (k: int)
    requires
        p.coefficient > 0,
        q.coefficient > 0,
        p.in_range(),
        q.in_range(),
        p.coefficient * pow10(q.scale) < q.coefficient * pow10(p.scale),
    ensures
        0 <= k < magnitude_key(p).len(),
        k < magnitude_key(q).len(),
        magnitude_key(p).take(k) == magnitude_key(q).take(k),
        magnitude_key(p)[k] < magnitude_key(q)[k],
{
    let (m, n) = (p.coefficient, q.coefficient);
    lemma_coefficient_digits(m);
    lemma_coefficient_digits(n);
    let (x, y) = (digits(m), digits(n));
    let (kp, kq) = (magnitude_key(p), magnitude_key(q));
    if exponent(q) < exponent(p) {
        lemma_exponent_dominates(q, p);
    }
    if exponent(p) < exponent(q) {
        assert(kp.take(0) =~= kq.take(0));
        0
    } else {
        let len = if x.len() >= y.len() {
            x.len()
        } else {
            y.len()
        };
        lemma_align(p, q, len);
        lemma_digits_spell(m);
        lemma_digits_spell(n);
        lemma_padded_value(x, len);
        lemma_padded_value(y, len);
        let (px, py) = (padded(x, len), padded(y, len));
        let i = lemma_first_difference(px, py);
        let c = i / 2;
        let (na, nb) = ((x.len() + 1) / 2, (y.len() + 1) / 2);
        assert forall|j: int| 0 <= j < i implies digit_at(x, j) == digit_at(y, j) by {
            assert(px.take(i)[j] == px[j] && py.take(i)[j] == py[j]);
        }
        assert forall|j: int| 0 <= j < c implies cent_at(x, j) == cent_at(y, j) by {
            assert(2 * j + 1 < i);
        }
        assert(digit_at(x, i) < digit_at(y, i));
        assert(i < y.len());
        assert(c < nb);
        let k: int = if c < na {
            c + 1
        } else {
            na as int + 1
        };
        assert(kp.take(k) =~= kq.take(k)) by {
            assert forall|j: int| 0 <= j < k implies kp[j] == kq[j] by {
                if j > 0 {
                    assert(kp[j] == cents(x)[j - 1]);
                    assert(kq[j] == cents(y)[j - 1]);
                }
            }
        }
        if c < na {
            assert(kp[k] == cents(x)[c]);
            assert(kq[k] == cents(y)[c]);
            assert(cent_at(x, c) < cent_at(y, c)) by {
                if i == 2 * c {
                    assert(digit_at(x, 2 * c + 1) < 10);
                } else {
                    assert(i == 2 * c + 1);
                    assert(digit_at(x, 2 * c) == digit_at(y, 2 * c));
                }
            }
            assert(cent_at(y, c) < 100);
        } else {
            assert(kp[k] == 0);
            assert(kq[k] == cents(y)[na as int]);
            assert(cent_at(y, na as int) < 100);
        }
        k
    }
}

/// Normalizing keeps the number, and leaves nothing to take off.
proof fn lemma_normalized_value(p: DecimalParts)
    requires
        p.coefficient > 0,
        p.in_range(),
    ensures
        normal(p.normalized()),
        p.normalized().negative == p.negative,
        p.normalized().scale <= p.scale,
        p.normalized().coefficient * pow10((p.scale - p.normalized().scale) as nat)
            == p.coefficient,
    decreases p.scale,
{
    if p.scale > 0 && p.coefficient % 10 == 0 {
        let r = DecimalParts {
            negative: p.negative,
            coefficient: p.coefficient / 10,
            scale: (p.scale - 1) as nat,
        };
        lemma_normalized_value(r);
        let n = p.normalized();
        let k = (r.scale - n.scale) as nat;
        let (c, t) = (n.coefficient, pow10(k));
        assert(pow10((p.scale - n.scale) as nat) == 10 * t);
        assert(c * (10 * t) == 10 * (c * t)) by (nonlinear_arith);
    } else {
        assert(p.coefficient * pow10(0) == p.coefficient) by (nonlinear_arith)
            requires
                pow10(0) == 1,
        ;
    }
}

/// Scaling both sides of a comparison of magnitudes changes nothing.
proof fn lemma_compare_scaled(a: nat, b: nat, s: nat, t: nat, i: nat, j: nat)
    ensures
        ((a * pow10(i)) * pow10(t + j) < (b * pow10(j)) * pow10(s + i)) == (a * pow10(t) < b
            * pow10(s)),
        ((a * pow10(i)) * pow10(t + j) == (b * pow10(j)) * pow10(s + i)) == (a * pow10(t) == b
            * pow10(s)),
{
    lemma_pow10_add(t, j);
    lemma_pow10_add(s, i);
    lemma_pow10_positive(i);
    lemma_pow10_positive(j);
    let (pi, pj, ps, pt) = (pow10(i), pow10(j), pow10(s), pow10(t));
    let f = pi * pj;
    let (l, r) = (a * pt, b * ps);
    assert(f > 0) by (nonlinear_arith)
        requires
            pi > 0,
            pj > 0,
            f == pi * pj,
    ;
    assert((a * pi) * (pt * pj) == l * f) by (nonlinear_arith)
        requires
            l == a * pt,
            f == pi * pj,
    ;
    assert((b * pj) * (ps * pi) == r * f) by (nonlinear_arith)
        requires
            r == b * ps,
            f == pi * pj,
    ;
    assert((l * f < r * f) == (l < r)) by (nonlinear_arith)
        requires
            f > 0,
    ;
    assert((l * f == r * f) == (l == r)) by (nonlinear_arith)
        requires
            f > 0,
    ;
}

/// Normalizing two non-zero numbers changes nothing about how their magnitudes compare.
proof fn lemma_normalized_compare(p: DecimalParts, q: DecimalParts)
    requires
        p.coefficient > 0,
        q.coefficient > 0,
        p.in_range(),
        q.in_range(),
    ensures
        (p.coefficient * pow10(q.scale) < q.coefficient * pow10(p.scale)) == (
        p.normalized().coefficient * pow10(q.normalized().scale) < q.normalized().coefficient
            * pow10(p.normalized().scale)),
        (p.coefficient * pow10(q.scale) == q.coefficient * pow10(p.scale)) == (
        p.normalized().coefficient * pow10(q.normalized().scale) == q.normalized().coefficient
            * pow10(p.normalized().scale)),
{
    lemma_normalized_value(p);
    lemma_normalized_value(q);
    let (a, b) = (p.normalized(), q.normalized());
    lemma_compare_scaled(
        a.coefficient,
        b.coefficient,
        a.scale,
        b.scale,
        (p.scale - a.scale) as nat,
        (q.scale - b.scale) as nat,
    );
}

/// A number has one normal form.
proof fn lemma_normal_unique(a: DecimalParts, b: DecimalParts)
    requires
        normal(a),
        normal(b),
        a.coefficient * pow10(b.scale) == b.coefficient * pow10(a.scale),
    ensures
        a.coefficient == b.coefficient,
        a.scale == b.scale,
{
    if a.scale < b.scale {
        lemma_unique_step(a, b);
    } else if b.scale < a.scale {
        lemma_unique_step(b, a);
    } else {
        lemma_pow10_positive(a.scale);
        let t = pow10(a.scale);
        assert(a.coefficient == b.coefficient) by (nonlinear_arith)
            requires
                a.coefficient * t == b.coefficient * t,
                t > 0,
        ;
    }
}

proof fn lemma_unique_step(a: DecimalParts, b: DecimalParts)
    requires
        normal(a),
        normal(b),
        a.scale < b.scale,
    ensures
        a.coefficient * pow10(b.scale) != b.coefficient * pow10(a.scale),
{
    let k = (b.scale - a.scale - 1) as nat;
    lemma_pow10_add(a.scale, (k + 1) as nat);
    lemma_pow10_positive(a.scale);
    let (t, u) = (pow10(a.scale), pow10(k));
    let (m, n) = (a.coefficient, b.coefficient);
    assert(pow10((k + 1) as nat) == 10 * u);
    if m * pow10(b.scale) == n * t {
        assert(n == 10 * (m * u)) by (nonlinear_arith)
            requires
                m * (t * (10 * u)) == n * t,
                t > 0,
        ;
        assert(n % 10 == 0);
    }
}

/// The keys of smaller numbers sort lower.
proof fn lemma_less_means_lower(p: DecimalParts, q: DecimalParts)
    requires
        p.in_range(),
        q.in_range(),
        p.less(q),
    ensures
        lex_lt(decimal_key(p), decimal_key(q)),
{
    lemma_pow10_positive(p.scale);
    lemma_pow10_positive(q.scale);
    let (s, t) = (pow10(q.scale), pow10(p.scale));
    let (kp, kq) = (decimal_key(p), decimal_key(q));
    if p.coefficient > 0 {
        lemma_normalized_value(p);
    }
    if q.coefficient > 0 {
        lemma_normalized_value(q);
    }
    let (a, b) = (p.normalized(), q.normalized());
    if p.coefficient > 0 && q.coefficient > 0 && p.negative == q.negative {
        let (m, n) = (p.coefficient, q.coefficient);
        if p.negative {
            assert(n * t < m * s) by (nonlinear_arith)
                requires
                    (-(m as int)) * s < (-(n as int)) * t,
            ;
            lemma_normalized_compare(q, p);
            let k = lemma_magnitude_order(b, a);
            lemma_complement_reverses(magnitude_key(b), magnitude_key(a), k);
            lemma_lex_prefix(
                seq![DEC_NEG],
                complement(magnitude_key(a)),
                complement(magnitude_key(b)),
            );
        } else {
            lemma_normalized_compare(p, q);
            let k = lemma_magnitude_order(a, b);
            lemma_lex_at(magnitude_key(a), magnitude_key(b), k);
            lemma_lex_prefix(seq![DEC_POS], magnitude_key(a), magnitude_key(b));
        }
    } else {
        let (x, y) = (p.signed(), q.signed());
        assert(x < 0 || y > 0) by (nonlinear_arith)
            requires
                x * s < y * t,
                s > 0,
                t > 0,
        ;
        assert(!(x > 0 && y <= 0) && !(x >= 0 && y < 0)) by (nonlinear_arith)
            requires
                x * s < y * t,
                s > 0,
                t > 0,
        ;
        assert(kp[0] < kq[0]);
    }
}

/// Equal numbers have one key, however many zeros they are written with.
proof fn lemma_same_means_equal(p: DecimalParts, q: DecimalParts)
    requires
        p.in_range(),
        q.in_range(),
        p.same(q),
    ensures
        decimal_key(p) == decimal_key(q),
{
    lemma_pow10_positive(p.scale);
    lemma_pow10_positive(q.scale);
    let (s, t) = (pow10(q.scale), pow10(p.scale));
    let (x, y) = (p.signed(), q.signed());
    assert((x == 0) == (y == 0) && (x < 0) == (y < 0)) by (nonlinear_arith)
        requires
            x * s == y * t,
            s > 0,
            t > 0,
    ;
    if p.coefficient > 0 {
        let (m, n) = (p.coefficient, q.coefficient);
        assert(m * s == n * t) by (nonlinear_arith)
            requires
                x * s == y * t,
                (x == m && y == n) || (x == -(m as int) && y == -(n as int)),
        ;
        lemma_normalized_value(p);
        lemma_normalized_value(q);
        lemma_normalized_compare(p, q);
        lemma_normal_unique(p.normalized(), q.normalized());
    }
}

/// Decimal keys sort in numeric order, and equal numbers share one key.
pub proof fn law_decimal_key_order(p: DecimalParts, q: DecimalParts)
    requires
        p.in_range(),
        q.in_range(),
    ensures
        lex_lt(decimal_key(p), decimal_key(q)) == p.less(q),
        (decimal_key(p) == decimal_key(q)) == p.same(q),
{
    lemma_lex_total(decimal_key(p), decimal_key(q));
    if p.less(q) {
        lemma_less_means_lower(p, q);
    } else if p.same(q) {
        lemma_same_means_equal(p, q);
    } else {
        lemma_less_means_lower(q, p);
    }
}

} // verus!
