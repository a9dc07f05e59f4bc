//! What operators and functions make of values, told by what their results are.

use vstd::prelude::*;

use super::cast::{cast_value, text_of};
use super::compare::{plain_same, plain_same_upto, values_order, values_same};
use super::eval::{
    arity, best_of, better, binary_value, call_value, chosen, concatenated, evaluated, extreme,
    first_non_null, is_truth, values_of,
};
use super::function::{nullif_value, repeated, substr_value, substring, trim_of, trim_value};
use super::like::like;
use super::{BinaryOperator, ScalarFunc, Term};
use crate::query::error::Fault;
use crate::query::host::{asked_float, Answer, Question};
use crate::storage::bytes::lex_lt;
use crate::storage::decimal::{lemma_pow10_positive, pow10, DecimalParts, Order};
use crate::storage::float::float64_rank;
use crate::storage::text::{lowercased, strip_end, strip_start, uppercased};
use crate::storage::types::{Datum, Float64, LogicalType, MICROS_PER_DAY};

verus! {

/// The number that an integer is, whatever its width.
pub open spec fn number(d: Datum) -> Option<int> {
    match d {
        Datum::Int16(n) => Some(n as int),
        Datum::Int32(n) => Some(n as int),
        Datum::Int64(n) => Some(n as int),
        _ => None,
    }
}

/// The place of a value among the values of its kind, for the kinds that count: integers of any
/// width, bools, dates, timestamps, and intervals with months of 30 days of 24 hours.
pub open spec fn place(d: Datum) -> Option<int> {
    match d {
        Datum::Bool(b) => Some(
            if b {
                1
            } else {
                0
            },
        ),
        Datum::Date(n) => Some(n as int),
        Datum::Timestamp(t) => Some(t as int),
        Datum::Interval(i) => Some((i.months * 30 + i.days) * 86_400_000_000 + i.micros),
        _ => number(d),
    }
}

/// Whether two values are of one kind that counts.
pub open spec fn of_a_kind(a: Datum, b: Datum) -> bool {
    ||| number(a) is Some && number(b) is Some
    ||| a is Bool && b is Bool
    ||| a is Date && b is Date
    ||| a is Timestamp && b is Timestamp
    ||| a is Interval && b is Interval
}

/// The outcome of an operator on two expressions.
pub open spec fn operated(
    op: BinaryOperator,
    l: Term,
    r: Term,
    row: Seq<Datum>,
    table: Seq<(Question, Answer)>,
) -> Result<Datum, Fault> {
    evaluated(Term::Binary(op, Box::new(l), Box::new(r)), row, table)
}

/// The outcome of a function call.
pub open spec fn called(
    func: ScalarFunc,
    args: Seq<Term>,
    row: Seq<Datum>,
    table: Seq<(Question, Answer)>,
) -> Result<Datum, Fault> {
    evaluated(Term::Call(func, args), row, table)
}

/// An outcome that is a truth.
pub open spec fn truth(b: bool) -> Result<Datum, Fault> {
    Ok(Datum::Bool(b))
}

// --- leaves ---

/// A column is the row's value at its place, and a literal is itself.
pub proof fn law_columns_and_literals(
    i: nat,
    d: Datum,
    row: Seq<Datum>,
    table: Seq<(Question, Answer)>,
)
    ensures
        i < row.len() ==> evaluated(Term::Column(i), row, table) == Ok::<Datum, Fault>(
            row[i as int],
        ),
        i >= row.len() ==> evaluated(Term::Column(i), row, table) is Err,
        evaluated(Term::Literal(d), row, table) == Ok::<Datum, Fault>(d),
{
}

/// An operand that fails fails the whole, the left one first.
pub proof fn law_faults_surface(
    op: BinaryOperator,
    l: Term,
    r: Term,
    row: Seq<Datum>,
    table: Seq<(Question, Answer)>,
    f: Fault,
)
    ensures
        evaluated(l, row, table) == Err::<Datum, Fault>(f) ==> operated(op, l, r, row, table)
            == Err::<Datum, Fault>(f),
        evaluated(l, row, table) is Ok && evaluated(r, row, table) == Err::<Datum, Fault>(f)
            ==> operated(op, l, r, row, table) == Err::<Datum, Fault>(f),
{
    reveal_with_fuel(evaluated, 2);
}

// --- truth ---

/// `AND` is true where both sides are, false where either is, and null otherwise; `OR` is true
/// where either side is, false where both are, and null otherwise; `NOT` swaps true and false
/// and leaves a null.
pub proof fn law_truth_tables(
    l: Term,
    r: Term,
    a: Datum,
    b: Datum,
    row: Seq<Datum>,
    table: Seq<(Question, Answer)>,
)
    requires
        evaluated(l, row, table) == Ok::<Datum, Fault>(a),
        evaluated(r, row, table) == Ok::<Datum, Fault>(b),
        is_truth(a),
        is_truth(b),
    ensures
        ({
            let and = operated(BinaryOperator::And, l, r, row, table);
            &&& and == truth(true) <==> a == Datum::Bool(true) && b == Datum::Bool(true)
            &&& and == truth(false) <==> a == Datum::Bool(false) || b == Datum::Bool(false)
            &&& and == Ok::<Datum, Fault>(Datum::Null) || and == truth(true) || and == truth(false)
        }),
        ({
            let or = operated(BinaryOperator::Or, l, r, row, table);
            &&& or == truth(true) <==> a == Datum::Bool(true) || b == Datum::Bool(true)
            &&& or == truth(false) <==> a == Datum::Bool(false) && b == Datum::Bool(false)
            &&& or == Ok::<Datum, Fault>(Datum::Null) || or == truth(true) || or == truth(false)
        }),
        ({
            let not = evaluated(Term::Not(Box::new(l)), row, table);
            &&& not == truth(true) <==> a == Datum::Bool(false)
            &&& not == truth(false) <==> a == Datum::Bool(true)
            &&& not == Ok::<Datum, Fault>(Datum::Null) <==> a is Null
        }),
{
    reveal_with_fuel(evaluated, 2);
}

/// `IS NULL` tells nulls from values, and `IS NOT NULL` values from nulls.
pub proof fn law_is_null_tells_nulls(
    x: Term,
    a: Datum,
    row: Seq<Datum>,
    table: Seq<(Question, Answer)>,
)
    requires
        evaluated(x, row, table) == Ok::<Datum, Fault>(a),
    ensures
        evaluated(Term::IsNull(Box::new(x), false), row, table) == truth(a == Datum::Null),
        evaluated(Term::IsNull(Box::new(x), true), row, table) == truth(a != Datum::Null),
{
    reveal_with_fuel(evaluated, 2);
}

// --- comparisons ---

/// Values of a kind that counts compare by their places.
pub proof fn law_comparisons_count(
    l: Term,
    r: Term,
    a: Datum,
    b: Datum,
    row: Seq<Datum>,
    table: Seq<(Question, Answer)>,
)
    requires
        evaluated(l, row, table) == Ok::<Datum, Fault>(a),
        evaluated(r, row, table) == Ok::<Datum, Fault>(b),
        of_a_kind(a, b),
    ensures
        ({
            let (x, y) = (place(a)->0, place(b)->0);
            &&& operated(BinaryOperator::Eq, l, r, row, table) == truth(x == y)
            &&& operated(BinaryOperator::NotEq, l, r, row, table) == truth(x != y)
            &&& operated(BinaryOperator::Lt, l, r, row, table) == truth(x < y)
            &&& operated(BinaryOperator::LtEq, l, r, row, table) == truth(x <= y)
            &&& operated(BinaryOperator::Gt, l, r, row, table) == truth(x > y)
            &&& operated(BinaryOperator::GtEq, l, r, row, table) == truth(x >= y)
        }),
{
    reveal_with_fuel(evaluated, 2);
}

/// The exact number of an integer or a decimal: so many units of the last place, and places.
pub open spec fn exact(d: Datum) -> Option<(int, nat)> {
    match d {
        Datum::Numeric(p) => Some(
            (
                if p.negative {
                    -(p.coefficient as int)
                } else {
                    p.coefficient as int
                },
                p.scale,
            ),
        ),
        _ => match number(d) {
            Some(n) => Some((n, 0)),
            None => None,
        },
    }
}

/// Integers and decimals compare as numbers, whatever the places they are written with.
pub proof fn law_exact_numbers_compare_by_value(
    l: Term,
    r: Term,
    a: Datum,
    b: Datum,
    row: Seq<Datum>,
    table: Seq<(Question, Answer)>,
)
    requires
        evaluated(l, row, table) == Ok::<Datum, Fault>(a),
        evaluated(r, row, table) == Ok::<Datum, Fault>(b),
        exact(a) is Some,
        exact(b) is Some,
    ensures
        ({
            let x = (exact(a)->0).0 * pow10((exact(b)->0).1);
            let y = (exact(b)->0).0 * pow10((exact(a)->0).1);
            &&& operated(BinaryOperator::Eq, l, r, row, table) == truth(x == y)
            &&& operated(BinaryOperator::NotEq, l, r, row, table) == truth(x != y)
            &&& operated(BinaryOperator::Lt, l, r, row, table) == truth(x < y)
            &&& operated(BinaryOperator::LtEq, l, r, row, table) == truth(x <= y)
            &&& operated(BinaryOperator::Gt, l, r, row, table) == truth(x > y)
            &&& operated(BinaryOperator::GtEq, l, r, row, table) == truth(x >= y)
        }),
{
    reveal_with_fuel(evaluated, 2);
    assert(pow10(0) == 1);
    let x = (exact(a)->0).0;
    let y = (exact(b)->0).0;
    assert(x * pow10(0) == x) by (nonlinear_arith)
        requires
            pow10(0) == 1,
    ;
    assert(y * pow10(0) == y) by (nonlinear_arith)
        requires
            pow10(0) == 1,
    ;
}

/// Texts are equal where they are the same text, and compare as their bytes do.
pub proof fn law_texts_compare_by_bytes(
    l: Term,
    r: Term,
    s: Seq<char>,
    t: Seq<char>,
    row: Seq<Datum>,
    table: Seq<(Question, Answer)>,
)
    requires
        evaluated(l, row, table) == Ok::<Datum, Fault>(Datum::Text(s)),
        evaluated(r, row, table) == Ok::<Datum, Fault>(Datum::Text(t)),
    ensures
        operated(BinaryOperator::Eq, l, r, row, table) == truth(s == t),
        operated(BinaryOperator::NotEq, l, r, row, table) == truth(s != t),
        operated(BinaryOperator::Lt, l, r, row, table) == truth(
            lex_lt(vstd::utf8::encode_utf8(s), vstd::utf8::encode_utf8(t)),
        ),
        operated(BinaryOperator::GtEq, l, r, row, table) == truth(
            !lex_lt(vstd::utf8::encode_utf8(s), vstd::utf8::encode_utf8(t)),
        ),
{
    reveal_with_fuel(evaluated, 2);
}

/// Floats of one width compare by their places in the order of floats, in which a NaN is last
/// and equals a NaN.
pub proof fn law_floats_compare_by_rank(
    l: Term,
    r: Term,
    f: Float64,
    g: Float64,
    row: Seq<Datum>,
    table: Seq<(Question, Answer)>,
)
    requires
        evaluated(l, row, table) == Ok::<Datum, Fault>(Datum::Float64(f)),
        evaluated(r, row, table) == Ok::<Datum, Fault>(Datum::Float64(g)),
    ensures
        operated(BinaryOperator::Eq, l, r, row, table) == truth(float64_rank(f) == float64_rank(g)),
        operated(BinaryOperator::Lt, l, r, row, table) == truth(float64_rank(f) < float64_rank(g)),
        operated(BinaryOperator::Gt, l, r, row, table) == truth(float64_rank(f) > float64_rank(g)),
{
    lemma_operated(BinaryOperator::Eq, l, r, Datum::Float64(f), Datum::Float64(g), row, table);
    lemma_operated(BinaryOperator::Lt, l, r, Datum::Float64(f), Datum::Float64(g), row, table);
    lemma_operated(BinaryOperator::Gt, l, r, Datum::Float64(f), Datum::Float64(g), row, table);
}

/// Whether two values that are not null have an order: both numbers of any kind, or both of one
/// of the types that are ordered.
pub open spec fn ordered_kinds(a: Datum, b: Datum) -> bool {
    let numeric = |d: Datum| exact(d) is Some || d is Float32 || d is Float64;
    ||| numeric(a) && numeric(b)
    ||| a is Bool && b is Bool
    ||| a is Text && b is Text
    ||| a is Date && b is Date
    ||| a is Timestamp && b is Timestamp
    ||| a is Interval && b is Interval
}

/// Values of kinds without an order between them do not compare: `<`, `<=`, `>` and `>=` are
/// type errors.
pub proof fn law_unordered_values_do_not_compare(
    op: BinaryOperator,
    l: Term,
    r: Term,
    a: Datum,
    b: Datum,
    row: Seq<Datum>,
    table: Seq<(Question, Answer)>,
)
    requires
        evaluated(l, row, table) == Ok::<Datum, Fault>(a),
        evaluated(r, row, table) == Ok::<Datum, Fault>(b),
        !(a is Null),
        !(b is Null),
        op is Lt || op is LtEq || op is Gt || op is GtEq,
        !ordered_kinds(a, b),
    ensures
        operated(op, l, r, row, table) is Err,
        operated(op, l, r, row, table)->Err_0 is Type,
{
    lemma_operated(op, l, r, a, b, row, table);
}

/// Values of different kinds are not equal, unless both are numbers; values of a kind that is
/// neither a number nor a document, an interval or an array are equal where they are the same.
pub proof fn law_equality_of_other_values(
    l: Term,
    r: Term,
    a: Datum,
    b: Datum,
    row: Seq<Datum>,
    table: Seq<(Question, Answer)>,
)
    requires
        evaluated(l, row, table) == Ok::<Datum, Fault>(a),
        evaluated(r, row, table) == Ok::<Datum, Fault>(b),
        !(a is Null),
        !(b is Null),
    ensures
        a is Uuid && b is Uuid ==> operated(BinaryOperator::Eq, l, r, row, table) == truth(
            a->Uuid_0 == b->Uuid_0,
        ),
        a is Time && b is Time ==> operated(BinaryOperator::Eq, l, r, row, table) == truth(
            a->Time_0 == b->Time_0,
        ),
        a is Bytes && b is Bytes ==> operated(BinaryOperator::Eq, l, r, row, table) == truth(
            a->Bytes_0 == b->Bytes_0,
        ),
        a is Text && !(b is Text) || a is Bool && !(b is Bool) || a is Date && !(b is Date) || a
            is Timestamp && !(b is Timestamp) || a is Uuid && !(b is Uuid) || a is Time && !(b
            is Time) || a is Bytes && !(b is Bytes) || a is Json && !(b is Json) || a is Interval
            && !(b is Interval) || a is Array && !(b is Array) ==> operated(
            BinaryOperator::Eq,
            l,
            r,
            row,
            table,
        ) == truth(false),
{
    lemma_operated(BinaryOperator::Eq, l, r, a, b, row, table);
}

/// Arrays are equal where they have as many elements, and those are equal pair by pair.
pub proof fn law_equality_of_arrays(
    l: Term,
    r: Term,
    xs: Seq<Datum>,
    ys: Seq<Datum>,
    row: Seq<Datum>,
    table: Seq<(Question, Answer)>,
)
    requires
        evaluated(l, row, table) == Ok::<Datum, Fault>(Datum::Array(xs)),
        evaluated(r, row, table) == Ok::<Datum, Fault>(Datum::Array(ys)),
    ensures
        operated(BinaryOperator::Eq, l, r, row, table) == truth(
            xs.len() == ys.len() && forall|i: int|
                0 <= i < xs.len() ==> plain_same(#[trigger] xs[i], ys[i]),
        ),
{
    lemma_operated(BinaryOperator::Eq, l, r, Datum::Array(xs), Datum::Array(ys), row, table);
    reveal_with_fuel(plain_same, 2);
    if xs.len() == ys.len() {
        lemma_same_upto(xs, ys, xs.len());
    }
}

proof fn lemma_same_upto(xs: Seq<Datum>, ys: Seq<Datum>, n: nat)
    requires
        n <= xs.len(),
    ensures
        plain_same_upto(xs, ys, n) <==> forall|i: int|
            0 <= i < n ==> plain_same(#[trigger] xs[i], ys[i]),
    decreases n,
{
    if n > 0 {
        let m = (n - 1) as nat;
        lemma_same_upto(xs, ys, m);
        if forall|i: int| 0 <= i < n ==> plain_same(#[trigger] xs[i], ys[i]) {
            assert(plain_same(xs[m as int], ys[m as int]));
        }
    }
}

/// A comparison with a null is null.
pub proof fn law_nulls_do_not_compare(
    op: BinaryOperator,
    l: Term,
    r: Term,
    a: Datum,
    b: Datum,
    row: Seq<Datum>,
    table: Seq<(Question, Answer)>,
)
    requires
        evaluated(l, row, table) == Ok::<Datum, Fault>(a),
        evaluated(r, row, table) == Ok::<Datum, Fault>(b),
        a is Null || b is Null,
        op != BinaryOperator::And,
        op != BinaryOperator::Or,
    ensures
        operated(op, l, r, row, table) == Ok::<Datum, Fault>(Datum::Null),
{
    reveal_with_fuel(evaluated, 2);
}

proof fn lemma_operated(
    op: BinaryOperator,
    l: Term,
    r: Term,
    a: Datum,
    b: Datum,
    row: Seq<Datum>,
    table: Seq<(Question, Answer)>,
)
    requires
        evaluated(l, row, table) == Ok::<Datum, Fault>(a),
        evaluated(r, row, table) == Ok::<Datum, Fault>(b),
    ensures
        operated(op, l, r, row, table) == binary_value(op, a, b, table),
{
    reveal_with_fuel(evaluated, 2);
}

// --- calls ---

proof fn lemma_call_one(
    func: ScalarFunc,
    args: Seq<Term>,
    a: Datum,
    row: Seq<Datum>,
    table: Seq<(Question, Answer)>,
)
    requires
        arity(func) == Some(1nat),
        args.len() >= 1,
        evaluated(args[0], row, table) == Ok::<Datum, Fault>(a),
    ensures
        called(func, args, row, table) == call_value(func, seq![a], table),
{
    reveal_with_fuel(evaluated, 2);
    reveal_with_fuel(values_of, 2);
    assert(values_of(args, 1, row, table) == Ok::<Seq<Datum>, Fault>(Seq::empty().push(a)));
    assert(Seq::empty().push(a) =~= seq![a]);
}

proof fn lemma_call_two(
    func: ScalarFunc,
    args: Seq<Term>,
    a: Datum,
    b: Datum,
    row: Seq<Datum>,
    table: Seq<(Question, Answer)>,
)
    requires
        arity(func) == Some(2nat),
        args.len() >= 2,
        evaluated(args[0], row, table) == Ok::<Datum, Fault>(a),
        evaluated(args[1], row, table) == Ok::<Datum, Fault>(b),
    ensures
        called(func, args, row, table) == call_value(func, seq![a, b], table),
{
    reveal_with_fuel(evaluated, 2);
    reveal_with_fuel(values_of, 3);
    assert(values_of(args, 2, row, table) == Ok::<Seq<Datum>, Fault>(
        Seq::empty().push(a).push(b),
    ));
    assert(Seq::empty().push(a).push(b) =~= seq![a, b]);
}

proof fn lemma_call_three(
    func: ScalarFunc,
    args: Seq<Term>,
    a: Datum,
    b: Datum,
    c: Datum,
    row: Seq<Datum>,
    table: Seq<(Question, Answer)>,
)
    requires
        arity(func) == Some(3nat),
        args.len() >= 3,
        evaluated(args[0], row, table) == Ok::<Datum, Fault>(a),
        evaluated(args[1], row, table) == Ok::<Datum, Fault>(b),
        evaluated(args[2], row, table) == Ok::<Datum, Fault>(c),
    ensures
        called(func, args, row, table) == call_value(func, seq![a, b, c], table),
{
    reveal_with_fuel(evaluated, 2);
    reveal_with_fuel(values_of, 4);
    assert(values_of(args, 3, row, table) == Ok::<Seq<Datum>, Fault>(
        Seq::empty().push(a).push(b).push(c),
    ));
    assert(Seq::empty().push(a).push(b).push(c) =~= seq![a, b, c]);
}

/// Whether two data are of one variant among the numbers.
pub open spec fn same_width(a: Datum, b: Datum) -> bool {
    (a is Int16 && b is Int16) || (a is Int32 && b is Int32) || (a is Int64 && b is Int64)
}

/// Whether a number is one of an integer's own type.
pub open spec fn in_width(a: Datum, n: int) -> bool {
    match a {
        Datum::Int16(_) => -0x8000 <= n <= 0x7fff,
        Datum::Int32(_) => -0x8000_0000 <= n <= 0x7fff_ffff,
        _ => -0x8000_0000_0000_0000 <= n <= 0x7fff_ffff_ffff_ffff,
    }
}

/// `-x` and `x` sum to zero, in the type of `x`; where that has no such number it is an error.
/// A decimal keeps its digits and places and changes its sign, a null stays null.
pub proof fn law_negation(
    x: Term,
    a: Datum,
    row: Seq<Datum>,
    table: Seq<(Question, Answer)>,
)
    requires
        evaluated(x, row, table) == Ok::<Datum, Fault>(a),
    ensures
        ({
            let r = evaluated(Term::Neg(Box::new(x)), row, table);
            &&& number(a) is Some && in_width(a, -(number(a)->0)) ==> r is Ok && same_width(
                a,
                r->Ok_0,
            ) && number(r->Ok_0)->0 + number(a)->0 == 0
            &&& number(a) is Some && !in_width(a, -(number(a)->0)) ==> r is Err && r->Err_0 is Type
            &&& a is Numeric ==> r is Ok && r->Ok_0 is Numeric && (exact(r->Ok_0)->0).0 + (exact(
                a,
            )->0).0 == 0 && (exact(r->Ok_0)->0).1 == (exact(a)->0).1
            &&& a is Float64 ==> r is Ok && r->Ok_0 is Float64 && (a->Float64_0.bits
                - r->Ok_0->Float64_0.bits == 0x8000_0000_0000_0000 || r->Ok_0->Float64_0.bits
                - a->Float64_0.bits == 0x8000_0000_0000_0000)
            &&& a is Float32 ==> r is Ok && r->Ok_0 is Float32 && (a->Float32_0.bits
                - r->Ok_0->Float32_0.bits == 0x8000_0000 || r->Ok_0->Float32_0.bits
                - a->Float32_0.bits == 0x8000_0000)
            &&& a is Null ==> r == Ok::<Datum, Fault>(Datum::Null)
        }),
{
    reveal_with_fuel(evaluated, 2);
}

/// `ABS` gives the number or its opposite, whichever is not negative, in the same type; where
/// the type has no such number it is an error.
pub proof fn law_abs(
    args: Seq<Term>,
    a: Datum,
    row: Seq<Datum>,
    table: Seq<(Question, Answer)>,
)
    requires
        args.len() >= 1,
        evaluated(args[0], row, table) == Ok::<Datum, Fault>(a),
    ensures
        ({
            let r = called(ScalarFunc::Abs, args, row, table);
            &&& number(a) is Some && (number(a)->0 >= 0 || in_width(a, -(number(a)->0)))
                ==> r is Ok && same_width(a, r->Ok_0) && number(r->Ok_0)->0 >= 0 && (number(
                r->Ok_0,
            ) == number(a) || number(r->Ok_0)->0 == -(number(a)->0))
            &&& number(a) is Some && !(number(a)->0 >= 0 || in_width(a, -(number(a)->0)))
                ==> r is Err && r->Err_0 is Type
            &&& a is Numeric ==> r is Ok && r->Ok_0 is Numeric && (exact(r->Ok_0)->0).0 >= 0 && ((
            exact(r->Ok_0)->0).0 == (exact(a)->0).0 || (exact(r->Ok_0)->0).0 == -(exact(a)->0).0)
                && (exact(r->Ok_0)->0).1 == (exact(a)->0).1
            &&& a is Float64 ==> r is Ok && r->Ok_0 is Float64 && r->Ok_0->Float64_0.bits
                < 0x8000_0000_0000_0000 && (r->Ok_0 == a || a->Float64_0.bits
                - r->Ok_0->Float64_0.bits == 0x8000_0000_0000_0000)
            &&& a is Float32 ==> r is Ok && r->Ok_0 is Float32 && r->Ok_0->Float32_0.bits
                < 0x8000_0000 && (r->Ok_0 == a || a->Float32_0.bits - r->Ok_0->Float32_0.bits
                == 0x8000_0000)
            &&& a is Null ==> r == Ok::<Datum, Fault>(Datum::Null)
        }),
{
    lemma_call_one(ScalarFunc::Abs, args, a, row, table);
}

/// `LENGTH` counts the characters of a text.
pub proof fn law_length(
    args: Seq<Term>,
    s: Seq<char>,
    row: Seq<Datum>,
    table: Seq<(Question, Answer)>,
)
    requires
        args.len() >= 1,
        evaluated(args[0], row, table) == Ok::<Datum, Fault>(Datum::Text(s)),
        s.len() <= i64::MAX,
    ensures
        ({
            let r = called(ScalarFunc::Length, args, row, table);
            r is Ok && r->Ok_0 is Int64 && r->Ok_0->Int64_0 == s.len()
        }),
{
    lemma_call_one(ScalarFunc::Length, args, Datum::Text(s), row, table);
}

/// `UPPER` gives the upper-case form of a text, `LOWER` the lower-case form.
pub proof fn law_letter_case(
    args: Seq<Term>,
    s: Seq<char>,
    row: Seq<Datum>,
    table: Seq<(Question, Answer)>,
)
    requires
        args.len() >= 1,
        evaluated(args[0], row, table) == Ok::<Datum, Fault>(Datum::Text(s)),
    ensures
        called(ScalarFunc::Upper, args, row, table) == Ok::<Datum, Fault>(
            Datum::Text(uppercased(s)),
        ),
        called(ScalarFunc::Lower, args, row, table) == Ok::<Datum, Fault>(
            Datum::Text(lowercased(s)),
        ),
{
    lemma_call_one(ScalarFunc::Upper, args, Datum::Text(s), row, table);
    lemma_call_one(ScalarFunc::Lower, args, Datum::Text(s), row, table);
}

proof fn lemma_repeated(s: Seq<char>, n: nat)
    ensures
        repeated(s, n).len() == n * s.len(),
        forall|i: int| 0 <= i < repeated(s, n).len() ==> #[trigger] repeated(s, n)[i] == s[i % (s.len() as int)],
    decreases n,
{
    if n > 0 {
        let m = (n - 1) as nat;
        let before = repeated(s, m);
        lemma_repeated(s, m);
        assert((m + 1) * s.len() == m * s.len() + s.len()) by (nonlinear_arith);
        let all = before + s;
        assert forall|i: int| 0 <= i < all.len() implies #[trigger] all[i] == s[i % (
        s.len() as int)] by {
            if i < before.len() {
                assert(all[i] == before[i]);
            } else {
                let k = i - before.len();
                assert(all[i] == s[k]);
                let w = s.len() as int;
                assert(i == w * m + k) by {
                    assert(m * s.len() == w * m) by (nonlinear_arith)
                        requires
                            w == s.len(),
                    ;
                }
                vstd::arithmetic::div_mod::lemma_fundamental_div_mod_converse(i, w, m as int, k);
            }
        }
    } else {
        assert(0 * s.len() == 0) by (nonlinear_arith);
    }
}

/// `REPEAT` gives so many copies of a text, one after the other, and none for a count that is
/// not positive.
pub proof fn law_repeat(
    args: Seq<Term>,
    s: Seq<char>,
    b: Datum,
    row: Seq<Datum>,
    table: Seq<(Question, Answer)>,
)
    requires
        args.len() >= 2,
        evaluated(args[0], row, table) == Ok::<Datum, Fault>(Datum::Text(s)),
        evaluated(args[1], row, table) == Ok::<Datum, Fault>(b),
        number(b) is Some,
    ensures
        ({
            let r = called(ScalarFunc::Repeat, args, row, table);
            let n = number(b)->0;
            &&& r is Ok && r->Ok_0 is Text
            &&& n <= 0 ==> r->Ok_0->Text_0.len() == 0
            &&& n > 0 ==> r->Ok_0->Text_0.len() == n * s.len()
            &&& forall|i: int|
                0 <= i < r->Ok_0->Text_0.len() ==> #[trigger] r->Ok_0->Text_0[i] == s[i % (
                s.len() as int)]
        }),
{
    lemma_call_two(ScalarFunc::Repeat, args, Datum::Text(s), b, row, table);
    let n = number(b)->0;
    lemma_repeated(
        s,
        if n < 0 {
            0
        } else {
            n as nat
        },
    );
    assert(0 * s.len() == 0) by (nonlinear_arith);
}

/// Whether `u` is what stands in `s` from behind its first `from` characters on, and those are
/// the characters at the places from `start` on, `count` of them at most: those and no others.
pub open spec fn is_cut(s: Seq<char>, u: Seq<char>, start: int, count: int, from: int) -> bool {
    &&& 0 <= from && from + u.len() <= s.len()
    &&& u == s.subrange(from, from + u.len())
    &&& forall|at: int|
        #![trigger s[at]]
        0 <= at < s.len() ==> (from <= at < from + u.len() <==> start <= at + 1 < start + count)
}

proof fn lemma_cut(s: Seq<char>, start: int, count: int) -> (from: int)
    ensures
        is_cut(s, substring(s, start, count), start, count, from),
{
    let u = substring(s, start, count);
    let from = if u.len() == 0 || start < 1 {
        0
    } else {
        start - 1
    };
    assert(u =~= s.subrange(from, from + u.len()));
    from
}

/// `SUBSTRING` gives the characters at the places from `start` on, as many as asked for: those
/// and no others, in their order. Places count from one.
pub proof fn law_substring(
    args: Seq<Term>,
    s: Seq<char>,
    b: Datum,
    c: Datum,
    row: Seq<Datum>,
    table: Seq<(Question, Answer)>,
) -> (from: int)
    requires
        args.len() >= 3,
        evaluated(args[0], row, table) == Ok::<Datum, Fault>(Datum::Text(s)),
        evaluated(args[1], row, table) == Ok::<Datum, Fault>(b),
        evaluated(args[2], row, table) == Ok::<Datum, Fault>(c),
        number(b) is Some,
        number(c) is Some,
    ensures
        ({
            let r = called(ScalarFunc::Substr, args, row, table);
            &&& r is Ok && r->Ok_0 is Text
            &&& is_cut(s, r->Ok_0->Text_0, number(b)->0, number(c)->0, from)
        }),
{
    lemma_call_three(ScalarFunc::Substr, args, Datum::Text(s), b, c, row, table);
    let vals = seq![Datum::Text(s), b, c];
    assert(vals[0] == Datum::Text(s) && vals[1] == b && vals[2] == c);
    let (start, count) = (number(b)->0, number(c)->0);
    assert(substr_value(Datum::Text(s), b, c) == Ok::<Datum, Fault>(
        Datum::Text(substring(s, start, count)),
    ));
    assert(called(ScalarFunc::Substr, args, row, table) == Ok::<Datum, Fault>(
        Datum::Text(substring(s, start, count)),
    ));
    lemma_cut(s, start, count)
}

proof fn lemma_strip_start(s: Seq<char>, drop: spec_fn(char) -> bool) -> (n: int)
    ensures
        0 <= n <= s.len(),
        strip_start(s, drop) == s.skip(n),
        forall|i: int| 0 <= i < n ==> drop(#[trigger] s[i]),
        n < s.len() ==> !drop(s[n]),
    decreases s.len(),
{
    if s.len() > 0 && drop(s[0]) {
        let m = lemma_strip_start(s.drop_first(), drop);
        assert(s.drop_first().skip(m) =~= s.skip(m + 1));
        assert forall|i: int| 0 <= i < m + 1 implies drop(#[trigger] s[i]) by {
            if i > 0 {
                assert(s.drop_first()[i - 1] == s[i]);
            }
        }
        m + 1
    } else {
        assert(s.skip(0) =~= s);
        0
    }
}

proof fn lemma_strip_end(s: Seq<char>, drop: spec_fn(char) -> bool) -> (n: int)
    ensures
        0 <= n <= s.len(),
        strip_end(s, drop) == s.take(n),
        forall|i: int| n <= i < s.len() ==> drop(#[trigger] s[i]),
        n > 0 ==> !drop(s[n - 1]),
    decreases s.len(),
{
    if s.len() > 0 && drop(s.last()) {
        let m = lemma_strip_end(s.drop_last(), drop);
        assert(s.drop_last().take(m) =~= s.take(m));
        assert forall|i: int| m <= i < s.len() implies drop(#[trigger] s[i]) by {
            if i < s.len() - 1 {
                assert(s.drop_last()[i] == s[i]);
            }
        }
        m
    } else {
        assert(s.take(s.len() as int) =~= s);
        s.len() as int
    }
}

/// Whether `u` is `s` with characters of a set taken off its ends, as far as there are any, and
/// nothing else: from the front only where `leading` says so, from the back only where
/// `trailing` does.
pub open spec fn is_trimmed(
    s: Seq<char>,
    u: Seq<char>,
    set: Seq<char>,
    leading: bool,
    trailing: bool,
    a: int,
    b: int,
) -> bool {
    &&& 0 <= a <= b <= s.len()
    &&& u == s.subrange(a, b)
    &&& forall|i: int| 0 <= i < a || b <= i < s.len() ==> set.contains(#[trigger] s[i])
    &&& !leading ==> a == 0
    &&& !trailing ==> b == s.len()
    &&& leading && u.len() > 0 ==> !set.contains(u[0])
    &&& trailing && u.len() > 0 ==> !set.contains(u.last())
}

proof fn lemma_trim(s: Seq<char>, set: Seq<char>, leading: bool, trailing: bool) -> (ends: (
    int,
    int,
))
    ensures
        is_trimmed(s, trim_of(s, set, leading, trailing), set, leading, trailing, ends.0, ends.1),
{
    let drop = |c: char| set.contains(c);
    let a = if leading {
        lemma_strip_start(s, drop)
    } else {
        assert(s.skip(0) =~= s);
        0
    };
    let front = s.skip(a);
    let b = if trailing {
        a + lemma_strip_end(front, drop)
    } else {
        s.len() as int
    };
    let u = trim_of(s, set, leading, trailing);
    assert(u =~= s.subrange(a, b));
    assert forall|i: int| 0 <= i < a || b <= i < s.len() implies set.contains(#[trigger] s[i]) by {
        if i >= a {
            assert(front[i - a] == s[i]);
            assert(drop(front[i - a]));
        } else {
            assert(drop(s[i]));
        }
    }
    if leading && u.len() > 0 {
        assert(!drop(s[a]));
    }
    if trailing && u.len() > 0 {
        assert(front[b - a - 1] == s[b - 1]);
        assert(!drop(front[b - a - 1]));
    }
    (a, b)
}

/// `TRIM` takes the characters of a set off both ends of a text, `TRIM LEADING` off its front
/// alone and `TRIM TRAILING` off its back alone. `ends` are where what is left begins and ends.
pub proof fn law_trim(
    func: ScalarFunc,
    args: Seq<Term>,
    s: Seq<char>,
    set: Seq<char>,
    row: Seq<Datum>,
    table: Seq<(Question, Answer)>,
) -> (ends: (int, int))
    requires
        func is TrimBoth || func is TrimLeading || func is TrimTrailing,
        args.len() >= 2,
        evaluated(args[0], row, table) == Ok::<Datum, Fault>(Datum::Text(s)),
        evaluated(args[1], row, table) == Ok::<Datum, Fault>(Datum::Text(set)),
    ensures
        ({
            let r = called(func, args, row, table);
            &&& r is Ok && r->Ok_0 is Text
            &&& is_trimmed(
                s,
                r->Ok_0->Text_0,
                set,
                func is TrimBoth || func is TrimLeading,
                func is TrimBoth || func is TrimTrailing,
                ends.0,
                ends.1,
            )
        }),
{
    let (x, y) = (Datum::Text(s), Datum::Text(set));
    let (leading, trailing) = (!(func is TrimTrailing), !(func is TrimLeading));
    lemma_call_two(func, args, x, y, row, table);
    let vals = seq![x, y];
    assert(vals[0] == x && vals[1] == y);
    assert(call_value(func, vals, table) == trim_value(x, y, leading, trailing));
    assert(called(func, args, row, table) == Ok::<Datum, Fault>(
        Datum::Text(trim_of(s, set, leading, trailing)),
    ));
    lemma_trim(s, set, leading, trailing)
}

/// A text function of a null is null.
pub proof fn law_text_functions_of_null(
    func: ScalarFunc,
    args: Seq<Term>,
    a: Datum,
    b: Datum,
    c: Datum,
    row: Seq<Datum>,
    table: Seq<(Question, Answer)>,
)
    requires
        args.len() >= 3,
        evaluated(args[0], row, table) == Ok::<Datum, Fault>(a),
        evaluated(args[1], row, table) == Ok::<Datum, Fault>(b),
        evaluated(args[2], row, table) == Ok::<Datum, Fault>(c),
        func is Length || func is Upper || func is Lower || func is Ceil || func is Floor
            || func is Round ==> a is Null,
        func is Repeat || func is TrimBoth || func is TrimLeading || func is TrimTrailing
            ==> a is Null || b is Null,
        func is Substr ==> a is Null || b is Null || c is Null,
        func is Length || func is Upper || func is Lower || func is Ceil || func is Floor
            || func is Round || func is Repeat || func is TrimBoth || func is TrimLeading
            || func is TrimTrailing || func is Substr,
    ensures
        called(func, args, row, table) == Ok::<Datum, Fault>(Datum::Null),
{
    if arity(func) == Some(1nat) {
        lemma_call_one(func, args, a, row, table);
    } else if arity(func) == Some(2nat) {
        lemma_call_two(func, args, a, b, row, table);
    } else {
        lemma_call_three(func, args, a, b, c, row, table);
    }
}

proof fn lemma_null_is_only_null(a: Datum, b: Datum, table: Seq<(Question, Answer)>)
    requires
        a is Null || b is Null,
    ensures
        values_same(a, b, table) == Ok::<bool, Fault>(a is Null && b is Null),
{
}

/// `NULLIF` gives a null where its arguments are equal, and its first argument otherwise.
pub proof fn law_nullif(
    args: Seq<Term>,
    a: Datum,
    b: Datum,
    row: Seq<Datum>,
    table: Seq<(Question, Answer)>,
)
    requires
        args.len() >= 2,
        evaluated(args[0], row, table) == Ok::<Datum, Fault>(a),
        evaluated(args[1], row, table) == Ok::<Datum, Fault>(b),
    ensures
        ({
            let r = called(ScalarFunc::Nullif, args, row, table);
            let same = operated(BinaryOperator::Eq, args[0], args[1], row, table);
            &&& same == truth(true) ==> r == Ok::<Datum, Fault>(Datum::Null)
            &&& same == truth(false) ==> r == Ok::<Datum, Fault>(a)
            &&& same is Err ==> r == same
            &&& a is Null || b is Null ==> r == Ok::<Datum, Fault>(a)
        }),
{
    lemma_call_two(ScalarFunc::Nullif, args, a, b, row, table);
    let vals = seq![a, b];
    assert(vals[0] == a && vals[1] == b);
    assert(called(ScalarFunc::Nullif, args, row, table) == nullif_value(a, b, table));
    lemma_operated(BinaryOperator::Eq, args[0], args[1], a, b, row, table);
    if a is Null || b is Null {
        lemma_null_is_only_null(a, b, table);
    }
}

/// `COALESCE` gives the first of its arguments that is not null, without a look at the others,
/// and a null where all are.
pub proof fn law_coalesce(args: Seq<Term>, row: Seq<Datum>, table: Seq<(Question, Answer)>)
    ensures
        ({
            let r = called(ScalarFunc::Coalesce, args, row, table);
            ||| r == Ok::<Datum, Fault>(Datum::Null) && nulls_before(
                args,
                args.len() as int,
                row,
                table,
            )
            ||| r != Ok::<Datum, Fault>(Datum::Null) && exists|i: int|
                0 <= i < args.len() && evaluated(#[trigger] args[i], row, table) == r
                    && nulls_before(args, i, row, table)
        }),
{
    lemma_first(args, args.len(), row, table);
    reveal_with_fuel(evaluated, 2);
}

/// Whether the first `n` arguments are null.
pub open spec fn nulls_before(
    args: Seq<Term>,
    n: int,
    row: Seq<Datum>,
    table: Seq<(Question, Answer)>,
) -> bool {
    forall|i: int|
        0 <= i < n ==> evaluated(#[trigger] args[i], row, table) == Ok::<Datum, Fault>(Datum::Null)
}

proof fn lemma_first(args: Seq<Term>, n: nat, row: Seq<Datum>, table: Seq<(Question, Answer)>)
    requires
        n <= args.len(),
    ensures
        ({
            let r = first_non_null(args, n, row, table);
            ||| r == Ok::<Datum, Fault>(Datum::Null) && nulls_before(args, n as int, row, table)
            ||| r != Ok::<Datum, Fault>(Datum::Null) && exists|i: int|
                0 <= i < n && evaluated(#[trigger] args[i], row, table) == r && nulls_before(
                    args,
                    i,
                    row,
                    table,
                )
        }),
    decreases n,
{
    if n > 0 {
        let m = (n - 1) as nat;
        lemma_first(args, m, row, table);
        let r = first_non_null(args, n, row, table);
        if first_non_null(args, m, row, table) == Ok::<Datum, Fault>(Datum::Null) {
            assert(r == evaluated(args[m as int], row, table));
        } else {
            assert(r == first_non_null(args, m, row, table));
        }
    }
}

/// `GREATEST` and `LEAST` of integers, nulls left out: one of the arguments, and no argument
/// greater, or less; a null where all are null.
pub proof fn law_extremes_of_integers(
    args: Seq<Term>,
    greatest: bool,
    row: Seq<Datum>,
    table: Seq<(Question, Answer)>,
)
    requires
        forall|i: int|
            0 <= i < args.len() ==> evaluated(#[trigger] args[i], row, table) is Ok && (number(
                evaluated(args[i], row, table)->Ok_0,
            ) is Some || evaluated(args[i], row, table)->Ok_0 is Null),
    ensures
        ({
            let r = called(
                if greatest {
                    ScalarFunc::Greatest
                } else {
                    ScalarFunc::Least
                },
                args,
                row,
                table,
            );
            &&& r is Ok
            &&& r->Ok_0 is Null <==> nulls_before(args, args.len() as int, row, table)
            &&& !(r->Ok_0 is Null) ==> exists|i: int|
                0 <= i < args.len() && evaluated(#[trigger] args[i], row, table) == r
            &&& !(r->Ok_0 is Null) ==> forall|i: int|
                0 <= i < args.len() && !(evaluated(#[trigger] args[i], row, table)->Ok_0 is Null)
                    ==> if greatest {
                    number(evaluated(args[i], row, table)->Ok_0)->0 <= number(r->Ok_0)->0
                } else {
                    number(r->Ok_0)->0 <= number(evaluated(args[i], row, table)->Ok_0)->0
                }
        }),
{
    lemma_best(args, args.len(), greatest, row, table);
    reveal_with_fuel(evaluated, 2);
    reveal_with_fuel(extreme, 2);
    let best = best_of(args, args.len(), greatest, row, table)->Ok_0;
    if best is Some {
        let i = choose|i: int|
            0 <= i < args.len() && evaluated(#[trigger] args[i], row, table) == Ok::<Datum, Fault>(
                best->0,
            );
        assert(evaluated(args[i], row, table) == Ok::<Datum, Fault>(best->0));
    }
}

proof fn lemma_better(
    best: Option<Datum>,
    d: Datum,
    greatest: bool,
    table: Seq<(Question, Answer)>,
)
    requires
        best is Some ==> number(best->0) is Some,
        number(d) is Some || d is Null,
    ensures
        ({
            let r = better(best, d, greatest, table);
            &&& r is Ok
            &&& d is Null ==> r->Ok_0 == best
            &&& !(d is Null) ==> r->Ok_0 is Some && number(r->Ok_0->0) is Some && (r->Ok_0->0 == d
                || r->Ok_0 == best)
            &&& !(d is Null) ==> if greatest {
                number(d)->0 <= number(r->Ok_0->0)->0
            } else {
                number(r->Ok_0->0)->0 <= number(d)->0
            }
            &&& !(d is Null) && best is Some ==> if greatest {
                number(best->0)->0 <= number(r->Ok_0->0)->0
            } else {
                number(r->Ok_0->0)->0 <= number(best->0)->0
            }
        }),
{
}

#[verifier::rlimit(80)]
#[verifier::spinoff_prover]
proof fn lemma_best(
    args: Seq<Term>,
    n: nat,
    greatest: bool,
    row: Seq<Datum>,
    table: Seq<(Question, Answer)>,
)
    requires
        n <= args.len(),
        forall|i: int|
            0 <= i < args.len() ==> evaluated(#[trigger] args[i], row, table) is Ok && (number(
                evaluated(args[i], row, table)->Ok_0,
            ) is Some || evaluated(args[i], row, table)->Ok_0 is Null),
    ensures
        ({
            let r = best_of(args, n, greatest, row, table);
            &&& r is Ok
            &&& r->Ok_0 is None <==> nulls_before(args, n as int, row, table)
            &&& r->Ok_0 is Some ==> number(r->Ok_0->0) is Some
            &&& r->Ok_0 is Some ==> exists|i: int|
                0 <= i < n && evaluated(#[trigger] args[i], row, table) == Ok::<Datum, Fault>(
                    r->Ok_0->0,
                )
            &&& r->Ok_0 is Some ==> forall|i: int|
                0 <= i < n && !(evaluated(#[trigger] args[i], row, table)->Ok_0 is Null)
                    ==> if greatest {
                    number(evaluated(args[i], row, table)->Ok_0)->0 <= number(r->Ok_0->0)->0
                } else {
                    number(r->Ok_0->0)->0 <= number(evaluated(args[i], row, table)->Ok_0)->0
                }
        }),
    decreases n,
{
    if n > 0 {
        let m = (n - 1) as nat;
        lemma_best(args, m, greatest, row, table);
        let before = best_of(args, m, greatest, row, table)->Ok_0;
        let d = evaluated(args[m as int], row, table)->Ok_0;
        lemma_better(before, d, greatest, table);
        let r = best_of(args, n, greatest, row, table);
        assert(r == better(before, d, greatest, table));
        assert(evaluated(args[m as int], row, table) == Ok::<Datum, Fault>(d));
        if before is Some {
            let i = choose|i: int|
                0 <= i < m && evaluated(#[trigger] args[i], row, table) == Ok::<Datum, Fault>(
                    before->0,
                );
            assert(evaluated(args[i], row, table) == Ok::<Datum, Fault>(before->0));
            assert(!nulls_before(args, n as int, row, table));
        } else {
            assert(nulls_before(args, m as int, row, table));
            if d is Null {
                assert(nulls_before(args, n as int, row, table));
            }
        }
    }
}

/// Of two values that compare, `GREATEST` gives the second where the first is less, and the
/// first otherwise; `LEAST` the second where the first is greater. A null does not compete.
pub proof fn law_extremes_of_two(
    x: Term,
    y: Term,
    a: Datum,
    b: Datum,
    row: Seq<Datum>,
    table: Seq<(Question, Answer)>,
)
    requires
        evaluated(x, row, table) == Ok::<Datum, Fault>(a),
        evaluated(y, row, table) == Ok::<Datum, Fault>(b),
    ensures
        ({
            let g = called(ScalarFunc::Greatest, seq![x, y], row, table);
            let l = called(ScalarFunc::Least, seq![x, y], row, table);
            let less = operated(BinaryOperator::Lt, x, y, row, table);
            let more = operated(BinaryOperator::Gt, x, y, row, table);
            &&& a is Null ==> g == Ok::<Datum, Fault>(b) && l == Ok::<Datum, Fault>(b)
            &&& b is Null ==> g == Ok::<Datum, Fault>(a) && l == Ok::<Datum, Fault>(a)
            &&& less == truth(true) ==> g == Ok::<Datum, Fault>(b) && l == Ok::<Datum, Fault>(a)
            &&& more == truth(true) ==> g == Ok::<Datum, Fault>(a) && l == Ok::<Datum, Fault>(b)
            &&& less == truth(false) ==> g == Ok::<Datum, Fault>(a)
            &&& more == truth(false) ==> l == Ok::<Datum, Fault>(a)
            &&& less is Err ==> g == less && l == less
        }),
{
    lemma_best_of_two(x, y, a, b, true, row, table);
    lemma_best_of_two(x, y, a, b, false, row, table);
    lemma_operated(BinaryOperator::Lt, x, y, a, b, row, table);
    lemma_operated(BinaryOperator::Gt, x, y, a, b, row, table);
}

proof fn lemma_best_of_two(
    x: Term,
    y: Term,
    a: Datum,
    b: Datum,
    greatest: bool,
    row: Seq<Datum>,
    table: Seq<(Question, Answer)>,
)
    requires
        evaluated(x, row, table) == Ok::<Datum, Fault>(a),
        evaluated(y, row, table) == Ok::<Datum, Fault>(b),
    ensures
        called(
            if greatest {
                ScalarFunc::Greatest
            } else {
                ScalarFunc::Least
            },
            seq![x, y],
            row,
            table,
        ) == if a is Null {
            Ok::<Datum, Fault>(b)
        } else if b is Null {
            Ok(a)
        } else {
            match values_order(a, b, table) {
                Err(e) => Err(e),
                Ok(o) => if greatest {
                    if o == Order::Less {
                        Ok(b)
                    } else {
                        Ok(a)
                    }
                } else {
                    if o == Order::Greater {
                        Ok(b)
                    } else {
                        Ok(a)
                    }
                },
            }
        },
{
    let args = seq![x, y];
    assert(args[0] == x && args[1] == y);
    let first = if a is Null {
        None
    } else {
        Some(a)
    };
    assert(best_of(args, 0, greatest, row, table) == Ok::<Option<Datum>, Fault>(None));
    assert(best_of(args, 1, greatest, row, table) == better(None, a, greatest, table)) by {
        reveal_with_fuel(best_of, 2);
        assert(evaluated(args[0], row, table) == Ok::<Datum, Fault>(a));
    }
    assert(best_of(args, 2, greatest, row, table) == better(first, b, greatest, table)) by {
        reveal_with_fuel(best_of, 2);
        assert(evaluated(args[1], row, table) == Ok::<Datum, Fault>(b));
    }
    assert(called(
        if greatest {
            ScalarFunc::Greatest
        } else {
            ScalarFunc::Least
        },
        args,
        row,
        table,
    ) == extreme(args, 2, greatest, row, table)) by {
        reveal_with_fuel(evaluated, 2);
    }
    assert(extreme(args, 2, greatest, row, table) == match best_of(args, 2, greatest, row, table) {
        Err(f) => Err::<Datum, Fault>(f),
        Ok(Some(d)) => Ok(d),
        Ok(None) => Ok(Datum::Null),
    }) by {
        reveal_with_fuel(extreme, 2);
    }
}

/// `CONCAT` of nothing is the empty text, and one more argument adds its text at the end; a
/// null adds nothing.
pub proof fn law_concat_appends(
    args: Seq<Term>,
    x: Term,
    d: Datum,
    s: Seq<char>,
    row: Seq<Datum>,
    table: Seq<(Question, Answer)>,
)
    requires
        called(ScalarFunc::Concat, args, row, table) == Ok::<Datum, Fault>(Datum::Text(s)),
        evaluated(x, row, table) == Ok::<Datum, Fault>(d),
    ensures
        called(ScalarFunc::Concat, Seq::empty(), row, table) == Ok::<Datum, Fault>(
            Datum::Text(Seq::empty()),
        ),
        ({
            let r = called(ScalarFunc::Concat, args.push(x), row, table);
            &&& d is Null ==> r == Ok::<Datum, Fault>(Datum::Text(s))
            &&& d is Text ==> r == Ok::<Datum, Fault>(Datum::Text(s + d->Text_0))
            &&& !(d is Null) && text_of(d, table) is Ok ==> r == Ok::<Datum, Fault>(
                Datum::Text(s + text_of(d, table)->Ok_0),
            )
        }),
{
    let more = args.push(x);
    lemma_concat_prefix(args, more, args.len(), row, table);
    reveal_with_fuel(evaluated, 2);
    reveal_with_fuel(concatenated, 2);
    assert(more[args.len() as int] == x);
    assert(concatenated(more, args.len(), row, table) == Ok::<Seq<char>, Fault>(s));
    assert(s + Seq::<char>::empty() =~= s);
}

proof fn lemma_concat_prefix(
    args: Seq<Term>,
    more: Seq<Term>,
    n: nat,
    row: Seq<Datum>,
    table: Seq<(Question, Answer)>,
)
    requires
        n <= args.len() <= more.len(),
        forall|i: int| 0 <= i < args.len() ==> args[i] == #[trigger] more[i],
    ensures
        concatenated(args, n, row, table) == concatenated(more, n, row, table),
    decreases n,
{
    if n > 0 {
        lemma_concat_prefix(args, more, (n - 1) as nat, row, table);
        assert(args[n - 1] == more[n - 1]);
    }
}

/// `||` puts the text of its right operand behind that of its left one.
pub proof fn law_concatenation(
    l: Term,
    r: Term,
    a: Datum,
    b: Datum,
    row: Seq<Datum>,
    table: Seq<(Question, Answer)>,
)
    requires
        evaluated(l, row, table) == Ok::<Datum, Fault>(a),
        evaluated(r, row, table) == Ok::<Datum, Fault>(b),
        !(a is Null),
        !(b is Null),
    ensures
        a is Text && b is Text ==> operated(BinaryOperator::Concat, l, r, row, table) == Ok::<
            Datum,
            Fault,
        >(Datum::Text(a->Text_0 + b->Text_0)),
        text_of(a, table) is Ok && text_of(b, table) is Ok ==> operated(
            BinaryOperator::Concat,
            l,
            r,
            row,
            table,
        ) == Ok::<Datum, Fault>(
            Datum::Text(text_of(a, table)->Ok_0 + text_of(b, table)->Ok_0),
        ),
{
    reveal_with_fuel(evaluated, 2);
}

// --- choices ---

/// Whether the conditions of the first `n` branches have values, none of them true.
pub open spec fn none_true(
    branches: Seq<(Term, Term)>,
    n: int,
    row: Seq<Datum>,
    table: Seq<(Question, Answer)>,
) -> bool {
    forall|i: int|
        0 <= i < n ==> evaluated((#[trigger] branches[i]).0, row, table) is Ok && evaluated(
            branches[i].0,
            row,
            table,
        ) != truth(true)
}

proof fn lemma_chosen(
    branches: Seq<(Term, Term)>,
    n: nat,
    i: int,
    row: Seq<Datum>,
    table: Seq<(Question, Answer)>,
)
    requires
        n <= branches.len(),
        0 <= i <= n,
        none_true(branches, i, row, table),
        i < n ==> evaluated(branches[i].0, row, table) == truth(true),
    ensures
        i == n ==> chosen(branches, n, row, table) == Ok::<Option<Datum>, Fault>(None),
        i < n ==> chosen(branches, n, row, table) == match evaluated(branches[i].1, row, table) {
            Ok(d) => Ok::<Option<Datum>, Fault>(Some(d)),
            Err(f) => Err(f),
        },
    decreases n,
{
    if n > 0 {
        let m = (n - 1) as nat;
        if i < n {
            if i < m {
                lemma_chosen(branches, m, i, row, table);
            } else {
                lemma_chosen(branches, m, m as int, row, table);
            }
        } else {
            lemma_chosen(branches, m, m as int, row, table);
            assert(evaluated(branches[m as int].0, row, table) is Ok);
        }
    }
}

/// `CASE` gives the result of the first branch whose condition is true: a condition that is
/// false or null does not count. Where none is true it gives the `ELSE` result, or a null.
pub proof fn law_case(
    branches: Seq<(Term, Term)>,
    alt: Option<Box<Term>>,
    i: int,
    row: Seq<Datum>,
    table: Seq<(Question, Answer)>,
)
    requires
        0 <= i <= branches.len(),
        none_true(branches, i, row, table),
        i < branches.len() ==> evaluated(branches[i].0, row, table) == truth(true),
    ensures
        ({
            let r = evaluated(Term::Case(branches, alt), row, table);
            &&& i < branches.len() ==> r == evaluated(branches[i].1, row, table)
            &&& i == branches.len() && alt is Some ==> r == evaluated(*alt->0, row, table)
            &&& i == branches.len() && alt is None ==> r == Ok::<Datum, Fault>(Datum::Null)
        }),
{
    lemma_chosen(branches, branches.len(), i, row, table);
    reveal_with_fuel(evaluated, 2);
}

/// `LIKE` tells whether the text matches the pattern, `NOT LIKE` whether it does not.
pub proof fn law_like_and_not_like(
    x: Term,
    y: Term,
    t: Seq<char>,
    p: Seq<char>,
    row: Seq<Datum>,
    table: Seq<(Question, Answer)>,
)
    requires
        evaluated(x, row, table) == Ok::<Datum, Fault>(Datum::Text(t)),
        evaluated(y, row, table) == Ok::<Datum, Fault>(Datum::Text(p)),
    ensures
        evaluated(Term::Like(Box::new(x), Box::new(y), false), row, table) == truth(like(t, p)),
        evaluated(Term::Like(Box::new(x), Box::new(y), true), row, table) == truth(!like(t, p)),
{
    reveal_with_fuel(evaluated, 2);
}

/// A character of a pattern that is no wildcard stands for itself.
pub proof fn law_plain_character_matches_itself(t: Seq<char>, c: char, p: Seq<char>)
    requires
        c != '%',
        c != '_',
    ensures
        like(t, seq![c] + p) == (t.len() > 0 && t[0] == c && like(t.skip(1), p)),
        like(t, Seq::empty()) == (t.len() == 0),
{
    let q = seq![c] + p;
    assert(q.drop_first() =~= p);
    if t.len() > 0 {
        assert(t.drop_first() =~= t.skip(1));
    }
}

// --- rounding ---

/// Whether a datum is a whole decimal: no places.
pub open spec fn is_whole(d: Datum) -> bool {
    d is Numeric && d->Numeric_0.scale == 0
}

proof fn lemma_parts(p: DecimalParts)
    ensures
        pow10(p.scale) > 0,
        p.coefficient == p.whole_part() * pow10(p.scale) + p.places(),
        0 <= p.places() < pow10(p.scale),
{
    lemma_pow10_positive(p.scale);
    let (c, u) = (p.coefficient as int, pow10(p.scale) as int);
    vstd::arithmetic::div_mod::lemma_fundamental_div_mod(c, u);
    assert(u * (c / u) == (c / u) * u) by (nonlinear_arith);
    vstd::arithmetic::div_mod::lemma_mod_bound(c, u);
}

/// `FLOOR` of a decimal is the whole number that it does not fall below, by less than one;
/// `CEIL` the one that it does not exceed, by less than one; `ROUND` the nearest, and of two
/// that are equally near the even one. Integers are whole as they are.
pub proof fn law_rounding(
    args: Seq<Term>,
    a: Datum,
    row: Seq<Datum>,
    table: Seq<(Question, Answer)>,
)
    requires
        args.len() >= 1,
        evaluated(args[0], row, table) == Ok::<Datum, Fault>(a),
    ensures
        number(a) is Some ==> called(ScalarFunc::Floor, args, row, table) == Ok::<Datum, Fault>(a)
            && called(ScalarFunc::Ceil, args, row, table) == Ok::<Datum, Fault>(a) && called(
            ScalarFunc::Round,
            args,
            row,
            table,
        ) == Ok::<Datum, Fault>(a),
        a is Numeric ==> {
            let x = (exact(a)->0).0;
            let unit = pow10((exact(a)->0).1);
            let floor = called(ScalarFunc::Floor, args, row, table);
            let ceil = called(ScalarFunc::Ceil, args, row, table);
            let round = called(ScalarFunc::Round, args, row, table);
            &&& floor is Ok && is_whole(floor->Ok_0) && (exact(floor->Ok_0)->0).0 * unit <= x && x
                < (exact(floor->Ok_0)->0).0 * unit + unit
            &&& ceil is Ok && is_whole(ceil->Ok_0) && x <= (exact(ceil->Ok_0)->0).0 * unit && (exact(
                ceil->Ok_0,
            )->0).0 * unit - unit < x
            &&& round is Ok && is_whole(round->Ok_0)
            &&& -(unit as int) <= 2 * ((exact(round->Ok_0)->0).0 * unit - x) <= unit
            &&& 2 * ((exact(round->Ok_0)->0).0 * unit - x) == unit || 2 * ((exact(
                round->Ok_0,
            )->0).0 * unit - x) == -(unit as int) ==> (exact(round->Ok_0)->0).0 % 2 == 0
        },
        a is Float64 ==> {
            let f = a->Float64_0;
            &&& called(ScalarFunc::Floor, args, row, table) == as_float(
                asked_float(table, Question::Floor(f)),
            )
            &&& called(ScalarFunc::Ceil, args, row, table) == as_float(
                asked_float(table, Question::Ceil(f)),
            )
            &&& called(ScalarFunc::Round, args, row, table) == as_float(
                asked_float(table, Question::Round(f)),
            )
        },
{
    lemma_call_one(ScalarFunc::Floor, args, a, row, table);
    lemma_call_one(ScalarFunc::Ceil, args, a, row, table);
    lemma_call_one(ScalarFunc::Round, args, a, row, table);
    if let Datum::Numeric(p) = a {
        lemma_parts(p);
        let (w, u, r) = (p.whole_part() as int, pow10(p.scale) as int, p.places() as int);
        assert((w + 1) * u == w * u + u) by (nonlinear_arith);
        assert((-w) * u == -(w * u)) by (nonlinear_arith);
        assert((-(w + 1)) * u == -(w * u) - u) by (nonlinear_arith);
        let neg = p.negative;
        let f = p.floored();
        assert(f.signed() == if neg && r != 0 {
            -(w + 1)
        } else if neg {
            -w
        } else {
            w
        });
        let c = p.ceiled();
        assert(c.signed() == if neg {
            -w
        } else if r != 0 {
            w + 1
        } else {
            w
        });
        let g = p.rounded();
        let up = 2 * r > u || (2 * r == u && w % 2 == 1);
        assert(g.coefficient == if up {
            w + 1
        } else {
            w
        });
        assert(g.signed() == if neg && up {
            -(w + 1)
        } else if neg {
            -w
        } else if up {
            w + 1
        } else {
            w
        });
    }
}

/// An answered float as a value.
pub open spec fn as_float(r: Result<Float64, Fault>) -> Result<Datum, Fault> {
    match r {
        Ok(f) => Ok(Datum::Float64(f)),
        Err(e) => Err(e),
    }
}

/// A cast is evaluated on its operand's value.
pub proof fn law_casts_apply_to_values(
    x: Term,
    a: Datum,
    ty: LogicalType,
    row: Seq<Datum>,
    table: Seq<(Question, Answer)>,
)
    requires
        evaluated(x, row, table) == Ok::<Datum, Fault>(a),
    ensures
        evaluated(Term::Cast(Box::new(x), ty), row, table) == cast_value(a, ty, table),
{
    reveal_with_fuel(evaluated, 2);
}

} // verus!
