//! Equality and order of values, with numeric coercion.

use vstd::prelude::*;
use vstd::utf8::encode_utf8;

use crate::query::error::{agrees, Fault, QueryError};
use crate::query::host::{
    ask_float, ask_maybe_float, asked_float, asked_maybe_float, Answer, Answers, HostOp, Question,
};
use crate::storage::bytes::{bytes_eq, bytes_lt, lex_lt};
use crate::storage::decimal::{decimal_order, Decimal, DecimalParts, Order};
use crate::storage::float::{float64_rank, ieee_same32, ieee_same64, widened};
use crate::storage::json::json_same;
use crate::storage::shown::shown;
use crate::storage::text::str_eq;
use crate::storage::types::{data_of, lemma_array_view, Datum, Float64, Value};

verus! {

impl View for Order {
    type V = Order;

    open spec fn view(&self) -> Order {
        *self
    }
}

/// The order of two integers.
pub open spec fn int_order(a: int, b: int) -> Order {
    if a < b {
        Order::Less
    } else if a == b {
        Order::Same
    } else {
        Order::Greater
    }
}

/// The integer a datum holds, of whatever width.
pub open spec fn int_of(d: Datum) -> Option<i64> {
    match d {
        Datum::Int16(n) => Some(n as i64),
        Datum::Int32(n) => Some(n as i64),
        Datum::Int64(n) => Some(n),
        _ => None,
    }
}

/// The exact decimal a datum holds: an integer or a numeric.
pub open spec fn exact_of(d: Datum) -> Option<DecimalParts> {
    match d {
        Datum::Int16(n) => Some(DecimalParts::whole(n as int)),
        Datum::Int32(n) => Some(DecimalParts::whole(n as int)),
        Datum::Int64(n) => Some(DecimalParts::whole(n as int)),
        Datum::Numeric(p) => Some(p),
        _ => None,
    }
}

/// Whether a datum is a number of any kind.
pub open spec fn is_number(d: Datum) -> bool {
    match d {
        Datum::Float32(_) => true,
        Datum::Float64(_) => true,
        _ => exact_of(d) is Some,
    }
}

/// A number as a 64-bit float, where it has one.
pub open spec fn float_of(d: Datum, table: Seq<(Question, Answer)>) -> Result<
    Option<Float64>,
    Fault,
> {
    match d {
        Datum::Float64(f) => Ok(Some(f)),
        Datum::Float32(f) => Ok(Some(widened(f))),
        Datum::Numeric(p) => asked_maybe_float(table, Question::FloatOfNumeric(p)),
        _ => match int_of(d) {
            Some(n) => match asked_float(table, Question::FloatOfInt(n)) {
                Ok(g) => Ok(Some(g)),
                Err(e) => Err(e),
            },
            None => Ok(None),
        },
    }
}

/// The two numbers as floats, the left one asked for first.
pub open spec fn floats_of(a: Datum, b: Datum, table: Seq<(Question, Answer)>) -> Result<
    Option<(Float64, Float64)>,
    Fault,
> {
    match float_of(a, table) {
        Err(e) => Err(e),
        Ok(x) => match float_of(b, table) {
            Err(e) => Err(e),
            Ok(y) => match (x, y) {
                (Some(f), Some(g)) => Ok(Some((f, g))),
                _ => Ok(None),
            },
        },
    }
}

/// Equality without coercion: one type, and equal contents; decimals by their number, floats
/// as IEEE has it, arrays element by element.
pub open spec fn plain_same(a: Datum, b: Datum) -> bool
    decreases a, 0nat,
{
    match (a, b) {
        (Datum::Float32(x), Datum::Float32(y)) => ieee_same32(x, y),
        (Datum::Float64(x), Datum::Float64(y)) => ieee_same64(x, y),
        (Datum::Numeric(x), Datum::Numeric(y)) => x.same(y),
        (Datum::Json(x), Datum::Json(y)) => json_same(x, y),
        (Datum::Array(xs), Datum::Array(ys)) => xs.len() == ys.len() && plain_same_upto(
            xs,
            ys,
            xs.len(),
        ),
        _ => a == b,
    }
}

/// Whether the first `n` elements are equal, pair by pair.
pub open spec fn plain_same_upto(xs: Seq<Datum>, ys: Seq<Datum>, n: nat) -> bool
    decreases xs, n,
{
    n == 0 || n > xs.len() || (plain_same_upto(xs, ys, (n - 1) as nat) && plain_same(
        xs[n - 1],
        ys[n - 1],
    ))
}

/// SQL equality of two non-null values: integers of any width by value, exact numbers by their
/// number, a float against any number as floats in one place of their order (so that a NaN
/// equals a NaN), intervals by their length, and everything else without coercion.
pub open spec fn values_same(a: Datum, b: Datum, table: Seq<(Question, Answer)>) -> Result<
    bool,
    Fault,
> {
    if int_of(a) is Some && int_of(b) is Some {
        Ok(int_of(a) == int_of(b))
    } else if exact_of(a) is Some && exact_of(b) is Some {
        Ok((exact_of(a)->0).same(exact_of(b)->0))
    } else if is_number(a) && is_number(b) {
        match floats_of(a, b, table) {
            Err(e) => Err(e),
            Ok(Some((f, g))) => Ok(float64_rank(f) == float64_rank(g)),
            Ok(None) => Ok(plain_same(a, b)),
        }
    } else {
        match (a, b) {
            (Datum::Interval(x), Datum::Interval(y)) => Ok(x.total_micros() == y.total_micros()),
            _ => Ok(plain_same(a, b)),
        }
    }
}

/// Two values that have no order.
pub open spec fn incomparable(a: Datum, b: Datum) -> Fault {
    Fault::Type("cannot compare "@ + shown(a) + " and "@ + shown(b))
}

/// SQL order of two non-null values: numbers as for equality, with floats by their total
/// order; bools, texts (by their bytes), dates, timestamps and intervals each among
/// themselves. Any other pair has no order.
pub open spec fn values_order(a: Datum, b: Datum, table: Seq<(Question, Answer)>) -> Result<
    Order,
    Fault,
> {
    if int_of(a) is Some && int_of(b) is Some {
        Ok(int_order(int_of(a)->0 as int, int_of(b)->0 as int))
    } else if exact_of(a) is Some && exact_of(b) is Some {
        Ok(decimal_order(exact_of(a)->0, exact_of(b)->0))
    } else if is_number(a) && is_number(b) {
        match floats_of(a, b, table) {
            Err(e) => Err(e),
            Ok(Some((f, g))) => Ok(int_order(float64_rank(f) as int, float64_rank(g) as int)),
            Ok(None) => Err(incomparable(a, b)),
        }
    } else {
        match (a, b) {
            (Datum::Bool(x), Datum::Bool(y)) => Ok(
                int_order(
                    if x {
                        1
                    } else {
                        0
                    },
                    if y {
                        1
                    } else {
                        0
                    },
                ),
            ),
            (Datum::Text(x), Datum::Text(y)) => if lex_lt(encode_utf8(x), encode_utf8(y)) {
                Ok(Order::Less)
            } else if encode_utf8(x) == encode_utf8(y) {
                Ok(Order::Same)
            } else {
                Ok(Order::Greater)
            },
            (Datum::Date(x), Datum::Date(y)) => Ok(int_order(x as int, y as int)),
            (Datum::Timestamp(x), Datum::Timestamp(y)) => Ok(int_order(x as int, y as int)),
            (Datum::Interval(x), Datum::Interval(y)) => Ok(
                int_order(x.total_micros(), y.total_micros()),
            ),
            _ => Err(incomparable(a, b)),
        }
    }
}

// --- executable counterparts ---

/// The integer a value holds, of whatever width.
pub fn as_i64(v: &Value) -> (r: Option<i64>)
    ensures
        r == int_of(v@),
{
    match v {
        Value::Int16(n) => Some(*n as i64),
        Value::Int32(n) => Some(*n as i64),
        Value::Int64(n) => Some(*n),
        _ => None,
    }
}

/// The exact decimal a value holds.
pub fn as_decimal(v: &Value) -> (r: Option<Decimal>)
    ensures
        r is Some <==> exact_of(v@) is Some,
        r is Some ==> r->0@ == exact_of(v@)->0,
{
    match v {
        Value::Int16(n) => Some(Decimal::from_i64(*n as i64)),
        Value::Int32(n) => Some(Decimal::from_i64(*n as i64)),
        Value::Int64(n) => Some(Decimal::from_i64(*n)),
        Value::Numeric(d) => Some(*d),
        _ => None,
    }
}

/// Whether a value is a number of any kind.
fn is_numeric(v: &Value) -> (r: bool)
    ensures
        r == is_number(v@),
{
    match v {
        Value::Int16(_) => true,
        Value::Int32(_) => true,
        Value::Int64(_) => true,
        Value::Float32(_) => true,
        Value::Float64(_) => true,
        Value::Numeric(_) => true,
        _ => false,
    }
}

/// A number as a 64-bit float, where it has one.
pub fn as_float(v: &Value, answers: &Answers) -> (r: Result<Option<Float64>, QueryError>)
    ensures
        agrees(r, float_of(v@, answers@)),
{
    match v {
        Value::Float64(f) => Ok(Some(*f)),
        Value::Float32(f) => Ok(Some(f.widen())),
        Value::Numeric(d) => ask_maybe_float(answers, HostOp::FloatOfNumeric(*d)),
        _ => match as_i64(v) {
            Some(n) => match ask_float(answers, HostOp::FloatOfInt(n)) {
                Ok(g) => Ok(Some(g)),
                Err(e) => Err(e),
            },
            None => Ok(None),
        },
    }
}

fn as_floats(a: &Value, b: &Value, answers: &Answers) -> (r: Result<
    Option<(Float64, Float64)>,
    QueryError,
>)
    ensures
        agrees(r, floats_of(a@, b@, answers@)),
{
    match as_float(a, answers) {
        Err(e) => Err(e),
        Ok(x) => match as_float(b, answers) {
            Err(e) => Err(e),
            Ok(y) => match (x, y) {
                (Some(f), Some(g)) => Ok(Some((f, g))),
                _ => Ok(None),
            },
        },
    }
}

/// Equality without coercion.
pub fn plainly_equal(a: &Value, b: &Value) -> (r: bool)
    ensures
        r == plain_same(a@, b@),
    decreases a,
{
    match (a, b) {
        (Value::Null, Value::Null) => true,
        (Value::Bool(x), Value::Bool(y)) => *x == *y,
        (Value::Int16(x), Value::Int16(y)) => *x == *y,
        (Value::Int32(x), Value::Int32(y)) => *x == *y,
        (Value::Int64(x), Value::Int64(y)) => *x == *y,
        (Value::Text(x), Value::Text(y)) => str_eq(x.as_str(), y.as_str()),
        (Value::Bytes(x), Value::Bytes(y)) => bytes_eq(x.as_slice(), y.as_slice()),
        (Value::Json(x), Value::Json(y)) => x.same(y),
        (Value::Date(x), Value::Date(y)) => *x == *y,
        (Value::Timestamp(x), Value::Timestamp(y)) => *x == *y,
        (Value::Float32(x), Value::Float32(y)) => x.ieee_eq(*y),
        (Value::Float64(x), Value::Float64(y)) => x.ieee_eq(*y),
        (Value::Numeric(x), Value::Numeric(y)) => match x.order(y) {
            Order::Same => true,
            _ => false,
        },
        (Value::Time(x), Value::Time(y)) => *x == *y,
        (Value::Uuid(x), Value::Uuid(y)) => x.value == y.value,
        (Value::Interval(x), Value::Interval(y)) => x.months == y.months && x.days == y.days
            && x.micros == y.micros,
        (Value::Array(xs), Value::Array(ys)) => {
            proof {
                lemma_array_view(*xs);
                lemma_array_view(*ys);
            }
            if xs.len() != ys.len() {
                return false;
            }
            arrays_equal(xs, ys)
        },
        _ => {
            assert(a@ != b@);
            false
        },
    }
}

/// An unequal pair stays unequal.
proof fn lemma_unequal_stays(xs: Seq<Datum>, ys: Seq<Datum>, m: nat, n: nat)
    requires
        m <= n <= xs.len(),
        !plain_same_upto(xs, ys, m),
    ensures
        !plain_same_upto(xs, ys, n),
    decreases n,
{
    if m < n {
        lemma_unequal_stays(xs, ys, m, (n - 1) as nat);
    }
}

/// Whether arrays of one length are equal element by element.
fn arrays_equal(xs: &Vec<Value>, ys: &Vec<Value>) -> (r: bool)
    requires
        xs@.len() == ys@.len(),
    ensures
        r == plain_same_upto(data_of(xs@), data_of(ys@), xs@.len()),
    decreases xs,
{
    let ghost a = data_of(xs@);
    let ghost b = data_of(ys@);
    let mut i: usize = 0;
    while i < xs.len()
        invariant
            i <= xs@.len() == ys@.len(),
            a == data_of(xs@),
            b == data_of(ys@),
            plain_same_upto(a, b, i as nat),
        decreases xs@.len() - i,
    {
        proof {
            assert(a[i as int] == xs@[i as int]@ && b[i as int] == ys@[i as int]@);
            assert(decreases_to!(*xs => xs@[i as int]));
        }
        if !plainly_equal(&xs[i], &ys[i]) {
            proof {
                lemma_unequal_stays(a, b, (i + 1) as nat, xs@.len());
            }
            return false;
        }
        i = i + 1;
    }
    true
}

/// SQL equality of two non-null values.
pub fn values_eq(a: &Value, b: &Value, answers: &Answers) -> (r: Result<bool, QueryError>)
    ensures
        agrees(r, values_same(a@, b@, answers@)),
{
    if let (Some(x), Some(y)) = (as_i64(a), as_i64(b)) {
        return Ok(x == y);
    }
    if let (Some(x), Some(y)) = (as_decimal(a), as_decimal(b)) {
        return match x.order(&y) {
            Order::Same => Ok(true),
            _ => Ok(false),
        };
    }
    if is_numeric(a) && is_numeric(b) {
        return match as_floats(a, b, answers) {
            Err(e) => Err(e),
            Ok(Some((f, g))) => Ok(f.rank() == g.rank()),
            Ok(None) => Ok(plainly_equal(a, b)),
        };
    }
    if let (Value::Interval(x), Value::Interval(y)) = (a, b) {
        return Ok(x.to_micros() == y.to_micros());
    }
    Ok(plainly_equal(a, b))
}

fn order_ints(a: i128, b: i128) -> (r: Order)
    ensures
        r == int_order(a as int, b as int),
{
    if a < b {
        Order::Less
    } else if a == b {
        Order::Same
    } else {
        Order::Greater
    }
}

/// The order of two byte strings.
pub fn order_bytes(a: &[u8], b: &[u8]) -> (r: Order)
    ensures
        r == if lex_lt(a@, b@) {
            Order::Less
        } else if a@ == b@ {
            Order::Same
        } else {
            Order::Greater
        },
{
    if bytes_lt(a, b) {
        Order::Less
    } else if bytes_eq(a, b) {
        Order::Same
    } else {
        Order::Greater
    }
}

/// SQL order of two non-null values.
pub fn order_values(a: &Value, b: &Value, answers: &Answers) -> (r: Result<Order, QueryError>)
    ensures
        agrees(r, values_order(a@, b@, answers@)),
{
    if let (Some(x), Some(y)) = (as_i64(a), as_i64(b)) {
        return Ok(order_ints(x as i128, y as i128));
    }
    if let (Some(x), Some(y)) = (as_decimal(a), as_decimal(b)) {
        return Ok(x.order(&y));
    }
    if is_numeric(a) && is_numeric(b) {
        return match as_floats(a, b, answers) {
            Err(e) => Err(e),
            Ok(Some((f, g))) => Ok(order_ints(f.rank() as i128, g.rank() as i128)),
            Ok(None) => Err(QueryError::type_over_two("cannot compare ", a, " and ", b)),
        };
    }
    match (a, b) {
        (Value::Bool(x), Value::Bool(y)) => Ok(
            order_ints(
                if *x {
                    1
                } else {
                    0
                },
                if *y {
                    1
                } else {
                    0
                },
            ),
        ),
        (Value::Text(x), Value::Text(y)) => Ok(
            order_bytes(x.as_str().as_bytes(), y.as_str().as_bytes()),
        ),
        (Value::Date(x), Value::Date(y)) => Ok(order_ints(*x as i128, *y as i128)),
        (Value::Timestamp(x), Value::Timestamp(y)) => Ok(order_ints(*x as i128, *y as i128)),
        (Value::Interval(x), Value::Interval(y)) => Ok(
            order_ints(x.to_micros(), y.to_micros()),
        ),
        _ => Err(QueryError::type_over_two("cannot compare ", a, " and ", b)),
    }
}

} // verus!
