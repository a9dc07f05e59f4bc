//! Evaluation of scalar expressions.

use strata_db::query::error::QueryError;
use strata_db::query::expression::{BinaryOperator, Expr, ScalarFunc};
use strata_db::query::host::{Answers, HostAnswer, HostOp};
use strata_db::storage::decimal::Decimal;
use strata_db::storage::types::{Float32, Float64, Interval, LogicalType, Tuple, Uuid, Value};

fn double(x: f64) -> Value {
    Value::Float64(Float64 { bits: x.to_bits() })
}

fn single(x: f32) -> Value {
    Value::Float32(Float32 { bits: x.to_bits() })
}

fn f(x: &Float64) -> f64 {
    f64::from_bits(x.bits)
}

fn answer(op: &HostOp) -> HostAnswer {
    let float = |x: f64| HostAnswer::Float64(Float64 { bits: x.to_bits() });
    match op {
        HostOp::FloatOfInt(n) => float(*n as f64),
        HostOp::FloatOfNumeric(d) => HostAnswer::MaybeFloat64(
            d.to_text().parse::<f64>().ok().map(|x| Float64 { bits: x.to_bits() }),
        ),
        HostOp::Narrow(x) => HostAnswer::Float32(Float32 { bits: (f(x) as f32).to_bits() }),
        HostOp::Ceil(x) => float(f(x).ceil()),
        HostOp::Floor(x) => float(f(x).floor()),
        HostOp::Round(x) => float(f(x).round()),
        HostOp::ParseFloat(s) => HostAnswer::MaybeFloat64(
            s.parse::<f64>().ok().map(|x| Float64 { bits: x.to_bits() }),
        ),
        HostOp::ShowFloat64(x) => HostAnswer::Text(f(x).to_string()),
        HostOp::ShowFloat32(x) => HostAnswer::Text(f32::from_bits(x.bits).to_string()),
        other => panic!("no answer to {other:?}"),
    }
}

/// Evaluates, answering the host's questions as they come.
trait Ev {
    fn ev(&self, tuple: &Tuple) -> Result<Value, QueryError>;
}

impl Ev for Expr {
    fn ev(&self, tuple: &Tuple) -> Result<Value, QueryError> {
        let mut answers = Answers::new();
        loop {
            match self.eval(tuple, &answers) {
                Err(QueryError::Host(op)) => {
                    let a = answer(&op);
                    answers.record(op, a);
                }
                done => return done,
            }
        }
    }
}

fn t(values: Vec<Value>) -> Tuple {
    Tuple { values }
}

#[test]
fn eval_column_and_literal() {
    let tuple = t(vec![Value::Int32(10), Value::Text("hi".into())]);
    assert_eq!(Expr::column(0).ev(&tuple).unwrap(), Value::Int32(10));
    assert_eq!(Expr::lit(7i32).ev(&tuple).unwrap(), Value::Int32(7));
}

#[test]
fn eval_comparison() {
    let tuple = t(vec![Value::Int32(10)]);
    let pred = Expr::binary(BinaryOperator::Lt, Expr::column(0), Expr::lit(20i32));
    assert_eq!(pred.ev(&tuple).unwrap(), Value::Bool(true));
}

#[test]
fn eval_compares_across_integer_widths() {
    // An Int32 column against an Int64 literal (how SQL literals bind).
    let tuple = t(vec![Value::Int32(2)]);
    let eq = Expr::binary(BinaryOperator::Eq, Expr::column(0), Expr::lit(2i64));
    assert_eq!(eq.ev(&tuple).unwrap(), Value::Bool(true));
    let gt = Expr::binary(BinaryOperator::Gt, Expr::column(0), Expr::lit(1i64));
    assert_eq!(gt.ev(&tuple).unwrap(), Value::Bool(true));
}

#[test]
fn eval_non_numeric_comparison_mismatch_is_type_error() {
    let tuple = t(vec![Value::Text("x".into())]);
    let pred = Expr::binary(BinaryOperator::Lt, Expr::column(0), Expr::lit(5i64));
    assert!(matches!(pred.ev(&tuple), Err(QueryError::Type(_))));
}

#[test]
fn eval_and_short_circuits_on_null() {
    // false AND NULL -> false (3VL short-circuit, even though one side is null)
    let expr = Expr::binary(
        BinaryOperator::And,
        Expr::lit(false),
        Expr::lit(Value::Null),
    );
    assert_eq!(expr.ev(&t(vec![])).unwrap(), Value::Bool(false));
}

#[test]
fn eval_null_propagates_through_comparison() {
    let expr = Expr::binary(BinaryOperator::Eq, Expr::lit(Value::Null), Expr::lit(1i32));
    assert_eq!(expr.ev(&t(vec![])).unwrap(), Value::Null);
}

#[test]
fn eval_type_mismatch_is_error() {
    // bool vs int: not coercible, so a type error.
    let expr = Expr::binary(BinaryOperator::Lt, Expr::lit(true), Expr::lit(1i32));
    assert!(matches!(expr.ev(&t(vec![])), Err(QueryError::Type(_))));
}

#[test]
fn eval_date_comparison() {
    // Two dates compare by their day count; no integer coercion.
    let lhs = Expr::lit(Value::Date(20617)); // 2026-06-13
    let rhs = Expr::lit(Value::Date(10957)); // 2000-01-01
    let gt = Expr::binary(BinaryOperator::Gt, lhs.clone(), rhs.clone());
    assert_eq!(gt.ev(&t(vec![])).unwrap(), Value::Bool(true));
    let eq = Expr::binary(BinaryOperator::Eq, lhs.clone(), lhs);
    assert_eq!(eq.ev(&t(vec![])).unwrap(), Value::Bool(true));
}

#[test]
fn eval_date_vs_integer_is_type_error() {
    let cmp = Expr::binary(
        BinaryOperator::Lt,
        Expr::lit(Value::Date(1)),
        Expr::lit(5i64),
    );
    assert!(matches!(cmp.ev(&t(vec![])), Err(QueryError::Type(_))));
}

#[test]
fn eval_timestamp_comparison() {
    let later = Expr::lit(Value::Timestamp(1_000_000));
    let earlier = Expr::lit(Value::Timestamp(0));
    let gt = Expr::binary(BinaryOperator::Gt, later, earlier);
    assert_eq!(gt.ev(&t(vec![])).unwrap(), Value::Bool(true));
}

#[test]
fn eval_float_comparison() {
    let lt = Expr::binary(
        BinaryOperator::Lt,
        Expr::lit(double(1.5)),
        Expr::lit(double(2.5)),
    );
    assert_eq!(lt.ev(&t(vec![])).unwrap(), Value::Bool(true));
}

#[test]
fn eval_float_coerces_with_integer() {
    // A float column against an integer literal compares numerically.
    let gt = Expr::binary(
        BinaryOperator::Gt,
        Expr::lit(double(2.5)),
        Expr::lit(2i64),
    );
    assert_eq!(gt.ev(&t(vec![])).unwrap(), Value::Bool(true));
}

fn num(s: &str) -> Value {
    Value::Numeric(Decimal::parse(s).unwrap())
}

#[test]
fn eval_numeric_exact_equality() {
    // Trailing-zero scales are equal; numerics compare by value.
    let eq = Expr::binary(
        BinaryOperator::Eq,
        Expr::lit(num("1.10")),
        Expr::lit(num("1.1")),
    );
    assert_eq!(eq.ev(&t(vec![])).unwrap(), Value::Bool(true));
}

#[test]
fn eval_numeric_vs_integer_is_exact() {
    let gt = Expr::binary(BinaryOperator::Gt, Expr::lit(num("2.5")), Expr::lit(2i64));
    assert_eq!(gt.ev(&t(vec![])).unwrap(), Value::Bool(true));
}

#[test]
fn eval_numeric_ordered_comparison() {
    let lt = Expr::binary(
        BinaryOperator::Lt,
        Expr::lit(num("-0.001")),
        Expr::lit(num("0")),
    );
    assert_eq!(lt.ev(&t(vec![])).unwrap(), Value::Bool(true));
}

fn call(func: ScalarFunc, args: Vec<Expr>) -> Expr {
    Expr::Call { func, args }
}

#[test]
fn eval_abs_of_int_and_float() {
    assert_eq!(
        call(ScalarFunc::Abs, vec![Expr::lit(-7i64)])
            .ev(&t(vec![]))
            .unwrap(),
        Value::Int64(7)
    );
    assert_eq!(
        call(ScalarFunc::Abs, vec![Expr::lit(double(-2.5))])
            .ev(&t(vec![]))
            .unwrap(),
        double(2.5)
    );
}

#[test]
fn eval_abs_of_null_is_null() {
    let e = call(ScalarFunc::Abs, vec![Expr::lit(Value::Null)]);
    assert_eq!(e.ev(&t(vec![])).unwrap(), Value::Null);
}

#[test]
fn eval_abs_int_min_overflows() {
    let e = call(ScalarFunc::Abs, vec![Expr::lit(i64::MIN)]);
    assert!(matches!(e.ev(&t(vec![])), Err(QueryError::Type(_))));
}

#[test]
fn eval_greatest_and_least() {
    let args = || vec![Expr::lit(3i64), Expr::lit(1i64), Expr::lit(2i64)];
    assert_eq!(
        call(ScalarFunc::Greatest, args()).ev(&t(vec![])).unwrap(),
        Value::Int64(3)
    );
    assert_eq!(
        call(ScalarFunc::Least, args()).ev(&t(vec![])).unwrap(),
        Value::Int64(1)
    );
}

#[test]
fn eval_greatest_skips_nulls_and_coerces() {
    // NULL is ignored; a float argument wins over smaller integers.
    let e = call(
        ScalarFunc::Greatest,
        vec![
            Expr::lit(1i64),
            Expr::lit(Value::Null),
            Expr::lit(double(2.5)),
        ],
    );
    assert_eq!(e.ev(&t(vec![])).unwrap(), double(2.5));
}

#[test]
fn eval_least_all_null_is_null() {
    let e = call(
        ScalarFunc::Least,
        vec![Expr::lit(Value::Null), Expr::lit(Value::Null)],
    );
    assert_eq!(e.ev(&t(vec![])).unwrap(), Value::Null);
}

#[test]
fn eval_round_family() {
    let f = |func, v| call(func, vec![Expr::lit(v)]).ev(&t(vec![])).unwrap();
    assert_eq!(
        f(ScalarFunc::Ceil, double(2.1)),
        double(3.0)
    );
    assert_eq!(
        f(ScalarFunc::Floor, double(2.9)),
        double(2.0)
    );
    assert_eq!(
        f(ScalarFunc::Round, double(2.4)),
        double(2.0)
    );
    assert_eq!(f(ScalarFunc::Ceil, num("2.1")), num("3"));
    // Integers are already whole — passed through unchanged.
    assert_eq!(f(ScalarFunc::Floor, Value::Int64(7)), Value::Int64(7));
}

#[test]
fn eval_coalesce_first_non_null() {
    let e = call(
        ScalarFunc::Coalesce,
        vec![
            Expr::lit(Value::Null),
            Expr::lit(Value::Null),
            Expr::lit(3i64),
            Expr::lit(4i64),
        ],
    );
    assert_eq!(e.ev(&t(vec![])).unwrap(), Value::Int64(3));
}

#[test]
fn eval_length_counts_characters() {
    // "Привет 🦀" is 8 Unicode scalar values, not bytes.
    let e = call(ScalarFunc::Length, vec![Expr::lit("Привет 🦀")]);
    assert_eq!(e.ev(&t(vec![])).unwrap(), Value::Int64(8));
}

#[test]
fn eval_repeat_concatenates() {
    let e = call(ScalarFunc::Repeat, vec![Expr::lit("ab"), Expr::lit(3i64)]);
    assert_eq!(e.ev(&t(vec![])).unwrap(), Value::Text("ababab".into()));
}

#[test]
fn eval_upper_lower() {
    let up = call(ScalarFunc::Upper, vec![Expr::lit("Hello")]);
    assert_eq!(up.ev(&t(vec![])).unwrap(), Value::Text("HELLO".into()));
    let lo = call(ScalarFunc::Lower, vec![Expr::lit("Hello")]);
    assert_eq!(lo.ev(&t(vec![])).unwrap(), Value::Text("hello".into()));
}

fn is_null(expr: Expr, negated: bool) -> Expr {
    Expr::IsNull {
        expr: Box::new(expr),
        negated,
    }
}

#[test]
fn eval_is_null_is_total() {
    // IS NULL never returns NULL — `NULL IS NULL` is true.
    assert_eq!(
        is_null(Expr::lit(Value::Null), false)
            .ev(&t(vec![]))
            .unwrap(),
        Value::Bool(true)
    );
    assert_eq!(
        is_null(Expr::lit(1i64), false).ev(&t(vec![])).unwrap(),
        Value::Bool(false)
    );
    // IS NOT NULL
    assert_eq!(
        is_null(Expr::lit(1i64), true).ev(&t(vec![])).unwrap(),
        Value::Bool(true)
    );
}

fn like(s: &str, p: &str, negated: bool) -> Expr {
    Expr::Like {
        expr: Box::new(Expr::lit(s)),
        pattern: Box::new(Expr::lit(p)),
        negated,
    }
}

#[test]
fn eval_like_wildcards() {
    let m = |s, p| like(s, p, false).ev(&t(vec![])).unwrap();
    assert_eq!(m("hello", "h%o"), Value::Bool(true));
    assert_eq!(m("hello", "h_llo"), Value::Bool(true));
    assert_eq!(m("hello", "h_o"), Value::Bool(false));
    assert_eq!(m("hello", "%"), Value::Bool(true));
    assert_eq!(m("hello", "hello"), Value::Bool(true));
    assert_eq!(m("hello", "Hello"), Value::Bool(false)); // case-sensitive
    // NOT LIKE
    assert_eq!(
        like("hello", "x%", true).ev(&t(vec![])).unwrap(),
        Value::Bool(true)
    );
}

#[test]
fn eval_like_null_propagates() {
    let e = Expr::Like {
        expr: Box::new(Expr::lit(Value::Null)),
        pattern: Box::new(Expr::lit("%")),
        negated: false,
    };
    assert_eq!(e.ev(&t(vec![])).unwrap(), Value::Null);
}

#[test]
fn eval_neg_on_column() {
    // -x where x is a column (the case constant-folding couldn't do).
    let e = Expr::Neg {
        input: Box::new(Expr::column(0)),
    };
    assert_eq!(e.ev(&t(vec![Value::Int32(5)])).unwrap(), Value::Int32(-5));
    assert_eq!(e.ev(&t(vec![Value::Null])).unwrap(), Value::Null);
}

#[test]
fn eval_nullif() {
    let nf = |a, b| {
        call(ScalarFunc::Nullif, vec![Expr::lit(a), Expr::lit(b)])
            .ev(&t(vec![]))
            .unwrap()
    };
    assert_eq!(nf(Value::Int64(5), Value::Int64(5)), Value::Null);
    assert_eq!(nf(Value::Int64(5), Value::Int64(6)), Value::Int64(5));
}

#[test]
fn eval_cast_matrix() {
    let cast = |v: Value, ty| {
        Expr::Cast {
            input: Box::new(Expr::lit(v)),
            target: ty,
        }
        .ev(&t(vec![]))
        .unwrap()
    };
    assert_eq!(
        cast(Value::Text("42".into()), LogicalType::Int32),
        Value::Int32(42)
    );
    assert_eq!(
        cast(double(1.7), LogicalType::Int64),
        Value::Int64(2)
    );
    assert_eq!(
        cast(Value::Int64(42), LogicalType::Text),
        Value::Text("42".into())
    );
    assert_eq!(
        cast(Value::Text("yes".into()), LogicalType::Bool),
        Value::Bool(true)
    );
    // NULL casts to NULL for any target.
    assert_eq!(cast(Value::Null, LogicalType::Int32), Value::Null);
}

#[test]
fn eval_cast_invalid_is_error() {
    let e = Expr::Cast {
        input: Box::new(Expr::lit("abc")),
        target: LogicalType::Int32,
    };
    assert!(matches!(e.ev(&t(vec![])), Err(QueryError::Type(_))));
}

#[test]
fn eval_case_branches() {
    // First true branch wins; no match + no else -> NULL.
    let case = |branches, else_result| {
        Expr::Case {
            branches,
            else_result,
        }
        .ev(&t(vec![]))
        .unwrap()
    };
    let t_branch = (Expr::lit(true), Expr::lit("yes"));
    let f_branch = (Expr::lit(false), Expr::lit("no"));
    assert_eq!(
        case(vec![f_branch.clone(), t_branch.clone()], None),
        Value::Text("yes".into())
    );
    assert_eq!(case(vec![f_branch.clone()], None), Value::Null);
    assert_eq!(
        case(vec![f_branch], Some(Box::new(Expr::lit("else")))),
        Value::Text("else".into())
    );
}

#[test]
fn eval_string_concat_operator() {
    let e = Expr::binary(BinaryOperator::Concat, Expr::lit("a"), Expr::lit("b"));
    assert_eq!(e.ev(&t(vec![])).unwrap(), Value::Text("ab".into()));
    // NULL propagates.
    let n = Expr::binary(
        BinaryOperator::Concat,
        Expr::lit("a"),
        Expr::lit(Value::Null),
    );
    assert_eq!(n.ev(&t(vec![])).unwrap(), Value::Null);
}

#[test]
fn eval_concat_stringifies_and_skips_null() {
    let e = call(
        ScalarFunc::Concat,
        vec![Expr::lit("a"), Expr::lit(Value::Null), Expr::lit(1i64)],
    );
    assert_eq!(e.ev(&t(vec![])).unwrap(), Value::Text("a1".into()));
}

#[test]
fn eval_substring_one_indexed() {
    // SUBSTRING('hello' FROM 2 FOR 3) -> 'ell'
    let e = call(
        ScalarFunc::Substr,
        vec![Expr::lit("hello"), Expr::lit(2i64), Expr::lit(3i64)],
    );
    assert_eq!(e.ev(&t(vec![])).unwrap(), Value::Text("ell".into()));
    // No length (i64::MAX sentinel) -> to the end.
    let e2 = call(
        ScalarFunc::Substr,
        vec![Expr::lit("hello"), Expr::lit(3i64), Expr::lit(i64::MAX)],
    );
    assert_eq!(e2.ev(&t(vec![])).unwrap(), Value::Text("llo".into()));
}

#[test]
fn eval_trim_sides() {
    let trim = |f, s, c| {
        call(f, vec![Expr::lit(s), Expr::lit(c)])
            .ev(&t(vec![]))
            .unwrap()
    };
    assert_eq!(
        trim(ScalarFunc::TrimBoth, "xxhixx", "x"),
        Value::Text("hi".into())
    );
    assert_eq!(
        trim(ScalarFunc::TrimLeading, "xxhixx", "x"),
        Value::Text("hixx".into())
    );
    assert_eq!(
        trim(ScalarFunc::TrimTrailing, "  hi  ", " "),
        Value::Text("  hi".into())
    );
}

#[test]
fn eval_float_widths_compare_equal() {
    // REAL 1.5 equals DOUBLE 1.5 (f32 widens exactly to f64).
    let eq = Expr::binary(
        BinaryOperator::Eq,
        Expr::lit(single(1.5)),
        Expr::lit(double(1.5)),
    );
    assert_eq!(eq.ev(&t(vec![])).unwrap(), Value::Bool(true));
}

#[test]
fn eval_column_index_out_of_bounds_is_error() {
    let tuple = t(vec![Value::Int32(0)]);
    let res = Expr::column(5).ev(&tuple);
    assert!(matches!(res, Err(QueryError::Internal(_))));
}

#[test]
fn a_missing_answer_is_a_question() {
    let gt = Expr::binary(BinaryOperator::Gt, Expr::lit(double(2.5)), Expr::lit(2i64));
    let r = gt.eval(&t(vec![]), &Answers::new());
    assert!(matches!(r, Err(QueryError::Host(HostOp::FloatOfInt(2)))));
}

#[test]
fn three_valued_logic() {
    let b = |op, x: Value, y: Value| Expr::binary(op, Expr::lit(x), Expr::lit(y)).ev(&t(vec![])).unwrap();
    assert_eq!(b(BinaryOperator::And, Value::Null, Value::Bool(false)), Value::Bool(false));
    assert_eq!(b(BinaryOperator::And, Value::Null, Value::Bool(true)), Value::Null);
    assert_eq!(b(BinaryOperator::Or, Value::Null, Value::Bool(true)), Value::Bool(true));
    assert_eq!(b(BinaryOperator::Or, Value::Null, Value::Bool(false)), Value::Null);
    assert_eq!(Expr::negate(Expr::lit(Value::Null)).ev(&t(vec![])).unwrap(), Value::Null);
    assert_eq!(Expr::negate(Expr::lit(true)).ev(&t(vec![])).unwrap(), Value::Bool(false));
}

#[test]
fn casts_of_text() {
    let cast = |s: &str, ty| Expr::Cast { input: Box::new(Expr::lit(s)), target: ty }.ev(&t(vec![]));
    assert_eq!(cast("2024-02-29", LogicalType::Date).unwrap(), Value::Date(19782));
    assert_eq!(cast("1.50", LogicalType::Numeric).unwrap(), num("1.50"));
    assert_eq!(cast("2.5", LogicalType::Float64).unwrap(), double(2.5));
    assert!(cast("40000", LogicalType::Int16).is_err());
}

#[test]
fn casting_to_the_own_type_keeps_the_value() {
    let e = Expr::Cast { input: Box::new(Expr::lit(7i32)), target: LogicalType::Int32 };
    assert_eq!(e.ev(&t(vec![])).unwrap(), Value::Int32(7));
}

#[test]
fn later_answers_change_nothing() {
    let expr = Expr::binary(BinaryOperator::Lt, Expr::lit(1i64), Expr::lit(double(1.5)));
    let mut answers = Answers::new();
    let asked = expr.eval(&t(vec![]), &answers);
    assert!(matches!(asked, Err(QueryError::Host(HostOp::FloatOfInt(1)))));
    let one = HostAnswer::Float64(Float64 { bits: 1f64.to_bits() });
    answers.record(HostOp::FloatOfInt(1), one);
    assert_eq!(expr.eval(&t(vec![]), &answers).unwrap(), Value::Bool(true));
    // A second answer to a question does not count.
    let nine = HostAnswer::Float64(Float64 { bits: 9f64.to_bits() });
    answers.record(HostOp::FloatOfInt(1), nine);
    answers.record(HostOp::ShowTime(0), HostAnswer::Text("00:00:00".into()));
    assert_eq!(expr.eval(&t(vec![]), &answers).unwrap(), Value::Bool(true));
}

#[test]
fn eval_orders_what_has_an_order() {
    let lt = |a: Value, b: Value| {
        Expr::binary(BinaryOperator::Lt, Expr::lit(a), Expr::lit(b)).ev(&t(vec![]))
    };
    let interval = |months: i32, days: i32| Value::Interval(Interval { months, days, micros: 0 });
    // A month counts for thirty days.
    assert_eq!(lt(interval(1, 0), interval(0, 31)).unwrap(), Value::Bool(true));
    assert_eq!(lt(interval(1, 0), interval(0, 30)).unwrap(), Value::Bool(false));
    let eq = Expr::binary(
        BinaryOperator::Eq,
        Expr::lit(interval(1, 0)),
        Expr::lit(interval(0, 30)),
    );
    assert_eq!(eq.ev(&t(vec![])).unwrap(), Value::Bool(true));
    assert!(matches!(lt(Value::Time(1), Value::Time(2)), Err(QueryError::Type(_))));
    let uuid = |value: u128| Value::Uuid(Uuid { value });
    assert!(matches!(lt(uuid(1), uuid(2)), Err(QueryError::Type(_))));
    assert!(matches!(
        lt(Value::Bytes(vec![1]), Value::Bytes(vec![2])),
        Err(QueryError::Type(_))
    ));
}
