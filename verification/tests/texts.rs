//! What errors say.

use strata_db::query::error::QueryError;
use strata_db::query::expression::cast::{concat_str, eval_cast};
use strata_db::query::expression::compare::order_values;
use strata_db::query::expression::eval::eval_binary;
use strata_db::query::expression::function::{
    eval_abs, eval_case, eval_length, eval_like, eval_neg, eval_repeat, eval_round, eval_substr,
    eval_trim, Rounding,
};
use strata_db::query::expression::{BinaryOperator, Expr};
use strata_db::query::host::{Answers, HostAnswer, HostOp};
use strata_db::query::planner::ast::{SqlExpr, SqlLiteral, SqlType, SqlZone};
use strata_db::query::planner::binder::dml::{coerce_to, coerce_value, fit_int};
use strata_db::query::planner::binder::literal::bind_typed_string;
use strata_db::query::planner::binder::query::bind_count;
use strata_db::query::volcano::join::keys::{equi_keys, key_bytes};
use strata_db::storage::decimal::Decimal;
use strata_db::storage::json::Json;
use strata_db::storage::shown::show;
use strata_db::storage::types::{
    Field, Float32, Float64, Interval, LogicalType, Tuple, Uuid, Value,
};

fn said<T: std::fmt::Debug>(r: Result<T, QueryError>) -> String {
    match r {
        Err(QueryError::Type(s)) => format!("type: {s}"),
        Err(QueryError::Internal(s)) => format!("internal: {s}"),
        Err(QueryError::Unsupported(s)) => format!("unsupported: {s}"),
        other => panic!("no text in {other:?}"),
    }
}

fn text(s: &str) -> Value {
    Value::Text(s.into())
}

#[test]
fn values_are_shown_with_their_type() {
    assert_eq!(show(&Value::Null), "Null");
    assert_eq!(show(&Value::Bool(true)), "Bool(true)");
    assert_eq!(show(&Value::Bool(false)), "Bool(false)");
    assert_eq!(show(&Value::Int16(-7)), "Int16(-7)");
    assert_eq!(show(&Value::Int32(0)), "Int32(0)");
    assert_eq!(show(&Value::Int64(i64::MIN)), "Int64(-9223372036854775808)");
    assert_eq!(show(&text("a\"b\n")), "Text(\"a\\\"b\\n\")");
    assert_eq!(show(&Value::Bytes(vec![])), "Bytes([])");
    assert_eq!(show(&Value::Bytes(vec![0, 17, 255])), "Bytes([0, 17, 255])");
    let json = Json::from_slice(b"{\"a\": [1, null, \"x\"]}").unwrap();
    assert_eq!(
        show(&Value::Json(json)),
        "Json(Object {\"a\": Array [Number(1), Null, String(\"x\")]})"
    );
    assert_eq!(show(&Value::Date(3)), "Date(3)");
    assert_eq!(show(&Value::Timestamp(-1)), "Timestamp(-1)");
    assert_eq!(show(&Value::Time(5)), "Time(5)");
    assert_eq!(show(&Value::Numeric(Decimal::parse("-1.50").unwrap())), "Numeric(-1.50)");
    let uuid = Uuid { value: 0x67e55044_10b1_426f_9247_bb680e5fe0c8 };
    assert_eq!(show(&Value::Uuid(uuid)), "Uuid(67e55044-10b1-426f-9247-bb680e5fe0c8)");
    let interval = Interval { months: 1, days: -2, micros: 3 };
    assert_eq!(
        show(&Value::Interval(interval)),
        "Interval(Interval { months: 1, days: -2, micros: 3 })"
    );
    assert_eq!(show(&Value::Array(vec![])), "Array([])");
    assert_eq!(
        show(&Value::Array(vec![Value::Int32(1), text("x")])),
        "Array([Int32(1), Text(\"x\")])"
    );
    // A float is known by its bits alone.
    assert_eq!(show(&Value::Float32(Float32 { bits: 0 })), "Float32(bits 0)");
    assert_eq!(
        show(&Value::Float64(Float64 { bits: u64::MAX })),
        "Float64(bits 18446744073709551615)"
    );
}

#[test]
fn operators_name_their_operands() {
    let none = Answers::new();
    assert_eq!(
        said(order_values(&text("a"), &Value::Int32(1), &none)),
        "type: cannot compare Text(\"a\") and Int32(1)"
    );
    assert_eq!(
        said(eval_binary(BinaryOperator::Lt, Value::Date(1), Value::Int64(2), &none)),
        "type: cannot compare Date(1) and Int64(2)"
    );
    assert_eq!(
        said(eval_binary(BinaryOperator::And, Value::Bool(true), Value::Int64(2), &none)),
        "internal: AND expects Bool, got Bool(true) / Int64(2)"
    );
    assert_eq!(
        said(eval_binary(BinaryOperator::Or, text("x"), Value::Bool(false), &none)),
        "internal: OR expects Bool, got Text(\"x\") / Bool(false)"
    );
    let row = Tuple { values: vec![Value::Int32(9)] };
    assert_eq!(
        said(Expr::negate(Expr::column(0)).eval(&row, &none)),
        "internal: NOT expects Bool, got Int32(9)"
    );
    assert_eq!(
        said(Expr::column(2).eval(&row, &none)),
        "internal: column index 2 out of bounds (arity 1)"
    );
}

#[test]
fn functions_name_their_arguments() {
    let none = Answers::new();
    assert_eq!(said(eval_neg(Value::Int16(i16::MIN))), "type: negation out of range");
    assert_eq!(said(eval_neg(Value::Int32(i32::MIN))), "type: negation out of range");
    assert_eq!(said(eval_neg(text("x"))), "type: cannot negate Text(\"x\")");
    assert_eq!(said(eval_abs(Value::Int16(i16::MIN))), "type: ABS argument out of range");
    assert_eq!(said(eval_abs(Value::Int32(i32::MIN))), "type: ABS argument out of range");
    assert_eq!(said(eval_abs(Value::Int64(i64::MIN))), "type: ABS argument out of range");
    assert_eq!(eval_abs(Value::Int64(i64::MIN + 1)).unwrap(), Value::Int64(i64::MAX));
    assert_eq!(
        said(eval_abs(Value::Bool(true))),
        "type: ABS of non-numeric value Bool(true)"
    );
    assert_eq!(
        said(eval_round(text("x"), Rounding::Ceil, &none)),
        "type: rounding a non-numeric value Text(\"x\")"
    );
    assert_eq!(
        said(eval_like(text("x"), Value::Int32(1), false)),
        "type: LIKE expects text operands, got Text(\"x\") / Int32(1)"
    );
    let one = || Value::Int64(1);
    assert_eq!(
        said(eval_substr(one(), one(), one())),
        "type: SUBSTRING expects a text value"
    );
    assert_eq!(
        said(eval_substr(text("x"), text("y"), text("z"))),
        "type: SUBSTRING start must be an integer"
    );
    assert_eq!(
        said(eval_substr(text("x"), one(), text("z"))),
        "type: SUBSTRING length must be an integer"
    );
    assert_eq!(said(eval_trim(one(), text("x"), true, true)), "type: TRIM expects text values");
    assert_eq!(said(eval_length(one())), "type: LENGTH of non-text value Int64(1)");
    assert_eq!(said(eval_repeat(one(), one())), "type: REPEAT expects a text first argument");
    assert_eq!(
        said(eval_repeat(text("x"), text("y"))),
        "type: REPEAT count must be an integer"
    );
    assert_eq!(
        said(eval_case(Value::Date(1), true)),
        "type: case folding a non-text value Date(1)"
    );
    assert_eq!(
        said(concat_str(&Value::Bytes(vec![1]), &none)),
        "type: cannot concatenate Bytes([1])"
    );
}

#[test]
fn casts_name_value_and_target() {
    let none = Answers::new();
    let cast = |v: Value, ty: LogicalType| said(eval_cast(v, &ty, &none));
    assert_eq!(cast(text("x"), LogicalType::Int64), "type: cannot cast Text(\"x\") to integer");
    assert_eq!(
        cast(Value::Int64(70_000), LogicalType::Int16),
        "type: value 70000 out of range for target integer"
    );
    assert_eq!(
        cast(Value::Bool(true), LogicalType::Float64),
        "type: cannot cast Bool(true) to float"
    );
    assert_eq!(cast(text("x"), LogicalType::Numeric), "type: cannot cast Text(\"x\") to numeric");
    assert_eq!(cast(text("x"), LogicalType::Bool), "type: cannot cast Text(\"x\") to boolean");
    assert_eq!(cast(Value::Int32(1), LogicalType::Bytes), "type: cannot cast Int32(1) to bytes");
    assert_eq!(cast(Value::Int32(1), LogicalType::Date), "type: cannot cast Int32(1) to date");
    assert_eq!(cast(text("x"), LogicalType::Date), "type: invalid DATE literal: \"x\"");
    assert_eq!(
        cast(Value::Int32(1), LogicalType::Timestamp),
        "type: cannot cast Int32(1) to timestamp"
    );
    assert_eq!(cast(Value::Int32(1), LogicalType::Time), "type: cannot cast Int32(1) to time");
    assert_eq!(cast(text("x"), LogicalType::Uuid), "type: cannot cast Text(\"x\") to uuid");
    assert_eq!(
        cast(Value::Int32(1), LogicalType::Interval),
        "type: cannot cast Int32(1) to interval"
    );
    assert_eq!(cast(text("{"), LogicalType::Json), "type: cannot cast Text(\"{\") to json");
    let array = LogicalType::Array(Box::new(LogicalType::Int32));
    assert_eq!(cast(text("{}"), array), "type: cannot cast Text(\"{}\") to array");
}

#[test]
fn complaints_of_the_host_are_passed_on() {
    let mut answers = Answers::new();
    answers.record(
        HostOp::ParseTimestamp("x".into()),
        HostAnswer::ParsedInt(Err("no such instant".into())),
    );
    answers.record(
        HostOp::ParseInterval("y".into()),
        HostAnswer::ParsedInterval(Err("no such interval".into())),
    );
    assert_eq!(
        said(eval_cast(text(" x "), &LogicalType::Timestamp, &answers)),
        "type: no such instant"
    );
    assert_eq!(
        said(eval_cast(text("y"), &LogicalType::Interval, &answers)),
        "type: no such interval"
    );
    let zoned = SqlType::Timestamp { zone: SqlZone::With };
    assert_eq!(
        said(bind_typed_string(&zoned, "Timestamp", &Some("x".into()), &answers)),
        "type: no such instant"
    );
}

#[test]
fn columns_say_what_they_refuse() {
    let none = Answers::new();
    assert_eq!(
        said(coerce_to(text("x"), &LogicalType::Int32, true, "a", &none)),
        "type: cannot insert Text(\"x\") into column `a` of type Int32"
    );
    assert_eq!(
        said(coerce_to(Value::Int16(4), &LogicalType::Text, true, "a", &none)),
        "type: cannot insert Int16(4) into column `a` of type Text"
    );
    assert_eq!(
        said(fit_int(5_000_000_000, &LogicalType::Int32, "b")),
        "type: value 5000000000 out of range for column `b` of type Int32"
    );
    let mut field = Field::new("c", LogicalType::Array(Box::new(LogicalType::Int16)));
    assert_eq!(
        said(coerce_value(Value::Array(vec![Value::Int64(1), Value::Null]), &field, &none)),
        "type: NULL array elements aren't supported"
    );
    assert_eq!(
        said(coerce_value(Value::Array(vec![text("x")]), &field, &none)),
        "type: cannot insert Text(\"x\") into column `c` of type Int16"
    );
    assert_eq!(
        said(coerce_value(Value::Int64(1), &field, &none)),
        "type: cannot insert Int64(1) into column `c` of type Array(Int16)"
    );
    field.nullable = false;
    assert_eq!(
        said(coerce_value(Value::Null, &field, &none)),
        "type: NULL into NOT NULL column `c`"
    );
}

#[test]
fn typed_literals_say_what_they_refuse() {
    let none = Answers::new();
    let read = |ty: SqlType, shown: &str, s: Option<&str>| {
        said(bind_typed_string(&ty, shown, &s.map(|s| s.to_string()), &none))
    };
    assert_eq!(
        read(SqlType::Date, "Date", Some("soon")),
        "type: invalid DATE literal: \"soon\""
    );
    assert_eq!(read(SqlType::Date, "Date", None), "type: DATE literal must be a string");
    assert_eq!(
        read(SqlType::Decimal, "Decimal(None)", Some("1..5")),
        "type: invalid NUMERIC literal: \"1..5\""
    );
    assert_eq!(
        read(SqlType::Uuid, "Uuid", Some(" x")),
        "type: invalid UUID literal: \" x\""
    );
    assert_eq!(
        read(SqlType::Time { zone: SqlZone::Tz }, "Time(None, Tz)", Some("1:00")),
        "unsupported: TIME WITH TIME ZONE literal"
    );
    assert_eq!(
        read(SqlType::Timestamp { zone: SqlZone::Unsaid }, "Timestamp(None, None)", Some("x")),
        "unsupported: typed literal: Timestamp(None, None)"
    );
    assert_eq!(
        read(SqlType::Jsonb, "JSONB", Some("[1]")),
        "unsupported: typed literal: JSONB"
    );
}

#[test]
fn counts_say_what_they_got() {
    let literal = |v: SqlLiteral| SqlExpr::Literal(v);
    assert_eq!(
        said(bind_count(&literal(SqlLiteral::Text("x".into())), &Answers::new(), "LIMIT")),
        "type: LIMIT expects an integer, got Text(\"x\")"
    );
    assert_eq!(
        said(bind_count(&literal(SqlLiteral::Null), &Answers::new(), "OFFSET")),
        "type: OFFSET expects an integer, got Null"
    );
}

#[test]
fn join_keys_say_what_is_missing() {
    let on = |a: Expr, b: Expr| Some(Expr::binary(BinaryOperator::Eq, a, b));
    assert_eq!(
        said(equi_keys(&None, 1)),
        "internal: equi-join requires an equi-join predicate"
    );
    assert_eq!(
        said(equi_keys(&on(Expr::column(0), Expr::lit(Value::Int32(1))), 1)),
        "internal: equi-join key must be `column = column`"
    );
    assert_eq!(
        said(equi_keys(&on(Expr::column(0), Expr::column(1)), 2)),
        "internal: equi-join key must reference both sides"
    );
    assert_eq!(
        said(key_bytes(&Value::Array(vec![Value::Null]))),
        "type: cannot hash this join key: NullKey"
    );
}
