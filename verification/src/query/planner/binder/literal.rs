//! Types and literals.

use vstd::prelude::*;

use crate::query::error::{agrees, Fault, QueryError};
use crate::query::host::{
    ask_maybe_float, ask_parsed_int, asked_maybe_float, asked_parsed_int, Answer, Answers, HostOp,
    Question,
};
use crate::query::planner::ast::{SqlLiteral, SqlType, SqlZone};
use crate::query::planner::binder::scope::chars_or_none;
use crate::storage::decimal::{decimal_parsed, Decimal};
use crate::storage::temporal::{date_complaint, date_parsed, parse_date, quote, quoted};
use crate::storage::text::{
    i64_parsed, lemma_strung_two, parse_i64, string_together, trim, trimmed,
};
use crate::storage::types::{Datum, LogicalType, Uuid, Value};
use crate::storage::uuid::uuid_parsed;

verus! {

/// Whether a time type names a zone.
pub open spec fn zoned(zone: SqlZone) -> bool {
    zone == SqlZone::With || zone == SqlZone::Tz
}

/// Whether a time type names a zone.
fn is_tz_aware(zone: SqlZone) -> (r: bool)
    ensures
        r == zoned(zone),
{
    match zone {
        SqlZone::With => true,
        SqlZone::Tz => true,
        SqlZone::Unsaid => false,
        SqlZone::Without => false,
    }
}

/// The logical type of a SQL type. Zoned timestamps are the only ones there are, and so are
/// times without a zone; `FLOAT(p)` is single precision up to 24 bits; arrays do not nest.
pub open spec fn mapped_type(ty: SqlType) -> Option<LogicalType>
    decreases ty,
{
    match ty {
        SqlType::Bool => Some(LogicalType::Bool),
        SqlType::Boolean => Some(LogicalType::Bool),
        SqlType::SmallInt => Some(LogicalType::Int16),
        SqlType::Int2 => Some(LogicalType::Int16),
        SqlType::Int => Some(LogicalType::Int32),
        SqlType::Integer => Some(LogicalType::Int32),
        SqlType::Int4 => Some(LogicalType::Int32),
        SqlType::BigInt => Some(LogicalType::Int64),
        SqlType::Int8 => Some(LogicalType::Int64),
        SqlType::Text => Some(LogicalType::Text),
        SqlType::Varchar => Some(LogicalType::Text),
        SqlType::Char => Some(LogicalType::Text),
        SqlType::CharVarying => Some(LogicalType::Text),
        SqlType::Bytea => Some(LogicalType::Bytes),
        SqlType::Json => Some(LogicalType::Json),
        SqlType::Jsonb => Some(LogicalType::Json),
        SqlType::Date => Some(LogicalType::Date),
        SqlType::Real => Some(LogicalType::Float32),
        SqlType::Float4 => Some(LogicalType::Float32),
        SqlType::Float32 => Some(LogicalType::Float32),
        SqlType::DoublePrecision => Some(LogicalType::Float64),
        SqlType::Double => Some(LogicalType::Float64),
        SqlType::Float8 => Some(LogicalType::Float64),
        SqlType::Float64 => Some(LogicalType::Float64),
        SqlType::Numeric => Some(LogicalType::Numeric),
        SqlType::Decimal => Some(LogicalType::Numeric),
        SqlType::Dec => Some(LogicalType::Numeric),
        SqlType::BigNumeric => Some(LogicalType::Numeric),
        SqlType::BigDecimal => Some(LogicalType::Numeric),
        SqlType::Uuid => Some(LogicalType::Uuid),
        SqlType::Interval => Some(LogicalType::Interval),
        SqlType::Timestamp { zone } => if zoned(zone) {
            Some(LogicalType::Timestamp)
        } else {
            None
        },
        SqlType::Time { zone } => if zoned(zone) {
            None
        } else {
            Some(LogicalType::Time)
        },
        SqlType::Float { precision } => match precision {
            Some(p) => if p <= 24 {
                Some(LogicalType::Float32)
            } else {
                Some(LogicalType::Float64)
            },
            None => Some(LogicalType::Float64),
        },
        SqlType::Array(Some(elem)) => match mapped_type(*elem) {
            Some(LogicalType::Array(_)) => None,
            Some(t) => Some(LogicalType::Array(Box::new(t))),
            None => None,
        },
        SqlType::Array(None) => None,
        SqlType::Other(_) => None,
    }
}

/// What is said of a type that has no logical type.
pub open spec fn type_refusal(ty: SqlType) -> Seq<char>
    decreases ty,
{
    match ty {
        SqlType::Timestamp { .. } => {
            "TIMESTAMP WITHOUT TIME ZONE (use TIMESTAMP WITH TIME ZONE)"@
        },
        SqlType::Time { .. } => "TIME WITH TIME ZONE"@,
        SqlType::Array(Some(elem)) => if mapped_type(*elem) is Some {
            "nested arrays"@
        } else {
            type_refusal(*elem)
        },
        SqlType::Array(None) => "ARRAY without an element type"@,
        SqlType::Other(shown) => "column type: "@ + shown@,
        _ => Seq::empty(),
    }
}

/// The logical type of a SQL type; a type that the engine does not have is unsupported.
pub fn bind_data_type(ty: &SqlType) -> (r: Result<LogicalType, QueryError>)
    ensures
        match r {
            Ok(t) => mapped_type(*ty) == Some(t),
            Err(e) => mapped_type(*ty) is None && e@ == Fault::Unsupported(type_refusal(*ty)),
        },
    decreases ty,
{
    Ok(
        match ty {
            SqlType::Bool => LogicalType::Bool,
            SqlType::Boolean => LogicalType::Bool,
            SqlType::SmallInt => LogicalType::Int16,
            SqlType::Int2 => LogicalType::Int16,
            SqlType::Int => LogicalType::Int32,
            SqlType::Integer => LogicalType::Int32,
            SqlType::Int4 => LogicalType::Int32,
            SqlType::BigInt => LogicalType::Int64,
            SqlType::Int8 => LogicalType::Int64,
            SqlType::Text => LogicalType::Text,
            SqlType::Varchar => LogicalType::Text,
            SqlType::Char => LogicalType::Text,
            SqlType::CharVarying => LogicalType::Text,
            SqlType::Bytea => LogicalType::Bytes,
            SqlType::Json => LogicalType::Json,
            SqlType::Jsonb => LogicalType::Json,
            SqlType::Date => LogicalType::Date,
            SqlType::Real => LogicalType::Float32,
            SqlType::Float4 => LogicalType::Float32,
            SqlType::Float32 => LogicalType::Float32,
            SqlType::DoublePrecision => LogicalType::Float64,
            SqlType::Double => LogicalType::Float64,
            SqlType::Float8 => LogicalType::Float64,
            SqlType::Float64 => LogicalType::Float64,
            SqlType::Numeric => LogicalType::Numeric,
            SqlType::Decimal => LogicalType::Numeric,
            SqlType::Dec => LogicalType::Numeric,
            SqlType::BigNumeric => LogicalType::Numeric,
            SqlType::BigDecimal => LogicalType::Numeric,
            SqlType::Uuid => LogicalType::Uuid,
            SqlType::Interval => LogicalType::Interval,
            SqlType::Timestamp { zone } => {
                if !is_tz_aware(*zone) {
                    return Err(
                        QueryError::unsupported(
                            "TIMESTAMP WITHOUT TIME ZONE (use TIMESTAMP WITH TIME ZONE)",
                        ),
                    );
                }
                LogicalType::Timestamp
            },
            SqlType::Time { zone } => {
                if is_tz_aware(*zone) {
                    return Err(QueryError::unsupported("TIME WITH TIME ZONE"));
                }
                LogicalType::Time
            },
            SqlType::Float { precision } => match precision {
                Some(p) => if *p <= 24 {
                    LogicalType::Float32
                } else {
                    LogicalType::Float64
                },
                None => LogicalType::Float64,
            },
            SqlType::Array(Some(elem)) => match bind_data_type(elem) {
                Err(e) => return Err(e),
                Ok(LogicalType::Array(_)) => return Err(QueryError::unsupported("nested arrays")),
                Ok(t) => LogicalType::Array(Box::new(t)),
            },
            SqlType::Array(None) => {
                return Err(QueryError::unsupported("ARRAY without an element type"));
            },
            SqlType::Other(shown) => {
                return Err(QueryError::refused("column type: ", shown.as_str()));
            },
        },
    )
}

/// The value of a literal: an integer that fits 64 bits is one, any other number is a float.
pub open spec fn literal_value(v: SqlLiteral, table: Seq<(Question, Answer)>) -> Result<
    Datum,
    Fault,
> {
    match v {
        SqlLiteral::Number(s) => match i64_parsed(s@) {
            Some(n) => Ok(Datum::Int64(n)),
            None => match asked_maybe_float(table, Question::ParseFloat(s@)) {
                Err(f) => Err(f),
                Ok(Some(x)) => Ok(Datum::Float64(x)),
                Ok(None) => Err(Fault::Internal("bad numeric literal: "@ + s@)),
            },
        },
        SqlLiteral::Text(s) => Ok(Datum::Text(s@)),
        SqlLiteral::Bool(b) => Ok(Datum::Bool(b)),
        SqlLiteral::Null => Ok(Datum::Null),
        SqlLiteral::Other(shown) => Err(Fault::Unsupported("literal: "@ + shown@)),
    }
}

/// The value of a literal.
pub fn bind_value(v: &SqlLiteral, answers: &Answers) -> (r: Result<Value, QueryError>)
    ensures
        agrees(r, literal_value(*v, answers@)),
{
    match v {
        SqlLiteral::Number(s) => match parse_i64(s.as_str()) {
            Some(n) => Ok(Value::Int64(n)),
            None => match ask_maybe_float(answers, HostOp::ParseFloat(s.clone())) {
                Err(e) => Err(e),
                Ok(Some(x)) => Ok(Value::Float64(x)),
                Ok(None) => {
                    let parts = vec!["bad numeric literal: ", s.as_str()];
                    proof {
                        lemma_strung_two(parts@);
                    }
                    Err(QueryError::Internal(string_together(&parts)))
                },
            },
        },
        SqlLiteral::Text(s) => Ok(Value::Text(s.clone())),
        SqlLiteral::Bool(b) => Ok(Value::Bool(*b)),
        SqlLiteral::Null => Ok(Value::Null),
        SqlLiteral::Other(shown) => Err(QueryError::refused("literal: ", shown.as_str())),
    }
}

/// The value of a typed literal, `TYPE 'text'`, where the type is a date, a zoned timestamp, a
/// decimal, a time without a zone or a UUID. A text that does not spell a value of the type is
/// a type error, and so is a value that is no text.
pub open spec fn typed_value(
    ty: SqlType,
    shown: Seq<char>,
    value: Option<Seq<char>>,
    table: Seq<(Question, Answer)>,
) -> Result<Datum, Fault> {
    match mapped_type(ty) {
        Some(LogicalType::Date) => match value {
            None => Err(no_string("DATE"@)),
            Some(s) => match date_parsed(s) {
                Some(d) => Ok(Datum::Date(d as i32)),
                None => Err(Fault::Type(date_complaint(s))),
            },
        },
        Some(LogicalType::Timestamp) => match value {
            None => Err(no_string("TIMESTAMP"@)),
            Some(s) => match asked_parsed_int(table, Question::ParseTimestamp(s)) {
                Err(f) => Err(f),
                Ok(t) => Ok(Datum::Timestamp(t)),
            },
        },
        Some(LogicalType::Numeric) => match value {
            None => Err(no_string("NUMERIC"@)),
            Some(s) => match decimal_parsed(s) {
                Some(d) => Ok(Datum::Numeric(d)),
                None => Err(Fault::Type("invalid NUMERIC literal: "@ + quoted(s))),
            },
        },
        Some(LogicalType::Time) => match value {
            None => Err(no_string("TIME"@)),
            Some(s) => match asked_parsed_int(table, Question::ParseTime(s)) {
                Err(f) => Err(f),
                Ok(t) => Ok(Datum::Time(t)),
            },
        },
        Some(LogicalType::Uuid) => match value {
            None => Err(no_string("UUID"@)),
            Some(s) => match uuid_parsed(trimmed(s)) {
                Some(u) => Ok(Datum::Uuid(Uuid { value: u })),
                None => Err(Fault::Type("invalid UUID literal: "@ + quoted(s))),
            },
        },
        _ => Err(
            Fault::Unsupported(
                if ty is Time {
                    "TIME WITH TIME ZONE literal"@
                } else {
                    "typed literal: "@ + shown
                },
            ),
        ),
    }
}

/// What is said of a typed literal whose value is no text.
pub open spec fn no_string(what: Seq<char>) -> Fault {
    Fault::Type(what + " literal must be a string"@)
}

/// The text of a typed literal.
fn literal_text(value: &Option<String>, what: &str) -> (r: Result<String, QueryError>)
    ensures
        match r {
            Ok(s) => chars_or_none(*value) == Some(s@),
            Err(e) => *value is None && e@ == no_string(what@),
        },
{
    match value {
        Some(s) => Ok(s.clone()),
        None => {
            let parts = vec![what, " literal must be a string"];
            proof {
                lemma_strung_two(parts@);
            }
            Err(QueryError::Type(string_together(&parts)))
        },
    }
}

/// A text that does not spell a value.
fn invalid_literal(what: &str, s: &str) -> (r: QueryError)
    ensures
        r@ == Fault::Type(what@ + quoted(s@)),
{
    let q = quote(s);
    let parts = vec![what, q.as_str()];
    proof {
        lemma_strung_two(parts@);
    }
    QueryError::Type(string_together(&parts))
}

/// The value of a typed literal; `shown` is the type's text.
pub fn bind_typed_string(
    ty: &SqlType,
    shown: &str,
    value: &Option<String>,
    answers: &Answers,
) -> (r: Result<Value, QueryError>)
    ensures
        agrees(r, typed_value(*ty, shown@, chars_or_none(*value), answers@)),
{
    let kind = match bind_data_type(ty) {
        Ok(kind) => kind,
        Err(_) => {
            return Err(
                match ty {
                    SqlType::Time { .. } => QueryError::unsupported("TIME WITH TIME ZONE literal"),
                    _ => QueryError::refused("typed literal: ", shown),
                },
            );
        },
    };
    match kind {
        LogicalType::Date => {
            let s = match literal_text(value, "DATE") {
                Ok(s) => s,
                Err(e) => return Err(e),
            };
            match parse_date(s.as_str()) {
                Ok(d) => Ok(Value::Date(d)),
                Err(msg) => Err(QueryError::Type(msg)),
            }
        },
        LogicalType::Timestamp => {
            let s = match literal_text(value, "TIMESTAMP") {
                Ok(s) => s,
                Err(e) => return Err(e),
            };
            match ask_parsed_int(answers, HostOp::ParseTimestamp(s)) {
                Err(e) => Err(e),
                Ok(t) => Ok(Value::Timestamp(t)),
            }
        },
        LogicalType::Numeric => {
            let s = match literal_text(value, "NUMERIC") {
                Ok(s) => s,
                Err(e) => return Err(e),
            };
            match Decimal::parse(s.as_str()) {
                Some(d) => Ok(Value::Numeric(d)),
                None => Err(invalid_literal("invalid NUMERIC literal: ", s.as_str())),
            }
        },
        LogicalType::Time => {
            let s = match literal_text(value, "TIME") {
                Ok(s) => s,
                Err(e) => return Err(e),
            };
            match ask_parsed_int(answers, HostOp::ParseTime(s)) {
                Err(e) => Err(e),
                Ok(t) => Ok(Value::Time(t)),
            }
        },
        LogicalType::Uuid => {
            let s = match literal_text(value, "UUID") {
                Ok(s) => s,
                Err(e) => return Err(e),
            };
            let t = trim(s.as_str());
            match Uuid::parse(t.as_str()) {
                Some(u) => Ok(Value::Uuid(u)),
                None => Err(invalid_literal("invalid UUID literal: ", s.as_str())),
            }
        },
        _ => Err(QueryError::refused("typed literal: ", shown)),
    }
}

} // verus!
