//! `CAST` / `::` type conversions, and values as text.

use vstd::prelude::*;
use vstd::utf8::encode_utf8;

use crate::query::error::{agrees, Fault, QueryError};
use crate::query::host::{
    ask_float, ask_float32, ask_maybe_float, ask_maybe_numeric, ask_parsed_int,
    ask_parsed_interval, ask_text, asked_float, asked_float32, asked_maybe_float,
    asked_maybe_numeric, asked_parsed_int, asked_parsed_interval, asked_text, Answer, Answers,
    HostOp, Question,
};
use crate::storage::decimal::{decimal_parsed, decimal_text, Decimal, DecimalParts};
use crate::storage::float::{
    law_floats_below_two_to_63_round_to_integers, rounded_i64, whole_of, widened,
};
use crate::storage::json::{json_compact, Json};
use crate::storage::shown::{show, shown};
use crate::storage::temporal::{
    date_complaint, date_parsed, date_text, format_date, in_calendar, parse_date, FIRST_DATE,
    LAST_DATE,
};
use crate::storage::text::{
    i64_parsed, int_text, int_to_text, lemma_strung_four, lemma_strung_three, lowercased,
    parse_i64, push_str, str_eq, string_from_chars, string_together, to_lowercase, trim, trimmed, utf8_bytes,
};
use crate::storage::types::{
    data_of, lemma_array_view, Datum, Float32, Float64, LogicalType, Uuid, Value, MICROS_PER_DAY,
};
use crate::storage::uuid::{uuid_parsed, uuid_text};

verus! {

// --- values as text ---

/// The text of a bool.
pub open spec fn bool_text(b: bool) -> Seq<char> {
    if b {
        seq!['t']
    } else {
        seq!['f']
    }
}

/// A value as text, as `CONCAT` and `||` have it. Bytes and JSON have none, and neither has a
/// date outside the calendar.
pub open spec fn text_of(d: Datum, table: Seq<(Question, Answer)>) -> Result<Seq<char>, Fault>
    decreases d, 0nat,
{
    match d {
        Datum::Null => Ok(Seq::empty()),
        Datum::Bool(b) => Ok(bool_text(b)),
        Datum::Int16(n) => Ok(int_text(n as int)),
        Datum::Int32(n) => Ok(int_text(n as int)),
        Datum::Int64(n) => Ok(int_text(n as int)),
        Datum::Float32(f) => asked_text(table, Question::ShowFloat32(f)),
        Datum::Float64(f) => asked_text(table, Question::ShowFloat64(f)),
        Datum::Numeric(p) => Ok(decimal_text(p.negative, p.coefficient, p.scale)),
        Datum::Text(s) => Ok(s),
        Datum::Date(n) => if in_calendar(n as int) {
            Ok(date_text(n as int))
        } else {
            Err(Fault::Internal("date outside the calendar"@))
        },
        Datum::Timestamp(t) => asked_text(table, Question::ShowTimestamp(t)),
        Datum::Time(t) => asked_text(table, Question::ShowTime(t)),
        Datum::Uuid(u) => Ok(uuid_text(u.value)),
        Datum::Interval(i) => asked_text(table, Question::ShowInterval(i)),
        Datum::Array(items) => match joined_text(items, items.len(), table) {
            Ok(s) => Ok(seq!['{'] + s + seq!['}']),
            Err(e) => Err(e),
        },
        Datum::Bytes(_) => Err(Fault::Type("cannot concatenate "@ + shown(d))),
        Datum::Json(_) => Err(Fault::Type("cannot concatenate "@ + shown(d))),
    }
}

/// The texts of the first `n` items, with commas between them.
pub open spec fn joined_text(
    items: Seq<Datum>,
    n: nat,
    table: Seq<(Question, Answer)>,
) -> Result<Seq<char>, Fault>
    decreases items, n,
{
    if n == 0 || n > items.len() {
        Ok(Seq::empty())
    } else {
        match joined_text(items, (n - 1) as nat, table) {
            Err(e) => Err(e),
            Ok(before) => match text_of(items[n - 1], table) {
                Err(e) => Err(e),
                Ok(s) => if n == 1 {
                    Ok(s)
                } else {
                    Ok(before + seq![','] + s)
                },
            },
        }
    }
}

/// Render a value as text.
pub fn concat_str(v: &Value, answers: &Answers) -> (r: Result<String, QueryError>)
    ensures
        agrees(r, text_of(v@, answers@)),
    decreases v,
{
    match v {
        Value::Null => {
            let s = String::new();
            assert(s@ =~= Seq::<char>::empty());
            Ok(s)
        },
        Value::Bool(b) => {
            let mut out: Vec<char> = Vec::new();
            out.push(
                if *b {
                    't'
                } else {
                    'f'
                },
            );
            assert(out@ =~= bool_text(*b));
            Ok(string_from_chars(&out))
        },
        Value::Int16(n) => Ok(int_to_text(*n as i64)),
        Value::Int32(n) => Ok(int_to_text(*n as i64)),
        Value::Int64(n) => Ok(int_to_text(*n)),
        Value::Float32(f) => ask_text(answers, HostOp::ShowFloat32(*f)),
        Value::Float64(f) => ask_text(answers, HostOp::ShowFloat64(*f)),
        Value::Numeric(d) => Ok(d.to_text()),
        Value::Text(s) => Ok(s.clone()),
        Value::Date(n) => if *n >= FIRST_DATE && *n <= LAST_DATE {
            Ok(format_date(*n))
        } else {
            Err(QueryError::internal("date outside the calendar"))
        },
        Value::Timestamp(t) => ask_text(answers, HostOp::ShowTimestamp(*t)),
        Value::Time(t) => ask_text(answers, HostOp::ShowTime(*t)),
        Value::Uuid(u) => Ok(u.to_text()),
        Value::Interval(i) => ask_text(answers, HostOp::ShowInterval(*i)),
        Value::Array(items) => {
            proof {
                lemma_array_view(*items);
            }
            match join_items(items, answers) {
                Ok(inner) => {
                    let mut out: Vec<char> = Vec::new();
                    out.push('{');
                    push_str(&mut out, inner.as_str());
                    out.push('}');
                    assert(out@ =~= seq!['{'] + inner@ + seq!['}']);
                    Ok(string_from_chars(&out))
                },
                Err(e) => Err(e),
            }
        },
        Value::Bytes(_) => Err(QueryError::type_over("cannot concatenate ", v)),
        Value::Json(_) => Err(QueryError::type_over("cannot concatenate ", v)),
    }
}

/// A failed join stays failed.
proof fn lemma_join_stops(items: Seq<Datum>, m: nat, n: nat, table: Seq<(Question, Answer)>)
    requires
        m <= n <= items.len(),
        joined_text(items, m, table) is Err,
    ensures
        joined_text(items, n, table) == joined_text(items, m, table),
    decreases n,
{
    if m < n {
        lemma_join_stops(items, m, (n - 1) as nat, table);
    }
}

fn join_items(items: &Vec<Value>, answers: &Answers) -> (r: Result<String, QueryError>)
    ensures
        agrees(r, joined_text(data_of(items@), items@.len(), answers@)),
    decreases items,
{
    let ghost data = data_of(items@);
    let mut out: Vec<char> = Vec::new();
    let mut i: usize = 0;
    while i < items.len()
        invariant
            i <= items@.len(),
            data == data_of(items@),
            joined_text(data, i as nat, answers@) == Ok::<Seq<char>, Fault>(out@),
        decreases items@.len() - i,
    {
        proof {
            assert(data[i as int] == items@[i as int]@);
            assert(decreases_to!(*items => items@[i as int]));
        }
        let ghost before = out@;
        match concat_str(&items[i], answers) {
            Ok(s) => {
                if i > 0 {
                    out.push(',');
                }
                push_str(&mut out, s.as_str());
                assert(i == 0 ==> out@ =~= s@);
                assert(i > 0 ==> out@ =~= before + seq![','] + s@);
            },
            Err(e) => {
                proof {
                    lemma_join_stops(data, (i + 1) as nat, items@.len(), answers@);
                }
                return Err(e);
            },
        }
        i = i + 1;
    }
    Ok(string_from_chars(&out))
}

/// The character of a hexadecimal digit.
pub open spec fn hex_char(d: int) -> char {
    if d < 10 {
        ('0' as int + d) as char
    } else {
        ('a' as int + d - 10) as char
    }
}

/// Bytes as `\x` and two lower-case hexadecimal digits for each.
pub open spec fn hex_text(b: Seq<u8>) -> Seq<char>
    decreases b.len(),
{
    if b.len() == 0 {
        seq!['\\', 'x']
    } else {
        hex_text(b.drop_last()).push(hex_char((b.last() / 16) as int)).push(
            hex_char((b.last() % 16) as int),
        )
    }
}

fn hex_digit(d: u8) -> (c: char)
    requires
        d < 16,
    ensures
        c == hex_char(d as int),
{
    if d < 10 {
        (48u8 + d) as char
    } else {
        (97u8 + (d - 10)) as char
    }
}

fn hex_of(b: &Vec<u8>) -> (r: String)
    ensures
        r@ == hex_text(b@),
{
    let mut out: Vec<char> = Vec::new();
    out.push('\\');
    out.push('x');
    let mut i: usize = 0;
    assert(b@.take(0) =~= Seq::<u8>::empty());
    assert(out@ =~= hex_text(b@.take(0)));
    while i < b.len()
        invariant
            i <= b@.len(),
            out@ == hex_text(b@.take(i as int)),
        decreases b@.len() - i,
    {
        assert(b@.take(i + 1).drop_last() =~= b@.take(i as int));
        out.push(hex_digit(b[i] / 16));
        out.push(hex_digit(b[i] % 16));
        i = i + 1;
    }
    assert(b@.take(b@.len() as int) =~= b@);
    string_from_chars(&out)
}

// --- conversions ---

/// A value that does not convert to a target.
pub open spec fn cast_fault(d: Datum, target: Seq<char>) -> Fault {
    Fault::Type("cannot cast "@ + shown(d) + " to "@ + target)
}

/// An integer that the target of a cast does not hold.
pub open spec fn past_fault(n: int) -> Fault {
    Fault::Type("value "@ + int_text(n) + " out of range for target integer"@)
}

/// A value as an integer: integers and bools as they are, floats and decimals rounded, texts
/// parsed. A number that 64 bits do not hold, an infinity or a NaN is a type error.
pub open spec fn cast_int(d: Datum, table: Seq<(Question, Answer)>) -> Result<i64, Fault> {
    match d {
        Datum::Int16(n) => Ok(n as i64),
        Datum::Int32(n) => Ok(n as i64),
        Datum::Int64(n) => Ok(n),
        Datum::Bool(b) => Ok(
            if b {
                1
            } else {
                0
            },
        ),
        Datum::Float32(f) => owed(Ok(rounded_i64(widened(f))), cast_fault(d, "integer"@)),
        Datum::Float64(f) => owed(Ok(rounded_i64(f)), cast_fault(d, "integer"@)),
        Datum::Numeric(p) => owed(
            Ok(p.rounded().truncated_i64()),
            cast_fault(d, "integer"@),
        ),
        Datum::Text(s) => owed(Ok(i64_parsed(trimmed(s))), cast_fault(d, "integer"@)),
        _ => Err(cast_fault(d, "integer"@)),
    }
}

/// A value as a float.
pub open spec fn cast_float(d: Datum, table: Seq<(Question, Answer)>) -> Result<Float64, Fault> {
    match d {
        Datum::Int16(n) => asked_float(table, Question::FloatOfInt(n as i64)),
        Datum::Int32(n) => asked_float(table, Question::FloatOfInt(n as i64)),
        Datum::Int64(n) => asked_float(table, Question::FloatOfInt(n)),
        Datum::Float32(f) => Ok(widened(f)),
        Datum::Float64(f) => Ok(f),
        Datum::Numeric(p) => owed(
            asked_maybe_float(table, Question::FloatOfNumeric(p)),
            cast_fault(d, "float"@),
        ),
        Datum::Text(s) => owed(
            asked_maybe_float(table, Question::ParseFloat(trimmed(s))),
            cast_fault(d, "float"@),
        ),
        _ => Err(cast_fault(d, "float"@)),
    }
}

/// An optional outcome, with a type error where there is none.
pub open spec fn owed<T>(r: Result<Option<T>, Fault>, fault: Fault) -> Result<T, Fault> {
    match r {
        Ok(Some(v)) => Ok(v),
        Ok(None) => Err(fault),
        Err(e) => Err(e),
    }
}

/// A value as a decimal.
pub open spec fn cast_decimal(d: Datum, table: Seq<(Question, Answer)>) -> Result<
    DecimalParts,
    Fault,
> {
    match d {
        Datum::Int16(n) => Ok(DecimalParts::whole(n as int)),
        Datum::Int32(n) => Ok(DecimalParts::whole(n as int)),
        Datum::Int64(n) => Ok(DecimalParts::whole(n as int)),
        Datum::Numeric(p) => Ok(p),
        Datum::Float32(f) => owed(
            asked_maybe_numeric(table, Question::NumericOfFloat32(f)),
            cast_fault(d, "numeric"@),
        ),
        Datum::Float64(f) => owed(
            asked_maybe_numeric(table, Question::NumericOfFloat64(f)),
            cast_fault(d, "numeric"@),
        ),
        Datum::Text(s) => owed(Ok(decimal_parsed(trimmed(s))), cast_fault(d, "numeric"@)),
        _ => Err(cast_fault(d, "numeric"@)),
    }
}

/// Whether a word means true.
pub open spec fn true_word(s: Seq<char>) -> bool {
    s == "true"@ || s == "t"@ || s == "yes"@ || s == "y"@ || s == "on"@ || s == "1"@
}

/// Whether a word means false.
pub open spec fn false_word(s: Seq<char>) -> bool {
    s == "false"@ || s == "f"@ || s == "no"@ || s == "n"@ || s == "off"@ || s == "0"@
}

/// A value as a bool: integers by whether they are zero, texts by the word they are.
pub open spec fn cast_bool(d: Datum) -> Result<bool, Fault> {
    match d {
        Datum::Bool(b) => Ok(b),
        Datum::Int16(n) => Ok(n != 0),
        Datum::Int32(n) => Ok(n != 0),
        Datum::Int64(n) => Ok(n != 0),
        Datum::Text(s) => if true_word(lowercased(trimmed(s))) {
            Ok(true)
        } else if false_word(lowercased(trimmed(s))) {
            Ok(false)
        } else {
            Err(cast_fault(d, "boolean"@))
        },
        _ => Err(cast_fault(d, "boolean"@)),
    }
}

/// A value as text, for a cast: bytes in hexadecimal and JSON in its compact form, too.
pub open spec fn cast_text(d: Datum, table: Seq<(Question, Answer)>) -> Result<Seq<char>, Fault> {
    match d {
        Datum::Bytes(b) => Ok(hex_text(b)),
        Datum::Json(s) => Ok(s),
        _ => text_of(d, table),
    }
}

/// A value as a date: a timestamp's day, rounded towards the past; a text parsed.
pub open spec fn cast_date(d: Datum) -> Result<i32, Fault> {
    match d {
        Datum::Date(n) => Ok(n),
        Datum::Text(s) => match date_parsed(trimmed(s)) {
            Some(n) => Ok(n as i32),
            None => Err(Fault::Type(date_complaint(trimmed(s)))),
        },
        Datum::Timestamp(t) => Ok(((t as int) / (MICROS_PER_DAY as int)) as i32),
        _ => Err(cast_fault(d, "date"@)),
    }
}

/// A value as a timestamp: a date's midnight, where 64 bits hold it; a text parsed.
pub open spec fn cast_timestamp(d: Datum, table: Seq<(Question, Answer)>) -> Result<i64, Fault> {
    match d {
        Datum::Timestamp(t) => Ok(t),
        Datum::Text(s) => asked_parsed_int(table, Question::ParseTimestamp(trimmed(s))),
        Datum::Date(n) => if i64::MIN <= n * MICROS_PER_DAY <= i64::MAX {
            Ok((n * MICROS_PER_DAY) as i64)
        } else {
            Err(Fault::Type("date out of range for timestamp"@))
        },
        _ => Err(cast_fault(d, "timestamp"@)),
    }
}

/// What casting a value to a type gives. A null stays null.
pub open spec fn cast_value(d: Datum, target: LogicalType, table: Seq<(Question, Answer)>) -> Result<
    Datum,
    Fault,
> {
    if d is Null {
        Ok(Datum::Null)
    } else {
        match target {
            LogicalType::Bool => match cast_bool(d) {
                Ok(b) => Ok(Datum::Bool(b)),
                Err(e) => Err(e),
            },
            LogicalType::Int16 => match cast_int(d, table) {
                Ok(n) => if i16::MIN <= n <= i16::MAX {
                    Ok(Datum::Int16(n as i16))
                } else {
                    Err(past_fault(n as int))
                },
                Err(e) => Err(e),
            },
            LogicalType::Int32 => match cast_int(d, table) {
                Ok(n) => if i32::MIN <= n <= i32::MAX {
                    Ok(Datum::Int32(n as i32))
                } else {
                    Err(past_fault(n as int))
                },
                Err(e) => Err(e),
            },
            LogicalType::Int64 => match cast_int(d, table) {
                Ok(n) => Ok(Datum::Int64(n)),
                Err(e) => Err(e),
            },
            LogicalType::Float32 => match d {
                Datum::Float32(_) => Ok(d),
                _ => match cast_float(d, table) {
                    Ok(f) => match asked_float32(table, Question::Narrow(f)) {
                        Ok(g) => Ok(Datum::Float32(g)),
                        Err(e) => Err(e),
                    },
                    Err(e) => Err(e),
                },
            },
            LogicalType::Float64 => match cast_float(d, table) {
                Ok(f) => Ok(Datum::Float64(f)),
                Err(e) => Err(e),
            },
            LogicalType::Numeric => match cast_decimal(d, table) {
                Ok(p) => Ok(Datum::Numeric(p)),
                Err(e) => Err(e),
            },
            LogicalType::Text => match cast_text(d, table) {
                Ok(s) => Ok(Datum::Text(s)),
                Err(e) => Err(e),
            },
            LogicalType::Bytes => match d {
                Datum::Bytes(b) => Ok(Datum::Bytes(b)),
                Datum::Text(s) => Ok(Datum::Bytes(encode_utf8(s))),
                _ => Err(cast_fault(d, "bytes"@)),
            },
            LogicalType::Date => match cast_date(d) {
                Ok(n) => Ok(Datum::Date(n)),
                Err(e) => Err(e),
            },
            LogicalType::Timestamp => match cast_timestamp(d, table) {
                Ok(t) => Ok(Datum::Timestamp(t)),
                Err(e) => Err(e),
            },
            LogicalType::Time => match d {
                Datum::Time(t) => Ok(Datum::Time(t)),
                Datum::Text(s) => match asked_parsed_int(table, Question::ParseTime(trimmed(s))) {
                    Ok(t) => Ok(Datum::Time(t)),
                    Err(e) => Err(e),
                },
                _ => Err(cast_fault(d, "time"@)),
            },
            LogicalType::Uuid => match d {
                Datum::Uuid(u) => Ok(Datum::Uuid(u)),
                Datum::Text(s) => match uuid_parsed(trimmed(s)) {
                    Some(value) => Ok(Datum::Uuid(Uuid { value })),
                    None => Err(cast_fault(d, "uuid"@)),
                },
                _ => Err(cast_fault(d, "uuid"@)),
            },
            LogicalType::Interval => match d {
                Datum::Interval(i) => Ok(Datum::Interval(i)),
                Datum::Text(s) => match asked_parsed_interval(
                    table,
                    Question::ParseInterval(trimmed(s)),
                ) {
                    Ok(i) => Ok(Datum::Interval(i)),
                    Err(e) => Err(e),
                },
                _ => Err(cast_fault(d, "interval"@)),
            },
            LogicalType::Json => match d {
                Datum::Json(s) => Ok(Datum::Json(s)),
                Datum::Text(s) => match json_compact(encode_utf8(s)) {
                    Some(j) => Ok(Datum::Json(j)),
                    None => Err(cast_fault(d, "json"@)),
                },
                _ => Err(cast_fault(d, "json"@)),
            },
            LogicalType::Array(_) => match d {
                Datum::Array(items) => Ok(d),
                _ => Err(cast_fault(d, "array"@)),
            },
        }
    }
}

/// An integer that the target of a cast does not hold.
fn past_target(n: i64) -> (r: QueryError)
    ensures
        r@ == past_fault(n as int),
{
    let shown = int_to_text(n);
    let parts = vec!["value ", shown.as_str(), " out of range for target integer"];
    proof {
        lemma_strung_three(parts@);
    }
    QueryError::Type(string_together(&parts))
}

/// A value that does not convert to a target.
fn cast_err(v: &Value, target: &str) -> (r: QueryError)
    ensures
        r@ == cast_fault(v@, target@),
{
    let t = show(v);
    let parts = vec!["cannot cast ", t.as_str(), " to ", target];
    proof {
        lemma_strung_four(parts@);
    }
    QueryError::Type(string_together(&parts))
}

/// A value as an integer.
pub fn cast_to_i64(v: &Value, answers: &Answers) -> (r: Result<i64, QueryError>)
    ensures
        agrees(r, cast_int(v@, answers@)),
{
    match v {
        Value::Int16(n) => Ok(*n as i64),
        Value::Int32(n) => Ok(*n as i64),
        Value::Int64(n) => Ok(*n),
        Value::Bool(b) => Ok(
            if *b {
                1
            } else {
                0
            },
        ),
        Value::Float32(f) => match f.widen().to_nearest_i64() {
            Some(n) => Ok(n),
            None => Err(cast_err(v, "integer")),
        },
        Value::Float64(f) => match f.to_nearest_i64() {
            Some(n) => Ok(n),
            None => Err(cast_err(v, "integer")),
        },
        Value::Numeric(d) => match d.round().to_i64() {
            Some(n) => Ok(n),
            None => Err(cast_err(v, "integer")),
        },
        Value::Text(s) => {
            let t = trim(s.as_str());
            match parse_i64(t.as_str()) {
                Some(n) => Ok(n),
                None => Err(cast_err(v, "integer")),
            }
        },
        _ => Err(cast_err(v, "integer")),
    }
}

/// A value as a float.
pub fn cast_to_float(v: &Value, answers: &Answers) -> (r: Result<Float64, QueryError>)
    ensures
        agrees(r, cast_float(v@, answers@)),
{
    match v {
        Value::Int16(n) => ask_float(answers, HostOp::FloatOfInt(*n as i64)),
        Value::Int32(n) => ask_float(answers, HostOp::FloatOfInt(*n as i64)),
        Value::Int64(n) => ask_float(answers, HostOp::FloatOfInt(*n)),
        Value::Float32(f) => Ok(f.widen()),
        Value::Float64(f) => Ok(*f),
        Value::Numeric(d) => match ask_maybe_float(answers, HostOp::FloatOfNumeric(*d)) {
            Ok(Some(f)) => Ok(f),
            Ok(None) => Err(cast_err(v, "float")),
            Err(e) => Err(e),
        },
        Value::Text(s) => match ask_maybe_float(answers, HostOp::ParseFloat(trim(s.as_str()))) {
            Ok(Some(f)) => Ok(f),
            Ok(None) => Err(cast_err(v, "float")),
            Err(e) => Err(e),
        },
        _ => Err(cast_err(v, "float")),
    }
}

/// A value as a decimal.
pub fn cast_to_numeric(v: &Value, answers: &Answers) -> (r: Result<Decimal, QueryError>)
    ensures
        agrees(r, cast_decimal(v@, answers@)),
{
    match v {
        Value::Int16(n) => Ok(Decimal::from_i64(*n as i64)),
        Value::Int32(n) => Ok(Decimal::from_i64(*n as i64)),
        Value::Int64(n) => Ok(Decimal::from_i64(*n)),
        Value::Numeric(d) => Ok(*d),
        Value::Float32(f) => match ask_maybe_numeric(answers, HostOp::NumericOfFloat32(*f)) {
            Ok(Some(d)) => Ok(d),
            Ok(None) => Err(cast_err(v, "numeric")),
            Err(e) => Err(e),
        },
        Value::Float64(f) => match ask_maybe_numeric(answers, HostOp::NumericOfFloat64(*f)) {
            Ok(Some(d)) => Ok(d),
            Ok(None) => Err(cast_err(v, "numeric")),
            Err(e) => Err(e),
        },
        Value::Text(s) => {
            let t = trim(s.as_str());
            match Decimal::parse(t.as_str()) {
                Some(d) => Ok(d),
                None => Err(cast_err(v, "numeric")),
            }
        },
        _ => Err(cast_err(v, "numeric")),
    }
}

/// A value as a bool.
pub fn cast_to_bool(v: &Value) -> (r: Result<bool, QueryError>)
    ensures
        agrees(r, cast_bool(v@)),
{
    match v {
        Value::Bool(b) => Ok(*b),
        Value::Int16(n) => Ok(*n != 0),
        Value::Int32(n) => Ok(*n != 0),
        Value::Int64(n) => Ok(*n != 0),
        Value::Text(s) => {
            let t = trim(s.as_str());
            let w = to_lowercase(t.as_str());
            let w = w.as_str();
            if str_eq(w, "true") || str_eq(w, "t") || str_eq(w, "yes") || str_eq(w, "y") || str_eq(
                w,
                "on",
            ) || str_eq(w, "1") {
                Ok(true)
            } else if str_eq(w, "false") || str_eq(w, "f") || str_eq(w, "no") || str_eq(w, "n")
                || str_eq(w, "off") || str_eq(w, "0") {
                Ok(false)
            } else {
                Err(cast_err(v, "boolean"))
            }
        },
        _ => Err(cast_err(v, "boolean")),
    }
}

/// A value as text, for a cast.
pub fn cast_to_text(v: &Value, answers: &Answers) -> (r: Result<String, QueryError>)
    ensures
        agrees(r, cast_text(v@, answers@)),
{
    match v {
        Value::Bytes(b) => Ok(hex_of(b)),
        Value::Json(j) => Ok(j.as_str().to_owned()),
        _ => concat_str(v, answers),
    }
}

/// A value as bytes.
fn cast_to_bytes(v: Value) -> (r: Result<Value, QueryError>)
    ensures
        agrees(
            r,
            match v@ {
                Datum::Bytes(b) => Ok(Datum::Bytes(b)),
                Datum::Text(s) => Ok(Datum::Bytes(encode_utf8(s))),
                _ => Err(cast_fault(v@, "bytes"@)),
            },
        ),
{
    match v {
        Value::Bytes(b) => Ok(Value::Bytes(b)),
        Value::Text(s) => Ok(Value::Bytes(utf8_bytes(s.as_str()))),
        _ => Err(cast_err(&v, "bytes")),
    }
}

/// A value as a date.
pub fn cast_to_date(v: &Value) -> (r: Result<i32, QueryError>)
    ensures
        agrees(r, cast_date(v@)),
{
    match v {
        Value::Date(n) => Ok(*n),
        Value::Text(s) => {
            let t = trim(s.as_str());
            match parse_date(t.as_str()) {
                Ok(n) => Ok(n),
                Err(msg) => Err(QueryError::Type(msg)),
            }
        },
        Value::Timestamp(t) => {
            let q: i64 = if *t >= 0 {
                *t / 86_400_000_000
            } else {
                -1 - (-1 - *t) / 86_400_000_000
            };
            proof {
                let x = *t as int;
                let d: int = 86_400_000_000;
                assert(q == x / d) by {
                    if x < 0 {
                        let y = -1 - x;
                        let w = y / d;
                        assert(w * d <= y < w * d + d) by (nonlinear_arith)
                            requires
                                w == y / d,
                                d == 86_400_000_000,
                        ;
                        assert(x / d == -1 - w) by (nonlinear_arith)
                            requires
                                w * d <= -1 - x < w * d + d,
                                d == 86_400_000_000,
                        ;
                    }
                }
            }
            Ok(q as i32)
        },
        _ => Err(cast_err(v, "date")),
    }
}

/// A value as a timestamp.
pub fn cast_to_timestamp(v: &Value, answers: &Answers) -> (r: Result<i64, QueryError>)
    ensures
        agrees(r, cast_timestamp(v@, answers@)),
{
    match v {
        Value::Timestamp(t) => Ok(*t),
        Value::Text(s) => ask_parsed_int(answers, HostOp::ParseTimestamp(trim(s.as_str()))),
        Value::Date(n) => {
            let t: i128 = *n as i128 * 86_400_000_000;
            if t >= -0x8000_0000_0000_0000 && t <= 0x7fff_ffff_ffff_ffff {
                Ok(t as i64)
            } else {
                Err(QueryError::type_error("date out of range for timestamp"))
            }
        },
        _ => Err(cast_err(v, "timestamp")),
    }
}

/// `CAST`: convert a value to a type. `NULL` casts to `NULL` for any target; a conversion that
/// makes no sense, or that does not fit, is a type error.
pub fn eval_cast(v: Value, target: &LogicalType, answers: &Answers) -> (r: Result<
    Value,
    QueryError,
>)
    ensures
        agrees(r, cast_value(v@, *target, answers@)),
{
    if v.is_null() {
        return Ok(Value::Null);
    }
    match target {
        LogicalType::Bool => match cast_to_bool(&v) {
            Ok(b) => Ok(Value::Bool(b)),
            Err(e) => Err(e),
        },
        LogicalType::Int16 => match cast_to_i64(&v, answers) {
            Ok(n) => if n >= -0x8000 && n <= 0x7fff {
                Ok(Value::Int16(n as i16))
            } else {
                Err(past_target(n))
            },
            Err(e) => Err(e),
        },
        LogicalType::Int32 => match cast_to_i64(&v, answers) {
            Ok(n) => if n >= -0x8000_0000 && n <= 0x7fff_ffff {
                Ok(Value::Int32(n as i32))
            } else {
                Err(past_target(n))
            },
            Err(e) => Err(e),
        },
        LogicalType::Int64 => match cast_to_i64(&v, answers) {
            Ok(n) => Ok(Value::Int64(n)),
            Err(e) => Err(e),
        },
        LogicalType::Float32 => match &v {
            Value::Float32(f) => Ok(Value::Float32(*f)),
            _ => match cast_to_float(&v, answers) {
                Ok(f) => match ask_float32(answers, HostOp::Narrow(f)) {
                    Ok(g) => Ok(Value::Float32(g)),
                    Err(e) => Err(e),
                },
                Err(e) => Err(e),
            },
        },
        LogicalType::Float64 => match cast_to_float(&v, answers) {
            Ok(f) => Ok(Value::Float64(f)),
            Err(e) => Err(e),
        },
        LogicalType::Numeric => match cast_to_numeric(&v, answers) {
            Ok(d) => Ok(Value::Numeric(d)),
            Err(e) => Err(e),
        },
        LogicalType::Text => match cast_to_text(&v, answers) {
            Ok(s) => Ok(Value::Text(s)),
            Err(e) => Err(e),
        },
        LogicalType::Bytes => cast_to_bytes(v),
        LogicalType::Date => match cast_to_date(&v) {
            Ok(n) => Ok(Value::Date(n)),
            Err(e) => Err(e),
        },
        LogicalType::Timestamp => match cast_to_timestamp(&v, answers) {
            Ok(t) => Ok(Value::Timestamp(t)),
            Err(e) => Err(e),
        },
        LogicalType::Time => match &v {
            Value::Time(t) => Ok(Value::Time(*t)),
            Value::Text(s) => match ask_parsed_int(answers, HostOp::ParseTime(trim(s.as_str()))) {
                Ok(t) => Ok(Value::Time(t)),
                Err(e) => Err(e),
            },
            _ => Err(cast_err(&v, "time")),
        },
        LogicalType::Uuid => match &v {
            Value::Uuid(u) => Ok(Value::Uuid(*u)),
            Value::Text(s) => {
                let t = trim(s.as_str());
                match Uuid::parse(t.as_str()) {
                    Some(u) => Ok(Value::Uuid(u)),
                    None => Err(cast_err(&v, "uuid")),
                }
            },
            _ => Err(cast_err(&v, "uuid")),
        },
        LogicalType::Interval => match &v {
            Value::Interval(i) => Ok(Value::Interval(*i)),
            Value::Text(s) => match ask_parsed_interval(
                answers,
                HostOp::ParseInterval(trim(s.as_str())),
            ) {
                Ok(i) => Ok(Value::Interval(i)),
                Err(e) => Err(e),
            },
            _ => Err(cast_err(&v, "interval")),
        },
        LogicalType::Json => match &v {
            Value::Json(j) => Ok(Value::Json(j.clone())),
            Value::Text(s) => match Json::from_slice(s.as_str().as_bytes()) {
                Some(j) => Ok(Value::Json(j)),
                None => Err(cast_err(&v, "json")),
            },
            _ => Err(cast_err(&v, "json")),
        },
        LogicalType::Array(_) => match v {
            Value::Array(items) => Ok(Value::Array(items)),
            _ => Err(cast_err(&v, "array")),
        },
    }
}

/// Casting a null gives a null, whatever the target.
pub proof fn law_cast_keeps_null(target: LogicalType, table: Seq<(Question, Answer)>)
    ensures
        cast_value(Datum::Null, target, table) == Ok::<Datum, Fault>(Datum::Null),
{
}

/// A value that is a type's own casts to that type unchanged.
pub proof fn law_cast_to_own_type(d: Datum, target: LogicalType, table: Seq<(Question, Answer)>)
    requires
        crate::storage::codec::roundtrip::has_type(d, target),
    ensures
        cast_value(d, target, table) == Ok::<Datum, Fault>(d),
{
}

/// A float casts to an integer type exactly where the whole number nearest to it is one of the
/// type's; any other float, and so every NaN and infinity, is a type error.
pub proof fn law_floats_out_of_range_do_not_cast(f: Float64, table: Seq<(Question, Answer)>)
    ensures
        cast_value(Datum::Float64(f), LogicalType::Int64, table) == match whole_of(f) {
            Some(n) if i64::MIN <= n <= i64::MAX => Ok::<Datum, Fault>(Datum::Int64(n as i64)),
            _ => Err(cast_fault(Datum::Float64(f), "integer"@)),
        },
        cast_value(Datum::Float64(f), LogicalType::Int32, table) == match whole_of(f) {
            Some(n) if i32::MIN <= n <= i32::MAX => Ok::<Datum, Fault>(Datum::Int32(n as i32)),
            Some(n) if i64::MIN <= n <= i64::MAX => Err(past_fault(n)),
            _ => Err(cast_fault(Datum::Float64(f), "integer"@)),
        },
        cast_value(Datum::Float64(f), LogicalType::Int16, table) == match whole_of(f) {
            Some(n) if i16::MIN <= n <= i16::MAX => Ok::<Datum, Fault>(Datum::Int16(n as i16)),
            Some(n) if i64::MIN <= n <= i64::MAX => Err(past_fault(n)),
            _ => Err(cast_fault(Datum::Float64(f), "integer"@)),
        },
{
    law_floats_below_two_to_63_round_to_integers(f);
}

} // verus!
