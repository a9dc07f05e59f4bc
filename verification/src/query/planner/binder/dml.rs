//! `INSERT`: constant rows, coerced to the columns they go into.

use vstd::prelude::*;

use super::expr::bound;
use super::names::{
    name_fault, table_name_fault, three_part_name, three_parts, unsupported_name,
};
use crate::catalog::state::resolved_table;
use crate::query::context::{ContextModel, QueryContext};
use crate::query::error::{agrees, Fault, QueryError};
use crate::query::expression::compare::int_of;
use crate::query::expression::eval::evaluated;
use crate::query::host::{
    ask_float, ask_float32, ask_maybe_float, asked_float, asked_float32, asked_maybe_float, Answer,
    Answers, HostOp, Question,
};
use crate::query::logical_plan::{logical_tree, LogicalNode, LogicalTree};
use crate::query::planner::ast::{SqlExpr, SqlInsert, SqlName, SqlSource};
use crate::query::volcano::rows::Row;
use crate::storage::decimal::{Decimal, DecimalParts};
use crate::storage::float::widened;
use crate::storage::shown::{show, shown};
use crate::storage::text::{
    count_to_text, int_text, int_to_text, lemma_strung_five, lemma_strung_three, str_eq,
    string_together, strung,
};
use crate::storage::types::{
    data_of, fields_of, lemma_array_view, name_of_type, rows_of, Datum, Field, FieldModel, Float64,
    LogicalType, Tuple, Value,
};

verus! {

// --- coercion ---

/// What is said of an integer that a column's type does not hold.
pub open spec fn range_complaint(n: int, ty: LogicalType, column: Seq<char>) -> Seq<char> {
    "value "@ + int_text(n) + " out of range for column `"@ + column + "` of type "@ + name_of_type(
        ty,
    )
}

/// What is said of a value that does not go into a column's type.
pub open spec fn misfit_complaint(d: Datum, ty: LogicalType, column: Seq<char>) -> Seq<char> {
    "cannot insert "@ + shown(d) + " into column `"@ + column + "` of type "@ + name_of_type(ty)
}

/// A value that does not go into a column's type.
pub open spec fn misfit_fault(d: Datum, ty: LogicalType, column: Seq<char>) -> Fault {
    Fault::Type(misfit_complaint(d, ty, column))
}

/// An integer in an integer type, where it fits.
pub open spec fn fitted(n: int, ty: LogicalType, column: Seq<char>) -> Result<Datum, Fault> {
    match ty {
        LogicalType::Int64 => Ok(Datum::Int64(n as i64)),
        LogicalType::Int32 => if i32::MIN <= n <= i32::MAX {
            Ok(Datum::Int32(n as i32))
        } else {
            Err(Fault::Type(range_complaint(n, ty, column)))
        },
        LogicalType::Int16 => if i16::MIN <= n <= i16::MAX {
            Ok(Datum::Int16(n as i16))
        } else {
            Err(Fault::Type(range_complaint(n, ty, column)))
        },
        _ => Err(misfit_fault(Datum::Int64(n as i64), ty, column)),
    }
}

/// A 64-bit float in a float column: as it is, or narrowed. No other column takes it.
pub open spec fn stored_float(
    f: Float64,
    ty: LogicalType,
    column: Seq<char>,
    table: Seq<(Question, Answer)>,
) -> Result<Datum, Fault> {
    match ty {
        LogicalType::Float64 => Ok(Datum::Float64(f)),
        LogicalType::Float32 => match asked_float32(table, Question::Narrow(f)) {
            Ok(g) => Ok(Datum::Float32(g)),
            Err(e) => Err(e),
        },
        _ => Err(misfit_fault(Datum::Float64(f), ty, column)),
    }
}

/// An integer in a column of any type: integer columns take it where it fits, float and
/// numeric columns convert it.
pub open spec fn coerced_int(
    d: Datum,
    ty: LogicalType,
    column: Seq<char>,
    table: Seq<(Question, Answer)>,
) -> Result<Datum, Fault> {
    let n = int_of(d)->0;
    match ty {
        LogicalType::Int16 | LogicalType::Int32 | LogicalType::Int64 => fitted(
            n as int,
            ty,
            column,
        ),
        LogicalType::Float32 | LogicalType::Float64 => match asked_float(
            table,
            Question::FloatOfInt(n),
        ) {
            Ok(f) => stored_float(f, ty, column, table),
            Err(e) => Err(e),
        },
        LogicalType::Numeric => Ok(Datum::Numeric(DecimalParts::whole(n as int))),
        _ => Err(misfit_fault(d, ty, column)),
    }
}

/// A decimal in a column of any type.
pub open spec fn coerced_numeric(
    p: DecimalParts,
    ty: LogicalType,
    column: Seq<char>,
    table: Seq<(Question, Answer)>,
) -> Result<Datum, Fault> {
    match ty {
        LogicalType::Numeric => Ok(Datum::Numeric(p)),
        LogicalType::Float32 | LogicalType::Float64 => match asked_maybe_float(
            table,
            Question::FloatOfNumeric(p),
        ) {
            Ok(Some(f)) => stored_float(f, ty, column, table),
            Ok(None) => Err(
                Fault::Type(
                    if ty is Float32 {
                        "NUMERIC out of range for REAL"@
                    } else {
                        "NUMERIC out of range for DOUBLE"@
                    },
                ),
            ),
            Err(e) => Err(e),
        },
        _ => Err(misfit_fault(Datum::Numeric(p), ty, column)),
    }
}

/// A value in a column. A value of the column's own type passes; integers widen freely and
/// narrow where they fit; integers and decimals become floats, integers decimals; array
/// elements are coerced one by one, and none may be null. All else is a type error.
pub open spec fn coerced(
    d: Datum,
    ty: LogicalType,
    nullable: bool,
    column: Seq<char>,
    table: Seq<(Question, Answer)>,
) -> Result<Datum, Fault>
    decreases ty, 0nat,
{
    match d {
        Datum::Null => if nullable {
            Ok(Datum::Null)
        } else {
            Err(Fault::Type("NULL into NOT NULL column `"@ + column + "`"@))
        },
        Datum::Bool(_) => if ty is Bool {
            Ok(d)
        } else {
            Err(misfit_fault(d, ty, column))
        },
        Datum::Date(_) => if ty is Date {
            Ok(d)
        } else {
            Err(misfit_fault(d, ty, column))
        },
        Datum::Timestamp(_) => if ty is Timestamp {
            Ok(d)
        } else {
            Err(misfit_fault(d, ty, column))
        },
        Datum::Time(_) => if ty is Time {
            Ok(d)
        } else {
            Err(misfit_fault(d, ty, column))
        },
        Datum::Uuid(_) => if ty is Uuid {
            Ok(d)
        } else {
            Err(misfit_fault(d, ty, column))
        },
        Datum::Interval(_) => if ty is Interval {
            Ok(d)
        } else {
            Err(misfit_fault(d, ty, column))
        },
        Datum::Text(_) => if ty is Text {
            Ok(d)
        } else {
            Err(misfit_fault(d, ty, column))
        },
        Datum::Bytes(_) => if ty is Bytes {
            Ok(d)
        } else {
            Err(misfit_fault(d, ty, column))
        },
        Datum::Json(_) => if ty is Json {
            Ok(d)
        } else {
            Err(misfit_fault(d, ty, column))
        },
        Datum::Array(items) => match ty {
            LogicalType::Array(elem) => match coerced_items(
                items,
                items.len(),
                *elem,
                column,
                table,
            ) {
                Ok(out) => Ok(Datum::Array(out)),
                Err(f) => Err(f),
            },
            _ => Err(misfit_fault(d, ty, column)),
        },
        Datum::Int16(_) => coerced_int(d, ty, column, table),
        Datum::Int32(_) => coerced_int(d, ty, column, table),
        Datum::Int64(_) => coerced_int(d, ty, column, table),
        Datum::Float64(f) => stored_float(f, ty, column, table),
        Datum::Float32(f) => match ty {
            LogicalType::Float32 => Ok(d),
            LogicalType::Float64 => Ok(Datum::Float64(widened(f))),
            _ => Err(misfit_fault(d, ty, column)),
        },
        Datum::Numeric(p) => coerced_numeric(p, ty, column, table),
    }
}

/// The first `n` elements of an array, each coerced to the element type.
pub open spec fn coerced_items(
    items: Seq<Datum>,
    n: nat,
    elem: LogicalType,
    column: Seq<char>,
    table: Seq<(Question, Answer)>,
) -> Result<Seq<Datum>, Fault>
    decreases elem, n,
{
    if n == 0 || n > items.len() {
        Ok(Seq::empty())
    } else {
        match coerced_items(items, (n - 1) as nat, elem, column, table) {
            Err(f) => Err(f),
            Ok(out) => if items[n - 1] is Null {
                Err(Fault::Type("NULL array elements aren't supported"@))
            } else {
                match coerced(items[n - 1], elem, false, column, table) {
                    Err(f) => Err(f),
                    Ok(d) => Ok(out.push(d)),
                }
            },
        }
    }
}

/// An integer that a column's type does not hold.
fn out_of_range(n: i64, ty: &LogicalType, column: &str) -> (r: QueryError)
    ensures
        r@ == Fault::Type(range_complaint(n as int, *ty, column@)),
{
    let numeral = int_to_text(n);
    let name = ty.name();
    let parts = vec![
        "value ",
        numeral.as_str(),
        " out of range for column `",
        column,
        "` of type ",
        name.as_str(),
    ];
    proof {
        reveal_with_fuel(strung, 7);
        assert(strung(parts@) =~= range_complaint(n as int, *ty, column@));
    }
    QueryError::Type(string_together(&parts))
}

/// A value that does not go into a column's type.
fn misfit(value: &Value, ty: &LogicalType, column: &str) -> (r: QueryError)
    ensures
        r@ == misfit_fault(value@, *ty, column@),
{
    let what = show(value);
    let name = ty.name();
    let parts = vec![
        "cannot insert ",
        what.as_str(),
        " into column `",
        column,
        "` of type ",
        name.as_str(),
    ];
    proof {
        reveal_with_fuel(strung, 7);
        assert(strung(parts@) =~= misfit_complaint(value@, *ty, column@));
    }
    QueryError::Type(string_together(&parts))
}

/// Fit an integer into an integer type.
pub fn fit_int(n: i64, ty: &LogicalType, column: &str) -> (r: Result<Value, QueryError>)
    ensures
        agrees(r, fitted(n as int, *ty, column@)),
{
    match ty {
        LogicalType::Int64 => Ok(Value::Int64(n)),
        LogicalType::Int32 => if i32::MIN as i64 <= n && n <= i32::MAX as i64 {
            Ok(Value::Int32(n as i32))
        } else {
            Err(out_of_range(n, ty, column))
        },
        LogicalType::Int16 => if i16::MIN as i64 <= n && n <= i16::MAX as i64 {
            Ok(Value::Int16(n as i16))
        } else {
            Err(out_of_range(n, ty, column))
        },
        _ => Err(misfit(&Value::Int64(n), ty, column)),
    }
}

fn store_float(f: Float64, ty: &LogicalType, column: &str, answers: &Answers) -> (r: Result<
    Value,
    QueryError,
>)
    ensures
        agrees(r, stored_float(f, *ty, column@, answers@)),
{
    match ty {
        LogicalType::Float64 => Ok(Value::Float64(f)),
        LogicalType::Float32 => match ask_float32(answers, HostOp::Narrow(f)) {
            Ok(g) => Ok(Value::Float32(g)),
            Err(e) => Err(e),
        },
        _ => Err(misfit(&Value::Float64(f), ty, column)),
    }
}

fn coerce_int(value: &Value, n: i64, ty: &LogicalType, column: &str, answers: &Answers) -> (r:
    Result<Value, QueryError>)
    requires
        int_of(value@) == Some(n),
    ensures
        agrees(r, coerced_int(value@, *ty, column@, answers@)),
{
    match ty {
        LogicalType::Int16 | LogicalType::Int32 | LogicalType::Int64 => fit_int(n, ty, column),
        LogicalType::Float32 | LogicalType::Float64 => match ask_float(
            answers,
            HostOp::FloatOfInt(n),
        ) {
            Ok(f) => store_float(f, ty, column, answers),
            Err(e) => Err(e),
        },
        LogicalType::Numeric => Ok(Value::Numeric(Decimal::from_i64(n))),
        _ => Err(misfit(value, ty, column)),
    }
}

fn coerce_numeric(d: Decimal, ty: &LogicalType, column: &str, answers: &Answers) -> (r: Result<
    Value,
    QueryError,
>)
    ensures
        agrees(r, coerced_numeric(d@, *ty, column@, answers@)),
{
    match ty {
        LogicalType::Numeric => Ok(Value::Numeric(d)),
        LogicalType::Float32 | LogicalType::Float64 => match ask_maybe_float(
            answers,
            HostOp::FloatOfNumeric(d),
        ) {
            Ok(Some(f)) => store_float(f, ty, column, answers),
            Ok(None) => Err(
                match ty {
                    LogicalType::Float32 => QueryError::type_error("NUMERIC out of range for REAL"),
                    _ => QueryError::type_error("NUMERIC out of range for DOUBLE"),
                },
            ),
            Err(e) => Err(e),
        },
        _ => Err(misfit(&Value::Numeric(d), ty, column)),
    }
}

fn own_type(value: Value, fits: bool, ty: &LogicalType, column: &str) -> (r: Result<Value, QueryError>)
    ensures
        agrees(
            r,
            if fits {
                Ok(value@)
            } else {
                Err(misfit_fault(value@, *ty, column@))
            },
        ),
{
    if fits {
        Ok(value)
    } else {
        Err(misfit(&value, ty, column))
    }
}

/// A value in a column of type `ty`.
pub fn coerce_to(
    value: Value,
    ty: &LogicalType,
    nullable: bool,
    column: &str,
    answers: &Answers,
) -> (r: Result<Value, QueryError>)
    ensures
        agrees(r, coerced(value@, *ty, nullable, column@, answers@)),
    decreases ty, 0nat,
{
    match value {
        Value::Null => if nullable {
            Ok(Value::Null)
        } else {
            let parts = vec!["NULL into NOT NULL column `", column, "`"];
            proof {
                lemma_strung_three(parts@);
            }
            Err(QueryError::Type(string_together(&parts)))
        },
        Value::Bool(_) => own_type(value, matches!(ty, LogicalType::Bool), ty, column),
        Value::Date(_) => own_type(value, matches!(ty, LogicalType::Date), ty, column),
        Value::Timestamp(_) => own_type(value, matches!(ty, LogicalType::Timestamp), ty, column),
        Value::Time(_) => own_type(value, matches!(ty, LogicalType::Time), ty, column),
        Value::Uuid(_) => own_type(value, matches!(ty, LogicalType::Uuid), ty, column),
        Value::Interval(_) => own_type(value, matches!(ty, LogicalType::Interval), ty, column),
        Value::Text(_) => own_type(value, matches!(ty, LogicalType::Text), ty, column),
        Value::Bytes(_) => own_type(value, matches!(ty, LogicalType::Bytes), ty, column),
        Value::Json(_) => own_type(value, matches!(ty, LogicalType::Json), ty, column),
        Value::Array(items) => {
            proof {
                lemma_array_view(items);
            }
            match ty {
                LogicalType::Array(elem) => match coerce_items(items, elem, column, answers) {
                    Ok(out) => {
                        proof {
                            lemma_array_view(out);
                        }
                        Ok(Value::Array(out))
                    },
                    Err(e) => Err(e),
                },
                _ => Err(misfit(&Value::Array(items), ty, column)),
            }
        },
        Value::Int16(n) => coerce_int(&value, n as i64, ty, column, answers),
        Value::Int32(n) => coerce_int(&value, n as i64, ty, column, answers),
        Value::Int64(n) => coerce_int(&value, n, ty, column, answers),
        Value::Float64(f) => store_float(f, ty, column, answers),
        Value::Float32(f) => match ty {
            LogicalType::Float32 => Ok(Value::Float32(f)),
            LogicalType::Float64 => Ok(Value::Float64(f.widen())),
            _ => Err(misfit(&value, ty, column)),
        },
        Value::Numeric(d) => coerce_numeric(d, ty, column, answers),
    }
}

proof fn lemma_items_stop(
    items: Seq<Datum>,
    m: nat,
    n: nat,
    elem: LogicalType,
    column: Seq<char>,
    table: Seq<(Question, Answer)>,
)
    requires
        m <= n <= items.len(),
        coerced_items(items, m, elem, column, table) is Err,
    ensures
        coerced_items(items, n, elem, column, table) == coerced_items(items, m, elem, column, table),
    decreases n,
{
    if m < n {
        lemma_items_stop(items, m, (n - 1) as nat, elem, column, table);
    }
}

fn coerce_items(items: Vec<Value>, elem: &LogicalType, column: &str, answers: &Answers) -> (r:
    Result<Vec<Value>, QueryError>)
    ensures
        match r {
            Ok(out) => coerced_items(data_of(items@), items@.len(), *elem, column@, answers@)
                == Ok::<Seq<Datum>, Fault>(data_of(out@)),
            Err(e) => coerced_items(data_of(items@), items@.len(), *elem, column@, answers@)
                == Err::<Seq<Datum>, Fault>(e@),
        },
    decreases elem, 1nat,
{
    let ghost data = data_of(items@);
    let ghost input = items@;
    let mut out: Vec<Value> = Vec::new();
    assert(data_of(out@) =~= Seq::<Datum>::empty());
    for item in it: items
        invariant
            it.seq() == input,
            data == data_of(input),
            coerced_items(data, it.index() as nat, *elem, column@, answers@) == Ok::<
                Seq<Datum>,
                Fault,
            >(data_of(out@)),
    {
        let ghost i = it.index() as int;
        let ghost before = data_of(out@);
        assert(item == input[i]);
        assert(data[i] == item@);
        if item.is_null() {
            proof {
                lemma_items_stop(data, (i + 1) as nat, data.len(), *elem, column@, answers@);
            }
            return Err(QueryError::type_error("NULL array elements aren't supported"));
        }
        match coerce_to(item, elem, false, column, answers) {
            Ok(v) => {
                out.push(v);
                assert(data_of(out@) =~= before.push(v@));
            },
            Err(e) => {
                proof {
                    lemma_items_stop(data, (i + 1) as nat, data.len(), *elem, column@, answers@);
                }
                return Err(e);
            },
        }
    }
    Ok(out)
}

/// A value in a column.
pub fn coerce_value(value: Value, field: &Field, answers: &Answers) -> (r: Result<
    Value,
    QueryError,
>)
    ensures
        agrees(r, coerced(value@, field@.ty, field@.nullable, field@.name, answers@)),
{
    coerce_to(value, &field.ty, field.nullable, field.name.as_str(), answers)
}

// --- constants and defaults ---

/// The value of an expression without columns.
pub open spec fn constant(e: SqlExpr, table: Seq<(Question, Answer)>) -> Result<Datum, Fault> {
    match bound(e, None, table) {
        Ok(t) => evaluated(t, Seq::empty(), table),
        Err(f) => Err(f),
    }
}

/// What a column without a given value gets: its default, coerced; without one a null, where
/// the column takes nulls.
pub open spec fn default_value(field: FieldModel, table: Seq<(Question, Answer)>) -> Result<
    Datum,
    Fault,
> {
    match field.default {
        Some(t) => match evaluated(t, Seq::empty(), table) {
            Ok(d) => coerced(d, field.ty, field.nullable, field.name, table),
            Err(f) => Err(f),
        },
        None => if field.nullable {
            Ok(Datum::Null)
        } else {
            Err(
                Fault::Type(
                    "missing value for column `"@ + field.name + "` (no default, NOT NULL)"@,
                ),
            )
        },
    }
}

/// What a column gets from a given expression.
pub open spec fn given_value(
    e: SqlExpr,
    field: FieldModel,
    table: Seq<(Question, Answer)>,
) -> Result<Datum, Fault> {
    match constant(e, table) {
        Ok(d) => coerced(d, field.ty, field.nullable, field.name, table),
        Err(f) => Err(f),
    }
}

/// The value of an expression without columns.
pub fn const_eval(expr: &SqlExpr, answers: &Answers) -> (r: Result<Value, QueryError>)
    ensures
        agrees(r, constant(*expr, answers@)),
{
    match expr.bind(None, answers) {
        Err(e) => Err(e),
        Ok(bound) => {
            let nothing = Tuple { values: Vec::new() };
            assert(nothing@ =~= Seq::<Datum>::empty());
            bound.eval(&nothing, answers)
        },
    }
}

/// What a column without a given value gets.
pub fn resolve_default(field: &Field, answers: &Answers) -> (r: Result<Value, QueryError>)
    ensures
        agrees(r, default_value(field@, answers@)),
{
    match &field.default {
        Some(expr) => {
            let nothing = Tuple { values: Vec::new() };
            assert(nothing@ =~= Seq::<Datum>::empty());
            match expr.eval(&nothing, answers) {
                Ok(v) => coerce_value(v, field, answers),
                Err(e) => Err(e),
            }
        },
        None => if field.nullable {
            Ok(Value::Null)
        } else {
            let parts = vec![
                "missing value for column `",
                field.name.as_str(),
                "` (no default, NOT NULL)",
            ];
            proof {
                lemma_strung_three(parts@);
            }
            Err(QueryError::Type(string_together(&parts)))
        },
    }
}

// --- the column list ---

/// The first of the first `n` fields of a name.
pub open spec fn field_position(fields: Seq<FieldModel>, name: Seq<char>, n: nat) -> Option<nat>
    decreases n,
{
    if n == 0 || n > fields.len() {
        None
    } else {
        match field_position(fields, name, (n - 1) as nat) {
            Some(i) => Some(i),
            None => if fields[n - 1].name == name {
                Some((n - 1) as nat)
            } else {
                None
            },
        }
    }
}

/// The field that a listed column names: a plain identifier of the table.
pub open spec fn target_field(
    column: SqlName,
    fields: Seq<FieldModel>,
    into: Seq<char>,
) -> Result<nat, Fault> {
    if column.parts@.len() != 1 {
        Err(name_fault("qualified column in INSERT: "@, column))
    } else {
        match column.parts@[0] {
            None => Err(name_fault("non-identifier column in INSERT: "@, column)),
            Some(name) => match field_position(fields, name@, fields.len()) {
                Some(i) => Ok(i),
                None => Err(
                    Fault::Type("column `"@ + name@ + "` does not exist in `"@ + into + "`"@),
                ),
            },
        }
    }
}

/// The fields that the first `n` listed columns name. None may be named twice.
pub open spec fn target_fields(
    columns: Seq<SqlName>,
    n: nat,
    fields: Seq<FieldModel>,
    into: Seq<char>,
) -> Result<Seq<nat>, Fault>
    decreases n,
{
    if n == 0 || n > columns.len() {
        Ok(Seq::empty())
    } else {
        match target_fields(columns, (n - 1) as nat, fields, into) {
            Err(f) => Err(f),
            Ok(before) => match target_field(columns[n - 1], fields, into) {
                Err(f) => Err(f),
                Ok(i) => if before.contains(i) {
                    Err(
                        Fault::Type(
                            "column `"@ + columns[n - 1].parts@[0]->0@
                                + "` specified more than once"@,
                        ),
                    )
                } else {
                    Ok(before.push(i))
                },
            },
        }
    }
}

/// The fields that a column list names; `None` for the positional form.
pub open spec fn targets(
    columns: Seq<SqlName>,
    fields: Seq<FieldModel>,
    into: Seq<char>,
) -> Result<Option<Seq<nat>>, Fault> {
    if columns.len() == 0 {
        Ok(None)
    } else {
        match target_fields(columns, columns.len(), fields, into) {
            Ok(list) => Ok(Some(list)),
            Err(f) => Err(f),
        }
    }
}

/// The positions of an index list.
pub open spec fn positions(list: Seq<usize>) -> Seq<nat> {
    Seq::new(list.len(), |i: int| list[i] as nat)
}

/// The positions of an optional index list.
pub open spec fn opt_positions(list: Option<Vec<usize>>) -> Option<Seq<nat>> {
    match list {
        Some(v) => Some(positions(v@)),
        None => None,
    }
}

proof fn lemma_position_stays(fields: Seq<FieldModel>, name: Seq<char>, m: nat, n: nat)
    requires
        m <= n <= fields.len(),
        field_position(fields, name, m) is Some,
    ensures
        field_position(fields, name, n) == field_position(fields, name, m),
    decreases n,
{
    if m < n {
        lemma_position_stays(fields, name, m, (n - 1) as nat);
    }
}

fn find_field(fields: &Vec<Field>, name: &str) -> (r: Option<usize>)
    ensures
        match r {
            Some(i) => field_position(fields_of(fields@), name@, fields@.len()) == Some(i as nat)
                && i < fields@.len(),
            None => field_position(fields_of(fields@), name@, fields@.len()) is None,
        },
{
    let mut i: usize = 0;
    while i < fields.len()
        invariant
            i <= fields@.len(),
            field_position(fields_of(fields@), name@, i as nat) is None,
        decreases fields@.len() - i,
    {
        assert(fields_of(fields@)[i as int] == fields@[i as int]@);
        if str_eq(fields[i].name.as_str(), name) {
            proof {
                lemma_position_stays(fields_of(fields@), name@, (i + 1) as nat, fields@.len());
            }
            return Some(i);
        }
        i = i + 1;
    }
    None
}

fn resolve_target(column: &SqlName, fields: &Vec<Field>, table_name: &str) -> (r: Result<
    usize,
    QueryError,
>)
    ensures
        match r {
            Ok(i) => target_field(*column, fields_of(fields@), table_name@) == Ok::<nat, Fault>(
                i as nat,
            ) && i < fields@.len() && column.parts@.len() == 1 && column.parts@[0] is Some,
            Err(e) => target_field(*column, fields_of(fields@), table_name@) == Err::<nat, Fault>(e@),
        },
{
    if column.parts.len() != 1 {
        return Err(unsupported_name("qualified column in INSERT: ", column));
    }
    match &column.parts[0] {
        None => Err(unsupported_name("non-identifier column in INSERT: ", column)),
        Some(name) => match find_field(fields, name.as_str()) {
            Some(i) => Ok(i),
            None => {
                let parts = vec![
                    "column `",
                    name.as_str(),
                    "` does not exist in `",
                    table_name,
                    "`",
                ];
                proof {
                    lemma_strung_five(parts@);
                }
                Err(QueryError::Type(string_together(&parts)))
            },
        },
    }
}

/// A column that is named twice.
fn named_twice(column: &SqlName) -> (r: QueryError)
    requires
        column.parts@.len() == 1,
        column.parts@[0] is Some,
    ensures
        r@ == Fault::Type("column `"@ + column.parts@[0]->0@ + "` specified more than once"@),
{
    let name = match &column.parts[0] {
        Some(name) => name.as_str(),
        None => "",
    };
    let parts = vec!["column `", name, "` specified more than once"];
    proof {
        lemma_strung_three(parts@);
    }
    QueryError::Type(string_together(&parts))
}

fn lists_position(list: &Vec<usize>, index: usize) -> (r: bool)
    ensures
        r == positions(list@).contains(index as nat),
{
    let mut i: usize = 0;
    while i < list.len()
        invariant
            i <= list@.len(),
            forall|j: int| 0 <= j < i ==> list@[j] != index,
        decreases list@.len() - i,
    {
        if list[i] == index {
            assert(positions(list@)[i as int] == index as nat);
            return true;
        }
        i = i + 1;
    }
    assert(forall|j: int| 0 <= j < list@.len() ==> positions(list@)[j] == list@[j] as nat);
    false
}

proof fn lemma_targets_stop(
    columns: Seq<SqlName>,
    m: nat,
    n: nat,
    fields: Seq<FieldModel>,
    into: Seq<char>,
)
    requires
        m <= n <= columns.len(),
        target_fields(columns, m, fields, into) is Err,
    ensures
        target_fields(columns, n, fields, into) == target_fields(columns, m, fields, into),
    decreases n,
{
    if m < n {
        lemma_targets_stop(columns, m, (n - 1) as nat, fields, into);
    }
}

/// The fields that a column list names, in the order in which values are given; `None` for
/// the positional form.
pub fn resolve_target_columns(
    columns: &Vec<SqlName>,
    fields: &Vec<Field>,
    table_name: &str,
) -> (r: Result<Option<Vec<usize>>, QueryError>)
    ensures
        match r {
            Ok(list) => {
                &&& targets(columns@, fields_of(fields@), table_name@) == Ok::<
                    Option<Seq<nat>>,
                    Fault,
                >(opt_positions(list))
                &&& list is Some ==> forall|i: int|
                    0 <= i < list->0@.len() ==> (#[trigger] list->0@[i]) < fields@.len()
            },
            Err(e) => targets(columns@, fields_of(fields@), table_name@) == Err::<
                Option<Seq<nat>>,
                Fault,
            >(e@),
        },
{
    if columns.len() == 0 {
        return Ok(None);
    }
    let ghost model = fields_of(fields@);
    let mut indices: Vec<usize> = Vec::new();
    let mut i: usize = 0;
    assert(positions(indices@) =~= Seq::<nat>::empty());
    while i < columns.len()
        invariant
            i <= columns@.len(),
            model == fields_of(fields@),
            target_fields(columns@, i as nat, model, table_name@) == Ok::<Seq<nat>, Fault>(
                positions(indices@),
            ),
            forall|j: int| 0 <= j < indices@.len() ==> (#[trigger] indices@[j]) < fields@.len(),
        decreases columns@.len() - i,
    {
        let ghost before = positions(indices@);
        match resolve_target(&columns[i], fields, table_name) {
            Err(e) => {
                proof {
                    lemma_targets_stop(
                        columns@,
                        (i + 1) as nat,
                        columns@.len(),
                        model,
                        table_name@,
                    );
                }
                return Err(e);
            },
            Ok(index) => {
                if lists_position(&indices, index) {
                    proof {
                        lemma_targets_stop(
                        columns@,
                        (i + 1) as nat,
                        columns@.len(),
                        model,
                        table_name@,
                    );
                    }
                    return Err(named_twice(&columns[i]));
                }
                indices.push(index);
                assert(positions(indices@) =~= before.push(index as nat));
            },
        }
        i = i + 1;
    }
    Ok(Some(indices))
}

// --- rows ---

/// The last of the first `n` places of a list that holds `i`.
pub open spec fn place_in(list: Seq<nat>, n: nat, i: nat) -> Option<nat>
    decreases n,
{
    if n == 0 || n > list.len() {
        None
    } else if list[n - 1] == i {
        Some((n - 1) as nat)
    } else {
        place_in(list, (n - 1) as nat, i)
    }
}

/// Which of `count` given values is for field `i`: with a column list the one whose column
/// the field is, without one that at the field's own position.
pub open spec fn given_at(list: Option<Seq<nat>>, count: nat, i: nat) -> Option<nat> {
    match list {
        Some(l) => place_in(l, count, i),
        None => if i < count {
            Some(i)
        } else {
            None
        },
    }
}

/// What field `i` gets.
#[verifier::opaque]
pub open spec fn field_value(
    exprs: Seq<SqlExpr>,
    list: Option<Seq<nat>>,
    fields: Seq<FieldModel>,
    i: nat,
    table: Seq<(Question, Answer)>,
) -> Result<Datum, Fault> {
    match given_at(list, exprs.len(), i) {
        Some(p) => given_value(exprs[p as int], fields[i as int], table),
        None => default_value(fields[i as int], table),
    }
}

/// The first `n` values of an inserted row.
pub open spec fn row_values(
    exprs: Seq<SqlExpr>,
    list: Option<Seq<nat>>,
    fields: Seq<FieldModel>,
    n: nat,
    table: Seq<(Question, Answer)>,
) -> Result<Row, Fault>
    decreases n,
{
    if n == 0 || n > fields.len() {
        Ok(Seq::empty())
    } else {
        match row_values(exprs, list, fields, (n - 1) as nat, table) {
            Err(f) => Err(f),
            Ok(before) => match field_value(exprs, list, fields, (n - 1) as nat, table) {
                Err(f) => Err(f),
                Ok(d) => Ok(before.push(d)),
            },
        }
    }
}

/// What is said of a row with more values than there are columns for them.
pub open spec fn count_complaint(given: nat, expected: nat, into: Seq<char>) -> Seq<char> {
    "INSERT has "@ + int_text(given as int) + " value(s) but "@ + int_text(expected as int)
        + " column(s) are targeted in `"@ + into + "`"@
}

/// An inserted row. There may be fewer values than targeted columns, not more.
pub open spec fn inserted_row(
    exprs: Seq<SqlExpr>,
    list: Option<Seq<nat>>,
    fields: Seq<FieldModel>,
    into: Seq<char>,
    table: Seq<(Question, Answer)>,
) -> Result<Row, Fault> {
    let expected = match list {
        Some(l) => l.len(),
        None => fields.len(),
    };
    if exprs.len() > expected {
        Err(Fault::Type(count_complaint(exprs.len(), expected, into)))
    } else {
        row_values(exprs, list, fields, fields.len(), table)
    }
}

/// The first `n` inserted rows.
pub open spec fn inserted_rows(
    rows: Seq<Vec<SqlExpr>>,
    n: nat,
    list: Option<Seq<nat>>,
    fields: Seq<FieldModel>,
    into: Seq<char>,
    table: Seq<(Question, Answer)>,
) -> Result<Seq<Row>, Fault>
    decreases n,
{
    if n == 0 || n > rows.len() {
        Ok(Seq::empty())
    } else {
        match inserted_rows(rows, (n - 1) as nat, list, fields, into, table) {
            Err(f) => Err(f),
            Ok(before) => match inserted_row(rows[n - 1]@, list, fields, into, table) {
                Err(f) => Err(f),
                Ok(row) => Ok(before.push(row)),
            },
        }
    }
}

/// The plan of an `INSERT`: the target must be a live table, the source a list of rows.
pub open spec fn bound_insert(stmt: SqlInsert, ctx: ContextModel) -> Result<LogicalTree, Fault> {
    match stmt.table {
        None => Err(Fault::Unsupported("INSERT target must be a table name"@)),
        Some(name) => match three_parts(name) {
            None => Err(table_name_fault(name)),
            Some(parts) => match resolved_table(ctx.catalog, parts.0, parts.1, parts.2) {
                Err(f) => Err(Fault::Catalog(f)),
                Ok(target) => match targets(stmt.columns@, target.schema, target.name) {
                    Err(f) => Err(f),
                    Ok(list) => match stmt.source {
                        SqlSource::Values(rows) => match inserted_rows(
                            rows@,
                            rows@.len(),
                            list,
                            target.schema,
                            target.name,
                            ctx.answers,
                        ) {
                            Err(f) => Err(f),
                            Ok(data) => Ok(
                                LogicalTree::Insert(target, Box::new(LogicalTree::Values(data))),
                            ),
                        },
                        SqlSource::Absent => Err(Fault::Unsupported("INSERT without VALUES"@)),
                        SqlSource::Other => Err(
                            Fault::Unsupported("INSERT source must be VALUES"@),
                        ),
                    },
                },
            },
        },
    }
}

fn find_place(list: &Vec<usize>, count: usize, index: usize) -> (r: Option<usize>)
    requires
        count <= list@.len(),
    ensures
        match r {
            Some(p) => place_in(positions(list@), count as nat, index as nat) == Some(p as nat) && p
                < count,
            None => place_in(positions(list@), count as nat, index as nat) is None,
        },
{
    let mut n: usize = count;
    while n > 0
        invariant
            n <= count <= list@.len(),
            place_in(positions(list@), count as nat, index as nat) == place_in(
                positions(list@),
                n as nat,
                index as nat,
            ),
        decreases n,
    {
        if list[n - 1] == index {
            return Some(n - 1);
        }
        n = n - 1;
    }
    None
}

/// What field `i` gets.
fn value_for(
    exprs: &Vec<SqlExpr>,
    list: &Option<Vec<usize>>,
    fields: &Vec<Field>,
    i: usize,
    answers: &Answers,
) -> (r: Result<Value, QueryError>)
    requires
        i < fields@.len(),
        list is Some ==> exprs@.len() <= list->0@.len(),
    ensures
        agrees(
            r,
            field_value(exprs@, opt_positions(*list), fields_of(fields@), i as nat, answers@),
        ),
{
    proof {
        reveal(field_value);
    }
    let slot: Option<usize> = match list {
        Some(l) => find_place(l, exprs.len(), i),
        None => if i < exprs.len() {
            Some(i)
        } else {
            None
        },
    };
    match slot {
        Some(p) => match const_eval(&exprs[p], answers) {
            Ok(v) => coerce_value(v, &fields[i], answers),
            Err(e) => Err(e),
        },
        None => resolve_default(&fields[i], answers),
    }
}

proof fn lemma_row_stops(
    exprs: Seq<SqlExpr>,
    list: Option<Seq<nat>>,
    fields: Seq<FieldModel>,
    m: nat,
    n: nat,
    table: Seq<(Question, Answer)>,
)
    requires
        m <= n <= fields.len(),
        row_values(exprs, list, fields, m, table) is Err,
    ensures
        row_values(exprs, list, fields, n, table) == row_values(exprs, list, fields, m, table),
    decreases n,
{
    if m < n {
        lemma_row_stops(exprs, list, fields, m, (n - 1) as nat, table);
    }
}

fn bind_row(
    exprs: &Vec<SqlExpr>,
    list: &Option<Vec<usize>>,
    fields: &Vec<Field>,
    table_name: &str,
    answers: &Answers,
) -> (r: Result<Tuple, QueryError>)
    ensures
        agrees(
            r,
            inserted_row(exprs@, opt_positions(*list), fields_of(fields@), table_name@, answers@),
        ),
{
    let ghost model = fields_of(fields@);
    let ghost l = opt_positions(*list);
    let expected: usize = match list {
        Some(v) => v.len(),
        None => fields.len(),
    };
    if exprs.len() > expected {
        let given = count_to_text(exprs.len());
        let wanted = count_to_text(expected);
        let parts = vec![
            "INSERT has ",
            given.as_str(),
            " value(s) but ",
            wanted.as_str(),
            " column(s) are targeted in `",
            table_name,
            "`",
        ];
        proof {
            reveal_with_fuel(strung, 8);
            assert(strung(parts@) =~= count_complaint(
                exprs@.len(),
                expected as nat,
                table_name@,
            ));
        }
        return Err(QueryError::Type(string_together(&parts)));
    }
    let mut values: Vec<Value> = Vec::new();
    let mut i: usize = 0;
    assert(data_of(values@) =~= Seq::<Datum>::empty());
    while i < fields.len()
        invariant
            i <= fields@.len(),
            list is Some ==> exprs@.len() <= list->0@.len(),
            list is None ==> exprs@.len() <= fields@.len(),
            model == fields_of(fields@),
            l == opt_positions(*list),
            row_values(exprs@, l, model, i as nat, answers@) == Ok::<Row, Fault>(data_of(values@)),
        decreases fields@.len() - i,
    {
        let ghost before = data_of(values@);
        match value_for(exprs, list, fields, i, answers) {
            Ok(v) => {
                values.push(v);
                assert(data_of(values@) =~= before.push(v@));
            },
            Err(e) => {
                proof {
                    lemma_row_stops(exprs@, l, model, (i + 1) as nat, model.len(), answers@);
                }
                return Err(e);
            },
        }
        i = i + 1;
    }
    let row = Tuple { values };
    assert(row@ =~= data_of(values@));
    Ok(row)
}

proof fn lemma_rows_stop(
    rows: Seq<Vec<SqlExpr>>,
    m: nat,
    n: nat,
    list: Option<Seq<nat>>,
    fields: Seq<FieldModel>,
    into: Seq<char>,
    table: Seq<(Question, Answer)>,
)
    requires
        m <= n <= rows.len(),
        inserted_rows(rows, m, list, fields, into, table) is Err,
    ensures
        inserted_rows(rows, n, list, fields, into, table) == inserted_rows(
            rows,
            m,
            list,
            fields,
            into,
            table,
        ),
    decreases n,
{
    if m < n {
        lemma_rows_stop(rows, m, (n - 1) as nat, list, fields, into, table);
    }
}

fn bind_rows(
    rows: &Vec<Vec<SqlExpr>>,
    list: &Option<Vec<usize>>,
    fields: &Vec<Field>,
    table_name: &str,
    answers: &Answers,
) -> (r: Result<Vec<Tuple>, QueryError>)
    ensures
        match r {
            Ok(out) => inserted_rows(
                rows@,
                rows@.len(),
                opt_positions(*list),
                fields_of(fields@),
                table_name@,
                answers@,
            ) == Ok::<Seq<Row>, Fault>(rows_of(out@)),
            Err(e) => inserted_rows(
                rows@,
                rows@.len(),
                opt_positions(*list),
                fields_of(fields@),
                table_name@,
                answers@,
            ) == Err::<Seq<Row>, Fault>(e@),
        },
{
    let ghost model = fields_of(fields@);
    let ghost l = opt_positions(*list);
    let mut out: Vec<Tuple> = Vec::new();
    let mut i: usize = 0;
    assert(rows_of(out@) =~= Seq::<Row>::empty());
    while i < rows.len()
        invariant
            i <= rows@.len(),
            model == fields_of(fields@),
            l == opt_positions(*list),
            inserted_rows(rows@, i as nat, l, model, table_name@, answers@) == Ok::<
                Seq<Row>,
                Fault,
            >(rows_of(out@)),
        decreases rows@.len() - i,
    {
        let ghost before = rows_of(out@);
        match bind_row(&rows[i], list, fields, table_name, answers) {
            Ok(row) => {
                out.push(row);
                assert(rows_of(out@) =~= before.push(row@));
            },
            Err(e) => {
                proof {
                    lemma_rows_stop(
                        rows@,
                        (i + 1) as nat,
                        rows@.len(),
                        l,
                        model,
                        table_name@,
                        answers@,
                    );
                }
                return Err(e);
            },
        }
        i = i + 1;
    }
    Ok(out)
}

/// The plan of an `INSERT`.
pub fn bind_insert(stmt: &SqlInsert, ctx: &QueryContext) -> (r: Result<LogicalNode, QueryError>)
    requires
        ctx@.wf(),
    ensures
        agrees(r, bound_insert(*stmt, ctx@)),
{
    let name = match &stmt.table {
        Some(name) => name,
        None => return Err(QueryError::unsupported("INSERT target must be a table name")),
    };
    let (project, dataset, table_name) = match three_part_name(name) {
        Ok(parts) => parts,
        Err(e) => return Err(e),
    };
    let table = match ctx.catalog.resolve_table(project, dataset, table_name) {
        Ok(table) => table,
        Err(e) => return Err(QueryError::Catalog(e)),
    };
    let list = match resolve_target_columns(
        &stmt.columns,
        &table.schema().fields,
        table.name(),
    ) {
        Ok(list) => list,
        Err(e) => return Err(e),
    };
    let rows = match &stmt.source {
        SqlSource::Values(rows) => rows,
        SqlSource::Absent => return Err(QueryError::unsupported("INSERT without VALUES")),
        SqlSource::Other => return Err(QueryError::unsupported("INSERT source must be VALUES")),
    };
    match bind_rows(rows, &list, &table.schema().fields, table.name(), &ctx.answers) {
        Err(e) => Err(e),
        Ok(data) => {
            let values = LogicalNode::Values { rows: data };
            let node = LogicalNode::Insert { table, input: Box::new(values) };
            assert(logical_tree(values) == LogicalTree::Values(rows_of(data@)));
            Ok(node)
        },
    }
}

} // verus!
