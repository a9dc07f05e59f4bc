//! What an `INSERT` stores: the values that are given, each in the column that it is given for,
//! and defaults in the columns that are given none.

use vstd::prelude::*;

use super::dml::{
    bound_insert, coerced, coerced_items, constant, default_value, field_position, field_value, given_at,
    given_value, inserted_row, inserted_rows, place_in, row_values, target_field, target_fields,
    targets,
};
use super::dml_laws::law_own_type_is_kept;
use super::names::three_parts;
use crate::catalog::state::resolved_table;
use crate::catalog::tables::TableModel;
use crate::query::context::ContextModel;
use crate::query::error::Fault;
use crate::query::expression::cast::cast_value;
use crate::query::expression::eval::evaluated;
use crate::query::host::{Answer, Question};
use crate::query::logical_plan::LogicalTree;
use crate::query::planner::ast::{SqlExpr, SqlInsert, SqlName, SqlSource};
use crate::query::volcano::rows::Row;
use crate::storage::codec::roundtrip::has_type;
use crate::storage::decimal::DecimalParts;
use crate::storage::types::{Datum, FieldModel, LogicalType};

verus! {

/// Whether the `p`th given value is for field `i`.
pub open spec fn aims_at(list: Option<Seq<nat>>, p: nat, i: nat) -> bool {
    match list {
        None => p == i,
        Some(l) => p < l.len() && l[p as int] == i,
    }
}

/// The number that an integer is, whatever its width.
pub open spec fn number(d: Datum) -> Option<int> {
    match d {
        Datum::Int16(n) => Some(n as int),
        Datum::Int32(n) => Some(n as int),
        Datum::Int64(n) => Some(n as int),
        _ => None,
    }
}

/// The numbers of an integer type.
pub open spec fn holds(ty: LogicalType, n: int) -> bool {
    match ty {
        LogicalType::Int16 => -0x8000 <= n <= 0x7fff,
        LogicalType::Int32 => -0x8000_0000 <= n <= 0x7fff_ffff,
        LogicalType::Int64 => -0x8000_0000_0000_0000 <= n <= 0x7fff_ffff_ffff_ffff,
        _ => false,
    }
}

/// Whether `stored` is what a column keeps of a value: a value of the column's own type as it
/// is, a null where the column takes nulls, an integer in another integer type as the same
/// number.
pub open spec fn kept(d: Datum, stored: Datum, field: FieldModel) -> bool {
    &&& d is Null ==> stored is Null && field.nullable
    &&& stored is Null ==> d is Null
    &&& has_type(d, field.ty) ==> stored == d
    &&& number(d) is Some && number(stored) is Some ==> number(d) == number(stored)
}

/// What coercion does with nulls, with values of the column's type, and with integers. It looks
/// at the value and at the column's type alone.
pub proof fn law_coercion_keeps_the_value(
    d: Datum,
    field: FieldModel,
    table: Seq<(Question, Answer)>,
)
    ensures
        ({
            let r = coerced(d, field.ty, field.nullable, field.name, table);
            &&& r is Ok ==> kept(d, r->Ok_0, field)
            &&& d is Null && !field.nullable ==> r is Err && r->Err_0 is Type
            &&& d is Null && field.nullable ==> r == Ok::<Datum, Fault>(Datum::Null)
            &&& has_type(d, field.ty) ==> r == Ok::<Datum, Fault>(d)
            &&& (number(d) is Some && (field.ty is Int16 || field.ty is Int32
                || field.ty is Int64)) ==> if holds(field.ty, number(d)->0) {
                r is Ok && number(r->Ok_0) == number(d)
            } else {
                r is Err && r->Err_0 is Type
            }
            &&& number(d) is Some && field.ty is Numeric ==> r == Ok::<Datum, Fault>(
                Datum::Numeric(DecimalParts::whole(number(d)->0)),
            )
        }),
{
    if has_type(d, field.ty) {
        law_own_type_is_kept(d, field.ty, field.nullable, field.name, table);
    }
}

/// What a column takes of a value of another type is what casting the value to the column's type
/// gives.
pub proof fn law_coercions_are_casts(
    d: Datum,
    field: FieldModel,
    table: Seq<(Question, Answer)>,
    v: Datum,
)
    requires
        coerced(d, field.ty, field.nullable, field.name, table) == Ok::<Datum, Fault>(v),
        !(d is Array),
    ensures
        cast_value(d, field.ty, table) == Ok::<Datum, Fault>(v),
{
}

/// A column takes a value of its own type, an integer for any number type, a decimal for a float
/// type, a float for the other float type, a null where it takes nulls, and an array for an
/// array type. Anything else is a type error.
pub proof fn law_other_values_are_refused(
    d: Datum,
    field: FieldModel,
    table: Seq<(Question, Answer)>,
)
    ensures
        ({
            let ty = field.ty;
            let float = ty is Float32 || ty is Float64;
            let whole = ty is Int16 || ty is Int32 || ty is Int64;
            let taken = {
                ||| d is Null && field.nullable
                ||| has_type(d, ty)
                ||| number(d) is Some && (whole || float || ty is Numeric)
                ||| (d is Numeric || d is Float32 || d is Float64) && float
                ||| d is Numeric && ty is Numeric
                ||| d is Array && ty is Array
            };
            let r = coerced(d, ty, field.nullable, field.name, table);
            !taken ==> r is Err && r->Err_0 is Type
        }),
{
}

/// An array goes into a column element by element: as many, each as a column of the element type
/// that takes no nulls keeps it.
pub proof fn law_arrays_are_stored_by_element(
    items: Seq<Datum>,
    elem: LogicalType,
    field: FieldModel,
    table: Seq<(Question, Answer)>,
    stored: Seq<Datum>,
    i: int,
)
    requires
        field.ty == LogicalType::Array(Box::new(elem)),
        coerced(Datum::Array(items), field.ty, field.nullable, field.name, table) == Ok::<
            Datum,
            Fault,
        >(Datum::Array(stored)),
        0 <= i < items.len(),
    ensures
        stored.len() == items.len(),
        !(items[i] is Null),
        coerced(items[i], elem, false, field.name, table) == Ok::<Datum, Fault>(stored[i]),
{
    lemma_elements(items, items.len(), elem, field.name, table, i);
}

proof fn lemma_elements(
    items: Seq<Datum>,
    n: nat,
    elem: LogicalType,
    column: Seq<char>,
    table: Seq<(Question, Answer)>,
    i: int,
)
    requires
        0 <= i < n <= items.len(),
        coerced_items(items, n, elem, column, table) is Ok,
    ensures
        coerced_items(items, n, elem, column, table)->Ok_0.len() == n,
        !(items[i] is Null),
        coerced(items[i], elem, false, column, table) == Ok::<Datum, Fault>(
            coerced_items(items, n, elem, column, table)->Ok_0[i],
        ),
    decreases n,
{
    if i < n - 1 {
        lemma_elements(items, (n - 1) as nat, elem, column, table, i);
    } else if n > 1 {
        lemma_elements(items, (n - 1) as nat, elem, column, table, i - 1);
    }
}

proof fn lemma_place(list: Seq<nat>, n: nat, p: nat, i: nat)
    requires
        p < n <= list.len(),
        list[p as int] == i,
        list.no_duplicates(),
    ensures
        place_in(list, n, i) == Some(p),
    decreases n,
{
    if p < n - 1 {
        assert(list[n - 1] != i);
        lemma_place(list, (n - 1) as nat, p, i);
    }
}

proof fn lemma_no_place(list: Seq<nat>, n: nat, i: nat)
    requires
        n <= list.len(),
        forall|p: int| 0 <= p < n ==> list[p] != i,
    ensures
        place_in(list, n, i) is None,
    decreases n,
{
    if n > 0 {
        lemma_no_place(list, (n - 1) as nat, i);
    }
}

/// A column for which a value is given gets that value, whatever its default is: as it is
/// where it is of the column's type, as a null where it is null and the column takes nulls. A
/// null for a column that takes none is refused.
pub proof fn law_given_value_is_stored(
    exprs: Seq<SqlExpr>,
    list: Option<Seq<nat>>,
    fields: Seq<FieldModel>,
    i: nat,
    p: nat,
    table: Seq<(Question, Answer)>,
)
    requires
        i < fields.len(),
        p < exprs.len(),
        aims_at(list, p, i),
        list is Some ==> exprs.len() <= list->0.len() && list->0.no_duplicates(),
    ensures
        ({
            let field = fields[i as int];
            let r = field_value(exprs, list, fields, i, table);
            match constant(exprs[p as int], table) {
                Err(f) => r == Err::<Datum, Fault>(f),
                Ok(d) => {
                    &&& r is Ok ==> kept(d, r->Ok_0, field)
                    &&& d is Null && field.nullable ==> r == Ok::<Datum, Fault>(Datum::Null)
                    &&& d is Null && !field.nullable ==> r is Err && r->Err_0 is Type
                    &&& has_type(d, field.ty) ==> r == Ok::<Datum, Fault>(d)
                },
            }
        }),
{
    reveal(field_value);
    if let Some(l) = list {
        lemma_place(l, exprs.len(), p, i);
    }
    if let Ok(d) = constant(exprs[p as int], table) {
        law_coercion_keeps_the_value(d, fields[i as int], table);
    }
}

/// Where a value is given for a column, what is stored does not depend on the column's default.
pub proof fn law_given_value_ignores_the_default(
    exprs: Seq<SqlExpr>,
    list: Option<Seq<nat>>,
    fields: Seq<FieldModel>,
    others: Seq<FieldModel>,
    i: nat,
    p: nat,
    table: Seq<(Question, Answer)>,
)
    requires
        i < fields.len(),
        i < others.len(),
        fields[i as int].name == others[i as int].name,
        fields[i as int].ty == others[i as int].ty,
        fields[i as int].nullable == others[i as int].nullable,
        p < exprs.len(),
        aims_at(list, p, i),
        list is Some ==> exprs.len() <= list->0.len() && list->0.no_duplicates(),
    ensures
        field_value(exprs, list, fields, i, table) == field_value(exprs, list, others, i, table),
{
    reveal(field_value);
    if let Some(l) = list {
        lemma_place(l, exprs.len(), p, i);
    }
}

/// A column for which no value is given gets its default, as if that had been given; without a
/// default it gets a null, where it takes nulls, and the row is refused where it takes none.
pub proof fn law_default_fills_the_gap(
    exprs: Seq<SqlExpr>,
    list: Option<Seq<nat>>,
    fields: Seq<FieldModel>,
    i: nat,
    table: Seq<(Question, Answer)>,
)
    requires
        i < fields.len(),
        forall|p: nat| p < exprs.len() ==> !#[trigger] aims_at(list, p, i),
        list is Some ==> exprs.len() <= list->0.len(),
    ensures
        ({
            let field = fields[i as int];
            let r = field_value(exprs, list, fields, i, table);
            match field.default {
                None => if field.nullable {
                    r == Ok::<Datum, Fault>(Datum::Null)
                } else {
                    r is Err && r->Err_0 is Type
                },
                Some(t) => match evaluated(t, Seq::empty(), table) {
                    Err(f) => r == Err::<Datum, Fault>(f),
                    Ok(d) => {
                        &&& r is Ok ==> kept(d, r->Ok_0, field)
                        &&& d is Null && field.nullable ==> r == Ok::<Datum, Fault>(Datum::Null)
                        &&& d is Null && !field.nullable ==> r is Err && r->Err_0 is Type
                        &&& has_type(d, field.ty) ==> r == Ok::<Datum, Fault>(d)
                    },
                },
            }
        }),
{
    reveal(field_value);
    match list {
        Some(l) => {
            assert forall|p: int| 0 <= p < exprs.len() implies l[p] != i by {
                assert(!aims_at(list, p as nat, i));
            }
            lemma_no_place(l, exprs.len(), i);
        },
        None => {
            if i < exprs.len() {
                assert(!aims_at(list, i, i));
            }
        },
    }
    if let Some(t) = fields[i as int].default {
        if let Ok(d) = evaluated(t, Seq::empty(), table) {
            law_coercion_keeps_the_value(d, fields[i as int], table);
        }
    }
}

// --- statements ---

proof fn lemma_position(fields: Seq<FieldModel>, name: Seq<char>, n: nat)
    requires
        n <= fields.len(),
    ensures
        match field_position(fields, name, n) {
            Some(i) => i < n && fields[i as int].name == name && forall|j: int|
                0 <= j < i ==> (#[trigger] fields[j]).name != name,
            None => forall|j: int| 0 <= j < n ==> (#[trigger] fields[j]).name != name,
        },
    decreases n,
{
    if n > 0 {
        lemma_position(fields, name, (n - 1) as nat);
    }
}

/// Whether a listed column is the plain name of a field: the first of that name.
pub open spec fn names_field(column: SqlName, fields: Seq<FieldModel>, i: nat) -> bool {
    &&& i < fields.len()
    &&& column.parts@.len() == 1
    &&& column.parts@[0] is Some
    &&& column.parts@[0]->0@ == fields[i as int].name
    &&& forall|j: int| 0 <= j < i ==> (#[trigger] fields[j]).name != fields[i as int].name
}

proof fn lemma_targets(
    columns: Seq<SqlName>,
    n: nat,
    fields: Seq<FieldModel>,
    into: Seq<char>,
)
    requires
        n <= columns.len(),
        target_fields(columns, n, fields, into) is Ok,
    ensures
        ({
            let list = target_fields(columns, n, fields, into)->Ok_0;
            &&& list.len() == n
            &&& list.no_duplicates()
            &&& forall|p: int|
                0 <= p < n ==> names_field(columns[p], fields, #[trigger] list[p])
        }),
    decreases n,
{
    if n > 0 {
        lemma_targets(columns, (n - 1) as nat, fields, into);
        let before = target_fields(columns, (n - 1) as nat, fields, into)->Ok_0;
        let column = columns[n - 1];
        let i = target_field(column, fields, into)->Ok_0;
        lemma_position(fields, column.parts@[0]->0@, fields.len());
        let list = before.push(i);
        assert forall|p: int| 0 <= p < n implies names_field(
            columns[p],
            fields,
            #[trigger] list[p],
        ) by {
            if p < n - 1 {
                assert(list[p] == before[p]);
            }
        }
        assert(list.no_duplicates()) by {
            assert forall|a: int, b: int|
                0 <= a < list.len() && 0 <= b < list.len() && a != b implies list[a] != list[b] by {
                if a == n - 1 {
                    assert(before.contains(before[b]));
                } else if b == n - 1 {
                    assert(before.contains(before[a]));
                }
            }
        }
    }
}

/// A column list names the fields of the table one by one, each by its name, and none twice.
/// Without a list the values go by position.
pub proof fn law_targets_are_the_named_fields(
    columns: Seq<SqlName>,
    fields: Seq<FieldModel>,
    into: Seq<char>,
    list: Option<Seq<nat>>,
)
    requires
        targets(columns, fields, into) == Ok::<Option<Seq<nat>>, Fault>(list),
    ensures
        columns.len() == 0 <==> list is None,
        list is Some ==> list->0.len() == columns.len() && list->0.no_duplicates() && forall|p: int|
            0 <= p < columns.len() ==> names_field(columns[p], fields, #[trigger] list->0[p]),
{
    if columns.len() > 0 {
        lemma_targets(columns, columns.len(), fields, into);
    }
}

/// A column list is refused where it names what is no column of the table, or a column twice.
pub proof fn law_bad_column_lists_are_refused(
    columns: Seq<SqlName>,
    fields: Seq<FieldModel>,
    into: Seq<char>,
    p: int,
    q: int,
)
    requires
        0 <= p < columns.len(),
        0 <= q < columns.len(),
        (forall|i: nat| !#[trigger] names_field(columns[p], fields, i)) || (p != q && exists|
            i: nat,
        |
            #[trigger] names_field(columns[p], fields, i) && names_field(columns[q], fields, i)),
    ensures
        targets(columns, fields, into) is Err,
{
    if targets(columns, fields, into) is Ok {
        let list = targets(columns, fields, into)->Ok_0;
        law_targets_are_the_named_fields(columns, fields, into, list);
        let l = list->0;
        assert(names_field(columns[p], fields, l[p]));
        assert(names_field(columns[q], fields, l[q]));
        let i = choose|i: nat|
            #[trigger] names_field(columns[p], fields, i) && names_field(columns[q], fields, i);
        lemma_one_field(columns[p], fields, i, l[p]);
        lemma_one_field(columns[q], fields, i, l[q]);
        assert(l[p] != l[q]);
    }
}

proof fn lemma_one_field(column: SqlName, fields: Seq<FieldModel>, i: nat, j: nat)
    requires
        names_field(column, fields, i),
        names_field(column, fields, j),
    ensures
        i == j,
{
    if i < j {
        assert(fields[i as int].name != fields[j as int].name);
    } else if j < i {
        assert(fields[j as int].name != fields[i as int].name);
    }
}

/// A row may give fewer values than there are columns for them, but not more.
pub proof fn law_too_many_values_are_refused(
    exprs: Seq<SqlExpr>,
    list: Option<Seq<nat>>,
    fields: Seq<FieldModel>,
    into: Seq<char>,
    table: Seq<(Question, Answer)>,
)
    requires
        exprs.len() > match list {
            Some(l) => l.len(),
            None => fields.len(),
        },
    ensures
        inserted_row(exprs, list, fields, into, table) is Err,
        inserted_row(exprs, list, fields, into, table)->Err_0 is Type,
{
}

proof fn lemma_row(
    exprs: Seq<SqlExpr>,
    list: Option<Seq<nat>>,
    fields: Seq<FieldModel>,
    n: nat,
    table: Seq<(Question, Answer)>,
)
    requires
        n <= fields.len(),
        row_values(exprs, list, fields, n, table) is Ok,
    ensures
        row_values(exprs, list, fields, n, table)->Ok_0.len() == n,
        forall|i: int|
            0 <= i < n ==> field_value(exprs, list, fields, i as nat, table) == Ok::<Datum, Fault>(
                #[trigger] row_values(exprs, list, fields, n, table)->Ok_0[i],
            ),
    decreases n,
{
    if n > 0 {
        lemma_row(exprs, list, fields, (n - 1) as nat, table);
        let before = row_values(exprs, list, fields, (n - 1) as nat, table)->Ok_0;
        let row = row_values(exprs, list, fields, n, table)->Ok_0;
        assert forall|i: int| 0 <= i < n implies field_value(
            exprs,
            list,
            fields,
            i as nat,
            table,
        ) == Ok::<Datum, Fault>(#[trigger] row[i]) by {
            if i < n - 1 {
                assert(row[i] == before[i]);
            }
        }
    }
}

proof fn lemma_rows(
    rows: Seq<Vec<SqlExpr>>,
    n: nat,
    list: Option<Seq<nat>>,
    fields: Seq<FieldModel>,
    into: Seq<char>,
    table: Seq<(Question, Answer)>,
    k: int,
)
    requires
        0 <= k < n <= rows.len(),
        inserted_rows(rows, n, list, fields, into, table) is Ok,
    ensures
        inserted_rows(rows, n, list, fields, into, table)->Ok_0.len() == n,
        inserted_row(rows[k]@, list, fields, into, table) == Ok::<Row, Fault>(
            inserted_rows(rows, n, list, fields, into, table)->Ok_0[k],
        ),
    decreases n,
{
    if k < n - 1 {
        lemma_rows(rows, (n - 1) as nat, list, fields, into, table, k);
    } else if n > 1 {
        lemma_rows(rows, (n - 1) as nat, list, fields, into, table, k - 1);
    }
}

/// Which field the `p`th value of an `INSERT` is for, as the statement says it.
pub open spec fn said_for(columns: Seq<SqlName>, fields: Seq<FieldModel>, p: nat, i: nat) -> bool {
    if columns.len() == 0 {
        p == i
    } else {
        p < columns.len() && names_field(columns[p as int], fields, i)
    }
}

/// The rows of an `INSERT` hold the values that the statement gives. For every row of the
/// source and every column of the table: if the statement gives a value for the column, the row
/// holds that value, kept as the column's type keeps it, and a null only where the column takes
/// nulls; if it gives none, the row holds the default, or a null where there is no default.
pub proof fn law_insert_stores_what_it_is_given(
    stmt: SqlInsert,
    ctx: ContextModel,
    target: TableModel,
    rows: Seq<Row>,
    source: Vec<Vec<SqlExpr>>,
    k: int,
    i: nat,
)
    requires
        bound_insert(stmt, ctx) == Ok::<LogicalTree, Fault>(
            LogicalTree::Insert(target, Box::new(LogicalTree::Values(rows))),
        ),
        stmt.source == SqlSource::Values(source),
        0 <= k < source@.len(),
        i < target.schema.len(),
    ensures
        rows.len() == source@.len(),
        rows[k].len() == target.schema.len(),
        forall|p: nat|
            p < source@[k]@.len() && #[trigger] said_for(stmt.columns@, target.schema, p, i) ==> {
                &&& constant(source@[k]@[p as int], ctx.answers) is Ok
                &&& kept(
                    constant(source@[k]@[p as int], ctx.answers)->Ok_0,
                    rows[k][i as int],
                    target.schema[i as int],
                )
            },
        (forall|p: nat|
            p < source@[k]@.len() ==> !#[trigger] said_for(stmt.columns@, target.schema, p, i))
            ==> match target.schema[i as int].default {
            None => target.schema[i as int].nullable && rows[k][i as int] is Null,
            Some(t) => {
                &&& evaluated(t, Seq::empty(), ctx.answers) is Ok
                &&& kept(
                    evaluated(t, Seq::empty(), ctx.answers)->Ok_0,
                    rows[k][i as int],
                    target.schema[i as int],
                )
            },
        },
{
    let table = ctx.answers;
    let fields = target.schema;
    let exprs = source@[k]@;
    let list = targets(stmt.columns@, fields, target.name)->Ok_0;
    lemma_rows(source@, source@.len(), list, fields, target.name, table, k);
    lemma_row(exprs, list, fields, fields.len(), table);
    law_targets_are_the_named_fields(stmt.columns@, fields, target.name, list);
    assert(inserted_row(exprs, list, fields, target.name, table) == Ok::<Row, Fault>(rows[k]));
    let r = field_value(exprs, list, fields, i, table);
    assert(rows[k][i as int] == r->Ok_0 && r is Ok);
    assert forall|p: nat| p < exprs.len() implies said_for(stmt.columns@, fields, p, i)
        == #[trigger] aims_at(list, p, i) by {
        if let Some(l) = list {
            assert(names_field(stmt.columns@[p as int], fields, l[p as int]));
            if names_field(stmt.columns@[p as int], fields, i) && l[p as int] != i {
                let m = l[p as int];
                assert(fields[m as int].name == fields[i as int].name);
                assert(fields[i as int].name == fields[m as int].name);
            }
        }
    }
    assert forall|p: nat|
        p < exprs.len() && #[trigger] said_for(stmt.columns@, fields, p, i) implies {
        &&& constant(exprs[p as int], table) is Ok
        &&& kept(constant(exprs[p as int], table)->Ok_0, rows[k][i as int], fields[i as int])
    } by {
        assert(aims_at(list, p, i));
        law_given_value_is_stored(exprs, list, fields, i, p, table);
    }
    if forall|p: nat| p < exprs.len() ==> !#[trigger] said_for(stmt.columns@, fields, p, i) {
        assert forall|p: nat| p < exprs.len() implies !#[trigger] aims_at(list, p, i) by {
            assert(!said_for(stmt.columns@, fields, p, i));
        }
        law_default_fills_the_gap(exprs, list, fields, i, table);
    }
}

} // verus!
