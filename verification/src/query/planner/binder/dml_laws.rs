//! What coercion and insertion promise: a value that is stored is of its column's type.

use vstd::prelude::*;

use super::dml::{
    bound_insert, coerced, coerced_items, constant, field_value, inserted_row, inserted_rows,
    row_values, targets,
};
use super::names::three_parts;
use crate::catalog::state::resolved_table;
use crate::query::context::ContextModel;
use crate::query::error::Fault;
use crate::query::host::{Answer, Question};
use crate::query::logical_plan::LogicalTree;
use crate::query::planner::ast::{SqlExpr, SqlInsert, SqlSource};
use crate::query::volcano::rows::Row;
use crate::storage::codec::roundtrip::{has_type, have_type};
use crate::storage::types::{Datum, FieldModel, LogicalType};

verus! {

/// Whether a value may stand in a column: it is of the column's type, or a null where the
/// column takes nulls.
pub open spec fn fits(d: Datum, field: FieldModel) -> bool {
    (d is Null && field.nullable) || has_type(d, field.ty)
}

/// Whether a row has one value for each column, and each fits.
pub open spec fn row_fits(row: Row, fields: Seq<FieldModel>) -> bool {
    &&& row.len() == fields.len()
    &&& forall|i: int| 0 <= i < row.len() ==> fits(#[trigger] row[i], fields[i])
}

proof fn lemma_have_type_push(items: Seq<Datum>, d: Datum, elem: LogicalType, n: nat)
    requires
        n <= items.len(),
    ensures
        have_type(items.push(d), elem, n) == have_type(items, elem, n),
    decreases n,
{
    if n > 0 {
        lemma_have_type_push(items, d, elem, (n - 1) as nat);
        assert(items.push(d)[n - 1] == items[n - 1]);
    }
}

/// What coercion lets through is of the type it was asked for.
pub proof fn law_coerced_value_has_the_type(
    d: Datum,
    ty: LogicalType,
    nullable: bool,
    column: Seq<char>,
    table: Seq<(Question, Answer)>,
    v: Datum,
)
    requires
        coerced(d, ty, nullable, column, table) == Ok::<Datum, Fault>(v),
    ensures
        (v is Null && nullable) || has_type(v, ty),
    decreases ty, 0nat,
{
    match d {
        Datum::Array(items) => {
            if let LogicalType::Array(elem) = ty {
                lemma_coerced_items(items, items.len(), *elem, column, table);
            }
        },
        _ => {},
    }
}

proof fn lemma_coerced_items(
    items: Seq<Datum>,
    n: nat,
    elem: LogicalType,
    column: Seq<char>,
    table: Seq<(Question, Answer)>,
)
    requires
        n <= items.len(),
        coerced_items(items, n, elem, column, table) is Ok,
    ensures
        coerced_items(items, n, elem, column, table)->Ok_0.len() == n,
        have_type(coerced_items(items, n, elem, column, table)->Ok_0, elem, n),
    decreases elem, n,
{
    if n > 0 {
        let before = coerced_items(items, (n - 1) as nat, elem, column, table)->Ok_0;
        let v = coerced(items[n - 1], elem, false, column, table)->Ok_0;
        lemma_coerced_items(items, (n - 1) as nat, elem, column, table);
        law_coerced_value_has_the_type(items[n - 1], elem, false, column, table, v);
        lemma_have_type_push(before, v, elem, (n - 1) as nat);
        assert(before.push(v)[n - 1] == v);
    }
}

/// A value of a column's own type is stored as it is.
pub proof fn law_own_type_is_kept(
    d: Datum,
    ty: LogicalType,
    nullable: bool,
    column: Seq<char>,
    table: Seq<(Question, Answer)>,
)
    requires
        has_type(d, ty),
    ensures
        coerced(d, ty, nullable, column, table) == Ok::<Datum, Fault>(d),
    decreases ty, 0nat,
{
    match d {
        Datum::Array(items) => {
            if let LogicalType::Array(elem) = ty {
                lemma_items_kept(items, items.len(), *elem, column, table);
                assert(items.take(items.len() as int) =~= items);
            }
        },
        _ => {},
    }
}

proof fn lemma_items_kept(
    items: Seq<Datum>,
    n: nat,
    elem: LogicalType,
    column: Seq<char>,
    table: Seq<(Question, Answer)>,
)
    requires
        n <= items.len(),
        have_type(items, elem, n),
    ensures
        coerced_items(items, n, elem, column, table) == Ok::<Seq<Datum>, Fault>(items.take(n as int)),
    decreases elem, n,
{
    if n > 0 {
        lemma_items_kept(items, (n - 1) as nat, elem, column, table);
        law_own_type_is_kept(items[n - 1], elem, false, column, table);
        assert(items.take(n as int) =~= items.take(n - 1).push(items[n - 1]));
    } else {
        assert(items.take(0) =~= Seq::<Datum>::empty());
    }
}

proof fn lemma_row_values(
    exprs: Seq<SqlExpr>,
    list: Option<Seq<nat>>,
    fields: Seq<FieldModel>,
    n: nat,
    table: Seq<(Question, Answer)>,
)
    requires
        n <= fields.len(),
        row_values(exprs, list, fields, n, table) is Ok,
    ensures
        row_values(exprs, list, fields, n, table)->Ok_0.len() == n,
        forall|i: int|
            0 <= i < n ==> fits(
                #[trigger] row_values(exprs, list, fields, n, table)->Ok_0[i],
                fields[i],
            ),
    decreases n,
{
    if n > 0 {
        lemma_row_values(exprs, list, fields, (n - 1) as nat, table);
        let before = row_values(exprs, list, fields, (n - 1) as nat, table)->Ok_0;
        let field = fields[n - 1];
        let d = field_value(exprs, list, fields, (n - 1) as nat, table)->Ok_0;
        lemma_field_value(exprs, list, fields, (n - 1) as nat, table);
        let row = before.push(d);
        assert forall|i: int| 0 <= i < n implies fits(#[trigger] row[i], fields[i]) by {
            if i < n - 1 {
                assert(row[i] == before[i]);
            }
        }
    }
}

proof fn lemma_field_value(
    exprs: Seq<SqlExpr>,
    list: Option<Seq<nat>>,
    fields: Seq<FieldModel>,
    i: nat,
    table: Seq<(Question, Answer)>,
)
    requires
        field_value(exprs, list, fields, i, table) is Ok,
    ensures
        fits(field_value(exprs, list, fields, i, table)->Ok_0, fields[i as int]),
{
    reveal(field_value);
    let field = fields[i as int];
    let v = field_value(exprs, list, fields, i, table)->Ok_0;
    match super::dml::given_at(list, exprs.len(), i) {
        Some(p) => {
            let d = constant(exprs[p as int], table)->Ok_0;
            law_coerced_value_has_the_type(d, field.ty, field.nullable, field.name, table, v);
        },
        None => {
            if let Some(t) = field.default {
                let d = crate::query::expression::eval::evaluated(t, Seq::empty(), table)->Ok_0;
                law_coerced_value_has_the_type(d, field.ty, field.nullable, field.name, table, v);
            }
        },
    }
}

proof fn lemma_inserted_rows(
    rows: Seq<Vec<SqlExpr>>,
    n: nat,
    list: Option<Seq<nat>>,
    fields: Seq<FieldModel>,
    into: Seq<char>,
    table: Seq<(Question, Answer)>,
)
    requires
        n <= rows.len(),
        inserted_rows(rows, n, list, fields, into, table) is Ok,
    ensures
        inserted_rows(rows, n, list, fields, into, table)->Ok_0.len() == n,
        forall|i: int|
            0 <= i < n ==> row_fits(
                #[trigger] inserted_rows(rows, n, list, fields, into, table)->Ok_0[i],
                fields,
            ),
    decreases n,
{
    if n > 0 {
        lemma_inserted_rows(rows, (n - 1) as nat, list, fields, into, table);
        let before = inserted_rows(rows, (n - 1) as nat, list, fields, into, table)->Ok_0;
        let row = inserted_row(rows[n - 1]@, list, fields, into, table)->Ok_0;
        lemma_row_values(rows[n - 1]@, list, fields, fields.len(), table);
        let all = before.push(row);
        assert forall|i: int| 0 <= i < n implies row_fits(#[trigger] all[i], fields) by {
            if i < n - 1 {
                assert(all[i] == before[i]);
            }
        }
    }
}

/// An `INSERT` that binds gives one row for each row of its source, and every row fits the
/// table that the statement names.
pub proof fn law_inserted_rows_fit_the_table(stmt: SqlInsert, ctx: ContextModel, tree: LogicalTree)
    requires
        bound_insert(stmt, ctx) == Ok::<LogicalTree, Fault>(tree),
    ensures
        match (stmt.source, tree) {
            (SqlSource::Values(source), LogicalTree::Insert(target, input)) => match *input {
                LogicalTree::Values(rows) => {
                    &&& rows.len() == source@.len()
                    &&& forall|i: int|
                        0 <= i < rows.len() ==> row_fits(#[trigger] rows[i], target.schema)
                },
                _ => false,
            },
            _ => false,
        },
{
    let parts = three_parts(stmt.table->0)->0;
    let target = resolved_table(ctx.catalog, parts.0, parts.1, parts.2)->Ok_0;
    let list = targets(stmt.columns@, target.schema, target.name)->Ok_0;
    if let SqlSource::Values(source) = stmt.source {
        lemma_inserted_rows(
            source@,
            source@.len(),
            list,
            target.schema,
            target.name,
            ctx.answers,
        );
    }
}

} // verus!
