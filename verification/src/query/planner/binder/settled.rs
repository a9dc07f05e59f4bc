//! Planning again with more answers at hand changes nothing that was settled.

use vstd::prelude::*;

use super::ddl::{bound_columns, bound_create_table, column_options};
use super::dml::{
    bound_insert, coerced, coerced_items, constant, field_value, given_at, inserted_rows,
    row_values, targets,
};
use super::expr::{
    bound, bound_args, bound_branches, bound_list, call_name, operator_of, Visible,
};
use super::names::three_parts;
use super::query::{
    bound_factor, bound_from, bound_items, bound_join, bound_joins, bound_offset, bound_order,
    bound_projection, bound_query, bound_select, bound_sort_keys, bound_where, join_shape, Relation,
};
use super::scope::ColumnModel;
use super::bound_statements;
use crate::catalog::state::resolved_table;
use crate::query::context::ContextModel;
use crate::query::expression::eval::evaluated;
use crate::query::expression::settled::{extends, law_settled_evaluations_stand, settled};
use crate::query::expression::Term;
use crate::query::host::{Answer, Question};
use crate::query::planner::ast::{
    SqlBody, SqlColumn, SqlColumnOption, SqlCreateTable, SqlExpr, SqlFrom, SqlInsert, SqlItem,
    SqlJoin, SqlLimit, SqlOrderBy, SqlOrderTerm, SqlQuery, SqlRounding, SqlSelect, SqlSource,
    SqlStatement,
};
use crate::storage::types::{Datum, FieldModel, LogicalType};

verus! {

// --- expressions ---

proof fn lemma_bound(
    e: SqlExpr,
    scope: Visible,
    less: Seq<(Question, Answer)>,
    more: Seq<(Question, Answer)>,
)
    requires
        extends(less, more),
        settled(bound(e, scope, less)),
    ensures
        bound(e, scope, more) == bound(e, scope, less),
    decreases e, 0nat,
{
    match e {
        SqlExpr::Binary { op, left, right } => {
            if operator_of(op) is Some {
                lemma_bound(*left, scope, less, more);
                if bound(*left, scope, less) is Ok {
                    lemma_bound(*right, scope, less, more);
                }
            }
        },
        SqlExpr::Unary { sign, expr } => {
            if settled(bound(*expr, scope, less)) {
                lemma_bound(*expr, scope, less, more);
            }
        },
        SqlExpr::Nested(inner) => lemma_bound(*inner, scope, less, more),
        SqlExpr::Call { name, has_clause, listed, modified, args } => {
            if let Some(n) = call_name(name) {
                if settled(bound_args(args@, args@.len(), n, scope, less)) {
                    lemma_args(args@, args@.len(), n, scope, less, more);
                }
            }
        },
        SqlExpr::Ceil { expr, to } => {
            if to == SqlRounding::Whole {
                lemma_bound(*expr, scope, less, more);
            }
        },
        SqlExpr::Floor { expr, to } => {
            if to == SqlRounding::Whole {
                lemma_bound(*expr, scope, less, more);
            }
        },
        SqlExpr::IsNull(inner) => lemma_bound(*inner, scope, less, more),
        SqlExpr::IsNotNull(inner) => lemma_bound(*inner, scope, less, more),
        SqlExpr::Between { expr, negated, low, high } => {
            lemma_bound(*expr, scope, less, more);
            if bound(*expr, scope, less) is Ok {
                lemma_bound(*low, scope, less, more);
                if bound(*low, scope, less) is Ok {
                    lemma_bound(*high, scope, less, more);
                }
            }
        },
        SqlExpr::InList { expr, list, negated } => {
            lemma_bound(*expr, scope, less, more);
            if bound(*expr, scope, less) is Ok {
                lemma_list(list@, list@.len(), scope, less, more);
            }
        },
        SqlExpr::Like { expr, pattern, negated, any, escape } => {
            if !any && !escape {
                lemma_bound(*expr, scope, less, more);
                if bound(*expr, scope, less) is Ok {
                    lemma_bound(*pattern, scope, less, more);
                }
            }
        },
        SqlExpr::Substring { expr, from, length } => {
            lemma_bound(*expr, scope, less, more);
            if bound(*expr, scope, less) is Ok {
                if let Some(x) = from {
                    lemma_bound(*x, scope, less, more);
                }
                if from is None || bound(*(from->0), scope, less) is Ok {
                    if let Some(x) = length {
                        lemma_bound(*x, scope, less, more);
                    }
                }
            }
        },
        SqlExpr::Trim { expr, side, what, listed } => {
            if !listed {
                lemma_bound(*expr, scope, less, more);
                if bound(*expr, scope, less) is Ok {
                    if let Some(x) = what {
                        lemma_bound(*x, scope, less, more);
                    }
                }
            }
        },
        SqlExpr::Case { operand, branches, else_result } => {
            if let Some(x) = operand {
                lemma_bound(*x, scope, less, more);
            }
            if operand is None || bound(*(operand->0), scope, less) is Ok {
                let op = match operand {
                    Some(x) => Some(bound(*x, scope, less)->Ok_0),
                    None => None,
                };
                lemma_branches(branches@, branches@.len(), op, scope, less, more);
                if bound_branches(branches@, branches@.len(), op, scope, less) is Ok {
                    if let Some(x) = else_result {
                        lemma_bound(*x, scope, less, more);
                    }
                }
            }
        },
        SqlExpr::Cast { expr, ty } => lemma_bound(*expr, scope, less, more),
        _ => {},
    }
}

proof fn lemma_args(
    args: Seq<Option<SqlExpr>>,
    n: nat,
    name: Seq<char>,
    scope: Visible,
    less: Seq<(Question, Answer)>,
    more: Seq<(Question, Answer)>,
)
    requires
        extends(less, more),
        settled(bound_args(args, n, name, scope, less)),
    ensures
        bound_args(args, n, name, scope, more) == bound_args(args, n, name, scope, less),
    decreases args, n,
{
    if 0 < n <= args.len() {
        lemma_args(args, (n - 1) as nat, name, scope, less, more);
        if bound_args(args, (n - 1) as nat, name, scope, less) is Ok {
            if let Some(e) = args[n - 1] {
                lemma_bound(e, scope, less, more);
            }
        }
    }
}

proof fn lemma_list(
    list: Seq<SqlExpr>,
    n: nat,
    scope: Visible,
    less: Seq<(Question, Answer)>,
    more: Seq<(Question, Answer)>,
)
    requires
        extends(less, more),
        settled(bound_list(list, n, scope, less)),
    ensures
        bound_list(list, n, scope, more) == bound_list(list, n, scope, less),
    decreases list, n,
{
    if 0 < n <= list.len() {
        lemma_list(list, (n - 1) as nat, scope, less, more);
        if bound_list(list, (n - 1) as nat, scope, less) is Ok {
            lemma_bound(list[n - 1], scope, less, more);
        }
    }
}

proof fn lemma_branches(
    branches: Seq<(SqlExpr, SqlExpr)>,
    n: nat,
    operand: Option<Term>,
    scope: Visible,
    less: Seq<(Question, Answer)>,
    more: Seq<(Question, Answer)>,
)
    requires
        extends(less, more),
        settled(bound_branches(branches, n, operand, scope, less)),
    ensures
        bound_branches(branches, n, operand, scope, more) == bound_branches(
            branches,
            n,
            operand,
            scope,
            less,
        ),
    decreases branches, n,
{
    if 0 < n <= branches.len() {
        lemma_branches(branches, (n - 1) as nat, operand, scope, less, more);
        if bound_branches(branches, (n - 1) as nat, operand, scope, less) is Ok {
            lemma_bound(branches[n - 1].0, scope, less, more);
            if bound(branches[n - 1].0, scope, less) is Ok {
                lemma_bound(branches[n - 1].1, scope, less, more);
            }
        }
    }
}

// --- rows to insert ---

proof fn lemma_coerced(
    d: Datum,
    ty: LogicalType,
    nullable: bool,
    column: Seq<char>,
    less: Seq<(Question, Answer)>,
    more: Seq<(Question, Answer)>,
)
    requires
        extends(less, more),
        settled(coerced(d, ty, nullable, column, less)),
    ensures
        coerced(d, ty, nullable, column, more) == coerced(d, ty, nullable, column, less),
    decreases ty, 0nat,
{
    if let Datum::Array(items) = d {
        if let LogicalType::Array(elem) = ty {
            lemma_items(items, items.len(), *elem, column, less, more);
        }
    }
}

proof fn lemma_items(
    items: Seq<Datum>,
    n: nat,
    elem: LogicalType,
    column: Seq<char>,
    less: Seq<(Question, Answer)>,
    more: Seq<(Question, Answer)>,
)
    requires
        extends(less, more),
        settled(coerced_items(items, n, elem, column, less)),
    ensures
        coerced_items(items, n, elem, column, more) == coerced_items(items, n, elem, column, less),
    decreases elem, n,
{
    if 0 < n <= items.len() {
        lemma_items(items, (n - 1) as nat, elem, column, less, more);
        if coerced_items(items, (n - 1) as nat, elem, column, less) is Ok {
            lemma_coerced(items[n - 1], elem, false, column, less, more);
        }
    }
}

proof fn lemma_constant(e: SqlExpr, less: Seq<(Question, Answer)>, more: Seq<(Question, Answer)>)
    requires
        extends(less, more),
        settled(constant(e, less)),
    ensures
        constant(e, more) == constant(e, less),
{
    lemma_bound(e, None, less, more);
    if let Ok(t) = bound(e, None, less) {
        law_settled_evaluations_stand(t, Seq::empty(), less, more);
    }
}

proof fn lemma_field(
    exprs: Seq<SqlExpr>,
    list: Option<Seq<nat>>,
    fields: Seq<FieldModel>,
    i: nat,
    less: Seq<(Question, Answer)>,
    more: Seq<(Question, Answer)>,
)
    requires
        extends(less, more),
        settled(field_value(exprs, list, fields, i, less)),
    ensures
        field_value(exprs, list, fields, i, more) == field_value(exprs, list, fields, i, less),
{
    reveal(field_value);
    let field = fields[i as int];
    match given_at(list, exprs.len(), i) {
        Some(p) => {
            let e = exprs[p as int];
            lemma_constant(e, less, more);
            if let Ok(d) = constant(e, less) {
                lemma_coerced(d, field.ty, field.nullable, field.name, less, more);
            }
        },
        None => {
            if let Some(t) = field.default {
                law_settled_evaluations_stand(t, Seq::empty(), less, more);
                if let Ok(d) = evaluated(t, Seq::empty(), less) {
                    lemma_coerced(d, field.ty, field.nullable, field.name, less, more);
                }
            }
        },
    }
}

proof fn lemma_row(
    exprs: Seq<SqlExpr>,
    list: Option<Seq<nat>>,
    fields: Seq<FieldModel>,
    n: nat,
    less: Seq<(Question, Answer)>,
    more: Seq<(Question, Answer)>,
)
    requires
        extends(less, more),
        settled(row_values(exprs, list, fields, n, less)),
    ensures
        row_values(exprs, list, fields, n, more) == row_values(exprs, list, fields, n, less),
    decreases n,
{
    if 0 < n <= fields.len() {
        lemma_row(exprs, list, fields, (n - 1) as nat, less, more);
        if row_values(exprs, list, fields, (n - 1) as nat, less) is Ok {
            lemma_field(exprs, list, fields, (n - 1) as nat, less, more);
        }
    }
}

proof fn lemma_rows(
    rows: Seq<Vec<SqlExpr>>,
    n: nat,
    list: Option<Seq<nat>>,
    fields: Seq<FieldModel>,
    into: Seq<char>,
    less: Seq<(Question, Answer)>,
    more: Seq<(Question, Answer)>,
)
    requires
        extends(less, more),
        settled(inserted_rows(rows, n, list, fields, into, less)),
    ensures
        inserted_rows(rows, n, list, fields, into, more) == inserted_rows(
            rows,
            n,
            list,
            fields,
            into,
            less,
        ),
    decreases n,
{
    if 0 < n <= rows.len() {
        lemma_rows(rows, (n - 1) as nat, list, fields, into, less, more);
        if inserted_rows(rows, (n - 1) as nat, list, fields, into, less) is Ok {
            if settled(row_values(rows[n - 1]@, list, fields, fields.len(), less)) {
                lemma_row(rows[n - 1]@, list, fields, fields.len(), less, more);
            }
        }
    }
}

// --- tables to create ---

proof fn lemma_options(
    options: Seq<SqlColumnOption>,
    n: nat,
    less: Seq<(Question, Answer)>,
    more: Seq<(Question, Answer)>,
)
    requires
        extends(less, more),
        settled(column_options(options, n, less)),
    ensures
        column_options(options, n, more) == column_options(options, n, less),
    decreases n,
{
    if 0 < n <= options.len() {
        lemma_options(options, (n - 1) as nat, less, more);
        if column_options(options, (n - 1) as nat, less) is Ok {
            if let SqlColumnOption::Default(e) = options[n - 1] {
                lemma_bound(e, None, less, more);
            }
        }
    }
}

proof fn lemma_columns(
    columns: Seq<SqlColumn>,
    n: nat,
    less: Seq<(Question, Answer)>,
    more: Seq<(Question, Answer)>,
)
    requires
        extends(less, more),
        settled(bound_columns(columns, n, less)),
    ensures
        bound_columns(columns, n, more) == bound_columns(columns, n, less),
    decreases n,
{
    if 0 < n <= columns.len() {
        lemma_columns(columns, (n - 1) as nat, less, more);
        if bound_columns(columns, (n - 1) as nat, less) is Ok {
            let options = columns[n - 1].options@;
            if settled(column_options(options, options.len(), less)) {
                lemma_options(options, options.len(), less, more);
            }
        }
    }
}

// --- queries ---

proof fn lemma_join(left: Relation, join: SqlJoin, less: ContextModel, more: ContextModel)
    requires
        extends(less.answers, more.answers),
        less.catalog == more.catalog,
        settled(bound_join(left, join, less)),
    ensures
        bound_join(left, join, more) == bound_join(left, join, less),
{
    if let Ok(right) = bound_factor(join.relation, less) {
        if let Ok(shape) = join_shape(join) {
            if let Some(e) = shape.1 {
                lemma_bound(e, Some(left.1 + right.1), less.answers, more.answers);
            }
        }
    }
}

proof fn lemma_joins(from: SqlFrom, n: nat, less: ContextModel, more: ContextModel)
    requires
        extends(less.answers, more.answers),
        less.catalog == more.catalog,
        settled(bound_joins(from, n, less)),
    ensures
        bound_joins(from, n, more) == bound_joins(from, n, less),
    decreases n,
{
    if 0 < n <= from.joins@.len() {
        lemma_joins(from, (n - 1) as nat, less, more);
        if let Ok(left) = bound_joins(from, (n - 1) as nat, less) {
            lemma_join(left, from.joins@[n - 1], less, more);
        }
    }
}

proof fn lemma_sources(items: Seq<SqlFrom>, n: nat, less: ContextModel, more: ContextModel)
    requires
        extends(less.answers, more.answers),
        less.catalog == more.catalog,
        settled(bound_items(items, n, less)),
    ensures
        bound_items(items, n, more) == bound_items(items, n, less),
    decreases n,
{
    if 0 < n <= items.len() {
        if n == 1 {
            lemma_joins(items[0], items[0].joins@.len(), less, more);
        } else {
            lemma_sources(items, (n - 1) as nat, less, more);
            if bound_items(items, (n - 1) as nat, less) is Ok {
                lemma_joins(items[n - 1], items[n - 1].joins@.len(), less, more);
            }
        }
    }
}

proof fn lemma_sort_keys(
    terms: Seq<SqlOrderTerm>,
    n: nat,
    scope: Visible,
    less: Seq<(Question, Answer)>,
    more: Seq<(Question, Answer)>,
)
    requires
        extends(less, more),
        settled(bound_sort_keys(terms, n, scope, less)),
    ensures
        bound_sort_keys(terms, n, scope, more) == bound_sort_keys(terms, n, scope, less),
    decreases n,
{
    if 0 < n <= terms.len() {
        lemma_sort_keys(terms, (n - 1) as nat, scope, less, more);
        if bound_sort_keys(terms, (n - 1) as nat, scope, less) is Ok {
            lemma_bound(terms[n - 1].expr, scope, less, more);
        }
    }
}

proof fn lemma_projection(
    items: Seq<SqlItem>,
    n: nat,
    columns: Seq<ColumnModel>,
    less: Seq<(Question, Answer)>,
    more: Seq<(Question, Answer)>,
)
    requires
        extends(less, more),
        settled(bound_projection(items, n, columns, less)),
    ensures
        bound_projection(items, n, columns, more) == bound_projection(items, n, columns, less),
    decreases n,
{
    if 0 < n <= items.len() {
        lemma_projection(items, (n - 1) as nat, columns, less, more);
        if bound_projection(items, (n - 1) as nat, columns, less) is Ok {
            if let SqlItem::Expr(e) = items[n - 1] {
                lemma_bound(e, Some(columns), less, more);
            }
        }
    }
}

proof fn lemma_select(
    select: SqlSelect,
    order_by: SqlOrderBy,
    less: ContextModel,
    more: ContextModel,
)
    requires
        extends(less.answers, more.answers),
        less.catalog == more.catalog,
        settled(bound_select(select, order_by, less)),
    ensures
        bound_select(select, order_by, more) == bound_select(select, order_by, less),
{
    let (a, b) = (less.answers, more.answers);
    if !(select.distinct || select.grouped || select.having) {
        lemma_sources(select.from@, select.from@.len(), less, more);
        if let Ok(source) = bound_from(select.from@, less) {
            if let Some(e) = select.selection {
                lemma_bound(e, Some(source.1), a, b);
            }
            if let Ok(kept) = bound_where(select.selection, source, a) {
                if let SqlOrderBy::Terms(terms) = order_by {
                    lemma_sort_keys(terms@, terms@.len(), Some(source.1), a, b);
                }
                if bound_order(order_by, kept, source.1, a) is Ok {
                    let items = select.projection@;
                    lemma_projection(items, items.len(), source.1, a, b);
                }
            }
        }
    }
}

proof fn lemma_query(query: SqlQuery, less: ContextModel, more: ContextModel)
    requires
        extends(less.answers, more.answers),
        less.catalog == more.catalog,
        settled(bound_query(query, less)),
    ensures
        bound_query(query, more) == bound_query(query, less),
{
    let (a, b) = (less.answers, more.answers);
    if !(query.fetch || query.order_by is All) {
        if let SqlBody::Select(select) = query.body {
            lemma_select(select, query.order_by, less, more);
            if let Ok(tree) = bound_select(select, query.order_by, less) {
                if let SqlLimit::Standard { limit, offset, by } = query.limit {
                    if !by {
                        if let Some(e) = offset {
                            lemma_constant(e, a, b);
                        }
                        if bound_offset(offset, tree, a) is Ok {
                            if let Some(e) = limit {
                                lemma_constant(e, a, b);
                            }
                        }
                    }
                }
            }
        }
    }
}

proof fn lemma_insert(stmt: SqlInsert, less: ContextModel, more: ContextModel)
    requires
        extends(less.answers, more.answers),
        less.catalog == more.catalog,
        settled(bound_insert(stmt, less)),
    ensures
        bound_insert(stmt, more) == bound_insert(stmt, less),
{
    if let Some(name) = stmt.table {
        if let Some(parts) = three_parts(name) {
            if let Ok(target) = resolved_table(less.catalog, parts.0, parts.1, parts.2) {
                if let Ok(list) = targets(stmt.columns@, target.schema, target.name) {
                    if let SqlSource::Values(rows) = stmt.source {
                        lemma_rows(
                            rows@,
                            rows@.len(),
                            list,
                            target.schema,
                            target.name,
                            less.answers,
                            more.answers,
                        );
                    }
                }
            }
        }
    }
}

proof fn lemma_create_table(stmt: SqlCreateTable, less: ContextModel, more: ContextModel)
    requires
        extends(less.answers, more.answers),
        less.catalog == more.catalog,
        settled(bound_create_table(stmt, less)),
    ensures
        bound_create_table(stmt, more) == bound_create_table(stmt, less),
{
    let columns = stmt.columns@;
    if settled(bound_columns(columns, columns.len(), less.answers)) {
        lemma_columns(columns, columns.len(), less.answers, more.answers);
    }
}

/// A plan that is settled stays so, or fails for the same reason, whatever is answered later.
/// Planning over and over, with one more answer each time, thus ends where planning once with
/// all the answers would.
pub proof fn law_settled_plans_stand(
    stmts: Seq<SqlStatement>,
    n: nat,
    less: ContextModel,
    more: ContextModel,
)
    requires
        extends(less.answers, more.answers),
        less.catalog == more.catalog,
        settled(bound_statements(stmts, n, less)),
    ensures
        bound_statements(stmts, n, more) == bound_statements(stmts, n, less),
    decreases n,
{
    if 0 < n <= stmts.len() {
        law_settled_plans_stand(stmts, (n - 1) as nat, less, more);
        if bound_statements(stmts, (n - 1) as nat, less) is Ok {
            match stmts[n - 1] {
                SqlStatement::Query(q) => lemma_query(q, less, more),
                SqlStatement::Insert(i) => lemma_insert(i, less, more),
                SqlStatement::CreateTable(c) => lemma_create_table(c, less, more),
                _ => {},
            }
        }
    }
}

} // verus!
