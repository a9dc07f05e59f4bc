//! `SELECT`: the relations, the filter, the order, the projection, and the bounds.

use vstd::prelude::*;

use super::dml::{const_eval, constant};
use super::expr::{bound, visible, Visible};
use super::names::{
    idents_of, name_idents, table_name_fault, three_part_name, unsupported_name,
};
use super::scope::{chars_or_none, relation_columns, scope_schema, ColumnModel, Scope};
use crate::catalog::state::resolved_table;
use crate::catalog::system::{relation_schema, resolved, SystemRelation};
use crate::query::context::{ContextModel, QueryContext};
use crate::query::error::{agrees, Fault, QueryError};
use crate::query::expression::{opt_term, terms_of, Expr, Term};
use crate::query::host::{Answer, Answers, Question};
use crate::query::logical_plan::{LogicalNode, LogicalTree};
use crate::query::planner::ast::{
    SqlBody, SqlConstraint, SqlExpr, SqlFactor, SqlFrom, SqlItem, SqlJoin, SqlJoinKind, SqlLimit,
    SqlOrderBy, SqlOrderTerm, SqlQuery, SqlSelect,
};
use crate::query::volcano::join::model::JoinType;
use crate::query::volcano::sort::{sort_terms, SortKey, SortTerm};
use crate::storage::shown::{show, shown};
use crate::storage::text::{lemma_strung_three, lemma_strung_two, string_together};
use crate::storage::types::{rows_of, Datum, Tuple, Value};

verus! {

/// A source of rows and the columns they have.
pub type Relation = (LogicalTree, Seq<ColumnModel>);

// --- relations ---

/// The name that a relation's columns go by: its alias, else its own name.
pub open spec fn known_as(alias: Option<String>, name: Seq<char>) -> Option<Seq<char>> {
    match alias {
        Some(a) => Some(a@),
        None => Some(name),
    }
}

/// The dataset that a name gives, if it gives one: its last part but one.
pub open spec fn named_dataset(parts: Seq<Seq<char>>) -> Option<Seq<char>> {
    if parts.len() >= 2 {
        Some(parts[parts.len() - 2])
    } else {
        None
    }
}

/// A relation of a `FROM` clause. System relations go by their own names, with or without
/// their schema; a user table needs all three parts of its name.
pub open spec fn bound_factor(factor: SqlFactor, ctx: ContextModel) -> Result<Relation, Fault> {
    match factor {
        SqlFactor::Other(shown) => Err(Fault::Unsupported("FROM relation: "@ + shown@)),
        SqlFactor::Table { name, alias } => match idents_of(name) {
            None => Err(table_name_fault(name)),
            Some(parts) => if parts.len() == 0 || parts.len() > 3 {
                Err(table_name_fault(name))
            } else {
                match resolved(named_dataset(parts), parts.last()) {
                    Some(relation) => Ok(
                        (
                            LogicalTree::SystemScan(relation),
                            relation_columns(
                                known_as(alias, parts.last()),
                                relation_schema(relation),
                            ),
                        ),
                    ),
                    None => if parts.len() != 3 {
                        Err(table_name_fault(name))
                    } else {
                        match resolved_table(ctx.catalog, parts[0], parts[1], parts[2]) {
                            Err(f) => Err(Fault::Catalog(f)),
                            Ok(table) => Ok(
                                (
                                    LogicalTree::Scan(table),
                                    relation_columns(known_as(alias, parts[2]), table.schema),
                                ),
                            ),
                        }
                    },
                }
            },
        },
    }
}

/// The type of a join and its condition. Only `ON` conditions are known; a cross join has
/// none.
pub open spec fn join_shape(join: SqlJoin) -> Result<(JoinType, Option<SqlExpr>), Fault> {
    match join.kind {
        SqlJoinKind::Cross => Ok((JoinType::Inner, None)),
        SqlJoinKind::Other(shown) => Err(Fault::Unsupported("join operator: "@ + shown@)),
        kind => match join.constraint {
            SqlConstraint::Other(shown) => Err(
                Fault::Unsupported("join constraint: "@ + shown@),
            ),
            constraint => Ok(
                (
                    match kind {
                        SqlJoinKind::Left => JoinType::Left,
                        SqlJoinKind::LeftOuter => JoinType::Left,
                        SqlJoinKind::Right => JoinType::Right,
                        SqlJoinKind::RightOuter => JoinType::Right,
                        SqlJoinKind::FullOuter => JoinType::Full,
                        _ => JoinType::Inner,
                    },
                    match constraint {
                        SqlConstraint::On(e) => Some(e),
                        _ => None,
                    },
                ),
            ),
        },
    }
}

/// Two relations joined.
pub open spec fn joined(left: Relation, right: Relation, join_type: JoinType, on: Option<Term>) -> Relation {
    (
        LogicalTree::Join {
            left: Box::new(left.0),
            right: Box::new(right.0),
            on,
            join_type,
            left_schema: scope_schema(left.1),
            right_schema: scope_schema(right.1),
        },
        left.1 + right.1,
    )
}

/// A relation joined with the next. The condition sees the columns of both.
pub open spec fn bound_join(left: Relation, join: SqlJoin, ctx: ContextModel) -> Result<
    Relation,
    Fault,
> {
    match bound_factor(join.relation, ctx) {
        Err(f) => Err(f),
        Ok(right) => match join_shape(join) {
            Err(f) => Err(f),
            Ok(shape) => match shape.1 {
                None => Ok(joined(left, right, shape.0, None)),
                Some(e) => match bound(e, Some(left.1 + right.1), ctx.answers) {
                    Err(f) => Err(f),
                    Ok(t) => Ok(joined(left, right, shape.0, Some(t))),
                },
            },
        },
    }
}

/// A relation and the first `n` joins behind it, from left to right.
pub open spec fn bound_joins(from: SqlFrom, n: nat, ctx: ContextModel) -> Result<Relation, Fault>
    decreases n,
{
    if n == 0 || n > from.joins@.len() {
        bound_factor(from.relation, ctx)
    } else {
        match bound_joins(from, (n - 1) as nat, ctx) {
            Err(f) => Err(f),
            Ok(left) => bound_join(left, from.joins@[n - 1], ctx),
        }
    }
}

/// The first `n` items of a `FROM` clause, every row of each paired with every row of the
/// others.
pub open spec fn bound_items(items: Seq<SqlFrom>, n: nat, ctx: ContextModel) -> Result<
    Relation,
    Fault,
>
    decreases n,
{
    if n == 0 || n > items.len() {
        Ok((LogicalTree::Values(seq![Seq::<Datum>::empty()]), Seq::empty()))
    } else if n == 1 {
        bound_joins(items[0], items[0].joins@.len(), ctx)
    } else {
        match bound_items(items, (n - 1) as nat, ctx) {
            Err(f) => Err(f),
            Ok(left) => match bound_joins(items[n - 1], items[n - 1].joins@.len(), ctx) {
                Err(f) => Err(f),
                Ok(right) => Ok(joined(left, right, JoinType::Inner, None)),
            },
        }
    }
}

/// The source of a `FROM` clause: without one, a single row without columns.
pub open spec fn bound_from(items: Seq<SqlFrom>, ctx: ContextModel) -> Result<Relation, Fault> {
    bound_items(items, items.len(), ctx)
}

// --- order and projection ---

/// The first `n` terms of `ORDER BY`. Nulls come last in ascending order and first in
/// descending order, unless told otherwise.
pub open spec fn bound_sort_keys(
    terms: Seq<SqlOrderTerm>,
    n: nat,
    scope: Visible,
    table: Seq<(Question, Answer)>,
) -> Result<Seq<SortTerm>, Fault>
    decreases n,
{
    if n == 0 || n > terms.len() {
        Ok(Seq::empty())
    } else {
        match bound_sort_keys(terms, (n - 1) as nat, scope, table) {
            Err(f) => Err(f),
            Ok(before) => match bound(terms[n - 1].expr, scope, table) {
                Err(f) => Err(f),
                Ok(t) => Ok(before.push(sort_term(t, terms[n - 1].ascending, terms[n - 1].nulls_first))),
            },
        }
    }
}

/// One sort key with its defaults filled in.
pub open spec fn sort_term(t: Term, ascending: Option<bool>, nulls_first: Option<bool>) -> SortTerm {
    let asc = match ascending {
        Some(a) => a,
        None => true,
    };
    SortTerm {
        expr: t,
        ascending: asc,
        nulls_first: match nulls_first {
            Some(x) => x,
            None => !asc,
        },
    }
}

/// All columns, by position.
pub open spec fn all_columns(n: nat) -> Seq<Term> {
    Seq::new(n, |i: int| Term::Column(i as nat))
}

/// What one item of a select list gives; `*` gives all columns.
pub open spec fn bound_item(
    item: SqlItem,
    columns: Seq<ColumnModel>,
    table: Seq<(Question, Answer)>,
) -> Result<Seq<Term>, Fault> {
    match item {
        SqlItem::Expr(e) => match bound(e, Some(columns), table) {
            Ok(t) => Ok(seq![t]),
            Err(f) => Err(f),
        },
        SqlItem::Wildcard => Ok(all_columns(columns.len())),
        SqlItem::Other(shown) => Err(Fault::Unsupported("projection item: "@ + shown@)),
    }
}

/// What the first `n` items of a select list give.
pub open spec fn bound_projection(
    items: Seq<SqlItem>,
    n: nat,
    columns: Seq<ColumnModel>,
    table: Seq<(Question, Answer)>,
) -> Result<Seq<Term>, Fault>
    decreases n,
{
    if n == 0 || n > items.len() {
        Ok(Seq::empty())
    } else {
        match bound_projection(items, (n - 1) as nat, columns, table) {
            Err(f) => Err(f),
            Ok(before) => match bound_item(items[n - 1], columns, table) {
                Err(f) => Err(f),
                Ok(ts) => Ok(before + ts),
            },
        }
    }
}

// --- queries ---

/// A source with the rows that a condition drops taken out.
pub open spec fn bound_where(
    selection: Option<SqlExpr>,
    source: Relation,
    table: Seq<(Question, Answer)>,
) -> Result<LogicalTree, Fault> {
    match selection {
        None => Ok(source.0),
        Some(e) => match bound(e, Some(source.1), table) {
            Err(f) => Err(f),
            Ok(t) => Ok(LogicalTree::Filter(Box::new(source.0), t)),
        },
    }
}

/// A tree sorted by an `ORDER BY` that sees the columns of the `FROM` clause.
pub open spec fn bound_order(
    order_by: SqlOrderBy,
    tree: LogicalTree,
    columns: Seq<ColumnModel>,
    table: Seq<(Question, Answer)>,
) -> Result<LogicalTree, Fault> {
    match order_by {
        SqlOrderBy::Absent => Ok(tree),
        SqlOrderBy::All => Err(Fault::Unsupported("ORDER BY ALL"@)),
        SqlOrderBy::Terms(terms) => match bound_sort_keys(
            terms@,
            terms@.len(),
            Some(columns),
            table,
        ) {
            Err(f) => Err(f),
            Ok(keys) => Ok(LogicalTree::Sort(Box::new(tree), keys, scope_schema(columns))),
        },
    }
}

/// The tree of a `SELECT`. The sort is below the projection, so that it can order by what is
/// not selected.
pub open spec fn bound_select(select: SqlSelect, order_by: SqlOrderBy, ctx: ContextModel) -> Result<
    LogicalTree,
    Fault,
> {
    if select.distinct {
        Err(Fault::Unsupported("DISTINCT"@))
    } else if select.grouped {
        Err(Fault::Unsupported("GROUP BY"@))
    } else if select.having {
        Err(Fault::Unsupported("HAVING"@))
    } else {
        match bound_from(select.from@, ctx) {
            Err(f) => Err(f),
            Ok(source) => match bound_where(select.selection, source, ctx.answers) {
                Err(f) => Err(f),
                Ok(kept) => match bound_order(order_by, kept, source.1, ctx.answers) {
                    Err(f) => Err(f),
                    Ok(sorted) => match bound_projection(
                        select.projection@,
                        select.projection@.len(),
                        source.1,
                        ctx.answers,
                    ) {
                        Err(f) => Err(f),
                        Ok(ts) => Ok(LogicalTree::Project(Box::new(sorted), ts)),
                    },
                },
            },
        }
    }
}

/// A row count: a constant integer that is not negative. `what` is the clause that counts.
pub open spec fn bound_count(
    e: SqlExpr,
    what: Seq<char>,
    table: Seq<(Question, Answer)>,
) -> Result<usize, Fault> {
    match constant(e, table) {
        Err(f) => Err(f),
        Ok(Datum::Int16(n)) => as_count(n as int, what),
        Ok(Datum::Int32(n)) => as_count(n as int, what),
        Ok(Datum::Int64(n)) => as_count(n as int, what),
        Ok(d) => Err(Fault::Type(what + " expects an integer, got "@ + shown(d))),
    }
}

/// An integer as a row count.
pub open spec fn as_count(n: int, what: Seq<char>) -> Result<usize, Fault> {
    if 0 <= n <= usize::MAX {
        Ok(n as usize)
    } else {
        Err(Fault::Type(what + " must be non-negative"@))
    }
}

/// A tree without its first rows, where an `OFFSET` is given.
pub open spec fn bound_offset(
    offset: Option<SqlExpr>,
    tree: LogicalTree,
    table: Seq<(Question, Answer)>,
) -> Result<LogicalTree, Fault> {
    match offset {
        None => Ok(tree),
        Some(e) => match bound_count(e, "OFFSET"@, table) {
            Err(f) => Err(f),
            Ok(n) => Ok(LogicalTree::Offset(Box::new(tree), n)),
        },
    }
}

/// A tree cut to so many rows, where a `LIMIT` is given.
pub open spec fn bound_limit(
    limit: Option<SqlExpr>,
    tree: LogicalTree,
    table: Seq<(Question, Answer)>,
) -> Result<LogicalTree, Fault> {
    match limit {
        None => Ok(tree),
        Some(e) => match bound_count(e, "LIMIT"@, table) {
            Err(f) => Err(f),
            Ok(n) => Ok(LogicalTree::Limit(Box::new(tree), n)),
        },
    }
}

/// The tree of a query: its rows are first skipped, then counted.
pub open spec fn bound_query(query: SqlQuery, ctx: ContextModel) -> Result<LogicalTree, Fault> {
    if query.fetch {
        Err(Fault::Unsupported("FETCH"@))
    } else if query.order_by is All {
        Err(Fault::Unsupported("ORDER BY ALL"@))
    } else {
        match query.body {
            SqlBody::Other(shown) => Err(Fault::Unsupported("query body: "@ + shown@)),
            SqlBody::Select(select) => match bound_select(select, query.order_by, ctx) {
                Err(f) => Err(f),
                Ok(tree) => match query.limit {
                    SqlLimit::Absent => Ok(tree),
                    SqlLimit::Comma => Err(Fault::Unsupported("`LIMIT offset, count`"@)),
                    SqlLimit::Standard { limit, offset, by } => if by {
                        Err(Fault::Unsupported("LIMIT BY"@))
                    } else {
                        match bound_offset(offset, tree, ctx.answers) {
                            Err(f) => Err(f),
                            Ok(rest) => bound_limit(limit, rest, ctx.answers),
                        }
                    },
                },
            },
        }
    }
}

// --- executable counterparts ---

/// A source of rows and the columns they have, as a specification names them.
pub open spec fn is_relation(node: LogicalNode, scope: Scope, want: Relation) -> bool {
    node@ == want.0 && scope@ == want.1
}

/// Whether a bound relation is the one that a specification names.
pub open spec fn relates(r: Result<(LogicalNode, Scope), QueryError>, want: Result<Relation, Fault>) -> bool {
    match (r, want) {
        (Ok(p), Ok(w)) => is_relation(p.0, p.1, w),
        (Err(e), Err(f)) => e@ == f,
        _ => false,
    }
}

fn relation_name(alias: &Option<String>, name: &str) -> (r: Option<String>)
    ensures
        chars_or_none(r) == known_as(*alias, name@),
{
    match alias {
        Some(a) => Some(a.clone()),
        None => Some(name.to_owned()),
    }
}

/// A relation of a `FROM` clause.
fn bind_table_factor(factor: &SqlFactor, ctx: &QueryContext) -> (r: Result<
    (LogicalNode, Scope),
    QueryError,
>)
    requires
        ctx@.wf(),
    ensures
        relates(r, bound_factor(*factor, ctx@)),
{
    let (name, alias) = match factor {
        SqlFactor::Table { name, alias } => (name, alias),
        SqlFactor::Other(shown) => {
            return Err(QueryError::refused("FROM relation: ", shown.as_str()));
        },
    };
    let parts = match name_idents(name) {
        Ok(parts) => parts,
        Err(e) => return Err(e),
    };
    let ghost model = idents_of(*name)->0;
    assert(model.len() == parts@.len());
    let count: usize = parts.len();
    if count == 0 || count > 3 {
        return Err(unsupported_name("name needs project.dataset.table, got: ", name));
    }
    let leaf: &str = parts[count - 1];
    assert(leaf@ == model.last());
    let dataset: Option<&str> = if count >= 2 {
        Some(parts[count - 2])
    } else {
        None
    };
    if let Some(relation) = SystemRelation::resolve(dataset, leaf) {
        let schema = relation.schema();
        let scope = Scope::for_relation(relation_name(alias, leaf), &schema);
        return Ok((LogicalNode::SystemScan { relation }, scope));
    }
    let (project, dataset_name, table_name) = match three_part_name(name) {
        Ok(t) => t,
        Err(e) => return Err(e),
    };
    match ctx.catalog.resolve_table(project, dataset_name, table_name) {
        Err(e) => Err(QueryError::Catalog(e)),
        Ok(table) => {
            let scope = Scope::for_relation(relation_name(alias, table_name), table.schema());
            Ok((LogicalNode::Scan { table }, scope))
        },
    }
}

/// The type of a join and its condition.
fn join_kind(join: &SqlJoin) -> (r: Result<(JoinType, Option<&SqlExpr>), QueryError>)
    ensures
        match r {
            Ok(shape) => join_shape(*join) == Ok::<(JoinType, Option<SqlExpr>), Fault>(
                (
                    shape.0,
                    match shape.1 {
                        Some(e) => Some(*e),
                        None => None,
                    },
                ),
            ),
            Err(e) => join_shape(*join) == Err::<(JoinType, Option<SqlExpr>), Fault>(e@),
        },
{
    let join_type = match &join.kind {
        SqlJoinKind::Join => JoinType::Inner,
        SqlJoinKind::Inner => JoinType::Inner,
        SqlJoinKind::Left => JoinType::Left,
        SqlJoinKind::LeftOuter => JoinType::Left,
        SqlJoinKind::Right => JoinType::Right,
        SqlJoinKind::RightOuter => JoinType::Right,
        SqlJoinKind::FullOuter => JoinType::Full,
        SqlJoinKind::Cross => return Ok((JoinType::Inner, None)),
        SqlJoinKind::Other(shown) => {
            return Err(QueryError::refused("join operator: ", shown.as_str()));
        },
    };
    match &join.constraint {
        SqlConstraint::Absent => Ok((join_type, None)),
        SqlConstraint::On(e) => Ok((join_type, Some(e))),
        SqlConstraint::Other(shown) => Err(
            QueryError::refused("join constraint: ", shown.as_str()),
        ),
    }
}

/// Two relations joined.
fn join_relations(
    left: (LogicalNode, Scope),
    right: (LogicalNode, Scope),
    join_type: JoinType,
    on: Option<Expr>,
) -> (r: (LogicalNode, Scope))
    ensures
        is_relation(
            r.0,
            r.1,
            joined((left.0@, left.1@), (right.0@, right.1@), join_type, opt_term(on)),
        ),
{
    let left_schema = left.1.schema();
    let right_schema = right.1.schema();
    let scope = Scope::concat(left.1, right.1);
    let node = LogicalNode::Join {
        left: Box::new(left.0),
        right: Box::new(right.0),
        on,
        join_type,
        left_schema,
        right_schema,
    };
    (node, scope)
}

/// A relation joined with the next.
fn bind_join(left: (LogicalNode, Scope), join: &SqlJoin, ctx: &QueryContext) -> (r: Result<
    (LogicalNode, Scope),
    QueryError,
>)
    requires
        ctx@.wf(),
    ensures
        relates(r, bound_join((left.0@, left.1@), *join, ctx@)),
{
    let right = match bind_table_factor(&join.relation, ctx) {
        Ok(right) => right,
        Err(e) => return Err(e),
    };
    let (join_type, constraint) = match join_kind(join) {
        Ok(shape) => shape,
        Err(e) => return Err(e),
    };
    match constraint {
        None => Ok(join_relations(left, right, join_type, None)),
        Some(expr) => {
            let combined = Scope::concat(left.1.clone(), right.1.clone());
            match expr.bind(Some(&combined), &ctx.answers) {
                Err(e) => Err(e),
                Ok(on) => Ok(join_relations(left, right, join_type, Some(on))),
            }
        },
    }
}

proof fn lemma_joins_stop(from: SqlFrom, m: nat, n: nat, ctx: ContextModel)
    requires
        m <= n <= from.joins@.len(),
        bound_joins(from, m, ctx) is Err,
    ensures
        bound_joins(from, n, ctx) == bound_joins(from, m, ctx),
    decreases n,
{
    if m < n {
        lemma_joins_stop(from, m, (n - 1) as nat, ctx);
    }
}

/// A relation and the joins behind it.
fn bind_table_with_joins(from: &SqlFrom, ctx: &QueryContext) -> (r: Result<
    (LogicalNode, Scope),
    QueryError,
>)
    requires
        ctx@.wf(),
    ensures
        relates(r, bound_joins(*from, from.joins@.len(), ctx@)),
{
    let mut source = match bind_table_factor(&from.relation, ctx) {
        Ok(source) => source,
        Err(e) => {
            proof {
                lemma_joins_stop(*from, 0, from.joins@.len(), ctx@);
            }
            return Err(e);
        },
    };
    let mut i: usize = 0;
    while i < from.joins.len()
        invariant
            i <= from.joins@.len(),
            ctx@.wf(),
            bound_joins(*from, i as nat, ctx@) == Ok::<Relation, Fault>((source.0@, source.1@)),
        decreases from.joins@.len() - i,
    {
        match bind_join(source, &from.joins[i], ctx) {
            Ok(next) => {
                source = next;
            },
            Err(e) => {
                proof {
                    lemma_joins_stop(*from, (i + 1) as nat, from.joins@.len(), ctx@);
                }
                return Err(e);
            },
        }
        i = i + 1;
    }
    Ok(source)
}

proof fn lemma_items_stop(items: Seq<SqlFrom>, m: nat, n: nat, ctx: ContextModel)
    requires
        m <= n <= items.len(),
        bound_items(items, m, ctx) is Err,
    ensures
        bound_items(items, n, ctx) == bound_items(items, m, ctx),
    decreases n,
{
    if m < n {
        lemma_items_stop(items, m, (n - 1) as nat, ctx);
    }
}

/// The source of a `FROM` clause.
pub fn bind_from(items: &Vec<SqlFrom>, ctx: &QueryContext) -> (r: Result<
    (LogicalNode, Scope),
    QueryError,
>)
    requires
        ctx@.wf(),
    ensures
        relates(r, bound_from(items@, ctx@)),
{
    if items.len() == 0 {
        let row = Tuple { values: Vec::new() };
        let rows = vec![row];
        assert(row@ =~= Seq::<Datum>::empty());
        assert(rows_of(rows@) =~= seq![Seq::<Datum>::empty()]);
        return Ok((LogicalNode::Values { rows }, Scope::empty()));
    }
    let mut source = match bind_table_with_joins(&items[0], ctx) {
        Ok(source) => source,
        Err(e) => {
            proof {
                lemma_items_stop(items@, 1, items@.len(), ctx@);
            }
            return Err(e);
        },
    };
    let mut i: usize = 1;
    while i < items.len()
        invariant
            1 <= i <= items@.len(),
            ctx@.wf(),
            bound_items(items@, i as nat, ctx@) == Ok::<Relation, Fault>((source.0@, source.1@)),
        decreases items@.len() - i,
    {
        match bind_table_with_joins(&items[i], ctx) {
            Ok(right) => {
                source = join_relations(source, right, JoinType::Inner, None);
            },
            Err(e) => {
                proof {
                    lemma_items_stop(items@, (i + 1) as nat, items@.len(), ctx@);
                }
                return Err(e);
            },
        }
        i = i + 1;
    }
    Ok(source)
}

proof fn lemma_keys_stop(
    terms: Seq<SqlOrderTerm>,
    m: nat,
    n: nat,
    scope: Visible,
    table: Seq<(Question, Answer)>,
)
    requires
        m <= n <= terms.len(),
        bound_sort_keys(terms, m, scope, table) is Err,
    ensures
        bound_sort_keys(terms, n, scope, table) == bound_sort_keys(terms, m, scope, table),
    decreases n,
{
    if m < n {
        lemma_keys_stop(terms, m, (n - 1) as nat, scope, table);
    }
}

/// The terms of `ORDER BY`.
fn bind_sort_keys(terms: &Vec<SqlOrderTerm>, scope: Option<&Scope>, answers: &Answers) -> (r: Result<
    Vec<SortKey>,
    QueryError,
>)
    ensures
        match r {
            Ok(keys) => bound_sort_keys(terms@, terms@.len(), visible(scope), answers@) == Ok::<
                Seq<SortTerm>,
                Fault,
            >(sort_terms(keys@)),
            Err(e) => bound_sort_keys(terms@, terms@.len(), visible(scope), answers@) == Err::<
                Seq<SortTerm>,
                Fault,
            >(e@),
        },
{
    let mut keys: Vec<SortKey> = Vec::new();
    let mut i: usize = 0;
    assert(sort_terms(keys@) =~= Seq::<SortTerm>::empty());
    while i < terms.len()
        invariant
            i <= terms@.len(),
            bound_sort_keys(terms@, i as nat, visible(scope), answers@) == Ok::<
                Seq<SortTerm>,
                Fault,
            >(sort_terms(keys@)),
        decreases terms@.len() - i,
    {
        let ghost before = sort_terms(keys@);
        match terms[i].expr.bind(scope, answers) {
            Ok(expr) => {
                let ascending: bool = match terms[i].ascending {
                    Some(a) => a,
                    None => true,
                };
                let nulls_first: bool = match terms[i].nulls_first {
                    Some(x) => x,
                    None => !ascending,
                };
                let key = SortKey { expr, ascending, nulls_first };
                keys.push(key);
                assert(sort_terms(keys@) =~= before.push(key@));
            },
            Err(e) => {
                proof {
                    lemma_keys_stop(
                        terms@,
                        (i + 1) as nat,
                        terms@.len(),
                        visible(scope),
                        answers@,
                    );
                }
                return Err(e);
            },
        }
        i = i + 1;
    }
    Ok(keys)
}

/// What one item of a select list gives, put behind what is there.
fn bind_item(item: &SqlItem, scope: &Scope, answers: &Answers, out: &mut Vec<Expr>) -> (r: Result<
    (),
    QueryError,
>)
    ensures
        match r {
            Ok(_) => match bound_item(*item, scope@, answers@) {
                Ok(ts) => terms_of(final(out)@) == terms_of(old(out)@) + ts,
                Err(_) => false,
            },
            Err(e) => bound_item(*item, scope@, answers@) == Err::<Seq<Term>, Fault>(e@),
        },
{
    let ghost before = terms_of(out@);
    match item {
        SqlItem::Expr(e) => match e.bind(Some(scope), answers) {
            Ok(t) => {
                out.push(t);
                assert(terms_of(out@) =~= before + seq![t@]);
                Ok(())
            },
            Err(error) => Err(error),
        },
        SqlItem::Wildcard => {
            let n: usize = scope.len();
            let mut i: usize = 0;
            assert(terms_of(out@) =~= before + all_columns(0));
            while i < n
                invariant
                    i <= n,
                    terms_of(out@) == before + all_columns(i as nat),
                decreases n - i,
            {
                let ghost so_far = terms_of(out@);
                let column = Expr::column(i);
                out.push(column);
                assert(terms_of(out@) =~= so_far.push(column@));
                assert(all_columns((i + 1) as nat) =~= all_columns(i as nat).push(column@));
                assert(terms_of(out@) =~= before + all_columns((i + 1) as nat));
                i = i + 1;
            }
            Ok(())
        },
        SqlItem::Other(shown) => Err(QueryError::refused("projection item: ", shown.as_str())),
    }
}

proof fn lemma_projection_stops(
    items: Seq<SqlItem>,
    m: nat,
    n: nat,
    columns: Seq<ColumnModel>,
    table: Seq<(Question, Answer)>,
)
    requires
        m <= n <= items.len(),
        bound_projection(items, m, columns, table) is Err,
    ensures
        bound_projection(items, n, columns, table) == bound_projection(items, m, columns, table),
    decreases n,
{
    if m < n {
        lemma_projection_stops(items, m, (n - 1) as nat, columns, table);
    }
}

/// What a select list gives.
fn bind_projection(items: &Vec<SqlItem>, scope: &Scope, answers: &Answers) -> (r: Result<
    Vec<Expr>,
    QueryError,
>)
    ensures
        match r {
            Ok(out) => bound_projection(items@, items@.len(), scope@, answers@) == Ok::<
                Seq<Term>,
                Fault,
            >(terms_of(out@)),
            Err(e) => bound_projection(items@, items@.len(), scope@, answers@) == Err::<
                Seq<Term>,
                Fault,
            >(e@),
        },
{
    let mut out: Vec<Expr> = Vec::new();
    let mut i: usize = 0;
    assert(terms_of(out@) =~= Seq::<Term>::empty());
    while i < items.len()
        invariant
            i <= items@.len(),
            bound_projection(items@, i as nat, scope@, answers@) == Ok::<Seq<Term>, Fault>(
                terms_of(out@),
            ),
        decreases items@.len() - i,
    {
        match bind_item(&items[i], scope, answers, &mut out) {
            Ok(_) => {},
            Err(e) => {
                proof {
                    lemma_projection_stops(
                        items@,
                        (i + 1) as nat,
                        items@.len(),
                        scope@,
                        answers@,
                    );
                }
                return Err(e);
            },
        }
        i = i + 1;
    }
    Ok(out)
}

/// A source with the rows that a condition drops taken out.
fn bind_where(
    selection: &Option<SqlExpr>,
    source: LogicalNode,
    scope: &Scope,
    answers: &Answers,
) -> (r: Result<LogicalNode, QueryError>)
    ensures
        agrees(r, bound_where(*selection, (source@, scope@), answers@)),
{
    match selection {
        None => Ok(source),
        Some(pred) => match pred.bind(Some(scope), answers) {
            Ok(predicate) => Ok(LogicalNode::Filter { input: Box::new(source), predicate }),
            Err(e) => Err(e),
        },
    }
}

/// A source sorted by an `ORDER BY`.
fn bind_order(order_by: &SqlOrderBy, source: LogicalNode, scope: &Scope, answers: &Answers) -> (r:
    Result<LogicalNode, QueryError>)
    ensures
        agrees(r, bound_order(*order_by, source@, scope@, answers@)),
{
    match order_by {
        SqlOrderBy::Absent => Ok(source),
        SqlOrderBy::All => Err(QueryError::unsupported("ORDER BY ALL")),
        SqlOrderBy::Terms(terms) => match bind_sort_keys(terms, Some(scope), answers) {
            Ok(keys) => Ok(
                LogicalNode::Sort { input: Box::new(source), keys, input_schema: scope.schema() },
            ),
            Err(e) => Err(e),
        },
    }
}

/// The tree of a `SELECT`.
pub fn bind_select(select: &SqlSelect, order_by: &SqlOrderBy, ctx: &QueryContext) -> (r: Result<
    LogicalNode,
    QueryError,
>)
    requires
        ctx@.wf(),
    ensures
        agrees(r, bound_select(*select, *order_by, ctx@)),
{
    if select.distinct {
        return Err(QueryError::unsupported("DISTINCT"));
    }
    if select.grouped {
        return Err(QueryError::unsupported("GROUP BY"));
    }
    if select.having {
        return Err(QueryError::unsupported("HAVING"));
    }
    let (source, scope) = match bind_from(&select.from, ctx) {
        Ok(source) => source,
        Err(e) => return Err(e),
    };
    let kept = match bind_where(&select.selection, source, &scope, &ctx.answers) {
        Ok(kept) => kept,
        Err(e) => return Err(e),
    };
    let sorted = match bind_order(order_by, kept, &scope, &ctx.answers) {
        Ok(sorted) => sorted,
        Err(e) => return Err(e),
    };
    match bind_projection(&select.projection, &scope, &ctx.answers) {
        Ok(expressions) => Ok(LogicalNode::Project { input: Box::new(sorted), expressions }),
        Err(e) => Err(e),
    }
}

/// A row count.
pub fn bind_count(expr: &SqlExpr, answers: &Answers, what: &str) -> (r: Result<usize, QueryError>)
    ensures
        match r {
            Ok(n) => bound_count(*expr, what@, answers@) == Ok::<usize, Fault>(n),
            Err(e) => bound_count(*expr, what@, answers@) == Err::<usize, Fault>(e@),
        },
{
    let n: i64 = match const_eval(expr, answers) {
        Err(e) => return Err(e),
        Ok(Value::Int16(n)) => n as i64,
        Ok(Value::Int32(n)) => n as i64,
        Ok(Value::Int64(n)) => n,
        Ok(other) => {
            let got = show(&other);
            let parts = vec![what, " expects an integer, got ", got.as_str()];
            proof {
                lemma_strung_three(parts@);
            }
            return Err(QueryError::Type(string_together(&parts)));
        },
    };
    if n < 0 || n as u64 > usize::MAX as u64 {
        let parts = vec![what, " must be non-negative"];
        proof {
            lemma_strung_two(parts@);
        }
        return Err(QueryError::Type(string_together(&parts)));
    }
    Ok(n as usize)
}

fn bind_offset(offset: &Option<SqlExpr>, node: LogicalNode, answers: &Answers) -> (r: Result<
    LogicalNode,
    QueryError,
>)
    ensures
        agrees(r, bound_offset(*offset, node@, answers@)),
{
    match offset {
        None => Ok(node),
        Some(expr) => match bind_count(expr, answers, "OFFSET") {
            Ok(count) => Ok(LogicalNode::Offset { input: Box::new(node), count }),
            Err(e) => Err(e),
        },
    }
}

fn bind_limit(limit: &Option<SqlExpr>, node: LogicalNode, answers: &Answers) -> (r: Result<
    LogicalNode,
    QueryError,
>)
    ensures
        agrees(r, bound_limit(*limit, node@, answers@)),
{
    match limit {
        None => Ok(node),
        Some(expr) => match bind_count(expr, answers, "LIMIT") {
            Ok(count) => Ok(LogicalNode::Limit { input: Box::new(node), count }),
            Err(e) => Err(e),
        },
    }
}

/// The tree of a query.
pub fn bind_query(query: &SqlQuery, ctx: &QueryContext) -> (r: Result<LogicalNode, QueryError>)
    requires
        ctx@.wf(),
    ensures
        agrees(r, bound_query(*query, ctx@)),
{
    if query.fetch {
        return Err(QueryError::unsupported("FETCH"));
    }
    if let SqlOrderBy::All = &query.order_by {
        return Err(QueryError::unsupported("ORDER BY ALL"));
    }
    let select = match &query.body {
        SqlBody::Select(select) => select,
        SqlBody::Other(shown) => {
            return Err(QueryError::refused("query body: ", shown.as_str()));
        },
    };
    let node = match bind_select(select, &query.order_by, ctx) {
        Ok(node) => node,
        Err(e) => return Err(e),
    };
    match &query.limit {
        SqlLimit::Absent => Ok(node),
        SqlLimit::Comma => Err(QueryError::unsupported("`LIMIT offset, count`")),
        SqlLimit::Standard { limit, offset, by } => {
            if *by {
                return Err(QueryError::unsupported("LIMIT BY"));
            }
            match bind_offset(offset, node, &ctx.answers) {
                Ok(rest) => bind_limit(limit, rest, &ctx.answers),
                Err(e) => Err(e),
            }
        },
    }
}

} // verus!
