//! What a `CREATE TABLE` declares: its columns, as they are written.

use vstd::prelude::*;

use super::ddl::{
    bound_column, bound_columns, bound_create_schema, bound_create_table, column_options,
};
use super::expr::bound;
use super::literal::mapped_type;
use super::names::{dataset_parts, idents_of, three_parts};
use super::{bound_statement, bound_statements};
use crate::catalog::consts::DEFAULT_PROJECT_NAME;
use crate::catalog::keys::{dataset_path, project_path};
use crate::catalog::store::found;
use crate::query::context::ContextModel;
use crate::query::error::Fault;
use crate::query::expression::Term;
use crate::query::host::{Answer, Question};
use crate::query::logical_plan::LogicalTree;
use crate::query::planner::ast::{
    SqlColumn, SqlColumnOption, SqlCreateSchema, SqlCreateTable, SqlExpr, SqlName, SqlStatement,
};
use crate::storage::types::FieldModel;

verus! {

/// Whether `NOT NULL` is the last word that the first `n` options say on nulls.
pub open spec fn refuses_nulls(options: Seq<SqlColumnOption>, n: int) -> bool {
    exists|k: int|
        0 <= k < n && #[trigger] options[k] is NotNull && forall|j: int|
            k < j < n ==> !(#[trigger] options[j] is Null)
}

/// Whether the default that the first `n` options give last is a given expression.
pub open spec fn defaults_to(options: Seq<SqlColumnOption>, n: int, e: SqlExpr) -> bool {
    exists|k: int|
        0 <= k < n && #[trigger] options[k] == SqlColumnOption::Default(e) && forall|j: int|
            k < j < n ==> !(#[trigger] options[j] is Default)
}

proof fn lemma_options(options: Seq<SqlColumnOption>, n: nat, table: Seq<(Question, Answer)>)
    requires
        n <= options.len(),
        column_options(options, n, table) is Ok,
    ensures
        ({
            let o = column_options(options, n, table)->Ok_0;
            &&& o.0 == !refuses_nulls(options, n as int)
            &&& forall|e: SqlExpr| #[trigger]
                defaults_to(options, n as int, e) ==> bound(e, None, table) is Ok && o.1 == Some(
                    bound(e, None, table)->Ok_0,
                )
            &&& (forall|k: int| 0 <= k < n ==> !(#[trigger] options[k] is Default)) ==> o.1 is None
        }),
    decreases n,
{
    if n > 0 {
        let m = (n - 1) as nat;
        lemma_options(options, m, table);
        let before = column_options(options, m, table)->Ok_0;
        let o = column_options(options, n, table)->Ok_0;
        let last = options[m as int];
        match last {
            SqlColumnOption::Null => {
                assert(!refuses_nulls(options, n as int));
            },
            SqlColumnOption::NotNull => {
                assert(options[m as int] is NotNull);
                assert(refuses_nulls(options, n as int));
            },
            _ => {
                if refuses_nulls(options, m as int) {
                    let k = choose|k: int|
                        0 <= k < m && #[trigger] options[k] is NotNull && forall|j: int|
                            k < j < m ==> !(#[trigger] options[j] is Null);
                    assert(options[k] is NotNull);
                    assert(refuses_nulls(options, n as int));
                }
                if refuses_nulls(options, n as int) {
                    let k = choose|k: int|
                        0 <= k < n && #[trigger] options[k] is NotNull && forall|j: int|
                            k < j < n ==> !(#[trigger] options[j] is Null);
                    assert(options[k] is NotNull && k < m);
                    assert(refuses_nulls(options, m as int));
                }
            },
        }
        assert forall|e: SqlExpr| #[trigger] defaults_to(options, n as int, e) implies bound(
            e,
            None,
            table,
        ) is Ok && o.1 == Some(bound(e, None, table)->Ok_0) by {
            let k = choose|k: int|
                0 <= k < n && #[trigger] options[k] == SqlColumnOption::Default(e) && forall|
                    j: int,
                |
                    k < j < n ==> !(#[trigger] options[j] is Default);
            if k < m {
                assert(!(options[m as int] is Default));
                assert(options[k] == SqlColumnOption::Default(e));
                assert(defaults_to(options, m as int, e));
            }
        }
        if forall|k: int| 0 <= k < n ==> !(#[trigger] options[k] is Default) {
            assert(!(options[m as int] is Default));
        }
    }
}

/// Whether a field is the column that is declared: of its name and its type, not null exactly
/// where the last word on nulls is `NOT NULL`, with the default that is given last.
pub open spec fn is_declared(
    col: SqlColumn,
    field: FieldModel,
    table: Seq<(Question, Answer)>,
) -> bool {
    let n = col.options@.len() as int;
    &&& field.name == col.name@
    &&& mapped_type(col.ty) == Some(field.ty)
    &&& field.nullable == !refuses_nulls(col.options@, n)
    &&& forall|e: SqlExpr| #[trigger]
        defaults_to(col.options@, n, e) ==> bound(e, None, table) is Ok && field.default == Some(
            bound(e, None, table)->Ok_0,
        )
    &&& (forall|k: int| 0 <= k < n ==> !(#[trigger] col.options@[k] is Default))
        ==> field.default is None
}

proof fn lemma_columns(columns: Seq<SqlColumn>, n: nat, table: Seq<(Question, Answer)>)
    requires
        n <= columns.len(),
        bound_columns(columns, n, table) is Ok,
    ensures
        bound_columns(columns, n, table)->Ok_0.len() == n,
        forall|i: int|
            0 <= i < n ==> is_declared(
                columns[i],
                #[trigger] bound_columns(columns, n, table)->Ok_0[i],
                table,
            ),
    decreases n,
{
    if n > 0 {
        let m = (n - 1) as nat;
        lemma_columns(columns, m, table);
        let before = bound_columns(columns, m, table)->Ok_0;
        let all = bound_columns(columns, n, table)->Ok_0;
        let col = columns[m as int];
        lemma_options(col.options@, col.options@.len(), table);
        assert(is_declared(col, all[m as int], table));
        assert forall|i: int| 0 <= i < n implies is_declared(
            columns[i],
            #[trigger] all[i],
            table,
        ) by {
            if i < m {
                assert(all[i] == before[i]);
            }
        }
    }
}

/// A `CREATE TABLE` that binds makes the table that it names, in the dataset that it names, with
/// the columns that it declares: one for one, in their order.
pub proof fn law_created_table_has_the_declared_columns(
    stmt: SqlCreateTable,
    ctx: ContextModel,
    tree: LogicalTree,
)
    requires
        bound_create_table(stmt, ctx) == Ok::<LogicalTree, Fault>(tree),
    ensures
        stmt.name.parts@.len() == 3,
        stmt.columns@.len() > 0,
        match tree {
            LogicalTree::CreateTable { project_id, dataset_id, name, schema, or_replace } => {
                &&& stmt.name.parts@[2] is Some && name == stmt.name.parts@[2]->0@
                &&& or_replace == stmt.or_replace
                &&& stmt.name.parts@[0] is Some && found(
                    ctx.catalog.projects,
                    project_path(stmt.name.parts@[0]->0@),
                ) is Some && project_id == (found(
                    ctx.catalog.projects,
                    project_path(stmt.name.parts@[0]->0@),
                )->0).id
                &&& stmt.name.parts@[1] is Some && found(
                    ctx.catalog.datasets,
                    dataset_path(project_id, stmt.name.parts@[1]->0@),
                ) is Some && dataset_id == (found(
                    ctx.catalog.datasets,
                    dataset_path(project_id, stmt.name.parts@[1]->0@),
                )->0).id
                &&& schema.len() == stmt.columns@.len()
                &&& forall|i: int|
                    0 <= i < schema.len() ==> is_declared(
                        stmt.columns@[i],
                        #[trigger] schema[i],
                        ctx.answers,
                    )
            },
            _ => false,
        },
{
    lemma_columns(stmt.columns@, stmt.columns@.len(), ctx.answers);
    let parts = idents_of(stmt.name)->0;
    assert(parts.len() == 3);
    assert(stmt.name.parts@[0] is Some && stmt.name.parts@[1] is Some && stmt.name.parts@[2]
        is Some);
    assert(parts[0] == stmt.name.parts@[0]->0@);
    assert(parts[1] == stmt.name.parts@[1]->0@);
    assert(parts[2] == stmt.name.parts@[2]->0@);
}

/// A `CREATE SCHEMA` that binds makes the dataset that it names: the last part of its name, in
/// the project that the part before gives, or in the default project where there is none.
pub proof fn law_created_schema_is_the_named_one(
    stmt: SqlCreateSchema,
    ctx: ContextModel,
    tree: LogicalTree,
)
    requires
        bound_create_schema(stmt, ctx) == Ok::<LogicalTree, Fault>(tree),
    ensures
        stmt.name is Some,
        match tree {
            LogicalTree::CreateDataset { project_id, name, if_not_exists } => {
                let parts = stmt.name->0.parts@;
                let project = if parts.len() == 2 {
                    parts[0]->0@
                } else {
                    DEFAULT_PROJECT_NAME@
                };
                &&& parts.len() == 1 || parts.len() == 2
                &&& parts.last() is Some && name == parts.last()->0@
                &&& if_not_exists == stmt.if_not_exists
                &&& found(ctx.catalog.projects, project_path(project)) is Some && project_id == (
                found(ctx.catalog.projects, project_path(project))->0).id
            },
            _ => false,
        },
{
    let name = stmt.name->0;
    let parts = idents_of(name)->0;
    assert(parts.len() == name.parts@.len());
    assert(name.parts@[0] is Some);
    assert(parts[0] == name.parts@[0]->0@);
    if parts.len() == 2 {
        assert(name.parts@[1] is Some);
        assert(parts[1] == name.parts@[1]->0@);
    }
}

/// A batch has one plan for each statement, in their order.
pub proof fn law_statements_are_planned_in_order(
    stmts: Seq<SqlStatement>,
    n: nat,
    ctx: ContextModel,
    plans: Seq<LogicalTree>,
)
    requires
        n <= stmts.len(),
        bound_statements(stmts, n, ctx) == Ok::<Seq<LogicalTree>, Fault>(plans),
    ensures
        plans.len() == n,
        forall|i: int|
            0 <= i < n ==> bound_statement(stmts[i], ctx) == Ok::<LogicalTree, Fault>(
                #[trigger] plans[i],
            ),
    decreases n,
{
    if n > 0 {
        let m = (n - 1) as nat;
        let before = bound_statements(stmts, m, ctx)->Ok_0;
        law_statements_are_planned_in_order(stmts, m, ctx, before);
        assert forall|i: int| 0 <= i < n implies bound_statement(stmts[i], ctx) == Ok::<
            LogicalTree,
            Fault,
        >(#[trigger] plans[i]) by {
            if i < m {
                assert(plans[i] == before[i]);
            }
        }
    }
}

} // verus!
