//! `CREATE TABLE` and `CREATE SCHEMA`.

use vstd::prelude::*;

use super::expr::bound;
use super::literal::{bind_data_type, mapped_type, type_refusal};
use super::names::{
    dataset_name, dataset_name_fault, dataset_parts, table_name_fault, three_part_name, three_parts,
};
use crate::catalog::error::{not_found, CatalogFault, ResourceKind};
use crate::catalog::keys::{dataset_path, project_path};
use crate::catalog::store::found;
use crate::query::context::{ContextModel, QueryContext};
use crate::query::error::{agrees, Fault, QueryError};
use crate::query::expression::{opt_term, Expr, Term};
use crate::query::host::{Answer, Answers, Question};
use crate::query::logical_plan::{LogicalNode, LogicalTree};
use crate::query::planner::ast::{SqlColumn, SqlColumnOption, SqlCreateSchema, SqlCreateTable};
use crate::storage::types::{fields_of, Field, FieldModel, FieldName, Schema};

verus! {

/// What the first `n` options say of a column: whether it takes nulls, as it does unless told
/// otherwise, and its default, which sees no columns.
pub open spec fn column_options(
    options: Seq<SqlColumnOption>,
    n: nat,
    table: Seq<(Question, Answer)>,
) -> Result<(bool, Option<Term>), Fault>
    decreases n,
{
    if n == 0 || n > options.len() {
        Ok((true, None))
    } else {
        match column_options(options, (n - 1) as nat, table) {
            Err(f) => Err(f),
            Ok(before) => match options[n - 1] {
                SqlColumnOption::Null => Ok((true, before.1)),
                SqlColumnOption::NotNull => Ok((false, before.1)),
                SqlColumnOption::Default(e) => match bound(e, None, table) {
                    Ok(t) => Ok((before.0, Some(t))),
                    Err(f) => Err(f),
                },
                SqlColumnOption::Other(shown) => Err(
                    Fault::Unsupported("column option: "@ + shown@),
                ),
            },
        }
    }
}

/// The field of a column.
pub open spec fn bound_column(col: SqlColumn, table: Seq<(Question, Answer)>) -> Result<
    FieldModel,
    Fault,
> {
    match mapped_type(col.ty) {
        None => Err(Fault::Unsupported(type_refusal(col.ty))),
        Some(ty) => match column_options(col.options@, col.options@.len(), table) {
            Err(f) => Err(f),
            Ok(o) => Ok(FieldModel { name: col.name@, ty, nullable: o.0, default: o.1 }),
        },
    }
}

/// The fields of the first `n` columns.
pub open spec fn bound_columns(
    columns: Seq<SqlColumn>,
    n: nat,
    table: Seq<(Question, Answer)>,
) -> Result<Seq<FieldModel>, Fault>
    decreases n,
{
    if n == 0 || n > columns.len() {
        Ok(Seq::empty())
    } else {
        match bound_columns(columns, (n - 1) as nat, table) {
            Err(f) => Err(f),
            Ok(before) => match bound_column(columns[n - 1], table) {
                Err(f) => Err(f),
                Ok(field) => Ok(before.push(field)),
            },
        }
    }
}

/// The shape that a column list gives a table: it has at least one column.
pub open spec fn bound_schema(columns: Seq<SqlColumn>, table: Seq<(Question, Answer)>) -> Result<
    Seq<FieldModel>,
    Fault,
> {
    if columns.len() == 0 {
        Err(Fault::Unsupported("CREATE TABLE with no columns"@))
    } else {
        bound_columns(columns, columns.len(), table)
    }
}

/// The plan of a `CREATE TABLE`: an explicit column list without table constraints, in a
/// dataset that exists.
pub open spec fn bound_create_table(stmt: SqlCreateTable, ctx: ContextModel) -> Result<
    LogicalTree,
    Fault,
> {
    if stmt.from_query {
        Err(Fault::Unsupported("CREATE TABLE ... AS SELECT"@))
    } else if stmt.from_table {
        Err(Fault::Unsupported("CREATE TABLE ... LIKE / CLONE"@))
    } else if stmt.constrained {
        Err(Fault::Unsupported("table constraints"@))
    } else {
        match three_parts(stmt.name) {
            None => Err(table_name_fault(stmt.name)),
            Some(parts) => match found(ctx.catalog.projects, project_path(parts.0)) {
                None => Err(
                    Fault::Catalog(CatalogFault::NotFound(ResourceKind::Project, parts.0)),
                ),
                Some(p) => match found(ctx.catalog.datasets, dataset_path(p.id, parts.1)) {
                    None => Err(
                        Fault::Catalog(CatalogFault::NotFound(ResourceKind::Dataset, parts.1)),
                    ),
                    Some(d) => match bound_schema(stmt.columns@, ctx.answers) {
                        Err(f) => Err(f),
                        Ok(schema) => Ok(
                            LogicalTree::CreateTable {
                                project_id: p.id,
                                dataset_id: d.id,
                                name: parts.2,
                                schema,
                                or_replace: stmt.or_replace,
                            },
                        ),
                    },
                },
            },
        }
    }
}

/// The plan of a `CREATE SCHEMA`: a schema is a dataset, in a project that exists.
pub open spec fn bound_create_schema(stmt: SqlCreateSchema, ctx: ContextModel) -> Result<
    LogicalTree,
    Fault,
> {
    if stmt.has_options {
        Err(Fault::Unsupported("CREATE SCHEMA options"@))
    } else {
        match stmt.name {
            None => Err(Fault::Unsupported("CREATE SCHEMA AUTHORIZATION"@)),
            Some(name) => match dataset_parts(name) {
                None => Err(dataset_name_fault(name)),
                Some(parts) => match found(ctx.catalog.projects, project_path(parts.0)) {
                    None => Err(
                        Fault::Catalog(CatalogFault::NotFound(ResourceKind::Project, parts.0)),
                    ),
                    Some(p) => Ok(
                        LogicalTree::CreateDataset {
                            project_id: p.id,
                            name: parts.1,
                            if_not_exists: stmt.if_not_exists,
                        },
                    ),
                },
            },
        }
    }
}

proof fn lemma_options_stop(
    options: Seq<SqlColumnOption>,
    m: nat,
    n: nat,
    table: Seq<(Question, Answer)>,
)
    requires
        m <= n <= options.len(),
        column_options(options, m, table) is Err,
    ensures
        column_options(options, n, table) == column_options(options, m, table),
    decreases n,
{
    if m < n {
        lemma_options_stop(options, m, (n - 1) as nat, table);
    }
}

/// The field of a column.
fn bind_column(col: &SqlColumn, answers: &Answers) -> (r: Result<Field, QueryError>)
    ensures
        agrees(r, bound_column(*col, answers@)),
{
    let ty = match bind_data_type(&col.ty) {
        Ok(ty) => ty,
        Err(e) => return Err(e),
    };
    let mut nullable: bool = true;
    let mut default: Option<Expr> = None;
    let mut i: usize = 0;
    while i < col.options.len()
        invariant
            i <= col.options@.len(),
            mapped_type(col.ty) == Some(ty),
            column_options(col.options@, i as nat, answers@) == Ok::<(bool, Option<Term>), Fault>(
                (nullable, opt_term(default)),
            ),
        decreases col.options@.len() - i,
    {
        match &col.options[i] {
            SqlColumnOption::Null => {
                nullable = true;
            },
            SqlColumnOption::NotNull => {
                nullable = false;
            },
            SqlColumnOption::Default(expr) => match expr.bind(None, answers) {
                Ok(bound) => {
                    default = Some(bound);
                },
                Err(e) => {
                    proof {
                        lemma_options_stop(
                            col.options@,
                            (i + 1) as nat,
                            col.options@.len(),
                            answers@,
                        );
                    }
                    return Err(e);
                },
            },
            SqlColumnOption::Other(shown) => {
                proof {
                    lemma_options_stop(col.options@, (i + 1) as nat, col.options@.len(), answers@);
                }
                return Err(QueryError::refused("column option: ", shown.as_str()));
            },
        }
        i = i + 1;
    }
    Ok(Field { name: FieldName::new(col.name.as_str()), ty, nullable, default })
}

proof fn lemma_columns_stop(
    columns: Seq<SqlColumn>,
    m: nat,
    n: nat,
    table: Seq<(Question, Answer)>,
)
    requires
        m <= n <= columns.len(),
        bound_columns(columns, m, table) is Err,
    ensures
        bound_columns(columns, n, table) == bound_columns(columns, m, table),
    decreases n,
{
    if m < n {
        lemma_columns_stop(columns, m, (n - 1) as nat, table);
    }
}

/// The shape that a column list gives a table, in the order of the list.
pub fn bind_schema(columns: &Vec<SqlColumn>, answers: &Answers) -> (r: Result<Schema, QueryError>)
    ensures
        agrees(r, bound_schema(columns@, answers@)),
{
    if columns.len() == 0 {
        return Err(QueryError::unsupported("CREATE TABLE with no columns"));
    }
    let mut fields: Vec<Field> = Vec::new();
    let mut i: usize = 0;
    assert(fields_of(fields@) =~= Seq::<FieldModel>::empty());
    while i < columns.len()
        invariant
            i <= columns@.len(),
            columns@.len() > 0,
            bound_columns(columns@, i as nat, answers@) == Ok::<Seq<FieldModel>, Fault>(
                fields_of(fields@),
            ),
        decreases columns@.len() - i,
    {
        let ghost before = fields_of(fields@);
        match bind_column(&columns[i], answers) {
            Ok(field) => {
                fields.push(field);
                assert(fields_of(fields@) =~= before.push(field@));
            },
            Err(e) => {
                proof {
                    lemma_columns_stop(columns@, (i + 1) as nat, columns@.len(), answers@);
                }
                return Err(e);
            },
        }
        i = i + 1;
    }
    Ok(Schema { fields })
}

/// The plan of a `CREATE TABLE`.
pub fn bind_create_table(stmt: &SqlCreateTable, ctx: &QueryContext) -> (r: Result<
    LogicalNode,
    QueryError,
>)
    requires
        ctx@.wf(),
    ensures
        agrees(r, bound_create_table(*stmt, ctx@)),
{
    if stmt.from_query {
        return Err(QueryError::unsupported("CREATE TABLE ... AS SELECT"));
    }
    if stmt.from_table {
        return Err(QueryError::unsupported("CREATE TABLE ... LIKE / CLONE"));
    }
    if stmt.constrained {
        return Err(QueryError::unsupported("table constraints"));
    }
    let (project, dataset, table) = match three_part_name(&stmt.name) {
        Ok(parts) => parts,
        Err(e) => return Err(e),
    };
    let project_meta = match ctx.catalog.get_project(project) {
        Some(meta) => meta,
        None => return Err(QueryError::Catalog(not_found(ResourceKind::Project, project))),
    };
    let dataset_meta = match ctx.catalog.get_dataset(project_meta.id, dataset) {
        Some(meta) => meta,
        None => return Err(QueryError::Catalog(not_found(ResourceKind::Dataset, dataset))),
    };
    let schema = match bind_schema(&stmt.columns, &ctx.answers) {
        Ok(schema) => schema,
        Err(e) => return Err(e),
    };
    Ok(
        LogicalNode::CreateTable {
            project_id: project_meta.id,
            dataset_id: dataset_meta.id,
            name: table.to_owned(),
            schema,
            or_replace: stmt.or_replace,
        },
    )
}

/// The plan of a `CREATE SCHEMA`.
pub fn bind_create_schema(stmt: &SqlCreateSchema, ctx: &QueryContext) -> (r: Result<
    LogicalNode,
    QueryError,
>)
    requires
        ctx@.wf(),
    ensures
        agrees(r, bound_create_schema(*stmt, ctx@)),
{
    if stmt.has_options {
        return Err(QueryError::unsupported("CREATE SCHEMA options"));
    }
    let name = match &stmt.name {
        Some(name) => name,
        None => return Err(QueryError::unsupported("CREATE SCHEMA AUTHORIZATION")),
    };
    let (project, dataset) = match dataset_name(name) {
        Ok(parts) => parts,
        Err(e) => return Err(e),
    };
    match ctx.catalog.get_project(project) {
        None => Err(QueryError::Catalog(not_found(ResourceKind::Project, project))),
        Some(meta) => Ok(
            LogicalNode::CreateDataset {
                project_id: meta.id,
                name: dataset.to_owned(),
                if_not_exists: stmt.if_not_exists,
            },
        ),
    }
}

} // verus!
