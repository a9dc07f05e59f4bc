//! Catalog rows as rows of the system tables: the row's natural key as bytes, and the row as
//! a JSON document.

use vstd::prelude::*;

use super::ids::{DatasetId, ProjectId, TableId, TruncationId};
use super::tables::{row_key_columns, Table, TableModel};
use crate::query::context::{stored_path, table_scope};
use crate::query::error::{agrees, Fault, QueryError};
use crate::query::volcano::rows::Row;
use crate::storage::bytes::copy_bytes;
use crate::storage::json::Json;
use crate::storage::types::{
    fields_of, Datum, Field, FieldModel, LogicalType, Schema, Tuple, Value,
};

verus! {

/// Where the system tables are.
#[derive(Debug, Clone, Copy)]
pub struct SystemIds {
    pub project: ProjectId,
    pub dataset: DatasetId,
    pub projects: TableId,
    pub datasets: TableId,
    pub tables: TableId,
    pub stats: TableId,
}

/// The shape of a system table.
pub open spec fn meta_schema() -> Seq<FieldModel> {
    seq![
        FieldModel { name: "pk"@, ty: LogicalType::Bytes, nullable: true, default: None },
        FieldModel { name: "meta"@, ty: LogicalType::Json, nullable: true, default: None },
    ]
}

/// A system table: it is never replaced, so it stays at its first incarnation.
pub open spec fn system_model(ids: SystemIds, id: TableId, name: Seq<char>) -> TableModel {
    TableModel {
        project_id: ids.project,
        dataset_id: ids.dataset,
        id,
        truncation_id: TruncationId(0),
        name,
        schema: meta_schema(),
        clustered_key: row_key_columns(meta_schema()),
        indexes: Seq::empty(),
    }
}

/// The row of a document under a key.
pub open spec fn meta_row(key: Seq<u8>, document: Seq<char>) -> Row {
    seq![Datum::Bytes(key), Datum::Json(document)]
}

/// The document of a row.
pub open spec fn row_meta(row: Row) -> Result<Seq<char>, Fault> {
    if row.len() < 2 {
        Err(Fault::Codec("expected Json meta column in catalog row"@))
    } else {
        match row[1] {
            Datum::Json(document) => Ok(document),
            _ => Err(Fault::Codec("expected Json meta column in catalog row"@)),
        }
    }
}

/// The shape of a system table.
pub fn system_table_schema() -> (r: Schema)
    ensures
        r@ == meta_schema(),
{
    let fields = vec![
        Field::new("pk", LogicalType::Bytes),
        Field::new("meta", LogicalType::Json),
    ];
    assert(fields_of(fields@) =~= meta_schema());
    Schema { fields }
}

fn system_table(ids: SystemIds, id: TableId, name: &str) -> (r: Table)
    ensures
        r@ == system_model(ids, id, name@),
{
    Table::new(
        ids.project,
        ids.dataset,
        id,
        TruncationId::initial(),
        name.to_owned(),
        system_table_schema(),
    )
}

impl SystemIds {
    /// The table of the projects.
    pub fn projects_meta_table(&self) -> (r: Table)
        ensures
            r@ == system_model(*self, self.projects, "_projects"@),
    {
        system_table(*self, self.projects, "_projects")
    }

    /// The table of the datasets.
    pub fn datasets_meta_table(&self) -> (r: Table)
        ensures
            r@ == system_model(*self, self.datasets, "_datasets"@),
    {
        system_table(*self, self.datasets, "_datasets")
    }

    /// The table of the tables.
    pub fn tables_meta_table(&self) -> (r: Table)
        ensures
            r@ == system_model(*self, self.tables, "_tables"@),
    {
        system_table(*self, self.tables, "_tables")
    }

    /// The table of the column statistics, under the name it goes by.
    pub fn stats_meta_table(&self, name: &str) -> (r: Table)
        ensures
            r@ == system_model(*self, self.stats, name@),
    {
        system_table(*self, self.stats, name)
    }
}

/// The row of a document under a key.
pub fn meta_to_tuple(user_key: &[u8], document: Json) -> (r: Tuple)
    ensures
        r@ == meta_row(user_key@, document@),
{
    let r = Tuple { values: vec![Value::Bytes(copy_bytes(user_key)), Value::Json(document)] };
    assert(r@ =~= meta_row(user_key@, document@));
    r
}

/// The document of a row. Fails where the second column holds none.
pub fn tuple_to_meta(tuple: &Tuple) -> (r: Result<Json, QueryError>)
    ensures
        agrees(r, row_meta(tuple@)),
{
    if tuple.values.len() < 2 {
        return Err(QueryError::Codec("expected Json meta column in catalog row".to_owned()));
    }
    assert(tuple@[1] == tuple.values@[1]@);
    match &tuple.values[1] {
        Value::Json(document) => Ok(document.clone()),
        _ => Err(QueryError::Codec("expected Json meta column in catalog row".to_owned())),
    }
}

/// A catalog row gives its document back.
pub proof fn law_meta_rows_roundtrip(key: Seq<u8>, document: Seq<char>)
    ensures
        row_meta(meta_row(key, document)) == Ok::<Seq<char>, Fault>(document),
{
}

/// A catalog row is stored under its system table's prefix and its own key as it is, so that
/// the rows under a key prefix are those whose keys start with it.
pub proof fn law_meta_rows_are_stored_under_their_key(
    table: TableModel,
    key: Seq<u8>,
    document: Seq<char>,
)
    ensures
        stored_path(table, meta_row(key, document)) == Some(table_scope(table) + key),
{
}

} // verus!
