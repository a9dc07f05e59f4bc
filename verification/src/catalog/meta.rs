//! The rows of the catalog: one for each project and dataset, and one for each incarnation of
//! a table.

use vstd::prelude::*;

use super::ids::{DatasetId, ProjectId, TableId, TruncationId};
use super::index::{clone_indexes, indexes_of, Index, IndexModel};
use crate::storage::types::{FieldModel, Float32, Schema};

verus! {

/// A project.
#[derive(Debug)]
pub struct ProjectMeta {
    pub id: ProjectId,
    pub name: String,
}

/// What a [`ProjectMeta`] is, mathematically.
pub struct ProjectRow {
    pub id: ProjectId,
    pub name: Seq<char>,
}

impl View for ProjectMeta {
    type V = ProjectRow;

    open spec fn view(&self) -> ProjectRow {
        ProjectRow { id: self.id, name: self.name@ }
    }
}

impl Clone for ProjectMeta {
    fn clone(&self) -> (r: Self)
        ensures
            r@ == self@,
    {
        ProjectMeta { id: self.id, name: self.name.clone() }
    }
}

/// A dataset.
#[derive(Debug)]
pub struct DatasetMeta {
    pub id: DatasetId,
    pub name: String,
}

/// What a [`DatasetMeta`] is, mathematically.
pub struct DatasetRow {
    pub id: DatasetId,
    pub name: Seq<char>,
}

impl View for DatasetMeta {
    type V = DatasetRow;

    open spec fn view(&self) -> DatasetRow {
        DatasetRow { id: self.id, name: self.name@ }
    }
}

impl Clone for DatasetMeta {
    fn clone(&self) -> (r: Self)
        ensures
            r@ == self@,
    {
        DatasetMeta { id: self.id, name: self.name.clone() }
    }
}

/// One incarnation of a table. The logical `id` is the same for all incarnations of a name;
/// the live one has the largest `truncation_id`.
#[derive(Debug)]
pub struct TableMeta {
    pub id: TableId,
    pub truncation_id: TruncationId,
    pub name: String,
    pub schema: Schema,
    pub indexes: Vec<Index>,
}

/// What a [`TableMeta`] is, mathematically.
pub struct TableRow {
    pub id: TableId,
    pub truncation_id: TruncationId,
    pub name: Seq<char>,
    pub schema: Seq<FieldModel>,
    pub indexes: Seq<IndexModel>,
}

impl View for TableMeta {
    type V = TableRow;

    open spec fn view(&self) -> TableRow {
        TableRow {
            id: self.id,
            truncation_id: self.truncation_id,
            name: self.name@,
            schema: self.schema@,
            indexes: indexes_of(self.indexes@),
        }
    }
}

impl Clone for TableMeta {
    fn clone(&self) -> (r: Self)
        ensures
            r@ == self@,
    {
        TableMeta {
            id: self.id,
            truncation_id: self.truncation_id,
            name: self.name.clone(),
            schema: self.schema.clone(),
            indexes: clone_indexes(&self.indexes),
        }
    }
}

/// The stored statistics of one column. The lists are kept in their rendered text form.
#[derive(Debug)]
pub struct ColumnStats {
    pub schemaname: String,
    pub tablename: String,
    pub attname: String,
    pub null_frac: Float32,
    pub avg_width: i32,
    pub n_distinct: Float32,
    pub most_common_vals: String,
    pub most_common_freqs: String,
    pub histogram_bounds: String,
    pub correlation: Float32,
}

/// What a [`ColumnStats`] is, mathematically.
pub struct StatsRow {
    pub schemaname: Seq<char>,
    pub tablename: Seq<char>,
    pub attname: Seq<char>,
    pub null_frac: Float32,
    pub avg_width: i32,
    pub n_distinct: Float32,
    pub most_common_vals: Seq<char>,
    pub most_common_freqs: Seq<char>,
    pub histogram_bounds: Seq<char>,
    pub correlation: Float32,
}

impl View for ColumnStats {
    type V = StatsRow;

    open spec fn view(&self) -> StatsRow {
        StatsRow {
            schemaname: self.schemaname@,
            tablename: self.tablename@,
            attname: self.attname@,
            null_frac: self.null_frac,
            avg_width: self.avg_width,
            n_distinct: self.n_distinct,
            most_common_vals: self.most_common_vals@,
            most_common_freqs: self.most_common_freqs@,
            histogram_bounds: self.histogram_bounds@,
            correlation: self.correlation,
        }
    }
}

impl Clone for ColumnStats {
    fn clone(&self) -> (r: Self)
        ensures
            r@ == self@,
    {
        ColumnStats {
            schemaname: self.schemaname.clone(),
            tablename: self.tablename.clone(),
            attname: self.attname.clone(),
            null_frac: self.null_frac,
            avg_width: self.avg_width,
            n_distinct: self.n_distinct,
            most_common_vals: self.most_common_vals.clone(),
            most_common_freqs: self.most_common_freqs.clone(),
            histogram_bounds: self.histogram_bounds.clone(),
            correlation: self.correlation,
        }
    }
}

} // verus!
