//! Table descriptors: ids, name, schema, and the orders its rows can be had in.

use vstd::prelude::*;

use super::ids::{DatasetId, ProjectId, TableId, TruncationId};
use super::index::{
    clone_columns, clone_indexes, indexes_of, starts_with, Index, IndexModel,
};
use crate::storage::types::{FieldModel, Schema};

verus! {

/// A table, in one of its incarnations.
#[derive(Debug)]
pub struct Table {
    project_id: ProjectId,
    dataset_id: DatasetId,
    id: TableId,
    /// The incarnation this handle addresses; it is part of the prefix of the row keys, so
    /// that reads and writes never touch another one.
    truncation_id: TruncationId,
    name: String,
    schema: Schema,
    /// The columns the rows are ordered by in storage.
    clustered_key: Vec<usize>,
    indexes: Vec<Index>,
}

/// What a [`Table`] is, mathematically.
pub struct TableModel {
    pub project_id: ProjectId,
    pub dataset_id: DatasetId,
    pub id: TableId,
    pub truncation_id: TruncationId,
    pub name: Seq<char>,
    pub schema: Seq<FieldModel>,
    pub clustered_key: Seq<usize>,
    pub indexes: Seq<IndexModel>,
}

impl View for Table {
    type V = TableModel;

    closed spec fn view(&self) -> TableModel {
        TableModel {
            project_id: self.project_id,
            dataset_id: self.dataset_id,
            id: self.id,
            truncation_id: self.truncation_id,
            name: self.name@,
            schema: self.schema@,
            clustered_key: self.clustered_key@,
            indexes: indexes_of(self.indexes@),
        }
    }
}

/// The columns that storage orders a table's rows by: the leftmost one, if there is any.
pub open spec fn row_key_columns(schema: Seq<FieldModel>) -> Seq<usize> {
    if schema.len() == 0 {
        Seq::empty()
    } else {
        seq![0usize]
    }
}

impl TableModel {
    /// Whether a plain scan comes out ordered by `columns`.
    pub open spec fn clusters(self, columns: Seq<usize>) -> bool {
        columns.len() > 0 && columns.is_prefix_of(self.clustered_key)
    }

    /// Whether the index at `i` is the first that gives the order of `columns`.
    pub open spec fn first_index_on(self, columns: Seq<usize>, i: int) -> bool {
        &&& 0 <= i < self.indexes.len()
        &&& columns.is_prefix_of(self.indexes[i].columns)
        &&& forall|j: int|
            0 <= j < i ==> !columns.is_prefix_of((#[trigger] self.indexes[j]).columns)
    }

    /// Whether some index gives the order of `columns`.
    pub open spec fn indexes(self, columns: Seq<usize>) -> bool {
        columns.len() > 0 && exists|i: int|
            0 <= i < self.indexes.len() && columns.is_prefix_of(
                (#[trigger] self.indexes[i]).columns,
            )
    }
}

impl Table {
    /// A table without indexes, clustered on its leftmost column.
    pub fn new(
        project_id: ProjectId,
        dataset_id: DatasetId,
        id: TableId,
        truncation_id: TruncationId,
        name: String,
        schema: Schema,
    ) -> (r: Self)
        ensures
            r@ == (TableModel {
                project_id,
                dataset_id,
                id,
                truncation_id,
                name: name@,
                schema: schema@,
                clustered_key: row_key_columns(schema@),
                indexes: Seq::empty(),
            }),
    {
        let mut clustered_key: Vec<usize> = Vec::new();
        if schema.fields.len() > 0 {
            clustered_key.push(0);
        }
        assert(clustered_key@ =~= row_key_columns(schema@));
        let indexes: Vec<Index> = Vec::new();
        assert(indexes_of(indexes@) =~= Seq::<IndexModel>::empty());
        Table {
            project_id,
            dataset_id,
            id,
            truncation_id,
            name,
            schema,
            clustered_key,
            indexes,
        }
    }

    /// The table with these secondary indexes.
    pub fn with_indexes(self, indexes: Vec<Index>) -> (r: Self)
        ensures
            r@ == (TableModel { indexes: indexes_of(indexes@), ..self@ }),
    {
        Table {
            project_id: self.project_id,
            dataset_id: self.dataset_id,
            id: self.id,
            truncation_id: self.truncation_id,
            name: self.name,
            schema: self.schema,
            clustered_key: self.clustered_key,
            indexes,
        }
    }

    pub fn id(&self) -> (r: TableId)
        ensures
            r == self@.id,
    {
        self.id
    }

    pub fn truncation_id(&self) -> (r: TruncationId)
        ensures
            r == self@.truncation_id,
    {
        self.truncation_id
    }

    pub fn name(&self) -> (r: &str)
        ensures
            r@ == self@.name,
    {
        self.name.as_str()
    }

    pub fn project_id(&self) -> (r: ProjectId)
        ensures
            r == self@.project_id,
    {
        self.project_id
    }

    pub fn dataset_id(&self) -> (r: DatasetId)
        ensures
            r == self@.dataset_id,
    {
        self.dataset_id
    }

    pub fn schema(&self) -> (r: &Schema)
        ensures
            r@ == self@.schema,
    {
        &self.schema
    }

    /// The columns the rows are ordered by in storage: the row key.
    pub fn clustered_key(&self) -> (r: &[usize])
        ensures
            r@ == self@.clustered_key,
    {
        self.clustered_key.as_slice()
    }

    /// The secondary indexes.
    pub fn indexes(&self) -> (r: &[Index])
        ensures
            indexes_of(r@) == self@.indexes,
    {
        self.indexes.as_slice()
    }

    /// Whether a plain scan already comes out ordered by `columns`: the clustered key starts
    /// with them.
    pub fn clustered_on(&self, columns: &[usize]) -> (r: bool)
        ensures
            r == self@.clusters(columns@),
    {
        columns.len() > 0 && starts_with(&self.clustered_key, columns)
    }

    /// The first secondary index whose key starts with `columns`, if any.
    pub fn index_on(&self, columns: &[usize]) -> (r: Option<&Index>)
        ensures
            r is Some <==> self@.indexes(columns@),
            r is Some ==> exists|i: int|
                #[trigger] self@.first_index_on(columns@, i) && r->0@ == self@.indexes[i],
    {
        if columns.len() == 0 {
            return None;
        }
        let mut i: usize = 0;
        while i < self.indexes.len()
            invariant
                i <= self.indexes@.len(),
                columns@.len() > 0,
                forall|j: int|
                    0 <= j < i ==> !columns@.is_prefix_of((#[trigger] self@.indexes[j]).columns),
            decreases self.indexes@.len() - i,
        {
            assert(self@.indexes[i as int] == self.indexes@[i as int]@);
            if starts_with(&self.indexes[i].columns, columns) {
                assert(self@.first_index_on(columns@, i as int));
                return Some(&self.indexes[i]);
            }
            i = i + 1;
        }
        None
    }
}

impl Clone for Table {
    fn clone(&self) -> (r: Self)
        ensures
            r@ == self@,
    {
        Table {
            project_id: self.project_id,
            dataset_id: self.dataset_id,
            id: self.id,
            truncation_id: self.truncation_id,
            name: self.name.clone(),
            schema: self.schema.clone(),
            clustered_key: clone_columns(&self.clustered_key),
            indexes: clone_indexes(&self.indexes),
        }
    }
}

} // verus!
