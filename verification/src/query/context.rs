//! What a query runs against: the catalog, the rows of the tables, the host's answers, and the
//! limits for joins.

use vstd::prelude::*;

use super::config::JoinConfig;
use super::error::{Fault, QueryError};
use super::host::{Answer, Answers, Question};
use super::volcano::rows::Row;
use crate::catalog::state::{Catalog, CatalogModel};
use crate::catalog::store::{map_of, models, scanned, Entries, MetaTable};
use crate::catalog::tables::{Table, TableModel};
use crate::storage::codec::{key_of, key_written};
use crate::storage::row::{prefix_layout, RowKey};
use crate::storage::types::{rows_of, Datum, Tuple, Value};

verus! {

/// What a query runs against.
pub struct QueryContext {
    pub catalog: Catalog,
    /// The rows of all tables under their row keys.
    pub data: MetaTable<Tuple>,
    pub answers: Answers,
    pub join_config: JoinConfig,
}

/// What a [`QueryContext`] is, mathematically.
pub struct ContextModel {
    pub catalog: CatalogModel,
    pub data: Entries<Row>,
    pub answers: Seq<(Question, Answer)>,
    pub join_config: JoinConfig,
}

impl View for QueryContext {
    type V = ContextModel;

    open spec fn view(&self) -> ContextModel {
        ContextModel {
            catalog: self.catalog@,
            data: self.data@,
            answers: self.answers@,
            join_config: self.join_config,
        }
    }
}

/// What the keys of all rows of a table start with.
pub open spec fn table_scope(table: TableModel) -> Seq<u8> {
    prefix_layout(table.project_id, table.dataset_id, table.id, table.truncation_id)
}

/// The key that a row is stored under: its table's incarnation, then the key of `d`.
pub open spec fn row_path(table: TableModel, d: Datum) -> Option<Seq<u8>> {
    match key_of(d) {
        Some(k) => Some(table_scope(table) + k),
        None => None,
    }
}

/// The key that a whole row is stored under: that of its first value.
pub open spec fn stored_path(table: TableModel, row: Row) -> Option<Seq<u8>> {
    if row.len() == 0 {
        None
    } else {
        row_path(table, row[0])
    }
}

/// A value without a key as the key of a row.
pub open spec fn null_key() -> Fault {
    Fault::Codec("a null cannot be a row key"@)
}

/// Why a row cannot be stored.
pub open spec fn unstorable(row: Row) -> Fault {
    if row.len() == 0 {
        Fault::Codec("a row without columns has no key"@)
    } else {
        null_key()
    }
}

impl ContextModel {
    pub open spec fn wf(self) -> bool {
        self.catalog.wf() && crate::catalog::store::ascending(self.data)
    }

    /// The rows of a table, in the order of their keys.
    pub open spec fn rows(self, table: TableModel) -> Seq<Row> {
        scanned(self.data, table_scope(table))
    }
}

impl QueryContext {
    /// A context over a catalog, without rows.
    pub fn new(catalog: Catalog, answers: Answers, join_config: JoinConfig) -> (r: QueryContext)
        requires
            catalog@.wf(),
        ensures
            r@.wf(),
            r@ == (ContextModel {
                catalog: catalog@,
                data: Seq::empty(),
                answers: answers@,
                join_config,
            }),
    {
        QueryContext { catalog, data: MetaTable::new(), answers, join_config }
    }

    /// The rows of a table, in the order of their keys.
    pub fn table(&self, table: &Table) -> (r: Vec<Tuple>)
        ensures
            rows_of(r@) == self@.rows(table@),
    {
        let prefix = RowKey::table_prefix(
            table.project_id(),
            table.dataset_id(),
            table.id(),
            table.truncation_id(),
        );
        let rows = self.data.list(&prefix);
        assert(rows_of(rows@) =~= models(rows@));
        rows
    }

    /// The engine key of a row of a table whose own key is the key of `value`.
    fn row_key(table: &Table, value: &Value) -> (r: Result<Vec<u8>, QueryError>)
        ensures
            match r {
                Ok(key) => row_path(table@, value@) == Some(key@),
                Err(e) => row_path(table@, value@) is None && e@ == null_key(),
            },
    {
        let mut user_key: Vec<u8> = Vec::new();
        if value.encode_key(&mut user_key).is_err() {
            return Err(QueryError::Codec("a null cannot be a row key".to_owned()));
        }
        assert(user_key@ =~= key_written(value@).0);
        let key = RowKey::new(
            table.project_id(),
            table.dataset_id(),
            table.id(),
            table.truncation_id(),
            user_key,
        );
        Ok(key.encode())
    }

    /// Store a row under its first value, in place of any row that is there. Fails where the
    /// row has no first value with a key.
    pub fn put_row(&mut self, table: &Table, tuple: &Tuple) -> (r: Result<(), QueryError>)
        requires
            old(self)@.wf(),
        ensures
            final(self)@.wf(),
            final(self)@ == (ContextModel { data: final(self)@.data, ..old(self)@ }),
            match r {
                Ok(_) => stored_path(table@, tuple@) is Some && map_of(final(self)@.data) == map_of(
                    old(self)@.data,
                ).insert(stored_path(table@, tuple@)->0, tuple@),
                Err(e) => stored_path(table@, tuple@) is None && e@ == unstorable(tuple@)
                    && final(self)@.data == old(self)@.data,
            },
    {
        if tuple.values.len() == 0 {
            return Err(QueryError::Codec("a row without columns has no key".to_owned()));
        }
        assert(tuple@[0] == tuple.values@[0]@);
        match Self::row_key(table, &tuple.values[0]) {
            Err(e) => Err(e),
            Ok(key) => {
                self.data.put(key, tuple.clone());
                Ok(())
            },
        }
    }

    /// Delete the row of a table whose own key is the key of `value`, if there is one. Fails
    /// where the value has no key.
    pub fn delete_row(&mut self, table: &Table, value: &Value) -> (r: Result<(), QueryError>)
        requires
            old(self)@.wf(),
        ensures
            final(self)@.wf(),
            final(self)@ == (ContextModel { data: final(self)@.data, ..old(self)@ }),
            match r {
                Ok(_) => row_path(table@, value@) is Some && map_of(final(self)@.data) == map_of(
                    old(self)@.data,
                ).remove(row_path(table@, value@)->0),
                Err(e) => row_path(table@, value@) is None && e@ == null_key()
                    && final(self)@.data == old(self)@.data,
            },
    {
        match Self::row_key(table, value) {
            Err(e) => Err(e),
            Ok(key) => {
                self.data.remove(&key);
                Ok(())
            },
        }
    }
}

} // verus!
