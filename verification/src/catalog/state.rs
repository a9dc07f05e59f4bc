//! The catalog's operations: create, look up, list, replace and drop.
//!
//! Dropping does not cascade: the datasets of a dropped project stay, out of reach. Replacing a
//! table adds an incarnation, and the largest one is live; dropping a table drops all of them.
//! Fresh ids are handed in by the caller.

use vstd::prelude::*;

use super::error::{
    already_exists, not_found, truncation_exhausted, CatalogError, CatalogFault, ResourceKind,
};
use super::ids::{DatasetId, ProjectId, TableId, TruncationId};
use super::index::{Index, IndexModel};
use super::keys::{
    dataset_key, dataset_path, dataset_scope, dataset_scope_path, law_scopes_are_injective,
    law_table_keys_are_injective, lemma_scope_len, project_path, project_scope,
    project_scope_path, stats_key, stats_path, table_key, table_path,
};
use super::meta::{
    ColumnStats, DatasetMeta, DatasetRow, ProjectMeta, ProjectRow, StatsRow, TableMeta, TableRow,
};
use super::store::{
    ascending, found, has_key, lemma_row_at, map_of, models, place_of, scanned, Entries, MetaTable,
};
use super::tables::{row_key_columns, Table, TableModel};
use crate::storage::text::{str_eq, utf8_bytes};
use crate::storage::types::{FieldModel, Schema};

verus! {

/// All catalog rows.
pub struct Catalog {
    system_project: ProjectId,
    projects: MetaTable<ProjectMeta>,
    datasets: MetaTable<DatasetMeta>,
    tables: MetaTable<TableMeta>,
    stats: MetaTable<ColumnStats>,
}

/// What a [`Catalog`] is, mathematically.
pub struct CatalogModel {
    /// The project that holds the catalog's own tables; it is hidden from listings for users.
    pub system_project: ProjectId,
    pub projects: Entries<ProjectRow>,
    pub datasets: Entries<DatasetRow>,
    pub tables: Entries<TableRow>,
    pub stats: Entries<StatsRow>,
}

impl View for Catalog {
    type V = CatalogModel;

    closed spec fn view(&self) -> CatalogModel {
        CatalogModel {
            system_project: self.system_project,
            projects: self.projects@,
            datasets: self.datasets@,
            tables: self.tables@,
            stats: self.stats@,
        }
    }
}

/// Whether a table row is under the key of its dataset, name and incarnation.
pub open spec fn keyed_table(key: Seq<u8>, row: TableRow) -> bool {
    exists|p: ProjectId, d: DatasetId|
        key == #[trigger] table_path(p, d, row.name, row.truncation_id)
}

impl CatalogModel {
    /// Keys ascend, and every table row is under its key.
    pub open spec fn wf(self) -> bool {
        &&& ascending(self.projects)
        &&& ascending(self.datasets)
        &&& ascending(self.tables)
        &&& ascending(self.stats)
        &&& forall|k: Seq<u8>| #[trigger]
            map_of(self.tables).contains_key(k) ==> keyed_table(k, map_of(self.tables)[k])
    }

    /// Whether `row` is the incarnation of a table that its number names.
    pub open spec fn has_incarnation(
        self,
        p: ProjectId,
        d: DatasetId,
        name: Seq<char>,
        row: TableRow,
    ) -> bool {
        &&& map_of(self.tables).contains_key(table_path(p, d, name, row.truncation_id))
        &&& map_of(self.tables)[table_path(p, d, name, row.truncation_id)] == row
    }

    /// Whether a table has no incarnation.
    pub open spec fn has_no_table(self, p: ProjectId, d: DatasetId, name: Seq<char>) -> bool {
        forall|t: TruncationId|
            !#[trigger] map_of(self.tables).contains_key(table_path(p, d, name, t))
    }

    /// Whether `row` is the live incarnation of a table: the one with the largest number.
    pub open spec fn is_live(
        self,
        p: ProjectId,
        d: DatasetId,
        name: Seq<char>,
        row: TableRow,
    ) -> bool {
        &&& self.has_incarnation(p, d, name, row)
        &&& forall|t: TruncationId| #[trigger]
            map_of(self.tables).contains_key(table_path(p, d, name, t)) ==> t.0
                <= row.truncation_id.0
    }

    /// The catalog with one more table row.
    pub open spec fn gains_table(
        self,
        before: CatalogModel,
        p: ProjectId,
        d: DatasetId,
        row: TableRow,
    ) -> bool {
        &&& self.system_project == before.system_project
        &&& self.projects == before.projects
        &&& self.datasets == before.datasets
        &&& self.stats == before.stats
        &&& map_of(self.tables) == map_of(before.tables).insert(
            table_path(p, d, row.name, row.truncation_id),
            row,
        )
    }
}

/// A table's first row.
pub open spec fn fresh_table(id: TableId, name: Seq<char>, schema: Seq<FieldModel>) -> TableRow {
    TableRow { id, truncation_id: TruncationId(0), name, schema, indexes: Seq::empty() }
}

/// What the result of a catalog operation is, mathematically.
pub open spec fn outcome<T: View>(r: Result<T, CatalogError>) -> Result<T::V, CatalogFault> {
    match r {
        Ok(v) => Ok(v@),
        Err(e) => Err(e@),
    }
}

/// Creating a dataset: `row` is added, unless the name is taken in the project.
pub open spec fn creates_dataset(
    before: CatalogModel,
    after: CatalogModel,
    p: ProjectId,
    row: DatasetRow,
    r: Result<DatasetRow, CatalogFault>,
) -> bool {
    match r {
        Ok(m) => {
            &&& found(before.datasets, dataset_path(p, row.name)) is None
            &&& m == row
            &&& map_of(after.datasets) == map_of(before.datasets).insert(
                dataset_path(p, row.name),
                row,
            )
            &&& after == (CatalogModel { datasets: after.datasets, ..before })
        },
        Err(e) => {
            &&& found(before.datasets, dataset_path(p, row.name)) is Some
            &&& e == CatalogFault::AlreadyExists(ResourceKind::Dataset, row.name)
            &&& after == before
        },
    }
}

/// Creating a table: `row` is added, unless the name has an incarnation.
pub open spec fn creates_table(
    before: CatalogModel,
    after: CatalogModel,
    p: ProjectId,
    d: DatasetId,
    row: TableRow,
    r: Result<TableRow, CatalogFault>,
) -> bool {
    match r {
        Ok(m) => {
            &&& before.has_no_table(p, d, row.name)
            &&& m == row
            &&& after.gains_table(before, p, d, row)
        },
        Err(e) => {
            &&& !before.has_no_table(p, d, row.name)
            &&& e == CatalogFault::AlreadyExists(ResourceKind::Table, row.name)
            &&& after == before
        },
    }
}

/// The incarnation that replaces `live`: one number above it, under its id, with the shape of
/// `row`.
pub open spec fn next_incarnation(live: TableRow, row: TableRow) -> TableRow {
    TableRow {
        id: live.id,
        truncation_id: TruncationId((live.truncation_id.0 + 1) as u64),
        ..row
    }
}

/// Replacing a table: `row` is added where the name has no incarnation; otherwise the one after
/// the live incarnation, unless the numbers are at their end.
pub open spec fn replaces_table(
    before: CatalogModel,
    after: CatalogModel,
    p: ProjectId,
    d: DatasetId,
    row: TableRow,
    r: Result<TableRow, CatalogFault>,
) -> bool {
    match r {
        Ok(m) => {
            &&& after.gains_table(before, p, d, m)
            &&& before.has_no_table(p, d, row.name) ==> m == row
            &&& !before.has_no_table(p, d, row.name) ==> replaces_live(before, p, d, row, m)
        },
        Err(e) => {
            &&& is_exhausted(before, p, d, row.name)
            &&& e == CatalogFault::TruncationExhausted(row.name)
            &&& after == before
        },
    }
}

/// Whether `m` is the incarnation after the live one.
pub open spec fn replaces_live(
    before: CatalogModel,
    p: ProjectId,
    d: DatasetId,
    row: TableRow,
    m: TableRow,
) -> bool {
    exists|live: TableRow| #[trigger]
        before.is_live(p, d, row.name, live) && live.truncation_id.0 < u64::MAX && m
            == next_incarnation(live, row)
}

/// Whether the live incarnation of a table has the last number there is.
pub open spec fn is_exhausted(m: CatalogModel, p: ProjectId, d: DatasetId, name: Seq<char>) -> bool {
    exists|live: TableRow| #[trigger]
        m.is_live(p, d, name, live) && live.truncation_id.0 == u64::MAX
}

/// The rows with a name.
pub open spec fn named(rows: Seq<TableRow>, name: Seq<char>) -> Seq<TableRow>
    decreases rows.len(),
{
    if rows.len() == 0 {
        Seq::empty()
    } else {
        let before = named(rows.drop_last(), name);
        if rows.last().name == name {
            before.push(rows.last())
        } else {
            before
        }
    }
}

/// Whether row `i` is the first with the largest number among the rows of its name.
pub open spec fn first_largest(rows: Seq<TableRow>, i: int) -> bool {
    forall|j: int|
        0 <= j < rows.len() && (#[trigger] rows[j]).name == rows[i].name ==> rows[j].truncation_id.0
            < rows[i].truncation_id.0 || (rows[j].truncation_id == rows[i].truncation_id && i <= j)
}

/// Of the first `n` rows, those that are the largest of their name among all.
pub open spec fn live_rows(rows: Seq<TableRow>, n: nat) -> Seq<TableRow>
    decreases n,
{
    if n == 0 || n > rows.len() {
        Seq::empty()
    } else {
        let before = live_rows(rows, (n - 1) as nat);
        if first_largest(rows, n - 1) {
            before.push(rows[n - 1])
        } else {
            before
        }
    }
}

/// A scan gives the rows under the keys with its prefix, and no others.
pub proof fn lemma_scanned<V>(entries: Entries<V>, prefix: Seq<u8>, v: V)
    requires
        ascending(entries),
    ensures
        scanned(entries, prefix).contains(v) <==> exists|k: Seq<u8>| #[trigger]
            map_of(entries).contains_key(k) && prefix.is_prefix_of(k) && map_of(entries)[k] == v,
{
    lemma_scanned_at(entries, prefix, v);
    if exists|i: int|
        0 <= i < entries.len() && prefix.is_prefix_of((#[trigger] entries[i]).0) && entries[i].1
            == v {
        let i = choose|i: int|
            0 <= i < entries.len() && prefix.is_prefix_of((#[trigger] entries[i]).0) && entries[i].1
                == v;
        lemma_row_at(entries, i);
        assert(map_of(entries).contains_key(entries[i].0));
    }
    if exists|k: Seq<u8>| #[trigger]
        map_of(entries).contains_key(k) && prefix.is_prefix_of(k) && map_of(entries)[k] == v {
        let k = choose|k: Seq<u8>| #[trigger]
            map_of(entries).contains_key(k) && prefix.is_prefix_of(k) && map_of(entries)[k] == v;
        let i = place_of(entries, k);
        assert(has_key(entries, k));
        assert(entries[i].0 == k);
    }
}

proof fn lemma_scanned_at<V>(entries: Entries<V>, prefix: Seq<u8>, v: V)
    ensures
        scanned(entries, prefix).contains(v) <==> exists|i: int|
            0 <= i < entries.len() && prefix.is_prefix_of((#[trigger] entries[i]).0)
                && entries[i].1 == v,
    decreases entries.len(),
{
    let s = scanned(entries, prefix);
    if entries.len() > 0 {
        let rest = entries.drop_last();
        let before = scanned(rest, prefix);
        lemma_scanned_at(rest, prefix, v);
        let n = entries.len() - 1;
        if s.contains(v) {
            let q = s.index_of(v);
            if prefix.is_prefix_of(entries[n].0) && q == before.len() {
                assert(entries[n].1 == v);
            } else {
                assert(before[q] == v);
                assert(before.contains(v));
                let i = choose|i: int|
                    0 <= i < rest.len() && prefix.is_prefix_of((#[trigger] rest[i]).0)
                        && rest[i].1 == v;
                assert(entries[i] == rest[i]);
            }
        }
        if exists|i: int|
            0 <= i < entries.len() && prefix.is_prefix_of((#[trigger] entries[i]).0)
                && entries[i].1 == v {
            let i = choose|i: int|
                0 <= i < entries.len() && prefix.is_prefix_of((#[trigger] entries[i]).0)
                    && entries[i].1 == v;
            if i == n {
                assert(s[before.len() as int] == v);
            } else {
                assert(rest[i] == entries[i]);
                assert(before.contains(v));
                let q = before.index_of(v);
                assert(s[q] == v);
            }
        }
    }
}

proof fn lemma_named(rows: Seq<TableRow>, name: Seq<char>, row: TableRow)
    ensures
        named(rows, name).contains(row) <==> rows.contains(row) && row.name == name,
    decreases rows.len(),
{
    let s = named(rows, name);
    if rows.len() > 0 {
        let rest = rows.drop_last();
        let before = named(rest, name);
        lemma_named(rest, name, row);
        if s.contains(row) {
            let q = s.index_of(row);
            if q < before.len() {
                assert(before[q] == row);
                assert(before.contains(row));
                let i = rest.index_of(row);
                assert(rows[i] == row);
            } else {
                assert(rows[rows.len() - 1] == row);
            }
        }
        if rows.contains(row) && row.name == name {
            let i = rows.index_of(row);
            if i < rest.len() {
                assert(rest[i] == row);
                assert(before.contains(row));
                let q = before.index_of(row);
                assert(s[q] == row);
            } else {
                assert(s[before.len() as int] == row);
            }
        }
    }
}

/// A table row is in the scope of a dataset exactly where its key names that dataset.
proof fn lemma_scope(
    p: ProjectId,
    d: DatasetId,
    q: ProjectId,
    e: DatasetId,
    name: Seq<char>,
    t: TruncationId,
)
    ensures
        dataset_scope_path(p, d).is_prefix_of(table_path(q, e, name, t)) <==> p == q && d == e,
{
    lemma_scope_len(p, d);
    lemma_scope_len(q, e);
    let k = table_path(q, e, name, t);
    assert(k.subrange(0, 32) =~= dataset_scope_path(q, e));
    if dataset_scope_path(p, d).is_prefix_of(k) {
        law_scopes_are_injective(p, d, q, e);
    }
}

/// The rows of a name that a scan of its dataset finds are its incarnations.
proof fn lemma_incarnations(m: CatalogModel, p: ProjectId, d: DatasetId, name: Seq<char>, row: TableRow)
    requires
        m.wf(),
    ensures
        named(scanned(m.tables, dataset_scope_path(p, d)), name).contains(row)
            <==> m.has_incarnation(p, d, name, row) && row.name == name,
        m.has_incarnation(p, d, name, row) ==> row.name == name,
{
    let scope = dataset_scope_path(p, d);
    lemma_named(scanned(m.tables, scope), name, row);
    lemma_scanned(m.tables, scope, row);
    let tables = map_of(m.tables);
    if m.has_incarnation(p, d, name, row) {
        let k = table_path(p, d, name, row.truncation_id);
        assert(keyed_table(k, tables[k]));
        let (q, e) = choose|q: ProjectId, e: DatasetId|
            k == #[trigger] table_path(q, e, row.name, row.truncation_id);
        law_table_keys_are_injective(
            p,
            d,
            name,
            row.truncation_id,
            q,
            e,
            row.name,
            row.truncation_id,
        );
        lemma_scope(p, d, p, d, name, row.truncation_id);
        assert(tables.contains_key(k) && scope.is_prefix_of(k) && tables[k] == row);
    }
    if scanned(m.tables, scope).contains(row) && row.name == name {
        let k = choose|k: Seq<u8>| #[trigger]
            tables.contains_key(k) && scope.is_prefix_of(k) && tables[k] == row;
        assert(keyed_table(k, tables[k]));
        let (q, e) = choose|q: ProjectId, e: DatasetId|
            k == #[trigger] table_path(q, e, row.name, row.truncation_id);
        lemma_scope(p, d, q, e, name, row.truncation_id);
    }
}

proof fn lemma_no_table(m: CatalogModel, p: ProjectId, d: DatasetId, name: Seq<char>)
    requires
        m.wf(),
    ensures
        named(scanned(m.tables, dataset_scope_path(p, d)), name).len() == 0 <==> m.has_no_table(
            p,
            d,
            name,
        ),
{
    let s = named(scanned(m.tables, dataset_scope_path(p, d)), name);
    let tables = map_of(m.tables);
    if s.len() > 0 {
        let row = s[0];
        assert(s.contains(row));
        lemma_incarnations(m, p, d, name, row);
        assert(tables.contains_key(table_path(p, d, name, row.truncation_id)));
    } else {
        assert forall|t: TruncationId| !#[trigger]
            tables.contains_key(table_path(p, d, name, t)) by {
            let k = table_path(p, d, name, t);
            if tables.contains_key(k) {
                let row = tables[k];
                assert(keyed_table(k, row));
                let (q, e) = choose|q: ProjectId, e: DatasetId|
                    k == #[trigger] table_path(q, e, row.name, row.truncation_id);
                law_table_keys_are_injective(p, d, name, t, q, e, row.name, row.truncation_id);
                lemma_incarnations(m, p, d, name, row);
                assert(s.contains(row));
            }
        }
    }
}

/// The key of a row with a table's name and its own number is the row's own.
proof fn lemma_stored_row(
    m: CatalogModel,
    p: ProjectId,
    d: DatasetId,
    name: Seq<char>,
    t: TruncationId,
)
    requires
        m.wf(),
        map_of(m.tables).contains_key(table_path(p, d, name, t)),
    ensures
        map_of(m.tables)[table_path(p, d, name, t)].name == name,
        map_of(m.tables)[table_path(p, d, name, t)].truncation_id == t,
{
    let k = table_path(p, d, name, t);
    let row = map_of(m.tables)[k];
    assert(keyed_table(k, row));
    let (q, e) = choose|q: ProjectId, e: DatasetId|
        k == #[trigger] table_path(q, e, row.name, row.truncation_id);
    law_table_keys_are_injective(p, d, name, t, q, e, row.name, row.truncation_id);
}

proof fn lemma_gains_wf(before: CatalogModel, after: CatalogModel, p: ProjectId, d: DatasetId, row: TableRow)
    requires
        before.wf(),
        ascending(after.tables),
        after.gains_table(before, p, d, row),
    ensures
        after.wf(),
{
    let key = table_path(p, d, row.name, row.truncation_id);
    assert forall|k: Seq<u8>| #[trigger] map_of(after.tables).contains_key(k) implies keyed_table(
        k,
        map_of(after.tables)[k],
    ) by {
        if k == key {
            assert(key == table_path(p, d, row.name, row.truncation_id));
        } else {
            assert(map_of(before.tables).contains_key(k));
        }
    }
}

impl Catalog {
    /// An empty catalog.
    pub fn new(system_project: ProjectId) -> (r: Catalog)
        ensures
            r@.wf(),
            r@ == (CatalogModel {
                system_project,
                projects: Seq::empty(),
                datasets: Seq::empty(),
                tables: Seq::empty(),
                stats: Seq::empty(),
            }),
    {
        let r = Catalog {
            system_project,
            projects: MetaTable::new(),
            datasets: MetaTable::new(),
            tables: MetaTable::new(),
            stats: MetaTable::new(),
        };
        r
    }

    /// The project that holds the catalog's own tables.
    pub fn system_project(&self) -> (r: ProjectId)
        ensures
            r == self@.system_project,
    {
        self.system_project
    }

    // --- projects ---

    /// The project of a name.
    pub fn get_project(&self, name: &str) -> (r: Option<ProjectMeta>)
        requires
            self@.wf(),
        ensures
            match r {
                Some(m) => found(self@.projects, project_path(name@)) == Some(m@),
                None => found(self@.projects, project_path(name@)) is None,
            },
    {
        let key = utf8_bytes(name);
        match self.projects.get(&key) {
            Some(m) => Some(m.clone()),
            None => None,
        }
    }

    /// Put a project row under its name.
    pub fn put_project(&mut self, meta: ProjectMeta)
        requires
            old(self)@.wf(),
        ensures
            final(self)@.wf(),
            map_of(final(self)@.projects) == map_of(old(self)@.projects).insert(
                project_path(meta.name@),
                meta@,
            ),
            final(self)@ == (CatalogModel { projects: final(self)@.projects, ..old(self)@ }),
    {
        let key = utf8_bytes(meta.name.as_str());
        self.projects.put(key, meta);
    }

    /// Create a project under a fresh id. Fails where the name is taken.
    pub fn create_project(&mut self, name: &str, id: ProjectId) -> (r: Result<
        ProjectMeta,
        CatalogError,
    >)
        requires
            old(self)@.wf(),
        ensures
            final(self)@.wf(),
            match r {
                Ok(m) => {
                    &&& found(old(self)@.projects, project_path(name@)) is None
                    &&& m@ == (ProjectRow { id, name: name@ })
                    &&& map_of(final(self)@.projects) == map_of(old(self)@.projects).insert(
                        project_path(name@),
                        m@,
                    )
                    &&& final(self)@ == (CatalogModel {
                        projects: final(self)@.projects,
                        ..old(self)@
                    })
                },
                Err(e) => {
                    &&& found(old(self)@.projects, project_path(name@)) is Some
                    &&& e@ == CatalogFault::AlreadyExists(ResourceKind::Project, name@)
                    &&& final(self)@ == old(self)@
                },
            },
    {
        if self.get_project(name).is_some() {
            return Err(already_exists(ResourceKind::Project, name));
        }
        let meta = ProjectMeta { id, name: name.to_owned() };
        self.put_project(meta.clone());
        Ok(meta)
    }

    /// Drop a project. Fails where there is none of the name.
    pub fn drop_project(&mut self, name: &str) -> (r: Result<(), CatalogError>)
        requires
            old(self)@.wf(),
        ensures
            final(self)@.wf(),
            match r {
                Ok(_) => {
                    &&& found(old(self)@.projects, project_path(name@)) is Some
                    &&& map_of(final(self)@.projects) == map_of(old(self)@.projects).remove(
                        project_path(name@),
                    )
                    &&& final(self)@ == (CatalogModel {
                        projects: final(self)@.projects,
                        ..old(self)@
                    })
                },
                Err(e) => {
                    &&& found(old(self)@.projects, project_path(name@)) is None
                    &&& e@ == CatalogFault::NotFound(ResourceKind::Project, name@)
                    &&& final(self)@ == old(self)@
                },
            },
    {
        if self.get_project(name).is_none() {
            return Err(not_found(ResourceKind::Project, name));
        }
        let key = utf8_bytes(name);
        self.projects.remove(&key);
        Ok(())
    }

    /// Every project, by name.
    pub fn list_projects(&self) -> (r: Vec<ProjectMeta>)
        ensures
            models(r@) == scanned(self@.projects, Seq::empty()),
    {
        let all: Vec<u8> = Vec::new();
        self.projects.list(&all)
    }

    // --- datasets ---

    /// The dataset of a name in a project.
    pub fn get_dataset(&self, project_id: ProjectId, name: &str) -> (r: Option<DatasetMeta>)
        requires
            self@.wf(),
        ensures
            match r {
                Some(m) => found(self@.datasets, dataset_path(project_id, name@)) == Some(m@),
                None => found(self@.datasets, dataset_path(project_id, name@)) is None,
            },
    {
        let key = dataset_key(project_id, name);
        match self.datasets.get(&key) {
            Some(m) => Some(m.clone()),
            None => None,
        }
    }

    /// Put a dataset row under its project and name.
    pub fn put_dataset(&mut self, project_id: ProjectId, meta: DatasetMeta)
        requires
            old(self)@.wf(),
        ensures
            final(self)@.wf(),
            map_of(final(self)@.datasets) == map_of(old(self)@.datasets).insert(
                dataset_path(project_id, meta.name@),
                meta@,
            ),
            final(self)@ == (CatalogModel { datasets: final(self)@.datasets, ..old(self)@ }),
    {
        let key = dataset_key(project_id, meta.name.as_str());
        self.datasets.put(key, meta);
    }

    /// Create a dataset under a fresh id. Fails where the name is taken in the project.
    pub fn create_dataset(&mut self, project_id: ProjectId, name: &str, id: DatasetId) -> (r:
        Result<DatasetMeta, CatalogError>)
        requires
            old(self)@.wf(),
        ensures
            final(self)@.wf(),
            creates_dataset(
                old(self)@,
                final(self)@,
                project_id,
                (DatasetRow { id, name: name@ }),
                outcome(r),
            ),
    {
        if self.get_dataset(project_id, name).is_some() {
            return Err(already_exists(ResourceKind::Dataset, name));
        }
        let meta = DatasetMeta { id, name: name.to_owned() };
        self.put_dataset(project_id, meta.clone());
        Ok(meta)
    }

    /// Drop a dataset. Fails where there is none of the name.
    pub fn drop_dataset(&mut self, project_id: ProjectId, name: &str) -> (r: Result<
        (),
        CatalogError,
    >)
        requires
            old(self)@.wf(),
        ensures
            final(self)@.wf(),
            match r {
                Ok(_) => {
                    &&& found(old(self)@.datasets, dataset_path(project_id, name@)) is Some
                    &&& map_of(final(self)@.datasets) == map_of(old(self)@.datasets).remove(
                        dataset_path(project_id, name@),
                    )
                    &&& final(self)@ == (CatalogModel {
                        datasets: final(self)@.datasets,
                        ..old(self)@
                    })
                },
                Err(e) => {
                    &&& found(old(self)@.datasets, dataset_path(project_id, name@)) is None
                    &&& e@ == CatalogFault::NotFound(ResourceKind::Dataset, name@)
                    &&& final(self)@ == old(self)@
                },
            },
    {
        if self.get_dataset(project_id, name).is_none() {
            return Err(not_found(ResourceKind::Dataset, name));
        }
        let key = dataset_key(project_id, name);
        self.datasets.remove(&key);
        Ok(())
    }

    /// Every dataset of a project, by name.
    pub fn list_datasets(&self, project_id: ProjectId) -> (r: Vec<DatasetMeta>)
        ensures
            models(r@) == scanned(self@.datasets, project_scope_path(project_id)),
    {
        let scope = project_scope(project_id);
        self.datasets.list(&scope)
    }

    // --- tables ---

    /// Every incarnation of a table.
    pub fn table_incarnations(&self, project_id: ProjectId, dataset_id: DatasetId, name: &str) -> (r:
        Vec<TableMeta>)
        requires
            self@.wf(),
        ensures
            models(r@) == named(
                scanned(self@.tables, dataset_scope_path(project_id, dataset_id)),
                name@,
            ),
            forall|row: TableRow| #[trigger]
                models(r@).contains(row) <==> self@.has_incarnation(
                    project_id,
                    dataset_id,
                    name@,
                    row,
                ),
    {
        let scope = dataset_scope(project_id, dataset_id);
        let metas = self.tables.list(&scope);
        let ghost rows = models(metas@);
        let mut out: Vec<TableMeta> = Vec::new();
        let mut i: usize = 0;
        assert(models(out@) =~= Seq::<TableRow>::empty());
        assert(rows.take(0) =~= Seq::<TableRow>::empty());
        while i < metas.len()
            invariant
                i <= metas@.len(),
                rows == models(metas@),
                models(out@) == named(rows.take(i as int), name@),
            decreases metas@.len() - i,
        {
            let ghost before = models(out@);
            assert(rows.take(i + 1).drop_last() =~= rows.take(i as int));
            assert(rows.take(i + 1).last() == rows[i as int]);
            assert(rows[i as int] == metas@[i as int]@);
            if str_eq(metas[i].name.as_str(), name) {
                let copy = metas[i].clone();
                out.push(copy);
                assert(models(out@) =~= before.push(copy@));
            }
            i = i + 1;
        }
        proof {
            assert(rows.take(rows.len() as int) =~= rows);
            assert forall|row: TableRow| #[trigger]
                models(out@).contains(row) <==> self@.has_incarnation(
                    project_id,
                    dataset_id,
                    name@,
                    row,
                ) by {
                lemma_incarnations(self@, project_id, dataset_id, name@, row);
            }
        }
        out
    }

    /// The live incarnation of a table: the one with the largest number.
    pub fn get_table(&self, project_id: ProjectId, dataset_id: DatasetId, name: &str) -> (r: Option<
        TableMeta,
    >)
        requires
            self@.wf(),
        ensures
            match r {
                Some(m) => self@.is_live(project_id, dataset_id, name@, m@) && m@.name == name@,
                None => self@.has_no_table(project_id, dataset_id, name@),
            },
            match r {
                Some(m) => live_row(self@, project_id, dataset_id, name@) == Some(m@),
                None => live_row(self@, project_id, dataset_id, name@) is None,
            },
    {
        let metas = self.table_incarnations(project_id, dataset_id, name);
        let ghost rows = models(metas@);
        proof {
            lemma_no_table(self@, project_id, dataset_id, name@);
        }
        if metas.len() == 0 {
            return None;
        }
        let mut best: usize = 0;
        let mut i: usize = 1;
        while i < metas.len()
            invariant
                best < i <= metas@.len(),
                rows == models(metas@),
                forall|j: int|
                    0 <= j < i ==> (#[trigger] rows[j]).truncation_id.0
                        <= rows[best as int].truncation_id.0,
            decreases metas@.len() - i,
        {
            assert(rows[i as int] == metas@[i as int]@ && rows[best as int]
                == metas@[best as int]@);
            if metas[i].truncation_id.0 >= metas[best].truncation_id.0 {
                best = i;
            }
            i = i + 1;
        }
        proof {
            let row = rows[best as int];
            assert(rows.contains(row));
            lemma_incarnations(self@, project_id, dataset_id, name@, row);
            assert forall|t: TruncationId| #[trigger]
                map_of(self@.tables).contains_key(
                    table_path(project_id, dataset_id, name@, t),
                ) implies t.0 <= row.truncation_id.0 by {
                let other = map_of(self@.tables)[table_path(project_id, dataset_id, name@, t)];
                lemma_stored_row(self@, project_id, dataset_id, name@, t);
                assert(self@.has_incarnation(project_id, dataset_id, name@, other));
                assert(rows.contains(other));
                let j = rows.index_of(other);
                assert(rows[j].truncation_id.0 <= row.truncation_id.0);
            }
            assert(self@.is_live(project_id, dataset_id, name@, row));
            assert(map_of(self@.tables).contains_key(
                table_path(project_id, dataset_id, name@, row.truncation_id),
            ));
            let chosen = choose|row: TableRow| #[trigger]
                self@.is_live(project_id, dataset_id, name@, row);
            law_one_live_incarnation(self@, project_id, dataset_id, name@, chosen, row);
        }
        Some(metas[best].clone())
    }

    /// Put one incarnation of a table under its key.
    pub fn put_table_meta(&mut self, project_id: ProjectId, dataset_id: DatasetId, meta: TableMeta)
        requires
            old(self)@.wf(),
        ensures
            final(self)@.wf(),
            final(self)@.gains_table(old(self)@, project_id, dataset_id, meta@),
    {
        let key = table_key(project_id, dataset_id, meta.name.as_str(), meta.truncation_id);
        let ghost row = meta@;
        self.tables.put(key, meta);
        proof {
            lemma_gains_wf(old(self)@, self@, project_id, dataset_id, row);
        }
    }

    /// Create a table in its first incarnation, under a fresh id. Fails where the name has any
    /// incarnation.
    pub fn create_table(
        &mut self,
        project_id: ProjectId,
        dataset_id: DatasetId,
        name: &str,
        schema: Schema,
        id: TableId,
    ) -> (r: Result<TableMeta, CatalogError>)
        requires
            old(self)@.wf(),
        ensures
            final(self)@.wf(),
            creates_table(
                old(self)@,
                final(self)@,
                project_id,
                dataset_id,
                fresh_table(id, name@, schema@),
                outcome(r),
            ),
    {
        match self.get_table(project_id, dataset_id, name) {
            Some(live) => {
                proof {
                    assert(map_of(self@.tables).contains_key(
                        table_path(project_id, dataset_id, name@, live@.truncation_id),
                    ));
                }
                return Err(already_exists(ResourceKind::Table, name));
            },
            None => {},
        }
        let indexes: Vec<Index> = Vec::new();
        let meta = TableMeta {
            id,
            truncation_id: TruncationId::initial(),
            name: name.to_owned(),
            schema,
            indexes,
        };
        assert(meta@.indexes =~= Seq::<IndexModel>::empty());
        self.put_table_meta(project_id, dataset_id, meta.clone());
        Ok(meta)
    }

    /// Replace a table: a new incarnation, one above the live one, under the same id; or the
    /// first one under a fresh id where there is no such table. The old incarnations stay.
    /// Fails where the numbers are at their end.
    pub fn replace_table(
        &mut self,
        project_id: ProjectId,
        dataset_id: DatasetId,
        name: &str,
        schema: Schema,
        id: TableId,
    ) -> (r: Result<TableMeta, CatalogError>)
        requires
            old(self)@.wf(),
        ensures
            final(self)@.wf(),
            replaces_table(
                old(self)@,
                final(self)@,
                project_id,
                dataset_id,
                fresh_table(id, name@, schema@),
                outcome(r),
            ),
    {
        let current = self.get_table(project_id, dataset_id, name);
        let indexes: Vec<Index> = Vec::new();
        assert(super::index::indexes_of(indexes@) =~= Seq::<IndexModel>::empty());
        match current {
            Some(live) => match live.truncation_id.next() {
                None => {
                    assert(old(self)@.is_live(project_id, dataset_id, name@, live@));
                    Err(truncation_exhausted(name))
                },
                Some(next) => {
                    let meta = TableMeta {
                        id: live.id,
                        truncation_id: next,
                        name: name.to_owned(),
                        schema,
                        indexes,
                    };
                    proof {
                        assert(map_of(self@.tables).contains_key(
                            table_path(project_id, dataset_id, name@, live@.truncation_id),
                        ));
                        assert(self@.is_live(project_id, dataset_id, name@, live@));
                        assert(meta@ == next_incarnation(
                            live@,
                            fresh_table(id, name@, schema@),
                        ));
                    }
                    self.put_table_meta(project_id, dataset_id, meta.clone());
                    Ok(meta)
                },
            },
            None => {
                let meta = TableMeta {
                    id,
                    truncation_id: TruncationId::initial(),
                    name: name.to_owned(),
                    schema,
                    indexes,
                };
                self.put_table_meta(project_id, dataset_id, meta.clone());
                Ok(meta)
            },
        }
    }

    /// Drop a table in all its incarnations. Fails where it has none.
    pub fn drop_table(&mut self, project_id: ProjectId, dataset_id: DatasetId, name: &str) -> (r:
        Result<(), CatalogError>)
        requires
            old(self)@.wf(),
        ensures
            final(self)@.wf(),
            match r {
                Ok(_) => {
                    &&& !old(self)@.has_no_table(project_id, dataset_id, name@)
                    &&& final(self)@ == (CatalogModel { tables: final(self)@.tables, ..old(self)@ })
                    &&& map_of(final(self)@.tables) == without_table(
                        map_of(old(self)@.tables),
                        project_id,
                        dataset_id,
                        name@,
                    )
                },
                Err(e) => {
                    &&& old(self)@.has_no_table(project_id, dataset_id, name@)
                    &&& e@ == CatalogFault::NotFound(ResourceKind::Table, name@)
                    &&& final(self)@ == old(self)@
                },
            },
    {
        let metas = self.table_incarnations(project_id, dataset_id, name);
        proof {
            lemma_no_table(self@, project_id, dataset_id, name@);
        }
        if metas.len() == 0 {
            return Err(not_found(ResourceKind::Table, name));
        }
        let ghost rows = models(metas@);
        let ghost before = map_of(self@.tables);
        let mut i: usize = 0;
        assert(map_of(self@.tables) =~= without_rows(
            before,
            project_id,
            dataset_id,
            name@,
            rows.take(0),
        ));
        while i < metas.len()
            invariant
                i <= metas@.len(),
                rows == models(metas@),
                self@.wf(),
                self@ == (CatalogModel { tables: self@.tables, ..old(self)@ }),
                map_of(self@.tables) == without_rows(
                    before,
                    project_id,
                    dataset_id,
                    name@,
                    rows.take(i as int),
                ),
            decreases metas@.len() - i,
        {
            let key = table_key(project_id, dataset_id, name, metas[i].truncation_id);
            let ghost was = self@;
            self.tables.remove(&key);
            proof {
                assert(rows[i as int] == metas@[i as int]@);
                assert forall|k: Seq<u8>| #[trigger]
                    map_of(self@.tables).contains_key(k) implies keyed_table(
                    k,
                    map_of(self@.tables)[k],
                ) by {
                    assert(map_of(was.tables).contains_key(k));
                }
                lemma_without_next(before, project_id, dataset_id, name@, rows, i as int);
            }
            i = i + 1;
        }
        proof {
            assert(rows.take(rows.len() as int) =~= rows);
            assert forall|k: Seq<u8>| before.contains_key(k) implies #[trigger] listed(
                k,
                project_id,
                dataset_id,
                name@,
                rows,
            ) == names_table(k, project_id, dataset_id, name@) by {
                if names_table(k, project_id, dataset_id, name@) {
                    let t = choose|t: TruncationId|
                        k == #[trigger] table_path(project_id, dataset_id, name@, t);
                    lemma_stored_row(old(self)@, project_id, dataset_id, name@, t);
                    let row = before[k];
                    assert(old(self)@.has_incarnation(project_id, dataset_id, name@, row));
                    assert(rows.contains(row));
                    let j = rows.index_of(row);
                    assert(k == table_path(project_id, dataset_id, name@, rows[j].truncation_id));
                }
                if listed(k, project_id, dataset_id, name@, rows) {
                    let j = choose|j: int|
                        0 <= j < rows.len() && k == table_path(
                            project_id,
                            dataset_id,
                            name@,
                            (#[trigger] rows[j]).truncation_id,
                        );
                    assert(names_table(k, project_id, dataset_id, name@));
                }
            }
            assert(without_rows(before, project_id, dataset_id, name@, rows) =~= without_table(
                before,
                project_id,
                dataset_id,
                name@,
            ));
        }
        Ok(())
    }

    /// The live tables of a dataset.
    pub fn list_tables(&self, project_id: ProjectId, dataset_id: DatasetId) -> (r: Vec<TableMeta>)
        ensures
            models(r@) == live_rows(
                scanned(self@.tables, dataset_scope_path(project_id, dataset_id)),
                scanned(self@.tables, dataset_scope_path(project_id, dataset_id)).len(),
            ),
    {
        let scope = dataset_scope(project_id, dataset_id);
        live_incarnations(self.tables.list(&scope))
    }

    /// Resolve a three-part name to a table. Fails at the first part that is not there.
    pub fn resolve_table(&self, project: &str, dataset: &str, table: &str) -> (r: Result<
        Table,
        CatalogError,
    >)
        requires
            self@.wf(),
        ensures
            outcome(r) == resolved_table(self@, project@, dataset@, table@),
    {
        let p = match self.get_project(project) {
            Some(meta) => meta,
            None => return Err(not_found(ResourceKind::Project, project)),
        };
        let d = match self.get_dataset(p.id, dataset) {
            Some(meta) => meta,
            None => return Err(not_found(ResourceKind::Dataset, dataset)),
        };
        let t = match self.get_table(p.id, d.id, table) {
            Some(meta) => meta,
            None => return Err(not_found(ResourceKind::Table, table)),
        };
        let ghost row = t@;
        let indexes = t.indexes;
        let handle = Table::new(p.id, d.id, t.id, t.truncation_id, t.name, t.schema).with_indexes(
            indexes,
        );
        assert(handle@ == handle_of(p.id, d.id, row));
        Ok(handle)
    }

    // --- column statistics ---

    /// Put a column's statistics, in place of any for the same column.
    pub fn put_column_stats(&mut self, stats: ColumnStats)
        requires
            old(self)@.wf(),
        ensures
            final(self)@.wf(),
            map_of(final(self)@.stats) == map_of(old(self)@.stats).insert(
                stats_path(stats@),
                stats@,
            ),
            final(self)@ == (CatalogModel { stats: final(self)@.stats, ..old(self)@ }),
    {
        let key = stats_key(&stats);
        self.stats.put(key, stats);
    }

    /// All column statistics, by schema, table and column.
    pub fn list_column_stats(&self) -> (r: Vec<ColumnStats>)
        ensures
            models(r@) == scanned(self@.stats, Seq::empty()),
    {
        let all: Vec<u8> = Vec::new();
        self.stats.list(&all)
    }
}

/// The handle of a table row.
pub open spec fn handle_of(p: ProjectId, d: DatasetId, row: TableRow) -> TableModel {
    TableModel {
        project_id: p,
        dataset_id: d,
        id: row.id,
        truncation_id: row.truncation_id,
        name: row.name,
        schema: row.schema,
        clustered_key: row_key_columns(row.schema),
        indexes: row.indexes,
    }
}

/// The live incarnation of a table, if it has any.
pub open spec fn live_row(
    m: CatalogModel,
    p: ProjectId,
    d: DatasetId,
    name: Seq<char>,
) -> Option<TableRow> {
    if m.has_no_table(p, d, name) {
        None
    } else {
        Some(choose|row: TableRow| #[trigger] m.is_live(p, d, name, row))
    }
}

/// What a three-part name resolves to: the live table, or the first part that is not there.
pub open spec fn resolved_table(
    m: CatalogModel,
    project: Seq<char>,
    dataset: Seq<char>,
    table: Seq<char>,
) -> Result<TableModel, CatalogFault> {
    match found(m.projects, project_path(project)) {
        None => Err(CatalogFault::NotFound(ResourceKind::Project, project)),
        Some(p) => match found(m.datasets, dataset_path(p.id, dataset)) {
            None => Err(CatalogFault::NotFound(ResourceKind::Dataset, dataset)),
            Some(d) => match live_row(m, p.id, d.id, table) {
                None => Err(CatalogFault::NotFound(ResourceKind::Table, table)),
                Some(row) => Ok(handle_of(p.id, d.id, row)),
            },
        },
    }
}

/// Whether a key is that of some incarnation of a table.
pub open spec fn names_table(k: Seq<u8>, p: ProjectId, d: DatasetId, name: Seq<char>) -> bool {
    exists|t: TruncationId| k == #[trigger] table_path(p, d, name, t)
}

/// Table rows without those of one table.
pub open spec fn without_table(
    tables: Map<Seq<u8>, TableRow>,
    p: ProjectId,
    d: DatasetId,
    name: Seq<char>,
) -> Map<Seq<u8>, TableRow> {
    Map::new(
        |k: Seq<u8>| tables.contains_key(k) && !names_table(k, p, d, name),
        |k: Seq<u8>| tables[k],
    )
}

spec fn listed(k: Seq<u8>, p: ProjectId, d: DatasetId, name: Seq<char>, rows: Seq<TableRow>) -> bool {
    exists|j: int|
        0 <= j < rows.len() && k == table_path(p, d, name, (#[trigger] rows[j]).truncation_id)
}

spec fn without_rows(
    tables: Map<Seq<u8>, TableRow>,
    p: ProjectId,
    d: DatasetId,
    name: Seq<char>,
    rows: Seq<TableRow>,
) -> Map<Seq<u8>, TableRow> {
    Map::new(
        |k: Seq<u8>| tables.contains_key(k) && !listed(k, p, d, name, rows),
        |k: Seq<u8>| tables[k],
    )
}

proof fn lemma_without_next(
    tables: Map<Seq<u8>, TableRow>,
    p: ProjectId,
    d: DatasetId,
    name: Seq<char>,
    rows: Seq<TableRow>,
    i: int,
)
    requires
        0 <= i < rows.len(),
    ensures
        without_rows(tables, p, d, name, rows.take(i + 1)) == without_rows(
            tables,
            p,
            d,
            name,
            rows.take(i),
        ).remove(table_path(p, d, name, rows[i].truncation_id)),
{
    let (a, b) = (rows.take(i), rows.take(i + 1));
    let key = table_path(p, d, name, rows[i].truncation_id);
    assert forall|k: Seq<u8>| listed(k, p, d, name, b) == (listed(k, p, d, name, a) || k
        == key) by {
        if listed(k, p, d, name, b) {
            let j = choose|j: int|
                0 <= j < b.len() && k == table_path(p, d, name, (#[trigger] b[j]).truncation_id);
            if j < i {
                assert(a[j] == b[j]);
            }
        }
        if listed(k, p, d, name, a) {
            let j = choose|j: int|
                0 <= j < a.len() && k == table_path(p, d, name, (#[trigger] a[j]).truncation_id);
            assert(b[j] == a[j]);
        }
        if k == key {
            assert(b[i] == rows[i]);
        }
    }
    assert(without_rows(tables, p, d, name, b) =~= without_rows(tables, p, d, name, a).remove(key));
}

/// Whether row `i` is the first with the largest number among the rows of its name.
fn is_first_largest(metas: &Vec<TableMeta>, i: usize) -> (r: bool)
    requires
        i < metas@.len(),
    ensures
        r == first_largest(models(metas@), i as int),
{
    let ghost rows = models(metas@);
    let mut j: usize = 0;
    while j < metas.len()
        invariant
            j <= metas@.len(),
            i < metas@.len(),
            rows == models(metas@),
            forall|k: int|
                0 <= k < j && (#[trigger] rows[k]).name == rows[i as int].name ==> rows[k].truncation_id.0
                    < rows[i as int].truncation_id.0 || (rows[k].truncation_id
                    == rows[i as int].truncation_id && i <= k),
        decreases metas@.len() - j,
    {
        assert(rows[i as int] == metas@[i as int]@ && rows[j as int] == metas@[j as int]@);
        if str_eq(metas[j].name.as_str(), metas[i].name.as_str()) {
            let (a, b) = (metas[j].truncation_id.0, metas[i].truncation_id.0);
            if !(a < b || (a == b && i <= j)) {
                assert(rows[j as int].name == rows[i as int].name);
                return false;
            }
        }
        j = j + 1;
    }
    true
}

/// Of all incarnations, the live one of each name.
pub fn live_incarnations(metas: Vec<TableMeta>) -> (r: Vec<TableMeta>)
    ensures
        models(r@) == live_rows(models(metas@), metas@.len()),
{
    let ghost rows = models(metas@);
    let mut out: Vec<TableMeta> = Vec::new();
    let mut i: usize = 0;
    assert(models(out@) =~= Seq::<TableRow>::empty());
    while i < metas.len()
        invariant
            i <= metas@.len(),
            rows == models(metas@),
            models(out@) == live_rows(rows, i as nat),
        decreases metas@.len() - i,
    {
        let ghost before = models(out@);
        if is_first_largest(&metas, i) {
            let copy = metas[i].clone();
            out.push(copy);
            assert(models(out@) =~= before.push(copy@));
            assert(rows[i as int] == metas@[i as int]@);
        }
        i = i + 1;
    }
    out
}

// --- laws ---

/// A table has at most one live incarnation.
pub proof fn law_one_live_incarnation(
    m: CatalogModel,
    p: ProjectId,
    d: DatasetId,
    name: Seq<char>,
    a: TableRow,
    b: TableRow,
)
    requires
        m.is_live(p, d, name, a),
        m.is_live(p, d, name, b),
    ensures
        a == b,
{
    assert(map_of(m.tables).contains_key(table_path(p, d, name, a.truncation_id)));
    assert(map_of(m.tables).contains_key(table_path(p, d, name, b.truncation_id)));
    assert(a.truncation_id == b.truncation_id);
}

/// A row added above all incarnations of its table is live.
pub proof fn law_newest_incarnation_is_live(
    before: CatalogModel,
    after: CatalogModel,
    p: ProjectId,
    d: DatasetId,
    row: TableRow,
)
    requires
        after.gains_table(before, p, d, row),
        forall|t: TruncationId| #[trigger]
            map_of(before.tables).contains_key(table_path(p, d, row.name, t)) ==> t.0
                < row.truncation_id.0,
    ensures
        after.is_live(p, d, row.name, row),
{
    assert forall|t: TruncationId| #[trigger]
        map_of(after.tables).contains_key(table_path(p, d, row.name, t)) implies t.0
        <= row.truncation_id.0 by {
        let k = table_path(p, d, row.name, t);
        if k != table_path(p, d, row.name, row.truncation_id) {
            assert(map_of(before.tables).contains_key(k));
        } else {
            law_table_keys_are_injective(
                p,
                d,
                row.name,
                t,
                p,
                d,
                row.name,
                row.truncation_id,
            );
        }
    }
}

/// A created table is live.
pub proof fn law_created_table_is_live(
    before: CatalogModel,
    after: CatalogModel,
    p: ProjectId,
    d: DatasetId,
    row: TableRow,
    m: TableRow,
)
    requires
        creates_table(before, after, p, d, row, Ok(m)),
    ensures
        after.is_live(p, d, row.name, m),
{
    law_newest_incarnation_is_live(before, after, p, d, m);
}

/// A replacement is live and keeps the table's id; what it replaced stays as history.
pub proof fn law_replacement_is_live(
    before: CatalogModel,
    after: CatalogModel,
    p: ProjectId,
    d: DatasetId,
    row: TableRow,
    m: TableRow,
    old_row: TableRow,
)
    requires
        replaces_table(before, after, p, d, row, Ok(m)),
        before.is_live(p, d, row.name, old_row),
    ensures
        after.is_live(p, d, row.name, m),
        m.id == old_row.id,
        m.truncation_id.0 == old_row.truncation_id.0 + 1,
        m.schema == row.schema,
        after.has_incarnation(p, d, row.name, old_row),
{
    assert(map_of(before.tables).contains_key(table_path(p, d, row.name, old_row.truncation_id)));
    let live = choose|live: TableRow| #[trigger]
        before.is_live(p, d, row.name, live) && live.truncation_id.0 < u64::MAX && m
            == next_incarnation(live, row);
    law_one_live_incarnation(before, p, d, row.name, live, old_row);
    law_newest_incarnation_is_live(before, after, p, d, m);
    if table_path(p, d, row.name, old_row.truncation_id) == table_path(
        p,
        d,
        row.name,
        m.truncation_id,
    ) {
        law_table_keys_are_injective(
            p,
            d,
            row.name,
            old_row.truncation_id,
            p,
            d,
            row.name,
            m.truncation_id,
        );
    }
}

/// Creating or replacing a table leaves every other table's live incarnation as it was.
pub proof fn law_other_tables_stay(
    before: CatalogModel,
    after: CatalogModel,
    p: ProjectId,
    d: DatasetId,
    row: TableRow,
    q: ProjectId,
    e: DatasetId,
    other: Seq<char>,
    live: TableRow,
)
    requires
        after.gains_table(before, p, d, row),
        q != p || e != d || other != row.name,
    ensures
        after.is_live(q, e, other, live) == before.is_live(q, e, other, live),
        after.has_no_table(q, e, other) == before.has_no_table(q, e, other),
{
    assert forall|t: TruncationId| #[trigger]
        map_of(after.tables).contains_key(table_path(q, e, other, t)) == map_of(
            before.tables,
        ).contains_key(table_path(q, e, other, t)) by {
        lemma_other_key(p, d, row, q, e, other, t);
    }
    lemma_other_key(p, d, row, q, e, other, live.truncation_id);
    assert(map_of(after.tables).contains_key(table_path(q, e, other, live.truncation_id)) == map_of(
        before.tables,
    ).contains_key(table_path(q, e, other, live.truncation_id)));
    if after.is_live(q, e, other, live) {
        assert forall|t: TruncationId| #[trigger]
            map_of(before.tables).contains_key(table_path(q, e, other, t)) implies t.0
            <= live.truncation_id.0 by {
            assert(map_of(after.tables).contains_key(table_path(q, e, other, t)));
        }
    }
    if after.has_no_table(q, e, other) {
        assert forall|t: TruncationId| !#[trigger]
            map_of(before.tables).contains_key(table_path(q, e, other, t)) by {
            assert(!map_of(after.tables).contains_key(table_path(q, e, other, t)));
        }
    }
}

proof fn lemma_other_key(
    p: ProjectId,
    d: DatasetId,
    row: TableRow,
    q: ProjectId,
    e: DatasetId,
    other: Seq<char>,
    t: TruncationId,
)
    requires
        q != p || e != d || other != row.name,
    ensures
        table_path(q, e, other, t) != table_path(p, d, row.name, row.truncation_id),
{
    if table_path(q, e, other, t) == table_path(p, d, row.name, row.truncation_id) {
        law_table_keys_are_injective(q, e, other, t, p, d, row.name, row.truncation_id);
    }
}

/// A dropped table is gone in all its incarnations.
pub proof fn law_dropped_table_is_gone(
    before: CatalogModel,
    after: CatalogModel,
    p: ProjectId,
    d: DatasetId,
    name: Seq<char>,
)
    requires
        map_of(after.tables) == without_table(map_of(before.tables), p, d, name),
    ensures
        after.has_no_table(p, d, name),
{
    assert forall|t: TruncationId| !#[trigger]
        map_of(after.tables).contains_key(table_path(p, d, name, t)) by {
        assert(names_table(table_path(p, d, name, t), p, d, name));
    }
}

/// Listing a dataset gives the live incarnations of its tables, and nothing else.
pub proof fn law_listed_tables_are_live(
    m: CatalogModel,
    p: ProjectId,
    d: DatasetId,
    row: TableRow,
)
    requires
        m.wf(),
    ensures
        live_rows(
            scanned(m.tables, dataset_scope_path(p, d)),
            scanned(m.tables, dataset_scope_path(p, d)).len(),
        ).contains(row) <==> m.is_live(p, d, row.name, row),
{
    let rows = scanned(m.tables, dataset_scope_path(p, d));
    lemma_live_rows(rows, rows.len(), row);
    lemma_incarnations(m, p, d, row.name, row);
    lemma_named(rows, row.name, row);
    let tables = map_of(m.tables);
    if exists|i: int| 0 <= i < rows.len() && first_largest(rows, i) && #[trigger] rows[i] == row {
        let i = choose|i: int|
            0 <= i < rows.len() && first_largest(rows, i) && #[trigger] rows[i] == row;
        assert(rows.contains(row));
        assert forall|t: TruncationId| #[trigger]
            tables.contains_key(table_path(p, d, row.name, t)) implies t.0
            <= row.truncation_id.0 by {
            lemma_stored_row(m, p, d, row.name, t);
            let other = tables[table_path(p, d, row.name, t)];
            lemma_incarnations(m, p, d, row.name, other);
            lemma_named(rows, row.name, other);
            let j = rows.index_of(other);
            assert(rows[j].name == rows[i].name);
        }
    }
    if m.is_live(p, d, row.name, row) {
        assert(rows.contains(row));
        let i = lemma_first_place(rows, row);
        assert forall|j: int|
            0 <= j < rows.len() && (#[trigger] rows[j]).name == rows[i].name implies rows[j].truncation_id.0
            < rows[i].truncation_id.0 || (rows[j].truncation_id == rows[i].truncation_id && i
            <= j) by {
            let other = rows[j];
            assert(rows.contains(other));
            lemma_incarnations(m, p, d, row.name, other);
            lemma_named(rows, row.name, other);
            assert(tables.contains_key(table_path(p, d, row.name, other.truncation_id)));
            if other.truncation_id == row.truncation_id {
                assert(other == row);
            }
        }
    }
}

proof fn lemma_first_place(rows: Seq<TableRow>, row: TableRow) -> (i: int)
    requires
        rows.contains(row),
    ensures
        0 <= i < rows.len(),
        rows[i] == row,
        forall|j: int| 0 <= j < i ==> #[trigger] rows[j] != row,
    decreases rows.len(),
{
    let rest = rows.drop_last();
    if rest.contains(row) {
        let i = lemma_first_place(rest, row);
        assert forall|j: int| 0 <= j < i implies #[trigger] rows[j] != row by {
            assert(rest[j] != row);
        }
        assert(rows[i] == rest[i]);
        i
    } else {
        let n = rows.len() - 1;
        let q = rows.index_of(row);
        if q < n {
            assert(rest[q] == row);
        }
        assert forall|j: int| 0 <= j < n implies #[trigger] rows[j] != row by {
            assert(rest[j] == rows[j]);
        }
        n
    }
}

proof fn lemma_live_rows(rows: Seq<TableRow>, n: nat, row: TableRow)
    requires
        n <= rows.len(),
    ensures
        live_rows(rows, n).contains(row) <==> exists|i: int|
            0 <= i < n && first_largest(rows, i) && #[trigger] rows[i] == row,
    decreases n,
{
    let s = live_rows(rows, n);
    if n > 0 {
        let before = live_rows(rows, (n - 1) as nat);
        lemma_live_rows(rows, (n - 1) as nat, row);
        if s.contains(row) {
            let q = s.index_of(row);
            if q < before.len() {
                assert(before[q] == row);
                assert(before.contains(row));
            } else {
                assert(rows[n - 1] == row);
            }
        }
        if exists|i: int| 0 <= i < n && first_largest(rows, i) && #[trigger] rows[i] == row {
            let i = choose|i: int|
                0 <= i < n && first_largest(rows, i) && #[trigger] rows[i] == row;
            if i < n - 1 {
                assert(before.contains(row));
                let q = before.index_of(row);
                assert(s[q] == row);
            } else {
                assert(s[before.len() as int] == row);
            }
        }
    }
}

} // verus!
