//! What statements do to the state: which rows they write, which they leave, and what they make
//! of the catalog.

use vstd::prelude::*;

use super::context::{row_path, stored_path, table_scope, ContextModel};
use super::error::Fault;
use super::laws::law_values_yield_their_rows;
use super::logical_plan::LogicalTree;
use super::physical_plan::PlanTree;
use super::planner::ast::{SqlCreateSchema, SqlCreateTable};
use super::planner::binder::ddl::{bound_create_schema, bound_create_table};
use super::planner::binder::names::{dataset_parts, three_parts};
use super::planner::lower::lowered;
use super::volcano::rows::Row;
use super::volcano::run::{collected, drained, items_of, yields, Outcome, Stream};
use super::volcano::sink::{
    count_of, dataset_runs, delete_runs, deletes, executes, insert_runs, inserts,
    lemma_writable_bound, put_all, remove_all, table_made, table_runs, writable, Executed,
};
use crate::catalog::error::{CatalogFault, ResourceKind};
use crate::catalog::ids::{DatasetId, ProjectId, TableId};
use crate::catalog::keys::{dataset_path, project_path};
use crate::catalog::meta::{DatasetRow, TableRow};
use crate::catalog::state::{
    creates_dataset, fresh_table, handle_of, law_created_table_is_live, law_newest_incarnation_is_live,
    law_one_live_incarnation, live_row, next_incarnation, replaces_live, resolved_table,
    CatalogModel,
};
use crate::catalog::store::{found, map_of};
use crate::catalog::tables::TableModel;
use crate::storage::types::{FieldModel, Uuid};

verus! {

proof fn lemma_drained_values(rows: Seq<Row>, ctx: ContextModel, o: Outcome)
    requires
        yields(PlanTree::Values(rows), ctx, o),
    ensures
        drained(o) == Ok::<Seq<Row>, Fault>(rows),
{
    law_values_yield_their_rows(rows, ctx, o);
    lemma_collected_rows(rows, rows.len());
    assert(items_of(rows).len() == rows.len());
    assert(rows.take(rows.len() as int) =~= rows);
}

proof fn lemma_collected_rows(rows: Seq<Row>, n: nat)
    requires
        n <= rows.len(),
    ensures
        collected(items_of(rows), n) == Ok::<Seq<Row>, Fault>(rows.take(n as int)),
    decreases n,
{
    if n > 0 {
        lemma_collected_rows(rows, (n - 1) as nat);
        assert(rows.take(n as int) =~= rows.take(n - 1).push(rows[n - 1]));
    } else {
        assert(rows.take(0) =~= Seq::<Row>::empty());
    }
}

proof fn lemma_all_writable(table: TableModel, rows: Seq<Row>, n: nat)
    requires
        n <= rows.len(),
    ensures
        (writable(table, rows, n) == n) <==> forall|i: int|
            0 <= i < n ==> stored_path(table, #[trigger] rows[i]) is Some,
    decreases n,
{
    if n > 0 {
        let m = (n - 1) as nat;
        lemma_all_writable(table, rows, m);
        lemma_writable_bound(table, rows, m);
        if forall|i: int| 0 <= i < n ==> stored_path(table, #[trigger] rows[i]) is Some {
            assert(stored_path(table, rows[m as int]) is Some);
        }
    }
}

/// Whether a key is that of one of the first `n` rows.
pub open spec fn among_keys(k: Seq<u8>, table: TableModel, rows: Seq<Row>, n: int) -> bool {
    exists|i: int| 0 <= i < n && stored_path(table, #[trigger] rows[i])->0 == k
}

proof fn lemma_put_others(
    data: Map<Seq<u8>, Row>,
    table: TableModel,
    rows: Seq<Row>,
    n: nat,
    k: Seq<u8>,
)
    requires
        n <= rows.len(),
    ensures
        !among_keys(k, table, rows, n as int) ==> put_all(data, table, rows, n).contains_key(k)
            == data.contains_key(k) && (data.contains_key(k) ==> put_all(data, table, rows, n)[k]
            == data[k]),
        among_keys(k, table, rows, n as int) ==> put_all(data, table, rows, n).contains_key(k),
    decreases n,
{
    if n > 0 {
        let m = (n - 1) as nat;
        lemma_put_others(data, table, rows, m, k);
        let last = stored_path(table, rows[m as int])->0;
        if among_keys(k, table, rows, m as int) {
            let i = choose|i: int| 0 <= i < m && stored_path(table, #[trigger] rows[i])->0 == k;
            assert(stored_path(table, rows[i])->0 == k);
        }
        if k == last {
            assert(stored_path(table, rows[m as int])->0 == k);
            assert(among_keys(k, table, rows, n as int));
        }
        if among_keys(k, table, rows, n as int) && k != last {
            let i = choose|i: int| 0 <= i < n && stored_path(table, #[trigger] rows[i])->0 == k;
            assert(i < m);
            assert(among_keys(k, table, rows, m as int));
        }
    }
}

proof fn lemma_removed(
    data: Map<Seq<u8>, Row>,
    table: TableModel,
    rows: Seq<Row>,
    n: nat,
    k: Seq<u8>,
)
    requires
        n <= rows.len(),
    ensures
        among_keys(k, table, rows, n as int) ==> !remove_all(data, table, rows, n).contains_key(k),
        !among_keys(k, table, rows, n as int) ==> remove_all(data, table, rows, n).contains_key(k)
            == data.contains_key(k) && (data.contains_key(k) ==> remove_all(data, table, rows, n)[k]
            == data[k]),
    decreases n,
{
    if n > 0 {
        let m = (n - 1) as nat;
        lemma_removed(data, table, rows, m, k);
        let last = stored_path(table, rows[m as int])->0;
        if among_keys(k, table, rows, m as int) {
            let i = choose|i: int| 0 <= i < m && stored_path(table, #[trigger] rows[i])->0 == k;
            assert(stored_path(table, rows[i])->0 == k);
        }
        if k == last {
            assert(stored_path(table, rows[m as int])->0 == k);
            assert(among_keys(k, table, rows, n as int));
        }
        if among_keys(k, table, rows, n as int) && k != last {
            let i = choose|i: int| 0 <= i < n && stored_path(table, #[trigger] rows[i])->0 == k;
            assert(i < m);
            assert(among_keys(k, table, rows, m as int));
        }
    }
}

/// An insert of given rows goes through exactly where every row has a key, and counts them. It
/// leaves the catalog as it was, and so every stored row whose key is none of theirs; nothing is
/// stored besides.
pub proof fn law_insert_leaves_other_rows(
    before: ContextModel,
    after: ContextModel,
    table: TableModel,
    rows: Seq<Row>,
    fresh: Uuid,
    r: Result<Executed, Fault>,
    k: Seq<u8>,
)
    requires
        executes(
            PlanTree::Insert(table, Box::new(PlanTree::Values(rows))),
            before,
            after,
            fresh,
            r,
        ),
    ensures
        r is Ok <==> forall|i: int|
            0 <= i < rows.len() ==> stored_path(table, #[trigger] rows[i]) is Some,
        r is Ok ==> r == Ok::<Executed, Fault>(Executed::Affected(rows.len())),
        after.catalog == before.catalog,
        r is Ok && among_keys(k, table, rows, rows.len() as int) ==> map_of(
            after.data,
        ).contains_key(k),
        !among_keys(k, table, rows, rows.len() as int) ==> map_of(after.data).contains_key(k)
            == map_of(before.data).contains_key(k) && (map_of(before.data).contains_key(k)
            ==> map_of(after.data)[k] == map_of(before.data)[k]),
{
    let input = PlanTree::Values(rows);
    let c = count_of(r)->0;
    assert(insert_runs(table, input, before, after, c));
    let o = choose|o: Outcome| #[trigger]
        yields(input, before, o) && inserts(before, after, table, o, c);
    lemma_drained_values(rows, before, o);
    let n = writable(table, rows, rows.len());
    lemma_writable_bound(table, rows, rows.len());
    lemma_all_writable(table, rows, rows.len());
    lemma_put_others(map_of(before.data), table, rows, n, k);
    if among_keys(k, table, rows, n as int) {
        let i = choose|i: int| 0 <= i < n && stored_path(table, #[trigger] rows[i])->0 == k;
        assert(stored_path(table, rows[i])->0 == k);
        assert(among_keys(k, table, rows, rows.len() as int));
    }
}

/// A delete of given rows goes through exactly where every row has a key, and counts them. The
/// rows under their keys are gone after it; every other stored row is left as it was.
pub proof fn law_delete_removes_just_its_rows(
    before: ContextModel,
    after: ContextModel,
    table: TableModel,
    rows: Seq<Row>,
    fresh: Uuid,
    r: Result<Executed, Fault>,
    k: Seq<u8>,
)
    requires
        executes(
            PlanTree::Delete(table, Box::new(PlanTree::Values(rows))),
            before,
            after,
            fresh,
            r,
        ),
    ensures
        r is Ok <==> forall|i: int|
            0 <= i < rows.len() ==> stored_path(table, #[trigger] rows[i]) is Some,
        r is Ok ==> r == Ok::<Executed, Fault>(Executed::Affected(rows.len())),
        after.catalog == before.catalog,
        r is Ok && among_keys(k, table, rows, rows.len() as int) ==> !map_of(
            after.data,
        ).contains_key(k),
        !among_keys(k, table, rows, rows.len() as int) ==> map_of(after.data).contains_key(k)
            == map_of(before.data).contains_key(k) && (map_of(before.data).contains_key(k)
            ==> map_of(after.data)[k] == map_of(before.data)[k]),
{
    let input = PlanTree::Values(rows);
    let c = count_of(r)->0;
    assert(delete_runs(table, input, before, after, c));
    let o = choose|o: Outcome| #[trigger]
        yields(input, before, o) && deletes(before, after, table, o, c);
    lemma_drained_values(rows, before, o);
    let n = writable(table, rows, rows.len());
    lemma_writable_bound(table, rows, rows.len());
    lemma_all_writable(table, rows, rows.len());
    lemma_removed(map_of(before.data), table, rows, n, k);
    if among_keys(k, table, rows, n as int) {
        let i = choose|i: int| 0 <= i < n && stored_path(table, #[trigger] rows[i])->0 == k;
        assert(stored_path(table, rows[i])->0 == k);
        assert(among_keys(k, table, rows, rows.len() as int));
    }
}

/// A query changes nothing.
pub proof fn law_reads_change_nothing(
    plan: PlanTree,
    before: ContextModel,
    after: ContextModel,
    fresh: Uuid,
    items: Stream,
)
    requires
        executes(plan, before, after, fresh, Ok(Executed::Rows(items))),
    ensures
        after == before,
        yields(plan, before, Ok(items)),
{
}

// --- the catalog ---

/// A table that a `CREATE TABLE` has made is found under the name that the statement gives, with
/// the columns that it declares. Where the table was there before, the statement is refused
/// unless it says `OR REPLACE`, and then changes nothing.
pub proof fn law_created_table_is_found(
    stmt: SqlCreateTable,
    before: ContextModel,
    after: ContextModel,
    project: ProjectId,
    dataset: DatasetId,
    name: Seq<char>,
    schema: Seq<FieldModel>,
    fresh: Uuid,
    r: Result<Executed, Fault>,
)
    requires
        bound_create_table(stmt, before) == Ok::<LogicalTree, Fault>(
            LogicalTree::CreateTable {
                project_id: project,
                dataset_id: dataset,
                name,
                schema,
                or_replace: stmt.or_replace,
            },
        ),
        executes(
            lowered(
                LogicalTree::CreateTable {
                    project_id: project,
                    dataset_id: dataset,
                    name,
                    schema,
                    or_replace: stmt.or_replace,
                },
            ),
            before,
            after,
            fresh,
            r,
        ),
    ensures
        after.data == before.data,
        r is Ok ==> {
            let parts = three_parts(stmt.name)->0;
            let t = resolved_table(after.catalog, parts.0, parts.1, parts.2);
            &&& t is Ok
            &&& t->Ok_0.name == parts.2
            &&& t->Ok_0.schema == schema
            &&& t->Ok_0.project_id == project
            &&& t->Ok_0.dataset_id == dataset
        },
        r is Err ==> after.catalog == before.catalog,
        !stmt.or_replace ==> (r is Ok <==> before.catalog.has_no_table(project, dataset, name)),
        !stmt.or_replace && r is Err ==> r == Err::<Executed, Fault>(
            Fault::Catalog(CatalogFault::AlreadyExists(ResourceKind::Table, name)),
        ),
        stmt.or_replace && before.catalog.has_no_table(project, dataset, name) && before.wf()
            ==> r is Ok,
{
    reveal_with_fuel(lowered, 2);
    let row = fresh_table(TableId(fresh), name, schema);
    let parts = three_parts(stmt.name)->0;
    let c = choose|c: Result<TableRow, CatalogFault>| #[trigger]
        table_made(before.catalog, after.catalog, project, dataset, row, stmt.or_replace, c)
            && count_of(r)->0 == match c {
            Ok(_) => Ok::<nat, Fault>(0),
            Err(f) => Err(Fault::Catalog(f)),
        };
    assert(parts.2 == name);
    if let Ok(made) = c {
        if stmt.or_replace && !before.catalog.has_no_table(project, dataset, name) {
            assert(replaces_live(before.catalog, project, dataset, row, made));
            let live = choose|live: TableRow| #[trigger]
                before.catalog.is_live(project, dataset, row.name, live) && live.truncation_id.0
                    < u64::MAX && made == next_incarnation(live, row);
            law_newest_incarnation_is_live(
                before.catalog,
                after.catalog,
                project,
                dataset,
                made,
            );
        } else {
            law_newest_incarnation_is_live(before.catalog, after.catalog, project, dataset, made);
        }
        assert(after.catalog.is_live(project, dataset, name, made));
        let m = after.catalog;
        assert(!m.has_no_table(project, dataset, name)) by {
            assert(map_of(m.tables).contains_key(
                crate::catalog::keys::table_path(project, dataset, name, made.truncation_id),
            ));
        }
        let found_row = live_row(m, project, dataset, name)->0;
        assert(m.is_live(project, dataset, name, found_row));
        law_one_live_incarnation(m, project, dataset, name, made, found_row);
        assert(made.schema == schema && made.name == name);
    } else if stmt.or_replace && before.catalog.has_no_table(project, dataset, name) {
        let live = choose|live: TableRow| #[trigger]
            before.catalog.is_live(project, dataset, name, live) && live.truncation_id.0
                == u64::MAX;
        assert(map_of(before.catalog.tables).contains_key(
            crate::catalog::keys::table_path(project, dataset, name, live.truncation_id),
        ));
    }
}

/// A dataset that a `CREATE SCHEMA` has made is found under its name. Where one of the name is
/// there already, the statement is refused, unless it says `IF NOT EXISTS`: then it goes through,
/// and either way nothing changes.
pub proof fn law_created_schema_is_found(
    before: ContextModel,
    after: ContextModel,
    project: ProjectId,
    name: Seq<char>,
    if_not_exists: bool,
    fresh: Uuid,
    r: Result<Executed, Fault>,
)
    requires
        before.wf(),
        after.wf(),
        executes(
            lowered(LogicalTree::CreateDataset { project_id: project, name, if_not_exists }),
            before,
            after,
            fresh,
            r,
        ),
    ensures
        after.data == before.data,
        after.catalog.tables == before.catalog.tables,
        found(after.catalog.datasets, dataset_path(project, name)) is Some,
        ({
            let there = found(before.catalog.datasets, dataset_path(project, name)) is Some;
            &&& r is Ok <==> !there || if_not_exists
            &&& r is Ok ==> r == Ok::<Executed, Fault>(Executed::Affected(0))
            &&& r is Err ==> r == Err::<Executed, Fault>(
                Fault::Catalog(CatalogFault::AlreadyExists(ResourceKind::Dataset, name)),
            )
            &&& there ==> after == before
        }),
{
    reveal_with_fuel(lowered, 2);
    let row = DatasetRow { id: DatasetId(fresh), name };
    let c = choose|c: Result<DatasetRow, CatalogFault>| #[trigger]
        creates_dataset(before.catalog, after.catalog, project, row, c) && count_of(r)->0
            == match c {
            Ok(_) => Ok::<nat, Fault>(0),
            Err(f) => if if_not_exists {
                Ok(0)
            } else {
                Err(Fault::Catalog(f))
            },
        };
    let k = dataset_path(project, name);
    if c is Ok {
        assert(map_of(after.catalog.datasets).contains_key(k));
    }
}

} // verus!
