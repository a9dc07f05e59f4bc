//! Sinks: operators at the top of a plan that write and count, and the entry point that tells
//! them from reads.

use vstd::prelude::*;

use super::rows::{stream_of, Row, RowResult};
use super::run::{build, collect, drained, outcome_of, yields, Outcome, Stream};
use crate::catalog::error::CatalogFault;
use crate::catalog::ids::{DatasetId, ProjectId, TableId};
use crate::catalog::meta::{DatasetRow, TableRow};
use crate::catalog::state::{
    creates_dataset, creates_table, fresh_table, outcome, replaces_table, CatalogModel,
};
use crate::catalog::store::map_of;
use crate::catalog::tables::{Table, TableModel};
use crate::query::context::{
    null_key, stored_path, unstorable, ContextModel, QueryContext,
};
use crate::query::error::{Fault, QueryError};
use crate::query::physical_plan::{PhysicalPlan, PlanNode, PlanTree};
use crate::storage::types::{rows_of, Schema, Tuple, Uuid};

verus! {

/// What running a plan gives: the rows of a read, or how many rows a write touched.
pub enum ExecuteResult {
    Affected(u64),
    Rows(Vec<RowResult>),
}

/// What an [`ExecuteResult`] is, mathematically.
pub enum Executed {
    Affected(nat),
    Rows(Stream),
}

/// What a result is, mathematically.
pub open spec fn executed(r: Result<ExecuteResult, QueryError>) -> Result<Executed, Fault> {
    match r {
        Ok(ExecuteResult::Affected(n)) => Ok(Executed::Affected(n as nat)),
        Ok(ExecuteResult::Rows(items)) => Ok(Executed::Rows(stream_of(items@))),
        Err(e) => Err(e@),
    }
}

/// How many of the first `n` rows come before the first without a key.
pub open spec fn writable(table: TableModel, rows: Seq<Row>, n: nat) -> nat
    decreases n,
{
    if n == 0 || n > rows.len() {
        0
    } else if writable(table, rows, (n - 1) as nat) == n - 1 && stored_path(
        table,
        rows[n - 1],
    ) is Some {
        n
    } else {
        writable(table, rows, (n - 1) as nat)
    }
}

/// The stored rows after the first `n` rows are put.
pub open spec fn put_all(
    data: Map<Seq<u8>, Row>,
    table: TableModel,
    rows: Seq<Row>,
    n: nat,
) -> Map<Seq<u8>, Row>
    decreases n,
{
    if n == 0 || n > rows.len() {
        data
    } else {
        put_all(data, table, rows, (n - 1) as nat).insert(
            stored_path(table, rows[n - 1])->0,
            rows[n - 1],
        )
    }
}

/// The stored rows after the rows under the first `n` keys are deleted.
pub open spec fn remove_all(
    data: Map<Seq<u8>, Row>,
    table: TableModel,
    rows: Seq<Row>,
    n: nat,
) -> Map<Seq<u8>, Row>
    decreases n,
{
    if n == 0 || n > rows.len() {
        data
    } else {
        remove_all(data, table, rows, (n - 1) as nat).remove(stored_path(table, rows[n - 1])->0)
    }
}

/// An insert: every row is put and counted; the first row without a key stops it, and the rows
/// before that one stay.
pub open spec fn inserts(
    before: ContextModel,
    after: ContextModel,
    table: TableModel,
    input: Outcome,
    r: Result<nat, Fault>,
) -> bool {
    match drained(input) {
        Err(f) => r == Err::<nat, Fault>(f) && after == before,
        Ok(rows) => {
            let n = writable(table, rows, rows.len());
            &&& after == (ContextModel { data: after.data, ..before })
            &&& map_of(after.data) == put_all(map_of(before.data), table, rows, n)
            &&& r == if n == rows.len() {
                Ok::<nat, Fault>(n)
            } else {
                Err(unstorable(rows[n as int]))
            }
        },
    }
}

/// A delete: the row under the key of each row's first value is deleted, and counted whether
/// there or not; the first row without a key stops it, and what is deleted stays deleted.
pub open spec fn deletes(
    before: ContextModel,
    after: ContextModel,
    table: TableModel,
    input: Outcome,
    r: Result<nat, Fault>,
) -> bool {
    match drained(input) {
        Err(f) => r == Err::<nat, Fault>(f) && after == before,
        Ok(rows) => {
            let n = writable(table, rows, rows.len());
            &&& after == (ContextModel { data: after.data, ..before })
            &&& map_of(after.data) == remove_all(map_of(before.data), table, rows, n)
            &&& r == if n == rows.len() {
                Ok::<nat, Fault>(n)
            } else if rows[n as int].len() == 0 {
                Err(Fault::Internal("delete source has no primary-key column"@))
            } else {
                Err(null_key())
            }
        },
    }
}

/// What a count is, mathematically.
pub open spec fn counted(r: Result<u64, QueryError>) -> Result<nat, Fault> {
    match r {
        Ok(n) => Ok(n as nat),
        Err(e) => Err(e@),
    }
}

/// An insert of the rows that a plan may yield.
pub open spec fn insert_runs(
    table: TableModel,
    input: PlanTree,
    before: ContextModel,
    after: ContextModel,
    r: Result<nat, Fault>,
) -> bool {
    exists|o: Outcome| #[trigger]
        yields(input, before, o) && inserts(before, after, table, o, r)
}

/// A delete of the rows that a plan may yield.
pub open spec fn delete_runs(
    table: TableModel,
    input: PlanTree,
    before: ContextModel,
    after: ContextModel,
    r: Result<nat, Fault>,
) -> bool {
    exists|o: Outcome| #[trigger]
        yields(input, before, o) && deletes(before, after, table, o, r)
}

/// `CREATE TABLE`, or `CREATE OR REPLACE TABLE`.
pub open spec fn table_made(
    before: CatalogModel,
    after: CatalogModel,
    p: ProjectId,
    d: DatasetId,
    row: TableRow,
    or_replace: bool,
    c: Result<TableRow, CatalogFault>,
) -> bool {
    if or_replace {
        replaces_table(before, after, p, d, row, c)
    } else {
        creates_table(before, after, p, d, row, c)
    }
}

/// The statement that makes a table, as a plan.
pub open spec fn table_runs(
    before: ContextModel,
    after: ContextModel,
    p: ProjectId,
    d: DatasetId,
    row: TableRow,
    or_replace: bool,
    r: Result<nat, Fault>,
) -> bool {
    &&& after == (ContextModel { catalog: after.catalog, ..before })
    &&& exists|c: Result<TableRow, CatalogFault>| #[trigger]
        table_made(before.catalog, after.catalog, p, d, row, or_replace, c) && r == match c {
            Ok(_) => Ok::<nat, Fault>(0),
            Err(f) => Err(Fault::Catalog(f)),
        }
}

/// The statement that makes a dataset, as a plan.
pub open spec fn dataset_runs(
    before: ContextModel,
    after: ContextModel,
    p: ProjectId,
    row: DatasetRow,
    if_not_exists: bool,
    r: Result<nat, Fault>,
) -> bool {
    &&& after == (ContextModel { catalog: after.catalog, ..before })
    &&& exists|c: Result<DatasetRow, CatalogFault>| #[trigger]
        creates_dataset(before.catalog, after.catalog, p, row, c) && r == match c {
            Ok(_) => Ok::<nat, Fault>(0),
            Err(f) => if if_not_exists {
                Ok(0)
            } else {
                Err(Fault::Catalog(f))
            },
        }
}

/// The count of a write.
pub open spec fn count_of(r: Result<Executed, Fault>) -> Option<Result<nat, Fault>> {
    match r {
        Ok(Executed::Affected(n)) => Some(Ok(n)),
        Ok(Executed::Rows(_)) => None,
        Err(f) => Some(Err(f)),
    }
}

/// What running a plan does and gives.
pub open spec fn executes(
    plan: PlanTree,
    before: ContextModel,
    after: ContextModel,
    fresh: Uuid,
    r: Result<Executed, Fault>,
) -> bool {
    match plan {
        PlanTree::Insert(table, input) => count_of(r) is Some && insert_runs(
            table,
            *input,
            before,
            after,
            count_of(r)->0,
        ),
        PlanTree::Delete(table, input) => count_of(r) is Some && delete_runs(
            table,
            *input,
            before,
            after,
            count_of(r)->0,
        ),
        PlanTree::CreateTable { project_id, dataset_id, name, schema, or_replace } => count_of(
            r,
        ) is Some && table_runs(
            before,
            after,
            project_id,
            dataset_id,
            fresh_table(TableId(fresh), name, schema),
            or_replace,
            count_of(r)->0,
        ),
        PlanTree::CreateDataset { project_id, name, if_not_exists } => count_of(r) is Some
            && dataset_runs(
            before,
            after,
            project_id,
            DatasetRow { id: DatasetId(fresh), name },
            if_not_exists,
            count_of(r)->0,
        ),
        _ => after == before && match r {
            Ok(Executed::Rows(items)) => yields(plan, before, Ok(items)),
            Ok(Executed::Affected(_)) => false,
            Err(f) => yields(plan, before, Err(f)),
        },
    }
}

proof fn lemma_writable_stop(table: TableModel, rows: Seq<Row>, m: nat, n: nat)
    requires
        m < n <= rows.len(),
        writable(table, rows, m) == m,
        stored_path(table, rows[m as int]) is None,
    ensures
        writable(table, rows, n) == m,
    decreases n,
{
    if m + 1 < n {
        lemma_writable_stop(table, rows, m, (n - 1) as nat);
        lemma_writable_bound(table, rows, (n - 1) as nat);
    }
}

/// No more rows can be written than there are.
pub proof fn lemma_writable_bound(table: TableModel, rows: Seq<Row>, n: nat)
    ensures
        writable(table, rows, n) <= n,
    decreases n,
{
    if n > 0 && n <= rows.len() {
        lemma_writable_bound(table, rows, (n - 1) as nat);
    }
}

/// All rows of a read plan.
pub fn drain(input: &PlanNode, ctx: &QueryContext) -> (r: Result<Vec<Tuple>, QueryError>)
    ensures
        exists|o: Outcome| #[trigger]
            yields(input@, ctx@, o) && drained(o) == match r {
                Ok(rows) => Ok::<Seq<Row>, Fault>(rows_of(rows@)),
                Err(e) => Err(e@),
            },
{
    let built = build(input, ctx);
    let ghost o = outcome_of(built);
    assert(yields(input@, ctx@, o));
    match built {
        Ok(items) => collect(items),
        Err(e) => Err(e),
    }
}

spec fn drained_to(input: PlanTree, ctx: ContextModel, rows: Result<Seq<Row>, Fault>) -> Outcome {
    choose|o: Outcome| #[trigger] yields(input, ctx, o) && drained(o) == rows
}

/// Insert every row of `input` into `table`, and count them.
pub fn insert(table: &Table, input: &PlanNode, ctx: &mut QueryContext) -> (r: Result<
    u64,
    QueryError,
>)
    requires
        old(ctx)@.wf(),
    ensures
        final(ctx)@.wf(),
        insert_runs(table@, input@, old(ctx)@, final(ctx)@, counted(r)),
{
    let ghost before = ctx@;
    let tuples = match drain(input, ctx) {
        Ok(rows) => rows,
        Err(e) => {
            let ghost o = drained_to(input@, before, Err(e@));
            assert(yields(input@, before, o));
            return Err(e);
        },
    };
    let ghost rows = rows_of(tuples@);
    let ghost o = drained_to(input@, before, Ok(rows));
    assert(yields(input@, before, o));
    let mut i: usize = 0;
    while i < tuples.len()
        invariant
            i <= tuples@.len(),
            rows == rows_of(tuples@),
            before == old(ctx)@,
            yields(input@, before, o),
            drained(o) == Ok::<Seq<Row>, Fault>(rows),
            ctx@.wf(),
            ctx@ == (ContextModel { data: ctx@.data, ..before }),
            writable(table@, rows, i as nat) == i,
            map_of(ctx@.data) == put_all(map_of(before.data), table@, rows, i as nat),
        decreases tuples@.len() - i,
    {
        assert(rows[i as int] == tuples@[i as int]@);
        match ctx.put_row(table, &tuples[i]) {
            Ok(_) => {},
            Err(e) => {
                proof {
                    lemma_writable_stop(table@, rows, i as nat, rows.len());
                }
                return Err(e);
            },
        }
        i = i + 1;
    }
    Ok(tuples.len() as u64)
}

/// Delete the row under each row's first value from `table`, and count them.
pub fn delete(table: &Table, input: &PlanNode, ctx: &mut QueryContext) -> (r: Result<
    u64,
    QueryError,
>)
    requires
        old(ctx)@.wf(),
    ensures
        final(ctx)@.wf(),
        delete_runs(table@, input@, old(ctx)@, final(ctx)@, counted(r)),
{
    let ghost before = ctx@;
    let tuples = match drain(input, ctx) {
        Ok(rows) => rows,
        Err(e) => {
            let ghost o = drained_to(input@, before, Err(e@));
            assert(yields(input@, before, o));
            return Err(e);
        },
    };
    let ghost rows = rows_of(tuples@);
    let ghost o = drained_to(input@, before, Ok(rows));
    assert(yields(input@, before, o));
    let mut i: usize = 0;
    while i < tuples.len()
        invariant
            i <= tuples@.len(),
            rows == rows_of(tuples@),
            before == old(ctx)@,
            yields(input@, before, o),
            drained(o) == Ok::<Seq<Row>, Fault>(rows),
            ctx@.wf(),
            ctx@ == (ContextModel { data: ctx@.data, ..before }),
            writable(table@, rows, i as nat) == i,
            map_of(ctx@.data) == remove_all(map_of(before.data), table@, rows, i as nat),
        decreases tuples@.len() - i,
    {
        assert(rows[i as int] == tuples@[i as int]@);
        if tuples[i].values.len() == 0 {
            proof {
                lemma_writable_stop(table@, rows, i as nat, rows.len());
            }
            return Err(QueryError::internal("delete source has no primary-key column"));
        }
        assert(rows[i as int][0] == tuples@[i as int].values@[0]@);
        match ctx.delete_row(table, &tuples[i].values[0]) {
            Ok(_) => {},
            Err(e) => {
                proof {
                    lemma_writable_stop(table@, rows, i as nat, rows.len());
                }
                return Err(e);
            },
        }
        i = i + 1;
    }
    Ok(tuples.len() as u64)
}

/// The executor that pulls rows through a tree of operators.
pub struct Volcano;

impl Volcano {
    /// Run a plan. `fresh` is the id of whatever the plan creates.
    pub fn execute(&self, plan: PhysicalPlan, ctx: &mut QueryContext, fresh: Uuid) -> (r: Result<
        ExecuteResult,
        QueryError,
    >)
        requires
            old(ctx)@.wf(),
        ensures
            final(ctx)@.wf(),
            executes(plan@, old(ctx)@, final(ctx)@, fresh, executed(r)),
    {
        run(&plan.root, ctx, fresh)
    }
}

/// Make a table.
fn make_table(
    project_id: ProjectId,
    dataset_id: DatasetId,
    name: &String,
    schema: &Schema,
    or_replace: bool,
    ctx: &mut QueryContext,
    fresh: Uuid,
) -> (r: Result<u64, QueryError>)
    requires
        old(ctx)@.wf(),
    ensures
        final(ctx)@.wf(),
        table_runs(
            old(ctx)@,
            final(ctx)@,
            project_id,
            dataset_id,
            fresh_table(TableId(fresh), name@, schema@),
            or_replace,
            counted(r),
        ),
{
    let ghost before = ctx@;
    let copy = schema.clone();
    let made = if or_replace {
        ctx.catalog.replace_table(project_id, dataset_id, name.as_str(), copy, TableId(fresh))
    } else {
        ctx.catalog.create_table(project_id, dataset_id, name.as_str(), copy, TableId(fresh))
    };
    assert(table_made(
        before.catalog,
        ctx@.catalog,
        project_id,
        dataset_id,
        fresh_table(TableId(fresh), name@, schema@),
        or_replace,
        outcome(made),
    ));
    match made {
        Ok(_) => Ok(0),
        Err(e) => Err(QueryError::Catalog(e)),
    }
}

/// Make a dataset; one that is there already is no error where the statement says so.
fn make_dataset(
    project_id: ProjectId,
    name: &String,
    if_not_exists: bool,
    ctx: &mut QueryContext,
    fresh: Uuid,
) -> (r: Result<u64, QueryError>)
    requires
        old(ctx)@.wf(),
    ensures
        final(ctx)@.wf(),
        dataset_runs(
            old(ctx)@,
            final(ctx)@,
            project_id,
            (DatasetRow { id: DatasetId(fresh), name: name@ }),
            if_not_exists,
            counted(r),
        ),
{
    let ghost before = ctx@;
    let made = ctx.catalog.create_dataset(project_id, name.as_str(), DatasetId(fresh));
    assert(creates_dataset(
        before.catalog,
        ctx@.catalog,
        project_id,
        (DatasetRow { id: DatasetId(fresh), name: name@ }),
        outcome(made),
    ));
    match made {
        Ok(_) => Ok(0),
        Err(e) => if if_not_exists {
            Ok(0)
        } else {
            Err(QueryError::Catalog(e))
        },
    }
}

/// A count as the result of a plan.
fn as_result(count: Result<u64, QueryError>) -> (r: Result<ExecuteResult, QueryError>)
    ensures
        count_of(executed(r)) == Some(counted(count)),
{
    match count {
        Ok(n) => Ok(ExecuteResult::Affected(n)),
        Err(e) => Err(e),
    }
}

/// Run the plan with root `node`.
pub fn run(node: &PlanNode, ctx: &mut QueryContext, fresh: Uuid) -> (r: Result<
    ExecuteResult,
    QueryError,
>)
    requires
        old(ctx)@.wf(),
    ensures
        final(ctx)@.wf(),
        executes(node@, old(ctx)@, final(ctx)@, fresh, executed(r)),
{
    match node {
        PlanNode::Insert { table, input } => as_result(insert(table, input, ctx)),
        PlanNode::Delete { table, input } => as_result(delete(table, input, ctx)),
        PlanNode::CreateTable { project_id, dataset_id, name, schema, or_replace } => as_result(
            make_table(*project_id, *dataset_id, name, schema, *or_replace, ctx, fresh),
        ),
        PlanNode::CreateDataset { project_id, name, if_not_exists } => as_result(
            make_dataset(*project_id, name, *if_not_exists, ctx, fresh),
        ),
        _ => match build(node, ctx) {
            Ok(items) => Ok(ExecuteResult::Rows(items)),
            Err(e) => Err(e),
        },
    }
}

} // verus!
