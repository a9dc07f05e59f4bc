//! What statements promise each other: a query gives back what an insert wrote.

use vstd::prelude::*;

use super::context::{stored_path, table_scope, ContextModel};
use super::error::Fault;
use super::expression::eval::{evaluated, values_of};
use super::expression::Term;
use super::host::{Answer, Question};
use super::logical_plan::LogicalTree;
use super::physical_plan::PlanTree;
use super::planner::ast::SqlInsert;
use super::planner::binder::dml::bound_insert;
use super::planner::binder::dml_laws::{law_inserted_rows_fit_the_table, row_fits};
use super::planner::binder::query::all_columns;
use super::planner::lower::lowered;
use super::volcano::rows::Row;
use super::volcano::run::{collected, drained, items_of, runs, yields, Outcome, Stream, Trace};
use super::volcano::scalar::{projected, projected_item};
use super::volcano::sink::{
    executes, insert_runs, inserts, lemma_writable_bound, put_all, writable, Executed,
};
use crate::catalog::state::lemma_scanned;
use crate::catalog::store::map_of;
use crate::catalog::tables::TableModel;
use crate::storage::types::{Datum, Uuid};

verus! {

/// The rows of a stream without errors are all its rows.
proof fn lemma_collected(rows: Seq<Row>, n: nat)
    requires
        n <= rows.len(),
    ensures
        collected(items_of(rows), n) == Ok::<Seq<Row>, Fault>(rows.take(n as int)),
    decreases n,
{
    if n > 0 {
        lemma_collected(rows, (n - 1) as nat);
        assert(rows.take(n as int) =~= rows.take(n - 1).push(rows[n - 1]));
    } else {
        assert(rows.take(0) =~= Seq::<Row>::empty());
    }
}

/// Given rows come out as they are, in their order.
pub proof fn law_values_yield_their_rows(rows: Seq<Row>, ctx: ContextModel, o: Outcome)
    ensures
        yields(PlanTree::Values(rows), ctx, o) <==> o == Ok::<Stream, Fault>(items_of(rows)),
{
    let t = Trace::Source(Ok(items_of(rows)));
    assert(runs(PlanTree::Values(rows), ctx, t));
}

/// A scan yields the rows of its table, in the order of their keys.
pub proof fn law_scan_yields_the_table(table: TableModel, ctx: ContextModel, o: Outcome)
    ensures
        yields(PlanTree::SeqScan(table), ctx, o) <==> o == Ok::<Stream, Fault>(
            items_of(ctx.rows(table)),
        ),
{
    let t = Trace::Source(Ok(items_of(ctx.rows(table))));
    assert(runs(PlanTree::SeqScan(table), ctx, t));
}

proof fn lemma_all_columns(row: Row, width: nat, n: nat, table: Seq<(Question, Answer)>)
    requires
        n <= width == row.len(),
    ensures
        values_of(all_columns(width), n, row, table) == Ok::<Row, Fault>(row.take(n as int)),
    decreases n,
{
    if n > 0 {
        lemma_all_columns(row, width, (n - 1) as nat, table);
        assert(all_columns(width)[n - 1] == Term::Column((n - 1) as nat));
        reveal_with_fuel(evaluated, 2);
        assert(evaluated(Term::Column((n - 1) as nat), row, table) == Ok::<Datum, Fault>(
            row[n - 1],
        ));
        assert(row.take(n as int) =~= row.take(n - 1).push(row[n - 1]));
    } else {
        assert(row.take(0) =~= Seq::<Datum>::empty());
    }
}

/// Selecting all columns gives every row of its width back as it is.
pub proof fn law_selecting_all_columns_changes_nothing(
    row: Row,
    table: Seq<(Question, Answer)>,
)
    ensures
        projected_item(Ok(row), all_columns(row.len()), table) == Ok::<Row, Fault>(row),
{
    lemma_all_columns(row, row.len(), row.len(), table);
    assert(row.take(row.len() as int) =~= row);
}

/// Putting rows one after the other keeps the last under each key.
proof fn lemma_put_all(
    data: Map<Seq<u8>, Row>,
    table: TableModel,
    rows: Seq<Row>,
    n: nat,
    i: int,
)
    requires
        0 <= i < n <= rows.len(),
        forall|j: int|
            i < j < n ==> stored_path(table, #[trigger] rows[j])->0 != stored_path(
                table,
                rows[i],
            )->0,
    ensures
        put_all(data, table, rows, n).contains_key(stored_path(table, rows[i])->0),
        put_all(data, table, rows, n)[stored_path(table, rows[i])->0] == rows[i],
    decreases n,
{
    if i < n - 1 {
        lemma_put_all(data, table, rows, (n - 1) as nat, i);
    }
}

proof fn lemma_writable(table: TableModel, rows: Seq<Row>, n: nat, i: int)
    requires
        0 <= i < n <= rows.len(),
        writable(table, rows, n) == n,
    ensures
        stored_path(table, rows[i]) is Some,
    decreases n,
{
    lemma_writable_bound(table, rows, (n - 1) as nat);
    if i < n - 1 {
        lemma_writable(table, rows, (n - 1) as nat, i);
    }
}

/// After an insert that went through, every row that no later row of the insert replaced is
/// among the rows of the table.
pub proof fn law_inserted_rows_are_read_back(
    before: ContextModel,
    after: ContextModel,
    table: TableModel,
    rows: Seq<Row>,
    fresh: Uuid,
    count: nat,
    i: int,
)
    requires
        before.wf(),
        after.wf(),
        executes(
            PlanTree::Insert(table, Box::new(PlanTree::Values(rows))),
            before,
            after,
            fresh,
            Ok(Executed::Affected(count)),
        ),
        0 <= i < rows.len(),
        forall|j: int|
            i < j < rows.len() ==> stored_path(table, #[trigger] rows[j]) != stored_path(
                table,
                rows[i],
            ),
    ensures
        count == rows.len(),
        after.rows(table).contains(rows[i]),
{
    let input = PlanTree::Values(rows);
    let r = Ok::<nat, Fault>(count);
    assert(insert_runs(table, input, before, after, r));
    let o = choose|o: Outcome| #[trigger]
        yields(input, before, o) && inserts(before, after, table, o, r);
    law_values_yield_their_rows(rows, before, o);
    lemma_collected(rows, rows.len());
    assert(rows.take(rows.len() as int) =~= rows);
    assert(items_of(rows).len() == rows.len());
    assert(drained(o) == Ok::<Seq<Row>, Fault>(rows));
    let n = writable(table, rows, rows.len());
    assert(n == rows.len());
    assert forall|j: int| i < j < rows.len() implies stored_path(table, #[trigger] rows[j])->0
        != stored_path(table, rows[i])->0 by {
        lemma_writable(table, rows, n, i);
        lemma_writable(table, rows, n, j);
    }
    lemma_writable(table, rows, n, i);
    lemma_put_all(map_of(before.data), table, rows, n, i);
    let k = stored_path(table, rows[i])->0;
    lemma_scanned(after.data, table_scope(table), rows[i]);
    assert(map_of(after.data).contains_key(k));
    assert(table_scope(table).is_prefix_of(k));
}

/// `SELECT *` from a table, after an `INSERT` into it, gives back every inserted row that no
/// later row of the insert replaced: as it was inserted, and whatever else was there.
pub proof fn law_select_gives_back_what_insert_wrote(
    stmt: SqlInsert,
    before: ContextModel,
    table: TableModel,
    rows: Seq<Row>,
    middle: ContextModel,
    after: ContextModel,
    first: Uuid,
    second: Uuid,
    count: nat,
    items: Stream,
    i: int,
)
    requires
        before.wf(),
        middle.wf(),
        bound_insert(stmt, before) == Ok::<LogicalTree, Fault>(
            LogicalTree::Insert(table, Box::new(LogicalTree::Values(rows))),
        ),
        executes(
            lowered(LogicalTree::Insert(table, Box::new(LogicalTree::Values(rows)))),
            before,
            middle,
            first,
            Ok(Executed::Affected(count)),
        ),
        executes(
            lowered(
                LogicalTree::Project(
                    Box::new(LogicalTree::Scan(table)),
                    all_columns(table.schema.len()),
                ),
            ),
            middle,
            after,
            second,
            Ok(Executed::Rows(items)),
        ),
        0 <= i < rows.len(),
        forall|j: int|
            i < j < rows.len() ==> stored_path(table, #[trigger] rows[j]) != stored_path(
                table,
                rows[i],
            ),
    ensures
        items.contains(Ok(rows[i])),
{
    reveal_with_fuel(lowered, 2);
    let tree = LogicalTree::Insert(table, Box::new(LogicalTree::Values(rows)));
    law_inserted_rows_fit_the_table(stmt, before, tree);
    assert(row_fits(rows[i], table.schema));
    law_inserted_rows_are_read_back(before, middle, table, rows, first, count, i);
    let width = table.schema.len();
    let scan = PlanTree::SeqScan(table);
    let plan = PlanTree::Project(Box::new(scan), all_columns(width));
    assert(yields(plan, middle, Ok(items)));
    let t = choose|t: Trace| #[trigger]
        runs(plan, middle, t) && t.outcome() == Ok::<Stream, Fault>(items);
    match t {
        Trace::Unary(u, o) => {
            assert(runs(scan, middle, *u));
            let source = items_of(middle.rows(table));
            assert(u.outcome() == Ok::<Stream, Fault>(source));
            assert(items == projected(source, all_columns(width), middle.answers));
            let k = middle.rows(table).index_of(rows[i]);
            assert(source[k] == Ok::<Row, Fault>(rows[i]));
            law_selecting_all_columns_changes_nothing(rows[i], middle.answers);
            assert(items[k] == Ok::<Row, Fault>(rows[i]));
        },
        _ => {},
    }
}

} // verus!
