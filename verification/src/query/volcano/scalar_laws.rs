//! What filters, projections, limits and offsets do to a stream, item by item.

use vstd::prelude::*;

use super::rows::Row;
use super::run::{error_free, items_of, Stream};
use super::scalar::{
    filtered, filtered_item, law_offset_of_rows, limited, projected, projected_item, row_count,
    skipped,
};
use crate::query::error::Fault;
use crate::query::expression::eval::{evaluated, values_of};
use crate::query::expression::Term;
use crate::query::host::{Answer, Question};
use crate::storage::types::Datum;

verus! {

/// Whether a list holds places among `n`, in rising order.
pub open spec fn rising(at: Seq<int>, n: int) -> bool {
    &&& forall|k: int| 0 <= k < at.len() ==> 0 <= #[trigger] at[k] < n
    &&& forall|j: int, k: int| 0 <= j < k < at.len() ==> #[trigger] at[j] < #[trigger] at[k]
}

/// Whether a filter gives `b` for `a`: the same error, the same row, or the error that the
/// predicate comes to on the row.
pub open spec fn passes_as(
    a: Result<Row, Fault>,
    b: Result<Row, Fault>,
    predicate: Term,
    table: Seq<(Question, Answer)>,
) -> bool {
    match a {
        Err(f) => b == Err::<Row, Fault>(f),
        Ok(row) => match evaluated(predicate, row, table) {
            Err(f) => b == Err::<Row, Fault>(f),
            Ok(d) => d == Datum::Bool(true) && b == Ok::<Row, Fault>(row),
        },
    }
}

/// Whether a filter drops an item: a row on which the predicate has a value other than true.
pub open spec fn dropped(
    a: Result<Row, Fault>,
    predicate: Term,
    table: Seq<(Question, Answer)>,
) -> bool {
    match a {
        Err(_) => false,
        Ok(row) => match evaluated(predicate, row, table) {
            Err(_) => false,
            Ok(d) => d != Datum::Bool(true),
        },
    }
}

/// A filter keeps the items that it does not drop, each once and in their order. `at` are the
/// places that they come from.
pub proof fn law_filter_keeps_the_order(
    items: Stream,
    predicate: Term,
    table: Seq<(Question, Answer)>,
) -> (at: Seq<int>)
    ensures
        at.len() == filtered(items, predicate, table).len(),
        rising(at, items.len() as int),
        forall|k: int|
            0 <= k < at.len() ==> passes_as(
                items[#[trigger] at[k]],
                filtered(items, predicate, table)[k],
                predicate,
                table,
            ),
        forall|i: int|
            0 <= i < items.len() ==> (at.contains(i) <==> !dropped(
                #[trigger] items[i],
                predicate,
                table,
            )),
    decreases items.len(),
{
    if items.len() == 0 {
        Seq::empty()
    } else {
        let before = items.drop_last();
        let n = items.len() - 1;
        let old_at = law_filter_keeps_the_order(before, predicate, table);
        assert(items[n] == items.last());
        let at = match filtered_item(items.last(), predicate, table) {
            Some(_) => old_at.push(n),
            None => old_at,
        };
        assert forall|k: int| 0 <= k < at.len() implies passes_as(
            items[#[trigger] at[k]],
            filtered(items, predicate, table)[k],
            predicate,
            table,
        ) by {
            if k < old_at.len() {
                assert(at[k] == old_at[k]);
                assert(before[old_at[k]] == items[at[k]]);
            }
        }
        assert forall|i: int| 0 <= i < items.len() implies (at.contains(i) <==> !dropped(
            #[trigger] items[i],
            predicate,
            table,
        )) by {
            if i < n {
                assert(before[i] == items[i]);
                if old_at.contains(i) {
                    let k = old_at.index_of(i);
                    assert(at[k] == i);
                }
                if at.contains(i) {
                    let k = at.index_of(i);
                    assert(old_at[k] == i);
                }
            } else {
                if !dropped(items[n], predicate, table) {
                    assert(at[at.len() - 1] == n);
                } else if at.contains(n) {
                    let k = at.index_of(n);
                    assert(old_at[k] == n);
                }
            }
        }
        at
    }
}

/// A row is in the output of a filter exactly where it is in the input and the predicate is
/// true of it. A row on which the predicate is false or null is not in the output.
pub proof fn law_filter_keeps_the_true_rows(
    items: Stream,
    predicate: Term,
    table: Seq<(Question, Answer)>,
    row: Row,
)
    ensures
        filtered(items, predicate, table).contains(Ok(row)) <==> items.contains(Ok(row))
            && evaluated(predicate, row, table) == Ok::<Datum, Fault>(Datum::Bool(true)),
{
    let out = filtered(items, predicate, table);
    let at = law_filter_keeps_the_order(items, predicate, table);
    if out.contains(Ok(row)) {
        let k = out.index_of(Ok(row));
        assert(passes_as(items[at[k]], out[k], predicate, table));
        assert(items[at[k]] == Ok::<Row, Fault>(row));
    }
    if items.contains(Ok(row)) && evaluated(predicate, row, table) == Ok::<Datum, Fault>(
        Datum::Bool(true),
    ) {
        let i = items.index_of(Ok(row));
        assert(!dropped(items[i], predicate, table));
        let k = at.index_of(i);
        assert(passes_as(items[at[k]], out[k], predicate, table));
        assert(out[k] == Ok::<Row, Fault>(row));
    }
}

/// A stream on which the predicate is true everywhere passes as it is; one on which it is true
/// nowhere, though it has a value, leaves nothing.
pub proof fn law_filter_of_all_or_nothing(
    items: Stream,
    predicate: Term,
    table: Seq<(Question, Answer)>,
)
    ensures
        (forall|i: int|
            0 <= i < items.len() ==> (#[trigger] items[i]) is Ok && evaluated(
                predicate,
                items[i]->Ok_0,
                table,
            ) == Ok::<Datum, Fault>(Datum::Bool(true))) ==> filtered(items, predicate, table)
            == items,
        (forall|i: int|
            0 <= i < items.len() ==> (#[trigger] items[i]) is Ok && evaluated(
                predicate,
                items[i]->Ok_0,
                table,
            ) is Ok && evaluated(predicate, items[i]->Ok_0, table) != Ok::<Datum, Fault>(
                Datum::Bool(true),
            )) ==> filtered(items, predicate, table).len() == 0,
    decreases items.len(),
{
    if items.len() > 0 {
        let before = items.drop_last();
        law_filter_of_all_or_nothing(before, predicate, table);
        assert forall|i: int| 0 <= i < before.len() implies before[i] == #[trigger] items[i] by {}
        assert(items.last() == items[items.len() - 1]);
        assert(before.push(items.last()) =~= items);
    }
}

// --- projections ---

proof fn lemma_values(
    terms: Seq<Term>,
    n: nat,
    row: Row,
    table: Seq<(Question, Answer)>,
)
    requires
        n <= terms.len(),
    ensures
        match values_of(terms, n, row, table) {
            Ok(vs) => vs.len() == n && forall|i: int|
                0 <= i < n ==> evaluated(terms[i], row, table) == Ok::<Datum, Fault>(
                    #[trigger] vs[i],
                ),
            Err(f) => exists|i: int|
                0 <= i < n && evaluated(#[trigger] terms[i], row, table) == Err::<Datum, Fault>(f)
                    && forall|j: int|
                    0 <= j < i ==> evaluated(#[trigger] terms[j], row, table) is Ok,
        },
    decreases n,
{
    if n > 0 {
        let m = (n - 1) as nat;
        lemma_values(terms, m, row, table);
        match values_of(terms, m, row, table) {
            Ok(vs) => {
                assert forall|j: int| 0 <= j < m implies evaluated(
                    #[trigger] terms[j],
                    row,
                    table,
                ) is Ok by {
                    assert(evaluated(terms[j], row, table) == Ok::<Datum, Fault>(vs[j]));
                }
                if let Err(f) = evaluated(terms[m as int], row, table) {
                    assert(values_of(terms, n, row, table) == Err::<Row, Fault>(f));
                    assert(evaluated(terms[m as int], row, table) == Err::<Datum, Fault>(f));
                }
            },
            Err(f) => {
                let i = choose|i: int|
                    0 <= i < m && evaluated(#[trigger] terms[i], row, table) == Err::<Datum, Fault>(f)
                        && forall|j: int| 0 <= j < i ==> evaluated(#[trigger] terms[j], row, table) is Ok;
                assert(evaluated(terms[i], row, table) == Err::<Datum, Fault>(f));
            },
        }
    }
}

/// A projection gives one item for each: an error as it is, and for a row the values of the
/// expressions on it, in their order, or the first error among them.
pub proof fn law_projection_evaluates_its_expressions(
    items: Stream,
    expressions: Seq<Term>,
    table: Seq<(Question, Answer)>,
    k: int,
)
    requires
        0 <= k < items.len(),
    ensures
        projected(items, expressions, table).len() == items.len(),
        match items[k] {
            Err(f) => projected(items, expressions, table)[k] == Err::<Row, Fault>(f),
            Ok(row) => match projected(items, expressions, table)[k] {
                Ok(out) => out.len() == expressions.len() && forall|i: int|
                    0 <= i < out.len() ==> evaluated(expressions[i], row, table) == Ok::<
                        Datum,
                        Fault,
                    >(#[trigger] out[i]),
                Err(f) => exists|i: int|
                    0 <= i < expressions.len() && evaluated(#[trigger] expressions[i], row, table)
                        == Err::<Datum, Fault>(f) && forall|j: int|
                        0 <= j < i ==> evaluated(#[trigger] expressions[j], row, table) is Ok,
            },
        },
{
    if let Ok(row) = items[k] {
        lemma_values(expressions, expressions.len(), row, table);
        assert(projected(items, expressions, table)[k] == projected_item(
            items[k],
            expressions,
            table,
        ));
    }
}

// --- limits and offsets ---

/// A limit gives the first items, as many as there are up to the count, and no others.
pub proof fn law_limit_gives_the_first_items(items: Stream, count: nat)
    ensures
        limited(items, count).len() == if count < items.len() {
            count
        } else {
            items.len()
        },
        forall|i: int|
            0 <= i < limited(items, count).len() ==> #[trigger] limited(items, count)[i]
                == items[i],
{
}

/// What an offset skips and a limit cuts off is exactly what the other leaves: the first
/// `count` rows and the rows behind them are all the rows, in their order.
pub proof fn law_limit_and_offset_split_the_rows(rows: Seq<Row>, count: nat)
    ensures
        limited(items_of(rows), count) + skipped(items_of(rows), count) == items_of(rows),
        skipped(items_of(rows), 0) == items_of(rows),
        limited(items_of(rows), 0).len() == 0,
{
    law_offset_of_rows(items_of(rows), count);
    law_offset_of_rows(items_of(rows), 0);
    assert(limited(items_of(rows), count) + skipped(items_of(rows), count) =~= items_of(rows));
    assert(skipped(items_of(rows), 0) =~= items_of(rows));
}

/// With both an offset and a limit, the rows are those from the offset on, up to the count.
pub proof fn law_limit_behind_offset(rows: Seq<Row>, skip: nat, count: nat)
    ensures
        ({
            let out = limited(skipped(items_of(rows), skip), count);
            &&& out.len() == if rows.len() <= skip {
                0
            } else if rows.len() <= skip + count {
                (rows.len() - skip) as nat
            } else {
                count
            }
            &&& forall|i: int|
                0 <= i < out.len() ==> #[trigger] out[i] == Ok::<Row, Fault>(rows[i + skip])
        }),
{
    law_offset_of_rows(items_of(rows), skip);
}

/// An offset never drops an error.
pub proof fn law_offset_keeps_errors(items: Stream, count: nat, f: Fault)
    ensures
        skipped(items, count).contains(Err(f)) <==> items.contains(Err(f)),
    decreases items.len(),
{
    if items.len() > 0 {
        let rest = items.drop_last();
        law_offset_keeps_errors(rest, count, f);
        let before = skipped(rest, count);
        assert(items =~= rest.push(items.last()));
        assert forall|x: Result<Row, Fault>|
            #![trigger items.contains(x)]
            items.contains(x) <==> rest.contains(x) || x == items.last() by {
            if rest.contains(x) {
                let i = rest.index_of(x);
                assert(items[i] == x);
            }
            if items.contains(x) {
                let i = items.index_of(x);
                if i < rest.len() {
                    assert(rest[i] == x);
                }
            }
            if x == items.last() {
                assert(items[items.len() - 1] == x);
            }
        }
        assert forall|x: Result<Row, Fault>|
            #![trigger before.push(items.last()).contains(x)]
            before.push(items.last()).contains(x) <==> before.contains(x) || x == items.last() by {
            let all = before.push(items.last());
            if before.contains(x) {
                let i = before.index_of(x);
                assert(all[i] == x);
            }
            if all.contains(x) {
                let i = all.index_of(x);
                if i < before.len() {
                    assert(before[i] == x);
                }
            }
            if x == items.last() {
                assert(all[all.len() - 1] == x);
            }
        }
    } else {
        assert(skipped(items, count) =~= items);
    }
}

} // verus!
