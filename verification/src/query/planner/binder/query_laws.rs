//! What the words of a `SELECT` come to in the rows that it gives.

use vstd::prelude::*;

use super::expr::{bound, Visible};
use super::names::idents_of;
use super::query::{
    bound_factor, bound_from, bound_items, bound_join, bound_joins, bound_sort_keys, join_shape,
    joined, Relation,
};
use super::select_laws::lemma_arranged;
use super::scope::{relation_columns, scope_schema, ColumnModel};
use crate::catalog::error::CatalogFault;
use crate::catalog::state::resolved_table;
use crate::catalog::system::relation_schema;
use crate::catalog::tables::TableModel;
use crate::query::context::ContextModel;
use crate::query::error::Fault;
use crate::query::expression::eval::evaluated;
use crate::query::expression::{BinaryOperator, Term};
use crate::query::host::{Answer, Question};
use crate::query::laws::law_values_yield_their_rows;
use crate::query::logical_plan::LogicalTree;
use crate::query::physical_plan::{JoinStrategy, PlanTree};
use crate::query::planner::ast::{
    SqlConstraint, SqlExpr, SqlFactor, SqlFrom, SqlJoin, SqlJoinKind, SqlOrderTerm,
};
use crate::query::planner::lower::{lowered, sorted_on as sorted_plan};
use crate::query::volcano::join::agree::{
    column_order, key_equality, law_equality_is_by_key_bytes,
    law_merge_join_is_the_nested_loop_join, law_sorting_prepares_a_merge, one_kind,
    sortable as sortable_keys,
};
use crate::query::volcano::join::keys::equi_columns;
use crate::query::volcano::join::merge::{
    keys_at, law_a_merge_of_sorted_sides_gives_their_pairs, merged, sorted_on,
};
use crate::query::volcano::join::model::{joined as rows_of_join, JoinType};
use crate::query::volcano::join::nested_loop::matching;
use crate::query::volcano::join::plans::join_of;
use crate::query::volcano::join::rows_of_join::{
    is_lone_left, is_lone_right, is_pair, law_cross_join_size, law_rows_of_a_join, satisfied,
};
use crate::query::volcano::rows::{stream_rows, Row};
use crate::query::volcano::run::{
    arity, block_outcome, collected, drained, error_free, inner_rows, items_of, materialized, merge_outcome, runs, yields,
    Outcome, Stream, Trace, INNER_WORKSPACE_BUDGET,
};
use crate::query::volcano::sort::{is_sorted_output, key_parts, stream_keys, KeyBytes, SortTerm};
use crate::storage::types::{Datum, FieldModel};

verus! {

// --- joins ---

/// Whether a join keeps the left rows that have no partner, as SQL spells it.
pub open spec fn says_left(kind: SqlJoinKind) -> bool {
    kind is Left || kind is LeftOuter || kind is FullOuter
}

/// Whether a join keeps the right rows that have no partner, as SQL spells it.
pub open spec fn says_right(kind: SqlJoinKind) -> bool {
    kind is Right || kind is RightOuter || kind is FullOuter
}

/// The word `OUTER` makes no difference, and neither does `INNER`: joins of the same relations
/// on the same condition have the same plan, or fail alike.
pub proof fn law_noise_words_make_no_difference(
    left: Relation,
    a: SqlJoin,
    b: SqlJoin,
    ctx: ContextModel,
)
    requires
        a.relation == b.relation,
        a.constraint == b.constraint,
        (a.kind is LeftOuter && b.kind is Left) || (a.kind is RightOuter && b.kind is Right) || (
        a.kind is Inner && b.kind is Join),
    ensures
        bound_join(left, a, ctx) == bound_join(left, b, ctx),
{
}

/// A cross join is an inner join without a condition.
pub proof fn law_cross_join_has_no_condition(
    left: Relation,
    a: SqlJoin,
    b: SqlJoin,
    ctx: ContextModel,
)
    requires
        a.relation == b.relation,
        a.kind is Cross,
        b.kind is Join,
        b.constraint is Absent,
    ensures
        bound_join(left, a, ctx) == bound_join(left, b, ctx),
{
}

/// The first rows of a stream that drains, as a stream.
proof fn lemma_drained(items: Stream, n: nat)
    requires
        n <= items.len(),
        collected(items, n) is Ok,
    ensures
        items.take(n as int) == items_of(collected(items, n)->Ok_0),
    decreases n,
{
    if n > 0 {
        let m = (n - 1) as nat;
        lemma_drained(items, m);
        let rows = collected(items, m)->Ok_0;
        assert(items.take(n as int) =~= items.take(m as int).push(items[m as int]));
        assert(items_of(rows.push(items[m as int]->Ok_0)) =~= items_of(rows).push(items[m as int]));
    } else {
        assert(items.take(0) =~= items_of(Seq::<Row>::empty()));
    }
}

proof fn lemma_drains(o: Outcome)
    requires
        drained(o) is Ok,
    ensures
        o == Ok::<Stream, Fault>(items_of(drained(o)->Ok_0)),
{
    let items = o->Ok_0;
    lemma_drained(items, items.len());
    assert(items.take(items.len() as int) =~= items);
}

proof fn lemma_materialized(items: Stream, n: nat, budget: nat)
    requires
        materialized(items, n, budget) is Ok,
    ensures
        collected(items, n) == materialized(items, n, budget),
    decreases n,
{
    if n > 0 && n <= items.len() {
        lemma_materialized(items, (n - 1) as nat, budget);
    }
}

proof fn lemma_inner(o: Outcome)
    requires
        inner_rows(o) is Ok,
    ensures
        o == Ok::<Stream, Fault>(items_of(inner_rows(o)->Ok_0)),
{
    let items = o->Ok_0;
    lemma_materialized(items, items.len(), INNER_WORKSPACE_BUDGET as nat);
    lemma_drains(o);
}

/// The rows of a bound relation have as many columns as the relation.
proof fn lemma_factor_width(factor: SqlFactor, ctx: ContextModel)
    requires
        bound_factor(factor, ctx) is Ok,
    ensures
        arity(lowered(bound_factor(factor, ctx)->Ok_0.0)) == bound_factor(factor, ctx)->Ok_0.1.len(),
{
}

proof fn lemma_joins_width(from: SqlFrom, n: nat, ctx: ContextModel)
    requires
        bound_joins(from, n, ctx) is Ok,
        bound_joins(from, n, ctx)->Ok_0.1.len() <= usize::MAX,
    ensures
        arity(lowered(bound_joins(from, n, ctx)->Ok_0.0)) == bound_joins(
            from,
            n,
            ctx,
        )->Ok_0.1.len(),
    decreases n,
{
    if n == 0 || n > from.joins@.len() {
        lemma_factor_width(from.relation, ctx);
    } else {
        let left = bound_joins(from, (n - 1) as nat, ctx)->Ok_0;
        let join = from.joins@[n - 1];
        let right = bound_factor(join.relation, ctx)->Ok_0;
        lemma_factor_width(join.relation, ctx);
        lemma_joins_width(from, (n - 1) as nat, ctx);
        reveal_with_fuel(lowered, 2);
        reveal_with_fuel(arity, 3);
    }
}

/// The condition of a join, over the columns of both sides.
pub open spec fn is_condition(
    on: Option<Term>,
    join: SqlJoin,
    columns: Seq<ColumnModel>,
    table: Seq<(Question, Answer)>,
) -> bool {
    if join.kind is Cross {
        on is None
    } else {
        match join.constraint {
            SqlConstraint::On(e) => on is Some && bound(e, Some(columns), table) == Ok::<
                Term,
                Fault,
            >(on->0),
            _ => on is None,
        }
    }
}

/// Whether `out` are the rows of a join of `ls` and `rs` as SQL spells it: the pairs that the
/// condition is true of; where the join says `LEFT` or `FULL`, every left row without a
/// partner, with nulls in place of the right columns; where it says `RIGHT` or `FULL`, every
/// right row without one, with nulls in place of the left columns; and no others.
pub open spec fn joins_as_said(
    kind: SqlJoinKind,
    on: Option<Term>,
    ls: Seq<Row>,
    rs: Seq<Row>,
    left_width: nat,
    right_width: nat,
    out: Seq<Row>,
    table: Seq<(Question, Answer)>,
) -> bool {
    forall|row: Row|
        #[trigger] out.contains(row) <==> {
            ||| is_pair(row, ls, rs, on, table)
            ||| says_left(kind) && is_lone_left(row, ls, rs, on, right_width, table)
            ||| says_right(kind) && is_lone_right(row, ls, rs, on, left_width, table)
        }
}

proof fn lemma_shape(
    left: Relation,
    right: Relation,
    join: SqlJoin,
    on: Option<Term>,
    ctx: ContextModel,
)
    requires
        bound_factor(join.relation, ctx) == Ok::<Relation, Fault>(right),
        bound_join(left, join, ctx) is Ok,
        is_condition(on, join, left.1 + right.1, ctx.answers),
    ensures
        join_shape(join) is Ok,
        bound_join(left, join, ctx) == Ok::<Relation, Fault>(
            joined(left, right, join_shape(join)->Ok_0.0, on),
        ),
        ({
            let jt = join_shape(join)->Ok_0.0;
            &&& (jt is Left || jt is Full) == says_left(join.kind)
            &&& (jt is Right || jt is Full) == says_right(join.kind)
        }),
{
}

proof fn lemma_lowered_join(left: Relation, right: Relation, jt: JoinType, on: Option<Term>)
    requires
        !(jt is Inner) || equi_columns(on, left.1.len()) is None,
    ensures
        lowered(joined(left, right, jt, on).0) == join_of(
            lowered(left.0),
            lowered(right.0),
            on,
            jt,
            scope_schema(left.1),
            scope_schema(right.1),
            JoinStrategy::BlockNestedLoop,
        ),
{
}

proof fn lemma_block_outcome(
    outer: Outcome,
    right: Seq<Row>,
    on: Option<Term>,
    jt: JoinType,
    lw: nat,
    rw: nat,
    table: Seq<(Question, Answer)>,
    out: Stream,
)
    requires
        block_outcome(outer, right, on, jt, lw, rw, table, Ok(out)),
    ensures
        drained(outer) is Ok,
        outer == Ok::<Stream, Fault>(items_of(drained(outer)->Ok_0)),
        error_free(out),
        stream_rows(out).to_multiset() == rows_of_join(
            drained(outer)->Ok_0,
            right,
            matching(on, table),
            jt,
            lw,
            rw,
        ),
{
    assert(drained(outer) is Ok);
    lemma_drains(outer);
}

#[verifier::rlimit(40)]
proof fn lemma_block_join(
    left: PlanTree,
    right: PlanTree,
    on: Option<Term>,
    jt: JoinType,
    left_schema: Seq<FieldModel>,
    right_schema: Seq<FieldModel>,
    ctx: ContextModel,
    t: Trace,
    out: Stream,
) -> (sides: (Seq<Row>, Seq<Row>))
    requires
        runs(
            join_of(
                left,
                right,
                on,
                jt,
                left_schema,
                right_schema,
                JoinStrategy::BlockNestedLoop,
            ),
            ctx,
            t,
        ),
        t.outcome() == Ok::<Stream, Fault>(out),
    ensures
        yields(left, ctx, Ok(items_of(sides.0))),
        yields(right, ctx, Ok(items_of(sides.1))),
        error_free(out),
        stream_rows(out).to_multiset() == rows_of_join(
            sides.0,
            sides.1,
            matching(on, ctx.answers),
            jt,
            arity(left),
            arity(right),
        ),
{
    match t {
        Trace::Binary(r, l, o) => {
            let rs = inner_rows(r.outcome())->Ok_0;
            assert(runs(right, ctx, *r) && runs(left, ctx, *l));
            assert(block_outcome(
                l.outcome(),
                rs,
                on,
                jt,
                arity(left),
                arity(right),
                ctx.answers,
                Ok(out),
            ));
            lemma_inner(r.outcome());
            lemma_block_outcome(
                l.outcome(),
                rs,
                on,
                jt,
                arity(left),
                arity(right),
                ctx.answers,
                out,
            );
            (drained(l.outcome())->Ok_0, rs)
        },
        _ => (Seq::empty(), Seq::empty()),
    }
}

/// What a join in a `FROM` clause gives. `ls` and `rs` are the rows that its two sides give;
/// the rows of the join are those that its words say, under the condition as written. An inner
/// join on one column of each side is merged from sorted sides, and has laws of its own.
pub proof fn law_join_gives_what_it_says(
    from: SqlFrom,
    n: nat,
    ctx: ContextModel,
    left: Relation,
    right: Relation,
    whole: Relation,
    on: Option<Term>,
    t: Trace,
    out: Stream,
) -> (sides: (Seq<Row>, Seq<Row>))
    requires
        0 < n <= from.joins@.len(),
        bound_joins(from, (n - 1) as nat, ctx) == Ok::<Relation, Fault>(left),
        bound_factor(from.joins@[n - 1].relation, ctx) == Ok::<Relation, Fault>(right),
        bound_joins(from, n, ctx) == Ok::<Relation, Fault>(whole),
        is_condition(on, from.joins@[n - 1], left.1 + right.1, ctx.answers),
        says_left(from.joins@[n - 1].kind) || says_right(from.joins@[n - 1].kind) || equi_columns(
            on,
            left.1.len(),
        ) is None,
        left.1.len() <= usize::MAX,
        right.1.len() <= usize::MAX,
        runs(lowered(whole.0), ctx, t),
        t.outcome() == Ok::<Stream, Fault>(out),
    ensures
        yields(lowered(left.0), ctx, Ok(items_of(sides.0))),
        yields(lowered(right.0), ctx, Ok(items_of(sides.1))),
        error_free(out),
        whole.1 == left.1 + right.1,
        joins_as_said(
            from.joins@[n - 1].kind,
            on,
            sides.0,
            sides.1,
            left.1.len(),
            right.1.len(),
            stream_rows(out),
            ctx.answers,
        ),
{
    let join = from.joins@[n - 1];
    let (l, r) = (lowered(left.0), lowered(right.0));
    let (ls, rs) = (scope_schema(left.1), scope_schema(right.1));
    lemma_joins_width(from, (n - 1) as nat, ctx);
    lemma_factor_width(join.relation, ctx);
    let jt = join_shape(join)->Ok_0.0;
    lemma_shape(left, right, join, on, ctx);
    assert(bound_join(left, join, ctx) == Ok::<Relation, Fault>(whole));
    lemma_lowered_join(left, right, jt, on);
    let plan = join_of(l, r, on, jt, ls, rs, JoinStrategy::BlockNestedLoop);
    assert(lowered(whole.0) == plan);
    let sides = lemma_block_join(l, r, on, jt, ls, rs, ctx, t, out);
    assert forall|row: Row|
        #[trigger] stream_rows(out).contains(row) <==> {
            ||| is_pair(row, sides.0, sides.1, on, ctx.answers)
            ||| says_left(join.kind) && is_lone_left(
                row,
                sides.0,
                sides.1,
                on,
                right.1.len(),
                ctx.answers,
            )
            ||| says_right(join.kind) && is_lone_right(
                row,
                sides.0,
                sides.1,
                on,
                left.1.len(),
                ctx.answers,
            )
        } by {
        law_rows_of_a_join(
            sides.0,
            sides.1,
            on,
            jt,
            left.1.len(),
            right.1.len(),
            ctx.answers,
            row,
        );
        vstd::seq_lib::to_multiset_contains(stream_rows(out), row);
    }
    sides
}

// --- inner joins on one column of each side ---

/// Whether a value is the join key of a row of either side.
pub open spec fn is_key(ls: Seq<Row>, rs: Seq<Row>, a: nat, b: nat, d: Datum) -> bool {
    ||| exists|i: int| 0 <= i < ls.len() && (#[trigger] ls[i])[a as int] == d
    ||| exists|j: int| 0 <= j < rs.len() && (#[trigger] rs[j])[b as int] == d
}

/// Whether two sides can be merged: their rows have their columns, and all their keys but for
/// nulls are of one type with an order.
pub open spec fn can_merge(
    ls: Seq<Row>,
    rs: Seq<Row>,
    a: nat,
    b: nat,
    left_width: nat,
    right_width: nat,
) -> bool {
    &&& a < left_width && b < right_width
    &&& forall|i: int| 0 <= i < ls.len() ==> (#[trigger] ls[i]).len() == left_width
    &&& forall|j: int| 0 <= j < rs.len() ==> (#[trigger] rs[j]).len() == right_width
    &&& forall|d: Datum, e: Datum|
        #[trigger] is_key(ls, rs, a, b, d) && #[trigger] is_key(ls, rs, a, b, e) ==> one_kind(d, e)
}

/// Whether two lists hold the same rows.
spec fn same_rows(x: Seq<Row>, y: Seq<Row>) -> bool {
    forall|row: Row| #[trigger] x.contains(row) <==> y.contains(row)
}

spec fn keyed(
    item: Result<Row, Fault>,
    k: KeyBytes,
    column: nat,
    table: Seq<(Question, Answer)>,
) -> bool {
    item is Ok && key_parts(item->Ok_0, column_order(column), 1, table) == Ok::<KeyBytes, Fault>(k)
}

proof fn lemma_keyed(items: Stream, n: nat, column: nat, table: Seq<(Question, Answer)>)
    requires
        n <= items.len(),
        stream_keys(items, n, column_order(column), table) is Ok,
    ensures
        stream_keys(items, n, column_order(column), table)->Ok_0.len() == n,
        forall|i: int|
            0 <= i < n ==> keyed(
                items[i],
                #[trigger] stream_keys(items, n, column_order(column), table)->Ok_0[i],
                column,
                table,
            ),
    decreases n,
{
    let keys = column_order(column);
    if n > 0 {
        let m = (n - 1) as nat;
        lemma_keyed(items, m, column, table);
        let before = stream_keys(items, m, keys, table)->Ok_0;
        let ks = stream_keys(items, n, keys, table)->Ok_0;
        assert(ks == before.push(ks[m as int]));
        assert(keyed(items[m as int], ks[m as int], column, table));
        assert forall|i: int| 0 <= i < n implies keyed(
            items[i],
            #[trigger] ks[i],
            column,
            table,
        ) by {
            if i < m {
                assert(ks[i] == before[i]);
            }
        }
    }
}

/// A sorted side of a merge has the rows of the side, and is sorted where its keys have an
/// order.
proof fn lemma_sorted_side(
    input: PlanTree,
    column: nat,
    schema: Seq<FieldModel>,
    ctx: ContextModel,
    t: Trace,
    out: Stream,
) -> (rows: Seq<Row>)
    requires
        runs(sorted_plan(input, column, schema), ctx, t),
        t.outcome() == Ok::<Stream, Fault>(out),
    ensures
        yields(input, ctx, Ok(items_of(rows))),
        error_free(out),
        same_rows(stream_rows(out), rows),
        (forall|i: int| 0 <= i < rows.len() ==> column < (#[trigger] rows[i]).len()) && (forall|
            i: int,
            j: int,
        |
            0 <= i < rows.len() && 0 <= j < rows.len() ==> one_kind(
                (#[trigger] rows[i])[column as int],
                (#[trigger] rows[j])[column as int],
            )) ==> sorted_on(stream_rows(out), column, ctx.answers),
{
    let table = ctx.answers;
    let keys = column_order(column);
    match t {
        Trace::Unary(u, o) => {
            let items = u.outcome()->Ok_0;
            assert(runs(input, ctx, *u));
            lemma_keyed(items, items.len(), column, table);
            let ks = stream_keys(items, items.len(), keys, table)->Ok_0;
            let rows = stream_rows(items);
            let p = choose|p: Seq<usize>| is_sorted_output(stream_rows(out), items, ks, p);
            assert(is_sorted_output(stream_rows(out), items, ks, p));
            assert(items =~= items_of(rows)) by {
                assert forall|i: int| 0 <= i < items.len() implies #[trigger] items[i]
                    == items_of(rows)[i] by {
                    assert(keyed(items[i], ks[i], column, table));
                }
            }
            lemma_arranged(rows, p, ks);
            if (forall|i: int| 0 <= i < rows.len() ==> column < (#[trigger] rows[i]).len()) && (
            forall|i: int, j: int|
                0 <= i < rows.len() && 0 <= j < rows.len() ==> one_kind(
                    (#[trigger] rows[i])[column as int],
                    (#[trigger] rows[j])[column as int],
                )) {
                assert forall|i: int| 0 <= i < rows.len() implies key_parts(
                    #[trigger] rows[i],
                    keys,
                    1,
                    table,
                ) == Ok::<KeyBytes, Fault>(ks[i]) by {
                    assert(keyed(items[i], ks[i], column, table));
                }
                law_sorting_prepares_a_merge(rows, column, ks, p, table);
            }
            rows
        },
        _ => Seq::empty(),
    }
}

/// The condition of a merge, whichever way round it is written.
proof fn lemma_key_condition(
    on: Option<Term>,
    a: nat,
    b: nat,
    l: Row,
    r: Row,
    left_width: nat,
    table: Seq<(Question, Answer)>,
)
    requires
        equi_columns(on, left_width) == Some((a, b)),
        l.len() == left_width,
        b < r.len(),
        one_kind(l[a as int], r[b as int]),
    ensures
        satisfied(on, l, r, table) == satisfied(
            Some(key_equality(a, b, left_width)),
            l,
            r,
            table,
        ),
{
    let (x, y) = (l[a as int], r[b as int]);
    let row = l + r;
    assert(row[a as int] == x);
    assert(row[(left_width + b) as int] == y);
    reveal_with_fuel(evaluated, 2);
    if !(x is Null) && !(y is Null) {
        law_equality_is_by_key_bytes(x, y, table);
        law_equality_is_by_key_bytes(y, x, table);
    }
}

proof fn lemma_merged_rows(
    on: Option<Term>,
    a: nat,
    b: nat,
    ls: Seq<Row>,
    rs: Seq<Row>,
    x: Seq<Row>,
    y: Seq<Row>,
    left_width: nat,
    right_width: nat,
    out: Seq<Row>,
    table: Seq<(Question, Answer)>,
    row: Row,
)
    requires
        equi_columns(on, left_width) == Some((a, b)),
        can_merge(ls, rs, a, b, left_width, right_width),
        same_rows(x, ls),
        same_rows(y, rs),
        sorted_on(x, a, table),
        sorted_on(y, b, table),
        merged(x, y, 0, 0, a, b, table) == Ok::<Seq<Row>, Fault>(out),
    ensures
        out.contains(row) <==> is_pair(row, ls, rs, on, table),
{
    let key = Some(key_equality(a, b, left_width));
    lemma_same_side(x, ls);
    lemma_same_side(y, rs);
    let ks = keys_at(x, a) + keys_at(y, b);
    assert forall|i: int, j: int| 0 <= i < ks.len() && 0 <= j < ks.len() implies sortable_keys(
        #[trigger] ks[i],
        #[trigger] ks[j],
    ) by {
        lemma_is_key(x, y, ls, rs, a, b, i);
        lemma_is_key(x, y, ls, rs, a, b, j);
    }
    assert forall|i: int| 0 <= i < x.len() implies (#[trigger] x[i]).len() == left_width by {
        let k = lemma_origin(x, ls, i);
        assert(ls[k].len() == left_width);
    }
    assert forall|j: int| 0 <= j < y.len() implies b < (#[trigger] y[j]).len() by {
        let k = lemma_origin(y, rs, j);
        assert(rs[k].len() == right_width);
    }
    law_merge_join_is_the_nested_loop_join(x, y, a, b, left_width, right_width, table);
    law_a_merge_of_sorted_sides_gives_their_pairs(x, y, a, b, table);
    law_rows_of_a_join(x, y, key, JoinType::Inner, left_width, right_width, table, row);
    vstd::seq_lib::to_multiset_contains(out, row);
    if is_pair(row, x, y, key, table) {
        let (i, j) = choose|i: int, j: int|
            0 <= i < x.len() && 0 <= j < y.len() && row == #[trigger] x[i] + #[trigger] y[j]
                && satisfied(key, x[i], y[j], table);
        let (m, n) = (lemma_origin(x, ls, i), lemma_origin(y, rs, j));
        assert(is_key(ls, rs, a, b, ls[m][a as int]) && is_key(ls, rs, a, b, rs[n][b as int]));
        lemma_key_condition(on, a, b, ls[m], rs[n], left_width, table);
        assert(row == ls[m] + rs[n] && satisfied(on, ls[m], rs[n], table));
    }
    if is_pair(row, ls, rs, on, table) {
        let (m, n) = choose|m: int, n: int|
            0 <= m < ls.len() && 0 <= n < rs.len() && row == #[trigger] ls[m] + #[trigger] rs[n]
                && satisfied(on, ls[m], rs[n], table);
        let (i, j) = (lemma_origin(ls, x, m), lemma_origin(rs, y, n));
        assert(is_key(ls, rs, a, b, ls[m][a as int]) && is_key(ls, rs, a, b, rs[n][b as int]));
        lemma_key_condition(on, a, b, ls[m], rs[n], left_width, table);
        assert(row == x[i] + y[j] && satisfied(key, x[i], y[j], table));
    }
}

proof fn lemma_same_side(x: Seq<Row>, y: Seq<Row>)
    requires
        same_rows(x, y),
    ensures
        same_rows(y, x),
{
}

proof fn lemma_origin(x: Seq<Row>, y: Seq<Row>, i: int) -> (k: int)
    requires
        same_rows(x, y),
        0 <= i < x.len(),
    ensures
        0 <= k < y.len(),
        y[k] == x[i],
{
    assert(x.contains(x[i]));
    y.index_of(x[i])
}

proof fn lemma_is_key(
    x: Seq<Row>,
    y: Seq<Row>,
    ls: Seq<Row>,
    rs: Seq<Row>,
    a: nat,
    b: nat,
    i: int,
)
    requires
        same_rows(x, ls),
        same_rows(y, rs),
        0 <= i < (keys_at(x, a) + keys_at(y, b)).len(),
    ensures
        is_key(ls, rs, a, b, (keys_at(x, a) + keys_at(y, b))[i]),
{
    if i < x.len() {
        let k = lemma_origin(x, ls, i);
        assert(ls[k][a as int] == x[i][a as int]);
    } else {
        let k = lemma_origin(y, rs, i - x.len());
        assert(rs[k][b as int] == y[i - x.len()][b as int]);
    }
}

/// What an inner join on one column of each side gives, though it is merged from sorted sides:
/// the pairs of rows that the condition is true of, and no others, whichever way round the
/// condition is written. `ls` and `rs` are the rows that the sides give.
pub proof fn law_inner_join_on_columns_gives_its_pairs(
    from: SqlFrom,
    n: nat,
    ctx: ContextModel,
    left: Relation,
    right: Relation,
    whole: Relation,
    on: Option<Term>,
    a: nat,
    b: nat,
    t: Trace,
    out: Stream,
) -> (sides: (Seq<Row>, Seq<Row>))
    requires
        0 < n <= from.joins@.len(),
        bound_joins(from, (n - 1) as nat, ctx) == Ok::<Relation, Fault>(left),
        bound_factor(from.joins@[n - 1].relation, ctx) == Ok::<Relation, Fault>(right),
        bound_joins(from, n, ctx) == Ok::<Relation, Fault>(whole),
        is_condition(on, from.joins@[n - 1], left.1 + right.1, ctx.answers),
        !says_left(from.joins@[n - 1].kind),
        !says_right(from.joins@[n - 1].kind),
        equi_columns(on, left.1.len()) == Some((a, b)),
        left.1.len() <= usize::MAX,
        right.1.len() <= usize::MAX,
        runs(lowered(whole.0), ctx, t),
        t.outcome() == Ok::<Stream, Fault>(out),
    ensures
        yields(lowered(left.0), ctx, Ok(items_of(sides.0))),
        yields(lowered(right.0), ctx, Ok(items_of(sides.1))),
        whole.1 == left.1 + right.1,
        can_merge(sides.0, sides.1, a, b, left.1.len(), right.1.len()) ==> error_free(out)
            && joins_as_said(
            from.joins@[n - 1].kind,
            on,
            sides.0,
            sides.1,
            left.1.len(),
            right.1.len(),
            stream_rows(out),
            ctx.answers,
        ),
{
    let join = from.joins@[n - 1];
    let (l, r) = (lowered(left.0), lowered(right.0));
    let (sl, sr) = (scope_schema(left.1), scope_schema(right.1));
    lemma_joins_width(from, (n - 1) as nat, ctx);
    lemma_factor_width(join.relation, ctx);
    lemma_shape(left, right, join, on, ctx);
    assert(bound_join(left, join, ctx) == Ok::<Relation, Fault>(whole));
    let plan = join_of(
        sorted_plan(l, a, sl),
        sorted_plan(r, b, sr),
        on,
        JoinType::Inner,
        sl,
        sr,
        JoinStrategy::SortMerge,
    );
    assert(lowered(whole.0) == plan);
    assert(arity(sorted_plan(l, a, sl)) == left.1.len());
    lemma_merge_join(l, r, on, a, b, sl, sr, left.1.len(), right.1.len(), ctx, t, out, join.kind)
}

#[verifier::rlimit(40)]
proof fn lemma_merge_join(
    left: PlanTree,
    right: PlanTree,
    on: Option<Term>,
    a: nat,
    b: nat,
    left_schema: Seq<FieldModel>,
    right_schema: Seq<FieldModel>,
    lw: nat,
    rw: nat,
    ctx: ContextModel,
    t: Trace,
    out: Stream,
    kind: SqlJoinKind,
) -> (sides: (Seq<Row>, Seq<Row>))
    requires
        !says_left(kind),
        !says_right(kind),
        equi_columns(on, lw) == Some((a, b)),
        arity(sorted_plan(left, a, left_schema)) == lw,
        runs(
            join_of(
                sorted_plan(left, a, left_schema),
                sorted_plan(right, b, right_schema),
                on,
                JoinType::Inner,
                left_schema,
                right_schema,
                JoinStrategy::SortMerge,
            ),
            ctx,
            t,
        ),
        t.outcome() == Ok::<Stream, Fault>(out),
    ensures
        yields(left, ctx, Ok(items_of(sides.0))),
        yields(right, ctx, Ok(items_of(sides.1))),
        can_merge(sides.0, sides.1, a, b, lw, rw) ==> error_free(out) && joins_as_said(
            kind,
            on,
            sides.0,
            sides.1,
            lw,
            rw,
            stream_rows(out),
            ctx.answers,
        ),
{
    let table = ctx.answers;
    match t {
        Trace::Binary(l, r, o) => {
            assert(drained(l.outcome()) is Ok && drained(r.outcome()) is Ok);
            lemma_drains(l.outcome());
            lemma_drains(r.outcome());
            let (x, y) = (drained(l.outcome())->Ok_0, drained(r.outcome())->Ok_0);
            assert(o == merge_outcome(x, y, a, b, table));
            let ls = lemma_sorted_side(left, a, left_schema, ctx, *l, items_of(x));
            let rs = lemma_sorted_side(right, b, right_schema, ctx, *r, items_of(y));
            assert(stream_rows(items_of(x)) =~= x);
            assert(stream_rows(items_of(y)) =~= y);
            if can_merge(ls, rs, a, b, lw, rw) {
                lemma_sorted_keys(ls, rs, a, b, lw, rw);
                let rows = merged(x, y, 0, 0, a, b, table)->Ok_0;
                assert(out == items_of(rows));
                assert(stream_rows(out) =~= rows);
                assert forall|row: Row|
                    #[trigger] stream_rows(out).contains(row) <==> is_pair(
                        row,
                        ls,
                        rs,
                        on,
                        table,
                    ) by {
                    lemma_merged_rows(on, a, b, ls, rs, x, y, lw, rw, rows, table, row);
                }
            }
            (ls, rs)
        },
        _ => (Seq::empty(), Seq::empty()),
    }
}

proof fn lemma_sorted_keys(
    ls: Seq<Row>,
    rs: Seq<Row>,
    a: nat,
    b: nat,
    left_width: nat,
    right_width: nat,
)
    requires
        can_merge(ls, rs, a, b, left_width, right_width),
    ensures
        forall|i: int| 0 <= i < ls.len() ==> a < (#[trigger] ls[i]).len(),
        forall|j: int| 0 <= j < rs.len() ==> b < (#[trigger] rs[j]).len(),
        forall|i: int, j: int|
            0 <= i < ls.len() && 0 <= j < ls.len() ==> one_kind(
                (#[trigger] ls[i])[a as int],
                (#[trigger] ls[j])[a as int],
            ),
        forall|i: int, j: int|
            0 <= i < rs.len() && 0 <= j < rs.len() ==> one_kind(
                (#[trigger] rs[i])[b as int],
                (#[trigger] rs[j])[b as int],
            ),
{
    assert forall|i: int, j: int| 0 <= i < ls.len() && 0 <= j < ls.len() implies one_kind(
        (#[trigger] ls[i])[a as int],
        (#[trigger] ls[j])[a as int],
    ) by {
        assert(is_key(ls, rs, a, b, ls[i][a as int]) && is_key(ls, rs, a, b, ls[j][a as int]));
    }
    assert forall|i: int, j: int| 0 <= i < rs.len() && 0 <= j < rs.len() implies one_kind(
        (#[trigger] rs[i])[b as int],
        (#[trigger] rs[j])[b as int],
    ) by {
        assert(is_key(ls, rs, a, b, rs[i][b as int]) && is_key(ls, rs, a, b, rs[j][b as int]));
    }
}

// --- sources ---

/// A table in a `FROM` clause gives the rows of the live table of its name, and its columns are
/// the table's, known by the alias where there is one and else by the table's own name.
pub proof fn law_tables_are_known_by_name_or_alias(
    factor: SqlFactor,
    ctx: ContextModel,
    r: Relation,
    i: int,
)
    requires
        bound_factor(factor, ctx) == Ok::<Relation, Fault>(r),
        0 <= i < r.1.len(),
    ensures
        match factor {
            SqlFactor::Table { name, alias } => {
                &&& name.parts@.len() > 0
                &&& name.parts@.last() is Some
                &&& r.1[i].relation == match alias {
                    Some(a) => Some(a@),
                    None => Some(name.parts@.last()->0@),
                }
                &&& match r.0 {
                    LogicalTree::Scan(t) => {
                        &&& name.parts@.len() == 3
                        &&& r.1.len() == t.schema.len()
                        &&& r.1[i].field == t.schema[i]
                        &&& resolved_table(
                            ctx.catalog,
                            name.parts@[0]->0@,
                            name.parts@[1]->0@,
                            name.parts@[2]->0@,
                        ) == Ok::<TableModel, CatalogFault>(t)
                    },
                    LogicalTree::SystemScan(s) => r.1.len() == relation_schema(s).len()
                        && r.1[i].field == relation_schema(s)[i],
                    _ => false,
                }
            },
            SqlFactor::Other(_) => false,
        },
{
    if let SqlFactor::Table { name, alias } = factor {
        let parts = idents_of(name)->0;
        assert(parts.len() == name.parts@.len());
        assert forall|k: int| 0 <= k < parts.len() implies parts[k] == (
        #[trigger] name.parts@[k])->0@ by {}
        assert(name.parts@[parts.len() - 1] is Some);
    }
}

/// Without a `FROM` clause there is one row, without columns.
pub proof fn law_no_from_gives_one_row(items: Seq<SqlFrom>, ctx: ContextModel, o: Outcome)
    requires
        items.len() == 0,
    ensures
        bound_from(items, ctx) is Ok,
        bound_from(items, ctx)->Ok_0.1.len() == 0,
        yields(lowered(bound_from(items, ctx)->Ok_0.0), ctx, o) <==> o == Ok::<Stream, Fault>(
            seq![Ok(Seq::<Datum>::empty())],
        ),
{
    let rows = seq![Seq::<Datum>::empty()];
    law_values_yield_their_rows(rows, ctx, o);
    assert(items_of(rows) =~= seq![Ok::<Row, Fault>(Seq::<Datum>::empty())]);
}

proof fn lemma_items_width(items: Seq<SqlFrom>, n: nat, ctx: ContextModel)
    requires
        0 < n <= items.len(),
        bound_items(items, n, ctx) is Ok,
        bound_items(items, n, ctx)->Ok_0.1.len() <= usize::MAX,
    ensures
        arity(lowered(bound_items(items, n, ctx)->Ok_0.0)) == bound_items(
            items,
            n,
            ctx,
        )->Ok_0.1.len(),
    decreases n,
{
    if n == 1 {
        lemma_joins_width(items[0], items[0].joins@.len(), ctx);
    } else {
        lemma_items_width(items, (n - 1) as nat, ctx);
        lemma_joins_width(items[n - 1], items[n - 1].joins@.len(), ctx);
        reveal_with_fuel(lowered, 2);
        reveal_with_fuel(arity, 3);
    }
}

/// Items of a `FROM` clause with commas between them pair every row with every row: the rows of
/// the items so far, each with each row of the next, and no others. `sides` are the rows that the
/// items so far and the next give.
pub proof fn law_commas_pair_all_rows(
    items: Seq<SqlFrom>,
    n: nat,
    ctx: ContextModel,
    left: Relation,
    right: Relation,
    whole: Relation,
    t: Trace,
    out: Stream,
) -> (sides: (Seq<Row>, Seq<Row>))
    requires
        1 < n <= items.len(),
        bound_items(items, (n - 1) as nat, ctx) == Ok::<Relation, Fault>(left),
        bound_joins(items[n - 1], items[n - 1].joins@.len(), ctx) == Ok::<Relation, Fault>(right),
        bound_items(items, n, ctx) == Ok::<Relation, Fault>(whole),
        left.1.len() <= usize::MAX,
        right.1.len() <= usize::MAX,
        runs(lowered(whole.0), ctx, t),
        t.outcome() == Ok::<Stream, Fault>(out),
    ensures
        yields(lowered(left.0), ctx, Ok(items_of(sides.0))),
        yields(lowered(right.0), ctx, Ok(items_of(sides.1))),
        error_free(out),
        whole.1 == left.1 + right.1,
        out.len() == sides.0.len() * sides.1.len(),
        forall|row: Row|
            #[trigger] stream_rows(out).contains(row) <==> is_pair(
                row,
                sides.0,
                sides.1,
                None,
                ctx.answers,
            ),
{
    let (l, r) = (lowered(left.0), lowered(right.0));
    let (ls, rs) = (scope_schema(left.1), scope_schema(right.1));
    assert(whole == joined(left, right, JoinType::Inner, None));
    lemma_lowered_join(left, right, JoinType::Inner, None);
    let sides = lemma_block_join(l, r, None, JoinType::Inner, ls, rs, ctx, t, out);
    law_cross_join_size(sides.0, sides.1, arity(l), arity(r), ctx.answers);
    stream_rows(out).to_multiset_ensures();
    assert forall|row: Row|
        #[trigger] stream_rows(out).contains(row) <==> is_pair(
            row,
            sides.0,
            sides.1,
            None,
            ctx.answers,
        ) by {
        law_rows_of_a_join(
            sides.0,
            sides.1,
            None,
            JoinType::Inner,
            arity(l),
            arity(r),
            ctx.answers,
            row,
        );
        vstd::seq_lib::to_multiset_contains(stream_rows(out), row);
    }
    sides
}

/// The columns of an equi-join: the condition compares, for equality, one column of the left
/// side with one of the right, in either order, and nothing else.
pub proof fn law_equi_columns_are_the_compared_ones(on: Option<Term>, width: nat, a: nat, b: nat)
    ensures
        equi_columns(on, width) == Some((a, b)) <==> a < width && (on == Some(
            equality(a, width + b),
        ) || on == Some(equality(width + b, a))),
{
    if equi_columns(on, width) == Some((a, b)) {
        let t = on->0;
        assert(t is Binary);
    }
}

/// `column i = column j`.
pub open spec fn equality(i: nat, j: nat) -> Term {
    Term::Binary(
        BinaryOperator::Eq,
        Box::new(Term::Column(i)),
        Box::new(Term::Column(j)),
    )
}

// --- order ---

/// The sort keys of an `ORDER BY` are its terms, one by one: each sorts by the expression of
/// its own term, descending where that term says so and ascending otherwise, with nulls where
/// that term says, and otherwise behind the values of an ascending key and before those of a
/// descending one.
pub proof fn law_sort_keys_are_the_terms(
    terms: Seq<SqlOrderTerm>,
    scope: Visible,
    table: Seq<(Question, Answer)>,
    keys: Seq<SortTerm>,
)
    requires
        bound_sort_keys(terms, terms.len(), scope, table) == Ok::<Seq<SortTerm>, Fault>(keys),
    ensures
        keys.len() == terms.len(),
        forall|i: int|
            0 <= i < keys.len() ==> {
                &&& bound(terms[i].expr, scope, table) == Ok::<Term, Fault>(
                    (#[trigger] keys[i]).expr,
                )
                &&& keys[i].ascending <==> terms[i].ascending != Some(false)
                &&& terms[i].nulls_first is Some ==> keys[i].nulls_first
                    == terms[i].nulls_first->0
                &&& terms[i].nulls_first is None ==> (keys[i].nulls_first <==> terms[i].ascending
                    == Some(false))
            },
{
    lemma_sort_keys(terms, terms.len(), scope, table);
}

proof fn lemma_sort_keys(
    terms: Seq<SqlOrderTerm>,
    n: nat,
    scope: Visible,
    table: Seq<(Question, Answer)>,
)
    requires
        n <= terms.len(),
        bound_sort_keys(terms, n, scope, table) is Ok,
    ensures
        ({
            let keys = bound_sort_keys(terms, n, scope, table)->Ok_0;
            &&& keys.len() == n
            &&& forall|i: int|
                0 <= i < n ==> {
                    &&& bound(terms[i].expr, scope, table) == Ok::<Term, Fault>(
                        (#[trigger] keys[i]).expr,
                    )
                    &&& keys[i].ascending <==> terms[i].ascending != Some(false)
                    &&& terms[i].nulls_first is Some ==> keys[i].nulls_first
                        == terms[i].nulls_first->0
                    &&& terms[i].nulls_first is None ==> (keys[i].nulls_first
                        <==> terms[i].ascending == Some(false))
                }
        }),
    decreases n,
{
    if n > 0 {
        lemma_sort_keys(terms, (n - 1) as nat, scope, table);
    }
}

} // verus!
