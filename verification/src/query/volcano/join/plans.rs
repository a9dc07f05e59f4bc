//! Join plans agree: from the same inputs, whichever strategy a plan names, the same rows come
//! out, in some order.

use vstd::prelude::*;

use super::agree::{
    hashable, key_equality, law_hash_join_is_the_nested_loop_join,
    law_merge_join_is_the_nested_loop_join, scalar, sortable,
};
use super::keys::{compared_by_value, equi_columns, need_values};
use super::merge::{
    keys_at, law_a_merge_of_sorted_sides_gives_their_pairs, merged, sorted_on,
};
use super::model::JoinType;
use super::nested_loop::{law_nested_loop_is_the_join, loop_joined};
use crate::query::context::ContextModel;
use crate::query::error::Fault;
use crate::query::expression::Term;
use crate::query::physical_plan::{JoinStrategy, PlanTree};
use crate::query::volcano::rows::{stream_rows, Row};
use crate::query::volcano::run::{
    arity, collected, drained, items_of, materialized, runs, Stream, Trace,
};
use crate::storage::types::{Datum, FieldModel};

verus! {

/// A join of two plans.
pub open spec fn join_of(
    left: PlanTree,
    right: PlanTree,
    on: Option<Term>,
    join_type: JoinType,
    left_schema: Seq<FieldModel>,
    right_schema: Seq<FieldModel>,
    strategy: JoinStrategy,
) -> PlanTree {
    PlanTree::Join {
        left: Box::new(left),
        right: Box::new(right),
        on,
        join_type,
        left_schema,
        right_schema,
        strategy,
    }
}

/// Whether a datum is a null or a scalar.
pub open spec fn null_or_scalar(d: Datum) -> bool {
    d is Null || scalar(d)
}

/// Rows that fit in memory are the rows of the stream.
proof fn lemma_materialized(items: Stream, n: nat, budget: nat)
    requires
        materialized(items, n, budget) is Ok,
    ensures
        collected(items, n) == materialized(items, n, budget),
    decreases n,
{
    if n > 0 && n <= items.len() {
        lemma_materialized(items, (n - 1) as nat, budget);
    }
}

/// The rows of a stream that drains are those it drains to.
proof fn lemma_drained(items: Stream, n: nat)
    requires
        n <= items.len(),
        collected(items, n) is Ok,
    ensures
        collected(items, n)->Ok_0 == stream_rows(items).take(n as int),
    decreases n,
{
    if n > 0 {
        lemma_drained(items, (n - 1) as nat);
        assert(stream_rows(items).take(n as int) =~= stream_rows(items).take(n - 1).push(
            stream_rows(items)[n - 1],
        ));
    } else {
        assert(stream_rows(items).take(0) =~= Seq::<Row>::empty());
    }
}

/// From the same inputs, the nested loop and the block nested loop give the same rows, for
/// every join type and any predicate or none.
pub proof fn law_block_plan_agrees_with_nested_loop(
    left: PlanTree,
    right: PlanTree,
    on: Option<Term>,
    join_type: JoinType,
    left_schema: Seq<FieldModel>,
    right_schema: Seq<FieldModel>,
    ctx: ContextModel,
    l: Trace,
    r: Trace,
    a: Stream,
    b: Stream,
)
    requires
        runs(
            join_of(
                left,
                right,
                on,
                join_type,
                left_schema,
                right_schema,
                JoinStrategy::NestedLoop,
            ),
            ctx,
            Trace::Binary(Box::new(l), Box::new(r), Ok(a)),
        ),
        runs(
            join_of(
                left,
                right,
                on,
                join_type,
                left_schema,
                right_schema,
                JoinStrategy::BlockNestedLoop,
            ),
            ctx,
            Trace::Binary(Box::new(r), Box::new(l), Ok(b)),
        ),
    ensures
        stream_rows(a).to_multiset() == stream_rows(b).to_multiset(),
{
    let (lw, rw) = (arity(left), arity(right));
    let ls = drained(l.outcome())->Ok_0;
    let rs = drained(r.outcome())->Ok_0;
    if let Ok(items) = r.outcome() {
        lemma_materialized(
            items,
            items.len(),
            crate::query::volcano::run::INNER_WORKSPACE_BUDGET as nat,
        );
    }
    law_nested_loop_is_the_join(ls, rs, on, join_type, lw, rw, ctx.answers);
    let rows = loop_joined(ls, rs, on, join_type, lw, rw, ctx.answers)->Ok_0;
    assert(a == items_of(rows));
    assert(stream_rows(items_of(rows)) =~= rows);
}

/// From the same inputs, the nested loop and the hash join on `left column = right column`
/// give the same rows, for every join type, where the keys are nulls and scalars of any types.
pub proof fn law_hash_plan_agrees_with_nested_loop(
    left: PlanTree,
    right: PlanTree,
    left_key: nat,
    right_key: nat,
    join_type: JoinType,
    left_schema: Seq<FieldModel>,
    right_schema: Seq<FieldModel>,
    ctx: ContextModel,
    l: Trace,
    r: Trace,
    ls: Stream,
    rs: Stream,
    a: Stream,
    b: Stream,
)
    requires
        ({
            let on = Some(key_equality(left_key, right_key, arity(left)));
            &&& runs(
                join_of(
                    left,
                    right,
                    on,
                    join_type,
                    left_schema,
                    right_schema,
                    JoinStrategy::NestedLoop,
                ),
                ctx,
                Trace::Binary(Box::new(l), Box::new(r), Ok(a)),
            )
            &&& runs(
                join_of(
                    left,
                    right,
                    on,
                    join_type,
                    left_schema,
                    right_schema,
                    JoinStrategy::GraceHash,
                ),
                ctx,
                Trace::Binary(Box::new(l), Box::new(r), Ok(b)),
            )
        }),
        l.outcome() == Ok::<Stream, Fault>(ls),
        r.outcome() == Ok::<Stream, Fault>(rs),
        left_key < arity(left),
        arity(left) <= usize::MAX,
        arity(right) <= usize::MAX,
        left_key <= usize::MAX,
        right_key <= usize::MAX,
        forall|i: int| 0 <= i < ls.len() ==> (#[trigger] stream_rows(ls)[i]).len() == arity(left),
        forall|j: int| 0 <= j < rs.len() ==> right_key < (#[trigger] stream_rows(rs)[j]).len(),
        forall|i: int|
            0 <= i < ls.len() ==> null_or_scalar((#[trigger] stream_rows(ls)[i])[left_key as int]),
        forall|j: int|
            0 <= j < rs.len() ==> null_or_scalar((#[trigger] stream_rows(rs)[j])[right_key as int]),
    ensures
        stream_rows(a).to_multiset() == stream_rows(b).to_multiset(),
{
    let (lw, rw) = (arity(left), arity(right));
    let on = Some(key_equality(left_key, right_key, lw));
    let (x, y) = (stream_rows(ls), stream_rows(rs));
    lemma_drained(ls, ls.len());
    lemma_drained(rs, rs.len());
    assert(x.take(x.len() as int) =~= x);
    assert(y.take(y.len() as int) =~= y);
    assert(equi_columns(on, lw) == Some((left_key, right_key)));
    if !need_values(x, y, left_key, right_key) {
        assert forall|i: int, j: int| 0 <= i < x.len() && 0 <= j < y.len() implies hashable(
            (#[trigger] x[i])[left_key as int],
            (#[trigger] y[j])[right_key as int],
        ) by {
            assert(!compared_by_value(x[i][left_key as int], y[j][right_key as int]));
        }
        law_hash_join_is_the_nested_loop_join(
            x,
            y,
            left_key,
            right_key,
            join_type,
            lw,
            rw,
            ctx.answers,
        );
    }
    law_nested_loop_is_the_join(x, y, on, join_type, lw, rw, ctx.answers);
    let rows = loop_joined(x, y, on, join_type, lw, rw, ctx.answers)->Ok_0;
    assert(a == items_of(rows));
    assert(stream_rows(items_of(rows)) =~= rows);
}

/// From the same inputs, the nested loop and the merge join on `left column = right column`
/// give the same rows, where both inputs are sorted on their keys and any two keys can be
/// ordered.
pub proof fn law_merge_plan_agrees_with_nested_loop(
    left: PlanTree,
    right: PlanTree,
    left_key: nat,
    right_key: nat,
    left_schema: Seq<FieldModel>,
    right_schema: Seq<FieldModel>,
    ctx: ContextModel,
    l: Trace,
    r: Trace,
    ls: Stream,
    rs: Stream,
    a: Stream,
    b: Stream,
)
    requires
        ({
            let on = Some(key_equality(left_key, right_key, arity(left)));
            &&& runs(
                join_of(
                    left,
                    right,
                    on,
                    JoinType::Inner,
                    left_schema,
                    right_schema,
                    JoinStrategy::NestedLoop,
                ),
                ctx,
                Trace::Binary(Box::new(l), Box::new(r), Ok(a)),
            )
            &&& runs(
                join_of(
                    left,
                    right,
                    on,
                    JoinType::Inner,
                    left_schema,
                    right_schema,
                    JoinStrategy::SortMerge,
                ),
                ctx,
                Trace::Binary(Box::new(l), Box::new(r), Ok(b)),
            )
        }),
        l.outcome() == Ok::<Stream, Fault>(ls),
        r.outcome() == Ok::<Stream, Fault>(rs),
        left_key < arity(left),
        forall|i: int| 0 <= i < ls.len() ==> (#[trigger] stream_rows(ls)[i]).len() == arity(left),
        forall|j: int| 0 <= j < rs.len() ==> right_key < (#[trigger] stream_rows(rs)[j]).len(),
        ({
            let ks = keys_at(stream_rows(ls), left_key) + keys_at(stream_rows(rs), right_key);
            forall|i: int, j: int|
                0 <= i < ks.len() && 0 <= j < ks.len() ==> sortable(
                    #[trigger] ks[i],
                    #[trigger] ks[j],
                )
        }),
        sorted_on(stream_rows(ls), left_key, ctx.answers),
        sorted_on(stream_rows(rs), right_key, ctx.answers),
    ensures
        stream_rows(a).to_multiset() == stream_rows(b).to_multiset(),
{
    let (lw, rw) = (arity(left), arity(right));
    let on = Some(key_equality(left_key, right_key, lw));
    let (x, y) = (stream_rows(ls), stream_rows(rs));
    lemma_drained(ls, ls.len());
    lemma_drained(rs, rs.len());
    assert(x.take(x.len() as int) =~= x);
    assert(y.take(y.len() as int) =~= y);
    assert(equi_columns(on, lw) == Some((left_key, right_key)));
    law_merge_join_is_the_nested_loop_join(x, y, left_key, right_key, lw, rw, ctx.answers);
    law_a_merge_of_sorted_sides_gives_their_pairs(x, y, left_key, right_key, ctx.answers);
    let merge_rows = merged(x, y, 0, 0, left_key, right_key, ctx.answers)->Ok_0;
    assert(b == items_of(merge_rows));
    assert(stream_rows(items_of(merge_rows)) =~= merge_rows);
    law_nested_loop_is_the_join(x, y, on, JoinType::Inner, lw, rw, ctx.answers);
    let rows = loop_joined(x, y, on, JoinType::Inner, lw, rw, ctx.answers)->Ok_0;
    assert(a == items_of(rows));
    assert(stream_rows(items_of(rows)) =~= rows);
}

} // verus!
