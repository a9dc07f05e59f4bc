//! Runs physical plans: reads build a stream of rows, sinks write and count.
//!
//! SQL leaves the order of a join's rows open, so what a plan yields is stated as a relation: a
//! [`Trace`] holds the stream of every operator of the plan, and [`runs`] says which traces a
//! plan may leave.

use vstd::prelude::*;

use super::join::block::{block_nested_loop_join, blocks_fault};
use super::join::bucket::{
    checked_rows, input_fault, spilled, spilled_size, stream_has_column,
};
use super::join::grace::{grace_hash_join, HashJoinParams};
use super::join::keys::{
    equi_columns, equi_fault, equi_keys, keys_need_values, need_values,
};
use super::join::merge::{
    adjacent_sorted, all_have_column, have_column, is_sorted_by, merged, sort_merge_join,
};
use super::join::model::{joined, JoinType};
use super::join::nested_loop::{
    all_decided, loop_joined, matching, nested_loop_join, OUTER_BLOCK_TUPLES,
};
use super::rows::{stream_of, stream_rows, Row, RowResult};
use super::scalar::{
    filter, filtered, limit, limited, offset, project, projected, skipped,
};
use super::sort::{sort, sort_done, sort_terms, stream_keys, SortTerm};
use crate::catalog::system::relation_rows;
use crate::query::config::JoinConfig;
use crate::query::context::{ContextModel, QueryContext};
use crate::query::error::{Fault, QueryError};
use crate::query::expression::{Expr, opt_term, Term};
use crate::query::host::{Answer, Answers, Question};
use crate::query::physical_plan::{JoinStrategy, PlanNode, PlanTree};
use crate::storage::types::{clone_rows, rows_of, Tuple};

verus! {

/// Most bytes that the inner side of a block nested-loop join may take.
pub const INNER_WORKSPACE_BUDGET: usize = 268_435_456;

/// The items of a stream.
pub type Stream = Seq<Result<Row, Fault>>;

/// What building an operator comes to: a stream, or the error met before there is one.
pub type Outcome = Result<Stream, Fault>;

/// A stream of rows alone.
pub open spec fn items_of(rows: Seq<Row>) -> Stream {
    Seq::new(rows.len(), |i: int| Ok(rows[i]))
}

/// Whether a stream is made of rows alone.
pub open spec fn error_free(items: Stream) -> bool {
    forall|i: int| 0 <= i < items.len() ==> (#[trigger] items[i]) is Ok
}

/// The rows of a stream up to its end, or its first error.
pub open spec fn collected(items: Stream, n: nat) -> Result<Seq<Row>, Fault>
    decreases n,
{
    if n == 0 || n > items.len() {
        Ok(Seq::empty())
    } else {
        match collected(items, (n - 1) as nat) {
            Err(f) => Err(f),
            Ok(rows) => match items[n - 1] {
                Err(f) => Err(f),
                Ok(row) => Ok(rows.push(row)),
            },
        }
    }
}

/// All rows of an outcome, or the first error.
pub open spec fn drained(o: Outcome) -> Result<Seq<Row>, Fault> {
    match o {
        Err(f) => Err(f),
        Ok(items) => collected(items, items.len()),
    }
}

/// The bytes of some rows.
pub open spec fn rows_size(rows: Seq<Row>) -> nat
    decreases rows.len(),
{
    if rows.len() == 0 {
        0
    } else {
        rows_size(rows.drop_last()) + spilled(rows.last(), rows.last().len()).len()
    }
}

/// The first `n` rows of a stream held in memory: the first error, or an internal error where
/// they outgrow the budget.
pub open spec fn materialized(items: Stream, n: nat, budget: nat) -> Result<Seq<Row>, Fault>
    decreases n,
{
    if n == 0 || n > items.len() {
        Ok(Seq::empty())
    } else {
        match materialized(items, (n - 1) as nat, budget) {
            Err(f) => Err(f),
            Ok(rows) => match items[n - 1] {
                Err(f) => Err(f),
                Ok(row) => if rows_size(rows.push(row)) > budget {
                    Err(Fault::Internal("join workspace: full"@))
                } else {
                    Ok(rows.push(row))
                },
            },
        }
    }
}

/// All rows of an outcome held in memory.
pub open spec fn inner_rows(o: Outcome) -> Result<Seq<Row>, Fault> {
    match o {
        Err(f) => Err(f),
        Ok(items) => materialized(items, items.len(), INNER_WORKSPACE_BUDGET as nat),
    }
}

/// What a hash join takes of an outcome: its rows, or the first error in it or in a key. A row
/// without the key column is an internal error.
pub open spec fn hash_input(o: Outcome, column: nat) -> Result<Seq<Row>, Fault> {
    match o {
        Err(f) => Err(f),
        Ok(items) => if !stream_has_column(items, column) {
            Err(Fault::Internal("join key out of bounds"@))
        } else {
            match input_fault(items, items.len(), column) {
                Some(f) => Err(f),
                None => Ok(stream_rows(items)),
            }
        },
    }
}

/// How many columns a plan's rows have, as far as that can be counted.
pub open spec fn arity(node: PlanTree) -> nat
    decreases node,
{
    match node {
        PlanTree::SeqScan(t) => t.schema.len(),
        PlanTree::SystemScan(r) => crate::catalog::system::relation_schema(r).len(),
        PlanTree::Filter(i, _) => arity(*i),
        PlanTree::Limit(i, _) => arity(*i),
        PlanTree::Offset(i, _) => arity(*i),
        PlanTree::Sort(i, _, _) => arity(*i),
        PlanTree::Project(_, es) => es.len(),
        PlanTree::Values(rows) => if rows.len() == 0 {
            0
        } else {
            rows[0].len()
        },
        PlanTree::Join { left, right, .. } => if arity(*left) + arity(*right) > usize::MAX {
            usize::MAX as nat
        } else {
            arity(*left) + arity(*right)
        },
        _ => 0,
    }
}

/// The streams of a plan's operators, from the root down. A join that fails before it has both
/// inputs shows those it had.
pub enum Trace {
    Source(Outcome),
    Unary(Box<Trace>, Outcome),
    Binary(Box<Trace>, Box<Trace>, Outcome),
}

impl Trace {
    /// What the root comes to.
    pub open spec fn outcome(self) -> Outcome {
        match self {
            Trace::Source(o) => o,
            Trace::Unary(_, o) => o,
            Trace::Binary(_, _, o) => o,
        }
    }
}

/// What a sort comes to.
pub open spec fn sort_outcome(
    input: Outcome,
    keys: Seq<SortTerm>,
    table: Seq<(Question, Answer)>,
    o: Outcome,
) -> bool {
    match input {
        Err(f) => o == Err::<Stream, Fault>(f),
        Ok(items) => match stream_keys(items, items.len(), keys, table) {
            Err(f) => o == Err::<Stream, Fault>(f),
            Ok(_) => o is Ok && error_free(o->Ok_0) && sort_done(
                stream_rows(o->Ok_0),
                items,
                keys,
                table,
            ),
        },
    }
}

/// What a nested-loop join of two sets of rows comes to.
pub open spec fn loop_outcome(
    left: Seq<Row>,
    right: Seq<Row>,
    on: Option<Term>,
    jt: JoinType,
    lw: nat,
    rw: nat,
    table: Seq<(Question, Answer)>,
) -> Outcome {
    match loop_joined(left, right, on, jt, lw, rw, table) {
        Ok(rows) => Ok(items_of(rows)),
        Err(f) => Err(f),
    }
}

/// The rows of the first `n` items before the first error among them.
pub open spec fn leading_rows(items: Stream, n: nat) -> Seq<Row>
    decreases n,
{
    if n == 0 || collected(items, n) is Ok {
        collected(items, n)->Ok_0
    } else {
        leading_rows(items, (n - 1) as nat)
    }
}

/// How many rows the full blocks of an outer input hold.
pub open spec fn full_blocks(rows: Seq<Row>) -> int {
    rows.len() - rows.len() % (OUTER_BLOCK_TUPLES as nat)
}

/// What a block nested-loop join comes to once the inner rows are there: the first fault of the
/// predicate, or else the rows of the join. An error in the outer input is the outcome, unless
/// the predicate fails on a block that was full before it.
pub open spec fn block_outcome(
    outer: Outcome,
    right: Seq<Row>,
    on: Option<Term>,
    jt: JoinType,
    lw: nat,
    rw: nat,
    table: Seq<(Question, Answer)>,
    o: Outcome,
) -> bool {
    match outer {
        Err(f) => o == Err::<Stream, Fault>(f),
        Ok(items) => match collected(items, items.len()) {
            Err(f) => {
                let rows = leading_rows(items, items.len());
                o == Err::<Stream, Fault>(
                    match blocks_fault(rows.take(full_blocks(rows)), right, 0, on, table) {
                        Some(g) => g,
                        None => f,
                    },
                )
            },
            Ok(left) => match blocks_fault(left, right, 0, on, table) {
                Some(f) => o == Err::<Stream, Fault>(f),
                None => match o {
                    Ok(out) => error_free(out) && all_decided(left, right, on, table)
                        && stream_rows(out).to_multiset() == joined(
                        left,
                        right,
                        matching(on, table),
                        jt,
                        lw,
                        rw,
                    ),
                    Err(_) => false,
                },
            },
        },
    }
}

/// What a merge of two sets of rows comes to: an internal error where a row lacks its key
/// column or a side is not sorted, and otherwise what the pass over both sides comes to.
pub open spec fn merge_outcome(
    left: Seq<Row>,
    right: Seq<Row>,
    lk: nat,
    rk: nat,
    table: Seq<(Question, Answer)>,
) -> Outcome {
    if !have_column(left, lk) || !have_column(right, rk) || !adjacent_sorted(left, lk, table)
        || !adjacent_sorted(right, rk, table) {
        Err(Fault::Internal("sort-merge join needs inputs sorted on their keys"@))
    } else {
        match merged(left, right, 0, 0, lk, rk, table) {
            Ok(rows) => Ok(items_of(rows)),
            Err(f) => Err(f),
        }
    }
}

/// The parameters of a hash join.
pub open spec fn hash_params(
    jt: JoinType,
    lk: nat,
    rk: nat,
    lw: nat,
    rw: nat,
    config: JoinConfig,
) -> HashJoinParams {
    HashJoinParams {
        join_type: jt,
        left_key: lk as usize,
        right_key: rk as usize,
        left_width: lw as usize,
        right_width: rw as usize,
        config,
    }
}

/// Whether a plan may leave a trace.
pub open spec fn runs(node: PlanTree, ctx: ContextModel, t: Trace) -> bool
    decreases node,
{
    let table = ctx.answers;
    match node {
        PlanTree::SeqScan(tab) => t == Trace::Source(Ok(items_of(ctx.rows(tab)))),
        PlanTree::SystemScan(r) => t == Trace::Source(Ok(items_of(relation_rows(r, ctx.catalog)))),
        PlanTree::Values(rows) => t == Trace::Source(Ok(items_of(rows))),
        PlanTree::Filter(i, p) => match t {
            Trace::Unary(u, o) => runs(*i, ctx, *u) && o == match u.outcome() {
                Err(f) => Err::<Stream, Fault>(f),
                Ok(s) => Ok(filtered(s, p, table)),
            },
            _ => false,
        },
        PlanTree::Project(i, es) => match t {
            Trace::Unary(u, o) => runs(*i, ctx, *u) && o == match u.outcome() {
                Err(f) => Err::<Stream, Fault>(f),
                Ok(s) => Ok(projected(s, es, table)),
            },
            _ => false,
        },
        PlanTree::Limit(i, n) => match t {
            Trace::Unary(u, o) => runs(*i, ctx, *u) && o == match u.outcome() {
                Err(f) => Err::<Stream, Fault>(f),
                Ok(s) => Ok(limited(s, n as nat)),
            },
            _ => false,
        },
        PlanTree::Offset(i, n) => match t {
            Trace::Unary(u, o) => runs(*i, ctx, *u) && o == match u.outcome() {
                Err(f) => Err::<Stream, Fault>(f),
                Ok(s) => Ok(skipped(s, n as nat)),
            },
            _ => false,
        },
        PlanTree::Sort(i, keys, _) => match t {
            Trace::Unary(u, o) => runs(*i, ctx, *u) && sort_outcome(u.outcome(), keys, table, o),
            _ => false,
        },
        PlanTree::Join { left, right, on, join_type, strategy, .. } => {
            let lw = arity(*left);
            let rw = arity(*right);
            match strategy {
                JoinStrategy::NestedLoop => match t {
                    Trace::Unary(l, o) => runs(*left, ctx, *l) && drained(l.outcome()) is Err && o
                        == Err::<Stream, Fault>(drained(l.outcome())->Err_0),
                    Trace::Binary(l, r, o) => {
                        &&& runs(*left, ctx, *l)
                        &&& runs(*right, ctx, *r)
                        &&& drained(l.outcome()) is Ok
                        &&& o == match drained(r.outcome()) {
                            Err(f) => Err::<Stream, Fault>(f),
                            Ok(rs) => loop_outcome(
                                drained(l.outcome())->Ok_0,
                                rs,
                                on,
                                join_type,
                                lw,
                                rw,
                                table,
                            ),
                        }
                    },
                    _ => false,
                },
                JoinStrategy::BlockNestedLoop => match t {
                    Trace::Unary(r, o) => runs(*right, ctx, *r) && inner_rows(r.outcome()) is Err
                        && o == Err::<Stream, Fault>(inner_rows(r.outcome())->Err_0),
                    Trace::Binary(r, l, o) => {
                        &&& runs(*right, ctx, *r)
                        &&& runs(*left, ctx, *l)
                        &&& inner_rows(r.outcome()) is Ok
                        &&& block_outcome(
                            l.outcome(),
                            inner_rows(r.outcome())->Ok_0,
                            on,
                            join_type,
                            lw,
                            rw,
                            table,
                            o,
                        )
                    },
                    _ => false,
                },
                JoinStrategy::SortMerge => match t {
                    Trace::Source(o) => if join_type != JoinType::Inner {
                        o == Err::<Stream, Fault>(
                            Fault::Internal("sort-merge join is inner-only"@),
                        )
                    } else {
                        equi_columns(on, lw) is None && o == Err::<Stream, Fault>(equi_fault(on))
                    },
                    Trace::Unary(l, o) => {
                        &&& join_type == JoinType::Inner && equi_columns(on, lw) is Some
                        &&& runs(*left, ctx, *l)
                        &&& drained(l.outcome()) is Err
                        &&& o == Err::<Stream, Fault>(drained(l.outcome())->Err_0)
                    },
                    Trace::Binary(l, r, o) => {
                        &&& join_type == JoinType::Inner && equi_columns(on, lw) is Some
                        &&& runs(*left, ctx, *l)
                        &&& runs(*right, ctx, *r)
                        &&& drained(l.outcome()) is Ok
                        &&& match drained(r.outcome()) {
                            Err(f) => o == Err::<Stream, Fault>(f),
                            Ok(rs) => o == merge_outcome(
                                drained(l.outcome())->Ok_0,
                                rs,
                                (equi_columns(on, lw)->0).0,
                                (equi_columns(on, lw)->0).1,
                                table,
                            ),
                        }
                    },
                },
                JoinStrategy::GraceHash => match t {
                    Trace::Source(o) => if equi_columns(on, lw) is None {
                        o == Err::<Stream, Fault>(equi_fault(on))
                    } else {
                        ctx.join_config.hash_partitions == 0 && o == Err::<Stream, Fault>(
                            Fault::Internal("hash join needs at least one bucket"@),
                        )
                    },
                    Trace::Unary(l, o) => {
                        &&& equi_columns(on, lw) is Some && ctx.join_config.hash_partitions > 0
                        &&& runs(*left, ctx, *l)
                        &&& hash_input(l.outcome(), (equi_columns(on, lw)->0).0) is Err
                        &&& o == Err::<Stream, Fault>(
                            hash_input(l.outcome(), (equi_columns(on, lw)->0).0)->Err_0,
                        )
                    },
                    Trace::Binary(l, r, o) => {
                        let (lk, rk) = equi_columns(on, lw)->0;
                        &&& equi_columns(on, lw) is Some && ctx.join_config.hash_partitions > 0
                        &&& runs(*left, ctx, *l)
                        &&& runs(*right, ctx, *r)
                        &&& hash_input(l.outcome(), lk) is Ok
                        &&& match hash_input(r.outcome(), rk) {
                            Err(f) => o == Err::<Stream, Fault>(f),
                            Ok(rs) => {
                                let ls = hash_input(l.outcome(), lk)->Ok_0;
                                if need_values(ls, rs, lk, rk) {
                                    o == loop_outcome(ls, rs, on, join_type, lw, rw, table)
                                } else {
                                    o is Ok && error_free(o->Ok_0) && stream_rows(
                                        o->Ok_0,
                                    ).to_multiset() == hash_params(
                                        join_type,
                                        lk,
                                        rk,
                                        lw,
                                        rw,
                                        ctx.join_config,
                                    ).join_of(ls, rs)
                                }
                            },
                        }
                    },
                },
            }
        },
        _ => t == Trace::Source(
            Err(Fault::Internal("write sinks may only appear at the top of a plan"@)),
        ),
    }
}

// --- streams ---

proof fn lemma_collected_stop(items: Stream, m: nat, n: nat)
    requires
        m <= n <= items.len(),
        collected(items, m) is Err,
    ensures
        collected(items, n) == collected(items, m),
    decreases n,
{
    if m < n {
        lemma_collected_stop(items, m, (n - 1) as nat);
    }
}

proof fn lemma_leading(items: Stream, m: nat, n: nat)
    requires
        m < n <= items.len(),
        collected(items, m) is Ok,
        collected(items, (m + 1) as nat) is Err,
    ensures
        leading_rows(items, n) == collected(items, m)->Ok_0,
    decreases n,
{
    reveal_with_fuel(leading_rows, 2);
    lemma_collected_stop(items, (m + 1) as nat, n);
    if m + 1 < n {
        lemma_leading(items, m, (n - 1) as nat);
    }
}

/// The rows of a stream before its first error, and that error.
fn split_at_error(items: Vec<RowResult>) -> (r: (Vec<Tuple>, Option<QueryError>))
    ensures
        match r.1 {
            None => collected(stream_of(items@), items@.len()) == Ok::<Seq<Row>, Fault>(
                rows_of(r.0@),
            ),
            Some(e) => collected(stream_of(items@), items@.len()) == Err::<Seq<Row>, Fault>(e@)
                && rows_of(r.0@) == leading_rows(stream_of(items@), items@.len()),
        },
{
    let ghost input = items@;
    let ghost stream = stream_of(input);
    let mut rows: Vec<Tuple> = Vec::new();
    assert(rows_of(rows@) =~= Seq::<Row>::empty());
    for item in it: items
        invariant
            it.seq() == input,
            stream == stream_of(input),
            collected(stream, it.index() as nat) == Ok::<Seq<Row>, Fault>(rows_of(rows@)),
    {
        let ghost i = it.index() as int;
        assert(item == input[i]);
        match item {
            Ok(t) => {
                let ghost before = rows_of(rows@);
                rows.push(t);
                assert(rows_of(rows@) =~= before.push(t@));
            },
            Err(e) => {
                proof {
                    lemma_collected_stop(stream, (i + 1) as nat, stream.len());
                    lemma_leading(stream, i as nat, stream.len());
                }
                return (rows, Some(e));
            },
        }
    }
    (rows, None)
}

/// All rows of a stream, or its first error.
pub fn collect(items: Vec<RowResult>) -> (r: Result<Vec<Tuple>, QueryError>)
    ensures
        match r {
            Ok(rows) => collected(stream_of(items@), items@.len()) == Ok::<Seq<Row>, Fault>(
                rows_of(rows@),
            ),
            Err(e) => collected(stream_of(items@), items@.len()) == Err::<Seq<Row>, Fault>(e@),
        },
{
    match split_at_error(items) {
        (rows, None) => Ok(rows),
        (_, Some(e)) => Err(e),
    }
}

proof fn lemma_materialized_stop(items: Stream, m: nat, n: nat, budget: nat)
    requires
        m <= n <= items.len(),
        materialized(items, m, budget) is Err,
    ensures
        materialized(items, n, budget) == materialized(items, m, budget),
    decreases n,
{
    if m < n {
        lemma_materialized_stop(items, m, (n - 1) as nat, budget);
    }
}

/// All rows of a stream, as long as their bytes stay within the budget.
fn materialize(items: Vec<RowResult>, budget: usize) -> (r: Result<Vec<Tuple>, QueryError>)
    ensures
        match r {
            Ok(rows) => materialized(stream_of(items@), items@.len(), budget as nat) == Ok::<
                Seq<Row>,
                Fault,
            >(rows_of(rows@)),
            Err(e) => materialized(stream_of(items@), items@.len(), budget as nat) == Err::<
                Seq<Row>,
                Fault,
            >(e@),
        },
{
    let ghost input = items@;
    let ghost stream = stream_of(input);
    let mut rows: Vec<Tuple> = Vec::new();
    let mut used: usize = 0;
    assert(rows_of(rows@) =~= Seq::<Row>::empty());
    for item in it: items
        invariant
            it.seq() == input,
            stream == stream_of(input),
            used <= budget,
            used == rows_size(rows_of(rows@)),
            materialized(stream, it.index() as nat, budget as nat) == Ok::<Seq<Row>, Fault>(
                rows_of(rows@),
            ),
    {
        let ghost i = it.index() as int;
        assert(item == input[i]);
        match item {
            Ok(t) => {
                let ghost before = rows_of(rows@);
                let size: usize = spilled_size(&t);
                proof {
                    assert(before.push(t@).drop_last() =~= before);
                }
                if size > budget - used {
                    proof {
                        lemma_materialized_stop(
                            stream,
                            (i + 1) as nat,
                            stream.len(),
                            budget as nat,
                        );
                    }
                    return Err(QueryError::internal("join workspace: full"));
                }
                used = used + size;
                rows.push(t);
                assert(rows_of(rows@) =~= before.push(t@));
            },
            Err(e) => {
                proof {
                    lemma_materialized_stop(stream, (i + 1) as nat, stream.len(), budget as nat);
                }
                return Err(e);
            },
        }
    }
    Ok(rows)
}

/// Rows as a stream.
pub fn as_stream(rows: Vec<Tuple>) -> (r: Vec<RowResult>)
    ensures
        stream_of(r@) == items_of(rows_of(rows@)),
        error_free(stream_of(r@)),
        stream_rows(stream_of(r@)) == rows_of(rows@),
{
    let ghost input = rows@;
    let mut out: Vec<RowResult> = Vec::new();
    for row in it: rows
        invariant
            it.seq() == input,
            out@.len() == it.index(),
            forall|j: int|
                0 <= j < it.index() ==> (#[trigger] out@[j]) == Ok::<Tuple, QueryError>(input[j]),
    {
        out.push(Ok(row));
    }
    assert(stream_of(out@) =~= items_of(rows_of(input)));
    assert(stream_rows(stream_of(out@)) =~= rows_of(input));
    out
}

/// Whether every row of a stream has a column.
fn rows_have_column(items: &Vec<RowResult>, column: usize) -> (r: bool)
    ensures
        r == stream_has_column(stream_of(items@), column as nat),
{
    let ghost stream = stream_of(items@);
    let mut i: usize = 0;
    while i < items.len()
        invariant
            i <= items@.len(),
            stream == stream_of(items@),
            forall|j: int|
                0 <= j < i ==> ((#[trigger] stream[j]) is Ok ==> column < stream[j]->Ok_0.len()),
        decreases items@.len() - i,
    {
        assert(stream[i as int] == match items@[i as int] {
            Ok(t) => Ok::<Row, Fault>(t@),
            Err(e) => Err(e@),
        });
        if let Ok(t) = &items[i] {
            if column >= t.values.len() {
                assert(stream[i as int] is Ok && !(column < stream[i as int]->Ok_0.len()));
                return false;
            }
        }
        i = i + 1;
    }
    true
}

/// How many columns a plan's rows have.
pub fn output_arity(node: &PlanNode) -> (r: usize)
    ensures
        r == arity(node@),
    decreases node,
{
    match node {
        PlanNode::SeqScan { table } => {
            let schema = table.schema();
            schema.fields.len()
        },
        PlanNode::SystemScan { relation } => {
            let schema = relation.schema();
            schema.fields.len()
        },
        PlanNode::Filter { input, .. } => output_arity(input),
        PlanNode::Limit { input, .. } => output_arity(input),
        PlanNode::Offset { input, .. } => output_arity(input),
        PlanNode::Sort { input, .. } => output_arity(input),
        PlanNode::Project { expressions, .. } => expressions.len(),
        PlanNode::Values { rows } => if rows.len() == 0 {
            0
        } else {
            assert(rows_of(rows@)[0] == rows@[0]@);
            rows[0].values.len()
        },
        PlanNode::Join { left, right, .. } => output_arity(left).saturating_add(
            output_arity(right),
        ),
        _ => 0,
    }
}

/// What a result is, mathematically.
pub open spec fn outcome_of(r: Result<Vec<RowResult>, QueryError>) -> Outcome {
    match r {
        Ok(items) => Ok(stream_of(items@)),
        Err(e) => Err(e@),
    }
}

/// Whether a plan may come to a result.
pub open spec fn yields(node: PlanTree, ctx: ContextModel, o: Outcome) -> bool {
    exists|t: Trace| #[trigger] runs(node, ctx, t) && t.outcome() == o
}

spec fn trace_to(node: PlanTree, ctx: ContextModel, o: Outcome) -> Trace {
    choose|t: Trace| #[trigger] runs(node, ctx, t) && t.outcome() == o
}

/// The stream of a read plan. A sink below the top of a plan is an internal error.
pub fn build(node: &PlanNode, ctx: &QueryContext) -> (r: Result<Vec<RowResult>, QueryError>)
    ensures
        yields(node@, ctx@, outcome_of(r)),
    decreases node, 1nat,
{
    let ghost model = ctx@;
    match node {
        PlanNode::SeqScan { table } => {
            let items = as_stream(ctx.table(table));
            assert(runs(node@, model, Trace::Source(Ok(stream_of(items@)))));
            Ok(items)
        },
        PlanNode::SystemScan { relation } => {
            let items = as_stream(relation.rows(&ctx.catalog));
            assert(runs(node@, model, Trace::Source(Ok(stream_of(items@)))));
            Ok(items)
        },
        PlanNode::Values { rows } => {
            let items = as_stream(clone_rows(rows));
            assert(runs(node@, model, Trace::Source(Ok(stream_of(items@)))));
            Ok(items)
        },
        PlanNode::Filter { input, predicate } => {
            let built = build(input, ctx);
            let ghost u = trace_to((**input)@, model, outcome_of(built));
            let r = match built {
                Ok(items) => Ok(filter(items, predicate, &ctx.answers)),
                Err(e) => Err(e),
            };
            assert(runs(node@, model, Trace::Unary(Box::new(u), outcome_of(r))));
            r
        },
        PlanNode::Project { input, expressions } => {
            let built = build(input, ctx);
            let ghost u = trace_to((**input)@, model, outcome_of(built));
            let r = match built {
                Ok(items) => Ok(project(items, expressions, &ctx.answers)),
                Err(e) => Err(e),
            };
            assert(runs(node@, model, Trace::Unary(Box::new(u), outcome_of(r))));
            r
        },
        PlanNode::Limit { input, count } => {
            let built = build(input, ctx);
            let ghost u = trace_to((**input)@, model, outcome_of(built));
            let r = match built {
                Ok(items) => Ok(limit(items, *count)),
                Err(e) => Err(e),
            };
            assert(runs(node@, model, Trace::Unary(Box::new(u), outcome_of(r))));
            r
        },
        PlanNode::Offset { input, count } => {
            let built = build(input, ctx);
            let ghost u = trace_to((**input)@, model, outcome_of(built));
            let r = match built {
                Ok(items) => Ok(offset(items, *count)),
                Err(e) => Err(e),
            };
            assert(runs(node@, model, Trace::Unary(Box::new(u), outcome_of(r))));
            r
        },
        PlanNode::Sort { input, keys, input_schema } => {
            let built = build(input, ctx);
            let ghost u = trace_to((**input)@, model, outcome_of(built));
            let r = match built {
                Err(e) => Err(e),
                Ok(items) => match sort(items, keys, &ctx.answers) {
                    Ok(rows) => Ok(as_stream(rows)),
                    Err(e) => Err(e),
                },
            };
            assert(sort_outcome(u.outcome(), sort_terms(keys@), model.answers, outcome_of(r)));
            assert(runs(node@, model, Trace::Unary(Box::new(u), outcome_of(r))));
            r
        },
        PlanNode::Join { left, right, on, join_type, strategy, .. } => match strategy {
            JoinStrategy::NestedLoop => build_nested_loop(node, left, right, on, *join_type, ctx),
            JoinStrategy::BlockNestedLoop => build_block(node, left, right, on, *join_type, ctx),
            JoinStrategy::SortMerge => build_merge(node, left, right, on, *join_type, ctx),
            JoinStrategy::GraceHash => build_grace(node, left, right, on, *join_type, ctx),
        },
        _ => {
            let r: Result<Vec<RowResult>, QueryError> = Err(
                QueryError::internal("write sinks may only appear at the top of a plan"),
            );
            assert(runs(node@, model, Trace::Source(outcome_of(r))));
            r
        },
    }
}

/// Whether a node is a join of two nodes.
spec fn joins(
    node: PlanNode,
    left: PlanNode,
    right: PlanNode,
    on: Option<Expr>,
    join_type: JoinType,
    strategy: JoinStrategy,
) -> bool {
    match node {
        PlanNode::Join { left: l, right: r, on: p, join_type: jt, strategy: s, .. } => *l == left
            && *r == right && p == on && jt == join_type && s == strategy,
        _ => false,
    }
}

/// The stream of a nested-loop join.
fn build_nested_loop(
    node: &PlanNode,
    left: &PlanNode,
    right: &PlanNode,
    on: &Option<Expr>,
    join_type: JoinType,
    ctx: &QueryContext,
) -> (r: Result<Vec<RowResult>, QueryError>)
    requires
        joins(*node, *left, *right, *on, join_type, JoinStrategy::NestedLoop),
    ensures
        yields(node@, ctx@, outcome_of(r)),
    decreases node, 0nat,
{
    let ghost model = ctx@;
    let left_width = output_arity(left);
    let right_width = output_arity(right);
    let built = build(left, ctx);
    let ghost lt = trace_to(left@, model, outcome_of(built));
    let ls = match built {
        Ok(items) => collect(items),
        Err(e) => Err(e),
    };
    let left_rows = match ls {
        Ok(rows) => rows,
        Err(e) => {
            assert(runs(node@, model, Trace::Unary(Box::new(lt), Err(e@))));
            return Err(e);
        },
    };
    let built = build(right, ctx);
    let ghost rt = trace_to(right@, model, outcome_of(built));
    let rs = match built {
        Ok(items) => collect(items),
        Err(e) => Err(e),
    };
    let r = match rs {
        Err(e) => Err(e),
        Ok(right_rows) => match nested_loop_join(
            &left_rows,
            &right_rows,
            on,
            join_type,
            left_width,
            right_width,
            &ctx.answers,
        ) {
            Ok(rows) => Ok(as_stream(rows)),
            Err(e) => Err(e),
        },
    };
    assert(runs(node@, model, Trace::Binary(Box::new(lt), Box::new(rt), outcome_of(r))));
    r
}

/// The stream of a block nested-loop join: the inner side first, then the outer side in blocks.
fn build_block(
    node: &PlanNode,
    left: &PlanNode,
    right: &PlanNode,
    on: &Option<Expr>,
    join_type: JoinType,
    ctx: &QueryContext,
) -> (r: Result<Vec<RowResult>, QueryError>)
    requires
        joins(*node, *left, *right, *on, join_type, JoinStrategy::BlockNestedLoop),
    ensures
        yields(node@, ctx@, outcome_of(r)),
    decreases node, 0nat,
{
    let ghost model = ctx@;
    let left_width = output_arity(left);
    let right_width = output_arity(right);
    let built = build(right, ctx);
    let ghost rt = trace_to(right@, model, outcome_of(built));
    let rs = match built {
        Ok(items) => materialize(items, INNER_WORKSPACE_BUDGET),
        Err(e) => Err(e),
    };
    let right_rows = match rs {
        Ok(rows) => rows,
        Err(e) => {
            assert(runs(node@, model, Trace::Unary(Box::new(rt), Err(e@))));
            return Err(e);
        },
    };
    let built = build(left, ctx);
    let ghost lt = trace_to(left@, model, outcome_of(built));
    let r = match built {
        Err(e) => Err(e),
        Ok(items) => join_blocks(
            items,
            &right_rows,
            on,
            join_type,
            left_width,
            right_width,
            &ctx.answers,
        ),
    };
    assert(runs(node@, model, Trace::Binary(Box::new(rt), Box::new(lt), outcome_of(r))));
    r
}

/// Join an outer stream with the inner rows, block by block.
fn join_blocks(
    items: Vec<RowResult>,
    right: &Vec<Tuple>,
    on: &Option<Expr>,
    join_type: JoinType,
    left_width: usize,
    right_width: usize,
    answers: &Answers,
) -> (r: Result<Vec<RowResult>, QueryError>)
    ensures
        block_outcome(
            Ok(stream_of(items@)),
            rows_of(right@),
            opt_term(*on),
            join_type,
            left_width as nat,
            right_width as nat,
            answers@,
            outcome_of(r),
        ),
{
    match split_at_error(items) {
        (left, None) => match block_nested_loop_join(
            &left,
            right,
            on,
            join_type,
            left_width,
            right_width,
            answers,
        ) {
            Ok(rows) => Ok(as_stream(rows)),
            Err(e) => Err(e),
        },
        (left, Some(error)) => {
            // Blocks that were full before the error have been joined by then.
            let ghost before = rows_of(left@);
            let full: usize = left.len() - left.len() % OUTER_BLOCK_TUPLES;
            let mut blocks = left;
            blocks.truncate(full);
            assert(rows_of(blocks@) =~= before.take(full as int));
            match block_nested_loop_join(
                &blocks,
                right,
                on,
                join_type,
                left_width,
                right_width,
                answers,
            ) {
                Ok(_) => Err(error),
                Err(e) => Err(e),
            }
        },
    }
}

/// The stream of a sort-merge join.
fn build_merge(
    node: &PlanNode,
    left: &PlanNode,
    right: &PlanNode,
    on: &Option<Expr>,
    join_type: JoinType,
    ctx: &QueryContext,
) -> (r: Result<Vec<RowResult>, QueryError>)
    requires
        joins(*node, *left, *right, *on, join_type, JoinStrategy::SortMerge),
    ensures
        yields(node@, ctx@, outcome_of(r)),
    decreases node, 0nat,
{
    let ghost model = ctx@;
    if join_type != JoinType::Inner {
        let e = QueryError::internal("sort-merge join is inner-only");
        assert(runs(node@, model, Trace::Source(Err(e@))));
        return Err(e);
    }
    let (left_key, right_key) = match equi_keys(on, output_arity(left)) {
        Ok(keys) => keys,
        Err(e) => {
            assert(runs(node@, model, Trace::Source(Err(e@))));
            return Err(e);
        },
    };
    let built = build(left, ctx);
    let ghost lt = trace_to(left@, model, outcome_of(built));
    let ls = match built {
        Ok(items) => collect(items),
        Err(e) => Err(e),
    };
    let left_rows = match ls {
        Ok(rows) => rows,
        Err(e) => {
            assert(runs(node@, model, Trace::Unary(Box::new(lt), Err(e@))));
            return Err(e);
        },
    };
    let built = build(right, ctx);
    let ghost rt = trace_to(right@, model, outcome_of(built));
    let rs = match built {
        Ok(items) => collect(items),
        Err(e) => Err(e),
    };
    let r = match rs {
        Err(e) => Err(e),
        Ok(right_rows) => {
            let fit: bool = all_have_column(&left_rows, left_key) && all_have_column(
                &right_rows,
                right_key,
            ) && is_sorted_by(&left_rows, left_key, &ctx.answers) && is_sorted_by(
                &right_rows,
                right_key,
                &ctx.answers,
            );
            let r = if !fit {
                Err(QueryError::internal("sort-merge join needs inputs sorted on their keys"))
            } else {
                match sort_merge_join(&left_rows, &right_rows, left_key, right_key, &ctx.answers) {
                    Ok(rows) => Ok(as_stream(rows)),
                    Err(e) => Err(e),
                }
            };
            assert(outcome_of(r) == merge_outcome(
                rows_of(left_rows@),
                rows_of(right_rows@),
                left_key as nat,
                right_key as nat,
                model.answers,
            ));
            r
        },
    };
    assert(runs(node@, model, Trace::Binary(Box::new(lt), Box::new(rt), outcome_of(r))));
    r
}

/// Rows that a hash join takes have the key column, and stay as they are when they are handed
/// on as a stream.
proof fn lemma_checked(o: Outcome, column: nat)
    requires
        hash_input(o, column) is Ok,
    ensures
        ({
            let rows = hash_input(o, column)->Ok_0;
            &&& o == Ok::<Stream, Fault>(items_of(rows))
            &&& forall|i: int| 0 <= i < rows.len() ==> column < (#[trigger] rows[i]).len()
        }),
{
    let items = o->Ok_0;
    lemma_no_fault(items, items.len(), column);
    assert(items =~= items_of(stream_rows(items)));
    assert forall|i: int| 0 <= i < items.len() implies column < (#[trigger] stream_rows(
        items,
    )[i]).len() by {
        assert(items[i] is Ok);
    }
}

proof fn lemma_no_fault(items: Stream, n: nat, column: nat)
    requires
        n <= items.len(),
        input_fault(items, n, column) is None,
    ensures
        forall|i: int| 0 <= i < n ==> (#[trigger] items[i]) is Ok,
    decreases n,
{
    if n > 0 {
        lemma_no_fault(items, (n - 1) as nat, column);
    }
}

/// The stream of a grace hash join: the left input is checked, then the right one. Keys that
/// bytes cannot tell apart as `=` does are compared one by one.
fn build_grace(
    node: &PlanNode,
    left: &PlanNode,
    right: &PlanNode,
    on: &Option<Expr>,
    join_type: JoinType,
    ctx: &QueryContext,
) -> (r: Result<Vec<RowResult>, QueryError>)
    requires
        joins(*node, *left, *right, *on, join_type, JoinStrategy::GraceHash),
    ensures
        yields(node@, ctx@, outcome_of(r)),
    decreases node, 0nat,
{
    let ghost model = ctx@;
    let config = ctx.join_config;
    let (left_key, right_key) = match equi_keys(on, output_arity(left)) {
        Ok(keys) => keys,
        Err(e) => {
            assert(runs(node@, model, Trace::Source(Err(e@))));
            return Err(e);
        },
    };
    if config.hash_partitions == 0 {
        let e = QueryError::internal("hash join needs at least one bucket");
        assert(runs(node@, model, Trace::Source(Err(e@))));
        return Err(e);
    }
    let params = HashJoinParams {
        join_type,
        left_key,
        right_key,
        left_width: output_arity(left),
        right_width: output_arity(right),
        config,
    };
    let built = build(left, ctx);
    let ghost lt = trace_to(left@, model, outcome_of(built));
    let ghost ls = hash_input(lt.outcome(), left_key as nat);
    let checked = match built {
        Err(e) => Err(e),
        Ok(items) => if !rows_have_column(&items, left_key) {
            Err(QueryError::internal("join key out of bounds"))
        } else {
            checked_rows(items, left_key)
        },
    };
    let left_rows = match checked {
        Ok(rows) => rows,
        Err(e) => {
            assert(ls == Err::<Seq<Row>, Fault>(e@));
            assert(runs(node@, model, Trace::Unary(Box::new(lt), Err(e@))));
            return Err(e);
        },
    };
    proof {
        lemma_checked(lt.outcome(), left_key as nat);
    }
    let built = build(right, ctx);
    let ghost rt = trace_to(right@, model, outcome_of(built));
    let ghost rs = hash_input(rt.outcome(), right_key as nat);
    let checked = match built {
        Err(e) => Err(e),
        Ok(items) => if !rows_have_column(&items, right_key) {
            Err(QueryError::internal("join key out of bounds"))
        } else {
            checked_rows(items, right_key)
        },
    };
    let r = match checked {
        Err(e) => Err(e),
        Ok(right_rows) => {
            proof {
                lemma_checked(rt.outcome(), right_key as nat);
            }
            let joined = if keys_need_values(&left_rows, &right_rows, left_key, right_key) {
                nested_loop_join(
                    &left_rows,
                    &right_rows,
                    on,
                    join_type,
                    params.left_width,
                    params.right_width,
                    &ctx.answers,
                )
            } else {
                grace_hash_join(as_stream(left_rows), as_stream(right_rows), &params)
            };
            match joined {
                Ok(rows) => Ok(as_stream(rows)),
                Err(e) => Err(e),
            }
        },
    };
    assert(params == hash_params(
        join_type,
        left_key as nat,
        right_key as nat,
        params.left_width as nat,
        params.right_width as nat,
        config,
    ));
    assert(runs(node@, model, Trace::Binary(Box::new(lt), Box::new(rt), outcome_of(r))));
    r
}

} // verus!
