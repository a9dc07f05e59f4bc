//! Row-at-a-time operators: filter, project, limit and offset. Each maps a stream to a stream;
//! an error travels through as an item of its own.

use vstd::prelude::*;

use super::rows::{stream_of, Row, RowResult};
use crate::query::error::Fault;
use crate::query::expression::eval::{eval_args, evaluated, values_of};
use crate::query::expression::{terms_of, Expr, Term};
use crate::query::host::{Answer, Answers, Question};
use crate::storage::types::{Datum, Tuple, Value};

verus! {

/// What a filter makes of one item: nothing where the predicate is not true.
pub open spec fn filtered_item(
    item: Result<Row, Fault>,
    predicate: Term,
    table: Seq<(Question, Answer)>,
) -> Option<Result<Row, Fault>> {
    match item {
        Err(f) => Some(Err(f)),
        Ok(row) => match evaluated(predicate, row, table) {
            Err(f) => Some(Err(f)),
            Ok(d) => if d == Datum::Bool(true) {
                Some(Ok(row))
            } else {
                None
            },
        },
    }
}

/// The rows for which the predicate is true, and the errors, in order.
pub open spec fn filtered(
    items: Seq<Result<Row, Fault>>,
    predicate: Term,
    table: Seq<(Question, Answer)>,
) -> Seq<Result<Row, Fault>>
    decreases items.len(),
{
    if items.len() == 0 {
        Seq::empty()
    } else {
        let before = filtered(items.drop_last(), predicate, table);
        match filtered_item(items.last(), predicate, table) {
            Some(item) => before.push(item),
            None => before,
        }
    }
}

/// What a projection makes of one item.
pub open spec fn projected_item(
    item: Result<Row, Fault>,
    expressions: Seq<Term>,
    table: Seq<(Question, Answer)>,
) -> Result<Row, Fault> {
    match item {
        Err(f) => Err(f),
        Ok(row) => values_of(expressions, expressions.len(), row, table),
    }
}

/// One new row for each row.
pub open spec fn projected(
    items: Seq<Result<Row, Fault>>,
    expressions: Seq<Term>,
    table: Seq<(Question, Answer)>,
) -> Seq<Result<Row, Fault>> {
    Seq::new(items.len(), |i: int| projected_item(items[i], expressions, table))
}

/// The first `count` items.
pub open spec fn limited(items: Seq<Result<Row, Fault>>, count: nat) -> Seq<Result<Row, Fault>> {
    if count < items.len() {
        items.take(count as int)
    } else {
        items
    }
}

/// How many rows are among the items.
pub open spec fn row_count(items: Seq<Result<Row, Fault>>) -> nat
    decreases items.len(),
{
    if items.len() == 0 {
        0
    } else if items.last() is Ok {
        row_count(items.drop_last()) + 1
    } else {
        row_count(items.drop_last())
    }
}

/// The items without the first `count` rows. Errors are not skipped.
pub open spec fn skipped(items: Seq<Result<Row, Fault>>, count: nat) -> Seq<Result<Row, Fault>>
    decreases items.len(),
{
    if items.len() == 0 {
        Seq::empty()
    } else {
        let before = skipped(items.drop_last(), count);
        if items.last() is Ok && row_count(items.drop_last()) < count {
            before
        } else {
            before.push(items.last())
        }
    }
}

proof fn lemma_stream_push(items: Seq<RowResult>, item: RowResult)
    ensures
        stream_of(items.push(item)) == stream_of(items).push(
            match item {
                Ok(t) => Ok(t@),
                Err(e) => Err(e@),
            },
        ),
{
    assert(stream_of(items.push(item)) =~= stream_of(items).push(
        match item {
            Ok(t) => Ok(t@),
            Err(e) => Err(e@),
        },
    ));
}

/// Drop rows for which `predicate` is not true; a null drops the row.
pub fn filter(input: Vec<RowResult>, predicate: &Expr, answers: &Answers) -> (r: Vec<RowResult>)
    ensures
        stream_of(r@) == filtered(stream_of(input@), predicate@, answers@),
{
    let ghost items = input@;
    let ghost stream = stream_of(items);
    let mut out: Vec<RowResult> = Vec::new();
    assert(stream_of(out@) =~= Seq::<Result<Row, Fault>>::empty());
    assert(stream.take(0) =~= Seq::<Result<Row, Fault>>::empty());
    for item in it: input
        invariant
            it.seq() == items,
            stream == stream_of(items),
            stream_of(out@) == filtered(stream.take(it.index() as int), predicate@, answers@),
    {
        let ghost i = it.index() as int;
        let ghost before = out@;
        assert(item == items[i]);
        assert(stream.take(i + 1).drop_last() =~= stream.take(i));
        assert(stream.take(i + 1).last() == stream[i]);
        match item {
            Err(e) => {
                out.push(Err(e));
                proof {
                    lemma_stream_push(before, out@.last());
                }
            },
            Ok(tuple) => match predicate.eval(&tuple, answers) {
                Err(e) => {
                    out.push(Err(e));
                    proof {
                        lemma_stream_push(before, out@.last());
                    }
                },
                Ok(Value::Bool(true)) => {
                    out.push(Ok(tuple));
                    proof {
                        lemma_stream_push(before, out@.last());
                    }
                },
                Ok(_) => {},
            },
        }
    }
    assert(stream.take(stream.len() as int) =~= stream);
    out
}

/// Compute a new row for each row.
pub fn project(input: Vec<RowResult>, expressions: &Vec<Expr>, answers: &Answers) -> (r: Vec<
    RowResult,
>)
    ensures
        stream_of(r@) == projected(stream_of(input@), terms_of(expressions@), answers@),
{
    let ghost items = input@;
    let ghost stream = stream_of(items);
    let ghost terms = terms_of(expressions@);
    let mut out: Vec<RowResult> = Vec::new();
    assert(stream_of(out@) =~= projected(stream.take(0), terms, answers@));
    for item in it: input
        invariant
            it.seq() == items,
            stream == stream_of(items),
            terms == terms_of(expressions@),
            stream_of(out@) == projected(stream.take(it.index() as int), terms, answers@),
    {
        let ghost i = it.index() as int;
        let ghost before = out@;
        assert(item == items[i]);
        match item {
            Err(e) => {
                out.push(Err(e));
            },
            Ok(tuple) => match eval_args(expressions, expressions.len(), &tuple, answers) {
                Err(e) => {
                    out.push(Err(e));
                },
                Ok(values) => {
                    out.push(Ok(Tuple { values }));
                },
            },
        }
        proof {
            lemma_stream_push(before, out@.last());
            assert(out@ =~= before.push(out@.last()));
            assert(stream_of(out@) =~= projected(stream.take(i + 1), terms, answers@));
        }
    }
    assert(stream.take(stream.len() as int) =~= stream);
    out
}

/// At most `count` items, then no more.
pub fn limit(input: Vec<RowResult>, count: usize) -> (r: Vec<RowResult>)
    ensures
        stream_of(r@) == limited(stream_of(input@), count as nat),
{
    let mut out = input;
    if count < out.len() {
        out.truncate(count);
        assert(stream_of(out@) =~= stream_of(input@).take(count as int));
    }
    out
}

/// Skip the first `count` rows. An error met while skipping comes out all the same.
pub fn offset(input: Vec<RowResult>, count: usize) -> (r: Vec<RowResult>)
    ensures
        stream_of(r@) == skipped(stream_of(input@), count as nat),
{
    let ghost items = input@;
    let ghost stream = stream_of(items);
    let mut remaining: usize = count;
    let mut out: Vec<RowResult> = Vec::new();
    assert(stream_of(out@) =~= Seq::<Result<Row, Fault>>::empty());
    assert(stream.take(0) =~= Seq::<Result<Row, Fault>>::empty());
    for item in it: input
        invariant
            it.seq() == items,
            stream == stream_of(items),
            remaining <= count,
            stream_of(out@) == skipped(stream.take(it.index() as int), count as nat),
            remaining == if row_count(stream.take(it.index() as int)) < count {
                count - row_count(stream.take(it.index() as int))
            } else {
                0
            },
    {
        let ghost i = it.index() as int;
        let ghost before = out@;
        assert(item == items[i]);
        assert(stream.take(i + 1).drop_last() =~= stream.take(i));
        assert(stream.take(i + 1).last() == stream[i]);
        match item {
            Ok(tuple) => {
                if remaining > 0 {
                    remaining = remaining - 1;
                } else {
                    out.push(Ok(tuple));
                    proof {
                        lemma_stream_push(before, out@.last());
                    }
                }
            },
            Err(e) => {
                out.push(Err(e));
                proof {
                    lemma_stream_push(before, out@.last());
                }
            },
        }
    }
    assert(stream.take(stream.len() as int) =~= stream);
    out
}

/// `OFFSET` after `OFFSET` skips the sum of both.
pub proof fn law_offsets_add_up(items: Seq<Result<Row, Fault>>, a: nat, b: nat)
    ensures
        skipped(skipped(items, a), b) == skipped(items, a + b),
    decreases items.len(),
{
    if items.len() > 0 {
        let rest = items.drop_last();
        law_offsets_add_up(rest, a, b);
        lemma_rows_left(rest, a);
        let before = skipped(rest, a);
        if items.last() is Ok && row_count(rest) < a {
        } else {
            let all = before.push(items.last());
            assert(all.drop_last() =~= before);
        }
    }
}

proof fn lemma_rows_left(items: Seq<Result<Row, Fault>>, a: nat)
    ensures
        row_count(skipped(items, a)) == if row_count(items) < a {
            0
        } else {
            (row_count(items) - a) as nat
        },
    decreases items.len(),
{
    if items.len() > 0 {
        let rest = items.drop_last();
        lemma_rows_left(rest, a);
        if !(items.last() is Ok && row_count(rest) < a) {
            assert(skipped(rest, a).push(items.last()).drop_last() =~= skipped(rest, a));
        }
    }
}

/// A stream without errors loses just its first `count` rows to an `OFFSET`.
pub proof fn law_offset_of_rows(items: Seq<Result<Row, Fault>>, count: nat)
    requires
        forall|i: int| 0 <= i < items.len() ==> (#[trigger] items[i]) is Ok,
    ensures
        skipped(items, count) == if count < items.len() {
            items.skip(count as int)
        } else {
            Seq::empty()
        },
        row_count(items) == items.len(),
    decreases items.len(),
{
    if items.len() > 0 {
        let rest = items.drop_last();
        law_offset_of_rows(rest, count);
        if count < items.len() {
            if count < rest.len() {
                assert(items.skip(count as int) =~= rest.skip(count as int).push(items.last()));
            } else {
                assert(items.skip(count as int) =~= seq![items.last()]);
            }
        }
    }
}

} // verus!
