//! Evaluating again with more answers at hand changes nothing that was settled.

use vstd::prelude::*;

use super::cast::{cast_text, cast_value, joined_text, text_of};
use super::compare::{float_of, values_order, values_same};
use super::eval::{
    arity, best_of, better, binary_value, call_value, chosen, concatenated, evaluated, extreme,
    first_non_null, values_of,
};
use super::{BinaryOperator, ScalarFunc, Term};
use crate::query::error::Fault;
use crate::query::host::{answer_to, law_answers_are_kept, Answer, Question};
use crate::storage::types::{Datum, LogicalType};

verus! {

/// Whether an outcome is no open question.
pub open spec fn settled<T>(r: Result<T, Fault>) -> bool {
    !(r matches Err(Fault::Host(_)))
}

/// Whether every answer in a table is in another, too.
pub open spec fn extends(less: Seq<(Question, Answer)>, more: Seq<(Question, Answer)>) -> bool {
    forall|q: Question| #[trigger]
        answer_to(less, q) is Some ==> answer_to(more, q) == answer_to(less, q)
}

proof fn lemma_text(d: Datum, less: Seq<(Question, Answer)>, more: Seq<(Question, Answer)>)
    requires
        extends(less, more),
        settled(text_of(d, less)),
    ensures
        text_of(d, more) == text_of(d, less),
    decreases d, 0nat,
{
    if let Datum::Array(items) = d {
        lemma_joined(items, items.len(), less, more);
    }
}

proof fn lemma_joined(
    items: Seq<Datum>,
    n: nat,
    less: Seq<(Question, Answer)>,
    more: Seq<(Question, Answer)>,
)
    requires
        extends(less, more),
        settled(joined_text(items, n, less)),
    ensures
        joined_text(items, n, more) == joined_text(items, n, less),
    decreases items, n,
{
    if 0 < n <= items.len() {
        lemma_joined(items, (n - 1) as nat, less, more);
        if joined_text(items, (n - 1) as nat, less) is Ok {
            lemma_text(items[n - 1], less, more);
        }
    }
}

proof fn lemma_cast(
    d: Datum,
    target: LogicalType,
    less: Seq<(Question, Answer)>,
    more: Seq<(Question, Answer)>,
)
    requires
        extends(less, more),
        settled(cast_value(d, target, less)),
    ensures
        cast_value(d, target, more) == cast_value(d, target, less),
{
    if settled(cast_text(d, less)) && !(d is Bytes || d is Json) {
        lemma_text(d, less, more);
    }
}

proof fn lemma_compared(
    a: Datum,
    b: Datum,
    less: Seq<(Question, Answer)>,
    more: Seq<(Question, Answer)>,
)
    requires
        extends(less, more),
    ensures
        settled(values_same(a, b, less)) ==> values_same(a, b, more) == values_same(a, b, less),
        settled(values_order(a, b, less)) ==> values_order(a, b, more) == values_order(a, b, less),
{
    if settled(float_of(a, less)) {
        assert(float_of(a, more) == float_of(a, less));
    }
    if settled(float_of(b, less)) {
        assert(float_of(b, more) == float_of(b, less));
    }
}

proof fn lemma_binary(
    op: BinaryOperator,
    a: Datum,
    b: Datum,
    less: Seq<(Question, Answer)>,
    more: Seq<(Question, Answer)>,
)
    requires
        extends(less, more),
        settled(binary_value(op, a, b, less)),
    ensures
        binary_value(op, a, b, more) == binary_value(op, a, b, less),
{
    lemma_compared(a, b, less, more);
    if settled(text_of(a, less)) {
        lemma_text(a, less, more);
    }
    if settled(text_of(b, less)) {
        lemma_text(b, less, more);
    }
}

proof fn lemma_called(
    func: ScalarFunc,
    vals: Seq<Datum>,
    less: Seq<(Question, Answer)>,
    more: Seq<(Question, Answer)>,
)
    requires
        extends(less, more),
        settled(call_value(func, vals, less)),
    ensures
        call_value(func, vals, more) == call_value(func, vals, less),
{
    lemma_compared(vals[0], vals[1], less, more);
}

proof fn lemma_better(
    best: Option<Datum>,
    d: Datum,
    greatest: bool,
    less: Seq<(Question, Answer)>,
    more: Seq<(Question, Answer)>,
)
    requires
        extends(less, more),
        settled(better(best, d, greatest, less)),
    ensures
        better(best, d, greatest, more) == better(best, d, greatest, less),
{
    if let Some(cur) = best {
        lemma_compared(cur, d, less, more);
    }
}

/// An expression that is settled on a row stays so, with the same value or the same fault,
/// whatever is answered later. Evaluating over and over, with one more answer each time, thus
/// ends where evaluating once with all the answers would.
pub proof fn law_settled_evaluations_stand(
    e: Term,
    row: Seq<Datum>,
    less: Seq<(Question, Answer)>,
    more: Seq<(Question, Answer)>,
)
    requires
        extends(less, more),
        settled(evaluated(e, row, less)),
    ensures
        evaluated(e, row, more) == evaluated(e, row, less),
    decreases e, 0nat,
{
    match e {
        Term::Column(_) => {},
        Term::Literal(_) => {},
        Term::Not(x) => law_settled_evaluations_stand(*x, row, less, more),
        Term::Neg(x) => law_settled_evaluations_stand(*x, row, less, more),
        Term::IsNull(x, _) => law_settled_evaluations_stand(*x, row, less, more),
        Term::Cast(x, target) => {
            law_settled_evaluations_stand(*x, row, less, more);
            if let Ok(d) = evaluated(*x, row, less) {
                lemma_cast(d, target, less, more);
            }
        },
        Term::Binary(op, l, r) => {
            law_settled_evaluations_stand(*l, row, less, more);
            if let Ok(a) = evaluated(*l, row, less) {
                law_settled_evaluations_stand(*r, row, less, more);
                if let Ok(b) = evaluated(*r, row, less) {
                    lemma_binary(op, a, b, less, more);
                }
            }
        },
        Term::Like(s, p, _) => {
            law_settled_evaluations_stand(*s, row, less, more);
            if evaluated(*s, row, less) is Ok {
                law_settled_evaluations_stand(*p, row, less, more);
            }
        },
        Term::Call(func, args) => lemma_call(func, args, row, less, more),
        Term::Case(branches, alt) => {
            lemma_chosen(branches, branches.len(), row, less, more);
            if let Some(x) = alt {
                if chosen(branches, branches.len(), row, less) == Ok::<Option<Datum>, Fault>(None) {
                    law_settled_evaluations_stand(*x, row, less, more);
                }
            }
        },
    }
}

proof fn lemma_call(
    func: ScalarFunc,
    args: Seq<Term>,
    row: Seq<Datum>,
    less: Seq<(Question, Answer)>,
    more: Seq<(Question, Answer)>,
)
    requires
        extends(less, more),
        settled(evaluated(Term::Call(func, args), row, less)),
    ensures
        evaluated(Term::Call(func, args), row, more) == evaluated(Term::Call(func, args), row, less),
    decreases args, args.len() + 1,
{
    reveal_with_fuel(evaluated, 2);
    reveal_with_fuel(extreme, 2);
    let n = args.len();
    match func {
        ScalarFunc::Greatest => lemma_best(args, n, true, row, less, more),
        ScalarFunc::Least => lemma_best(args, n, false, row, less, more),
        ScalarFunc::Coalesce => lemma_first(args, n, row, less, more),
        ScalarFunc::Concat => lemma_concatenated(args, n, row, less, more),
        _ => {
            let k = arity(func)->0;
            if k <= n {
                lemma_values(args, k, row, less, more);
                if let Ok(vals) = values_of(args, k, row, less) {
                    lemma_called(func, vals, less, more);
                }
            }
        },
    }
}

proof fn lemma_values(
    args: Seq<Term>,
    n: nat,
    row: Seq<Datum>,
    less: Seq<(Question, Answer)>,
    more: Seq<(Question, Answer)>,
)
    requires
        extends(less, more),
        settled(values_of(args, n, row, less)),
    ensures
        values_of(args, n, row, more) == values_of(args, n, row, less),
    decreases args, n,
{
    if 0 < n <= args.len() {
        lemma_values(args, (n - 1) as nat, row, less, more);
        if values_of(args, (n - 1) as nat, row, less) is Ok {
            law_settled_evaluations_stand(args[n - 1], row, less, more);
        }
    }
}

proof fn lemma_best(
    args: Seq<Term>,
    n: nat,
    greatest: bool,
    row: Seq<Datum>,
    less: Seq<(Question, Answer)>,
    more: Seq<(Question, Answer)>,
)
    requires
        extends(less, more),
        settled(best_of(args, n, greatest, row, less)),
    ensures
        best_of(args, n, greatest, row, more) == best_of(args, n, greatest, row, less),
    decreases args, n,
{
    if 0 < n <= args.len() {
        lemma_best(args, (n - 1) as nat, greatest, row, less, more);
        if let Ok(best) = best_of(args, (n - 1) as nat, greatest, row, less) {
            law_settled_evaluations_stand(args[n - 1], row, less, more);
            if let Ok(d) = evaluated(args[n - 1], row, less) {
                lemma_better(best, d, greatest, less, more);
            }
        }
    }
}

proof fn lemma_first(
    args: Seq<Term>,
    n: nat,
    row: Seq<Datum>,
    less: Seq<(Question, Answer)>,
    more: Seq<(Question, Answer)>,
)
    requires
        extends(less, more),
        settled(first_non_null(args, n, row, less)),
    ensures
        first_non_null(args, n, row, more) == first_non_null(args, n, row, less),
    decreases args, n,
{
    if 0 < n <= args.len() {
        lemma_first(args, (n - 1) as nat, row, less, more);
        if first_non_null(args, (n - 1) as nat, row, less) == Ok::<Datum, Fault>(Datum::Null) {
            law_settled_evaluations_stand(args[n - 1], row, less, more);
        }
    }
}

proof fn lemma_concatenated(
    args: Seq<Term>,
    n: nat,
    row: Seq<Datum>,
    less: Seq<(Question, Answer)>,
    more: Seq<(Question, Answer)>,
)
    requires
        extends(less, more),
        settled(concatenated(args, n, row, less)),
    ensures
        concatenated(args, n, row, more) == concatenated(args, n, row, less),
    decreases args, n,
{
    if 0 < n <= args.len() {
        lemma_concatenated(args, (n - 1) as nat, row, less, more);
        if concatenated(args, (n - 1) as nat, row, less) is Ok {
            law_settled_evaluations_stand(args[n - 1], row, less, more);
            if let Ok(d) = evaluated(args[n - 1], row, less) {
                if !(d is Null) {
                    lemma_text(d, less, more);
                }
            }
        }
    }
}

proof fn lemma_chosen(
    branches: Seq<(Term, Term)>,
    n: nat,
    row: Seq<Datum>,
    less: Seq<(Question, Answer)>,
    more: Seq<(Question, Answer)>,
)
    requires
        extends(less, more),
        settled(chosen(branches, n, row, less)),
    ensures
        chosen(branches, n, row, more) == chosen(branches, n, row, less),
    decreases branches, n,
{
    if 0 < n <= branches.len() {
        lemma_chosen(branches, (n - 1) as nat, row, less, more);
        let before = chosen(branches, (n - 1) as nat, row, less);
        if before == Ok::<Option<Datum>, Fault>(None) {
            law_settled_evaluations_stand(branches[n - 1].0, row, less, more);
            if evaluated(branches[n - 1].0, row, less) == Ok::<Datum, Fault>(Datum::Bool(true)) {
                law_settled_evaluations_stand(branches[n - 1].1, row, less, more);
            }
        }
    }
}

/// Recording answers only adds to them.
pub proof fn law_recorded_answers_extend(
    table: Seq<(Question, Answer)>,
    more: Seq<(Question, Answer)>,
)
    ensures
        extends(table, table + more),
{
    assert forall|q: Question| #[trigger] answer_to(table, q) is Some implies answer_to(
        table + more,
        q,
    ) == answer_to(table, q) by {
        law_answers_are_kept(table, more, q);
    }
}

} // verus!
