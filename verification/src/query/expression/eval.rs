//! Evaluating expressions against a row.
//!
//! Nulls follow SQL's three-valued logic: they propagate through comparisons, and `AND` / `OR`
//! are decided by a single `false` / `true` even where the other side is null.

use vstd::prelude::*;

use super::cast::{cast_value, concat_str, eval_cast, text_of};
use super::compare::{order_values, values_eq, values_order, values_same};
use super::function::{
    abs_value, case_value, eval_abs, eval_case, eval_length, eval_like, eval_neg, eval_nullif,
    eval_repeat, eval_round, eval_substr, eval_trim, length_value, like_value, neg_value,
    nullif_value, repeat_value, round_value, substr_value, trim_value, Rounding,
};
use super::{
    branches_of, lemma_call_view, lemma_case_view, terms_of, BinaryOperator, Expr, ScalarFunc, Term,
};
use crate::query::error::{agrees, Fault, QueryError};
use crate::query::host::{Answer, Answers, Question};
use crate::storage::decimal::Order;
use crate::storage::shown::shown;
use crate::storage::text::{
    count_to_text, int_text, lemma_strung_five, push_str, string_from_chars, string_together,
};
use crate::storage::types::{data_of, Datum, Tuple, Value};

verus! {

/// `NOT x`.
pub open spec fn not_value(d: Datum) -> Result<Datum, Fault> {
    match d {
        Datum::Null => Ok(Datum::Null),
        Datum::Bool(b) => Ok(Datum::Bool(!b)),
        _ => Err(Fault::Internal("NOT expects Bool, got "@ + shown(d))),
    }
}

/// Whether an outcome of a comparison satisfies an ordering operator.
pub open spec fn satisfies(op: BinaryOperator, o: Order) -> bool {
    match op {
        BinaryOperator::Lt => o == Order::Less,
        BinaryOperator::LtEq => o != Order::Greater,
        BinaryOperator::Gt => o == Order::Greater,
        BinaryOperator::GtEq => o != Order::Less,
        _ => false,
    }
}

/// What a binary operator makes of its operands' values.
pub open spec fn binary_value(
    op: BinaryOperator,
    a: Datum,
    b: Datum,
    table: Seq<(Question, Answer)>,
) -> Result<Datum, Fault> {
    if op == BinaryOperator::And && (a == Datum::Bool(false) || b == Datum::Bool(false)) {
        Ok(Datum::Bool(false))
    } else if op == BinaryOperator::Or && (a == Datum::Bool(true) || b == Datum::Bool(true)) {
        Ok(Datum::Bool(true))
    } else if a is Null || b is Null {
        Ok(Datum::Null)
    } else {
        match op {
            BinaryOperator::Eq => match values_same(a, b, table) {
                Ok(same) => Ok(Datum::Bool(same)),
                Err(e) => Err(e),
            },
            BinaryOperator::NotEq => match values_same(a, b, table) {
                Ok(same) => Ok(Datum::Bool(!same)),
                Err(e) => Err(e),
            },
            BinaryOperator::And => match (a, b) {
                (Datum::Bool(x), Datum::Bool(y)) => Ok(Datum::Bool(x && y)),
                _ => Err(
                    Fault::Internal("AND expects Bool, got "@ + shown(a) + " / "@ + shown(b)),
                ),
            },
            BinaryOperator::Or => match (a, b) {
                (Datum::Bool(x), Datum::Bool(y)) => Ok(Datum::Bool(x || y)),
                _ => Err(
                    Fault::Internal("OR expects Bool, got "@ + shown(a) + " / "@ + shown(b)),
                ),
            },
            BinaryOperator::Concat => match text_of(a, table) {
                Err(e) => Err(e),
                Ok(s) => match text_of(b, table) {
                    Err(e) => Err(e),
                    Ok(t) => Ok(Datum::Text(s + t)),
                },
            },
            _ => match values_order(a, b, table) {
                Ok(o) => Ok(Datum::Bool(satisfies(op, o))),
                Err(e) => Err(e),
            },
        }
    }
}

/// How many arguments a function of fixed arity takes; `None` for one that takes any number.
pub open spec fn arity(func: ScalarFunc) -> Option<nat> {
    match func {
        ScalarFunc::Greatest => None,
        ScalarFunc::Least => None,
        ScalarFunc::Coalesce => None,
        ScalarFunc::Concat => None,
        ScalarFunc::Repeat => Some(2),
        ScalarFunc::Nullif => Some(2),
        ScalarFunc::TrimBoth => Some(2),
        ScalarFunc::TrimLeading => Some(2),
        ScalarFunc::TrimTrailing => Some(2),
        ScalarFunc::Substr => Some(3),
        _ => Some(1),
    }
}

/// What a function of fixed arity makes of its arguments' values.
pub open spec fn call_value(func: ScalarFunc, vals: Seq<Datum>, table: Seq<(Question, Answer)>) -> Result<
    Datum,
    Fault,
> {
    match func {
        ScalarFunc::Abs => abs_value(vals[0]),
        ScalarFunc::Ceil => round_value(vals[0], Rounding::Ceil, table),
        ScalarFunc::Floor => round_value(vals[0], Rounding::Floor, table),
        ScalarFunc::Round => round_value(vals[0], Rounding::Nearest, table),
        ScalarFunc::Length => length_value(vals[0]),
        ScalarFunc::Repeat => repeat_value(vals[0], vals[1]),
        ScalarFunc::Upper => case_value(vals[0], true),
        ScalarFunc::Lower => case_value(vals[0], false),
        ScalarFunc::Nullif => nullif_value(vals[0], vals[1], table),
        ScalarFunc::Substr => substr_value(vals[0], vals[1], vals[2]),
        ScalarFunc::TrimBoth => trim_value(vals[0], vals[1], true, true),
        ScalarFunc::TrimLeading => trim_value(vals[0], vals[1], true, false),
        ScalarFunc::TrimTrailing => trim_value(vals[0], vals[1], false, true),
        _ => Err(Fault::Internal("missing function argument"@)),
    }
}

/// The better of what was best so far and a new value; a null is no contender.
pub open spec fn better(
    best: Option<Datum>,
    d: Datum,
    greatest: bool,
    table: Seq<(Question, Answer)>,
) -> Result<Option<Datum>, Fault> {
    if d is Null {
        Ok(best)
    } else {
        match best {
            None => Ok(Some(d)),
            Some(cur) => match values_order(cur, d, table) {
                Err(e) => Err(e),
                Ok(o) => if (greatest && o == Order::Less) || (!greatest && o == Order::Greater) {
                    Ok(Some(d))
                } else {
                    Ok(Some(cur))
                },
            },
        }
    }
}

/// A reference to a column that a row does not have.
pub open spec fn column_fault(index: nat, arity: nat) -> Fault {
    Fault::Internal(
        "column index "@ + int_text(index as int) + " out of bounds (arity "@ + int_text(
            arity as int,
        ) + ")"@,
    )
}

/// What an expression is worth on a row. Operands are evaluated from left to right, and the
/// first fault is the outcome.
pub open spec fn evaluated(e: Term, row: Seq<Datum>, table: Seq<(Question, Answer)>) -> Result<
    Datum,
    Fault,
>
    decreases e, 0nat,
{
    match e {
        Term::Column(i) => if i < row.len() {
            Ok(row[i as int])
        } else {
            Err(column_fault(i, row.len()))
        },
        Term::Literal(d) => Ok(d),
        Term::Not(x) => match evaluated(*x, row, table) {
            Ok(d) => not_value(d),
            Err(f) => Err(f),
        },
        Term::Binary(op, l, r) => match evaluated(*l, row, table) {
            Err(f) => Err(f),
            Ok(a) => match evaluated(*r, row, table) {
                Err(f) => Err(f),
                Ok(b) => binary_value(op, a, b, table),
            },
        },
        Term::Call(func, args) => match func {
            ScalarFunc::Greatest => extreme(args, args.len(), true, row, table),
            ScalarFunc::Least => extreme(args, args.len(), false, row, table),
            ScalarFunc::Coalesce => first_non_null(args, args.len(), row, table),
            ScalarFunc::Concat => match concatenated(args, args.len(), row, table) {
                Ok(s) => Ok(Datum::Text(s)),
                Err(f) => Err(f),
            },
            _ => if args.len() < arity(func)->0 {
                Err(Fault::Internal("missing function argument"@))
            } else {
                match values_of(args, arity(func)->0, row, table) {
                    Ok(vals) => call_value(func, vals, table),
                    Err(f) => Err(f),
                }
            },
        },
        Term::IsNull(x, negated) => match evaluated(*x, row, table) {
            Ok(d) => Ok(Datum::Bool((d is Null) != negated)),
            Err(f) => Err(f),
        },
        Term::Like(s, p, negated) => match evaluated(*s, row, table) {
            Err(f) => Err(f),
            Ok(a) => match evaluated(*p, row, table) {
                Err(f) => Err(f),
                Ok(b) => like_value(a, b, negated),
            },
        },
        Term::Neg(x) => match evaluated(*x, row, table) {
            Ok(d) => neg_value(d),
            Err(f) => Err(f),
        },
        Term::Case(branches, alt) => match chosen(branches, branches.len(), row, table) {
            Err(f) => Err(f),
            Ok(Some(d)) => Ok(d),
            Ok(None) => match alt {
                Some(x) => evaluated(*x, row, table),
                None => Ok(Datum::Null),
            },
        },
        Term::Cast(x, target) => match evaluated(*x, row, table) {
            Ok(d) => cast_value(d, target, table),
            Err(f) => Err(f),
        },
    }
}

/// The values of the first `n` arguments.
pub open spec fn values_of(
    args: Seq<Term>,
    n: nat,
    row: Seq<Datum>,
    table: Seq<(Question, Answer)>,
) -> Result<Seq<Datum>, Fault>
    decreases args, n,
{
    if n == 0 || n > args.len() {
        Ok(Seq::empty())
    } else {
        match values_of(args, (n - 1) as nat, row, table) {
            Err(f) => Err(f),
            Ok(vals) => match evaluated(args[n - 1], row, table) {
                Err(f) => Err(f),
                Ok(d) => Ok(vals.push(d)),
            },
        }
    }
}

/// The best of the first `n` arguments, where one is not null.
pub open spec fn best_of(
    args: Seq<Term>,
    n: nat,
    greatest: bool,
    row: Seq<Datum>,
    table: Seq<(Question, Answer)>,
) -> Result<Option<Datum>, Fault>
    decreases args, n,
{
    if n == 0 || n > args.len() {
        Ok(None)
    } else {
        match best_of(args, (n - 1) as nat, greatest, row, table) {
            Err(f) => Err(f),
            Ok(best) => match evaluated(args[n - 1], row, table) {
                Err(f) => Err(f),
                Ok(d) => better(best, d, greatest, table),
            },
        }
    }
}

/// `GREATEST` / `LEAST`: null where every argument is.
pub open spec fn extreme(
    args: Seq<Term>,
    n: nat,
    greatest: bool,
    row: Seq<Datum>,
    table: Seq<(Question, Answer)>,
) -> Result<Datum, Fault>
    decreases args, n + 1,
{
    match best_of(args, n, greatest, row, table) {
        Err(f) => Err(f),
        Ok(Some(d)) => Ok(d),
        Ok(None) => Ok(Datum::Null),
    }
}

/// `COALESCE`: the first of the first `n` arguments that is not null; later ones are not looked
/// at.
pub open spec fn first_non_null(
    args: Seq<Term>,
    n: nat,
    row: Seq<Datum>,
    table: Seq<(Question, Answer)>,
) -> Result<Datum, Fault>
    decreases args, n,
{
    if n == 0 || n > args.len() {
        Ok(Datum::Null)
    } else {
        match first_non_null(args, (n - 1) as nat, row, table) {
            Err(f) => Err(f),
            Ok(Datum::Null) => evaluated(args[n - 1], row, table),
            Ok(d) => Ok(d),
        }
    }
}

/// `CONCAT`: the texts of the first `n` arguments, nulls left out.
pub open spec fn concatenated(
    args: Seq<Term>,
    n: nat,
    row: Seq<Datum>,
    table: Seq<(Question, Answer)>,
) -> Result<Seq<char>, Fault>
    decreases args, n,
{
    if n == 0 || n > args.len() {
        Ok(Seq::empty())
    } else {
        match concatenated(args, (n - 1) as nat, row, table) {
            Err(f) => Err(f),
            Ok(before) => match evaluated(args[n - 1], row, table) {
                Err(f) => Err(f),
                Ok(Datum::Null) => Ok(before),
                Ok(d) => match text_of(d, table) {
                    Err(f) => Err(f),
                    Ok(s) => Ok(before + s),
                },
            },
        }
    }
}

/// `CASE`: the result of the first of the first `n` branches whose condition is true, where
/// there is one; later branches are not looked at.
pub open spec fn chosen(
    branches: Seq<(Term, Term)>,
    n: nat,
    row: Seq<Datum>,
    table: Seq<(Question, Answer)>,
) -> Result<Option<Datum>, Fault>
    decreases branches, n,
{
    if n == 0 || n > branches.len() {
        Ok(None)
    } else {
        match chosen(branches, (n - 1) as nat, row, table) {
            Err(f) => Err(f),
            Ok(Some(d)) => Ok(Some(d)),
            Ok(None) => match evaluated(branches[n - 1].0, row, table) {
                Err(f) => Err(f),
                Ok(c) => if c == Datum::Bool(true) {
                    match evaluated(branches[n - 1].1, row, table) {
                        Err(f) => Err(f),
                        Ok(d) => Ok(Some(d)),
                    }
                } else {
                    Ok(None)
                },
            },
        }
    }
}

// --- evaluation ---

fn eval_not(v: Value) -> (r: Result<Value, QueryError>)
    ensures
        agrees(r, not_value(v@)),
{
    match v {
        Value::Null => Ok(Value::Null),
        Value::Bool(b) => Ok(Value::Bool(!b)),
        _ => Err(QueryError::internal_over("NOT expects Bool, got ", &v)),
    }
}

/// Whether a value is the given bool.
fn is_bool(v: &Value, b: bool) -> (r: bool)
    ensures
        r == (v@ == Datum::Bool(b)),
{
    match v {
        Value::Bool(x) => *x == b,
        _ => false,
    }
}

/// Apply a binary operator to its operands' values.
pub fn eval_binary(op: BinaryOperator, a: Value, b: Value, answers: &Answers) -> (r: Result<
    Value,
    QueryError,
>)
    ensures
        agrees(r, binary_value(op, a@, b@, answers@)),
{
    if op == BinaryOperator::And && (is_bool(&a, false) || is_bool(&b, false)) {
        return Ok(Value::Bool(false));
    }
    if op == BinaryOperator::Or && (is_bool(&a, true) || is_bool(&b, true)) {
        return Ok(Value::Bool(true));
    }
    if a.is_null() || b.is_null() {
        return Ok(Value::Null);
    }
    match op {
        BinaryOperator::Eq => match values_eq(&a, &b, answers) {
            Ok(same) => Ok(Value::Bool(same)),
            Err(e) => Err(e),
        },
        BinaryOperator::NotEq => match values_eq(&a, &b, answers) {
            Ok(same) => Ok(Value::Bool(!same)),
            Err(e) => Err(e),
        },
        BinaryOperator::Lt => match order_values(&a, &b, answers) {
            Ok(o) => Ok(Value::Bool(o == Order::Less)),
            Err(e) => Err(e),
        },
        BinaryOperator::LtEq => match order_values(&a, &b, answers) {
            Ok(o) => Ok(Value::Bool(o != Order::Greater)),
            Err(e) => Err(e),
        },
        BinaryOperator::Gt => match order_values(&a, &b, answers) {
            Ok(o) => Ok(Value::Bool(o == Order::Greater)),
            Err(e) => Err(e),
        },
        BinaryOperator::GtEq => match order_values(&a, &b, answers) {
            Ok(o) => Ok(Value::Bool(o != Order::Less)),
            Err(e) => Err(e),
        },
        BinaryOperator::And => match (&a, &b) {
            (Value::Bool(x), Value::Bool(y)) => Ok(Value::Bool(*x && *y)),
            _ => Err(QueryError::internal_over_two("AND expects Bool, got ", &a, " / ", &b)),
        },
        BinaryOperator::Or => match (&a, &b) {
            (Value::Bool(x), Value::Bool(y)) => Ok(Value::Bool(*x || *y)),
            _ => Err(QueryError::internal_over_two("OR expects Bool, got ", &a, " / ", &b)),
        },
        BinaryOperator::Concat => match concat_str(&a, answers) {
            Err(e) => Err(e),
            Ok(s) => match concat_str(&b, answers) {
                Err(e) => Err(e),
                Ok(t) => {
                    let mut out: Vec<char> = Vec::new();
                    push_str(&mut out, s.as_str());
                    push_str(&mut out, t.as_str());
                    assert(out@ =~= s@ + t@);
                    Ok(Value::Text(string_from_chars(&out)))
                },
            },
        },
    }
}

/// How many arguments a function of fixed arity takes.
pub fn arity_of(func: ScalarFunc) -> (r: Option<usize>)
    ensures
        r is Some <==> arity(func) is Some,
        r is Some ==> r->0 == arity(func)->0,
{
    match func {
        ScalarFunc::Greatest => None,
        ScalarFunc::Least => None,
        ScalarFunc::Coalesce => None,
        ScalarFunc::Concat => None,
        ScalarFunc::Repeat => Some(2),
        ScalarFunc::Nullif => Some(2),
        ScalarFunc::TrimBoth => Some(2),
        ScalarFunc::TrimLeading => Some(2),
        ScalarFunc::TrimTrailing => Some(2),
        ScalarFunc::Substr => Some(3),
        _ => Some(1),
    }
}

proof fn lemma_values_stop(
    args: Seq<Term>,
    m: nat,
    n: nat,
    row: Seq<Datum>,
    table: Seq<(Question, Answer)>,
)
    requires
        m <= n <= args.len(),
        values_of(args, m, row, table) is Err,
    ensures
        values_of(args, n, row, table) == values_of(args, m, row, table),
    decreases n,
{
    if m < n {
        lemma_values_stop(args, m, (n - 1) as nat, row, table);
    }
}

proof fn lemma_best_stops(
    args: Seq<Term>,
    m: nat,
    n: nat,
    greatest: bool,
    row: Seq<Datum>,
    table: Seq<(Question, Answer)>,
)
    requires
        m <= n <= args.len(),
        best_of(args, m, greatest, row, table) is Err,
    ensures
        best_of(args, n, greatest, row, table) == best_of(args, m, greatest, row, table),
    decreases n,
{
    if m < n {
        lemma_best_stops(args, m, (n - 1) as nat, greatest, row, table);
    }
}

proof fn lemma_first_settles(
    args: Seq<Term>,
    m: nat,
    n: nat,
    row: Seq<Datum>,
    table: Seq<(Question, Answer)>,
)
    requires
        m <= n <= args.len(),
        first_non_null(args, m, row, table) != Ok::<Datum, Fault>(Datum::Null),
    ensures
        first_non_null(args, n, row, table) == first_non_null(args, m, row, table),
    decreases n,
{
    if m < n {
        lemma_first_settles(args, m, (n - 1) as nat, row, table);
    }
}

proof fn lemma_concat_stops(
    args: Seq<Term>,
    m: nat,
    n: nat,
    row: Seq<Datum>,
    table: Seq<(Question, Answer)>,
)
    requires
        m <= n <= args.len(),
        concatenated(args, m, row, table) is Err,
    ensures
        concatenated(args, n, row, table) == concatenated(args, m, row, table),
    decreases n,
{
    if m < n {
        lemma_concat_stops(args, m, (n - 1) as nat, row, table);
    }
}

proof fn lemma_chosen_settles(
    branches: Seq<(Term, Term)>,
    m: nat,
    n: nat,
    row: Seq<Datum>,
    table: Seq<(Question, Answer)>,
)
    requires
        m <= n <= branches.len(),
        chosen(branches, m, row, table) != Ok::<Option<Datum>, Fault>(None),
    ensures
        chosen(branches, n, row, table) == chosen(branches, m, row, table),
    decreases n,
{
    if m < n {
        lemma_chosen_settles(branches, m, (n - 1) as nat, row, table);
    }
}

/// The outcome of the branches of a `CASE`.
pub open spec fn agrees_choice(r: Result<Option<Value>, QueryError>, want: Result<Option<Datum>, Fault>) -> bool {
    match (r, want) {
        (Ok(Some(v)), Ok(Some(d))) => v@ == d,
        (Ok(None), Ok(None)) => true,
        (Err(e), Err(f)) => e@ == f,
        _ => false,
    }
}

/// A reference to a column that a row does not have.
fn no_column(index: usize, arity: usize) -> (r: QueryError)
    ensures
        r@ == column_fault(index as nat, arity as nat),
{
    let at = count_to_text(index);
    let count = count_to_text(arity);
    let parts = vec!["column index ", at.as_str(), " out of bounds (arity ", count.as_str(), ")"];
    proof {
        lemma_strung_five(parts@);
    }
    QueryError::Internal(string_together(&parts))
}

impl Expr {
    /// Evaluate the expression against `tuple`, with the host's answers so far.
    pub fn eval(&self, tuple: &Tuple, answers: &Answers) -> (r: Result<Value, QueryError>)
        ensures
            agrees(r, evaluated(self@, tuple@, answers@)),
        decreases self, 0nat,
    {
        match self {
            Expr::Column { index } => if *index < tuple.values.len() {
                Ok(tuple.values[*index].clone())
            } else {
                Err(no_column(*index, tuple.values.len()))
            },
            Expr::Literal { value } => Ok(value.clone()),
            Expr::Not { input } => match input.eval(tuple, answers) {
                Ok(v) => eval_not(v),
                Err(e) => Err(e),
            },
            Expr::Binary { op, lhs, rhs } => match lhs.eval(tuple, answers) {
                Err(e) => Err(e),
                Ok(a) => match rhs.eval(tuple, answers) {
                    Err(e) => Err(e),
                    Ok(b) => eval_binary(*op, a, b, answers),
                },
            },
            Expr::Call { func, args } => {
                proof {
                    lemma_call_view(*func, *args);
                }
                eval_call(*func, args, tuple, answers)
            },
            Expr::IsNull { expr, negated } => match expr.eval(tuple, answers) {
                Ok(v) => Ok(Value::Bool(v.is_null() != *negated)),
                Err(e) => Err(e),
            },
            Expr::Like { expr, pattern, negated } => match expr.eval(tuple, answers) {
                Err(e) => Err(e),
                Ok(s) => match pattern.eval(tuple, answers) {
                    Err(e) => Err(e),
                    Ok(p) => eval_like(s, p, *negated),
                },
            },
            Expr::Neg { input } => match input.eval(tuple, answers) {
                Ok(v) => eval_neg(v),
                Err(e) => Err(e),
            },
            Expr::Case { branches, else_result } => {
                proof {
                    lemma_case_view(*branches, *else_result);
                }
                match eval_branches(branches, tuple, answers) {
                    Err(e) => Err(e),
                    Ok(Some(v)) => Ok(v),
                    Ok(None) => match else_result {
                        Some(e) => e.eval(tuple, answers),
                        None => Ok(Value::Null),
                    },
                }
            },
            Expr::Cast { input, target } => match input.eval(tuple, answers) {
                Ok(v) => eval_cast(v, target, answers),
                Err(e) => Err(e),
            },
        }
    }
}

/// The first branch whose condition is true.
fn eval_branches(branches: &Vec<(Expr, Expr)>, tuple: &Tuple, answers: &Answers) -> (r: Result<
    Option<Value>,
    QueryError,
>)
    ensures
        agrees_choice(r, chosen(branches_of(branches@), branches@.len(), tuple@, answers@)),
    decreases branches, 0nat,
{
    let ghost terms = branches_of(branches@);
    let mut i: usize = 0;
    while i < branches.len()
        invariant
            i <= branches@.len(),
            terms == branches_of(branches@),
            chosen(terms, i as nat, tuple@, answers@) == Ok::<Option<Datum>, Fault>(None),
        decreases branches@.len() - i,
    {
        let ghost want = chosen(terms, (i + 1) as nat, tuple@, answers@);
        proof {
            assert(terms[i as int] == (branches@[i as int].0@, branches@[i as int].1@));
            assert(decreases_to!(*branches => branches@[i as int]));
            if want != Ok::<Option<Datum>, Fault>(None) {
                lemma_chosen_settles(terms, (i + 1) as nat, branches@.len(), tuple@, answers@);
            }
        }
        match branches[i].0.eval(tuple, answers) {
            Err(e) => return Err(e),
            Ok(c) => {
                if is_bool(&c, true) {
                    return match branches[i].1.eval(tuple, answers) {
                        Err(e) => Err(e),
                        Ok(v) => Ok(Some(v)),
                    };
                }
            },
        }
        i = i + 1;
    }
    Ok(None)
}

/// The values of the first `n` arguments.
pub fn eval_args(args: &Vec<Expr>, n: usize, tuple: &Tuple, answers: &Answers) -> (r: Result<
    Vec<Value>,
    QueryError,
>)
    requires
        n <= args@.len(),
    ensures
        match (r, values_of(terms_of(args@), n as nat, tuple@, answers@)) {
            (Ok(vals), Ok(want)) => data_of(vals@) == want && vals@.len() == n,
            (Err(e), Err(f)) => e@ == f,
            _ => false,
        },
    decreases args, 0nat,
{
    let ghost terms = terms_of(args@);
    let mut out: Vec<Value> = Vec::new();
    let mut i: usize = 0;
    assert(data_of(out@) =~= Seq::<Datum>::empty());
    while i < n
        invariant
            i <= n <= args@.len(),
            terms == terms_of(args@),
            out@.len() == i,
            values_of(terms, i as nat, tuple@, answers@) == Ok::<Seq<Datum>, Fault>(data_of(out@)),
        decreases n - i,
    {
        proof {
            assert(terms[i as int] == args@[i as int]@);
            assert(decreases_to!(*args => args@[i as int]));
        }
        let ghost before = data_of(out@);
        match args[i].eval(tuple, answers) {
            Ok(v) => {
                out.push(v);
                assert(data_of(out@) =~= before.push(v@));
            },
            Err(e) => {
                proof {
                    lemma_values_stop(terms, (i + 1) as nat, n as nat, tuple@, answers@);
                }
                return Err(e);
            },
        }
        i = i + 1;
    }
    Ok(out)
}

/// `GREATEST` / `LEAST` over the arguments.
fn eval_extreme(args: &Vec<Expr>, greatest: bool, tuple: &Tuple, answers: &Answers) -> (r: Result<
    Value,
    QueryError,
>)
    ensures
        agrees(r, extreme(terms_of(args@), args@.len(), greatest, tuple@, answers@)),
    decreases args, 0nat,
{
    let ghost terms = terms_of(args@);
    let mut best: Option<Value> = None;
    let mut i: usize = 0;
    while i < args.len()
        invariant
            i <= args@.len(),
            terms == terms_of(args@),
            agrees_choice(
                Ok::<Option<Value>, QueryError>(best),
                best_of(terms, i as nat, greatest, tuple@, answers@),
            ),
        decreases args@.len() - i,
    {
        proof {
            assert(terms[i as int] == args@[i as int]@);
            assert(decreases_to!(*args => args@[i as int]));
            if best_of(terms, (i + 1) as nat, greatest, tuple@, answers@) is Err {
                lemma_best_stops(terms, (i + 1) as nat, args@.len(), greatest, tuple@, answers@);
            }
        }
        match args[i].eval(tuple, answers) {
            Err(e) => return Err(e),
            Ok(v) => {
                if !v.is_null() {
                    best = match best {
                        None => Some(v),
                        Some(cur) => match order_values(&cur, &v, answers) {
                            Err(e) => return Err(e),
                            Ok(o) => if (greatest && o == Order::Less) || (!greatest && o
                                == Order::Greater) {
                                Some(v)
                            } else {
                                Some(cur)
                            },
                        },
                    };
                }
            },
        }
        i = i + 1;
    }
    match best {
        Some(v) => Ok(v),
        None => Ok(Value::Null),
    }
}

/// The first argument that is not null.
fn eval_coalesce(args: &Vec<Expr>, tuple: &Tuple, answers: &Answers) -> (r: Result<
    Value,
    QueryError,
>)
    ensures
        agrees(r, first_non_null(terms_of(args@), args@.len(), tuple@, answers@)),
    decreases args, 0nat,
{
    let ghost terms = terms_of(args@);
    let mut i: usize = 0;
    while i < args.len()
        invariant
            i <= args@.len(),
            terms == terms_of(args@),
            first_non_null(terms, i as nat, tuple@, answers@) == Ok::<Datum, Fault>(Datum::Null),
        decreases args@.len() - i,
    {
        proof {
            assert(terms[i as int] == args@[i as int]@);
            assert(decreases_to!(*args => args@[i as int]));
            if first_non_null(terms, (i + 1) as nat, tuple@, answers@) != Ok::<Datum, Fault>(
                Datum::Null,
            ) {
                lemma_first_settles(terms, (i + 1) as nat, args@.len(), tuple@, answers@);
            }
        }
        match args[i].eval(tuple, answers) {
            Err(e) => return Err(e),
            Ok(v) => {
                if !v.is_null() {
                    return Ok(v);
                }
            },
        }
        i = i + 1;
    }
    Ok(Value::Null)
}

/// The arguments as text, joined.
fn eval_concat(args: &Vec<Expr>, tuple: &Tuple, answers: &Answers) -> (r: Result<
    String,
    QueryError,
>)
    ensures
        agrees(r, concatenated(terms_of(args@), args@.len(), tuple@, answers@)),
    decreases args, 0nat,
{
    let ghost terms = terms_of(args@);
    let mut out: Vec<char> = Vec::new();
    let mut i: usize = 0;
    while i < args.len()
        invariant
            i <= args@.len(),
            terms == terms_of(args@),
            concatenated(terms, i as nat, tuple@, answers@) == Ok::<Seq<char>, Fault>(out@),
        decreases args@.len() - i,
    {
        proof {
            assert(terms[i as int] == args@[i as int]@);
            assert(decreases_to!(*args => args@[i as int]));
            if concatenated(terms, (i + 1) as nat, tuple@, answers@) is Err {
                lemma_concat_stops(terms, (i + 1) as nat, args@.len(), tuple@, answers@);
            }
        }
        match args[i].eval(tuple, answers) {
            Err(e) => return Err(e),
            Ok(v) => {
                if !v.is_null() {
                    match concat_str(&v, answers) {
                        Err(e) => return Err(e),
                        Ok(s) => push_str(&mut out, s.as_str()),
                    }
                }
            },
        }
        i = i + 1;
    }
    Ok(string_from_chars(&out))
}

/// Apply a built-in function to its arguments.
fn eval_call(func: ScalarFunc, args: &Vec<Expr>, tuple: &Tuple, answers: &Answers) -> (r: Result<
    Value,
    QueryError,
>)
    ensures
        agrees(r, evaluated(Term::Call(func, terms_of(args@)), tuple@, answers@)),
    decreases args, 1nat,
{
    let n: usize = match arity_of(func) {
        None => {
            return match func {
                ScalarFunc::Greatest => eval_extreme(args, true, tuple, answers),
                ScalarFunc::Least => eval_extreme(args, false, tuple, answers),
                ScalarFunc::Coalesce => eval_coalesce(args, tuple, answers),
                _ => match eval_concat(args, tuple, answers) {
                    Ok(s) => Ok(Value::Text(s)),
                    Err(e) => Err(e),
                },
            };
        },
        Some(n) => n,
    };
    if args.len() < n {
        return Err(QueryError::internal("missing function argument"));
    }
    match eval_args(args, n, tuple, answers) {
        Err(e) => Err(e),
        Ok(vals) => apply_func(func, vals, answers),
    }
}

/// Apply a function of fixed arity to its arguments' values.
fn apply_func(func: ScalarFunc, args: Vec<Value>, answers: &Answers) -> (r: Result<
    Value,
    QueryError,
>)
    requires
        arity(func) is Some,
        args@.len() == arity(func)->0,
    ensures
        agrees(r, call_value(func, data_of(args@), answers@)),
{
    let ghost vals = data_of(args@);
    let mut args = args;
    let first = args.remove(0);
    assert(first@ == vals[0]);
    match func {
        ScalarFunc::Abs => eval_abs(first),
        ScalarFunc::Ceil => eval_round(first, Rounding::Ceil, answers),
        ScalarFunc::Floor => eval_round(first, Rounding::Floor, answers),
        ScalarFunc::Round => eval_round(first, Rounding::Nearest, answers),
        ScalarFunc::Length => eval_length(first),
        ScalarFunc::Upper => eval_case(first, true),
        ScalarFunc::Lower => eval_case(first, false),
        _ => {
            let second = args.remove(0);
            assert(second@ == vals[1]);
            match func {
                ScalarFunc::Repeat => eval_repeat(first, second),
                ScalarFunc::Nullif => eval_nullif(first, second, answers),
                ScalarFunc::TrimBoth => eval_trim(first, second, true, true),
                ScalarFunc::TrimLeading => eval_trim(first, second, true, false),
                ScalarFunc::TrimTrailing => eval_trim(first, second, false, true),
                _ => {
                    let third = args.remove(0);
                    assert(third@ == vals[2]);
                    eval_substr(first, second, third)
                },
            }
        },
    }
}

// --- laws ---

/// `IS NULL` never comes out null: it is true or false wherever its operand has a value.
pub proof fn law_is_null_is_total(
    x: Term,
    negated: bool,
    row: Seq<Datum>,
    table: Seq<(Question, Answer)>,
)
    requires
        evaluated(x, row, table) is Ok,
    ensures
        evaluated(Term::IsNull(Box::new(x), negated), row, table) == Ok::<Datum, Fault>(
            Datum::Bool((evaluated(x, row, table)->Ok_0 is Null) != negated),
        ),
{
}

/// A comparison or concatenation with a null comes out null.
pub proof fn law_null_propagates(
    op: BinaryOperator,
    a: Datum,
    b: Datum,
    table: Seq<(Question, Answer)>,
)
    requires
        op != BinaryOperator::And,
        op != BinaryOperator::Or,
        a is Null || b is Null,
    ensures
        binary_value(op, a, b, table) == Ok::<Datum, Fault>(Datum::Null),
{
}

/// `false` decides an `AND` and `true` an `OR`, whatever the other side is, a null too.
pub proof fn law_connectives_short_circuit(d: Datum, table: Seq<(Question, Answer)>)
    ensures
        binary_value(BinaryOperator::And, Datum::Bool(false), d, table) == Ok::<Datum, Fault>(
            Datum::Bool(false),
        ),
        binary_value(BinaryOperator::And, d, Datum::Bool(false), table) == Ok::<Datum, Fault>(
            Datum::Bool(false),
        ),
        binary_value(BinaryOperator::Or, Datum::Bool(true), d, table) == Ok::<Datum, Fault>(
            Datum::Bool(true),
        ),
        binary_value(BinaryOperator::Or, d, Datum::Bool(true), table) == Ok::<Datum, Fault>(
            Datum::Bool(true),
        ),
{
}

/// Whether a datum is a truth value: true, false, or null for unknown.
pub open spec fn is_truth(d: Datum) -> bool {
    d is Null || d is Bool
}

/// De Morgan's laws hold in three-valued logic.
pub proof fn law_de_morgan(a: Datum, b: Datum, table: Seq<(Question, Answer)>)
    requires
        is_truth(a),
        is_truth(b),
    ensures
        not_value(binary_value(BinaryOperator::And, a, b, table)->Ok_0) == binary_value(
            BinaryOperator::Or,
            not_value(a)->Ok_0,
            not_value(b)->Ok_0,
            table,
        ),
        not_value(binary_value(BinaryOperator::Or, a, b, table)->Ok_0) == binary_value(
            BinaryOperator::And,
            not_value(a)->Ok_0,
            not_value(b)->Ok_0,
            table,
        ),
{
}

/// `<` and `>=` are each other's negation, and so are `>` and `<=`, `=` and `<>`.
pub proof fn law_negated_comparisons(a: Datum, b: Datum, table: Seq<(Question, Answer)>)
    ensures
        binary_value(BinaryOperator::Lt, a, b, table) is Ok ==> binary_value(
            BinaryOperator::GtEq,
            a,
            b,
            table,
        ) == not_value(binary_value(BinaryOperator::Lt, a, b, table)->Ok_0),
        binary_value(BinaryOperator::Gt, a, b, table) is Ok ==> binary_value(
            BinaryOperator::LtEq,
            a,
            b,
            table,
        ) == not_value(binary_value(BinaryOperator::Gt, a, b, table)->Ok_0),
        binary_value(BinaryOperator::Eq, a, b, table) is Ok ==> binary_value(
            BinaryOperator::NotEq,
            a,
            b,
            table,
        ) == not_value(binary_value(BinaryOperator::Eq, a, b, table)->Ok_0),
{
}

} // verus!
