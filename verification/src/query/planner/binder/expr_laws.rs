//! What SQL expressions are worth on a row, told by what their parts are worth.

use vstd::prelude::*;

use super::expr::{
    any_equal, between_term, binary_term, bound, bound_args, bound_branches, bound_list,
    column_term, function_of, negated_term, Visible,
};
use super::literal::{literal_value, mapped_type};
use super::scope::{
    last_reference, reference_count, refers, resolved_column, ColumnModel,
};
use crate::query::error::Fault;
use crate::query::expression::cast::cast_value;
use crate::query::expression::eval::{evaluated, is_truth};
use crate::query::expression::value_laws::{
    called, is_trimmed, law_case, law_casts_apply_to_values, law_comparisons_count, law_is_null_tells_nulls,
    law_like_and_not_like, law_negation, law_substring, law_trim, law_truth_tables, none_true,
    number, of_a_kind, operated, place, truth, is_cut,
};
use crate::query::expression::like::like;
use crate::query::expression::{BinaryOperator, ScalarFunc, Term};
use crate::query::host::{Answer, Question};
use crate::query::planner::ast::{
    SqlBinaryOp, SqlExpr, SqlLiteral, SqlName, SqlRounding, SqlType, SqlUnaryOp, SqlZone, TrimSide,
};
use crate::storage::text::int_parsed;
use crate::storage::types::{Datum, LogicalType};

verus! {

/// What an expression is worth on a row, where it can be bound.
pub open spec fn worth(
    e: SqlExpr,
    scope: Visible,
    row: Seq<Datum>,
    table: Seq<(Question, Answer)>,
) -> Result<Datum, Fault> {
    match bound(e, scope, table) {
        Ok(t) => evaluated(t, row, table),
        Err(f) => Err(f),
    }
}

// --- literals and columns ---

/// A literal is worth what it spells: a numeral of 64 bits its number, a text in quotes the
/// text, `TRUE` and `FALSE` themselves, `NULL` a null.
pub proof fn law_literals(
    v: SqlLiteral,
    scope: Visible,
    row: Seq<Datum>,
    table: Seq<(Question, Answer)>,
)
    ensures
        ({
            let r = worth(SqlExpr::Literal(v), scope, row, table);
            match v {
                SqlLiteral::Number(s) => match int_parsed(s@) {
                    Some(n) if -0x8000_0000_0000_0000 <= n <= 0x7fff_ffff_ffff_ffff => r is Ok
                        && r->Ok_0 is Int64 && r->Ok_0->Int64_0 == n,
                    _ => r is Ok ==> r->Ok_0 is Float64,
                },
                SqlLiteral::Text(s) => r == Ok::<Datum, Fault>(Datum::Text(s@)),
                SqlLiteral::Bool(b) => r == truth(b),
                SqlLiteral::Null => r == Ok::<Datum, Fault>(Datum::Null),
                SqlLiteral::Other(_) => r is Err && r->Err_0 is Unsupported,
            }
        }),
{
    reveal_with_fuel(bound, 2);
    reveal_with_fuel(evaluated, 2);
}

/// Parentheses change nothing.
pub proof fn law_parentheses(
    e: SqlExpr,
    scope: Visible,
    row: Seq<Datum>,
    table: Seq<(Question, Answer)>,
)
    ensures
        worth(SqlExpr::Nested(Box::new(e)), scope, row, table) == worth(e, scope, row, table),
{
    reveal_with_fuel(bound, 2);
}

/// Whether a column is one that a name means: the column has the name, and where the name says
/// a relation, the column is of that relation.
pub open spec fn is_meant(
    c: ColumnModel,
    relation: Option<Seq<char>>,
    name: Seq<char>,
) -> bool {
    c.field.name == name && (relation is Some ==> c.relation == relation)
}

proof fn lemma_counts(
    columns: Seq<ColumnModel>,
    relation: Option<Seq<char>>,
    name: Seq<char>,
    n: nat,
    i: int,
)
    requires
        n <= columns.len(),
        0 <= i < n,
        is_meant(columns[i], relation, name),
        forall|j: int|
            0 <= j < n && j != i ==> !is_meant(#[trigger] columns[j], relation, name),
    ensures
        reference_count(columns, relation, name, n) == 1,
        last_reference(columns, relation, name, n) == Some(i as nat),
    decreases n,
{
    let m = (n - 1) as nat;
    if i < m {
        assert(!is_meant(columns[m as int], relation, name));
        lemma_counts(columns, relation, name, m, i);
    } else {
        lemma_counts_none(columns, relation, name, m);
    }
}

proof fn lemma_counts_none(
    columns: Seq<ColumnModel>,
    relation: Option<Seq<char>>,
    name: Seq<char>,
    n: nat,
)
    requires
        n <= columns.len(),
        forall|j: int| 0 <= j < n ==> !is_meant(#[trigger] columns[j], relation, name),
    ensures
        reference_count(columns, relation, name, n) == 0,
    decreases n,
{
    if n > 0 {
        assert(!is_meant(columns[n - 1], relation, name));
        lemma_counts_none(columns, relation, name, (n - 1) as nat);
    }
}

proof fn lemma_counts_two(
    columns: Seq<ColumnModel>,
    relation: Option<Seq<char>>,
    name: Seq<char>,
    n: nat,
    i: int,
)
    requires
        n <= columns.len(),
        0 <= i < n,
        is_meant(columns[i], relation, name),
    ensures
        reference_count(columns, relation, name, n) >= 1,
        (exists|j: int| 0 <= j < i && is_meant(#[trigger] columns[j], relation, name))
            ==> reference_count(columns, relation, name, n) >= 2,
    decreases n,
{
    let m = (n - 1) as nat;
    if i < m {
        lemma_counts_two(columns, relation, name, m, i);
    } else if exists|j: int| 0 <= j < i && is_meant(#[trigger] columns[j], relation, name) {
        let j = choose|j: int| 0 <= j < i && is_meant(#[trigger] columns[j], relation, name);
        lemma_counts_two(columns, relation, name, m, j);
    }
}

/// A column name is worth the row's value in the one column that it means. A name that means no
/// column, or more than one, is refused.
pub proof fn law_columns(
    columns: Seq<ColumnModel>,
    e: SqlExpr,
    relation: Option<Seq<char>>,
    name: Seq<char>,
    row: Seq<Datum>,
    table: Seq<(Question, Answer)>,
)
    requires
        row.len() == columns.len(),
        match e {
            SqlExpr::Column(n) => relation is None && name == n@,
            SqlExpr::Qualified { parts, .. } => parts@.len() == 2 && relation == Some(parts@[0]@)
                && name == parts@[1]@,
            _ => false,
        },
    ensures
        forall|i: int|
            0 <= i < columns.len() && is_meant(#[trigger] columns[i], relation, name) && (forall|
                j: int,
            |
                0 <= j < columns.len() && j != i ==> !is_meant(
                    #[trigger] columns[j],
                    relation,
                    name,
                )) ==> worth(e, Some(columns), row, table) == Ok::<Datum, Fault>(row[i]),
        (forall|i: int| 0 <= i < columns.len() ==> !is_meant(#[trigger] columns[i], relation, name))
            ==> worth(e, Some(columns), row, table) is Err,
        (exists|i: int, j: int|
            0 <= j < i < columns.len() && is_meant(#[trigger] columns[i], relation, name)
                && is_meant(#[trigger] columns[j], relation, name)) ==> worth(
            e,
            Some(columns),
            row,
            table,
        ) is Err,
        worth(e, None, row, table) is Err,
{
    reveal_with_fuel(bound, 2);
    let r = worth(e, Some(columns), row, table);
    assert(bound(e, Some(columns), table) == column_term(Some(columns), relation, name));
    assert forall|i: int|
        0 <= i < columns.len() && is_meant(#[trigger] columns[i], relation, name) && (forall|
            j: int,
        |
            0 <= j < columns.len() && j != i ==> !is_meant(
                #[trigger] columns[j],
                relation,
                name,
            )) implies r == Ok::<Datum, Fault>(row[i]) by {
        lemma_counts(columns, relation, name, columns.len(), i);
    }
    if forall|i: int| 0 <= i < columns.len() ==> !is_meant(#[trigger] columns[i], relation, name) {
        lemma_counts_none(columns, relation, name, columns.len());
    }
    if exists|i: int, j: int|
        0 <= j < i < columns.len() && is_meant(#[trigger] columns[i], relation, name) && is_meant(
            #[trigger] columns[j],
            relation,
            name,
        ) {
        let (i, j) = choose|i: int, j: int|
            0 <= j < i < columns.len() && is_meant(#[trigger] columns[i], relation, name)
                && is_meant(#[trigger] columns[j], relation, name);
        lemma_counts_two(columns, relation, name, columns.len(), i);
    }
}

// --- operators ---

/// The comparison signs compare: `=`, `<>`, `<`, `<=`, `>` and `>=` of values of a kind that
/// counts are the comparisons of their places.
pub proof fn law_comparison_signs(
    left: SqlExpr,
    right: SqlExpr,
    a: Datum,
    b: Datum,
    scope: Visible,
    row: Seq<Datum>,
    table: Seq<(Question, Answer)>,
)
    requires
        worth(left, scope, row, table) == Ok::<Datum, Fault>(a),
        worth(right, scope, row, table) == Ok::<Datum, Fault>(b),
        of_a_kind(a, b),
    ensures
        ({
            let (x, y) = (place(a)->0, place(b)->0);
            &&& worth(binary(SqlBinaryOp::Eq, left, right), scope, row, table) == truth(x == y)
            &&& worth(binary(SqlBinaryOp::NotEq, left, right), scope, row, table) == truth(x != y)
            &&& worth(binary(SqlBinaryOp::Lt, left, right), scope, row, table) == truth(x < y)
            &&& worth(binary(SqlBinaryOp::LtEq, left, right), scope, row, table) == truth(x <= y)
            &&& worth(binary(SqlBinaryOp::Gt, left, right), scope, row, table) == truth(x > y)
            &&& worth(binary(SqlBinaryOp::GtEq, left, right), scope, row, table) == truth(x >= y)
        }),
{
    let (l, r) = (bound(left, scope, table)->Ok_0, bound(right, scope, table)->Ok_0);
    law_comparisons_count(l, r, a, b, row, table);
    lemma_binary(left, right, scope, row, table);
}

/// A binary expression.
pub open spec fn binary(op: SqlBinaryOp, left: SqlExpr, right: SqlExpr) -> SqlExpr {
    SqlExpr::Binary { op, left: Box::new(left), right: Box::new(right) }
}

proof fn lemma_binary(
    left: SqlExpr,
    right: SqlExpr,
    scope: Visible,
    row: Seq<Datum>,
    table: Seq<(Question, Answer)>,
)
    requires
        bound(left, scope, table) is Ok,
        bound(right, scope, table) is Ok,
    ensures
        ({
            let (l, r) = (bound(left, scope, table)->Ok_0, bound(right, scope, table)->Ok_0);
            &&& worth(binary(SqlBinaryOp::Eq, left, right), scope, row, table) == operated(
                BinaryOperator::Eq,
                l,
                r,
                row,
                table,
            )
            &&& worth(binary(SqlBinaryOp::NotEq, left, right), scope, row, table) == operated(
                BinaryOperator::NotEq,
                l,
                r,
                row,
                table,
            )
            &&& worth(binary(SqlBinaryOp::Lt, left, right), scope, row, table) == operated(
                BinaryOperator::Lt,
                l,
                r,
                row,
                table,
            )
            &&& worth(binary(SqlBinaryOp::LtEq, left, right), scope, row, table) == operated(
                BinaryOperator::LtEq,
                l,
                r,
                row,
                table,
            )
            &&& worth(binary(SqlBinaryOp::Gt, left, right), scope, row, table) == operated(
                BinaryOperator::Gt,
                l,
                r,
                row,
                table,
            )
            &&& worth(binary(SqlBinaryOp::GtEq, left, right), scope, row, table) == operated(
                BinaryOperator::GtEq,
                l,
                r,
                row,
                table,
            )
            &&& worth(binary(SqlBinaryOp::And, left, right), scope, row, table) == operated(
                BinaryOperator::And,
                l,
                r,
                row,
                table,
            )
            &&& worth(binary(SqlBinaryOp::Or, left, right), scope, row, table) == operated(
                BinaryOperator::Or,
                l,
                r,
                row,
                table,
            )
            &&& worth(binary(SqlBinaryOp::Concat, left, right), scope, row, table) == operated(
                BinaryOperator::Concat,
                l,
                r,
                row,
                table,
            )
        }),
{
    reveal_with_fuel(bound, 2);
}

/// `AND` is true where both sides are and false where either is, `OR` true where either side is
/// and false where both are; otherwise they are null.
pub proof fn law_connectives(
    left: SqlExpr,
    right: SqlExpr,
    a: Datum,
    b: Datum,
    scope: Visible,
    row: Seq<Datum>,
    table: Seq<(Question, Answer)>,
)
    requires
        worth(left, scope, row, table) == Ok::<Datum, Fault>(a),
        worth(right, scope, row, table) == Ok::<Datum, Fault>(b),
        is_truth(a),
        is_truth(b),
    ensures
        ({
            let and = worth(binary(SqlBinaryOp::And, left, right), scope, row, table);
            &&& and is Ok && is_truth(and->Ok_0)
            &&& and == truth(true) <==> a == Datum::Bool(true) && b == Datum::Bool(true)
            &&& and == truth(false) <==> a == Datum::Bool(false) || b == Datum::Bool(false)
        }),
        ({
            let or = worth(binary(SqlBinaryOp::Or, left, right), scope, row, table);
            &&& or is Ok && is_truth(or->Ok_0)
            &&& or == truth(true) <==> a == Datum::Bool(true) || b == Datum::Bool(true)
            &&& or == truth(false) <==> a == Datum::Bool(false) && b == Datum::Bool(false)
        }),
{
    let (l, r) = (bound(left, scope, table)->Ok_0, bound(right, scope, table)->Ok_0);
    let and = operated(BinaryOperator::And, l, r, row, table);
    let or = operated(BinaryOperator::Or, l, r, row, table);
    law_truth_tables(l, r, a, b, row, table);
    assert(worth(binary(SqlBinaryOp::And, left, right), scope, row, table) == and && worth(
        binary(SqlBinaryOp::Or, left, right),
        scope,
        row,
        table,
    ) == or) by {
        lemma_binary(left, right, scope, row, table);
    }
}

/// `NOT` swaps true and false, and leaves a null.
pub proof fn law_not(
    e: SqlExpr,
    a: Datum,
    scope: Visible,
    row: Seq<Datum>,
    table: Seq<(Question, Answer)>,
)
    requires
        worth(e, scope, row, table) == Ok::<Datum, Fault>(a),
        is_truth(a),
    ensures
        ({
            let not = worth(
                SqlExpr::Unary { sign: SqlUnaryOp::Not, expr: Box::new(e) },
                scope,
                row,
                table,
            );
            &&& not == truth(true) <==> a == Datum::Bool(false)
            &&& not == truth(false) <==> a == Datum::Bool(true)
            &&& not == Ok::<Datum, Fault>(Datum::Null) <==> a is Null
        }),
{
    let l = bound(e, scope, table)->Ok_0;
    law_truth_tables(l, l, a, a, row, table);
    assert(bound(SqlExpr::Unary { sign: SqlUnaryOp::Not, expr: Box::new(e) }, scope, table) == Ok::<
        Term,
        Fault,
    >(Term::Not(Box::new(l)))) by {
        reveal_with_fuel(bound, 2);
    }
}

/// A minus sign gives the number that sums to zero with its operand.
pub proof fn law_minus(
    e: SqlExpr,
    a: Datum,
    scope: Visible,
    row: Seq<Datum>,
    table: Seq<(Question, Answer)>,
)
    requires
        worth(e, scope, row, table) == Ok::<Datum, Fault>(a),
        number(a) is Some,
    ensures
        ({
            let r = worth(
                SqlExpr::Unary { sign: SqlUnaryOp::Minus, expr: Box::new(e) },
                scope,
                row,
                table,
            );
            r is Ok ==> number(r->Ok_0) is Some && number(r->Ok_0)->0 + number(a)->0 == 0
        }),
{
    law_negation(bound(e, scope, table)->Ok_0, a, row, table);
    reveal_with_fuel(bound, 2);
}

/// `IS NULL` and `IS NOT NULL` tell nulls from values.
pub proof fn law_null_tests(
    e: SqlExpr,
    a: Datum,
    scope: Visible,
    row: Seq<Datum>,
    table: Seq<(Question, Answer)>,
)
    requires
        worth(e, scope, row, table) == Ok::<Datum, Fault>(a),
    ensures
        worth(SqlExpr::IsNull(Box::new(e)), scope, row, table) == truth(a == Datum::Null),
        worth(SqlExpr::IsNotNull(Box::new(e)), scope, row, table) == truth(a != Datum::Null),
{
    law_is_null_tells_nulls(bound(e, scope, table)->Ok_0, a, row, table);
    reveal_with_fuel(bound, 2);
}

// --- ranges and lists ---

/// `BETWEEN` is true exactly of the values from the low bound to the high one, both included,
/// and `NOT BETWEEN` of the others.
pub proof fn law_between(
    e: SqlExpr,
    low: SqlExpr,
    high: SqlExpr,
    a: Datum,
    b: Datum,
    c: Datum,
    negated: bool,
    scope: Visible,
    row: Seq<Datum>,
    table: Seq<(Question, Answer)>,
)
    requires
        worth(e, scope, row, table) == Ok::<Datum, Fault>(a),
        worth(low, scope, row, table) == Ok::<Datum, Fault>(b),
        worth(high, scope, row, table) == Ok::<Datum, Fault>(c),
        of_a_kind(a, b),
        of_a_kind(a, c),
    ensures
        worth(
            SqlExpr::Between {
                expr: Box::new(e),
                negated,
                low: Box::new(low),
                high: Box::new(high),
            },
            scope,
            row,
            table,
        ) == truth((place(b)->0 <= place(a)->0 <= place(c)->0) != negated),
{
    let x = bound(e, scope, table)->Ok_0;
    let l = bound(low, scope, table)->Ok_0;
    let h = bound(high, scope, table)->Ok_0;
    law_comparisons_count(x, l, a, b, row, table);
    law_comparisons_count(x, h, a, c, row, table);
    let (p, q) = (binary_term(BinaryOperator::GtEq, x, l), binary_term(BinaryOperator::LtEq, x, h));
    law_truth_tables(
        p,
        q,
        Datum::Bool(place(a)->0 >= place(b)->0),
        Datum::Bool(place(a)->0 <= place(c)->0),
        row,
        table,
    );
    let t = between_term(x, l, h);
    let both = place(b)->0 <= place(a)->0 <= place(c)->0;
    assert(evaluated(t, row, table) == operated(BinaryOperator::And, p, q, row, table));
    assert(evaluated(t, row, table) == truth(both));
    law_truth_tables(t, t, Datum::Bool(both), Datum::Bool(both), row, table);
    reveal_with_fuel(bound, 2);
}

proof fn lemma_list(
    list: Seq<SqlExpr>,
    n: nat,
    scope: Visible,
    table: Seq<(Question, Answer)>,
)
    requires
        n <= list.len(),
        bound_list(list, n, scope, table) is Ok,
    ensures
        bound_list(list, n, scope, table)->Ok_0.len() == n,
        forall|i: int|
            0 <= i < n ==> bound(list[i], scope, table) == Ok::<Term, Fault>(
                #[trigger] bound_list(list, n, scope, table)->Ok_0[i],
            ),
    decreases n,
{
    if n > 0 {
        lemma_list(list, (n - 1) as nat, scope, table);
        let before = bound_list(list, (n - 1) as nat, scope, table)->Ok_0;
        let ts = bound_list(list, n, scope, table)->Ok_0;
        assert forall|i: int| 0 <= i < n implies bound(list[i], scope, table) == Ok::<Term, Fault>(
            #[trigger] ts[i],
        ) by {
            if i < n - 1 {
                assert(ts[i] == before[i]);
            }
        }
    }
}

proof fn lemma_list_binds(
    list: Seq<SqlExpr>,
    n: nat,
    scope: Visible,
    table: Seq<(Question, Answer)>,
)
    requires
        n <= list.len(),
        forall|i: int| 0 <= i < list.len() ==> bound(#[trigger] list[i], scope, table) is Ok,
    ensures
        bound_list(list, n, scope, table) is Ok,
    decreases n,
{
    if n > 0 {
        lemma_list_binds(list, (n - 1) as nat, scope, table);
        assert(bound(list[n - 1], scope, table) is Ok);
    }
}

/// Whether the comparisons of `x` with some terms all have a truth value.
pub open spec fn all_truths(
    x: Term,
    items: Seq<Term>,
    row: Seq<Datum>,
    table: Seq<(Question, Answer)>,
) -> bool {
    forall|i: int|
        0 <= i < items.len() ==> operated(BinaryOperator::Eq, x, #[trigger] items[i], row, table)
            is Ok && is_truth(operated(BinaryOperator::Eq, x, items[i], row, table)->Ok_0)
}

#[verifier::rlimit(60)]
#[verifier::spinoff_prover]
proof fn lemma_any_equal(
    x: Term,
    items: Seq<Term>,
    row: Seq<Datum>,
    table: Seq<(Question, Answer)>,
)
    requires
        all_truths(x, items, row, table),
    ensures
        ({
            let r = evaluated(any_equal(x, items), row, table);
            &&& r is Ok && is_truth(r->Ok_0)
            &&& r == truth(true) <==> exists|i: int|
                0 <= i < items.len() && operated(
                    BinaryOperator::Eq,
                    x,
                    #[trigger] items[i],
                    row,
                    table,
                ) == truth(true)
            &&& r == truth(false) <==> forall|i: int|
                0 <= i < items.len() ==> operated(
                    BinaryOperator::Eq,
                    x,
                    #[trigger] items[i],
                    row,
                    table,
                ) == truth(false)
        }),
    decreases items.len(),
{
    if items.len() == 0 {
        reveal_with_fuel(evaluated, 2);
    } else if items.len() == 1 {
        let r = evaluated(any_equal(x, items), row, table);
        assert(r == operated(BinaryOperator::Eq, x, items[0], row, table));
        if r == truth(false) {
            assert forall|i: int| 0 <= i < items.len() implies operated(
                BinaryOperator::Eq,
                x,
                #[trigger] items[i],
                row,
                table,
            ) == truth(false) by {
                assert(i == 0);
            }
        }
    } else {
        let before = items.drop_last();
        let n = items.len() - 1;
        assert forall|i: int| 0 <= i < before.len() implies operated(
            BinaryOperator::Eq,
            x,
            #[trigger] before[i],
            row,
            table,
        ) is Ok && is_truth(operated(BinaryOperator::Eq, x, before[i], row, table)->Ok_0) by {
            assert(before[i] == items[i]);
        }
        lemma_any_equal(x, before, row, table);
        assert(items.last() == items[n]);
        let p = any_equal(x, before);
        let q = binary_term(BinaryOperator::Eq, x, items.last());
        let a = evaluated(p, row, table)->Ok_0;
        let b = evaluated(q, row, table)->Ok_0;
        assert(evaluated(q, row, table) == operated(BinaryOperator::Eq, x, items[n], row, table));
        law_truth_tables(p, q, a, b, row, table);
        let r = evaluated(any_equal(x, items), row, table);
        assert(r == operated(BinaryOperator::Or, p, q, row, table));
        if r == truth(true) {
            if a == Datum::Bool(true) {
                let i = choose|i: int|
                    0 <= i < before.len() && operated(
                        BinaryOperator::Eq,
                        x,
                        #[trigger] before[i],
                        row,
                        table,
                    ) == truth(true);
                assert(items[i] == before[i]);
            } else {
                assert(operated(BinaryOperator::Eq, x, items[n], row, table) == truth(true));
            }
        }
        if exists|i: int|
            0 <= i < items.len() && operated(BinaryOperator::Eq, x, #[trigger] items[i], row, table)
                == truth(true) {
            let i = choose|i: int|
                0 <= i < items.len() && operated(
                    BinaryOperator::Eq,
                    x,
                    #[trigger] items[i],
                    row,
                    table,
                ) == truth(true);
            if i < n {
                assert(before[i] == items[i]);
            }
        }
        if r == truth(false) {
            assert forall|i: int| 0 <= i < items.len() implies operated(
                BinaryOperator::Eq,
                x,
                #[trigger] items[i],
                row,
                table,
            ) == truth(false) by {
                if i < n {
                    assert(before[i] == items[i]);
                }
            }
        }
        if forall|i: int|
            0 <= i < items.len() ==> operated(
                BinaryOperator::Eq,
                x,
                #[trigger] items[i],
                row,
                table,
            ) == truth(false) {
            assert forall|i: int| 0 <= i < before.len() implies operated(
                BinaryOperator::Eq,
                x,
                #[trigger] before[i],
                row,
                table,
            ) == truth(false) by {
                assert(before[i] == items[i]);
            }
            assert(operated(BinaryOperator::Eq, x, items[n], row, table) == truth(false));
        }
    }
}

/// `IN` is true where the value equals one of the list, false where it equals none of them,
/// and otherwise null: where it equals none, but a comparison with one is null. `NOT IN` is its
/// negation. Of an empty list `IN` is false.
pub proof fn law_in_list(
    e: SqlExpr,
    list: Vec<SqlExpr>,
    scope: Visible,
    row: Seq<Datum>,
    table: Seq<(Question, Answer)>,
)
    requires
        bound(e, scope, table) is Ok,
        forall|i: int| 0 <= i < list@.len() ==> bound(#[trigger] list@[i], scope, table) is Ok,
        forall|i: int|
            0 <= i < list@.len() ==> {
                let r = worth(binary(SqlBinaryOp::Eq, e, #[trigger] list@[i]), scope, row, table);
                r is Ok && is_truth(r->Ok_0)
            },
    ensures
        ({
            let r = worth(
                SqlExpr::InList { expr: Box::new(e), list, negated: false },
                scope,
                row,
                table,
            );
            let not = worth(
                SqlExpr::InList { expr: Box::new(e), list, negated: true },
                scope,
                row,
                table,
            );
            &&& r is Ok && is_truth(r->Ok_0)
            &&& r == truth(true) <==> exists|i: int|
                0 <= i < list@.len() && worth(
                    binary(SqlBinaryOp::Eq, e, #[trigger] list@[i]),
                    scope,
                    row,
                    table,
                ) == truth(true)
            &&& r == truth(false) <==> forall|i: int|
                0 <= i < list@.len() ==> worth(
                    binary(SqlBinaryOp::Eq, e, #[trigger] list@[i]),
                    scope,
                    row,
                    table,
                ) == truth(false)
            &&& not == truth(true) <==> r == truth(false)
            &&& not == truth(false) <==> r == truth(true)
        }),
{
    lemma_list_binds(list@, list@.len(), scope, table);
    lemma_list(list@, list@.len(), scope, table);
    let x = bound(e, scope, table)->Ok_0;
    let items = bound_list(list@, list@.len(), scope, table)->Ok_0;
    assert forall|i: int| 0 <= i < items.len() implies operated(
        BinaryOperator::Eq,
        x,
        #[trigger] items[i],
        row,
        table,
    ) == worth(binary(SqlBinaryOp::Eq, e, list@[i]), scope, row, table) by {
        assert(bound(list@[i], scope, table) == Ok::<Term, Fault>(items[i]));
        lemma_binary(e, list@[i], scope, row, table);
    }
    assert(all_truths(x, items, row, table)) by {
        assert forall|i: int| 0 <= i < items.len() implies operated(
            BinaryOperator::Eq,
            x,
            #[trigger] items[i],
            row,
            table,
        ) is Ok && is_truth(operated(BinaryOperator::Eq, x, items[i], row, table)->Ok_0) by {
            let e_i = list@[i];
            assert(worth(binary(SqlBinaryOp::Eq, e, e_i), scope, row, table) is Ok);
        }
    }
    lemma_any_equal(x, items, row, table);
    let t = any_equal(x, items);
    let r = evaluated(t, row, table);
    law_truth_tables(t, t, r->Ok_0, r->Ok_0, row, table);
    assert(bound(
        SqlExpr::InList { expr: Box::new(e), list, negated: false },
        scope,
        table,
    ) == Ok::<Term, Fault>(t)) by {
        reveal_with_fuel(bound, 2);
    }
    assert(bound(SqlExpr::InList { expr: Box::new(e), list, negated: true }, scope, table) == Ok::<
        Term,
        Fault,
    >(Term::Not(Box::new(t)))) by {
        reveal_with_fuel(bound, 2);
    }
    if exists|i: int|
        0 <= i < items.len() && operated(BinaryOperator::Eq, x, #[trigger] items[i], row, table)
            == truth(true) {
        let i = choose|i: int|
            0 <= i < items.len() && operated(BinaryOperator::Eq, x, #[trigger] items[i], row, table)
                == truth(true);
        assert(worth(binary(SqlBinaryOp::Eq, e, list@[i]), scope, row, table) == truth(true));
    }
    if exists|i: int|
        0 <= i < list@.len() && worth(
            binary(SqlBinaryOp::Eq, e, #[trigger] list@[i]),
            scope,
            row,
            table,
        ) == truth(true) {
        let i = choose|i: int|
            0 <= i < list@.len() && worth(
                binary(SqlBinaryOp::Eq, e, #[trigger] list@[i]),
                scope,
                row,
                table,
            ) == truth(true);
        assert(operated(BinaryOperator::Eq, x, items[i], row, table) == truth(true));
    }
    if r == truth(false) {
        assert forall|i: int| 0 <= i < list@.len() implies worth(
            binary(SqlBinaryOp::Eq, e, #[trigger] list@[i]),
            scope,
            row,
            table,
        ) == truth(false) by {
            assert(operated(BinaryOperator::Eq, x, items[i], row, table) == truth(false));
        }
    }
    if forall|i: int|
        0 <= i < list@.len() ==> worth(
            binary(SqlBinaryOp::Eq, e, #[trigger] list@[i]),
            scope,
            row,
            table,
        ) == truth(false) {
        assert forall|i: int| 0 <= i < items.len() implies operated(
            BinaryOperator::Eq,
            x,
            #[trigger] items[i],
            row,
            table,
        ) == truth(false) by {
            let e_i = list@[i];
            assert(worth(binary(SqlBinaryOp::Eq, e, e_i), scope, row, table) == truth(false));
        }
    }
}

/// `LIKE` tells whether a text matches a pattern, and `NOT LIKE` whether it does not.
pub proof fn law_like(
    e: SqlExpr,
    pattern: SqlExpr,
    t: Seq<char>,
    p: Seq<char>,
    negated: bool,
    scope: Visible,
    row: Seq<Datum>,
    table: Seq<(Question, Answer)>,
)
    requires
        worth(e, scope, row, table) == Ok::<Datum, Fault>(Datum::Text(t)),
        worth(pattern, scope, row, table) == Ok::<Datum, Fault>(Datum::Text(p)),
    ensures
        worth(
            SqlExpr::Like {
                expr: Box::new(e),
                pattern: Box::new(pattern),
                negated,
                any: false,
                escape: false,
            },
            scope,
            row,
            table,
        ) == truth(like(t, p) != negated),
{
    law_like_and_not_like(
        bound(e, scope, table)->Ok_0,
        bound(pattern, scope, table)->Ok_0,
        t,
        p,
        row,
        table,
    );
    reveal_with_fuel(bound, 2);
}

// --- choices ---

/// Whether a bound branch is that of a written one.
spec fn branch_of(
    branch: (SqlExpr, SqlExpr),
    b: (Term, Term),
    operand: Option<Term>,
    scope: Visible,
    table: Seq<(Question, Answer)>,
) -> bool {
    &&& bound(branch.0, scope, table) is Ok
    &&& bound(branch.1, scope, table) == Ok::<Term, Fault>(b.1)
    &&& b.0 == match operand {
        Some(op) => binary_term(BinaryOperator::Eq, op, bound(branch.0, scope, table)->Ok_0),
        None => bound(branch.0, scope, table)->Ok_0,
    }
}

proof fn lemma_branches(
    branches: Seq<(SqlExpr, SqlExpr)>,
    n: nat,
    operand: Option<Term>,
    scope: Visible,
    table: Seq<(Question, Answer)>,
)
    requires
        n <= branches.len(),
        bound_branches(branches, n, operand, scope, table) is Ok,
    ensures
        ({
            let bs = bound_branches(branches, n, operand, scope, table)->Ok_0;
            &&& bs.len() == n
            &&& forall|i: int|
                0 <= i < n ==> branch_of(branches[i], #[trigger] bs[i], operand, scope, table)
        }),
    decreases n,
{
    if n > 0 {
        let m = (n - 1) as nat;
        lemma_branches(branches, m, operand, scope, table);
        let before = bound_branches(branches, m, operand, scope, table)->Ok_0;
        let bs = bound_branches(branches, n, operand, scope, table)->Ok_0;
        assert(branch_of(branches[m as int], bs[m as int], operand, scope, table));
        assert forall|i: int| 0 <= i < n implies branch_of(
            branches[i],
            #[trigger] bs[i],
            operand,
            scope,
            table,
        ) by {
            if i < m {
                assert(bs[i] == before[i]);
            }
        }
    }
}

/// The operand of a `CASE`, bound.
spec fn bound_operand(
    operand: Option<Box<SqlExpr>>,
    scope: Visible,
    table: Seq<(Question, Answer)>,
) -> Option<Term> {
    match operand {
        Some(x) => Some(bound(*x, scope, table)->Ok_0),
        None => None,
    }
}

proof fn lemma_case(
    operand: Option<Box<SqlExpr>>,
    branches: Vec<(SqlExpr, SqlExpr)>,
    else_result: Option<Box<SqlExpr>>,
    scope: Visible,
    table: Seq<(Question, Answer)>,
)
    requires
        bound(SqlExpr::Case { operand, branches, else_result }, scope, table) is Ok,
    ensures
        operand is Some ==> bound(*operand->0, scope, table) is Ok,
        else_result is Some ==> bound(*else_result->0, scope, table) is Ok,
        ({
            let op = bound_operand(operand, scope, table);
            let bs = bound_branches(branches@, branches@.len(), op, scope, table);
            let alt = match else_result {
                Some(x) => Some(Box::new(bound(*x, scope, table)->Ok_0)),
                None => None,
            };
            &&& bs is Ok
            &&& bound(SqlExpr::Case { operand, branches, else_result }, scope, table) == Ok::<
                Term,
                Fault,
            >(Term::Case(bs->Ok_0, alt))
        }),
{
    reveal_with_fuel(bound, 2);
}

/// What the `i`th condition of a `CASE` is worth: with an operand, whether the operand equals
/// the branch's value.
pub open spec fn condition(
    operand: Option<Box<SqlExpr>>,
    branch: SqlExpr,
    scope: Visible,
    row: Seq<Datum>,
    table: Seq<(Question, Answer)>,
) -> Result<Datum, Fault> {
    match operand {
        None => worth(branch, scope, row, table),
        Some(op) => worth(binary(SqlBinaryOp::Eq, *op, branch), scope, row, table),
    }
}

/// `CASE` is worth the result of its first branch whose condition is true; where no condition
/// is, the `ELSE` result, or a null where there is none. With an operand, a branch's condition
/// is that the operand equals its value.
pub proof fn law_case_chooses(
    operand: Option<Box<SqlExpr>>,
    branches: Vec<(SqlExpr, SqlExpr)>,
    else_result: Option<Box<SqlExpr>>,
    i: int,
    scope: Visible,
    row: Seq<Datum>,
    table: Seq<(Question, Answer)>,
)
    requires
        bound(SqlExpr::Case { operand, branches, else_result }, scope, table) is Ok,
        0 <= i <= branches@.len(),
        forall|j: int|
            0 <= j < i ==> {
                let c = condition(operand, (#[trigger] branches@[j]).0, scope, row, table);
                c is Ok && c != truth(true)
            },
        i < branches@.len() ==> condition(operand, branches@[i].0, scope, row, table) == truth(
            true,
        ),
    ensures
        ({
            let r = worth(SqlExpr::Case { operand, branches, else_result }, scope, row, table);
            &&& i < branches@.len() ==> r == worth(branches@[i].1, scope, row, table)
            &&& i == branches@.len() && else_result is Some ==> r == worth(
                *else_result->0,
                scope,
                row,
                table,
            )
            &&& i == branches@.len() && else_result is None ==> r == Ok::<Datum, Fault>(Datum::Null)
        }),
{
    lemma_case(operand, branches, else_result, scope, table);
    let op = bound_operand(operand, scope, table);
    lemma_branches(branches@, branches@.len(), op, scope, table);
    let bs = bound_branches(branches@, branches@.len(), op, scope, table)->Ok_0;
    assert forall|j: int| 0 <= j < bs.len() implies evaluated((#[trigger] bs[j]).0, row, table)
        == condition(operand, branches@[j].0, scope, row, table) by {
        assert(branch_of(branches@[j], bs[j], op, scope, table));
        if let Some(x) = operand {
            lemma_binary(*x, branches@[j].0, scope, row, table);
        }
    }
    assert(none_true(bs, i, row, table)) by {
        assert forall|j: int| 0 <= j < i implies evaluated((#[trigger] bs[j]).0, row, table) is Ok
            && evaluated(bs[j].0, row, table) != truth(true) by {
            let b = branches@[j];
            assert(condition(operand, b.0, scope, row, table) is Ok);
        }
    }
    let alt = match else_result {
        Some(x) => Some(Box::new(bound(*x, scope, table)->Ok_0)),
        None => None,
    };
    if i < bs.len() {
        assert(branch_of(branches@[i], bs[i], op, scope, table));
        assert(evaluated(bs[i].0, row, table) == truth(true));
    }
    law_case(bs, alt, i, row, table);
}

// --- text ---

/// `SUBSTRING` without `FROM` starts at the first character, and without `FOR` goes on to the
/// last. `from` is how many characters stand before the cut.
pub proof fn law_substring_defaults(
    e: SqlExpr,
    from: Option<Box<SqlExpr>>,
    length: Option<Box<SqlExpr>>,
    s: Seq<char>,
    a: Datum,
    n: Datum,
    scope: Visible,
    row: Seq<Datum>,
    table: Seq<(Question, Answer)>,
) -> (at: int)
    requires
        worth(e, scope, row, table) == Ok::<Datum, Fault>(Datum::Text(s)),
        match from {
            Some(x) => worth(*x, scope, row, table) == Ok::<Datum, Fault>(a),
            None => a == Datum::Int64(1),
        },
        match length {
            Some(x) => worth(*x, scope, row, table) == Ok::<Datum, Fault>(n),
            None => n == Datum::Int64(i64::MAX),
        },
        number(a) is Some,
        number(n) is Some,
    ensures
        ({
            let r = worth(
                SqlExpr::Substring { expr: Box::new(e), from, length },
                scope,
                row,
                table,
            );
            &&& r is Ok && r->Ok_0 is Text
            &&& is_cut(s, r->Ok_0->Text_0, number(a)->0, number(n)->0, at)
        }),
{
    let t = bound(e, scope, table)->Ok_0;
    let x = match from {
        Some(y) => bound(*y, scope, table)->Ok_0,
        None => Term::Literal(Datum::Int64(1)),
    };
    let y = match length {
        Some(z) => bound(*z, scope, table)->Ok_0,
        None => Term::Literal(Datum::Int64(i64::MAX)),
    };
    let args = seq![t, x, y];
    assert(args[0] == t && args[1] == x && args[2] == y);
    assert(bound(SqlExpr::Substring { expr: Box::new(e), from, length }, scope, table) == Ok::<
        Term,
        Fault,
    >(Term::Call(ScalarFunc::Substr, args))) by {
        reveal_with_fuel(bound, 2);
    }
    assert(evaluated(Term::Literal(Datum::Int64(1)), row, table) == Ok::<Datum, Fault>(
        Datum::Int64(1),
    ));
    assert(evaluated(Term::Literal(Datum::Int64(i64::MAX)), row, table) == Ok::<Datum, Fault>(
        Datum::Int64(i64::MAX),
    ));
    law_substring(args, s, a, n, row, table)
}

/// `TRIM` takes off the characters that it names, or spaces where it names none: from both ends
/// or from the one that it says. `ends` are where what is left begins and ends.
pub proof fn law_trim_sides(
    e: SqlExpr,
    side: Option<TrimSide>,
    what: Option<Box<SqlExpr>>,
    s: Seq<char>,
    set: Seq<char>,
    scope: Visible,
    row: Seq<Datum>,
    table: Seq<(Question, Answer)>,
) -> (ends: (int, int))
    requires
        worth(e, scope, row, table) == Ok::<Datum, Fault>(Datum::Text(s)),
        match what {
            Some(x) => worth(*x, scope, row, table) == Ok::<Datum, Fault>(Datum::Text(set)),
            None => set == " "@,
        },
    ensures
        ({
            let r = worth(
                SqlExpr::Trim { expr: Box::new(e), side, what, listed: false },
                scope,
                row,
                table,
            );
            &&& r is Ok && r->Ok_0 is Text
            &&& is_trimmed(
                s,
                r->Ok_0->Text_0,
                set,
                side != Some(TrimSide::Trailing),
                side != Some(TrimSide::Leading),
                ends.0,
                ends.1,
            )
        }),
{
    let t = bound(e, scope, table)->Ok_0;
    let c = match what {
        Some(x) => bound(*x, scope, table)->Ok_0,
        None => Term::Literal(Datum::Text(" "@)),
    };
    let args = seq![t, c];
    let func = match side {
        Some(TrimSide::Leading) => ScalarFunc::TrimLeading,
        Some(TrimSide::Trailing) => ScalarFunc::TrimTrailing,
        _ => ScalarFunc::TrimBoth,
    };
    assert(args[0] == t && args[1] == c);
    assert(bound(
        SqlExpr::Trim { expr: Box::new(e), side, what, listed: false },
        scope,
        table,
    ) == Ok::<Term, Fault>(Term::Call(func, args))) by {
        reveal_with_fuel(bound, 2);
    }
    assert(evaluated(Term::Literal(Datum::Text(" "@)), row, table) == Ok::<Datum, Fault>(
        Datum::Text(" "@),
    ));
    law_trim(func, args, s, set, row, table)
}

/// `CEIL` rounds up and `FLOOR` down: they are calls of those functions.
pub proof fn law_ceil_and_floor(
    e: SqlExpr,
    scope: Visible,
    row: Seq<Datum>,
    table: Seq<(Question, Answer)>,
)
    requires
        bound(e, scope, table) is Ok,
    ensures
        worth(SqlExpr::Ceil { expr: Box::new(e), to: SqlRounding::Whole }, scope, row, table)
            == called(ScalarFunc::Ceil, seq![bound(e, scope, table)->Ok_0], row, table),
        worth(SqlExpr::Floor { expr: Box::new(e), to: SqlRounding::Whole }, scope, row, table)
            == called(ScalarFunc::Floor, seq![bound(e, scope, table)->Ok_0], row, table),
{
    reveal_with_fuel(bound, 2);
}

/// A cast converts the value of its operand to the type that it names.
pub proof fn law_casts(
    e: SqlExpr,
    ty: SqlType,
    a: Datum,
    scope: Visible,
    row: Seq<Datum>,
    table: Seq<(Question, Answer)>,
)
    requires
        worth(e, scope, row, table) == Ok::<Datum, Fault>(a),
    ensures
        match mapped_type(ty) {
            Some(t) => worth(SqlExpr::Cast { expr: Box::new(e), ty }, scope, row, table)
                == cast_value(a, t, table),
            None => worth(SqlExpr::Cast { expr: Box::new(e), ty }, scope, row, table) is Err,
        },
{
    if let Some(t) = mapped_type(ty) {
        law_casts_apply_to_values(bound(e, scope, table)->Ok_0, a, t, row, table);
    }
    reveal_with_fuel(bound, 2);
}

} // verus!
