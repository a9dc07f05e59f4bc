//! The join algorithms agree: hashing and merging find the rows that the nested loop finds.

use vstd::prelude::*;

use super::keys::{
    canonical, compared_by_value, equi_columns, join_key, key_matching, kind_byte,
};
use super::merge::{key_order, keys_at, merge_matching, mergeable, not_after, orderly, sorted_on};
use super::model::{joined, law_joins_agree_where_matchings_do, pairs, JoinType};
use super::nested_loop::{all_decided, hit, matching};
use crate::query::error::Fault;
use crate::query::expression::compare::{int_of, values_order, values_same};
use crate::query::expression::eval::{binary_value, evaluated};
use crate::query::expression::{BinaryOperator, Term};
use crate::query::host::{Answer, Question};
use crate::query::volcano::rows::Row;
use crate::query::volcano::sort::{
    arranged, comes_before, key_lt, key_part, key_parts, sorts, KeyBytes, SortTerm,
};
use crate::storage::bytes::{lemma_lex_total, lemma_lex_transitive, lex_lt};
use crate::storage::codec::key_of;
use crate::storage::codec::order::{law_key_order, same_kind};
use crate::storage::decimal::{pow10, DecimalParts, Order};
use crate::storage::float::law_widening_keeps_the_order;
use crate::storage::types::Datum;

verus! {

/// Whether a datum is a scalar: no null and no array, and a decimal within its range.
pub open spec fn scalar(d: Datum) -> bool {
    match d {
        Datum::Null => false,
        Datum::Array(_) => false,
        Datum::Numeric(p) => p.in_range(),
        _ => true,
    }
}

/// Whether two keys can be told apart by their bytes as `=` tells them apart: one is null, or
/// both are scalars that need no comparison by value.
pub open spec fn hashable(a: Datum, b: Datum) -> bool {
    a is Null || b is Null || (scalar(a) && scalar(b) && !compared_by_value(a, b))
}

/// Whether two keys can be ordered by the bytes of their canonical forms as `<` orders them:
/// one is null, or both are exact numbers, both floats, or both of one other type with a `<`;
/// `Json`, `Bytes`, `Time` and `Uuid` have none.
pub open spec fn sortable(a: Datum, b: Datum) -> bool {
    a is Null || b is Null || (scalar(a) && scalar(b) && match (canonical(a), canonical(b)) {
        (Datum::Numeric(_), Datum::Numeric(_)) => true,
        (Datum::Float64(_), Datum::Float64(_)) => true,
        (Datum::Bool(_), Datum::Bool(_)) => true,
        (Datum::Text(_), Datum::Text(_)) => true,
        (Datum::Date(_), Datum::Date(_)) => true,
        (Datum::Timestamp(_), Datum::Timestamp(_)) => true,
        (Datum::Interval(_), Datum::Interval(_)) => true,
        _ => false,
    })
}

/// The predicate `left column = right column` over `left ++ right`.
pub open spec fn key_equality(left_key: nat, right_key: nat, left_width: nat) -> Term {
    Term::Binary(
        BinaryOperator::Eq,
        Box::new(Term::Column(left_key)),
        Box::new(Term::Column(left_width + right_key)),
    )
}

/// Two integers order as decimals as they do as integers.
proof fn lemma_whole_numbers(m: int, n: int)
    ensures
        DecimalParts::whole(m).less(DecimalParts::whole(n)) <==> m < n,
        DecimalParts::whole(m).same(DecimalParts::whole(n)) <==> m == n,
{
    assert(pow10(0) == 1);
    assert(m * pow10(0) == m) by (nonlinear_arith)
        requires
            pow10(0) == 1,
    ;
    assert(n * pow10(0) == n) by (nonlinear_arith)
        requires
            pow10(0) == 1,
    ;
    assert(DecimalParts::whole(m).signed() == m && DecimalParts::whole(n).signed() == n);
}

/// Two scalars are equal exactly where their join keys are, whatever their types, unless they
/// have to be compared by value: no bytes could do for those, since both 9007199254740992 and
/// 9007199254740993 equal the float of the first.
pub proof fn law_equality_is_by_key_bytes(a: Datum, b: Datum, table: Seq<(Question, Answer)>)
    requires
        hashable(a, b),
        !(a is Null),
        !(b is Null),
    ensures
        join_key(a) is Ok && join_key(a)->Ok_0 is Some,
        join_key(b) is Ok && join_key(b)->Ok_0 is Some,
        values_same(a, b, table) == Ok::<bool, Fault>(join_key(a) == join_key(b)),
{
    reveal(join_key);
    let (x, y) = (canonical(a), canonical(b));
    assert(same_kind(x, x) && same_kind(y, y));
    law_key_order(x, x);
    law_key_order(y, y);
    let (k, l) = (key_of(x)->0, key_of(y)->0);
    let (s, t) = (seq![kind_byte(a)] + k, seq![kind_byte(b)] + l);
    assert(s[0] == kind_byte(a) && t[0] == kind_byte(b));
    assert(s.skip(1) =~= k && t.skip(1) =~= l);
    assert((s == t) == (kind_byte(a) == kind_byte(b) && k == l));
    if kind_byte(a) == kind_byte(b) {
        assert(same_kind(x, y));
        law_key_order(x, y);
        if let (Some(m), Some(n)) = (int_of(a), int_of(b)) {
            lemma_whole_numbers(m as int, n as int);
        }
    }
}

/// Two keys with an order compare as the bytes of their canonical forms do.
pub proof fn law_order_is_by_key_bytes(a: Datum, b: Datum, table: Seq<(Question, Answer)>)
    requires
        sortable(a, b),
        !(a is Null),
        !(b is Null),
    ensures
        key_of(canonical(a)) is Some,
        key_of(canonical(b)) is Some,
        values_order(a, b, table) == Ok::<Order, Fault>(
            if lex_lt(key_of(canonical(a))->0, key_of(canonical(b))->0) {
                Order::Less
            } else if key_of(canonical(a))->0 == key_of(canonical(b))->0 {
                Order::Same
            } else {
                Order::Greater
            },
        ),
{
    let (x, y) = (canonical(a), canonical(b));
    assert(same_kind(x, y));
    law_key_order(x, y);
    if let (Some(m), Some(n)) = (int_of(a), int_of(b)) {
        lemma_whole_numbers(m as int, n as int);
    }
}

/// Within one type the keys that a sort goes by have the order of the values.
proof fn lemma_sort_bytes(a: Datum, b: Datum, table: Seq<(Question, Answer)>)
    requires
        same_kind(a, b),
        sortable(a, b),
    ensures
        key_of(a) is Some,
        key_of(b) is Some,
        lex_lt(key_of(a)->0, key_of(b)->0) || key_of(a)->0 == key_of(b)->0 ==> values_order(
            a,
            b,
            table,
        ) == Ok::<Order, Fault>(Order::Less) || values_order(a, b, table) == Ok::<Order, Fault>(
            Order::Same,
        ),
{
    law_key_order(a, b);
    if let (Datum::Float32(f), Datum::Float32(g)) = (a, b) {
        law_widening_keeps_the_order(f, g);
    }
}

/// Keys with an order are of one kind, so the rest of their bytes tells them apart.
proof fn lemma_keys_of_one_order(a: Datum, b: Datum)
    requires
        sortable(a, b),
        !(a is Null),
        !(b is Null),
        key_of(canonical(a)) is Some,
        key_of(canonical(b)) is Some,
    ensures
        (join_key(a) == join_key(b)) == (key_of(canonical(a))->0 == key_of(canonical(b))->0),
{
    reveal(join_key);
    let (k, l) = (key_of(canonical(a))->0, key_of(canonical(b))->0);
    let (s, t) = (seq![kind_byte(a)] + k, seq![kind_byte(b)] + l);
    assert(kind_byte(a) == kind_byte(b));
    assert(s.skip(1) =~= k && t.skip(1) =~= l);
}

/// The nested loop on `left column = right column` has a value for this pair, and matches it
/// exactly where the key bytes are the same.
proof fn lemma_pair_agrees(
    l: Row,
    r: Row,
    left_key: nat,
    right_key: nat,
    table: Seq<(Question, Answer)>,
)
    requires
        left_key < l.len(),
        right_key < r.len(),
        hashable(l[left_key as int], r[right_key as int]),
    ensures
        hit(Some(key_equality(left_key, right_key, l.len())), l, r, table) == Ok::<bool, Fault>(
            key_matching(left_key, right_key)(l, r),
        ),
{
    let on = key_equality(left_key, right_key, l.len());
    let (a, b) = (l[left_key as int], r[right_key as int]);
    let row = l + r;
    reveal_with_fuel(evaluated, 2);
    reveal(join_key);
    assert(row[left_key as int] == a);
    assert(row[(l.len() + right_key) as int] == b);
    assert(evaluated(on, row, table) == binary_value(BinaryOperator::Eq, a, b, table));
    if !(a is Null) && !(b is Null) {
        law_equality_is_by_key_bytes(a, b, table);
    }
}

/// Hashing finds the nested loop's rows: where all left rows have one width and every pair of
/// keys can be told apart by its bytes, the join on equal key bytes is the join on
/// `left column = right column`, which has a value on every pair.
pub proof fn law_hash_join_is_the_nested_loop_join(
    left: Seq<Row>,
    right: Seq<Row>,
    left_key: nat,
    right_key: nat,
    jt: JoinType,
    left_width: nat,
    right_width: nat,
    table: Seq<(Question, Answer)>,
)
    requires
        left_key < left_width,
        forall|i: int| 0 <= i < left.len() ==> (#[trigger] left[i]).len() == left_width,
        forall|j: int| 0 <= j < right.len() ==> right_key < (#[trigger] right[j]).len(),
        forall|i: int, j: int|
            0 <= i < left.len() && 0 <= j < right.len() ==> hashable(
                (#[trigger] left[i])[left_key as int],
                (#[trigger] right[j])[right_key as int],
            ),
    ensures
        equi_columns(Some(key_equality(left_key, right_key, left_width)), left_width) == Some(
            (left_key, right_key),
        ),
        all_decided(left, right, Some(key_equality(left_key, right_key, left_width)), table),
        joined(
            left,
            right,
            key_matching(left_key, right_key),
            jt,
            left_width,
            right_width,
        ) == joined(
            left,
            right,
            matching(Some(key_equality(left_key, right_key, left_width)), table),
            jt,
            left_width,
            right_width,
        ),
{
    let on = Some(key_equality(left_key, right_key, left_width));
    let k = key_matching(left_key, right_key);
    let m = matching(on, table);
    assert forall|i: int, j: int| 0 <= i < left.len() && 0 <= j < right.len() implies #[trigger] hit(
        on,
        left[i],
        right[j],
        table,
    ) == Ok::<bool, Fault>(k(left[i], right[j])) by {
        lemma_pair_agrees(left[i], right[j], left_key, right_key, table);
    }
    assert forall|i: int, j: int| 0 <= i < left.len() && 0 <= j < right.len() implies #[trigger] k(
        left[i],
        right[j],
    ) == m(left[i], right[j]) by {
        assert(hit(on, left[i], right[j], table) == Ok::<bool, Fault>(k(left[i], right[j])));
    }
    law_joins_agree_where_matchings_do(left, right, k, m, jt, left_width, right_width);
}

/// Keys that can be ordered pair by pair are ordered as a whole: a merge may rely on them.
pub proof fn law_sortable_keys_are_orderly(ks: Seq<Datum>, table: Seq<(Question, Answer)>)
    requires
        forall|i: int, j: int|
            0 <= i < ks.len() && 0 <= j < ks.len() ==> sortable(
                #[trigger] ks[i],
                #[trigger] ks[j],
            ),
    ensures
        orderly(ks, table),
{
    reveal(key_order);
    assert forall|i: int, j: int|
        0 <= i < ks.len() && 0 <= j < ks.len() && !(ks[i] is Null) && !(ks[j] is Null) implies (
    #[trigger] key_order(ks[i], ks[j], table)) is Ok && key_order(ks[j], ks[i], table) == Ok::<
        Order,
        Fault,
    >(key_order(ks[i], ks[j], table)->Ok_0.flipped()) by {
        law_order_is_by_key_bytes(ks[i], ks[j], table);
        law_order_is_by_key_bytes(ks[j], ks[i], table);
        lemma_lex_total(key_of(canonical(ks[i]))->0, key_of(canonical(ks[j]))->0);
    }
    assert forall|i: int, j: int, k: int|
        0 <= i < ks.len() && 0 <= j < ks.len() && 0 <= k < ks.len() && !(ks[i] is Null) && !(
        ks[j] is Null) && !(ks[k] is Null) && #[trigger] not_after(ks[i], ks[j], table)
            && #[trigger] not_after(ks[j], ks[k], table) implies not_after(ks[i], ks[k], table) by {
        law_order_is_by_key_bytes(ks[i], ks[j], table);
        law_order_is_by_key_bytes(ks[j], ks[k], table);
        law_order_is_by_key_bytes(ks[i], ks[k], table);
        let (a, b, c) = (
            key_of(canonical(ks[i]))->0,
            key_of(canonical(ks[j]))->0,
            key_of(canonical(ks[k]))->0,
        );
        if lex_lt(a, b) && lex_lt(b, c) {
            lemma_lex_transitive(a, b, c);
        }
    }
}

/// Whether two keys have an order and are of one type, but for nulls.
pub open spec fn one_kind(a: Datum, b: Datum) -> bool {
    sortable(a, b) && (a is Null || b is Null || same_kind(a, b))
}

/// A key that sorts by one column, ascending, nulls last.
pub open spec fn column_order(column: nat) -> Seq<SortTerm> {
    seq![SortTerm { expr: Term::Column(column), ascending: true, nulls_first: false }]
}

/// The single part of a sort key by one column.
proof fn lemma_column_key(row: Row, column: nat, table: Seq<(Question, Answer)>)
    requires
        column < row.len(),
        key_parts(row, column_order(column), 1, table) is Ok,
    ensures
        key_parts(row, column_order(column), 1, table)->Ok_0.len() == 1,
        Ok::<Seq<u8>, Fault>(key_parts(row, column_order(column), 1, table)->Ok_0[0]) == key_part(
            row[column as int],
            true,
            false,
        ),
{
    let keys = column_order(column);
    reveal_with_fuel(key_parts, 2);
    assert(key_parts(row, keys, 0, table) == Ok::<KeyBytes, Fault>(Seq::empty()));
    assert(keys[0].expr == Term::Column(column));
    assert(evaluated(keys[0].expr, row, table) == Ok::<Datum, Fault>(row[column as int]));
}

/// Sorting by a column of one type with a `<` leaves the rows sorted on it, as a merge wants
/// them: `p` is the order that the sort found for the rows.
pub proof fn law_sorting_prepares_a_merge(
    rows: Seq<Row>,
    column: nat,
    ks: Seq<KeyBytes>,
    p: Seq<usize>,
    table: Seq<(Question, Answer)>,
)
    requires
        forall|i: int| 0 <= i < rows.len() ==> column < (#[trigger] rows[i]).len(),
        forall|i: int, j: int|
            0 <= i < rows.len() && 0 <= j < rows.len() ==> one_kind(
                (#[trigger] rows[i])[column as int],
                (#[trigger] rows[j])[column as int],
            ),
        ks.len() == rows.len(),
        forall|i: int|
            0 <= i < rows.len() ==> key_parts(#[trigger] rows[i], column_order(column), 1, table)
                == Ok::<KeyBytes, Fault>(ks[i]),
        sorts(ks, p),
    ensures
        sorted_on(arranged(rows, p), column, table),
{
    let out = arranged(rows, p);
    reveal(key_order);
    assert forall|i: int, j: int| 0 <= i < j < out.len() implies {
        let x = (#[trigger] out[i])[column as int];
        let y = (#[trigger] out[j])[column as int];
        if x is Null {
            y is Null
        } else {
            y is Null || not_after(x, y, table)
        }
    } by {
        let (a, b) = (p[i] as int, p[j] as int);
        assert(comes_before(ks, a, b));
        let (x, y) = (rows[a][column as int], rows[b][column as int]);
        lemma_column_key(rows[a], column, table);
        lemma_column_key(rows[b], column, table);
        let (s, t) = (ks[a][0], ks[b][0]);
        reveal_with_fuel(key_lt, 2);
        assert(s == t || lex_lt(s, t));
        reveal_with_fuel(lex_lt, 2);
        assert(s[0] <= t[0]);
        if !(x is Null) && !(y is Null) {
            lemma_sort_bytes(x, y, table);
            let (u, v) = (key_of(x)->0, key_of(y)->0);
            assert(s =~= seq![0u8] + u);
            assert(t =~= seq![0u8] + v);
            assert(s.drop_first() =~= u);
            assert(t.drop_first() =~= v);
            assert(u == v || lex_lt(u, v));
        }
    }
}

/// Merging finds the nested loop's rows: where both sides are sorted on their keys and any two
/// keys can be ordered, a merge is bound to be right, and its pairs are the inner join on
/// `left column = right column`.
pub proof fn law_merge_join_is_the_nested_loop_join(
    left: Seq<Row>,
    right: Seq<Row>,
    left_key: nat,
    right_key: nat,
    left_width: nat,
    right_width: nat,
    table: Seq<(Question, Answer)>,
)
    requires
        left_key < left_width,
        forall|i: int| 0 <= i < left.len() ==> (#[trigger] left[i]).len() == left_width,
        forall|j: int| 0 <= j < right.len() ==> right_key < (#[trigger] right[j]).len(),
        ({
            let ks = keys_at(left, left_key) + keys_at(right, right_key);
            forall|i: int, j: int|
                0 <= i < ks.len() && 0 <= j < ks.len() ==> sortable(
                    #[trigger] ks[i],
                    #[trigger] ks[j],
                )
        }),
        sorted_on(left, left_key, table),
        sorted_on(right, right_key, table),
    ensures
        mergeable(left, right, left_key, right_key, table),
        pairs(left, right, merge_matching(left_key, right_key, table)) == joined(
            left,
            right,
            matching(Some(key_equality(left_key, right_key, left_width)), table),
            JoinType::Inner,
            left_width,
            right_width,
        ),
{
    let ks = keys_at(left, left_key) + keys_at(right, right_key);
    law_sortable_keys_are_orderly(ks, table);
    let n = left.len();
    let mm = merge_matching(left_key, right_key, table);
    let on = Some(key_equality(left_key, right_key, left_width));
    let m = matching(on, table);
    reveal(key_order);
    assert forall|i: int, j: int| 0 <= i < left.len() && 0 <= j < right.len() implies #[trigger] mm(
        left[i],
        right[j],
    ) == m(left[i], right[j]) by {
        let (a, b) = (left[i][left_key as int], right[j][right_key as int]);
        assert(ks[i] == a && ks[n + j] == b);
        lemma_pair_agrees(left[i], right[j], left_key, right_key, table);
        if !(a is Null) && !(b is Null) {
            law_order_is_by_key_bytes(a, b, table);
            law_equality_is_by_key_bytes(a, b, table);
            lemma_keys_of_one_order(a, b);
            lemma_lex_total(key_of(canonical(a))->0, key_of(canonical(b))->0);
        } else {
            reveal(join_key);
        }
    }
    law_joins_agree_where_matchings_do(
        left,
        right,
        mm,
        m,
        JoinType::Inner,
        left_width,
        right_width,
    );
    super::merge::law_merge_is_the_inner_join(left, right, mm, left_width, right_width);
}

} // verus!
