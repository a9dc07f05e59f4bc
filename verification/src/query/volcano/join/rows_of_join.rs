//! Which rows a join has: each row of the output, and each row of the inputs, accounted for.

use vstd::multiset::Multiset;
use vstd::prelude::*;

use super::model::{
    joined, left_matched, lone_left, lone_right, pairs, pairs_of, right_matched, JoinType, Matching,
};
use super::nested_loop::{hit, matching};
use crate::query::error::Fault;
use crate::query::expression::eval::evaluated;
use crate::query::expression::Term;
use crate::query::host::{Answer, Question};
use crate::query::volcano::rows::{nulls, Row};
use crate::storage::types::Datum;

verus! {

/// Whether a join condition is true of two rows side by side. Where there is none, it is true
/// of all.
pub open spec fn satisfied(
    on: Option<Term>,
    l: Row,
    r: Row,
    table: Seq<(Question, Answer)>,
) -> bool {
    on is Some ==> evaluated(on->0, l + r, table) == Ok::<Datum, Fault>(Datum::Bool(true))
}

/// Whether a row is `part` followed by `width` nulls.
pub open spec fn padded_right(row: Row, part: Row, width: nat) -> bool {
    &&& row.len() == part.len() + width
    &&& forall|i: int| 0 <= i < part.len() ==> row[i] == #[trigger] part[i]
    &&& forall|i: int| part.len() <= i < row.len() ==> #[trigger] row[i] == Datum::Null
}

/// Whether a row is `width` nulls followed by `part`.
pub open spec fn padded_left(row: Row, part: Row, width: nat) -> bool {
    &&& row.len() == width + part.len()
    &&& forall|i: int| 0 <= i < width ==> #[trigger] row[i] == Datum::Null
    &&& forall|i: int| 0 <= i < part.len() ==> row[i + width] == #[trigger] part[i]
}

/// Whether no row of `right` goes with `l`.
pub open spec fn alone_left(
    l: Row,
    right: Seq<Row>,
    on: Option<Term>,
    table: Seq<(Question, Answer)>,
) -> bool {
    forall|j: int| 0 <= j < right.len() ==> !satisfied(on, l, #[trigger] right[j], table)
}

/// Whether no row of `left` goes with `r`.
pub open spec fn alone_right(
    left: Seq<Row>,
    r: Row,
    on: Option<Term>,
    table: Seq<(Question, Answer)>,
) -> bool {
    forall|i: int| 0 <= i < left.len() ==> !satisfied(on, #[trigger] left[i], r, table)
}

/// Whether a row of the output is a row of each side that go together.
pub open spec fn is_pair(
    row: Row,
    left: Seq<Row>,
    right: Seq<Row>,
    on: Option<Term>,
    table: Seq<(Question, Answer)>,
) -> bool {
    exists|i: int, j: int|
        0 <= i < left.len() && 0 <= j < right.len() && row == #[trigger] left[i]
            + #[trigger] right[j] && satisfied(on, left[i], right[j], table)
}

/// Whether a row of the output is a row of the left side that goes with none of the right.
pub open spec fn is_lone_left(
    row: Row,
    left: Seq<Row>,
    right: Seq<Row>,
    on: Option<Term>,
    right_width: nat,
    table: Seq<(Question, Answer)>,
) -> bool {
    exists|i: int|
        0 <= i < left.len() && alone_left(#[trigger] left[i], right, on, table) && padded_right(
            row,
            left[i],
            right_width,
        )
}

/// Whether a row of the output is a row of the right side that goes with none of the left.
pub open spec fn is_lone_right(
    row: Row,
    left: Seq<Row>,
    right: Seq<Row>,
    on: Option<Term>,
    left_width: nat,
    table: Seq<(Question, Answer)>,
) -> bool {
    exists|j: int|
        0 <= j < right.len() && alone_right(left, #[trigger] right[j], on, table) && padded_left(
            row,
            right[j],
            left_width,
        )
}

proof fn lemma_matching(
    l: Row,
    r: Row,
    on: Option<Term>,
    table: Seq<(Question, Answer)>,
)
    ensures
        matching(on, table)(l, r) == satisfied(on, l, r, table),
{
    match on {
        None => {},
        Some(p) => {
            assert(hit(on, l, r, table) == match evaluated(p, l + r, table) {
                Ok(d) => Ok::<bool, Fault>(d == Datum::Bool(true)),
                Err(f) => Err(f),
            });
        },
    }
}

proof fn lemma_padding(l: Row, row: Row, width: nat)
    ensures
        padded_right(row, l, width) == (row == l + nulls(width)),
        padded_left(row, l, width) == (row == nulls(width) + l),
{
    if padded_right(row, l, width) {
        assert(row =~= l + nulls(width));
    }
    if row == l + nulls(width) {
        assert forall|i: int| l.len() <= i < row.len() implies #[trigger] row[i]
            == Datum::Null by {
            assert(row[i] == nulls(width)[i - l.len()]);
        }
        assert forall|i: int| 0 <= i < l.len() implies row[i] == #[trigger] l[i] by {}
    }
    if padded_left(row, l, width) {
        assert forall|i: int| 0 <= i < row.len() implies #[trigger] row[i] == (nulls(width)
            + l)[i] by {
            if i >= width {
                assert(row[(i - width) + width] == l[i - width]);
            }
        }
        assert(row =~= nulls(width) + l);
    }
    if row == nulls(width) + l {
        assert forall|i: int| 0 <= i < l.len() implies row[i + width] == #[trigger] l[i] by {}
        assert forall|i: int| 0 <= i < width implies #[trigger] row[i] == Datum::Null by {
            assert(row[i] == nulls(width)[i]);
        }
    }
}

proof fn lemma_pairs_of(l: Row, right: Seq<Row>, m: Matching, row: Row)
    ensures
        pairs_of(l, right, m).contains(row) <==> exists|j: int|
            0 <= j < right.len() && m(l, #[trigger] right[j]) && row == l + right[j],
    decreases right.len(),
{
    broadcast use vstd::multiset::group_multiset_axioms;

    if right.len() > 0 {
        let before = right.drop_last();
        lemma_pairs_of(l, before, m, row);
        if pairs_of(l, before, m).contains(row) {
            let j = choose|j: int|
                0 <= j < before.len() && m(l, #[trigger] before[j]) && row == l + before[j];
            assert(right[j] == before[j]);
        }
        if exists|j: int| 0 <= j < right.len() && m(l, #[trigger] right[j]) && row == l + right[j] {
            let j = choose|j: int|
                0 <= j < right.len() && m(l, #[trigger] right[j]) && row == l + right[j];
            if j < before.len() {
                assert(right[j] == before[j]);
            }
        }
        if m(l, right.last()) && row == l + right.last() {
            assert(right[right.len() - 1] == right.last());
        }
    }
}

proof fn lemma_pairs(left: Seq<Row>, right: Seq<Row>, m: Matching, row: Row)
    ensures
        pairs(left, right, m).contains(row) <==> exists|i: int, j: int|
            0 <= i < left.len() && 0 <= j < right.len() && row == #[trigger] left[i]
                + #[trigger] right[j] && m(left[i], right[j]),
    decreases left.len(),
{
    broadcast use vstd::multiset::group_multiset_axioms;

    if left.len() > 0 {
        let before = left.drop_last();
        lemma_pairs(before, right, m, row);
        lemma_pairs_of(left.last(), right, m, row);
        assert(left.last() == left[left.len() - 1]);
        if pairs(before, right, m).contains(row) {
            let (i, j) = choose|i: int, j: int|
                0 <= i < before.len() && 0 <= j < right.len() && row == #[trigger] before[i]
                    + #[trigger] right[j] && m(before[i], right[j]);
            assert(left[i] == before[i]);
        }
        if exists|i: int, j: int|
            0 <= i < left.len() && 0 <= j < right.len() && row == #[trigger] left[i]
                + #[trigger] right[j] && m(left[i], right[j]) {
            let (i, j) = choose|i: int, j: int|
                0 <= i < left.len() && 0 <= j < right.len() && row == #[trigger] left[i]
                    + #[trigger] right[j] && m(left[i], right[j]);
            if i < before.len() {
                assert(left[i] == before[i]);
            }
        }
    }
}

proof fn lemma_lone_left(left: Seq<Row>, right: Seq<Row>, m: Matching, width: nat, row: Row)
    ensures
        lone_left(left, right, m, width).contains(row) <==> exists|i: int|
            0 <= i < left.len() && !left_matched(#[trigger] left[i], right, m) && row == left[i]
                + nulls(width),
    decreases left.len(),
{
    broadcast use vstd::multiset::group_multiset_axioms;

    if left.len() > 0 {
        let before = left.drop_last();
        lemma_lone_left(before, right, m, width, row);
        assert(left.last() == left[left.len() - 1]);
        if lone_left(before, right, m, width).contains(row) {
            let i = choose|i: int|
                0 <= i < before.len() && !left_matched(#[trigger] before[i], right, m) && row
                    == before[i] + nulls(width);
            assert(left[i] == before[i]);
        }
        if exists|i: int|
            0 <= i < left.len() && !left_matched(#[trigger] left[i], right, m) && row == left[i]
                + nulls(width) {
            let i = choose|i: int|
                0 <= i < left.len() && !left_matched(#[trigger] left[i], right, m) && row
                    == left[i] + nulls(width);
            if i < before.len() {
                assert(left[i] == before[i]);
            }
        }
    }
}

proof fn lemma_lone_right(left: Seq<Row>, right: Seq<Row>, m: Matching, width: nat, row: Row)
    ensures
        lone_right(left, right, m, width).contains(row) <==> exists|j: int|
            0 <= j < right.len() && !right_matched(left, #[trigger] right[j], m) && row == nulls(
                width,
            ) + right[j],
    decreases right.len(),
{
    broadcast use vstd::multiset::group_multiset_axioms;

    if right.len() > 0 {
        let before = right.drop_last();
        lemma_lone_right(left, before, m, width, row);
        assert(right.last() == right[right.len() - 1]);
        if lone_right(left, before, m, width).contains(row) {
            let j = choose|j: int|
                0 <= j < before.len() && !right_matched(left, #[trigger] before[j], m) && row
                    == nulls(width) + before[j];
            assert(right[j] == before[j]);
        }
        if exists|j: int|
            0 <= j < right.len() && !right_matched(left, #[trigger] right[j], m) && row == nulls(
                width,
            ) + right[j] {
            let j = choose|j: int|
                0 <= j < right.len() && !right_matched(left, #[trigger] right[j], m) && row
                    == nulls(width) + right[j];
            if j < before.len() {
                assert(right[j] == before[j]);
            }
        }
    }
}

/// What the rows of a join are, one by one. An inner join has the pairs that its condition is
/// true of, and nothing else. A left join has besides every left row that has no partner, with
/// nulls in place of the right columns; a right join every right row that has none, with nulls
/// in place of the left columns; a full join both.
pub proof fn law_rows_of_a_join(
    left: Seq<Row>,
    right: Seq<Row>,
    on: Option<Term>,
    jt: JoinType,
    left_width: nat,
    right_width: nat,
    table: Seq<(Question, Answer)>,
    row: Row,
)
    ensures
        joined(left, right, matching(on, table), jt, left_width, right_width).contains(row) <==> {
            ||| is_pair(row, left, right, on, table)
            ||| (jt is Left || jt is Full) && is_lone_left(row, left, right, on, right_width, table)
            ||| (jt is Right || jt is Full) && is_lone_right(
                row,
                left,
                right,
                on,
                left_width,
                table,
            )
        },
{
    broadcast use vstd::multiset::group_multiset_axioms;

    let m = matching(on, table);
    lemma_pairs(left, right, m, row);
    lemma_lone_left(left, right, m, right_width, row);
    lemma_lone_right(left, right, m, left_width, row);
    assert forall|l: Row, r: Row| #[trigger] m(l, r) == satisfied(on, l, r, table) by {
        lemma_matching(l, r, on, table);
    }
    assert forall|l: Row| left_matched(l, right, m) == !#[trigger] alone_left(
        l,
        right,
        on,
        table,
    ) by {
        if left_matched(l, right, m) {
            let j = choose|j: int| 0 <= j < right.len() && m(l, #[trigger] right[j]);
            assert(satisfied(on, l, right[j], table));
        } else {
            assert forall|j: int| 0 <= j < right.len() implies !satisfied(
                on,
                l,
                #[trigger] right[j],
                table,
            ) by {
                assert(!m(l, right[j]));
            }
        }
    }
    assert forall|r: Row| right_matched(left, r, m) == !#[trigger] alone_right(
        left,
        r,
        on,
        table,
    ) by {
        if right_matched(left, r, m) {
            let i = choose|i: int| 0 <= i < left.len() && m(#[trigger] left[i], r);
            assert(satisfied(on, left[i], r, table));
        } else {
            assert forall|i: int| 0 <= i < left.len() implies !satisfied(
                on,
                #[trigger] left[i],
                r,
                table,
            ) by {
                assert(!m(left[i], r));
            }
        }
    }
    assert forall|l: Row| #[trigger] padded_right(row, l, right_width) == (row == l + nulls(
        right_width,
    )) by {
        lemma_padding(l, row, right_width);
    }
    assert forall|r: Row| #[trigger] padded_left(row, r, left_width) == (row == nulls(left_width)
        + r) by {
        lemma_padding(r, row, left_width);
    }
    assert(pairs(left, right, m).contains(row) == is_pair(row, left, right, on, table)) by {
        if pairs(left, right, m).contains(row) {
            let (i, j) = choose|i: int, j: int|
                0 <= i < left.len() && 0 <= j < right.len() && row == #[trigger] left[i]
                    + #[trigger] right[j] && m(left[i], right[j]);
            assert(satisfied(on, left[i], right[j], table));
        }
        if is_pair(row, left, right, on, table) {
            let (i, j) = choose|i: int, j: int|
                0 <= i < left.len() && 0 <= j < right.len() && row == #[trigger] left[i]
                    + #[trigger] right[j] && satisfied(on, left[i], right[j], table);
            assert(m(left[i], right[j]));
        }
    }
    assert(lone_left(left, right, m, right_width).contains(row) == is_lone_left(
        row,
        left,
        right,
        on,
        right_width,
        table,
    ));
    assert(lone_right(left, right, m, left_width).contains(row) == is_lone_right(
        row,
        left,
        right,
        on,
        left_width,
        table,
    ));
}

proof fn lemma_all_pairs_of(l: Row, right: Seq<Row>, m: Matching)
    requires
        forall|r: Row| #[trigger] m(l, r),
    ensures
        pairs_of(l, right, m).len() == right.len(),
    decreases right.len(),
{
    broadcast use vstd::multiset::group_multiset_axioms;

    if right.len() > 0 {
        lemma_all_pairs_of(l, right.drop_last(), m);
        assert(m(l, right.last()));
    }
}

proof fn lemma_all_pairs(left: Seq<Row>, right: Seq<Row>, m: Matching)
    requires
        forall|l: Row, r: Row| #[trigger] m(l, r),
    ensures
        pairs(left, right, m).len() == left.len() * right.len(),
    decreases left.len(),
{
    broadcast use vstd::multiset::group_multiset_axioms;

    if left.len() > 0 {
        let n = (left.len() - 1) as nat;
        lemma_all_pairs(left.drop_last(), right, m);
        assert forall|r: Row| #[trigger] m(left.last(), r) by {}
        lemma_all_pairs_of(left.last(), right, m);
        assert((n + 1) * right.len() == n * right.len() + right.len()) by (nonlinear_arith);
    } else {
        assert(0 * right.len() == 0) by (nonlinear_arith);
    }
}

/// A join without a condition pairs every row with every row: there are as many pairs as the
/// product of the sides.
pub proof fn law_cross_join_size(
    left: Seq<Row>,
    right: Seq<Row>,
    left_width: nat,
    right_width: nat,
    table: Seq<(Question, Answer)>,
)
    ensures
        joined(
            left,
            right,
            matching(None, table),
            JoinType::Inner,
            left_width,
            right_width,
        ).len() == left.len() * right.len(),
{
    broadcast use vstd::multiset::group_multiset_axioms;

    let m = matching(None, table);
    assert forall|l: Row, r: Row| #[trigger] m(l, r) by {
        lemma_matching(l, r, None, table);
    }
    lemma_all_pairs(left, right, m);
    assert(Multiset::<Row>::empty().len() == 0);
}

} // verus!
