//! Sort-merge join: inner equi-joins over inputs sorted on their join keys. One pass over both
//! sides emits the matches, expanding groups of equal keys to their product. Null keys match
//! nothing and are skipped.

use vstd::multiset::Multiset;
use vstd::prelude::*;

use super::model::{joined, pairs, pairs_of, JoinType, Matching};
use crate::query::error::{Fault, QueryError};
use crate::query::expression::compare::{order_values, values_order};
use crate::query::host::{Answer, Answers, Question};
use crate::query::volcano::rows::{concat, Row};
use crate::storage::decimal::Order;
use crate::storage::types::{rows_of, Datum, Tuple, Value};

verus! {

/// How two join keys compare.
#[verifier::opaque]
pub open spec fn key_order(a: Datum, b: Datum, table: Seq<(Question, Answer)>) -> Result<
    Order,
    Fault,
> {
    values_order(a, b, table)
}

/// Compares two join keys.
fn order_keys(a: &Value, b: &Value, answers: &Answers) -> (r: Result<Order, QueryError>)
    ensures
        match r {
            Ok(o) => key_order(a@, b@, answers@) == Ok::<Order, Fault>(o),
            Err(e) => key_order(a@, b@, answers@) == Err::<Order, Fault>(e@),
        },
{
    proof {
        reveal(key_order);
    }
    order_values(a, b, answers)
}

/// Whether every row has a column `key`.
pub open spec fn have_column(rows: Seq<Row>, key: nat) -> bool {
    forall|i: int| 0 <= i < rows.len() ==> key < (#[trigger] rows[i]).len()
}

/// The matching of a merge: both keys are there and compare equal.
pub open spec fn merge_matching(
    left_key: nat,
    right_key: nat,
    table: Seq<(Question, Answer)>,
) -> Matching {
    |l: Row, r: Row|
        !(l[left_key as int] is Null) && !(r[right_key as int] is Null) && key_order(
            l[left_key as int],
            r[right_key as int],
            table,
        ) == Ok::<Order, Fault>(Order::Same)
}

/// Whether two values are in non-descending order.
pub open spec fn not_after(a: Datum, b: Datum, table: Seq<(Question, Answer)>) -> bool {
    key_order(a, b, table) == Ok::<Order, Fault>(Order::Less) || key_order(a, b, table)
        == Ok::<Order, Fault>(Order::Same)
}

/// Whether adjacent rows are in non-descending order on `key`, nulls last; a pair without an
/// order counts as in order.
pub open spec fn adjacent_sorted(rows: Seq<Row>, key: nat, table: Seq<(Question, Answer)>) -> bool {
    forall|i: int|
        0 <= i < rows.len() - 1 ==> pair_sorted(#[trigger] rows[i], rows[i + 1], key, table)
}

/// Whether one row may stand before another.
pub open spec fn pair_sorted(a: Row, b: Row, key: nat, table: Seq<(Question, Answer)>) -> bool {
    let x = a[key as int];
    let y = b[key as int];
    if x is Null {
        y is Null
    } else {
        y is Null || key_order(x, y, table) != Ok::<Order, Fault>(Order::Greater)
    }
}

/// The keys of a side.
pub open spec fn keys_at(rows: Seq<Row>, key: nat) -> Seq<Datum> {
    Seq::new(rows.len(), |i: int| rows[i][key as int])
}

/// Whether the non-null data of `ks` are ordered: any two compare, from either side alike, and
/// the order is transitive.
pub open spec fn orderly(ks: Seq<Datum>, table: Seq<(Question, Answer)>) -> bool {
    &&& forall|i: int, j: int|
        0 <= i < ks.len() && 0 <= j < ks.len() && !(ks[i] is Null) && !(ks[j] is Null) ==> (
        #[trigger] key_order(ks[i], ks[j], table)) is Ok && key_order(ks[j], ks[i], table)
            == Ok::<Order, Fault>(key_order(ks[i], ks[j], table)->Ok_0.flipped())
    &&& forall|i: int, j: int, k: int|
        0 <= i < ks.len() && 0 <= j < ks.len() && 0 <= k < ks.len() && !(ks[i] is Null) && !(
        ks[j] is Null) && !(ks[k] is Null) && #[trigger] not_after(ks[i], ks[j], table)
            && #[trigger] not_after(ks[j], ks[k], table) ==> not_after(ks[i], ks[k], table)
}

/// Whether rows are in non-descending order on `key`, nulls last.
pub open spec fn sorted_on(rows: Seq<Row>, key: nat, table: Seq<(Question, Answer)>) -> bool {
    forall|i: int, j: int|
        0 <= i < j < rows.len() ==> {
            let x = (#[trigger] rows[i])[key as int];
            let y = (#[trigger] rows[j])[key as int];
            if x is Null {
                y is Null
            } else {
                y is Null || not_after(x, y, table)
            }
        }
}

/// Whether a merge of the two sides is bound to be right: all keys are ordered, and both sides
/// are sorted.
pub open spec fn mergeable(
    left: Seq<Row>,
    right: Seq<Row>,
    left_key: nat,
    right_key: nat,
    table: Seq<(Question, Answer)>,
) -> bool {
    &&& orderly(keys_at(left, left_key) + keys_at(right, right_key), table)
    &&& sorted_on(left, left_key, table)
    &&& sorted_on(right, right_key, table)
}

/// The end of the run of rows from `at` whose key is there and compares equal to `k`, or the
/// fault of the first comparison that has one.
pub open spec fn run_end(
    rows: Seq<Row>,
    key: nat,
    k: Datum,
    at: nat,
    table: Seq<(Question, Answer)>,
) -> Result<nat, Fault>
    decreases rows.len() - at,
{
    if at >= rows.len() || rows[at as int][key as int] is Null {
        Ok(at)
    } else {
        match key_order(rows[at as int][key as int], k, table) {
            Err(f) => Err(f),
            Ok(Order::Same) => run_end(rows, key, k, at + 1, table),
            Ok(_) => Ok(at),
        }
    }
}

/// A run ends no earlier than it begins, and within the rows.
pub proof fn lemma_run_end(
    rows: Seq<Row>,
    key: nat,
    k: Datum,
    at: nat,
    table: Seq<(Question, Answer)>,
)
    requires
        at <= rows.len(),
    ensures
        run_end(rows, key, k, at, table) is Ok ==> at <= run_end(rows, key, k, at, table)->Ok_0
            <= rows.len(),
    decreases rows.len() - at,
{
    if at < rows.len() {
        lemma_run_end(rows, key, k, at + 1, table);
    }
}

/// The row `l` beside each of `right`, in order.
pub open spec fn beside(l: Row, right: Seq<Row>) -> Seq<Row> {
    Seq::new(right.len(), |j: int| l + right[j])
}

/// Each row of `left` beside each of `right`, in order.
pub open spec fn product(left: Seq<Row>, right: Seq<Row>) -> Seq<Row>
    decreases left.len(),
{
    if left.len() == 0 {
        Seq::empty()
    } else {
        product(left.drop_last(), right) + beside(left.last(), right)
    }
}

/// Rows put before the rows of an outcome.
pub open spec fn followed_by(rows: Seq<Row>, rest: Result<Seq<Row>, Fault>) -> Result<
    Seq<Row>,
    Fault,
> {
    match rest {
        Ok(more) => Ok(rows + more),
        Err(f) => Err(f),
    }
}

/// What a merge comes to from row `i` of the left side and row `j` of the right one on. A null
/// key is passed over, and so is the lesser of two keys; equal keys give the product of their
/// runs; a comparison without an order is the outcome.
pub open spec fn merged(
    left: Seq<Row>,
    right: Seq<Row>,
    i: nat,
    j: nat,
    left_key: nat,
    right_key: nat,
    table: Seq<(Question, Answer)>,
) -> Result<Seq<Row>, Fault>
    decreases left.len() - i + right.len() - j,
{
    if i >= left.len() || j >= right.len() {
        Ok(Seq::empty())
    } else {
        let x = left[i as int][left_key as int];
        let y = right[j as int][right_key as int];
        if x is Null {
            merged(left, right, i + 1, j, left_key, right_key, table)
        } else if y is Null {
            merged(left, right, i, j + 1, left_key, right_key, table)
        } else {
            match key_order(x, y, table) {
                Err(f) => Err(f),
                Ok(Order::Less) => merged(left, right, i + 1, j, left_key, right_key, table),
                Ok(Order::Greater) => merged(left, right, i, j + 1, left_key, right_key, table),
                Ok(Order::Same) => match run_end(left, left_key, x, i + 1, table) {
                    Err(f) => Err(f),
                    Ok(ie) => match run_end(right, right_key, y, j + 1, table) {
                        Err(f) => Err(f),
                        Ok(je) => {
                            proof {
                                lemma_run_end(left, left_key, x, i + 1, table);
                                lemma_run_end(right, right_key, y, j + 1, table);
                            }
                            followed_by(
                                product(
                                    left.subrange(i as int, ie as int),
                                    right.subrange(j as int, je as int),
                                ),
                                merged(left, right, ie, je, left_key, right_key, table),
                            )
                        },
                    },
                },
            }
        }
    }
}

/// Whether every row has a column `key`.
pub fn all_have_column(rows: &Vec<Tuple>, key: usize) -> (r: bool)
    ensures
        r == have_column(rows_of(rows@), key as nat),
{
    let mut i: usize = 0;
    while i < rows.len()
        invariant
            i <= rows@.len(),
            forall|j: int| 0 <= j < i ==> key < (#[trigger] rows_of(rows@)[j]).len(),
        decreases rows@.len() - i,
    {
        assert(rows_of(rows@)[i as int] == rows@[i as int]@);
        if key >= rows[i].values.len() {
            return false;
        }
        i = i + 1;
    }
    true
}

/// Whether adjacent rows are in non-descending order on `key`, nulls last.
pub fn is_sorted_by(rows: &Vec<Tuple>, key: usize, answers: &Answers) -> (r: bool)
    requires
        have_column(rows_of(rows@), key as nat),
    ensures
        r == adjacent_sorted(rows_of(rows@), key as nat, answers@),
{
    let ghost rs = rows_of(rows@);
    let mut i: usize = 0;
    if rows.len() == 0 {
        return true;
    }
    while i < rows.len() - 1
        invariant
            i < rows@.len(),
            rs == rows_of(rows@),
            have_column(rs, key as nat),
            forall|j: int|
                0 <= j < i ==> pair_sorted(#[trigger] rs[j], rs[j + 1], key as nat, answers@),
        decreases rows@.len() - i,
    {
        assert(rs[i as int] == rows@[i as int]@ && rs[i + 1] == rows@[i + 1]@);
        assert(key < rs[i as int].len() && key < rs[i + 1].len());
        let a = &rows[i].values[key];
        let b = &rows[i + 1].values[key];
        let ok: bool = if a.is_null() {
            b.is_null()
        } else if b.is_null() {
            true
        } else {
            match order_keys(a, b, answers) {
                Ok(o) => o != Order::Greater,
                Err(_) => true,
            }
        };
        if !ok {
            assert(!pair_sorted(rs[i as int], rs[i + 1], key as nat, answers@));
            return false;
        }
        i = i + 1;
    }
    true
}

/// A row that matches none of the rows from `a` to `b` gains no pairs from them.
proof fn lemma_no_more_pairs(l: Row, right: Seq<Row>, a: int, b: int, m: Matching)
    requires
        0 <= a <= b <= right.len(),
        forall|k: int| a <= k < b ==> !m(l, #[trigger] right[k]),
    ensures
        pairs_of(l, right.take(b), m) == pairs_of(l, right.take(a), m),
    decreases b - a,
{
    if a < b {
        lemma_no_more_pairs(l, right, a, b - 1, m);
        assert(right.take(b).drop_last() =~= right.take(b - 1));
        assert(right.take(b).last() == right[b - 1]);
    }
}

/// Left rows that match nothing add no pairs.
proof fn lemma_skip_left(left: Seq<Row>, right: Seq<Row>, a: int, b: int, m: Matching)
    requires
        0 <= a <= b <= left.len(),
        forall|i: int, j: int|
            a <= i < b && 0 <= j < right.len() ==> !#[trigger] m(left[i], right[j]),
    ensures
        pairs(left.take(b), right, m) == pairs(left.take(a), right, m),
    decreases b - a,
{
    if a < b {
        lemma_skip_left(left, right, a, b - 1, m);
        assert(left.take(b).drop_last() =~= left.take(b - 1));
        assert(left.take(b).last() == left[b - 1]);
        let l = left[b - 1];
        assert forall|k: int| 0 <= k < right.len() implies !m(l, #[trigger] right[k]) by {
            assert(!m(left[b - 1], right[k]));
        }
        lemma_no_more_pairs(l, right, 0, right.len() as int, m);
        assert(right.take(0) =~= Seq::<Row>::empty());
        assert(right.take(right.len() as int) =~= right);
        assert(pairs(left.take(b), right, m) =~= pairs(left.take(b - 1), right, m));
    }
}

/// The pairs of a row that matches just the rows of a window.
proof fn lemma_window_pairs(l: Row, right: Seq<Row>, j: int, je: int, m: Matching)
    requires
        0 <= j <= je <= right.len(),
        forall|k: int| 0 <= k < right.len() ==> m(l, #[trigger] right[k]) == (j <= k < je),
    ensures
        pairs_of(l, right, m) == pairs_of(l, right.subrange(j, je), every_pair()),
{
    lemma_no_more_pairs(l, right, 0, j, m);
    assert(right.take(0) =~= Seq::<Row>::empty());
    lemma_window_prefix(l, right, j, je, m);
    lemma_no_more_pairs(l, right, je, right.len() as int, m);
    assert(right.take(right.len() as int) =~= right);
}

proof fn lemma_window_prefix(l: Row, right: Seq<Row>, j: int, je: int, m: Matching)
    requires
        0 <= j <= je <= right.len(),
        pairs_of(l, right.take(j), m) == Multiset::<Row>::empty(),
        forall|k: int| j <= k < je ==> m(l, #[trigger] right[k]),
    ensures
        pairs_of(l, right.take(je), m) == pairs_of(l, right.subrange(j, je), every_pair()),
    decreases je - j,
{
    if j < je {
        lemma_window_prefix(l, right, j, je - 1, m);
        assert(right.take(je).drop_last() =~= right.take(je - 1));
        assert(right.take(je).last() == right[je - 1]);
        assert(right.subrange(j, je).drop_last() =~= right.subrange(j, je - 1));
        assert(right.subrange(j, je).last() == right[je - 1]);
    } else {
        assert(right.subrange(j, je) =~= Seq::<Row>::empty());
    }
}

/// Where rows `i` to `ie` match just rows `j` to `je`, their pairs are the product of both runs.
proof fn lemma_group_pairs(
    left: Seq<Row>,
    right: Seq<Row>,
    i: int,
    ie: int,
    j: int,
    je: int,
    m: Matching,
)
    requires
        0 <= i <= ie <= left.len(),
        0 <= j <= je <= right.len(),
        forall|x: int, y: int|
            i <= x < ie && 0 <= y < right.len() ==> #[trigger] m(left[x], right[y]) == (j <= y
                < je),
    ensures
        pairs(left.take(ie), right, m) == pairs(left.take(i), right, m).add(
            pairs(left.subrange(i, ie), right.subrange(j, je), every_pair()),
        ),
    decreases ie - i,
{
    let window = right.subrange(j, je);
    if i < ie {
        lemma_group_pairs(left, right, i, ie - 1, j, je, m);
        assert(left.take(ie).drop_last() =~= left.take(ie - 1));
        assert(left.take(ie).last() == left[ie - 1]);
        assert(left.subrange(i, ie).drop_last() =~= left.subrange(i, ie - 1));
        assert(left.subrange(i, ie).last() == left[ie - 1]);
        assert forall|k: int| 0 <= k < right.len() implies m(left[ie - 1], #[trigger] right[k])
            == (j <= k < je) by {
            assert(m(left[ie - 1], right[k]) == (j <= k < je));
        }
        lemma_window_pairs(left[ie - 1], right, j, je, m);
        assert(pairs(left.take(ie), right, m) =~= pairs(left.take(i), right, m).add(
            pairs(left.subrange(i, ie), window, every_pair()),
        ));
    } else {
        assert(left.subrange(i, ie) =~= Seq::<Row>::empty());
        assert(pairs(left.take(ie), right, m) =~= pairs(left.take(i), right, m).add(
            pairs(left.subrange(i, ie), window, every_pair()),
        ));
    }
}

/// The matching that takes every pair.
pub open spec fn every_pair() -> Matching {
    |l: Row, r: Row| true
}

/// The product of two runs of rows holds each of their pairs.
proof fn lemma_product_pairs(left: Seq<Row>, right: Seq<Row>)
    ensures
        product(left, right).to_multiset() == pairs(left, right, every_pair()),
    decreases left.len(),
{
    broadcast use vstd::seq_lib::group_to_multiset_ensures;

    if left.len() > 0 {
        lemma_product_pairs(left.drop_last(), right);
        lemma_beside_pairs(left.last(), right);
        vstd::seq_lib::lemma_multiset_commutative(
            product(left.drop_last(), right),
            beside(left.last(), right),
        );
        assert(product(left, right).to_multiset() =~= pairs(left, right, every_pair()));
    } else {
        assert(product(left, right).to_multiset() =~= pairs(left, right, every_pair()));
    }
}

proof fn lemma_beside_pairs(l: Row, right: Seq<Row>)
    ensures
        beside(l, right).to_multiset() == pairs_of(l, right, every_pair()),
    decreases right.len(),
{
    broadcast use vstd::seq_lib::group_to_multiset_ensures;

    if right.len() > 0 {
        lemma_beside_pairs(l, right.drop_last());
        assert(beside(l, right) =~= beside(l, right.drop_last()).push(l + right.last()));
        vstd::seq_lib::to_multiset_build(beside(l, right.drop_last()), l + right.last());
        assert(beside(l, right).to_multiset() =~= pairs_of(l, right, every_pair()));
    } else {
        assert(beside(l, right).to_multiset() =~= pairs_of(l, right, every_pair()));
    }
}

/// Adds the product of two runs of rows.
fn emit_group(
    left: &Vec<Tuple>,
    right: &Vec<Tuple>,
    i: usize,
    ie: usize,
    j: usize,
    je: usize,
    out: &mut Vec<Tuple>,
)
    requires
        i <= ie <= left@.len(),
        j <= je <= right@.len(),
    ensures
        rows_of(final(out)@) == rows_of(old(out)@) + product(
            rows_of(left@).subrange(i as int, ie as int),
            rows_of(right@).subrange(j as int, je as int),
        ),
{
    let ghost ls = rows_of(left@);
    let ghost rs = rows_of(right@);
    let ghost window = rs.subrange(j as int, je as int);
    let ghost start = rows_of(out@);
    let mut p: usize = i;
    proof {
        assert(ls.subrange(i as int, i as int) =~= Seq::<Row>::empty());
        assert(start + product(ls.subrange(i as int, i as int), window) =~= start);
    }
    while p < ie
        invariant
            i <= p <= ie <= left@.len(),
            j <= je <= right@.len(),
            ls == rows_of(left@),
            rs == rows_of(right@),
            window == rs.subrange(j as int, je as int),
            rows_of(out@) == start + product(ls.subrange(i as int, p as int), window),
        decreases ie - p,
    {
        let ghost l = ls[p as int];
        let ghost before = rows_of(out@);
        let mut q: usize = j;
        assert(before + beside(l, rs.subrange(j as int, j as int)) =~= before);
        while q < je
            invariant
                p < ie <= left@.len(),
                j <= q <= je <= right@.len(),
                ls == rows_of(left@),
                rs == rows_of(right@),
                l == ls[p as int],
                rows_of(out@) == before + beside(l, rs.subrange(j as int, q as int)),
            decreases je - q,
        {
            let ghost rows_before = rows_of(out@);
            let pair = concat(&left[p], &right[q]);
            out.push(pair);
            proof {
                assert(rows_of(out@) =~= rows_before.push(pair@));
                assert(beside(l, rs.subrange(j as int, q + 1)) =~= beside(
                    l,
                    rs.subrange(j as int, q as int),
                ).push(pair@));
                assert(rows_of(out@) =~= before + beside(l, rs.subrange(j as int, q + 1)));
            }
            q = q + 1;
        }
        proof {
            let grown = ls.subrange(i as int, p + 1);
            assert(grown.drop_last() =~= ls.subrange(i as int, p as int));
            assert(grown.last() == l);
            assert(rows_of(out@) =~= start + product(grown, window));
        }
        p = p + 1;
    }
}

/// The end of the run of rows after `start` whose key compares equal to that of row `start`.
fn group_end(rows: &Vec<Tuple>, start: usize, key: usize, answers: &Answers) -> (r: Result<
    usize,
    QueryError,
>)
    requires
        start < rows@.len(),
        have_column(rows_of(rows@), key as nat),
    ensures
        match (
            r,
            run_end(
                rows_of(rows@),
                key as nat,
                rows_of(rows@)[start as int][key as int],
                (start + 1) as nat,
                answers@,
            ),
        ) {
            (Ok(end), Ok(n)) => end == n && start < end <= rows@.len(),
            (Err(e), Err(f)) => e@ == f,
            _ => false,
        },
{
    let ghost rs = rows_of(rows@);
    let ghost k = rs[start as int][key as int];
    let len: usize = rows.len();
    let mut end: usize = start + 1;
    assert(rs[start as int] == rows@[start as int]@ && key < rs[start as int].len());
    while end < len
        invariant
            start < end <= len == rows@.len(),
            rs == rows_of(rows@),
            have_column(rs, key as nat),
            k == rs[start as int][key as int],
            run_end(rs, key as nat, k, (start + 1) as nat, answers@) == run_end(
                rs,
                key as nat,
                k,
                end as nat,
                answers@,
            ),
        decreases rows@.len() - end,
    {
        assert(rs[end as int] == rows@[end as int]@ && key < rs[end as int].len());
        assert(rs[start as int] == rows@[start as int]@ && key < rs[start as int].len());
        let v = &rows[end].values[key];
        if v.is_null() {
            return Ok(end);
        }
        match order_keys(v, &rows[start].values[key], answers) {
            Err(e) => return Err(e),
            Ok(o) => {
                if o != Order::Same {
                    return Ok(end);
                }
            },
        }
        end = end + 1;
    }
    Ok(end)
}

/// Sort-merge join: one pass over both sides, as [`merged`] describes it.
pub fn sort_merge_join(
    left: &Vec<Tuple>,
    right: &Vec<Tuple>,
    left_key: usize,
    right_key: usize,
    answers: &Answers,
) -> (r: Result<Vec<Tuple>, QueryError>)
    requires
        have_column(rows_of(left@), left_key as nat),
        have_column(rows_of(right@), right_key as nat),
    ensures
        match (
            r,
            merged(
                rows_of(left@),
                rows_of(right@),
                0,
                0,
                left_key as nat,
                right_key as nat,
                answers@,
            ),
        ) {
            (Ok(out), Ok(rows)) => rows_of(out@) == rows,
            (Err(e), Err(f)) => e@ == f,
            _ => false,
        },
{
    let ghost ls = rows_of(left@);
    let ghost rs = rows_of(right@);
    let ghost lk = left_key as nat;
    let ghost rk = right_key as nat;
    let ghost whole = merged(ls, rs, 0, 0, lk, rk, answers@);
    let mut out: Vec<Tuple> = Vec::new();
    let mut i: usize = 0;
    let mut j: usize = 0;
    proof {
        assert(rows_of(out@) =~= Seq::<Row>::empty());
        if whole is Ok {
            assert(rows_of(out@) + whole->Ok_0 =~= whole->Ok_0);
        }
    }
    while i < left.len() && j < right.len()
        invariant
            i <= left@.len(),
            j <= right@.len(),
            ls == rows_of(left@),
            rs == rows_of(right@),
            lk == left_key,
            rk == right_key,
            have_column(ls, lk),
            have_column(rs, rk),
            whole == merged(ls, rs, 0, 0, lk, rk, answers@),
            whole == followed_by(
                rows_of(out@),
                merged(ls, rs, i as nat, j as nat, lk, rk, answers@),
            ),
        decreases left@.len() - i + right@.len() - j,
    {
        assert(ls[i as int] == left@[i as int]@ && lk < ls[i as int].len());
        assert(rs[j as int] == right@[j as int]@ && rk < rs[j as int].len());
        let a = &left[i].values[left_key];
        let b = &right[j].values[right_key];
        if a.is_null() {
            i = i + 1;
            continue ;
        }
        if b.is_null() {
            j = j + 1;
            continue ;
        }
        match order_keys(a, b, answers) {
            Err(e) => return Err(e),
            Ok(Order::Less) => {
                i = i + 1;
            },
            Ok(Order::Greater) => {
                j = j + 1;
            },
            Ok(Order::Same) => {
                let ie: usize = match group_end(left, i, left_key, answers) {
                    Ok(end) => end,
                    Err(e) => return Err(e),
                };
                let je: usize = match group_end(right, j, right_key, answers) {
                    Ok(end) => end,
                    Err(e) => return Err(e),
                };
                let ghost before = rows_of(out@);
                emit_group(left, right, i, ie, j, je, &mut out);
                proof {
                    let rest = merged(ls, rs, ie as nat, je as nat, lk, rk, answers@);
                    if rest is Ok {
                        assert(before + (product(
                            ls.subrange(i as int, ie as int),
                            rs.subrange(j as int, je as int),
                        ) + rest->Ok_0) =~= rows_of(out@) + rest->Ok_0);
                    }
                }
                i = ie;
                j = je;
            },
        }
    }
    assert(rows_of(out@) + Seq::<Row>::empty() =~= rows_of(out@));
    Ok(out)
}

/// A left row below the current right row matches neither it nor any later one.
proof fn lemma_less_matches_nothing(
    ls: Seq<Row>,
    rs: Seq<Row>,
    lk: nat,
    rk: nat,
    table: Seq<(Question, Answer)>,
    i: int,
    j: int,
)
    requires
        mergeable(ls, rs, lk, rk, table),
        0 <= i < ls.len(),
        0 <= j < rs.len(),
        !(ls[i][lk as int] is Null),
        !(rs[j][rk as int] is Null),
        key_order(ls[i][lk as int], rs[j][rk as int], table) == Ok::<Order, Fault>(Order::Less),
        forall|a: int, b: int|
            i <= a < ls.len() && 0 <= b < j ==> !#[trigger] merge_matching(lk, rk, table)(
                ls[a],
                rs[b],
            ),
    ensures
        forall|a: int, b: int|
            i <= a < i + 1 && 0 <= b < rs.len() ==> !#[trigger] merge_matching(lk, rk, table)(
                ls[a],
                rs[b],
            ),
{
    let m = merge_matching(lk, rk, table);
    let ks = keys_at(ls, lk) + keys_at(rs, rk);
    let n = ls.len();
    assert forall|a: int, b: int| i <= a < i + 1 && 0 <= b < rs.len() implies !#[trigger] m(
        ls[a],
        rs[b],
    ) by {
        let (x, y, z) = (ls[i][lk as int], rs[j][rk as int], rs[b][rk as int]);
        assert(ks[i] == x && ks[n + j] == y && ks[n + b] == z);
        if b > j && !(z is Null) && m(ls[i], rs[b]) {
            assert(key_order(ks[i], ks[n + b], table) is Ok);
            assert(not_after(ks[n + b], ks[i], table));
            assert(rs[j] == rs[j] && rs[b] == rs[b]);
            assert(not_after(ks[n + j], ks[n + b], table));
            assert(not_after(ks[n + j], ks[i], table));
            assert(key_order(ks[i], ks[n + j], table) is Ok);
        }
    }
}

/// A right row below the current left row matches neither it nor any later one.
proof fn lemma_greater_matches_nothing(
    ls: Seq<Row>,
    rs: Seq<Row>,
    lk: nat,
    rk: nat,
    table: Seq<(Question, Answer)>,
    i: int,
    j: int,
)
    requires
        mergeable(ls, rs, lk, rk, table),
        0 <= i < ls.len(),
        0 <= j < rs.len(),
        !(ls[i][lk as int] is Null),
        !(rs[j][rk as int] is Null),
        key_order(ls[i][lk as int], rs[j][rk as int], table) == Ok::<Order, Fault>(
            Order::Greater,
        ),
    ensures
        forall|a: int|
            i <= a < ls.len() ==> !#[trigger] merge_matching(lk, rk, table)(ls[a], rs[j]),
{
    let m = merge_matching(lk, rk, table);
    let ks = keys_at(ls, lk) + keys_at(rs, rk);
    let n = ls.len();
    assert forall|a: int| i <= a < ls.len() implies !#[trigger] m(ls[a], rs[j]) by {
        let (x, y, z) = (ls[i][lk as int], rs[j][rk as int], ls[a][lk as int]);
        assert(ks[i] == x && ks[n + j] == y && ks[a] == z);
        if a > i && !(z is Null) && m(ls[a], rs[j]) {
            assert(ls[i] == ls[i] && ls[a] == ls[a]);
            assert(not_after(ks[i], ks[a], table));
            assert(not_after(ks[a], ks[n + j], table));
            assert(not_after(ks[i], ks[n + j], table));
        }
    }
}

/// Within groups of equal keys every pair matches; nothing else matches either group.
proof fn lemma_group(
    ls: Seq<Row>,
    rs: Seq<Row>,
    lk: nat,
    rk: nat,
    table: Seq<(Question, Answer)>,
    i: int,
    ie: int,
    j: int,
    je: int,
)
    requires
        mergeable(ls, rs, lk, rk, table),
        0 <= i < ie <= ls.len(),
        0 <= j < je <= rs.len(),
        !(ls[i][lk as int] is Null),
        !(rs[j][rk as int] is Null),
        key_order(ls[i][lk as int], rs[j][rk as int], table) == Ok::<Order, Fault>(Order::Same),
        forall|a: int|
            i < a < ie ==> !((#[trigger] ls[a])[lk as int] is Null) && key_order(
                ls[a][lk as int],
                ls[i][lk as int],
                table,
            ) == Ok::<Order, Fault>(Order::Same),
        forall|b: int|
            j < b < je ==> !((#[trigger] rs[b])[rk as int] is Null) && key_order(
                rs[b][rk as int],
                rs[j][rk as int],
                table,
            ) == Ok::<Order, Fault>(Order::Same),
        ie < ls.len() ==> ls[ie][lk as int] is Null || (key_order(
            ls[ie][lk as int],
            ls[i][lk as int],
            table,
        ) is Ok && key_order(ls[ie][lk as int], ls[i][lk as int], table)->Ok_0 != Order::Same),
        je < rs.len() ==> rs[je][rk as int] is Null || (key_order(
            rs[je][rk as int],
            rs[j][rk as int],
            table,
        ) is Ok && key_order(rs[je][rk as int], rs[j][rk as int], table)->Ok_0 != Order::Same),
        forall|a: int, b: int|
            i <= a < ls.len() && 0 <= b < j ==> !#[trigger] merge_matching(lk, rk, table)(
                ls[a],
                rs[b],
            ),
    ensures
        forall|a: int, b: int|
            i <= a < ie && 0 <= b < rs.len() ==> #[trigger] merge_matching(lk, rk, table)(
                ls[a],
                rs[b],
            ) == (j <= b < je),
        forall|a: int, b: int|
            ie <= a < ls.len() && 0 <= b < je ==> !#[trigger] merge_matching(lk, rk, table)(
                ls[a],
                rs[b],
            ),
{
    let m = merge_matching(lk, rk, table);
    let ks = keys_at(ls, lk) + keys_at(rs, rk);
    let n = ls.len();
    let x = ls[i][lk as int];
    let y = rs[j][rk as int];
    assert(ks[i] == x && ks[n + j] == y);
    // Same as the group's key, from either side.
    assert forall|a: int| i <= a < ie implies not_after(#[trigger] ks[a], ks[i], table)
        && not_after(ks[i], ks[a], table) && ks[a] == ls[a][lk as int] && !(ks[a] is Null) by {
        assert(ks[a] == ls[a][lk as int]);
        assert(key_order(ks[i], ks[i], table) is Ok && key_order(ks[i], ks[i], table)->Ok_0
            == key_order(ks[i], ks[i], table)->Ok_0.flipped());
        assert(key_order(ks[a], ks[i], table) is Ok);
    }
    assert forall|b: int| j <= b < je implies not_after(#[trigger] ks[n + b], ks[n + j], table)
        && not_after(ks[n + j], ks[n + b], table) && ks[n + b] == rs[b][rk as int] && !(ks[n
        + b] is Null) by {
        assert(ks[n + b] == rs[b][rk as int]);
        assert(key_order(ks[n + j], ks[n + j], table) is Ok && key_order(
            ks[n + j],
            ks[n + j],
            table,
        )->Ok_0 == key_order(ks[n + j], ks[n + j], table)->Ok_0.flipped());
        assert(key_order(ks[n + b], ks[n + j], table) is Ok);
    }
    assert(not_after(ks[i], ks[n + j], table) && not_after(ks[n + j], ks[i], table)) by {
        assert(key_order(ks[i], ks[n + j], table) is Ok);
    }
    // Rows past a group are strictly after its key, or null.
    assert forall|a: int| ie <= a < ls.len() && !(ls[a][lk as int] is Null) implies !not_after(
        #[trigger] ks[a],
        ks[i],
        table,
    ) && ks[a] == ls[a][lk as int] by {
        assert(ks[a] == ls[a][lk as int] && ks[ie] == ls[ie][lk as int]);
        assert(ls[ie] == ls[ie] && ls[a] == ls[a] && ls[i] == ls[i]);
        if ls[ie][lk as int] is Null {
            assert(a > ie);
        } else {
            assert(not_after(ks[i], ks[ie], table));
            assert(key_order(ks[ie], ks[i], table) is Ok);
            assert(key_order(ks[i], ks[ie], table) is Ok);
            assert(!not_after(ks[ie], ks[i], table));
            if a > ie && not_after(ks[a], ks[i], table) {
                assert(not_after(ks[ie], ks[a], table));
                assert(not_after(ks[ie], ks[i], table));
            }
        }
    }
    assert forall|b: int| je <= b < rs.len() && !(rs[b][rk as int] is Null) implies !not_after(
        #[trigger] ks[n + b],
        ks[n + j],
        table,
    ) && ks[n + b] == rs[b][rk as int] by {
        assert(ks[n + b] == rs[b][rk as int] && ks[n + je] == rs[je][rk as int]);
        assert(rs[je] == rs[je] && rs[b] == rs[b] && rs[j] == rs[j]);
        if rs[je][rk as int] is Null {
            assert(b > je);
        } else {
            assert(not_after(ks[n + j], ks[n + je], table));
            assert(key_order(ks[n + je], ks[n + j], table) is Ok);
            assert(key_order(ks[n + j], ks[n + je], table) is Ok);
            assert(!not_after(ks[n + je], ks[n + j], table));
            if b > je && not_after(ks[n + b], ks[n + j], table) {
                assert(not_after(ks[n + je], ks[n + b], table));
                assert(not_after(ks[n + je], ks[n + j], table));
            }
        }
    }
    assert forall|a: int, b: int| i <= a < ie && 0 <= b < rs.len() implies #[trigger] m(
        ls[a],
        rs[b],
    ) == (j <= b < je) by {
        let u = ks[a];
        let v = ks[n + b];
        assert(v == rs[b][rk as int] && u == ls[a][lk as int]);
        if j <= b < je {
            assert(not_after(ks[a], ks[i], table) && not_after(ks[i], ks[n + j], table));
            assert(not_after(ks[a], ks[n + j], table));
            assert(not_after(ks[n + j], ks[n + b], table));
            assert(not_after(ks[a], ks[n + b], table));
            assert(not_after(ks[n + b], ks[n + j], table) && not_after(ks[n + j], ks[i], table));
            assert(not_after(ks[n + b], ks[i], table));
            assert(not_after(ks[i], ks[a], table));
            assert(not_after(ks[n + b], ks[a], table));
            assert(key_order(ks[a], ks[n + b], table) is Ok);
        } else if b >= je && !(v is Null) && m(ls[a], rs[b]) {
            assert(key_order(ks[a], ks[n + b], table) is Ok);
            assert(not_after(ks[n + b], ks[a], table));
            assert(not_after(ks[a], ks[i], table));
            assert(not_after(ks[n + b], ks[i], table));
            assert(not_after(ks[i], ks[n + j], table));
            assert(not_after(ks[n + b], ks[n + j], table));
        }
    }
    assert forall|a: int, b: int| ie <= a < ls.len() && 0 <= b < je implies !#[trigger] m(
        ls[a],
        rs[b],
    ) by {
        let u = ks[a];
        let v = ks[n + b];
        assert(v == rs[b][rk as int] && u == ls[a][lk as int]);
        if b >= j && !(u is Null) && m(ls[a], rs[b]) {
            assert(not_after(ks[a], ks[n + b], table));
            assert(not_after(ks[n + b], ks[n + j], table));
            assert(not_after(ks[a], ks[n + j], table));
            assert(not_after(ks[n + j], ks[i], table));
            assert(not_after(ks[a], ks[i], table));
        }
    }
}

/// Where the keys compare a run has an end: its rows compare equal to its key, and the row
/// after it does not.
proof fn lemma_run_is_the_group(
    rows: Seq<Row>,
    key: nat,
    k: Datum,
    at: nat,
    table: Seq<(Question, Answer)>,
)
    requires
        at <= rows.len(),
        forall|a: int|
            0 <= a < rows.len() && !((#[trigger] rows[a])[key as int] is Null) ==> key_order(
                rows[a][key as int],
                k,
                table,
            ) is Ok,
    ensures
        run_end(rows, key, k, at, table) is Ok,
        ({
            let end = run_end(rows, key, k, at, table)->Ok_0;
            &&& at <= end <= rows.len()
            &&& forall|a: int|
                at <= a < end ==> !((#[trigger] rows[a])[key as int] is Null) && key_order(
                    rows[a][key as int],
                    k,
                    table,
                ) == Ok::<Order, Fault>(Order::Same)
            &&& end < rows.len() ==> rows[end as int][key as int] is Null || (key_order(
                rows[end as int][key as int],
                k,
                table,
            ) is Ok && key_order(rows[end as int][key as int], k, table)->Ok_0 != Order::Same)
        }),
    decreases rows.len() - at,
{
    if at < rows.len() && !(rows[at as int][key as int] is Null) {
        if key_order(rows[at as int][key as int], k, table)->Ok_0 == Order::Same {
            lemma_run_is_the_group(rows, key, k, at + 1, table);
        }
    }
}

proof fn lemma_merged_pairs(
    ls: Seq<Row>,
    rs: Seq<Row>,
    lk: nat,
    rk: nat,
    table: Seq<(Question, Answer)>,
    i: nat,
    j: nat,
)
    requires
        mergeable(ls, rs, lk, rk, table),
        i <= ls.len(),
        j <= rs.len(),
        forall|a: int, b: int|
            i <= a < ls.len() && 0 <= b < j ==> !#[trigger] merge_matching(lk, rk, table)(
                ls[a],
                rs[b],
            ),
    ensures
        merged(ls, rs, i, j, lk, rk, table) is Ok,
        pairs(ls, rs, merge_matching(lk, rk, table)) == pairs(
            ls.take(i as int),
            rs,
            merge_matching(lk, rk, table),
        ).add(merged(ls, rs, i, j, lk, rk, table)->Ok_0.to_multiset()),
    decreases ls.len() - i + rs.len() - j,
{
    broadcast use vstd::seq_lib::group_to_multiset_ensures;

    let m = merge_matching(lk, rk, table);
    let ks = keys_at(ls, lk) + keys_at(rs, rk);
    if i >= ls.len() || j >= rs.len() {
        assert forall|a: int, b: int| i <= a < ls.len() && 0 <= b < rs.len() implies !#[trigger] m(
            ls[a],
            rs[b],
        ) by {}
        lemma_skip_left(ls, rs, i as int, ls.len() as int, m);
        assert(ls.take(ls.len() as int) =~= ls);
        assert(pairs(ls.take(i as int), rs, m).add(Seq::<Row>::empty().to_multiset()) =~= pairs(
            ls.take(i as int),
            rs,
            m,
        ));
    } else {
        let x = ls[i as int][lk as int];
        let y = rs[j as int][rk as int];
        assert(ks[i as int] == x && ks[ls.len() as int + j] == y);
        if x is Null {
            assert forall|a: int, b: int| i <= a < i + 1 && 0 <= b < rs.len() implies !#[trigger] m(
                ls[a],
                rs[b],
            ) by {}
            lemma_skip_left(ls, rs, i as int, i as int + 1, m);
            lemma_merged_pairs(ls, rs, lk, rk, table, i + 1, j);
        } else if y is Null {
            lemma_merged_pairs(ls, rs, lk, rk, table, i, j + 1);
        } else {
            assert(key_order(ks[i as int], ks[ls.len() as int + j], table) is Ok);
            match key_order(x, y, table)->Ok_0 {
                Order::Less => {
                    lemma_less_matches_nothing(ls, rs, lk, rk, table, i as int, j as int);
                    lemma_skip_left(ls, rs, i as int, i as int + 1, m);
                    lemma_merged_pairs(ls, rs, lk, rk, table, i + 1, j);
                },
                Order::Greater => {
                    lemma_greater_matches_nothing(ls, rs, lk, rk, table, i as int, j as int);
                    lemma_merged_pairs(ls, rs, lk, rk, table, i, j + 1);
                },
                Order::Same => {
                    assert forall|a: int|
                        0 <= a < ls.len() && !((#[trigger] ls[a])[lk as int] is Null) implies key_order(
                        ls[a][lk as int],
                        x,
                        table,
                    ) is Ok by {
                        assert(key_order(ks[a], ks[i as int], table) is Ok);
                    }
                    assert forall|b: int|
                        0 <= b < rs.len() && !((#[trigger] rs[b])[rk as int] is Null) implies key_order(
                        rs[b][rk as int],
                        y,
                        table,
                    ) is Ok by {
                        assert(ks[ls.len() + b] == rs[b][rk as int]);
                        assert(key_order(ks[ls.len() + b], ks[ls.len() as int + j], table) is Ok);
                    }
                    lemma_run_is_the_group(ls, lk, x, i + 1, table);
                    lemma_run_is_the_group(rs, rk, y, j + 1, table);
                    let ie = run_end(ls, lk, x, i + 1, table)->Ok_0;
                    let je = run_end(rs, rk, y, j + 1, table)->Ok_0;
                    lemma_group(
                        ls,
                        rs,
                        lk,
                        rk,
                        table,
                        i as int,
                        ie as int,
                        j as int,
                        je as int,
                    );
                    lemma_group_pairs(ls, rs, i as int, ie as int, j as int, je as int, m);
                    lemma_merged_pairs(ls, rs, lk, rk, table, ie, je);
                    let group = product(
                        ls.subrange(i as int, ie as int),
                        rs.subrange(j as int, je as int),
                    );
                    let rest = merged(ls, rs, ie, je, lk, rk, table)->Ok_0;
                    lemma_product_pairs(
                        ls.subrange(i as int, ie as int),
                        rs.subrange(j as int, je as int),
                    );
                    vstd::seq_lib::lemma_multiset_commutative(group, rest);
                    assert(pairs(ls.take(i as int), rs, m).add((group + rest).to_multiset())
                        =~= pairs(ls.take(ie as int), rs, m).add(rest.to_multiset()));
                },
            }
        }
    }
}

/// A merge of sides that are sorted on ordered keys succeeds, and its rows are the pairs of
/// rows with equal keys.
pub proof fn law_a_merge_of_sorted_sides_gives_their_pairs(
    left: Seq<Row>,
    right: Seq<Row>,
    left_key: nat,
    right_key: nat,
    table: Seq<(Question, Answer)>,
)
    requires
        mergeable(left, right, left_key, right_key, table),
    ensures
        merged(left, right, 0, 0, left_key, right_key, table) is Ok,
        merged(left, right, 0, 0, left_key, right_key, table)->Ok_0.to_multiset() == pairs(
            left,
            right,
            merge_matching(left_key, right_key, table),
        ),
{
    let m = merge_matching(left_key, right_key, table);
    lemma_merged_pairs(left, right, left_key, right_key, table, 0, 0);
    assert(left.take(0) =~= Seq::<Row>::empty());
    assert(pairs(left.take(0), right, m) =~= Multiset::<Row>::empty());
    assert(merged(left, right, 0, 0, left_key, right_key, table)->Ok_0.to_multiset() =~= pairs(
        left,
        right,
        m,
    ));
}

/// An inner join on a merge's matching is its pairs alone.
pub proof fn law_merge_is_the_inner_join(
    left: Seq<Row>,
    right: Seq<Row>,
    m: Matching,
    left_width: nat,
    right_width: nat,
)
    ensures
        joined(left, right, m, JoinType::Inner, left_width, right_width) == pairs(left, right, m),
{
    assert(joined(left, right, m, JoinType::Inner, left_width, right_width) =~= pairs(
        left,
        right,
        m,
    ));
}

} // verus!
