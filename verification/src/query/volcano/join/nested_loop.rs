//! Nested-loop joins, row by row and block by block: the general algorithm, right for any
//! predicate and for cross joins.

use vstd::multiset::Multiset;
use vstd::prelude::*;

use super::model::{
    joined, left_matched, lone_left, lone_right, pairs, pairs_of, right_matched, JoinType, Matching,
};
use crate::query::error::{agrees, Fault, QueryError};
use crate::query::expression::eval::evaluated;
use crate::query::expression::{Expr, opt_term, Term};
use crate::query::host::{Answer, Answers, Question};
use crate::query::volcano::rows::{concat, nulls, pad_left, pad_right, Row};
use crate::storage::types::{rows_of, Datum, Tuple, Value};

verus! {

/// Outer rows per block: the inner side is scanned once for each block.
pub const OUTER_BLOCK_TUPLES: usize = 1024;

/// Whether a pair of rows satisfies the predicate: it must come out true. Without a predicate
/// every pair does.
pub open spec fn hit(on: Option<Term>, l: Row, r: Row, table: Seq<(Question, Answer)>) -> Result<
    bool,
    Fault,
> {
    match on {
        None => Ok(true),
        Some(p) => match evaluated(p, l + r, table) {
            Ok(d) => Ok(d == Datum::Bool(true)),
            Err(f) => Err(f),
        },
    }
}

/// The matching that a predicate stands for.
pub open spec fn matching(on: Option<Term>, table: Seq<(Question, Answer)>) -> Matching {
    |l: Row, r: Row| hit(on, l, r, table) == Ok::<bool, Fault>(true)
}

/// Whether the predicate has a value on every pair.
pub open spec fn all_decided(
    left: Seq<Row>,
    right: Seq<Row>,
    on: Option<Term>,
    table: Seq<(Question, Answer)>,
) -> bool {
    forall|i: int, j: int|
        0 <= i < left.len() && 0 <= j < right.len() ==> #[trigger] hit(
            on,
            left[i],
            right[j],
            table,
        ) is Ok
}

/// The pairs that `l` forms with the first `n` right rows, in their order.
pub open spec fn loop_pairs(
    l: Row,
    right: Seq<Row>,
    n: nat,
    on: Option<Term>,
    table: Seq<(Question, Answer)>,
) -> Result<Seq<Row>, Fault>
    decreases n,
{
    if n == 0 || n > right.len() {
        Ok(Seq::empty())
    } else {
        match loop_pairs(l, right, (n - 1) as nat, on, table) {
            Err(f) => Err(f),
            Ok(before) => match hit(on, l, right[n - 1], table) {
                Err(f) => Err(f),
                Ok(b) => Ok(
                    if b {
                        before.push(l + right[n - 1])
                    } else {
                        before
                    },
                ),
            },
        }
    }
}

/// What the first `n` left rows contribute, in their order: each its pairs, or itself padded
/// where it has none and the join keeps it.
pub open spec fn loop_rows(
    left: Seq<Row>,
    n: nat,
    right: Seq<Row>,
    on: Option<Term>,
    jt: JoinType,
    right_width: nat,
    table: Seq<(Question, Answer)>,
) -> Result<Seq<Row>, Fault>
    decreases n,
{
    if n == 0 || n > left.len() {
        Ok(Seq::empty())
    } else {
        match loop_rows(left, (n - 1) as nat, right, on, jt, right_width, table) {
            Err(f) => Err(f),
            Ok(before) => match loop_pairs(left[n - 1], right, right.len(), on, table) {
                Err(f) => Err(f),
                Ok(mine) => Ok(
                    if mine.len() == 0 && jt.keeps_left() {
                        before.push(left[n - 1] + nulls(right_width))
                    } else {
                        before + mine
                    },
                ),
            },
        }
    }
}

/// Those of the first `n` right rows that match nothing, padded, in their order.
pub open spec fn loop_tail(
    left: Seq<Row>,
    right: Seq<Row>,
    n: nat,
    m: Matching,
    left_width: nat,
) -> Seq<Row>
    decreases n,
{
    if n == 0 || n > right.len() {
        Seq::empty()
    } else {
        let before = loop_tail(left, right, (n - 1) as nat, m, left_width);
        if right_matched(left, right[n - 1], m) {
            before
        } else {
            before.push(nulls(left_width) + right[n - 1])
        }
    }
}

/// The rows of a nested-loop join, in the order it produces them.
pub open spec fn loop_joined(
    left: Seq<Row>,
    right: Seq<Row>,
    on: Option<Term>,
    jt: JoinType,
    left_width: nat,
    right_width: nat,
    table: Seq<(Question, Answer)>,
) -> Result<Seq<Row>, Fault> {
    match loop_rows(left, left.len(), right, on, jt, right_width, table) {
        Err(f) => Err(f),
        Ok(rows) => Ok(
            if jt.keeps_right() {
                rows + loop_tail(left, right, right.len(), matching(on, table), left_width)
            } else {
                rows
            },
        ),
    }
}

/// Whether a pair of rows satisfies the predicate.
pub fn pair_matches(on: &Option<Expr>, combined: &Tuple, answers: &Answers) -> (r: Result<
    bool,
    QueryError,
>)
    ensures
        forall|l: Row, x: Row|
            combined@ == l + x ==> agrees(r, #[trigger] hit(opt_term(*on), l, x, answers@)),
{
    match on {
        None => Ok(true),
        Some(pred) => match pred.eval(combined, answers) {
            Ok(Value::Bool(b)) => Ok(b),
            Ok(_) => Ok(false),
            Err(e) => Err(e),
        },
    }
}

proof fn lemma_loop_pairs_stop(
    l: Row,
    right: Seq<Row>,
    m: nat,
    n: nat,
    on: Option<Term>,
    table: Seq<(Question, Answer)>,
)
    requires
        m <= n <= right.len(),
        loop_pairs(l, right, m, on, table) is Err,
    ensures
        loop_pairs(l, right, n, on, table) == loop_pairs(l, right, m, on, table),
    decreases n,
{
    if m < n {
        lemma_loop_pairs_stop(l, right, m, (n - 1) as nat, on, table);
    }
}

proof fn lemma_loop_rows_stop(
    left: Seq<Row>,
    m: nat,
    n: nat,
    right: Seq<Row>,
    on: Option<Term>,
    jt: JoinType,
    right_width: nat,
    table: Seq<(Question, Answer)>,
)
    requires
        m <= n <= left.len(),
        loop_rows(left, m, right, on, jt, right_width, table) is Err,
    ensures
        loop_rows(left, n, right, on, jt, right_width, table) == loop_rows(
            left,
            m,
            right,
            on,
            jt,
            right_width,
            table,
        ),
    decreases n,
{
    if m < n {
        lemma_loop_rows_stop(left, m, (n - 1) as nat, right, on, jt, right_width, table);
    }
}

/// A vector of `n` times false.
pub fn all_false(n: usize) -> (r: Vec<bool>)
    ensures
        r@.len() == n,
        forall|i: int| 0 <= i < n ==> !#[trigger] r@[i],
{
    let mut v: Vec<bool> = Vec::new();
    let mut i: usize = 0;
    while i < n
        invariant
            i <= n,
            v@.len() == i,
            forall|j: int| 0 <= j < i ==> !#[trigger] v@[j],
        decreases n - i,
    {
        v.push(false);
        i = i + 1;
    }
    v
}

/// A right row is matched by one more left row exactly where it was matched before or that row
/// matches it.
proof fn lemma_matched_push(left: Seq<Row>, n: int, r: Row, m: Matching)
    requires
        0 <= n < left.len(),
    ensures
        right_matched(left.take(n + 1), r, m) == (right_matched(left.take(n), r, m) || m(
            left[n],
            r,
        )),
{
    let a = left.take(n);
    let b = left.take(n + 1);
    if right_matched(b, r, m) {
        let i = choose|i: int| 0 <= i < b.len() && m(#[trigger] b[i], r);
        if i < n {
            assert(a[i] == b[i]);
        }
    }
    if right_matched(a, r, m) {
        let i = choose|i: int| 0 <= i < a.len() && m(#[trigger] a[i], r);
        assert(b[i] == a[i]);
    }
    if m(left[n], r) {
        assert(b[n] == left[n]);
    }
}

/// Tuple-at-a-time nested-loop join.
pub fn nested_loop_join(
    left: &Vec<Tuple>,
    right: &Vec<Tuple>,
    on: &Option<Expr>,
    jt: JoinType,
    left_width: usize,
    right_width: usize,
    answers: &Answers,
) -> (r: Result<Vec<Tuple>, QueryError>)
    ensures
        match (
            r,
            loop_joined(
                rows_of(left@),
                rows_of(right@),
                opt_term(*on),
                jt,
                left_width as nat,
                right_width as nat,
                answers@,
            ),
        ) {
            (Ok(out), Ok(want)) => rows_of(out@) == want,
            (Err(e), Err(f)) => e@ == f,
            _ => false,
        },
{
    let ghost ls = rows_of(left@);
    let ghost rs = rows_of(right@);
    let ghost p = opt_term(*on);
    let ghost m = matching(p, answers@);
    let mut out: Vec<Tuple> = Vec::new();
    let mut matched = all_false(right.len());
    let mut i: usize = 0;
    assert(rows_of(out@) =~= Seq::<Row>::empty());
    assert forall|j: int| 0 <= j < rs.len() implies !right_matched(ls.take(0), #[trigger] rs[j], m) by {}
    while i < left.len()
        invariant
            i <= left@.len(),
            ls == rows_of(left@),
            rs == rows_of(right@),
            p == opt_term(*on),
            m == matching(p, answers@),
            matched@.len() == right@.len(),
            loop_rows(ls, i as nat, rs, p, jt, right_width as nat, answers@) == Ok::<
                Seq<Row>,
                Fault,
            >(rows_of(out@)),
            forall|j: int|
                0 <= j < rs.len() ==> matched@[j] == right_matched(
                    ls.take(i as int),
                    #[trigger] rs[j],
                    m,
                ),
        decreases left@.len() - i,
    {
        let ghost before = rows_of(out@);
        let ghost l = ls[i as int];
        let ghost was = matched@;
        assert(l == left@[i as int]@);
        let mut mine: Vec<Tuple> = Vec::new();
        let mut j: usize = 0;
        assert(rows_of(mine@) =~= Seq::<Row>::empty());
        while j < right.len()
            invariant
                i < left@.len(),
                j <= right@.len(),
                ls == rows_of(left@),
                rs == rows_of(right@),
                l == ls[i as int],
                p == opt_term(*on),
                m == matching(p, answers@),
                matched@.len() == was.len() == right@.len(),
                loop_rows(ls, i as nat, rs, p, jt, right_width as nat, answers@) is Ok,
                loop_pairs(l, rs, j as nat, p, answers@) == Ok::<Seq<Row>, Fault>(rows_of(mine@)),
                forall|k: int|
                    0 <= k < rs.len() ==> #[trigger] matched@[k] == (was[k] || (k < j && m(
                        l,
                        rs[k],
                    ))),
            decreases right@.len() - j,
        {
            let ghost mine_before = rows_of(mine@);
            let combined = concat(&left[i], &right[j]);
            assert(rs[j as int] == right@[j as int]@);
            match pair_matches(on, &combined, answers) {
                Err(e) => {
                    proof {
                        assert(agrees(Err::<bool, QueryError>(e), hit(p, l, rs[j as int], answers@)));
                        lemma_loop_pairs_stop(l, rs, (j + 1) as nat, rs.len(), p, answers@);
                        lemma_loop_rows_stop(
                            ls,
                            (i + 1) as nat,
                            ls.len(),
                            rs,
                            p,
                            jt,
                            right_width as nat,
                            answers@,
                        );
                    }
                    return Err(e);
                },
                Ok(b) => {
                    assert(agrees(Ok::<bool, QueryError>(b), hit(p, l, rs[j as int], answers@)));
                    if b {
                        matched.set(j, true);
                        mine.push(combined);
                        assert(rows_of(mine@) =~= mine_before.push(combined@));
                    }
                },
            }
            j = j + 1;
        }
        proof {
            assert forall|k: int| 0 <= k < rs.len() implies matched@[k] == right_matched(
                ls.take(i + 1),
                #[trigger] rs[k],
                m,
            ) by {
                lemma_matched_push(ls, i as int, rs[k], m);
            }
        }
        if mine.len() == 0 && jt.outer_left() {
            let padded = pad_right(&left[i], right_width);
            out.push(padded);
            assert(rows_of(out@) =~= before.push(padded@));
        } else {
            let ghost add = rows_of(mine@);
            let ghost outs = out@;
            let ghost mines = mine@;
            out.append(&mut mine);
            assert(rows_of(out@) =~= before + add);
        }
        i = i + 1;
    }
    assert(ls.take(ls.len() as int) =~= ls);
    if jt.outer_right() {
        let ghost front = rows_of(out@);
        let mut j: usize = 0;
        assert(rows_of(out@) =~= front + loop_tail(ls, rs, 0, m, left_width as nat));
        while j < right.len()
            invariant
                j <= right@.len(),
                rs == rows_of(right@),
                matched@.len() == right@.len(),
                forall|k: int|
                    0 <= k < rs.len() ==> matched@[k] == right_matched(ls, #[trigger] rs[k], m),
                rows_of(out@) == front + loop_tail(ls, rs, j as nat, m, left_width as nat),
            decreases right@.len() - j,
        {
            let ghost before = rows_of(out@);
            assert(rs[j as int] == right@[j as int]@);
            if !matched[j] {
                let padded = pad_left(left_width, &right[j]);
                out.push(padded);
                assert(rows_of(out@) =~= before.push(padded@));
                assert(rows_of(out@) =~= front + loop_tail(
                    ls,
                    rs,
                    (j + 1) as nat,
                    m,
                    left_width as nat,
                ));
            }
            j = j + 1;
        }
    }
    Ok(out)
}

// --- the loop as a multiset ---

proof fn lemma_loop_pairs_multiset(
    l: Row,
    right: Seq<Row>,
    n: nat,
    on: Option<Term>,
    table: Seq<(Question, Answer)>,
)
    requires
        n <= right.len(),
        loop_pairs(l, right, n, on, table) is Ok,
    ensures
        loop_pairs(l, right, n, on, table)->Ok_0.to_multiset() == pairs_of(
            l,
            right.take(n as int),
            matching(on, table),
        ),
        (loop_pairs(l, right, n, on, table)->Ok_0.len() > 0) == left_matched(
            l,
            right.take(n as int),
            matching(on, table),
        ),
    decreases n,
{
    broadcast use vstd::seq_lib::group_to_multiset_ensures;

    let m = matching(on, table);
    let part = right.take(n as int);
    if n == 0 {
        assert(part =~= Seq::<Row>::empty());
        assert(loop_pairs(l, right, 0, on, table)->Ok_0.to_multiset() =~= Multiset::<Row>::empty());
    } else {
        lemma_loop_pairs_multiset(l, right, (n - 1) as nat, on, table);
        assert(part.drop_last() =~= right.take(n - 1));
        assert(part.last() == right[n - 1]);
        let prev = right.take(n - 1);
        if left_matched(l, prev, m) {
            let j = choose|j: int| 0 <= j < prev.len() && m(l, #[trigger] prev[j]);
            assert(part[j] == prev[j]);
        }
        if m(l, right[n - 1]) {
            assert(m(l, part[n - 1]));
        }
        if left_matched(l, part, m) {
            let j = choose|j: int| 0 <= j < part.len() && m(l, #[trigger] part[j]);
            if j < n - 1 {
                assert(prev[j] == part[j]);
            }
        }
    }
}

proof fn lemma_loop_rows_multiset(
    left: Seq<Row>,
    n: nat,
    right: Seq<Row>,
    on: Option<Term>,
    jt: JoinType,
    right_width: nat,
    table: Seq<(Question, Answer)>,
)
    requires
        n <= left.len(),
        loop_rows(left, n, right, on, jt, right_width, table) is Ok,
    ensures
        loop_rows(left, n, right, on, jt, right_width, table)->Ok_0.to_multiset() == pairs(
            left.take(n as int),
            right,
            matching(on, table),
        ).add(
            if jt.keeps_left() {
                lone_left(left.take(n as int), right, matching(on, table), right_width)
            } else {
                Multiset::empty()
            },
        ),
    decreases n,
{
    broadcast use vstd::seq_lib::group_to_multiset_ensures;

    let m = matching(on, table);
    let part = left.take(n as int);
    let rows = loop_rows(left, n, right, on, jt, right_width, table)->Ok_0;
    if n == 0 {
        assert(part =~= Seq::<Row>::empty());
    } else {
        lemma_loop_rows_multiset(left, (n - 1) as nat, right, on, jt, right_width, table);
        lemma_loop_pairs_multiset(left[n - 1], right, right.len(), on, table);
        assert(right.take(right.len() as int) =~= right);
        assert(part.drop_last() =~= left.take(n - 1));
        assert(part.last() == left[n - 1]);
        let before = loop_rows(left, (n - 1) as nat, right, on, jt, right_width, table)->Ok_0;
        let mine = loop_pairs(left[n - 1], right, right.len(), on, table)->Ok_0;
        if mine.len() == 0 {
            assert(mine.to_multiset() =~= Multiset::<Row>::empty());
            assert(before + mine =~= before);
        } else {
            vstd::seq_lib::lemma_multiset_commutative(before, mine);
        }
    }
    assert(rows.to_multiset() =~= pairs(part, right, m).add(
        if jt.keeps_left() {
            lone_left(part, right, m, right_width)
        } else {
            Multiset::empty()
        },
    ));
}

proof fn lemma_loop_tail_multiset(
    left: Seq<Row>,
    right: Seq<Row>,
    n: nat,
    m: Matching,
    left_width: nat,
)
    requires
        n <= right.len(),
    ensures
        loop_tail(left, right, n, m, left_width).to_multiset() == lone_right(
            left,
            right.take(n as int),
            m,
            left_width,
        ),
    decreases n,
{
    broadcast use vstd::seq_lib::group_to_multiset_ensures;

    let part = right.take(n as int);
    if n == 0 {
        assert(part =~= Seq::<Row>::empty());
        assert(loop_tail(left, right, 0, m, left_width).to_multiset() =~= Multiset::<Row>::empty());
    } else {
        lemma_loop_tail_multiset(left, right, (n - 1) as nat, m, left_width);
        assert(part.drop_last() =~= right.take(n - 1));
        assert(part.last() == right[n - 1]);
    }
}

proof fn lemma_loop_pairs_decided(
    l: Row,
    right: Seq<Row>,
    n: nat,
    on: Option<Term>,
    table: Seq<(Question, Answer)>,
)
    requires
        n <= right.len(),
    ensures
        loop_pairs(l, right, n, on, table) is Ok <==> (forall|j: int|
            0 <= j < n ==> hit(on, l, #[trigger] right[j], table) is Ok),
    decreases n,
{
    if n > 0 {
        lemma_loop_pairs_decided(l, right, (n - 1) as nat, on, table);
        if loop_pairs(l, right, n, on, table) is Ok {
            assert(hit(on, l, right[n - 1], table) is Ok);
        }
    }
}

proof fn lemma_loop_rows_decided(
    left: Seq<Row>,
    n: nat,
    right: Seq<Row>,
    on: Option<Term>,
    jt: JoinType,
    right_width: nat,
    table: Seq<(Question, Answer)>,
)
    requires
        n <= left.len(),
    ensures
        loop_rows(left, n, right, on, jt, right_width, table) is Ok <==> all_decided(
            left.take(n as int),
            right,
            on,
            table,
        ),
    decreases n,
{
    let part = left.take(n as int);
    if n > 0 {
        lemma_loop_rows_decided(left, (n - 1) as nat, right, on, jt, right_width, table);
        lemma_loop_pairs_decided(left[n - 1], right, right.len(), on, table);
        let prev = left.take(n - 1);
        if all_decided(part, right, on, table) {
            assert forall|i: int, j: int|
                0 <= i < prev.len() && 0 <= j < right.len() implies #[trigger] hit(
                on,
                prev[i],
                right[j],
                table,
            ) is Ok by {
                assert(hit(on, part[i], right[j], table) is Ok);
            }
            assert forall|j: int| 0 <= j < right.len() implies hit(
                on,
                left[n - 1],
                #[trigger] right[j],
                table,
            ) is Ok by {
                assert(hit(on, part[n - 1], right[j], table) is Ok);
            }
        }
        if loop_rows(left, n, right, on, jt, right_width, table) is Ok {
            assert forall|i: int, j: int|
                0 <= i < part.len() && 0 <= j < right.len() implies #[trigger] hit(
                on,
                part[i],
                right[j],
                table,
            ) is Ok by {
                if i < n - 1 {
                    assert(hit(on, prev[i], right[j], table) is Ok);
                } else {
                    assert(hit(on, left[n - 1], right[j], table) is Ok);
                }
            }
        }
    }
}

/// A nested-loop join succeeds exactly where the predicate has a value on every pair, and then
/// its rows are those of the join.
pub proof fn law_nested_loop_is_the_join(
    left: Seq<Row>,
    right: Seq<Row>,
    on: Option<Term>,
    jt: JoinType,
    left_width: nat,
    right_width: nat,
    table: Seq<(Question, Answer)>,
)
    ensures
        loop_joined(left, right, on, jt, left_width, right_width, table) is Ok <==> all_decided(
            left,
            right,
            on,
            table,
        ),
        loop_joined(left, right, on, jt, left_width, right_width, table) is Ok ==> loop_joined(
            left,
            right,
            on,
            jt,
            left_width,
            right_width,
            table,
        )->Ok_0.to_multiset() == joined(
            left,
            right,
            matching(on, table),
            jt,
            left_width,
            right_width,
        ),
{
    let m = matching(on, table);
    assert(left.take(left.len() as int) =~= left);
    assert(right.take(right.len() as int) =~= right);
    lemma_loop_rows_decided(left, left.len(), right, on, jt, right_width, table);
    if loop_joined(left, right, on, jt, left_width, right_width, table) is Ok {
        lemma_loop_rows_multiset(left, left.len(), right, on, jt, right_width, table);
        lemma_loop_tail_multiset(left, right, right.len(), m, left_width);
        let rows = loop_rows(left, left.len(), right, on, jt, right_width, table)->Ok_0;
        let tail = loop_tail(left, right, right.len(), m, left_width);
        vstd::seq_lib::lemma_multiset_commutative(rows, tail);
        assert(loop_joined(
            left,
            right,
            on,
            jt,
            left_width,
            right_width,
            table,
        )->Ok_0.to_multiset() =~= joined(left, right, m, jt, left_width, right_width));
    }
}

} // verus!
