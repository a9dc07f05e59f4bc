//! Block nested-loop join: the outer side is taken in blocks, and the inner side is scanned once
//! for each block instead of once for each outer row. The order of the output differs from the
//! row-by-row loop's; SQL leaves it open.

use vstd::multiset::Multiset;
use vstd::prelude::*;

use super::model::{
    joined, left_matched, lone_left, lone_right, pairs, right_matched, JoinType, Matching,
};
use super::nested_loop::{all_decided, all_false, hit, matching, pair_matches, OUTER_BLOCK_TUPLES};
use crate::query::error::{agrees, Fault, QueryError};
use crate::query::expression::{opt_term, Expr, Term};
use crate::query::host::{Answer, Answers, Question};
use crate::query::volcano::rows::{concat, pad_left, pad_right, Row};
use crate::storage::types::{rows_of, Tuple};

verus! {

/// The pairs that one right row forms with the left rows it matches.
pub open spec fn column_pairs(left: Seq<Row>, r: Row, m: Matching) -> Multiset<Row>
    decreases left.len(),
{
    if left.len() == 0 {
        Multiset::empty()
    } else {
        let before = column_pairs(left.drop_last(), r, m);
        if m(left.last(), r) {
            before.insert(left.last() + r)
        } else {
            before
        }
    }
}

/// One more right row adds its pairs.
pub proof fn lemma_pairs_next_right(left: Seq<Row>, right: Seq<Row>, k: int, m: Matching)
    requires
        0 <= k < right.len(),
    ensures
        pairs(left, right.take(k + 1), m) == pairs(left, right.take(k), m).add(
            column_pairs(left, right[k], m),
        ),
    decreases left.len(),
{
    if left.len() > 0 {
        lemma_pairs_next_right(left.drop_last(), right, k, m);
        let part = right.take(k + 1);
        assert(part.drop_last() =~= right.take(k));
        assert(part.last() == right[k]);
    }
    assert(pairs(left, right.take(k + 1), m) =~= pairs(left, right.take(k), m).add(
        column_pairs(left, right[k], m),
    ));
}

/// Without right rows there are no pairs.
pub proof fn lemma_no_pairs(left: Seq<Row>, m: Matching)
    ensures
        pairs(left, Seq::empty(), m) == Multiset::<Row>::empty(),
    decreases left.len(),
{
    if left.len() > 0 {
        lemma_no_pairs(left.drop_last(), m);
    }
    assert(pairs(left, Seq::empty(), m) =~= Multiset::<Row>::empty());
}

proof fn lemma_pairs_append(a: Seq<Row>, b: Seq<Row>, right: Seq<Row>, m: Matching)
    ensures
        pairs(a + b, right, m) == pairs(a, right, m).add(pairs(b, right, m)),
    decreases b.len(),
{
    if b.len() == 0 {
        assert(a + b =~= a);
    } else {
        lemma_pairs_append(a, b.drop_last(), right, m);
        assert((a + b).drop_last() =~= a + b.drop_last());
        assert((a + b).last() == b.last());
    }
    assert(pairs(a + b, right, m) =~= pairs(a, right, m).add(pairs(b, right, m)));
}

proof fn lemma_lone_append(a: Seq<Row>, b: Seq<Row>, right: Seq<Row>, m: Matching, width: nat)
    ensures
        lone_left(a + b, right, m, width) == lone_left(a, right, m, width).add(
            lone_left(b, right, m, width),
        ),
    decreases b.len(),
{
    if b.len() == 0 {
        assert(a + b =~= a);
    } else {
        lemma_lone_append(a, b.drop_last(), right, m, width);
        assert((a + b).drop_last() =~= a + b.drop_last());
        assert((a + b).last() == b.last());
    }
    assert(lone_left(a + b, right, m, width) =~= lone_left(a, right, m, width).add(
        lone_left(b, right, m, width),
    ));
}

/// One more right row matches `l` exactly where it did before or that row does.
pub proof fn lemma_left_matched_next(l: Row, right: Seq<Row>, k: int, m: Matching)
    requires
        0 <= k < right.len(),
    ensures
        left_matched(l, right.take(k + 1), m) == (left_matched(l, right.take(k), m) || m(
            l,
            right[k],
        )),
{
    let a = right.take(k);
    let b = right.take(k + 1);
    if left_matched(l, b, m) {
        let j = choose|j: int| 0 <= j < b.len() && m(l, #[trigger] b[j]);
        if j < k {
            assert(a[j] == b[j]);
        }
    }
    if left_matched(l, a, m) {
        let j = choose|j: int| 0 <= j < a.len() && m(l, #[trigger] a[j]);
        assert(b[j] == a[j]);
    }
    if m(l, right[k]) {
        assert(b[k] == right[k]);
    }
}

/// A right row is matched by two runs of left rows together exactly where one of them has a
/// match.
proof fn lemma_right_matched_append(a: Seq<Row>, b: Seq<Row>, r: Row, m: Matching)
    ensures
        right_matched(a + b, r, m) == (right_matched(a, r, m) || right_matched(b, r, m)),
{
    let c = a + b;
    if right_matched(c, r, m) {
        let i = choose|i: int| 0 <= i < c.len() && m(#[trigger] c[i], r);
        if i < a.len() {
            assert(a[i] == c[i]);
        } else {
            assert(b[i - a.len()] == c[i]);
        }
    }
    if right_matched(a, r, m) {
        let i = choose|i: int| 0 <= i < a.len() && m(#[trigger] a[i], r);
        assert(c[i] == a[i]);
    }
    if right_matched(b, r, m) {
        let i = choose|i: int| 0 <= i < b.len() && m(#[trigger] b[i], r);
        assert(c[i + a.len()] == b[i]);
    }
}

/// One more left row matches `r` exactly where it did before or that row does.
pub proof fn lemma_right_matched_step(left: Seq<Row>, n: int, r: Row, m: Matching)
    requires
        0 <= n < left.len(),
    ensures
        right_matched(left.take(n + 1), r, m) == (right_matched(left.take(n), r, m) || m(
            left[n],
            r,
        )),
{
    assert(left.take(n + 1) =~= left.take(n) + seq![left[n]]);
    lemma_right_matched_append(left.take(n), seq![left[n]], r, m);
    let one = seq![left[n]];
    if m(left[n], r) {
        assert(m(one[0], r));
    }
}

/// The first fault of the predicate on the first `n` rows of a block, each beside `r`.
pub open spec fn column_fault(
    block: Seq<Row>,
    n: nat,
    r: Row,
    on: Option<Term>,
    table: Seq<(Question, Answer)>,
) -> Option<Fault>
    decreases n,
{
    if n == 0 || n > block.len() {
        None
    } else {
        match column_fault(block, (n - 1) as nat, r, on, table) {
            Some(f) => Some(f),
            None => match hit(on, block[n - 1], r, table) {
                Err(f) => Some(f),
                Ok(_) => None,
            },
        }
    }
}

/// The first fault of the predicate as the first `n` inner rows are scanned for a block.
pub open spec fn scan_fault(
    block: Seq<Row>,
    right: Seq<Row>,
    n: nat,
    on: Option<Term>,
    table: Seq<(Question, Answer)>,
) -> Option<Fault>
    decreases n,
{
    if n == 0 || n > right.len() {
        None
    } else {
        match scan_fault(block, right, (n - 1) as nat, on, table) {
            Some(f) => Some(f),
            None => column_fault(block, block.len(), right[n - 1], on, table),
        }
    }
}

/// Where the block that begins at row `from` ends.
pub open spec fn block_end(left: Seq<Row>, from: nat) -> nat {
    if left.len() - from > OUTER_BLOCK_TUPLES {
        from + OUTER_BLOCK_TUPLES as nat
    } else {
        left.len()
    }
}

/// The first fault of the predicate from outer row `from` on, block by block: for each block
/// the inner rows are scanned in their order, and each stands beside the rows of the block in
/// theirs.
pub open spec fn blocks_fault(
    left: Seq<Row>,
    right: Seq<Row>,
    from: nat,
    on: Option<Term>,
    table: Seq<(Question, Answer)>,
) -> Option<Fault>
    decreases left.len() - from,
{
    if from >= left.len() {
        None
    } else {
        let to = block_end(left, from);
        match scan_fault(
            left.subrange(from as int, to as int),
            right,
            right.len(),
            on,
            table,
        ) {
            Some(f) => Some(f),
            None => blocks_fault(left, right, to, on, table),
        }
    }
}

proof fn lemma_column_fault_stops(
    block: Seq<Row>,
    m: nat,
    n: nat,
    r: Row,
    on: Option<Term>,
    table: Seq<(Question, Answer)>,
)
    requires
        m <= n <= block.len(),
        column_fault(block, m, r, on, table) is Some,
    ensures
        column_fault(block, n, r, on, table) == column_fault(block, m, r, on, table),
    decreases n,
{
    if m < n {
        lemma_column_fault_stops(block, m, (n - 1) as nat, r, on, table);
    }
}

proof fn lemma_scan_fault_stops(
    block: Seq<Row>,
    right: Seq<Row>,
    m: nat,
    n: nat,
    on: Option<Term>,
    table: Seq<(Question, Answer)>,
)
    requires
        m <= n <= right.len(),
        scan_fault(block, right, m, on, table) is Some,
    ensures
        scan_fault(block, right, n, on, table) == scan_fault(block, right, m, on, table),
    decreases n,
{
    if m < n {
        lemma_scan_fault_stops(block, right, m, (n - 1) as nat, on, table);
    }
}

/// Scan the inner side once for the block `left[from..to]`: emit its pairs, and note which rows
/// of either side found a match.
fn scan_block(
    left: &Vec<Tuple>,
    from: usize,
    to: usize,
    right: &Vec<Tuple>,
    on: &Option<Expr>,
    out: &mut Vec<Tuple>,
    inner_matched: &mut Vec<bool>,
    answers: &Answers,
) -> (r: Result<Vec<bool>, QueryError>)
    requires
        from <= to <= left@.len(),
        old(inner_matched)@.len() == right@.len(),
    ensures
        match r {
            Ok(block_matched) => {
                let block = rows_of(left@).subrange(from as int, to as int);
                let rs = rows_of(right@);
                let m = matching(opt_term(*on), answers@);
                &&& scan_fault(block, rs, rs.len(), opt_term(*on), answers@) is None
                &&& all_decided(block, rs, opt_term(*on), answers@)
                &&& rows_of(final(out)@).to_multiset() == rows_of(old(out)@).to_multiset().add(
                    pairs(block, rs, m),
                )
                &&& block_matched@.len() == block.len()
                &&& forall|i: int|
                    0 <= i < block.len() ==> block_matched@[i] == left_matched(
                        #[trigger] block[i],
                        rs,
                        m,
                    )
                &&& final(inner_matched)@.len() == rs.len()
                &&& forall|k: int|
                    0 <= k < rs.len() ==> #[trigger] final(inner_matched)@[k] == (old(
                        inner_matched,
                    )@[k] || right_matched(block, rs[k], m))
            },
            Err(e) => scan_fault(
                rows_of(left@).subrange(from as int, to as int),
                rows_of(right@),
                right@.len(),
                opt_term(*on),
                answers@,
            ) == Some(e@),
        },
{
    broadcast use vstd::seq_lib::group_to_multiset_ensures;

    let ghost ls = rows_of(left@);
    let ghost rs = rows_of(right@);
    let ghost block = ls.subrange(from as int, to as int);
    let ghost p = opt_term(*on);
    let ghost m = matching(p, answers@);
    let ghost start = rows_of(out@).to_multiset();
    let ghost was = inner_matched@;
    let mut block_matched = all_false(to - from);
    let mut k: usize = 0;
    proof {
        assert(rs.take(0) =~= Seq::<Row>::empty());
        lemma_no_pairs(block, m);
        assert(start.add(Multiset::<Row>::empty()) =~= start);
    }
    while k < right.len()
        invariant
            k <= right@.len(),
            from <= to <= left@.len(),
            ls == rows_of(left@),
            rs == rows_of(right@),
            block == ls.subrange(from as int, to as int),
            p == opt_term(*on),
            m == matching(p, answers@),
            inner_matched@.len() == was.len() == rs.len(),
            block_matched@.len() == block.len(),
            scan_fault(block, rs, k as nat, p, answers@) is None,
            all_decided(block, rs.take(k as int), p, answers@),
            rows_of(out@).to_multiset() == start.add(pairs(block, rs.take(k as int), m)),
            forall|i: int|
                0 <= i < block.len() ==> block_matched@[i] == left_matched(
                    #[trigger] block[i],
                    rs.take(k as int),
                    m,
                ),
            forall|j: int|
                0 <= j < rs.len() ==> #[trigger] inner_matched@[j] == (was[j] || (j < k
                    && right_matched(block, rs[j], m))),
        decreases right@.len() - k,
    {
        let ghost r = rs[k as int];
        assert(r == right@[k as int]@);
        let ghost so_far = rows_of(out@).to_multiset();
        let ghost matched_before = block_matched@;
        let ghost inner_before = inner_matched@;
        let mut i: usize = 0;
        assert(block.take(0) =~= Seq::<Row>::empty());
        assert(so_far.add(Multiset::<Row>::empty()) =~= so_far);
        while i < to - from
            invariant
                k < right@.len(),
                i <= to - from,
                from <= to <= left@.len(),
                ls == rows_of(left@),
                rs == rows_of(right@),
                r == rs[k as int],
                block == ls.subrange(from as int, to as int),
                p == opt_term(*on),
                m == matching(p, answers@),
                inner_matched@.len() == inner_before.len() == rs.len(),
                block_matched@.len() == matched_before.len() == block.len(),
                rows_of(out@).to_multiset() == so_far.add(column_pairs(block.take(i as int), r, m)),
                scan_fault(block, rs, k as nat, p, answers@) is None,
                column_fault(block, i as nat, r, p, answers@) is None,
                forall|x: int|
                    0 <= x < i ==> #[trigger] hit(p, block[x], r, answers@) is Ok,
                forall|x: int|
                    0 <= x < block.len() ==> #[trigger] block_matched@[x] == (matched_before[x] || (
                    x < i && m(block[x], r))),
                forall|j: int|
                    0 <= j < rs.len() ==> #[trigger] inner_matched@[j] == (inner_before[j] || (j
                        == k && right_matched(block.take(i as int), r, m))),
            decreases to - from - i,
        {
            let ghost l = block[i as int];
            assert(l == left@[from + i]@);
            let ghost rows_before = rows_of(out@);
            let combined = concat(&left[from + i], &right[k]);
            match pair_matches(on, &combined, answers) {
                Err(e) => {
                    assert(agrees(Err::<bool, QueryError>(e), hit(p, l, r, answers@)));
                    proof {
                        lemma_column_fault_stops(
                            block,
                            (i + 1) as nat,
                            block.len(),
                            r,
                            p,
                            answers@,
                        );
                        lemma_scan_fault_stops(block, rs, (k + 1) as nat, rs.len(), p, answers@);
                    }
                    return Err(e);
                },
                Ok(b) => {
                    assert(agrees(Ok::<bool, QueryError>(b), hit(p, l, r, answers@)));
                    proof {
                        lemma_right_matched_step(block, i as int, r, m);
                        let part = block.take(i + 1);
                        assert(part.drop_last() =~= block.take(i as int));
                        assert(part.last() == l);
                    }
                    if b {
                        block_matched.set(i, true);
                        inner_matched.set(k, true);
                        out.push(combined);
                        assert(rows_of(out@) =~= rows_before.push(combined@));
                        proof {
                            vstd::seq_lib::to_multiset_build(rows_before, combined@);
                        }
                    }
                    assert(rows_of(out@).to_multiset() =~= so_far.add(
                        column_pairs(block.take(i + 1), r, m),
                    ));
                },
            }
            i = i + 1;
        }
        proof {
            assert(block.take(block.len() as int) =~= block);
            lemma_pairs_next_right(block, rs, k as int, m);
            assert(rows_of(out@).to_multiset() =~= start.add(pairs(block, rs.take(k + 1), m)));
            assert forall|x: int| 0 <= x < block.len() implies block_matched@[x] == left_matched(
                #[trigger] block[x],
                rs.take(k + 1),
                m,
            ) by {
                lemma_left_matched_next(block[x], rs, k as int, m);
            }
            assert forall|x: int, j: int|
                0 <= x < block.len() && 0 <= j < rs.take(k + 1).len() implies #[trigger] hit(
                p,
                block[x],
                rs.take(k + 1)[j],
                answers@,
            ) is Ok by {
                if j < k {
                    assert(hit(p, block[x], rs.take(k as int)[j], answers@) is Ok);
                } else {
                    assert(hit(p, block[x], r, answers@) is Ok);
                }
            }
        }
        k = k + 1;
    }
    assert(rs.take(rs.len() as int) =~= rs);
    Ok(block_matched)
}

/// Block nested-loop join. The first fault of the predicate, in the order in which the pairs
/// are formed, is the outcome.
pub fn block_nested_loop_join(
    left: &Vec<Tuple>,
    right: &Vec<Tuple>,
    on: &Option<Expr>,
    jt: JoinType,
    left_width: usize,
    right_width: usize,
    answers: &Answers,
) -> (r: Result<Vec<Tuple>, QueryError>)
    ensures
        match r {
            Ok(out) => blocks_fault(rows_of(left@), rows_of(right@), 0, opt_term(*on), answers@) is None
                && all_decided(rows_of(left@), rows_of(right@), opt_term(*on), answers@)
                && rows_of(out@).to_multiset() == joined(
                rows_of(left@),
                rows_of(right@),
                matching(opt_term(*on), answers@),
                jt,
                left_width as nat,
                right_width as nat,
            ),
            Err(e) => blocks_fault(
                rows_of(left@),
                rows_of(right@),
                0,
                opt_term(*on),
                answers@,
            ) == Some(e@),
        },
{
    broadcast use vstd::seq_lib::group_to_multiset_ensures;

    let ghost ls = rows_of(left@);
    let ghost rs = rows_of(right@);
    let ghost p = opt_term(*on);
    let ghost m = matching(p, answers@);
    let ghost width = right_width as nat;
    let mut out: Vec<Tuple> = Vec::new();
    let mut inner_matched = all_false(right.len());
    let mut from: usize = 0;
    proof {
        assert(rows_of(out@) =~= Seq::<Row>::empty());
        assert(ls.take(0) =~= Seq::<Row>::empty());
        assert(rows_of(out@).to_multiset() =~= Multiset::<Row>::empty());
        assert(pairs(ls.take(0), rs, m) =~= Multiset::<Row>::empty());
        assert(lone_left(ls.take(0), rs, m, width) =~= Multiset::<Row>::empty());
        assert(rows_of(out@).to_multiset() =~= pairs(ls.take(0), rs, m).add(
            if jt.keeps_left() {
                lone_left(ls.take(0), rs, m, width)
            } else {
                Multiset::empty()
            },
        ));
    }
    while from < left.len()
        invariant
            from <= left@.len(),
            ls == rows_of(left@),
            rs == rows_of(right@),
            p == opt_term(*on),
            m == matching(p, answers@),
            width == right_width,
            inner_matched@.len() == rs.len(),
            blocks_fault(ls, rs, 0, p, answers@) == blocks_fault(ls, rs, from as nat, p, answers@),
            all_decided(ls.take(from as int), rs, p, answers@),
            rows_of(out@).to_multiset() == pairs(ls.take(from as int), rs, m).add(
                if jt.keeps_left() {
                    lone_left(ls.take(from as int), rs, m, width)
                } else {
                    Multiset::empty()
                },
            ),
            forall|k: int|
                0 <= k < rs.len() ==> #[trigger] inner_matched@[k] == right_matched(
                    ls.take(from as int),
                    rs[k],
                    m,
                ),
        decreases left@.len() - from,
    {
        let to: usize = if left.len() - from > OUTER_BLOCK_TUPLES {
            from + OUTER_BLOCK_TUPLES
        } else {
            left.len()
        };
        let ghost block = ls.subrange(from as int, to as int);
        let ghost done = ls.take(from as int);
        let ghost before = rows_of(out@).to_multiset();
        assert(done + block =~= ls.take(to as int));
        let block_matched = match scan_block(
            left,
            from,
            to,
            right,
            on,
            &mut out,
            &mut inner_matched,
            answers,
        ) {
            Ok(bm) => bm,
            Err(e) => return Err(e),
        };
        let ghost with_pairs = rows_of(out@).to_multiset();
        if jt.outer_left() {
            let mut i: usize = 0;
            assert(block.take(0) =~= Seq::<Row>::empty());
            assert(with_pairs.add(Multiset::<Row>::empty()) =~= with_pairs);
            while i < to - from
                invariant
                    i <= to - from,
                    from <= to <= left@.len(),
                    ls == rows_of(left@),
                    block == ls.subrange(from as int, to as int),
                    width == right_width,
                    block_matched@.len() == block.len(),
                    forall|x: int|
                        0 <= x < block.len() ==> block_matched@[x] == left_matched(
                            #[trigger] block[x],
                            rs,
                            m,
                        ),
                    rows_of(out@).to_multiset() == with_pairs.add(
                        lone_left(block.take(i as int), rs, m, width),
                    ),
                decreases to - from - i,
            {
                let ghost rows_before = rows_of(out@);
                let ghost part = block.take(i + 1);
                assert(part.drop_last() =~= block.take(i as int));
                assert(part.last() == block[i as int]);
                assert(block[i as int] == left@[from + i]@);
                if !block_matched[i] {
                    let padded = pad_right(&left[from + i], right_width);
                    out.push(padded);
                    assert(rows_of(out@) =~= rows_before.push(padded@));
                    proof {
                        vstd::seq_lib::to_multiset_build(rows_before, padded@);
                    }
                }
                assert(rows_of(out@).to_multiset() =~= with_pairs.add(
                    lone_left(part, rs, m, width),
                ));
                i = i + 1;
            }
            assert(block.take(block.len() as int) =~= block);
        }
        proof {
            lemma_pairs_append(done, block, rs, m);
            lemma_lone_append(done, block, rs, m, width);
            let next = ls.take(to as int);
            assert(rows_of(out@).to_multiset() =~= pairs(next, rs, m).add(
                if jt.keeps_left() {
                    lone_left(next, rs, m, width)
                } else {
                    Multiset::empty()
                },
            ));
            assert forall|k: int| 0 <= k < rs.len() implies #[trigger] inner_matched@[k]
                == right_matched(next, rs[k], m) by {
                lemma_right_matched_append(done, block, rs[k], m);
            }
            assert forall|i: int, j: int|
                0 <= i < next.len() && 0 <= j < rs.len() implies #[trigger] hit(
                p,
                next[i],
                rs[j],
                answers@,
            ) is Ok by {
                if i < from {
                    assert(hit(p, done[i], rs[j], answers@) is Ok);
                } else {
                    assert(hit(p, block[i - from], rs[j], answers@) is Ok);
                }
            }
        }
        from = to;
    }
    assert(ls.take(ls.len() as int) =~= ls);
    let ghost front = rows_of(out@).to_multiset();
    if jt.outer_right() {
        let mut k: usize = 0;
        assert(rs.take(0) =~= Seq::<Row>::empty());
        assert(front.add(Multiset::<Row>::empty()) =~= front);
        while k < right.len()
            invariant
                k <= right@.len(),
                rs == rows_of(right@),
                inner_matched@.len() == rs.len(),
                forall|j: int|
                    0 <= j < rs.len() ==> #[trigger] inner_matched@[j] == right_matched(
                        ls,
                        rs[j],
                        m,
                    ),
                rows_of(out@).to_multiset() == front.add(
                    lone_right(ls, rs.take(k as int), m, left_width as nat),
                ),
            decreases right@.len() - k,
        {
            let ghost rows_before = rows_of(out@);
            let ghost part = rs.take(k + 1);
            assert(part.drop_last() =~= rs.take(k as int));
            assert(part.last() == rs[k as int]);
            assert(rs[k as int] == right@[k as int]@);
            if !inner_matched[k] {
                let padded = pad_left(left_width, &right[k]);
                out.push(padded);
                assert(rows_of(out@) =~= rows_before.push(padded@));
                proof {
                    vstd::seq_lib::to_multiset_build(rows_before, padded@);
                }
            }
            assert(rows_of(out@).to_multiset() =~= front.add(
                lone_right(ls, part, m, left_width as nat),
            ));
            k = k + 1;
        }
        assert(rs.take(rs.len() as int) =~= rs);
    }
    assert(rows_of(out@).to_multiset() =~= joined(ls, rs, m, jt, left_width as nat, width));
    Ok(out)
}

} // verus!
