//! What a join is, as a multiset of rows.
//!
//! SQL leaves the order of a join's output open, so joins are compared as multisets: the
//! matching pairs, and for the outer sides the rows that match nothing, padded with nulls.

use vstd::multiset::Multiset;
use vstd::prelude::*;

use crate::query::volcano::rows::{nulls, Row};

verus! {

/// The join types.
#[derive(Debug, Clone, Copy, PartialEq, Eq, Structural)]
pub enum JoinType {
    Inner,
    Left,
    Right,
    Full,
}

impl JoinType {
    /// Whether unmatched left rows survive.
    pub open spec fn keeps_left(self) -> bool {
        self == JoinType::Left || self == JoinType::Full
    }

    /// Whether unmatched right rows survive.
    pub open spec fn keeps_right(self) -> bool {
        self == JoinType::Right || self == JoinType::Full
    }

    /// Whether unmatched left rows survive.
    pub fn outer_left(self) -> (r: bool)
        ensures
            r == self.keeps_left(),
    {
        self == JoinType::Left || self == JoinType::Full
    }

    /// Whether unmatched right rows survive.
    pub fn outer_right(self) -> (r: bool)
        ensures
            r == self.keeps_right(),
    {
        self == JoinType::Right || self == JoinType::Full
    }
}

/// Which pairs of rows match.
pub type Matching = spec_fn(Row, Row) -> bool;

/// The pairs that `l` forms with the rows of `right` it matches.
pub open spec fn pairs_of(l: Row, right: Seq<Row>, m: Matching) -> Multiset<Row>
    decreases right.len(),
{
    if right.len() == 0 {
        Multiset::empty()
    } else {
        let before = pairs_of(l, right.drop_last(), m);
        if m(l, right.last()) {
            before.insert(l + right.last())
        } else {
            before
        }
    }
}

/// All matching pairs.
pub open spec fn pairs(left: Seq<Row>, right: Seq<Row>, m: Matching) -> Multiset<Row>
    decreases left.len(),
{
    if left.len() == 0 {
        Multiset::empty()
    } else {
        pairs(left.drop_last(), right, m).add(pairs_of(left.last(), right, m))
    }
}

/// Whether some row of `right` matches `l`.
pub open spec fn left_matched(l: Row, right: Seq<Row>, m: Matching) -> bool {
    exists|j: int| 0 <= j < right.len() && m(l, #[trigger] right[j])
}

/// Whether some row of `left` matches `r`.
pub open spec fn right_matched(left: Seq<Row>, r: Row, m: Matching) -> bool {
    exists|i: int| 0 <= i < left.len() && m(#[trigger] left[i], r)
}

/// The left rows that match nothing, padded to the right.
pub open spec fn lone_left(left: Seq<Row>, right: Seq<Row>, m: Matching, width: nat) -> Multiset<Row>
    decreases left.len(),
{
    if left.len() == 0 {
        Multiset::empty()
    } else {
        let before = lone_left(left.drop_last(), right, m, width);
        if left_matched(left.last(), right, m) {
            before
        } else {
            before.insert(left.last() + nulls(width))
        }
    }
}

/// The right rows that match nothing, padded to the left.
pub open spec fn lone_right(left: Seq<Row>, right: Seq<Row>, m: Matching, width: nat) -> Multiset<
    Row,
>
    decreases right.len(),
{
    if right.len() == 0 {
        Multiset::empty()
    } else {
        let before = lone_right(left, right.drop_last(), m, width);
        if right_matched(left, right.last(), m) {
            before
        } else {
            before.insert(nulls(width) + right.last())
        }
    }
}

/// The rows of a join.
pub open spec fn joined(
    left: Seq<Row>,
    right: Seq<Row>,
    m: Matching,
    jt: JoinType,
    left_width: nat,
    right_width: nat,
) -> Multiset<Row> {
    pairs(left, right, m).add(
        if jt.keeps_left() {
            lone_left(left, right, m, right_width)
        } else {
            Multiset::empty()
        },
    ).add(
        if jt.keeps_right() {
            lone_right(left, right, m, left_width)
        } else {
            Multiset::empty()
        },
    )
}

// --- splitting a join into parts ---

/// The rows of `rows` that `part` puts into part `b`.
pub open spec fn part_of(rows: Seq<Row>, part: spec_fn(Row) -> nat, b: nat) -> Seq<Row>
    decreases rows.len(),
{
    if rows.len() == 0 {
        Seq::empty()
    } else {
        let before = part_of(rows.drop_last(), part, b);
        if part(rows.last()) == b {
            before.push(rows.last())
        } else {
            before
        }
    }
}

/// The joins of the first `n` parts, together.
pub open spec fn joined_parts(
    left: Seq<Row>,
    right: Seq<Row>,
    lpart: spec_fn(Row) -> nat,
    rpart: spec_fn(Row) -> nat,
    n: nat,
    m: Matching,
    jt: JoinType,
    left_width: nat,
    right_width: nat,
) -> Multiset<Row>
    decreases n,
{
    if n == 0 {
        Multiset::empty()
    } else {
        joined_parts(
            left,
            right,
            lpart,
            rpart,
            (n - 1) as nat,
            m,
            jt,
            left_width,
            right_width,
        ).add(
            joined(
                part_of(left, lpart, (n - 1) as nat),
                part_of(right, rpart, (n - 1) as nat),
                m,
                jt,
                left_width,
                right_width,
            ),
        )
    }
}

/// Whether rows of the two sides match only within one part.
pub open spec fn respects(
    m: Matching,
    lpart: spec_fn(Row) -> nat,
    rpart: spec_fn(Row) -> nat,
) -> bool {
    forall|l: Row, r: Row| #[trigger] m(l, r) ==> lpart(l) == rpart(r)
}

proof fn lemma_part_member(rows: Seq<Row>, part: spec_fn(Row) -> nat, b: nat, i: int) -> (j: int)
    requires
        0 <= i < rows.len(),
        part(rows[i]) == b,
    ensures
        0 <= j < part_of(rows, part, b).len(),
        part_of(rows, part, b)[j] == rows[i],
    decreases rows.len(),
{
    if i == rows.len() - 1 {
        part_of(rows, part, b).len() - 1
    } else {
        assert(rows.drop_last()[i] == rows[i]);
        lemma_part_member(rows.drop_last(), part, b, i)
    }
}

/// Every row of a part comes from the list.
pub proof fn lemma_part_origin(rows: Seq<Row>, part: spec_fn(Row) -> nat, b: nat, j: int) -> (i: int)
    requires
        0 <= j < part_of(rows, part, b).len(),
    ensures
        0 <= i < rows.len(),
        part_of(rows, part, b)[j] == rows[i],
        part(rows[i]) == b,
    decreases rows.len(),
{
    if part(rows.last()) == b && j == part_of(rows, part, b).len() - 1 {
        rows.len() - 1
    } else {
        let i = lemma_part_origin(rows.drop_last(), part, b, j);
        assert(rows.drop_last()[i] == rows[i]);
        i
    }
}

/// A row finds all its pairs in its own part.
proof fn lemma_pairs_in_part(
    l: Row,
    right: Seq<Row>,
    m: Matching,
    lpart: spec_fn(Row) -> nat,
    rpart: spec_fn(Row) -> nat,
)
    requires
        respects(m, lpart, rpart),
    ensures
        pairs_of(l, right, m) == pairs_of(l, part_of(right, rpart, lpart(l)), m),
    decreases right.len(),
{
    if right.len() > 0 {
        lemma_pairs_in_part(l, right.drop_last(), m, lpart, rpart);
        let r = right.last();
        if rpart(r) == lpart(l) {
            let p = part_of(right, rpart, lpart(l));
            assert(p.drop_last() =~= part_of(right.drop_last(), rpart, lpart(l)));
        } else {
            assert(!m(l, r));
        }
    }
}

proof fn lemma_left_matched_in_part(
    l: Row,
    right: Seq<Row>,
    m: Matching,
    lpart: spec_fn(Row) -> nat,
    rpart: spec_fn(Row) -> nat,
)
    requires
        respects(m, lpart, rpart),
    ensures
        left_matched(l, right, m) == left_matched(l, part_of(right, rpart, lpart(l)), m),
{
    let p = part_of(right, rpart, lpart(l));
    if left_matched(l, right, m) {
        let j = choose|j: int| 0 <= j < right.len() && m(l, #[trigger] right[j]);
        let k = lemma_part_member(right, rpart, lpart(l), j);
        assert(m(l, p[k]));
    }
    if left_matched(l, p, m) {
        let k = choose|k: int| 0 <= k < p.len() && m(l, #[trigger] p[k]);
        let j = lemma_part_origin(right, rpart, lpart(l), k);
        assert(m(l, right[j]));
    }
}

proof fn lemma_right_matched_in_part(
    left: Seq<Row>,
    r: Row,
    m: Matching,
    lpart: spec_fn(Row) -> nat,
    rpart: spec_fn(Row) -> nat,
)
    requires
        respects(m, lpart, rpart),
    ensures
        right_matched(left, r, m) == right_matched(part_of(left, lpart, rpart(r)), r, m),
{
    let p = part_of(left, lpart, rpart(r));
    if right_matched(left, r, m) {
        let i = choose|i: int| 0 <= i < left.len() && m(#[trigger] left[i], r);
        let k = lemma_part_member(left, lpart, rpart(r), i);
        assert(m(p[k], r));
    }
    if right_matched(p, r, m) {
        let k = choose|k: int| 0 <= k < p.len() && m(#[trigger] p[k], r);
        let i = lemma_part_origin(left, lpart, rpart(r), k);
        assert(m(left[i], r));
    }
}

/// The sum of the parts' pairs.
spec fn pairs_parts(
    left: Seq<Row>,
    right: Seq<Row>,
    lpart: spec_fn(Row) -> nat,
    rpart: spec_fn(Row) -> nat,
    n: nat,
    m: Matching,
) -> Multiset<Row>
    decreases n,
{
    if n == 0 {
        Multiset::empty()
    } else {
        pairs_parts(left, right, lpart, rpart, (n - 1) as nat, m).add(
            pairs(
                part_of(left, lpart, (n - 1) as nat),
                part_of(right, rpart, (n - 1) as nat),
                m,
            ),
        )
    }
}

spec fn lone_left_parts(
    left: Seq<Row>,
    right: Seq<Row>,
    lpart: spec_fn(Row) -> nat,
    rpart: spec_fn(Row) -> nat,
    n: nat,
    m: Matching,
    width: nat,
) -> Multiset<Row>
    decreases n,
{
    if n == 0 {
        Multiset::empty()
    } else {
        lone_left_parts(left, right, lpart, rpart, (n - 1) as nat, m, width).add(
            lone_left(
                part_of(left, lpart, (n - 1) as nat),
                part_of(right, rpart, (n - 1) as nat),
                m,
                width,
            ),
        )
    }
}

spec fn lone_right_parts(
    left: Seq<Row>,
    right: Seq<Row>,
    lpart: spec_fn(Row) -> nat,
    rpart: spec_fn(Row) -> nat,
    n: nat,
    m: Matching,
    width: nat,
) -> Multiset<Row>
    decreases n,
{
    if n == 0 {
        Multiset::empty()
    } else {
        lone_right_parts(left, right, lpart, rpart, (n - 1) as nat, m, width).add(
            lone_right(
                part_of(left, lpart, (n - 1) as nat),
                part_of(right, rpart, (n - 1) as nat),
                m,
                width,
            ),
        )
    }
}

/// Adding a left row adds its pairs to the one part it is in.
proof fn lemma_pairs_parts_step(
    left: Seq<Row>,
    right: Seq<Row>,
    lpart: spec_fn(Row) -> nat,
    rpart: spec_fn(Row) -> nat,
    n: nat,
    m: Matching,
)
    requires
        left.len() > 0,
        respects(m, lpart, rpart),
    ensures
        pairs_parts(left, right, lpart, rpart, n, m) == pairs_parts(
            left.drop_last(),
            right,
            lpart,
            rpart,
            n,
            m,
        ).add(
            if lpart(left.last()) < n {
                pairs_of(left.last(), right, m)
            } else {
                Multiset::empty()
            },
        ),
    decreases n,
{
    let l = left.last();
    if n > 0 {
        let b = (n - 1) as nat;
        lemma_pairs_parts_step(left, right, lpart, rpart, b, m);
        let p = part_of(left, lpart, b);
        if lpart(l) == b {
            lemma_pairs_in_part(l, right, m, lpart, rpart);
            assert(p.drop_last() =~= part_of(left.drop_last(), lpart, b));
            assert(p.last() == l);
        }
        assert(pairs_parts(left, right, lpart, rpart, n, m) =~= pairs_parts(
            left.drop_last(),
            right,
            lpart,
            rpart,
            n,
            m,
        ).add(
            if lpart(l) < n {
                pairs_of(l, right, m)
            } else {
                Multiset::empty()
            },
        ));
    } else {
        assert(Multiset::<Row>::empty().add(Multiset::<Row>::empty()) =~= Multiset::<Row>::empty());
    }
}

proof fn lemma_empty_pairs_parts(
    right: Seq<Row>,
    lpart: spec_fn(Row) -> nat,
    rpart: spec_fn(Row) -> nat,
    n: nat,
    m: Matching,
)
    ensures
        pairs_parts(Seq::empty(), right, lpart, rpart, n, m) == Multiset::<Row>::empty(),
    decreases n,
{
    if n > 0 {
        lemma_empty_pairs_parts(right, lpart, rpart, (n - 1) as nat, m);
        assert(part_of(Seq::empty(), lpart, (n - 1) as nat) =~= Seq::<Row>::empty());
        assert(pairs_parts(Seq::empty(), right, lpart, rpart, n, m) =~= Multiset::<Row>::empty());
    }
}

proof fn lemma_pairs_split(
    left: Seq<Row>,
    right: Seq<Row>,
    lpart: spec_fn(Row) -> nat,
    rpart: spec_fn(Row) -> nat,
    n: nat,
    m: Matching,
)
    requires
        respects(m, lpart, rpart),
        forall|i: int| 0 <= i < left.len() ==> lpart(#[trigger] left[i]) < n,
    ensures
        pairs(left, right, m) == pairs_parts(left, right, lpart, rpart, n, m),
    decreases left.len(),
{
    if left.len() == 0 {
        assert(left =~= Seq::<Row>::empty());
        lemma_empty_pairs_parts(right, lpart, rpart, n, m);
    } else {
        assert forall|i: int| 0 <= i < left.drop_last().len() implies lpart(
            #[trigger] left.drop_last()[i],
        ) < n by {
            assert(left.drop_last()[i] == left[i]);
        }
        lemma_pairs_split(left.drop_last(), right, lpart, rpart, n, m);
        lemma_pairs_parts_step(left, right, lpart, rpart, n, m);
        assert(lpart(left[left.len() - 1]) < n);
    }
}

proof fn lemma_lone_left_step(
    left: Seq<Row>,
    right: Seq<Row>,
    lpart: spec_fn(Row) -> nat,
    rpart: spec_fn(Row) -> nat,
    n: nat,
    m: Matching,
    width: nat,
)
    requires
        left.len() > 0,
        respects(m, lpart, rpart),
    ensures
        lone_left_parts(left, right, lpart, rpart, n, m, width) == if lpart(left.last()) < n
            && !left_matched(left.last(), right, m) {
            lone_left_parts(left.drop_last(), right, lpart, rpart, n, m, width).insert(
                left.last() + nulls(width),
            )
        } else {
            lone_left_parts(left.drop_last(), right, lpart, rpart, n, m, width)
        },
    decreases n,
{
    let l = left.last();
    if n > 0 {
        let b = (n - 1) as nat;
        lemma_lone_left_step(left, right, lpart, rpart, b, m, width);
        let p = part_of(left, lpart, b);
        if lpart(l) == b {
            lemma_left_matched_in_part(l, right, m, lpart, rpart);
            assert(p.drop_last() =~= part_of(left.drop_last(), lpart, b));
            assert(p.last() == l);
        }
        let before = lone_left_parts(left.drop_last(), right, lpart, rpart, n, m, width);
        let want = if lpart(l) < n && !left_matched(l, right, m) {
            before.insert(l + nulls(width))
        } else {
            before
        };
        assert(lone_left_parts(left, right, lpart, rpart, n, m, width) =~= want);
    }
}

proof fn lemma_empty_lone_left(
    right: Seq<Row>,
    lpart: spec_fn(Row) -> nat,
    rpart: spec_fn(Row) -> nat,
    n: nat,
    m: Matching,
    width: nat,
)
    ensures
        lone_left_parts(Seq::empty(), right, lpart, rpart, n, m, width) == Multiset::<Row>::empty(),
    decreases n,
{
    if n > 0 {
        lemma_empty_lone_left(right, lpart, rpart, (n - 1) as nat, m, width);
        assert(part_of(Seq::empty(), lpart, (n - 1) as nat) =~= Seq::<Row>::empty());
        assert(lone_left_parts(Seq::empty(), right, lpart, rpart, n, m, width) =~= Multiset::<
            Row,
        >::empty());
    }
}

proof fn lemma_lone_left_split(
    left: Seq<Row>,
    right: Seq<Row>,
    lpart: spec_fn(Row) -> nat,
    rpart: spec_fn(Row) -> nat,
    n: nat,
    m: Matching,
    width: nat,
)
    requires
        respects(m, lpart, rpart),
        forall|i: int| 0 <= i < left.len() ==> lpart(#[trigger] left[i]) < n,
    ensures
        lone_left(left, right, m, width) == lone_left_parts(left, right, lpart, rpart, n, m, width),
    decreases left.len(),
{
    if left.len() == 0 {
        assert(left =~= Seq::<Row>::empty());
        lemma_empty_lone_left(right, lpart, rpart, n, m, width);
    } else {
        assert forall|i: int| 0 <= i < left.drop_last().len() implies lpart(
            #[trigger] left.drop_last()[i],
        ) < n by {
            assert(left.drop_last()[i] == left[i]);
        }
        lemma_lone_left_split(left.drop_last(), right, lpart, rpart, n, m, width);
        lemma_lone_left_step(left, right, lpart, rpart, n, m, width);
        assert(lpart(left[left.len() - 1]) < n);
    }
}

proof fn lemma_lone_right_step(
    left: Seq<Row>,
    right: Seq<Row>,
    lpart: spec_fn(Row) -> nat,
    rpart: spec_fn(Row) -> nat,
    n: nat,
    m: Matching,
    width: nat,
)
    requires
        right.len() > 0,
        respects(m, lpart, rpart),
    ensures
        lone_right_parts(left, right, lpart, rpart, n, m, width) == if rpart(right.last()) < n
            && !right_matched(left, right.last(), m) {
            lone_right_parts(left, right.drop_last(), lpart, rpart, n, m, width).insert(
                nulls(width) + right.last(),
            )
        } else {
            lone_right_parts(left, right.drop_last(), lpart, rpart, n, m, width)
        },
    decreases n,
{
    let r = right.last();
    if n > 0 {
        let b = (n - 1) as nat;
        lemma_lone_right_step(left, right, lpart, rpart, b, m, width);
        let p = part_of(right, rpart, b);
        if rpart(r) == b {
            lemma_right_matched_in_part(left, r, m, lpart, rpart);
            assert(p.drop_last() =~= part_of(right.drop_last(), rpart, b));
            assert(p.last() == r);
        }
        let before = lone_right_parts(left, right.drop_last(), lpart, rpart, n, m, width);
        let want = if rpart(r) < n && !right_matched(left, r, m) {
            before.insert(nulls(width) + r)
        } else {
            before
        };
        assert(lone_right_parts(left, right, lpart, rpart, n, m, width) =~= want);
    }
}

proof fn lemma_empty_lone_right(
    left: Seq<Row>,
    lpart: spec_fn(Row) -> nat,
    rpart: spec_fn(Row) -> nat,
    n: nat,
    m: Matching,
    width: nat,
)
    ensures
        lone_right_parts(left, Seq::empty(), lpart, rpart, n, m, width) == Multiset::<Row>::empty(),
    decreases n,
{
    if n > 0 {
        lemma_empty_lone_right(left, lpart, rpart, (n - 1) as nat, m, width);
        assert(part_of(Seq::empty(), rpart, (n - 1) as nat) =~= Seq::<Row>::empty());
        assert(lone_right_parts(left, Seq::empty(), lpart, rpart, n, m, width) =~= Multiset::<
            Row,
        >::empty());
    }
}

proof fn lemma_lone_right_split(
    left: Seq<Row>,
    right: Seq<Row>,
    lpart: spec_fn(Row) -> nat,
    rpart: spec_fn(Row) -> nat,
    n: nat,
    m: Matching,
    width: nat,
)
    requires
        respects(m, lpart, rpart),
        forall|i: int| 0 <= i < right.len() ==> rpart(#[trigger] right[i]) < n,
    ensures
        lone_right(left, right, m, width) == lone_right_parts(
            left,
            right,
            lpart,
            rpart,
            n,
            m,
            width,
        ),
    decreases right.len(),
{
    if right.len() == 0 {
        assert(right =~= Seq::<Row>::empty());
        lemma_empty_lone_right(left, lpart, rpart, n, m, width);
    } else {
        assert forall|i: int| 0 <= i < right.drop_last().len() implies rpart(
            #[trigger] right.drop_last()[i],
        ) < n by {
            assert(right.drop_last()[i] == right[i]);
        }
        lemma_lone_right_split(left, right.drop_last(), lpart, rpart, n, m, width);
        lemma_lone_right_step(left, right, lpart, rpart, n, m, width);
        assert(rpart(right[right.len() - 1]) < n);
    }
}

proof fn lemma_parts_add(
    left: Seq<Row>,
    right: Seq<Row>,
    lpart: spec_fn(Row) -> nat,
    rpart: spec_fn(Row) -> nat,
    n: nat,
    m: Matching,
    jt: JoinType,
    left_width: nat,
    right_width: nat,
)
    ensures
        joined_parts(left, right, lpart, rpart, n, m, jt, left_width, right_width) == pairs_parts(
            left,
            right,
            lpart,
            rpart,
            n,
            m,
        ).add(
            if jt.keeps_left() {
                lone_left_parts(left, right, lpart, rpart, n, m, right_width)
            } else {
                Multiset::empty()
            },
        ).add(
            if jt.keeps_right() {
                lone_right_parts(left, right, lpart, rpart, n, m, left_width)
            } else {
                Multiset::empty()
            },
        ),
    decreases n,
{
    if n > 0 {
        lemma_parts_add(
            left,
            right,
            lpart,
            rpart,
            (n - 1) as nat,
            m,
            jt,
            left_width,
            right_width,
        );
    }
    assert(joined_parts(left, right, lpart, rpart, n, m, jt, left_width, right_width)
        =~= pairs_parts(left, right, lpart, rpart, n, m).add(
        if jt.keeps_left() {
            lone_left_parts(left, right, lpart, rpart, n, m, right_width)
        } else {
            Multiset::empty()
        },
    ).add(
        if jt.keeps_right() {
            lone_right_parts(left, right, lpart, rpart, n, m, left_width)
        } else {
            Multiset::empty()
        },
    ));
}

/// Partitioning changes nothing: where rows match only within a part, the join is the joins of
/// the parts taken together, for every join type.
pub proof fn law_partitioning_preserves_joins(
    left: Seq<Row>,
    right: Seq<Row>,
    lpart: spec_fn(Row) -> nat,
    rpart: spec_fn(Row) -> nat,
    n: nat,
    m: Matching,
    jt: JoinType,
    left_width: nat,
    right_width: nat,
)
    requires
        respects(m, lpart, rpart),
        forall|i: int| 0 <= i < left.len() ==> lpart(#[trigger] left[i]) < n,
        forall|i: int| 0 <= i < right.len() ==> rpart(#[trigger] right[i]) < n,
    ensures
        joined(left, right, m, jt, left_width, right_width) == joined_parts(
            left,
            right,
            lpart,
            rpart,
            n,
            m,
            jt,
            left_width,
            right_width,
        ),
{
    lemma_pairs_split(left, right, lpart, rpart, n, m);
    lemma_lone_left_split(left, right, lpart, rpart, n, m, right_width);
    lemma_lone_right_split(left, right, lpart, rpart, n, m, left_width);
    lemma_parts_add(left, right, lpart, rpart, n, m, jt, left_width, right_width);
}

/// A join depends on its matching only at the rows it joins.
pub proof fn law_joins_agree_where_matchings_do(
    left: Seq<Row>,
    right: Seq<Row>,
    m: Matching,
    k: Matching,
    jt: JoinType,
    left_width: nat,
    right_width: nat,
)
    requires
        forall|i: int, j: int|
            0 <= i < left.len() && 0 <= j < right.len() ==> #[trigger] m(left[i], right[j]) == k(
                left[i],
                right[j],
            ),
    ensures
        joined(left, right, m, jt, left_width, right_width) == joined(
            left,
            right,
            k,
            jt,
            left_width,
            right_width,
        ),
{
    lemma_pairs_agree(left, right, m, k);
    lemma_lone_left_agree(left, right, m, k, right_width);
    lemma_lone_right_agree(left, right, m, k, left_width);
}

proof fn lemma_pairs_of_agree(l: Row, right: Seq<Row>, m: Matching, k: Matching)
    requires
        forall|j: int| 0 <= j < right.len() ==> m(l, #[trigger] right[j]) == k(l, right[j]),
    ensures
        pairs_of(l, right, m) == pairs_of(l, right, k),
    decreases right.len(),
{
    if right.len() > 0 {
        assert forall|j: int| 0 <= j < right.drop_last().len() implies m(
            l,
            #[trigger] right.drop_last()[j],
        ) == k(l, right.drop_last()[j]) by {
            assert(right.drop_last()[j] == right[j]);
        }
        lemma_pairs_of_agree(l, right.drop_last(), m, k);
        assert(m(l, right[right.len() - 1]) == k(l, right[right.len() - 1]));
    }
}

proof fn lemma_pairs_agree(left: Seq<Row>, right: Seq<Row>, m: Matching, k: Matching)
    requires
        forall|i: int, j: int|
            0 <= i < left.len() && 0 <= j < right.len() ==> #[trigger] m(left[i], right[j]) == k(
                left[i],
                right[j],
            ),
    ensures
        pairs(left, right, m) == pairs(left, right, k),
    decreases left.len(),
{
    if left.len() > 0 {
        let front = left.drop_last();
        assert forall|i: int, j: int|
            0 <= i < front.len() && 0 <= j < right.len() implies #[trigger] m(front[i], right[j])
            == k(front[i], right[j]) by {
            assert(m(left[i], right[j]) == k(left[i], right[j]));
        }
        lemma_pairs_agree(front, right, m, k);
        let l = left.last();
        assert forall|j: int| 0 <= j < right.len() implies m(l, #[trigger] right[j]) == k(
            l,
            right[j],
        ) by {
            assert(m(left[left.len() - 1], right[j]) == k(left[left.len() - 1], right[j]));
        }
        lemma_pairs_of_agree(l, right, m, k);
    }
}

proof fn lemma_lone_left_agree(
    left: Seq<Row>,
    right: Seq<Row>,
    m: Matching,
    k: Matching,
    width: nat,
)
    requires
        forall|i: int, j: int|
            0 <= i < left.len() && 0 <= j < right.len() ==> #[trigger] m(left[i], right[j]) == k(
                left[i],
                right[j],
            ),
    ensures
        lone_left(left, right, m, width) == lone_left(left, right, k, width),
    decreases left.len(),
{
    if left.len() > 0 {
        let front = left.drop_last();
        assert forall|i: int, j: int|
            0 <= i < front.len() && 0 <= j < right.len() implies #[trigger] m(front[i], right[j])
            == k(front[i], right[j]) by {
            assert(m(left[i], right[j]) == k(left[i], right[j]));
        }
        lemma_lone_left_agree(front, right, m, k, width);
        let l = left.last();
        let n = left.len() - 1;
        if left_matched(l, right, m) {
            let j = choose|j: int| 0 <= j < right.len() && m(l, #[trigger] right[j]);
            assert(m(left[n], right[j]) == k(left[n], right[j]));
            assert(k(l, right[j]));
        }
        if left_matched(l, right, k) {
            let j = choose|j: int| 0 <= j < right.len() && k(l, #[trigger] right[j]);
            assert(m(left[n], right[j]) == k(left[n], right[j]));
            assert(m(l, right[j]));
        }
    }
}

proof fn lemma_lone_right_agree(
    left: Seq<Row>,
    right: Seq<Row>,
    m: Matching,
    k: Matching,
    width: nat,
)
    requires
        forall|i: int, j: int|
            0 <= i < left.len() && 0 <= j < right.len() ==> #[trigger] m(left[i], right[j]) == k(
                left[i],
                right[j],
            ),
    ensures
        lone_right(left, right, m, width) == lone_right(left, right, k, width),
    decreases right.len(),
{
    if right.len() > 0 {
        let front = right.drop_last();
        assert forall|i: int, j: int|
            0 <= i < left.len() && 0 <= j < front.len() implies #[trigger] m(left[i], front[j])
            == k(left[i], front[j]) by {
            assert(m(left[i], right[j]) == k(left[i], right[j]));
        }
        lemma_lone_right_agree(left, front, m, k, width);
        let r = right.last();
        let n = right.len() - 1;
        if right_matched(left, r, m) {
            let i = choose|i: int| 0 <= i < left.len() && m(#[trigger] left[i], r);
            assert(m(left[i], right[n]) == k(left[i], right[n]));
            assert(k(left[i], r));
        }
        if right_matched(left, r, k) {
            let i = choose|i: int| 0 <= i < left.len() && k(#[trigger] left[i], r);
            assert(m(left[i], right[n]) == k(left[i], right[n]));
            assert(m(left[i], r));
        }
    }
}

} // verus!
