//! Grace hash join: equi-joins of any type, in two phases.
//!
//! Both inputs are hash-partitioned up front. Then, for each pair of buckets, the smaller side
//! becomes a hash table and the other is probed against it. A build side over budget is not
//! built: that pair alone is partitioned again under a fresh seed, a few times at most. After
//! that the bucket is built whatever its size, since no seed can split equal keys.

use vstd::multiset::Multiset;
use vstd::prelude::*;

use super::block::{
    column_pairs, lemma_left_matched_next, lemma_no_pairs, lemma_pairs_next_right,
    lemma_right_matched_step,
};
use super::bucket::{
    bucket, bucket_of, holds_parts, input_fault, partition_input, repartition, routing,
    stream_has_column, Bucket, Keyed,
};
use super::keys::key_matching;
use super::model::{
    joined, joined_parts, law_partitioning_preserves_joins, left_matched, lemma_part_origin,
    lone_left, lone_right, pairs, pairs_of, part_of, respects, right_matched, JoinType, Matching,
};
use super::nested_loop::all_false;
use crate::query::config::JoinConfig;
use crate::query::error::{Fault, QueryError};
use crate::query::volcano::rows::{
    concat, nulls, pad_left, pad_right, stream_of, stream_rows, Row, RowResult,
};
use crate::storage::types::{rows_of, Tuple};

verus! {

/// How often a pair may be repartitioned.
pub const MAX_REPARTITION_LEVELS: u64 = 2;

/// The level whose seed spreads keys over the slots of a hash table: one that no bucket uses.
pub const TABLE_LEVEL: u64 = 3;

/// What all bucket pairs of a join share.
pub struct HashJoinParams {
    pub join_type: JoinType,
    /// The key column of each side.
    pub left_key: usize,
    pub right_key: usize,
    /// The widths of the sides, to pad with nulls.
    pub left_width: usize,
    pub right_width: usize,
    pub config: JoinConfig,
}

impl HashJoinParams {
    /// Which rows match.
    pub open spec fn matching(self) -> Matching {
        key_matching(self.left_key as nat, self.right_key as nat)
    }

    /// The join of two lists of rows.
    pub open spec fn join_of(self, left: Seq<Row>, right: Seq<Row>) -> Multiset<Row> {
        joined(
            left,
            right,
            self.matching(),
            self.join_type,
            self.left_width as nat,
            self.right_width as nat,
        )
    }

    /// Whether unmatched rows of the build side survive.
    pub open spec fn keeps_build(self, build_is_left: bool) -> bool {
        if build_is_left {
            self.join_type.keeps_left()
        } else {
            self.join_type.keeps_right()
        }
    }

    /// Whether unmatched rows of the probe side survive.
    pub open spec fn keeps_probe(self, build_is_left: bool) -> bool {
        self.keeps_build(!build_is_left)
    }
}

// --- the hash table ---

/// The positions of build rows by the slot of their key; a slot's positions ascend. Probing
/// compares the key bytes themselves, so keys that share a slot are never confused.
pub struct HashTable {
    pub slots: Vec<Vec<usize>>,
}

/// Whether positions ascend.
pub open spec fn ascending(s: Seq<usize>) -> bool {
    forall|a: int, b: int| 0 <= a < b < s.len() ==> s[a] < s[b]
}

impl HashTable {
    /// Whether the first `n` rows are in the table, each in its slot.
    pub open spec fn holds(self, rows: Seq<Keyed>, n: int) -> bool {
        &&& self.slots@.len() > 0
        &&& forall|s: int|
            0 <= s < self.slots@.len() ==> ascending((#[trigger] self.slots@[s])@)
        &&& forall|s: int, q: int|
            0 <= s < self.slots@.len() && 0 <= q < self.slots@[s]@.len() ==> (
            #[trigger] self.slots@[s]@[q]) < n && bucket_of(
                rows[self.slots@[s]@[q] as int].key@,
                TABLE_LEVEL,
                self.slots@.len() as usize,
            ) == s
        &&& forall|i: int|
            0 <= i < n ==> self.slots@[bucket_of(
                (#[trigger] rows[i]).key@,
                TABLE_LEVEL,
                self.slots@.len() as usize,
            ) as int]@.contains(i as usize)
    }
}

fn empty_slots(n: usize) -> (r: Vec<Vec<usize>>)
    ensures
        r@.len() == n,
        forall|s: int| 0 <= s < n ==> (#[trigger] r@[s])@ == Seq::<usize>::empty(),
{
    let mut out: Vec<Vec<usize>> = Vec::new();
    let mut i: usize = 0;
    while i < n
        invariant
            i <= n,
            out@.len() == i,
            forall|s: int| 0 <= s < i ==> (#[trigger] out@[s])@ == Seq::<usize>::empty(),
        decreases n - i,
    {
        out.push(Vec::new());
        i = i + 1;
    }
    out
}

/// Build the table of a whole bucket. With a `cap`, a bucket with more bytes than that is not
/// built.
pub fn build_table(build: &Bucket, cap: Option<usize>) -> (r: Option<HashTable>)
    requires
        build.wf(),
    ensures
        r is None <==> (cap is Some && build.used > cap->0),
        r is Some ==> r->0.holds(build.rows@, build.rows@.len() as int),
{
    if let Some(budget) = cap {
        if build.used > budget {
            return None;
        }
    }
    let count: usize = if build.rows.len() == 0 {
        1
    } else {
        build.rows.len()
    };
    let mut table = HashTable { slots: empty_slots(count) };
    let mut i: usize = 0;
    while i < build.rows.len()
        invariant
            i <= build.rows@.len(),
            count > 0,
            table.slots@.len() == count,
            table.holds(build.rows@, i as int),
        decreases build.rows@.len() - i,
    {
        let s: usize = bucket(&build.rows[i].key, TABLE_LEVEL, count);
        let ghost before = table.slots@;
        table.slots[s].push(i);
        proof {
            let after = table.slots@;
            assert(after[s as int]@ == before[s as int]@.push(i));
            assert forall|c: int| 0 <= c < after.len() implies ascending(
                (#[trigger] after[c])@,
            ) by {
                assert(ascending(before[c]@));
                if c == s {
                    assert forall|a: int, b: int| 0 <= a < b < after[c]@.len() implies after[c]@[a]
                        < after[c]@[b] by {
                        assert(before[s as int]@[a] < i);
                        if b < before[s as int]@.len() {
                            assert(before[c]@[a] < before[c]@[b]);
                        }
                    }
                }
            }
            assert forall|c: int, q: int|
                0 <= c < after.len() && 0 <= q < after[c]@.len() implies (
            #[trigger] after[c]@[q]) < i + 1 && bucket_of(
                build.rows@[after[c]@[q] as int].key@,
                TABLE_LEVEL,
                count,
            ) == c by {
                if c != s || q < before[s as int]@.len() {
                    assert(before[c]@[q] == after[c]@[q]);
                }
            }
            assert forall|j: int| 0 <= j < i + 1 implies after[bucket_of(
                (#[trigger] build.rows@[j]).key@,
                TABLE_LEVEL,
                count,
            ) as int]@.contains(j as usize) by {
                let c = bucket_of(build.rows@[j].key@, TABLE_LEVEL, count) as int;
                if j == i {
                    assert(after[s as int]@[before[s as int]@.len() as int] == i);
                } else {
                    assert(before[c]@.contains(j as usize));
                    let q = before[c]@.index_of(j as usize);
                    assert(after[c]@[q] == j);
                }
            }
        }
        i = i + 1;
    }
    Some(table)
}

// --- probing ---

/// The rows a probe row forms with the build rows it matches.
pub open spec fn found(build: Seq<Row>, probe: Row, m: Matching, build_is_left: bool) -> Multiset<
    Row,
> {
    if build_is_left {
        column_pairs(build, probe, m)
    } else {
        pairs_of(probe, build, m)
    }
}

/// Whether a build row and a probe row match.
pub open spec fn meets(b: Row, p: Row, m: Matching, build_is_left: bool) -> bool {
    if build_is_left {
        m(b, p)
    } else {
        m(p, b)
    }
}

/// Whether a probe row matches some build row.
pub open spec fn probe_matched(build: Seq<Row>, p: Row, m: Matching, build_is_left: bool) -> bool {
    if build_is_left {
        right_matched(build, p, m)
    } else {
        left_matched(p, build, m)
    }
}

/// What a probe row adds to the output: its matches, or itself padded where it has none and
/// its side keeps such rows.
pub open spec fn probe_rows(
    build: Seq<Row>,
    probe: Row,
    params: HashJoinParams,
    build_is_left: bool,
) -> Multiset<Row> {
    let m = params.matching();
    if probe_matched(build, probe, m, build_is_left) || !params.keeps_probe(build_is_left) {
        found(build, probe, m, build_is_left)
    } else {
        found(build, probe, m, build_is_left).insert(
            if build_is_left {
                nulls(params.left_width as nat) + probe
            } else {
                probe + nulls(params.right_width as nat)
            },
        )
    }
}

proof fn lemma_found_step(build: Seq<Row>, k: int, probe: Row, m: Matching, build_is_left: bool)
    requires
        0 <= k < build.len(),
    ensures
        found(build.take(k + 1), probe, m, build_is_left) == if meets(
            build[k],
            probe,
            m,
            build_is_left,
        ) {
            found(build.take(k), probe, m, build_is_left).insert(
                if build_is_left {
                    build[k] + probe
                } else {
                    probe + build[k]
                },
            )
        } else {
            found(build.take(k), probe, m, build_is_left)
        },
        probe_matched(build.take(k + 1), probe, m, build_is_left) == (probe_matched(
            build.take(k),
            probe,
            m,
            build_is_left,
        ) || meets(build[k], probe, m, build_is_left)),
{
    let grown = build.take(k + 1);
    assert(grown.drop_last() =~= build.take(k));
    assert(grown.last() == build[k]);
    lemma_left_matched_next(probe, build, k, m);
    lemma_right_matched_step(build, k, probe, m);
}

proof fn lemma_found_gap(
    build: Seq<Row>,
    a: int,
    b: int,
    probe: Row,
    m: Matching,
    build_is_left: bool,
)
    requires
        0 <= a <= b <= build.len(),
        forall|k: int| a <= k < b ==> !meets(#[trigger] build[k], probe, m, build_is_left),
    ensures
        found(build.take(b), probe, m, build_is_left) == found(
            build.take(a),
            probe,
            m,
            build_is_left,
        ),
        probe_matched(build.take(b), probe, m, build_is_left) == probe_matched(
            build.take(a),
            probe,
            m,
            build_is_left,
        ),
    decreases b - a,
{
    if a < b {
        lemma_found_gap(build, a, b - 1, probe, m, build_is_left);
        lemma_found_step(build, b - 1, probe, m, build_is_left);
    }
}

/// Whether rows of the two sides of a pair match exactly where their keys are the same.
proof fn lemma_keys_match(
    b: Keyed,
    p: Keyed,
    params: HashJoinParams,
    build_is_left: bool,
    build_column: nat,
    probe_column: nat,
)
    requires
        b.wf(build_column),
        p.wf(probe_column),
        build_is_left ==> build_column == params.left_key && probe_column == params.right_key,
        !build_is_left ==> build_column == params.right_key && probe_column == params.left_key,
    ensures
        meets(b.row@, p.row@, params.matching(), build_is_left) == (b.key@ == p.key@),
{
}

/// Whether two buckets are the build and the probe side of a join.
pub open spec fn paired(
    build: Bucket,
    probe: Bucket,
    params: HashJoinParams,
    build_is_left: bool,
) -> bool {
    &&& build.wf()
    &&& probe.wf()
    &&& build_is_left ==> build.column == params.left_key && probe.column == params.right_key
    &&& !build_is_left ==> build.column == params.right_key && probe.column == params.left_key
}

/// Between two neighbouring positions of a slot no build row has a key of that slot.
proof fn lemma_slot_gap(table: HashTable, rows: Seq<Keyed>, s: int, j: int, k: int)
    requires
        table.holds(rows, rows.len() as int),
        0 <= s < table.slots@.len(),
        0 <= j <= table.slots@[s]@.len(),
        0 <= k < rows.len(),
        j > 0 ==> table.slots@[s]@[j - 1] < k,
        j < table.slots@[s]@.len() ==> k < table.slots@[s]@[j],
        rows.len() <= usize::MAX,
    ensures
        bucket_of(rows[k].key@, TABLE_LEVEL, table.slots@.len() as usize) != s,
{
    let chain = table.slots@[s]@;
    if bucket_of(rows[k].key@, TABLE_LEVEL, table.slots@.len() as usize) == s {
        assert(chain.contains(k as usize));
        let q = chain.index_of(k as usize);
        assert(chain[q] == k);
        assert(ascending(table.slots@[s]@));
        if q < j - 1 {
            assert(chain[q] < chain[j - 1]);
        } else if q > j {
            assert(chain[j] < chain[q]);
        }
    }
}

/// Probe one row: emit its matches, or itself padded, and note which build rows it matched.
pub fn probe_one(
    table: &HashTable,
    build: &Bucket,
    matched: &mut Vec<bool>,
    probe: &Keyed,
    build_is_left: bool,
    params: &HashJoinParams,
    out: &mut Vec<Tuple>,
)
    requires
        table.holds(build.rows@, build.rows@.len() as int),
        build.wf(),
        old(matched)@.len() == build.rows@.len(),
        build_is_left ==> build.column == params.left_key && probe.wf(params.right_key as nat),
        !build_is_left ==> build.column == params.right_key && probe.wf(params.left_key as nat),
    ensures
        final(matched)@.len() == build.rows@.len(),
        forall|i: int|
            0 <= i < build.rows@.len() ==> #[trigger] final(matched)@[i] == (old(matched)@[i]
                || meets(build.model()[i], probe.row@, params.matching(), build_is_left)),
        rows_of(final(out)@).to_multiset() == rows_of(old(out)@).to_multiset().add(
            probe_rows(build.model(), probe.row@, *params, build_is_left),
        ),
{
    let ghost rows = build.model();
    let ghost p = probe.row@;
    let ghost m = params.matching();
    let ghost start = rows_of(out@).to_multiset();
    let count: usize = table.slots.len();
    let total: usize = build.rows.len();
    let s: usize = bucket(&probe.key, TABLE_LEVEL, count);
    let ghost chain = table.slots@[s as int]@;
    let mut any: bool = false;
    let mut j: usize = 0;
    let ghost mut low: int = 0;
    proof {
        assert(rows.take(0) =~= Seq::<Row>::empty());
        assert(start.add(found(rows.take(0), p, m, build_is_left)) =~= start);
        assert(ascending(table.slots@[s as int]@));
    }
    while j < table.slots[s].len()
        invariant
            table.holds(build.rows@, build.rows@.len() as int),
            build.wf(),
            rows == build.model(),
            p == probe.row@,
            m == params.matching(),
            build_is_left ==> build.column == params.left_key && probe.wf(params.right_key as nat),
            !build_is_left ==> build.column == params.right_key && probe.wf(params.left_key as nat),
            count == table.slots@.len(),
            total == rows.len(),
            s < count,
            s == bucket_of(probe.key@, TABLE_LEVEL, count),
            chain == table.slots@[s as int]@,
            ascending(chain),
            j <= chain.len(),
            low == if j == 0 {
                0
            } else {
                chain[j - 1] + 1
            },
            0 <= low <= rows.len(),
            matched@.len() == rows.len(),
            old(matched)@.len() == rows.len(),
            forall|i: int|
                0 <= i < rows.len() ==> #[trigger] matched@[i] == (old(matched)@[i] || (i < low
                    && meets(rows[i], p, m, build_is_left))),
            any == probe_matched(rows.take(low), p, m, build_is_left),
            rows_of(out@).to_multiset() == start.add(
                found(rows.take(low), p, m, build_is_left),
            ),
        decreases chain.len() - j,
    {
        let at: usize = table.slots[s][j];
        assert(at < rows.len()) by {
            assert(table.slots@[s as int]@[j as int] == at);
        }
        proof {
            assert forall|k: int| low <= k < at implies !meets(
                #[trigger] rows[k],
                p,
                m,
                build_is_left,
            ) by {
                lemma_no_key_in_gap(*table, *build, *probe, *params, build_is_left, s as int, j as int, k);
            }
            lemma_found_gap(rows, low, at as int, p, m, build_is_left);
            lemma_found_step(rows, at as int, p, m, build_is_left);
            assert(build.rows@[at as int].wf(build.column as nat));
            lemma_keys_match(
                build.rows@[at as int],
                *probe,
                *params,
                build_is_left,
                build.column as nat,
                if build_is_left {
                    params.right_key as nat
                } else {
                    params.left_key as nat
                },
            );
            assert(rows[at as int] == build.rows@[at as int].row@);
        }
        let entry = &build.rows[at];
        if crate::storage::bytes::bytes_eq(entry.key.as_slice(), probe.key.as_slice()) {
            any = true;
            let row = if build_is_left {
                concat(&entry.row, &probe.row)
            } else {
                concat(&probe.row, &entry.row)
            };
            let ghost before = rows_of(out@);
            out.push(row);
            matched.set(at, true);
            proof {
                assert(rows_of(out@) =~= before.push(row@));
                vstd::seq_lib::to_multiset_build(before, row@);
                assert(rows_of(out@).to_multiset() =~= start.add(
                    found(rows.take(at + 1), p, m, build_is_left),
                ));
            }
        }
        proof {
            low = at + 1;
        }
        j = j + 1;
    }
    proof {
        assert forall|k: int| low <= k < rows.len() implies !meets(
            #[trigger] rows[k],
            p,
            m,
            build_is_left,
        ) by {
            lemma_no_key_in_gap(*table, *build, *probe, *params, build_is_left, s as int, j as int, k);
        }
        lemma_found_gap(rows, low, rows.len() as int, p, m, build_is_left);
        assert(rows.take(rows.len() as int) =~= rows);
    }
    if !any {
        let keep: bool = if build_is_left {
            params.join_type.outer_right()
        } else {
            params.join_type.outer_left()
        };
        if keep {
            let row = if build_is_left {
                pad_left(params.left_width, &probe.row)
            } else {
                pad_right(&probe.row, params.right_width)
            };
            let ghost before = rows_of(out@);
            out.push(row);
            proof {
                assert(rows_of(out@) =~= before.push(row@));
                vstd::seq_lib::to_multiset_build(before, row@);
                assert(rows_of(out@).to_multiset() =~= start.add(
                    probe_rows(rows, p, *params, build_is_left),
                ));
            }
        }
    }
}

/// A build row between two neighbouring positions of the probe's slot does not match it.
proof fn lemma_no_key_in_gap(
    table: HashTable,
    build: Bucket,
    probe: Keyed,
    params: HashJoinParams,
    build_is_left: bool,
    s: int,
    j: int,
    k: int,
)
    requires
        table.holds(build.rows@, build.rows@.len() as int),
        build.wf(),
        build_is_left ==> build.column == params.left_key && probe.wf(params.right_key as nat),
        !build_is_left ==> build.column == params.right_key && probe.wf(params.left_key as nat),
        0 <= s < table.slots@.len(),
        s == bucket_of(probe.key@, TABLE_LEVEL, table.slots@.len() as usize),
        0 <= j <= table.slots@[s]@.len(),
        0 <= k < build.rows@.len(),
        j > 0 ==> table.slots@[s]@[j - 1] < k,
        j < table.slots@[s]@.len() ==> k < table.slots@[s]@[j],
        build.rows@.len() <= usize::MAX,
    ensures
        !meets(build.model()[k], probe.row@, params.matching(), build_is_left),
{
    lemma_slot_gap(table, build.rows@, s, j, k);
    assert(build.rows@[k].wf(build.column as nat));
    lemma_keys_match(
        build.rows@[k],
        probe,
        params,
        build_is_left,
        build.column as nat,
        if build_is_left {
            params.right_key as nat
        } else {
            params.left_key as nat
        },
    );
}

/// What the build rows that nothing matched add to the output.
pub open spec fn build_tail(
    build: Seq<Row>,
    probe: Seq<Row>,
    params: HashJoinParams,
    build_is_left: bool,
) -> Multiset<Row> {
    if !params.keeps_build(build_is_left) {
        Multiset::empty()
    } else if build_is_left {
        lone_left(build, probe, params.matching(), params.right_width as nat)
    } else {
        lone_right(probe, build, params.matching(), params.left_width as nat)
    }
}

/// Whether some probe row matches a build row.
pub open spec fn build_matched(b: Row, probe: Seq<Row>, m: Matching, build_is_left: bool) -> bool {
    if build_is_left {
        left_matched(b, probe, m)
    } else {
        right_matched(probe, b, m)
    }
}

/// Emit the build rows that nothing matched, padded, where their side keeps such rows.
fn unmatched_build_tail(
    build: &Bucket,
    matched: &Vec<bool>,
    build_is_left: bool,
    params: &HashJoinParams,
    probe: Ghost<Seq<Row>>,
    out: &mut Vec<Tuple>,
)
    requires
        matched@.len() == build.rows@.len(),
        forall|i: int|
            0 <= i < build.rows@.len() ==> #[trigger] matched@[i] == build_matched(
                build.model()[i],
                probe@,
                params.matching(),
                build_is_left,
            ),
    ensures
        rows_of(final(out)@).to_multiset() == rows_of(old(out)@).to_multiset().add(
            build_tail(build.model(), probe@, *params, build_is_left),
        ),
{
    let ghost rows = build.model();
    let ghost start = rows_of(out@).to_multiset();
    let keep: bool = if build_is_left {
        params.join_type.outer_left()
    } else {
        params.join_type.outer_right()
    };
    if !keep {
        assert(start.add(Multiset::empty()) =~= start);
        return ;
    }
    let mut i: usize = 0;
    proof {
        assert(rows.take(0) =~= Seq::<Row>::empty());
        assert(start.add(build_tail(rows.take(0), probe@, *params, build_is_left)) =~= start);
    }
    while i < build.rows.len()
        invariant
            i <= build.rows@.len(),
            rows == build.model(),
            params.keeps_build(build_is_left),
            matched@.len() == build.rows@.len(),
            forall|k: int|
                0 <= k < build.rows@.len() ==> #[trigger] matched@[k] == build_matched(
                    build.model()[k],
                    probe@,
                    params.matching(),
                    build_is_left,
                ),
            rows_of(out@).to_multiset() == start.add(
                build_tail(rows.take(i as int), probe@, *params, build_is_left),
            ),
        decreases build.rows@.len() - i,
    {
        let ghost grown = rows.take(i + 1);
        assert(grown.drop_last() =~= rows.take(i as int));
        assert(grown.last() == rows[i as int]);
        assert(rows[i as int] == build.rows@[i as int].row@);
        if !matched[i] {
            let row = if build_is_left {
                pad_right(&build.rows[i].row, params.right_width)
            } else {
                pad_left(params.left_width, &build.rows[i].row)
            };
            let ghost before = rows_of(out@);
            out.push(row);
            proof {
                assert(rows_of(out@) =~= before.push(row@));
                vstd::seq_lib::to_multiset_build(before, row@);
                assert(rows_of(out@).to_multiset() =~= start.add(
                    build_tail(grown, probe@, *params, build_is_left),
                ));
            }
        }
        i = i + 1;
    }
    assert(rows.take(rows.len() as int) =~= rows);
}

// --- one pair of buckets ---

/// What the first `k` probe rows add to the output.
pub open spec fn probed(
    build: Seq<Row>,
    probe: Seq<Row>,
    k: int,
    params: HashJoinParams,
    build_is_left: bool,
) -> Multiset<Row> {
    let m = params.matching();
    let seen = probe.take(k);
    if build_is_left {
        pairs(build, seen, m).add(
            if params.join_type.keeps_right() {
                lone_right(build, seen, m, params.left_width as nat)
            } else {
                Multiset::empty()
            },
        )
    } else {
        pairs(seen, build, m).add(
            if params.join_type.keeps_left() {
                lone_left(seen, build, m, params.right_width as nat)
            } else {
                Multiset::empty()
            },
        )
    }
}

proof fn lemma_probed_step(
    build: Seq<Row>,
    probe: Seq<Row>,
    k: int,
    params: HashJoinParams,
    build_is_left: bool,
)
    requires
        0 <= k < probe.len(),
    ensures
        probed(build, probe, k + 1, params, build_is_left) == probed(
            build,
            probe,
            k,
            params,
            build_is_left,
        ).add(probe_rows(build, probe[k], params, build_is_left)),
{
    let m = params.matching();
    let grown = probe.take(k + 1);
    assert(grown.drop_last() =~= probe.take(k));
    assert(grown.last() == probe[k]);
    if build_is_left {
        lemma_pairs_next_right(build, probe, k, m);
    }
    assert(probed(build, probe, k + 1, params, build_is_left) =~= probed(
        build,
        probe,
        k,
        params,
        build_is_left,
    ).add(probe_rows(build, probe[k], params, build_is_left)));
}

proof fn lemma_nothing_probed(
    build: Seq<Row>,
    probe: Seq<Row>,
    params: HashJoinParams,
    build_is_left: bool,
)
    ensures
        probed(build, probe, 0, params, build_is_left) == Multiset::<Row>::empty(),
{
    assert(probe.take(0) =~= Seq::<Row>::empty());
    lemma_no_pairs(build, params.matching());
    assert(probed(build, probe, 0, params, build_is_left) =~= Multiset::<Row>::empty());
}

proof fn lemma_all_probed(
    build: Seq<Row>,
    probe: Seq<Row>,
    params: HashJoinParams,
    build_is_left: bool,
)
    ensures
        probed(build, probe, probe.len() as int, params, build_is_left).add(
            build_tail(build, probe, params, build_is_left),
        ) == if build_is_left {
            params.join_of(build, probe)
        } else {
            params.join_of(probe, build)
        },
{
    assert(probe.take(probe.len() as int) =~= probe);
    if build_is_left {
        assert(probed(build, probe, probe.len() as int, params, build_is_left).add(
            build_tail(build, probe, params, build_is_left),
        ) =~= params.join_of(build, probe));
    } else {
        assert(probed(build, probe, probe.len() as int, params, build_is_left).add(
            build_tail(build, probe, params, build_is_left),
        ) =~= params.join_of(probe, build));
    }
}

proof fn lemma_build_matched_step(
    b: Row,
    probe: Seq<Row>,
    k: int,
    m: Matching,
    build_is_left: bool,
)
    requires
        0 <= k < probe.len(),
    ensures
        build_matched(b, probe.take(k + 1), m, build_is_left) == (build_matched(
            b,
            probe.take(k),
            m,
            build_is_left,
        ) || meets(b, probe[k], m, build_is_left)),
{
    lemma_left_matched_next(b, probe, k, m);
    lemma_right_matched_step(probe, k, b, m);
}

/// Probe all rows of one bucket against the table of the other: the join of the two.
fn probe_bucket(
    table: &HashTable,
    build: &Bucket,
    probe: &Bucket,
    build_is_left: bool,
    params: &HashJoinParams,
    out: &mut Vec<Tuple>,
)
    requires
        table.holds(build.rows@, build.rows@.len() as int),
        paired(*build, *probe, *params, build_is_left),
    ensures
        rows_of(final(out)@).to_multiset() == rows_of(old(out)@).to_multiset().add(
            if build_is_left {
                params.join_of(build.model(), probe.model())
            } else {
                params.join_of(probe.model(), build.model())
            },
        ),
{
    let ghost bs = build.model();
    let ghost ps = probe.model();
    let ghost m = params.matching();
    let ghost start = rows_of(out@).to_multiset();
    let mut matched = all_false(build.rows.len());
    let mut k: usize = 0;
    proof {
        lemma_nothing_probed(bs, ps, *params, build_is_left);
        assert(start.add(Multiset::empty()) =~= start);
        assert(ps.take(0) =~= Seq::<Row>::empty());
    }
    while k < probe.rows.len()
        invariant
            k <= probe.rows@.len(),
            table.holds(build.rows@, build.rows@.len() as int),
            paired(*build, *probe, *params, build_is_left),
            bs == build.model(),
            ps == probe.model(),
            m == params.matching(),
            matched@.len() == build.rows@.len(),
            forall|i: int|
                0 <= i < build.rows@.len() ==> #[trigger] matched@[i] == build_matched(
                    bs[i],
                    ps.take(k as int),
                    m,
                    build_is_left,
                ),
            rows_of(out@).to_multiset() == start.add(
                probed(bs, ps, k as int, *params, build_is_left),
            ),
        decreases probe.rows@.len() - k,
    {
        assert(probe.rows@[k as int].wf(probe.column as nat));
        assert(ps[k as int] == probe.rows@[k as int].row@);
        probe_one(table, build, &mut matched, &probe.rows[k], build_is_left, params, out);
        proof {
            lemma_probed_step(bs, ps, k as int, *params, build_is_left);
            assert(rows_of(out@).to_multiset() =~= start.add(
                probed(bs, ps, k + 1, *params, build_is_left),
            ));
            assert forall|i: int| 0 <= i < build.rows@.len() implies #[trigger] matched@[i]
                == build_matched(bs[i], ps.take(k + 1), m, build_is_left) by {
                lemma_build_matched_step(bs[i], ps, k as int, m, build_is_left);
            }
        }
        k = k + 1;
    }
    assert(ps.take(ps.len() as int) =~= ps);
    unmatched_build_tail(build, &matched, build_is_left, params, Ghost(ps), out);
    proof {
        lemma_all_probed(bs, ps, *params, build_is_left);
        assert(rows_of(out@).to_multiset() =~= start.add(
            probed(bs, ps, ps.len() as int, *params, build_is_left).add(
                build_tail(bs, ps, *params, build_is_left),
            ),
        ));
    }
}

// --- the worklist ---

/// A pair of buckets to join, and how often its rows have been repartitioned.
pub struct BucketPair {
    pub left: Bucket,
    pub right: Bucket,
    pub level: u64,
}

impl BucketPair {
    /// Whether the pair belongs to the join.
    pub open spec fn wf(self, params: HashJoinParams) -> bool {
        &&& self.left.wf()
        &&& self.right.wf()
        &&& self.left.column == params.left_key
        &&& self.right.column == params.right_key
        &&& self.level <= MAX_REPARTITION_LEVELS
    }

    /// The rows the pair stands for.
    pub open spec fn result(self, params: HashJoinParams) -> Multiset<Row> {
        params.join_of(self.left.model(), self.right.model())
    }
}

/// The rows that a worklist stands for.
pub open spec fn pending(pairs: Seq<BucketPair>, params: HashJoinParams) -> Multiset<Row>
    decreases pairs.len(),
{
    if pairs.len() == 0 {
        Multiset::empty()
    } else {
        pending(pairs.drop_last(), params).add(pairs.last().result(params))
    }
}

/// How many pairs a pair can still lead to.
spec fn weight(level: u64, n: nat) -> nat
    decreases MAX_REPARTITION_LEVELS - level,
{
    if level >= MAX_REPARTITION_LEVELS {
        1
    } else {
        1 + n * weight((level + 1) as u64, n)
    }
}

spec fn work(pairs: Seq<BucketPair>, n: nat) -> nat
    decreases pairs.len(),
{
    if pairs.len() == 0 {
        0
    } else {
        work(pairs.drop_last(), n) + weight(pairs.last().level, n)
    }
}

/// Rows match only within a bucket, and rows with a key are in some bucket.
proof fn lemma_routing(params: HashJoinParams, level: u64, n: usize)
    requires
        n > 0,
    ensures
        respects(
            params.matching(),
            routing(params.left_key as nat, level, n),
            routing(params.right_key as nat, level, n),
        ),
        forall|k: Seq<u8>| #[trigger] bucket_of(k, level, n) < n,
{
}

/// Line up the buckets of two sides as pairs on the worklist.
fn push_pairs(
    left: Vec<Bucket>,
    right: Vec<Bucket>,
    level: u64,
    params: &HashJoinParams,
    ls: Ghost<Seq<Row>>,
    rs: Ghost<Seq<Row>>,
    worklist: &mut Vec<BucketPair>,
)
    requires
        level <= MAX_REPARTITION_LEVELS,
        params.config.hash_partitions > 0,
        left@.len() == params.config.hash_partitions,
        right@.len() == params.config.hash_partitions,
        holds_parts(
            left@,
            ls@,
            routing(params.left_key as nat, level, params.config.hash_partitions),
            params.left_key,
        ),
        holds_parts(
            right@,
            rs@,
            routing(params.right_key as nat, level, params.config.hash_partitions),
            params.right_key,
        ),
        forall|i: int| 0 <= i < old(worklist)@.len() ==> (#[trigger] old(worklist)@[i]).wf(*params),
    ensures
        forall|i: int|
            0 <= i < final(worklist)@.len() ==> (#[trigger] final(worklist)@[i]).wf(*params),
        pending(final(worklist)@, *params) == pending(old(worklist)@, *params).add(
            joined_parts(
                ls@,
                rs@,
                routing(params.left_key as nat, level, params.config.hash_partitions),
                routing(params.right_key as nat, level, params.config.hash_partitions),
                params.config.hash_partitions as nat,
                params.matching(),
                params.join_type,
                params.left_width as nat,
                params.right_width as nat,
            ),
        ),
        work(final(worklist)@, params.config.hash_partitions as nat) == work(
            old(worklist)@,
            params.config.hash_partitions as nat,
        ) + params.config.hash_partitions as nat * weight(
            level,
            params.config.hash_partitions as nat,
        ),
{
    let n: usize = params.config.hash_partitions;
    let ghost lpart = routing(params.left_key as nat, level, n);
    let ghost rpart = routing(params.right_key as nat, level, n);
    let ghost (lw, rw) = (params.left_width as nat, params.right_width as nat);
    let ghost (m, jt) = (params.matching(), params.join_type);
    let ghost rest = worklist@;
    let ghost all = pending(rest, *params).add(
        joined_parts(ls@, rs@, lpart, rpart, n as nat, m, jt, lw, rw),
    );
    let mut left = left;
    let mut right = right;
    let mut k: usize = n;
    while k > 0
        invariant
            k <= n,
            n == params.config.hash_partitions,
            level <= MAX_REPARTITION_LEVELS,
            left@.len() == k,
            right@.len() == k,
            lpart == routing(params.left_key as nat, level, n),
            rpart == routing(params.right_key as nat, level, n),
            lw == params.left_width,
            rw == params.right_width,
            m == params.matching(),
            jt == params.join_type,
            holds_parts(left@, ls@, lpart, params.left_key),
            holds_parts(right@, rs@, rpart, params.right_key),
            forall|i: int| 0 <= i < worklist@.len() ==> (#[trigger] worklist@[i]).wf(*params),
            pending(worklist@, *params).add(
                joined_parts(ls@, rs@, lpart, rpart, k as nat, m, jt, lw, rw),
            ) == all,
            work(worklist@, n as nat) == work(rest, n as nat) + (n - k) * weight(level, n as nat),
        decreases k,
    {
        let ghost before = worklist@;
        let ghost (lb, rb) = (left@, right@);
        match (left.pop(), right.pop()) {
            (Some(l), Some(r)) => {
                assert(lb[k - 1] == l && rb[k - 1] == r);
                assert(l.wf() && r.wf());
                let pair = BucketPair { left: l, right: r, level };
                worklist.push(pair);
                proof {
                    assert(worklist@.drop_last() =~= before);
                    assert(pending(worklist@, *params).add(
                        joined_parts(ls@, rs@, lpart, rpart, (k - 1) as nat, m, jt, lw, rw),
                    ) =~= all);
                    let w = weight(level, n as nat);
                    assert((n - k) * w + w == (n - (k - 1)) * w) by (nonlinear_arith);
                    assert(holds_parts(left@, ls@, lpart, params.left_key)) by {
                        assert forall|b: int| 0 <= b < left@.len() implies (
                        #[trigger] left@[b]).wf() && left@[b].column == params.left_key
                            && left@[b].model() == part_of(ls@, lpart, b as nat) by {
                            assert(left@[b] == lb[b]);
                        }
                    }
                    assert(holds_parts(right@, rs@, rpart, params.right_key)) by {
                        assert forall|b: int| 0 <= b < right@.len() implies (
                        #[trigger] right@[b]).wf() && right@[b].column == params.right_key
                            && right@[b].model() == part_of(rs@, rpart, b as nat) by {
                            assert(right@[b] == rb[b]);
                        }
                    }
                }
            },
            _ => {
                assert(false);
            },
        }
        k = k - 1;
    }
    proof {
        assert(pending(worklist@, *params) =~= all);
        assert(n * weight(level, n as nat) == (n - 0) * weight(level, n as nat));
    }
}

/// Join every pair of a worklist. The smaller side of a pair is built; a pair whose build side
/// is over budget goes back onto the worklist in parts, until it has been through
/// `MAX_REPARTITION_LEVELS` of them.
pub fn join_pairs(worklist: Vec<BucketPair>, params: &HashJoinParams, out: &mut Vec<Tuple>)
    requires
        params.config.hash_partitions > 0,
        forall|i: int| 0 <= i < worklist@.len() ==> (#[trigger] worklist@[i]).wf(*params),
    ensures
        rows_of(final(out)@).to_multiset() == rows_of(old(out)@).to_multiset().add(
            pending(worklist@, *params),
        ),
{
    let ghost all = rows_of(out@).to_multiset().add(pending(worklist@, *params));
    let mut worklist = worklist;
    while worklist.len() > 0
        invariant
            params.config.hash_partitions > 0,
            forall|i: int| 0 <= i < worklist@.len() ==> (#[trigger] worklist@[i]).wf(*params),
            rows_of(out@).to_multiset().add(pending(worklist@, *params)) == all,
        decreases work(worklist@, params.config.hash_partitions as nat),
    {
        let ghost before = worklist@;
        let ghost so_far = rows_of(out@).to_multiset();
        let ghost n = params.config.hash_partitions as nat;
        match worklist.pop() {
            None => {
                assert(false);
            },
            Some(pair) => {
                let ghost rest = worklist@;
                let ghost (ls, rs) = (pair.left.model(), pair.right.model());
                proof {
                    assert(rest =~= before.drop_last());
                    assert(pair == before.last());
                    assert(before[before.len() - 1].wf(*params));
                    assert forall|i: int| 0 <= i < rest.len() implies (#[trigger] rest[i]).wf(
                        *params,
                    ) by {
                        assert(before[i].wf(*params));
                    }
                }
                let BucketPair { left, right, level } = pair;
                let build_is_left: bool = left.used <= right.used;
                let cap: Option<usize> = if level < MAX_REPARTITION_LEVELS {
                    Some(params.config.build_budget)
                } else {
                    None
                };
                let table = if build_is_left {
                    build_table(&left, cap)
                } else {
                    build_table(&right, cap)
                };
                match table {
                    Some(table) => {
                        if build_is_left {
                            probe_bucket(&table, &left, &right, true, params, out);
                        } else {
                            probe_bucket(&table, &right, &left, false, params, out);
                        }
                        assert(rows_of(out@).to_multiset().add(pending(rest, *params)) =~= all);
                    },
                    None => {
                        let next: u64 = level + 1;
                        let ghost lpart = routing(
                            params.left_key as nat,
                            next,
                            params.config.hash_partitions,
                        );
                        let ghost rpart = routing(
                            params.right_key as nat,
                            next,
                            params.config.hash_partitions,
                        );
                        proof {
                            lemma_routing(*params, next, params.config.hash_partitions);
                            assert forall|i: int| 0 <= i < ls.len() implies lpart(
                                #[trigger] ls[i],
                            ) < n by {
                                assert(left.rows@[i].wf(left.column as nat));
                            }
                            assert forall|i: int| 0 <= i < rs.len() implies rpart(
                                #[trigger] rs[i],
                            ) < n by {
                                assert(right.rows@[i].wf(right.column as nat));
                            }
                            law_partitioning_preserves_joins(
                                ls,
                                rs,
                                lpart,
                                rpart,
                                n,
                                params.matching(),
                                params.join_type,
                                params.left_width as nat,
                                params.right_width as nat,
                            );
                        }
                        let lsub = repartition(left, next, params.config.hash_partitions);
                        let rsub = repartition(right, next, params.config.hash_partitions);
                        push_pairs(lsub, rsub, next, params, Ghost(ls), Ghost(rs), &mut worklist);
                        assert(so_far.add(pending(worklist@, *params)) =~= all);
                    },
                }
            },
        }
    }
    assert(rows_of(out@).to_multiset().add(Multiset::empty()) =~= rows_of(out@).to_multiset());
}

// --- the operator ---

/// Nothing matches within the rows that have no key.
proof fn lemma_nulls_match_nothing(
    left: Seq<Row>,
    right: Seq<Row>,
    params: HashJoinParams,
    n: usize,
)
    requires
        n > 0,
    ensures
        ({
            let l = part_of(left, routing(params.left_key as nat, 0, n), n as nat);
            let r = part_of(right, routing(params.right_key as nat, 0, n), n as nat);
            forall|i: int, j: int|
                0 <= i < l.len() && 0 <= j < r.len() ==> !#[trigger] params.matching()(l[i], r[j])
        }),
{
    let lpart = routing(params.left_key as nat, 0, n);
    let l = part_of(left, lpart, n as nat);
    let r = part_of(right, routing(params.right_key as nat, 0, n), n as nat);
    lemma_routing(params, 0, n);
    assert forall|i: int, j: int| 0 <= i < l.len() && 0 <= j < r.len() implies
        !#[trigger] params.matching()(l[i], r[j]) by {
        let k = lemma_part_origin(left, lpart, n as nat, i);
        assert(lpart(l[i]) == n);
    }
}

proof fn lemma_no_matches_no_pairs(left: Seq<Row>, right: Seq<Row>, m: Matching)
    requires
        forall|i: int, j: int|
            0 <= i < left.len() && 0 <= j < right.len() ==> !#[trigger] m(left[i], right[j]),
    ensures
        pairs(left, right, m) == Multiset::<Row>::empty(),
    decreases left.len() + right.len(),
{
    if left.len() > 0 {
        let (rest, l) = (left.drop_last(), left.last());
        assert forall|i: int, j: int| 0 <= i < rest.len() && 0 <= j < right.len() implies
            !#[trigger] m(rest[i], right[j]) by {
            assert(!m(left[i], right[j]));
        }
        lemma_no_matches_no_pairs(rest, right, m);
        assert forall|j: int| 0 <= j < right.len() implies !meets(
            #[trigger] right[j],
            l,
            m,
            false,
        ) by {
            assert(!m(left[left.len() - 1], right[j]));
        }
        lemma_found_gap(right, 0, right.len() as int, l, m, false);
        assert(right.take(0) =~= Seq::<Row>::empty());
        assert(right.take(right.len() as int) =~= right);
    }
    assert(pairs(left, right, m) =~= Multiset::<Row>::empty());
}

/// Emit rows that match nothing, padded, as far as their sides keep such rows.
fn emit_null_rows(
    left: &Vec<Tuple>,
    right: &Vec<Tuple>,
    params: &HashJoinParams,
    out: &mut Vec<Tuple>,
)
    requires
        forall|i: int, j: int|
            0 <= i < left@.len() && 0 <= j < right@.len() ==> !#[trigger] params.matching()(
                rows_of(left@)[i],
                rows_of(right@)[j],
            ),
    ensures
        rows_of(final(out)@).to_multiset() == rows_of(old(out)@).to_multiset().add(
            params.join_of(rows_of(left@), rows_of(right@)),
        ),
{
    let ghost (ls, rs) = (rows_of(left@), rows_of(right@));
    let ghost m = params.matching();
    let ghost (lw, rw) = (params.left_width as nat, params.right_width as nat);
    let ghost start = rows_of(out@).to_multiset();
    proof {
        lemma_no_matches_no_pairs(ls, rs, m);
    }
    if params.join_type.outer_left() {
        let mut i: usize = 0;
        proof {
            assert(ls.take(0) =~= Seq::<Row>::empty());
            assert(start.add(lone_left(ls.take(0), rs, m, rw)) =~= start);
        }
        while i < left.len()
            invariant
                i <= left@.len(),
                ls == rows_of(left@),
                rs == rows_of(right@),
                m == params.matching(),
                rw == params.right_width,
                forall|i: int, j: int|
                    0 <= i < ls.len() && 0 <= j < rs.len() ==> !#[trigger] m(ls[i], rs[j]),
                rows_of(out@).to_multiset() == start.add(lone_left(ls.take(i as int), rs, m, rw)),
            decreases left@.len() - i,
        {
            let ghost before = rows_of(out@);
            let row = pad_right(&left[i], params.right_width);
            out.push(row);
            proof {
                assert(rows_of(out@) =~= before.push(row@));
                vstd::seq_lib::to_multiset_build(before, row@);
                let grown = ls.take(i + 1);
                assert(grown.drop_last() =~= ls.take(i as int));
                assert(grown.last() == ls[i as int]);
                assert(!left_matched(ls[i as int], rs, m));
                assert(rows_of(out@).to_multiset() =~= start.add(lone_left(grown, rs, m, rw)));
            }
            i = i + 1;
        }
        assert(ls.take(ls.len() as int) =~= ls);
    }
    let ghost middle = rows_of(out@).to_multiset();
    if params.join_type.outer_right() {
        let mut i: usize = 0;
        proof {
            assert(rs.take(0) =~= Seq::<Row>::empty());
            assert(middle.add(lone_right(ls, rs.take(0), m, lw)) =~= middle);
        }
        while i < right.len()
            invariant
                i <= right@.len(),
                ls == rows_of(left@),
                rs == rows_of(right@),
                m == params.matching(),
                lw == params.left_width,
                forall|i: int, j: int|
                    0 <= i < ls.len() && 0 <= j < rs.len() ==> !#[trigger] m(ls[i], rs[j]),
                rows_of(out@).to_multiset() == middle.add(lone_right(ls, rs.take(i as int), m, lw)),
            decreases right@.len() - i,
        {
            let ghost before = rows_of(out@);
            let row = pad_left(params.left_width, &right[i]);
            out.push(row);
            proof {
                assert(rows_of(out@) =~= before.push(row@));
                vstd::seq_lib::to_multiset_build(before, row@);
                let grown = rs.take(i + 1);
                assert(grown.drop_last() =~= rs.take(i as int));
                assert(grown.last() == rs[i as int]);
                assert(!right_matched(ls, rs[i as int], m));
                assert(rows_of(out@).to_multiset() =~= middle.add(lone_right(ls, grown, m, lw)));
            }
            i = i + 1;
        }
        assert(rs.take(rs.len() as int) =~= rs);
    }
    assert(rows_of(out@).to_multiset() =~= start.add(params.join_of(ls, rs)));
}

/// The first thing wrong with a join's inputs, the left one's first.
pub open spec fn inputs_fault(
    left: Seq<Result<Row, Fault>>,
    right: Seq<Result<Row, Fault>>,
    params: HashJoinParams,
) -> Option<Fault> {
    match input_fault(left, left.len(), params.left_key as nat) {
        Some(f) => Some(f),
        None => input_fault(right, right.len(), params.right_key as nat),
    }
}

/// Whether `parts` and `nulls` are an input's rows, partitioned.
pub open spec fn partitioned(
    parts: Seq<Bucket>,
    nulls: Seq<Row>,
    rows: Seq<Row>,
    column: usize,
    n: usize,
) -> bool {
    let part = routing(column as nat, 0, n);
    &&& parts.len() == n
    &&& holds_parts(parts, rows, part, column)
    &&& nulls == part_of(rows, part, n as nat)
}

/// Join two partitioned inputs.
fn join_partitions(
    left: (Vec<Bucket>, Vec<Tuple>),
    right: (Vec<Bucket>, Vec<Tuple>),
    params: &HashJoinParams,
    ls: Ghost<Seq<Row>>,
    rs: Ghost<Seq<Row>>,
) -> (out: Vec<Tuple>)
    requires
        params.config.hash_partitions > 0,
        partitioned(
            left.0@,
            rows_of(left.1@),
            ls@,
            params.left_key,
            params.config.hash_partitions,
        ),
        partitioned(
            right.0@,
            rows_of(right.1@),
            rs@,
            params.right_key,
            params.config.hash_partitions,
        ),
    ensures
        rows_of(out@).to_multiset() == params.join_of(ls@, rs@),
{
    let n: usize = params.config.hash_partitions;
    let (lparts, lnulls) = left;
    let (rparts, rnulls) = right;
    let mut worklist: Vec<BucketPair> = Vec::new();
    let mut out: Vec<Tuple> = Vec::new();
    push_pairs(lparts, rparts, 0, params, ls, rs, &mut worklist);
    join_pairs(worklist, params, &mut out);
    proof {
        lemma_nulls_match_nothing(ls@, rs@, *params, n);
    }
    emit_null_rows(&lnulls, &rnulls, params, &mut out);
    proof {
        broadcast use vstd::seq_lib::group_to_multiset_ensures;

        let lpart = routing(params.left_key as nat, 0, n);
        let rpart = routing(params.right_key as nat, 0, n);
        lemma_routing(*params, 0, n);
        law_partitioning_preserves_joins(
            ls@,
            rs@,
            lpart,
            rpart,
            n as nat + 1,
            params.matching(),
            params.join_type,
            params.left_width as nat,
            params.right_width as nat,
        );
        assert(rows_of(Seq::<Tuple>::empty()) =~= Seq::<Row>::empty());
        assert(rows_of(out@).to_multiset() =~= params.join_of(ls@, rs@));
    }
    out
}

/// Grace hash join. Its rows are those of the join on equal keys, whatever the fan-out and the
/// budget; the first error in the inputs, or in a key, is the outcome.
pub fn grace_hash_join(
    left: Vec<RowResult>,
    right: Vec<RowResult>,
    params: &HashJoinParams,
) -> (r: Result<Vec<Tuple>, QueryError>)
    requires
        params.config.hash_partitions > 0,
        stream_has_column(stream_of(left@), params.left_key as nat),
        stream_has_column(stream_of(right@), params.right_key as nat),
    ensures
        match r {
            Ok(out) => {
                &&& inputs_fault(stream_of(left@), stream_of(right@), *params) is None
                &&& rows_of(out@).to_multiset() == params.join_of(
                    stream_rows(stream_of(left@)),
                    stream_rows(stream_of(right@)),
                )
            },
            Err(e) => inputs_fault(stream_of(left@), stream_of(right@), *params) == Some(e@),
        },
{
    let n: usize = params.config.hash_partitions;
    let ghost ls = stream_rows(stream_of(left@));
    let ghost rs = stream_rows(stream_of(right@));
    let lparts = match partition_input(left, params.left_key, n) {
        Ok(parts) => parts,
        Err(e) => return Err(e),
    };
    let rparts = match partition_input(right, params.right_key, n) {
        Ok(parts) => parts,
        Err(e) => return Err(e),
    };
    Ok(join_partitions(lparts, rparts, params, Ghost(ls), Ghost(rs)))
}

} // verus!
