//! Hash partitioning of a join's inputs. Equal keys always go to the same bucket, so each pair
//! of buckets is a join of its own. Null keys match nothing and are set aside.

use vstd::prelude::*;

use super::keys::{join_key, key_bytes};
use super::model::part_of;
use crate::query::error::{Fault, QueryError};
use crate::query::volcano::rows::{stream_of, stream_rows, Row, RowResult};
use crate::storage::codec::{lemma_none_null, no_nulls, none_null, row_layout};
use crate::storage::types::{data_of, lemma_array_view, rows_of, Tuple, Value};

verus! {

/// Base seed of bucket routing. Each level mixes in its depth, so that repartitioning
/// redistributes keys instead of colliding again.
pub const BUCKET_SEED: u64 = 0xdead_beef_cafe_babe;

/// What a level multiplies into the seed.
pub const LEVEL_STRIDE: u64 = 0x9e37_79b9_7f4a_7c15;

/// The 64-bit XXH3 hash of some bytes under a seed.
pub uninterp spec fn xxh3_64(bytes: Seq<u8>, seed: u64) -> u64;

/// Calls `xxhash_rust::xxh3::xxh3_64_with_seed`. Trusted: the hash is a function of the bytes
/// and the seed.
#[verifier::external_body]
fn hash_bytes(bytes: &[u8], seed: u64) -> (r: u64)
    ensures
        r == xxh3_64(bytes@, seed),
{
    xxhash_rust::xxh3::xxh3_64_with_seed(bytes, seed)
}

/// The seed of a level.
pub open spec fn level_seed(level: u64) -> u64 {
    BUCKET_SEED ^ vstd::wrapping::u64_specs::wrapping_mul(level, LEVEL_STRIDE)
}

/// The bucket a key goes to at a level.
pub open spec fn bucket_of(key: Seq<u8>, level: u64, buckets: usize) -> nat {
    ((xxh3_64(key, level_seed(level)) as usize) % buckets) as nat
}

/// The bucket `key` goes to at this `level`.
pub fn bucket(key: &Vec<u8>, level: u64, hash_partitions: usize) -> (r: usize)
    requires
        hash_partitions > 0,
    ensures
        r == bucket_of(key@, level, hash_partitions),
        r < hash_partitions,
{
    let seed: u64 = BUCKET_SEED ^ level.wrapping_mul(LEVEL_STRIDE);
    (hash_bytes(key.as_slice(), seed) as usize) % hash_partitions
}

/// The bucket a row goes to; one past the last for a row without a key.
pub open spec fn routing(column: nat, level: u64, buckets: usize) -> spec_fn(Row) -> nat {
    |row: Row|
        match join_key(row[column as int]) {
            Ok(Some(k)) => bucket_of(k, level, buckets),
            _ => buckets as nat,
        }
}

/// The bytes a row takes when it is spilled: its values' in-row encodings.
pub open spec fn spilled(row: Row, n: nat) -> Seq<u8>
    decreases n,
{
    if n == 0 || n > row.len() {
        Seq::empty()
    } else if no_nulls(row[n - 1]) {
        spilled(row, (n - 1) as nat) + row_layout(row[n - 1])
    } else {
        spilled(row, (n - 1) as nat)
    }
}

/// A row of a bucket with its key's bytes and its size.
pub struct Keyed {
    pub row: Tuple,
    pub key: Vec<u8>,
    pub size: usize,
}

impl Keyed {
    /// Whether the key is that of the row's column, and the size that of the row.
    pub open spec fn wf(self, column: nat) -> bool {
        &&& column < self.row@.len()
        &&& join_key(self.row@[column as int]) == Ok::<Option<Seq<u8>>, Fault>(Some(self.key@))
        &&& self.size == spilled(self.row@, self.row@.len()).len()
    }
}

/// The rows of a bucket.
pub open spec fn keyed_rows(v: Seq<Keyed>) -> Seq<Row> {
    Seq::new(v.len(), |i: int| v[i].row@)
}

/// The bytes of a bucket's rows.
pub open spec fn total_size(v: Seq<Keyed>) -> int
    decreases v.len(),
{
    if v.len() == 0 {
        0
    } else {
        total_size(v.drop_last()) + v.last().size
    }
}

/// One bucket: rows with a join key in `column`.
pub struct Bucket {
    pub column: usize,
    pub rows: Vec<Keyed>,
    /// The bytes of all rows, as far as they can be counted.
    pub used: usize,
}

impl Bucket {
    /// Whether every row has its key and size, and the bytes are counted.
    pub open spec fn wf(self) -> bool {
        &&& forall|i: int|
            0 <= i < self.rows@.len() ==> (#[trigger] self.rows@[i]).wf(self.column as nat)
        &&& self.used == if total_size(self.rows@) > usize::MAX {
            usize::MAX as int
        } else {
            total_size(self.rows@)
        }
    }

    /// The rows of the bucket.
    pub open spec fn model(self) -> Seq<Row> {
        keyed_rows(self.rows@)
    }

    /// An empty bucket.
    pub fn new(column: usize) -> (r: Bucket)
        ensures
            r.wf(),
            r.column == column,
            r.rows@ == Seq::<Keyed>::empty(),
    {
        Bucket { column, rows: Vec::new(), used: 0 }
    }

    /// Add a row.
    pub fn append(&mut self, item: Keyed)
        requires
            old(self).wf(),
            item.wf(old(self).column as nat),
        ensures
            final(self).wf(),
            final(self).column == old(self).column,
            final(self).rows@ == old(self).rows@.push(item),
    {
        let ghost before = self.rows@;
        let size: usize = item.size;
        self.rows.push(item);
        assert(self.rows@.drop_last() =~= before);
        self.used = self.used.saturating_add(size);
        assert forall|i: int| 0 <= i < self.rows@.len() implies (#[trigger] self.rows@[i]).wf(
            self.column as nat,
        ) by {
            if i < before.len() {
                assert(before[i].wf(self.column as nat));
            }
        }
    }
}

/// `hash_partitions` empty buckets.
pub fn new_buckets(column: usize, hash_partitions: usize) -> (r: Vec<Bucket>)
    ensures
        r@.len() == hash_partitions,
        forall|b: int|
            0 <= b < r@.len() ==> (#[trigger] r@[b]).wf() && r@[b].column == column && r@[b].rows@
                == Seq::<Keyed>::empty(),
{
    let mut out: Vec<Bucket> = Vec::new();
    let mut i: usize = 0;
    while i < hash_partitions
        invariant
            i <= hash_partitions,
            out@.len() == i,
            forall|b: int|
                0 <= b < out@.len() ==> (#[trigger] out@[b]).wf() && out@[b].column == column
                    && out@[b].rows@ == Seq::<Keyed>::empty(),
        decreases hash_partitions - i,
    {
        out.push(Bucket::new(column));
        i = i + 1;
    }
    out
}

/// Whether a value holds no null at any depth.
pub fn is_null_free(v: &Value) -> (r: bool)
    ensures
        r == no_nulls(v@),
    decreases v,
{
    match v {
        Value::Null => false,
        Value::Array(items) => {
            proof {
                lemma_array_view(*items);
            }
            are_null_free(items)
        },
        _ => true,
    }
}

fn are_null_free(items: &Vec<Value>) -> (r: bool)
    ensures
        r == none_null(data_of(items@), items@.len()),
    decreases items,
{
    let mut i: usize = 0;
    while i < items.len()
        invariant
            i <= items@.len(),
            none_null(data_of(items@), i as nat),
        decreases items@.len() - i,
    {
        assert(decreases_to!(*items => items@[i as int]));
        if !is_null_free(&items[i]) {
            proof {
                if none_null(data_of(items@), items@.len()) {
                    lemma_none_null(data_of(items@), items@.len(), i as int);
                }
            }
            return false;
        }
        i = i + 1;
    }
    true
}

/// How many bytes a row takes when it is spilled.
pub fn spilled_size(row: &Tuple) -> (r: usize)
    ensures
        r == spilled(row@, row@.len()).len(),
{
    let mut buf: Vec<u8> = Vec::new();
    let mut i: usize = 0;
    while i < row.values.len()
        invariant
            i <= row.values@.len(),
            buf@ == spilled(row@, i as nat),
        decreases row.values@.len() - i,
    {
        assert(row@[i as int] == row.values@[i as int]@);
        if is_null_free(&row.values[i]) {
            row.values[i].encode(&mut buf);
        }
        i = i + 1;
    }
    buf.len()
}

/// The first thing wrong with an input: an error in it, or a row whose key has no encoding.
pub open spec fn input_fault(items: Seq<Result<Row, Fault>>, n: nat, column: nat) -> Option<Fault>
    decreases n,
{
    if n == 0 || n > items.len() {
        None
    } else {
        match input_fault(items, (n - 1) as nat, column) {
            Some(f) => Some(f),
            None => match items[n - 1] {
                Err(f) => Some(f),
                Ok(row) => match join_key(row[column as int]) {
                    Err(f) => Some(f),
                    Ok(_) => None,
                },
            },
        }
    }
}

/// Whether every row of a stream has a column.
pub open spec fn stream_has_column(items: Seq<Result<Row, Fault>>, column: nat) -> bool {
    forall|i: int|
        0 <= i < items.len() ==> ((#[trigger] items[i]) is Ok ==> column < items[i]->Ok_0.len())
}

proof fn lemma_input_fault_stop(items: Seq<Result<Row, Fault>>, m: nat, n: nat, column: nat)
    requires
        m <= n <= items.len(),
        input_fault(items, m, column) is Some,
    ensures
        input_fault(items, n, column) == input_fault(items, m, column),
    decreases n,
{
    if m < n {
        lemma_input_fault_stop(items, m, (n - 1) as nat, column);
    }
}

/// The rows of an input whose keys all have an encoding; the first error of the input, or of a
/// key, where there is one.
pub fn checked_rows(items: Vec<RowResult>, column: usize) -> (r: Result<Vec<Tuple>, QueryError>)
    requires
        stream_has_column(stream_of(items@), column as nat),
    ensures
        match r {
            Ok(rows) => {
                &&& input_fault(stream_of(items@), items@.len(), column as nat) is None
                &&& rows_of(rows@) == stream_rows(stream_of(items@))
            },
            Err(e) => input_fault(stream_of(items@), items@.len(), column as nat) == Some(e@),
        },
{
    let ghost stream = stream_of(items@);
    let ghost input = items@;
    let mut out: Vec<Tuple> = Vec::new();
    assert(rows_of(out@) =~= stream_rows(stream).take(0));
    for item in it: items
        invariant
            it.seq() == input,
            stream == stream_of(input),
            stream_has_column(stream, column as nat),
            input_fault(stream, it.index() as nat, column as nat) is None,
            rows_of(out@) == stream_rows(stream).take(it.index() as int),
    {
        let ghost i = it.index() as int;
        assert(item == input[i]);
        assert(stream[i] == match item {
            Ok(t) => Ok::<Row, Fault>(t@),
            Err(e) => Err(e@),
        });
        match item {
            Err(e) => {
                proof {
                    lemma_input_fault_stop(stream, (i + 1) as nat, stream.len(), column as nat);
                }
                return Err(e);
            },
            Ok(tuple) => {
                match key_bytes(&tuple.values[column]) {
                    Err(e) => {
                        proof {
                            lemma_input_fault_stop(
                                stream,
                                (i + 1) as nat,
                                stream.len(),
                                column as nat,
                            );
                        }
                        return Err(e);
                    },
                    Ok(_) => {},
                }
                let ghost before = rows_of(out@);
                out.push(tuple);
                assert(rows_of(out@) =~= before.push(tuple@));
                assert(rows_of(out@) =~= stream_rows(stream).take(i + 1));
            },
        }
    }
    assert(stream_rows(stream).take(stream.len() as int) =~= stream_rows(stream));
    Ok(out)
}

/// Whether `parts` holds, bucket by bucket, the rows that `part` puts there.
pub open spec fn holds_parts(
    parts: Seq<Bucket>,
    rows: Seq<Row>,
    part: spec_fn(Row) -> nat,
    column: usize,
) -> bool {
    forall|b: int|
        0 <= b < parts.len() ==> (#[trigger] parts[b]).wf() && parts[b].column == column
            && parts[b].model() == part_of(rows, part, b as nat)
}

/// Hash-partition an input at level 0. Rows with a null key, which match nothing, come back
/// apart. The first error of the input, or of a key, is the outcome.
pub fn partition_input(items: Vec<RowResult>, column: usize, hash_partitions: usize) -> (r: Result<
    (Vec<Bucket>, Vec<Tuple>),
    QueryError,
>)
    requires
        hash_partitions > 0,
        stream_has_column(stream_of(items@), column as nat),
    ensures
        match r {
            Ok((parts, nulls)) => {
                let rows = stream_rows(stream_of(items@));
                let part = routing(column as nat, 0, hash_partitions);
                &&& input_fault(stream_of(items@), items@.len(), column as nat) is None
                &&& parts@.len() == hash_partitions
                &&& holds_parts(parts@, rows, part, column)
                &&& rows_of(nulls@) == part_of(rows, part, hash_partitions as nat)
            },
            Err(e) => input_fault(stream_of(items@), items@.len(), column as nat) == Some(e@),
        },
{
    let ghost stream = stream_of(items@);
    let ghost rows = stream_rows(stream);
    let ghost part = routing(column as nat, 0, hash_partitions);
    let ghost input = items@;
    let mut parts = new_buckets(column, hash_partitions);
    let mut nulls: Vec<Tuple> = Vec::new();
    assert(rows.take(0) =~= Seq::<Row>::empty());
    assert(rows_of(nulls@) =~= Seq::<Row>::empty());
    assert forall|b: int| 0 <= b < parts@.len() implies (#[trigger] parts@[b]).model() == part_of(
        rows.take(0),
        part,
        b as nat,
    ) by {
        assert(parts@[b].model() =~= Seq::<Row>::empty());
    }
    for item in it: items
        invariant
            it.seq() == input,
            stream == stream_of(input),
            rows == stream_rows(stream),
            part == routing(column as nat, 0, hash_partitions),
            hash_partitions > 0,
            stream_has_column(stream, column as nat),
            parts@.len() == hash_partitions,
            input_fault(stream, it.index() as nat, column as nat) is None,
            holds_parts(parts@, rows.take(it.index() as int), part, column),
            rows_of(nulls@) == part_of(rows.take(it.index() as int), part, hash_partitions as nat),
    {
        let ghost i = it.index() as int;
        assert(item == input[i]);
        assert(stream[i] == match item {
            Ok(t) => Ok::<Row, Fault>(t@),
            Err(e) => Err(e@),
        });
        assert(rows.take(i + 1).drop_last() =~= rows.take(i));
        assert(rows.take(i + 1).last() == rows[i]);
        match item {
            Err(e) => {
                proof {
                    lemma_input_fault_stop(stream, (i + 1) as nat, stream.len(), column as nat);
                }
                return Err(e);
            },
            Ok(tuple) => {
                assert(rows[i] == tuple@);
                match key_bytes(&tuple.values[column]) {
                    Err(e) => {
                        proof {
                            lemma_input_fault_stop(
                                stream,
                                (i + 1) as nat,
                                stream.len(),
                                column as nat,
                            );
                        }
                        return Err(e);
                    },
                    Ok(None) => {
                        let ghost before = rows_of(nulls@);
                        nulls.push(tuple);
                        assert(rows_of(nulls@) =~= before.push(tuple@));
                    },
                    Ok(Some(key)) => {
                        let b: usize = bucket(&key, 0, hash_partitions);
                        let ghost before = parts@;
                        let size: usize = spilled_size(&tuple);
                        let keyed = Keyed { row: tuple, key, size };
                        parts[b].append(keyed);
                        proof {
                            lemma_appended(before, parts@, b as int, keyed, rows, i, part, column);
                        }
                    },
                }
            },
        }
    }
    assert(rows.take(rows.len() as int) =~= rows);
    Ok((parts, nulls))
}

/// Adding the next row to its own bucket keeps the buckets right.
proof fn lemma_appended(
    before: Seq<Bucket>,
    after: Seq<Bucket>,
    b: int,
    item: Keyed,
    rows: Seq<Row>,
    i: int,
    part: spec_fn(Row) -> nat,
    column: usize,
)
    requires
        0 <= i < rows.len(),
        0 <= b < before.len(),
        after.len() == before.len(),
        forall|c: int| 0 <= c < before.len() && c != b ==> #[trigger] after[c] == before[c],
        after[b].wf(),
        after[b].column == column,
        after[b].rows@ == before[b].rows@.push(item),
        item.row@ == rows[i],
        part(rows[i]) == b,
        holds_parts(before, rows.take(i), part, column),
    ensures
        holds_parts(after, rows.take(i + 1), part, column),
{
    assert(rows.take(i + 1).drop_last() =~= rows.take(i));
    assert(rows.take(i + 1).last() == rows[i]);
    assert forall|c: int| 0 <= c < after.len() implies (#[trigger] after[c]).wf() && after[c].column
        == column && after[c].model() == part_of(rows.take(i + 1), part, c as nat) by {
        assert(before[c].wf());
        if c == b {
            assert(after[c].model() =~= before[c].model().push(rows[i]));
        }
    }
}

/// Route the rows of one bucket into fresh buckets, hashing at `level`.
pub fn repartition(src: Bucket, level: u64, hash_partitions: usize) -> (r: Vec<Bucket>)
    requires
        hash_partitions > 0,
        src.wf(),
    ensures
        r@.len() == hash_partitions,
        holds_parts(
            r@,
            src.model(),
            routing(src.column as nat, level, hash_partitions),
            src.column,
        ),
{
    let column: usize = src.column;
    let ghost input = src.rows@;
    let ghost rows = src.model();
    let ghost part = routing(column as nat, level, hash_partitions);
    let mut parts = new_buckets(column, hash_partitions);
    assert(rows.take(0) =~= Seq::<Row>::empty());
    assert forall|b: int| 0 <= b < parts@.len() implies (#[trigger] parts@[b]).model() == part_of(
        rows.take(0),
        part,
        b as nat,
    ) by {
        assert(parts@[b].model() =~= Seq::<Row>::empty());
    }
    for item in it: src.rows
        invariant
            it.seq() == input,
            rows == keyed_rows(input),
            part == routing(column as nat, level, hash_partitions),
            hash_partitions > 0,
            forall|i: int| 0 <= i < input.len() ==> (#[trigger] input[i]).wf(column as nat),
            parts@.len() == hash_partitions,
            holds_parts(parts@, rows.take(it.index() as int), part, column),
    {
        let ghost i = it.index() as int;
        assert(item == input[i]);
        assert(rows[i] == item.row@);
        let b: usize = bucket(&item.key, level, hash_partitions);
        let ghost before = parts@;
        parts[b].append(item);
        proof {
            lemma_appended(before, parts@, b as int, item, rows, i, part, column);
        }
    }
    assert(rows.take(rows.len() as int) =~= rows);
    parts
}

} // verus!
