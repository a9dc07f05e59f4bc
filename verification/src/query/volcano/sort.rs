//! The sort operator: an external merge sort. Runs of bounded length are sorted one by one and
//! then merged; rows with equal keys keep their order.

use vstd::prelude::*;

use crate::query::error::{agrees, Fault, QueryError};
use crate::query::expression::eval::evaluated;
use crate::query::expression::{Expr, Term};
use crate::query::host::{Answer, Answers, Question};
use crate::query::volcano::rows::{Row, RowResult, stream_of, stream_rows};
use crate::storage::bytes::{
    bytes_eq, bytes_lt, complement, lemma_lex_irreflexive, lemma_lex_total, lemma_lex_transitive,
    lex_lt, push_all,
};
use crate::storage::codec::{key_of, key_written};
use crate::storage::types::{rows_of, Datum, Tuple, Value};

verus! {

/// Rows sorted together before a run is full.
pub const SORT_RUN_TUPLES: usize = 4096;

/// One key of an `ORDER BY`.
#[derive(Debug)]
pub struct SortKey {
    pub expr: Expr,
    pub ascending: bool,
    pub nulls_first: bool,
}

/// What a [`SortKey`] is, mathematically.
pub struct SortTerm {
    pub expr: Term,
    pub ascending: bool,
    pub nulls_first: bool,
}

impl View for SortKey {
    type V = SortTerm;

    open spec fn view(&self) -> SortTerm {
        SortTerm {
            expr: self.expr@,
            ascending: self.ascending,
            nulls_first: self.nulls_first,
        }
    }
}

/// The models of a sequence of sort keys.
pub open spec fn sort_terms(keys: Seq<SortKey>) -> Seq<SortTerm> {
    Seq::new(keys.len(), |i: int| keys[i]@)
}

impl Clone for SortKey {
    fn clone(&self) -> (r: Self)
        ensures
            r@ == self@,
    {
        SortKey {
            expr: self.expr.clone(),
            ascending: self.ascending,
            nulls_first: self.nulls_first,
        }
    }
}

/// A copy of each sort key.
pub fn clone_sort_keys(keys: &Vec<SortKey>) -> (r: Vec<SortKey>)
    ensures
        sort_terms(r@) == sort_terms(keys@),
{
    let mut out: Vec<SortKey> = Vec::new();
    let mut i: usize = 0;
    while i < keys.len()
        invariant
            i <= keys@.len(),
            out@.len() == i,
            forall|j: int| 0 <= j < i ==> (#[trigger] out@[j])@ == keys@[j]@,
        decreases keys@.len() - i,
    {
        out.push(keys[i].clone());
        i = i + 1;
    }
    assert(sort_terms(out@) =~= sort_terms(keys@));
    out
}

/// A row's normalized sort key: one byte string per sort key.
pub type KeyBytes = Seq<Seq<u8>>;

/// A byte string with its end marked: every zero byte is followed by 255, and two zero bytes
/// close the string. So marked, no string is the beginning of another.
pub open spec fn ended(k: Seq<u8>) -> Seq<u8>
    decreases k.len(),
{
    if k.len() == 0 {
        seq![0u8, 0u8]
    } else if k[0] == 0 {
        seq![0u8, 255u8] + ended(k.drop_first())
    } else {
        seq![k[0]] + ended(k.drop_first())
    }
}

/// The byte string of one key value: a byte that places nulls, then the value's
/// order-preserving bytes; for a descending key their end is marked and they are complemented.
pub open spec fn key_part(d: Datum, ascending: bool, nulls_first: bool) -> Result<Seq<u8>, Fault> {
    if d is Null {
        Ok(
            seq![
                if nulls_first {
                    0u8
                } else {
                    1u8
                },
            ],
        )
    } else {
        match key_of(d) {
            None => Err(Fault::Type("cannot ORDER BY this value: NullKey"@)),
            Some(k) => Ok(
                seq![
                    if nulls_first {
                        1u8
                    } else {
                        0u8
                    },
                ] + if ascending {
                    k
                } else {
                    complement(ended(k))
                },
            ),
        }
    }
}

/// The first `n` parts of a row's sort key.
pub open spec fn key_parts(
    row: Row,
    keys: Seq<SortTerm>,
    n: nat,
    table: Seq<(Question, Answer)>,
) -> Result<KeyBytes, Fault>
    decreases n,
{
    if n == 0 || n > keys.len() {
        Ok(Seq::empty())
    } else {
        match key_parts(row, keys, (n - 1) as nat, table) {
            Err(f) => Err(f),
            Ok(before) => match evaluated(keys[n - 1].expr, row, table) {
                Err(f) => Err(f),
                Ok(d) => match key_part(d, keys[n - 1].ascending, keys[n - 1].nulls_first) {
                    Err(f) => Err(f),
                    Ok(part) => Ok(before.push(part)),
                },
            },
        }
    }
}

/// The order of sort keys: the first parts that differ decide.
pub open spec fn key_lt(a: KeyBytes, b: KeyBytes) -> bool
    decreases a.len(),
{
    if b.len() == 0 {
        false
    } else if a.len() == 0 {
        true
    } else if a[0] != b[0] {
        lex_lt(a[0], b[0])
    } else {
        key_lt(a.drop_first(), b.drop_first())
    }
}

proof fn lemma_key_transitive(a: KeyBytes, b: KeyBytes, c: KeyBytes)
    requires
        key_lt(a, b),
        key_lt(b, c),
    ensures
        key_lt(a, c),
    decreases a.len(),
{
    if a.len() > 0 {
        if a[0] == b[0] && b[0] == c[0] {
            lemma_key_transitive(a.drop_first(), b.drop_first(), c.drop_first());
        } else if a[0] != b[0] && b[0] != c[0] {
            lemma_lex_transitive(a[0], b[0], c[0]);
            lemma_lex_irreflexive(a[0]);
        }
    }
}

proof fn lemma_key_total(a: KeyBytes, b: KeyBytes)
    ensures
        key_lt(a, b) || a == b || key_lt(b, a),
        !(key_lt(a, b) && key_lt(b, a)),
        a == b ==> !key_lt(a, b),
    decreases a.len(),
{
    if a.len() == 0 || b.len() == 0 {
        if a.len() == 0 && b.len() == 0 {
            assert(a =~= b);
        }
    } else {
        lemma_lex_total(a[0], b[0]);
        if a[0] == b[0] {
            lemma_key_total(a.drop_first(), b.drop_first());
            if a.drop_first() == b.drop_first() {
                assert(a =~= seq![a[0]] + a.drop_first());
                assert(b =~= seq![b[0]] + b.drop_first());
            }
        }
    }
}

/// Whether row `i` comes before row `j`: by key, and by place in the input where keys are equal.
pub open spec fn comes_before(keys: Seq<KeyBytes>, i: int, j: int) -> bool {
    key_lt(keys[i], keys[j]) || (keys[i] == keys[j] && i < j)
}

/// Whether `p` lists rows in sorted order.
pub open spec fn in_order(keys: Seq<KeyBytes>, p: Seq<usize>) -> bool {
    forall|a: int, b: int|
        0 <= a < b < p.len() ==> comes_before(keys, #[trigger] p[a] as int, #[trigger] p[b] as int)
}

/// Whether `p` lists the rows `lo..hi`, each once.
pub open spec fn lists(p: Seq<usize>, lo: int, hi: int) -> bool {
    &&& p.len() == hi - lo
    &&& forall|a: int| 0 <= a < p.len() ==> lo <= #[trigger] p[a] < hi
    &&& forall|x: usize| lo <= x < hi ==> #[trigger] p.contains(x)
}

/// Whether `p` is the sorted order of all rows.
pub open spec fn sorts(keys: Seq<KeyBytes>, p: Seq<usize>) -> bool {
    in_order(keys, p) && lists(p, 0, keys.len() as int)
}

/// The rows that `p` lists.
pub open spec fn arranged(rows: Seq<Row>, p: Seq<usize>) -> Seq<Row> {
    Seq::new(p.len(), |i: int| rows[p[i] as int])
}

proof fn lemma_before_transitive(keys: Seq<KeyBytes>, i: int, j: int, k: int)
    requires
        comes_before(keys, i, j),
        comes_before(keys, j, k),
    ensures
        comes_before(keys, i, k),
{
    if key_lt(keys[i], keys[j]) && key_lt(keys[j], keys[k]) {
        lemma_key_transitive(keys[i], keys[j], keys[k]);
    }
}

proof fn lemma_before_total(keys: Seq<KeyBytes>, i: int, j: int)
    ensures
        i != j ==> comes_before(keys, i, j) || comes_before(keys, j, i),
        !(comes_before(keys, i, j) && comes_before(keys, j, i)),
        !comes_before(keys, i, i),
{
    lemma_key_total(keys[i], keys[j]);
    lemma_key_total(keys[i], keys[i]);
}

// --- executable keys ---

/// The byte strings behind a vector of byte vectors.
pub open spec fn parts_of(v: Seq<Vec<u8>>) -> KeyBytes {
    Seq::new(v.len(), |i: int| v[i]@)
}

/// The keys behind a vector of executable keys.
pub open spec fn keys_of(v: Seq<Vec<Vec<u8>>>) -> Seq<KeyBytes> {
    Seq::new(v.len(), |i: int| parts_of(v[i]@))
}

/// The byte string of one key value.
pub fn sort_part(value: &Value, ascending: bool, nulls_first: bool) -> (r: Result<
    Vec<u8>,
    QueryError,
>)
    ensures
        agrees(r, key_part(value@, ascending, nulls_first)),
{
    let mut part: Vec<u8> = Vec::new();
    if value.is_null() {
        part.push(
            if nulls_first {
                0
            } else {
                1
            },
        );
        assert(part@ =~= key_part(value@, ascending, nulls_first)->Ok_0);
        return Ok(part);
    }
    part.push(
        if nulls_first {
            1
        } else {
            0
        },
    );
    let mut bytes: Vec<u8> = Vec::new();
    if value.encode_key(&mut bytes).is_err() {
        return Err(QueryError::type_error("cannot ORDER BY this value: NullKey"));
    }
    assert(bytes@ =~= key_written(value@).0);
    if ascending {
        push_all(&mut part, bytes.as_slice());
    } else {
        let ghost whole = part@ + complement(ended(bytes@));
        let mut i: usize = 0;
        assert(bytes@.skip(0) =~= bytes@);
        while i < bytes.len()
            invariant
                i <= bytes@.len(),
                part@ + complement(ended(bytes@.skip(i as int))) == whole,
            decreases bytes@.len() - i,
        {
            let b: u8 = bytes[i];
            let ghost before = part@;
            part.push(255 - b);
            if b == 0 {
                part.push(0);
            }
            proof {
                let rest = bytes@.skip(i as int);
                assert(rest[0] == b && rest.drop_first() =~= bytes@.skip(i + 1));
                assert(part@ + complement(ended(bytes@.skip(i + 1))) =~= before + complement(
                    ended(rest),
                ));
            }
            i = i + 1;
        }
        let ghost before = part@;
        part.push(255);
        part.push(255);
        proof {
            assert(bytes@.skip(i as int) =~= Seq::<u8>::empty());
            assert(part@ =~= before + complement(ended(bytes@.skip(i as int))));
        }
    }
    assert(part@ =~= key_part(value@, ascending, nulls_first)->Ok_0);
    Ok(part)
}

proof fn lemma_key_parts_stop(
    row: Row,
    keys: Seq<SortTerm>,
    m: nat,
    n: nat,
    table: Seq<(Question, Answer)>,
)
    requires
        m <= n <= keys.len(),
        key_parts(row, keys, m, table) is Err,
    ensures
        key_parts(row, keys, n, table) == key_parts(row, keys, m, table),
    decreases n,
{
    if m < n {
        lemma_key_parts_stop(row, keys, m, (n - 1) as nat, table);
    }
}

/// A row's normalized sort key.
pub fn sort_key_bytes(tuple: &Tuple, keys: &Vec<SortKey>, answers: &Answers) -> (r: Result<
    Vec<Vec<u8>>,
    QueryError,
>)
    ensures
        match (r, key_parts(tuple@, sort_terms(keys@), keys@.len(), answers@)) {
            (Ok(parts), Ok(want)) => parts_of(parts@) == want,
            (Err(e), Err(f)) => e@ == f,
            _ => false,
        },
{
    let ghost terms = sort_terms(keys@);
    let mut parts: Vec<Vec<u8>> = Vec::new();
    let mut i: usize = 0;
    assert(parts_of(parts@) =~= Seq::<Seq<u8>>::empty());
    while i < keys.len()
        invariant
            i <= keys@.len(),
            terms == sort_terms(keys@),
            key_parts(tuple@, terms, i as nat, answers@) == Ok::<KeyBytes, Fault>(
                parts_of(parts@),
            ),
        decreases keys@.len() - i,
    {
        let ghost before = parts_of(parts@);
        assert(terms[i as int] == keys@[i as int]@);
        proof {
            if key_parts(tuple@, terms, (i + 1) as nat, answers@) is Err {
                lemma_key_parts_stop(tuple@, terms, (i + 1) as nat, keys@.len(), answers@);
            }
        }
        let value = match keys[i].expr.eval(tuple, answers) {
            Ok(v) => v,
            Err(e) => return Err(e),
        };
        match sort_part(&value, keys[i].ascending, keys[i].nulls_first) {
            Ok(part) => {
                parts.push(part);
                assert(parts_of(parts@) =~= before.push(part@));
            },
            Err(e) => return Err(e),
        }
        i = i + 1;
    }
    Ok(parts)
}

/// Whether one sort key is less than another.
fn key_less(a: &Vec<Vec<u8>>, b: &Vec<Vec<u8>>) -> (r: bool)
    ensures
        r == key_lt(parts_of(a@), parts_of(b@)),
{
    let ghost x = parts_of(a@);
    let ghost y = parts_of(b@);
    let mut i: usize = 0;
    assert(x.skip(0) =~= x && y.skip(0) =~= y);
    while i < a.len() && i < b.len()
        invariant
            i <= a@.len(),
            i <= b@.len(),
            x == parts_of(a@),
            y == parts_of(b@),
            key_lt(x, y) == key_lt(x.skip(i as int), y.skip(i as int)),
        decreases a@.len() - i,
    {
        assert(x.skip(i as int)[0] == a@[i as int]@);
        assert(y.skip(i as int)[0] == b@[i as int]@);
        if !bytes_eq(a[i].as_slice(), b[i].as_slice()) {
            return bytes_lt(a[i].as_slice(), b[i].as_slice());
        }
        assert(x.skip(i as int).drop_first() =~= x.skip(i + 1));
        assert(y.skip(i as int).drop_first() =~= y.skip(i + 1));
        i = i + 1;
    }
    i < b.len()
}

/// Whether row `i` comes before row `j`.
fn is_before(keys: &Vec<Vec<Vec<u8>>>, i: usize, j: usize) -> (r: bool)
    requires
        i < keys@.len(),
        j < keys@.len(),
    ensures
        r == comes_before(keys_of(keys@), i as int, j as int),
{
    proof {
        lemma_key_total(keys_of(keys@)[i as int], keys_of(keys@)[j as int]);
    }
    if key_less(&keys[i], &keys[j]) {
        true
    } else if key_less(&keys[j], &keys[i]) {
        false
    } else {
        i < j
    }
}

// --- merging ---

/// Merge two sorted lists that cover `lo..mid` and `mid..hi`.
fn merge_two(
    keys: &Vec<Vec<Vec<u8>>>,
    a: &Vec<usize>,
    b: &Vec<usize>,
    Ghost(lo): Ghost<int>,
    Ghost(mid): Ghost<int>,
    Ghost(hi): Ghost<int>,
) -> (out: Vec<usize>)
    requires
        0 <= lo <= mid <= hi <= keys@.len(),
        in_order(keys_of(keys@), a@),
        in_order(keys_of(keys@), b@),
        lists(a@, lo, mid),
        lists(b@, mid, hi),
    ensures
        in_order(keys_of(keys@), out@),
        lists(out@, lo, hi),
{
    let ghost ks = keys_of(keys@);
    let mut out: Vec<usize> = Vec::new();
    let mut i: usize = 0;
    let mut j: usize = 0;
    while i < a.len() || j < b.len()
        invariant
            0 <= lo <= mid <= hi <= keys@.len(),
            ks == keys_of(keys@),
            in_order(ks, a@),
            in_order(ks, b@),
            lists(a@, lo, mid),
            lists(b@, mid, hi),
            i <= a@.len(),
            j <= b@.len(),
            out@.len() == i + j,
            in_order(ks, out@),
            forall|x: int| 0 <= x < out@.len() ==> lo <= #[trigger] out@[x] < hi,
            forall|x: int, y: int|
                0 <= x < out@.len() && i <= y < a@.len() ==> comes_before(
                    ks,
                    #[trigger] out@[x] as int,
                    #[trigger] a@[y] as int,
                ),
            forall|x: int, y: int|
                0 <= x < out@.len() && j <= y < b@.len() ==> comes_before(
                    ks,
                    #[trigger] out@[x] as int,
                    #[trigger] b@[y] as int,
                ),
            forall|x: int| 0 <= x < i ==> out@.contains(#[trigger] a@[x]),
            forall|x: int| 0 <= x < j ==> out@.contains(#[trigger] b@[x]),
        decreases a@.len() - i + b@.len() - j,
    {
        let from_a: bool = if i >= a.len() {
            false
        } else if j >= b.len() {
            true
        } else {
            is_before(keys, a[i], b[j])
        };
        let ghost before = out@;
        let next: usize = if from_a {
            a[i]
        } else {
            b[j]
        };
        proof {
            assert forall|y: int| i <= y < a@.len() && (from_a ==> i < y) implies comes_before(
                ks,
                next as int,
                #[trigger] a@[y] as int,
            ) by {
                if !from_a {
                    lemma_before_total(ks, a@[i as int] as int, b@[j as int] as int);
                    assert(a@[i as int] < mid && mid <= b@[j as int]);
                    assert(comes_before(ks, b@[j as int] as int, a@[i as int] as int));
                    if i < y {
                        lemma_before_transitive(
                            ks,
                            b@[j as int] as int,
                            a@[i as int] as int,
                            a@[y] as int,
                        );
                    }
                }
            }
            assert forall|y: int| j <= y < b@.len() && (!from_a ==> j < y) implies comes_before(
                ks,
                next as int,
                #[trigger] b@[y] as int,
            ) by {
                if from_a && j < y {
                    lemma_before_transitive(
                        ks,
                        a@[i as int] as int,
                        b@[j as int] as int,
                        b@[y] as int,
                    );
                }
            }
        }
        out.push(next);
        proof {
            assert forall|x: usize| before.contains(x) implies out@.contains(x) by {
                let k = choose|k: int| 0 <= k < before.len() && before[k] == x;
                assert(out@[k] == x);
            }
            assert(out@[before.len() as int] == next);
            assert(out@.contains(next));
            assert forall|x: int, y: int|
                0 <= x < y < out@.len() implies comes_before(
                ks,
                #[trigger] out@[x] as int,
                #[trigger] out@[y] as int,
            ) by {
                if y == before.len() {
                    if from_a {
                        assert(comes_before(ks, before[x] as int, a@[i as int] as int));
                    } else {
                        assert(comes_before(ks, before[x] as int, b@[j as int] as int));
                    }
                } else {
                    assert(comes_before(ks, before[x] as int, before[y] as int));
                }
            }
        }
        if from_a {
            i = i + 1;
        } else {
            j = j + 1;
        }
    }
    proof {
        assert forall|x: usize| lo <= x < hi implies #[trigger] out@.contains(x) by {
            if x < mid {
                assert(a@.contains(x));
                let k = choose|k: int| 0 <= k < a@.len() && a@[k] == x;
                assert(out@.contains(a@[k]));
            } else {
                assert(b@.contains(x));
                let k = choose|k: int| 0 <= k < b@.len() && b@[k] == x;
                assert(out@.contains(b@[k]));
            }
        }
    }
    out
}

/// Sort the rows `lo..hi` of a run.
fn sort_run(keys: &Vec<Vec<Vec<u8>>>, lo: usize, hi: usize) -> (out: Vec<usize>)
    requires
        lo <= hi <= keys@.len(),
    ensures
        in_order(keys_of(keys@), out@),
        lists(out@, lo as int, hi as int),
    decreases hi - lo,
{
    if hi - lo <= 1 {
        let mut out: Vec<usize> = Vec::new();
        if lo < hi {
            out.push(lo);
            assert(out@[0] == lo);
            assert(out@.contains(lo));
        }
        return out;
    }
    let mid: usize = lo + (hi - lo) / 2;
    let a = sort_run(keys, lo, mid);
    let b = sort_run(keys, mid, hi);
    merge_two(keys, &a, &b, Ghost(lo as int), Ghost(mid as int), Ghost(hi as int))
}

/// The sorted order of all rows: runs of at most [`SORT_RUN_TUPLES`] rows sorted one by one,
/// and each merged with the runs before it.
pub fn sorted_order(keys: &Vec<Vec<Vec<u8>>>) -> (out: Vec<usize>)
    ensures
        sorts(keys_of(keys@), out@),
{
    let mut done: usize = 0;
    let mut out: Vec<usize> = Vec::new();
    while done < keys.len()
        invariant
            done <= keys@.len(),
            in_order(keys_of(keys@), out@),
            lists(out@, 0, done as int),
        decreases keys@.len() - done,
    {
        let end: usize = if keys.len() - done > SORT_RUN_TUPLES {
            done + SORT_RUN_TUPLES
        } else {
            keys.len()
        };
        let run = sort_run(keys, done, end);
        out = merge_two(keys, &out, &run, Ghost(0), Ghost(done as int), Ghost(end as int));
        done = end;
    }
    out
}

// --- the operator ---

/// The keys of the first `n` rows of a stream, up to the first error: a row's own, or its key's.
pub open spec fn stream_keys(
    items: Seq<Result<Row, Fault>>,
    n: nat,
    keys: Seq<SortTerm>,
    table: Seq<(Question, Answer)>,
) -> Result<Seq<KeyBytes>, Fault>
    decreases n,
{
    if n == 0 || n > items.len() {
        Ok(Seq::empty())
    } else {
        match stream_keys(items, (n - 1) as nat, keys, table) {
            Err(f) => Err(f),
            Ok(before) => match items[n - 1] {
                Err(f) => Err(f),
                Ok(row) => match key_parts(row, keys, keys.len(), table) {
                    Err(f) => Err(f),
                    Ok(k) => Ok(before.push(k)),
                },
            },
        }
    }
}

proof fn lemma_stream_keys_stop(
    items: Seq<Result<Row, Fault>>,
    m: nat,
    n: nat,
    keys: Seq<SortTerm>,
    table: Seq<(Question, Answer)>,
)
    requires
        m <= n <= items.len(),
        stream_keys(items, m, keys, table) is Err,
    ensures
        stream_keys(items, n, keys, table) == stream_keys(items, m, keys, table),
    decreases n,
{
    if m < n {
        lemma_stream_keys_stop(items, m, (n - 1) as nat, keys, table);
    }
}

/// Whether `out` is the rows of `items` arranged by the order `p`, and `p` sorts their keys.
pub open spec fn is_sorted_output(
    out: Seq<Row>,
    items: Seq<Result<Row, Fault>>,
    ks: Seq<KeyBytes>,
    p: Seq<usize>,
) -> bool {
    sorts(ks, p) && out == arranged(stream_rows(items), p)
}

/// Whether every row of `items` has a key, and `out` is those rows in the order of their keys.
pub open spec fn sort_done(
    out: Seq<Row>,
    items: Seq<Result<Row, Fault>>,
    keys: Seq<SortTerm>,
    table: Seq<(Question, Answer)>,
) -> bool {
    match stream_keys(items, items.len(), keys, table) {
        Ok(ks) => exists|p: Seq<usize>| is_sorted_output(out, items, ks, p),
        Err(_) => false,
    }
}

/// Sort a stream. The whole input is consumed before the first row comes out; the first error
/// in it, or in a row's sort key, is the outcome.
pub fn sort(input: Vec<RowResult>, keys: &Vec<SortKey>, answers: &Answers) -> (r: Result<
    Vec<Tuple>,
    QueryError,
>)
    ensures
        match r {
            Ok(out) => sort_done(rows_of(out@), stream_of(input@), sort_terms(keys@), answers@),
            Err(e) => stream_keys(stream_of(input@), input@.len(), sort_terms(keys@), answers@)
                == Err::<Seq<KeyBytes>, Fault>(e@),
        },
{
    let ghost items = stream_of(input@);
    let ghost terms = sort_terms(keys@);
    let ghost rows = stream_rows(items);
    let mut tuples: Vec<Tuple> = Vec::new();
    let mut row_keys: Vec<Vec<Vec<u8>>> = Vec::new();
    assert(keys_of(row_keys@) =~= Seq::<KeyBytes>::empty());
    for item in it: input
        invariant
            it.seq() == input@,
            items == stream_of(input@),
            rows == stream_rows(items),
            terms == sort_terms(keys@),
            tuples@.len() == it.index(),
            row_keys@.len() == it.index(),
            forall|j: int| 0 <= j < it.index() ==> (#[trigger] tuples@[j])@ == rows[j],
            stream_keys(items, it.index() as nat, terms, answers@) == Ok::<Seq<KeyBytes>, Fault>(
                keys_of(row_keys@),
            ),
    {
        let ghost i = it.index();
        let ghost before = keys_of(row_keys@);
        assert(item == input@[i]);
        proof {
            if stream_keys(items, (i + 1) as nat, terms, answers@) is Err {
                lemma_stream_keys_stop(items, (i + 1) as nat, items.len(), terms, answers@);
            }
        }
        match item {
            Err(e) => {
                return Err(e);
            },
            Ok(tuple) => {
                match sort_key_bytes(&tuple, keys, answers) {
                    Err(e) => {
                        return Err(e);
                    },
                    Ok(k) => {
                        row_keys.push(k);
                        assert(keys_of(row_keys@) =~= before.push(parts_of(k@)));
                        tuples.push(tuple);
                    },
                }
            },
        }
    }
    let ghost ks = keys_of(row_keys@);
    assert(stream_keys(items, items.len(), terms, answers@) == Ok::<Seq<KeyBytes>, Fault>(ks));
    let order = sorted_order(&row_keys);
    let mut out: Vec<Tuple> = Vec::new();
    let mut i: usize = 0;
    while i < order.len()
        invariant
            i <= order@.len(),
            tuples@.len() == rows.len() == row_keys@.len(),
            sorts(keys_of(row_keys@), order@),
            out@.len() == i,
            forall|j: int| 0 <= j < tuples@.len() ==> (#[trigger] tuples@[j])@ == rows[j],
            forall|j: int| 0 <= j < i ==> (#[trigger] out@[j])@ == rows[order@[j] as int],
        decreases order@.len() - i,
    {
        out.push(tuples[order[i]].clone());
        i = i + 1;
    }
    assert(rows_of(out@) =~= arranged(rows, order@));
    assert(stream_keys(items, items.len(), terms, answers@)->Ok_0 == ks);
    assert(is_sorted_output(rows_of(out@), items, ks, order@));
    Ok(out)
}

// --- laws ---

/// The sorted order is one: keys and input order leave nothing open.
pub proof fn law_sort_order_is_unique(keys: Seq<KeyBytes>, p: Seq<usize>, q: Seq<usize>)
    requires
        sorts(keys, p),
        sorts(keys, q),
    ensures
        p == q,
{
    lemma_orders_agree(keys, p, q, p.len());
    assert(p =~= q);
}

proof fn lemma_orders_agree(keys: Seq<KeyBytes>, p: Seq<usize>, q: Seq<usize>, n: nat)
    requires
        sorts(keys, p),
        sorts(keys, q),
        n <= p.len(),
    ensures
        forall|i: int| 0 <= i < n ==> p[i] == q[i],
    decreases n,
{
    if n > 0 {
        lemma_orders_agree(keys, p, q, (n - 1) as nat);
        let k = n - 1;
        if p[k] != q[k] {
            assert(q.contains(p[k]));
            let a = choose|a: int| 0 <= a < q.len() && q[a] == p[k];
            assert(p.contains(q[k]));
            let b = choose|b: int| 0 <= b < p.len() && p[b] == q[k];
            if a < k {
                assert(p[a] == q[a]);
                assert(comes_before(keys, p[a] as int, p[k] as int));
                lemma_before_total(keys, p[k] as int, p[k] as int);
            }
            if b < k {
                assert(p[b] == q[b]);
                assert(comes_before(keys, q[b] as int, q[k] as int));
                lemma_before_total(keys, q[k] as int, q[k] as int);
            }
            assert(a > k && b > k);
            assert(comes_before(keys, p[k] as int, p[b] as int));
            assert(comes_before(keys, q[k] as int, q[a] as int));
            lemma_before_total(keys, p[k] as int, q[k] as int);
        }
    }
}

/// Sorting loses no row, invents none and repeats none: the places listed are exactly the input's
/// places, each once.
pub proof fn law_sort_is_a_permutation(keys: Seq<KeyBytes>, p: Seq<usize>)
    requires
        sorts(keys, p),
    ensures
        p.len() == keys.len(),
        p.no_duplicates(),
        forall|x: usize| x < keys.len() <==> #[trigger] p.contains(x),
{
    assert forall|a: int, b: int| 0 <= a < p.len() && 0 <= b < p.len() && a != b implies p[a]
        != p[b] by {
        if a < b {
            assert(comes_before(keys, p[a] as int, p[b] as int));
        } else {
            assert(comes_before(keys, p[b] as int, p[a] as int));
        }
        lemma_before_total(keys, p[a] as int, p[a] as int);
    }
    assert forall|x: usize| #[trigger] p.contains(x) implies x < keys.len() by {
        let a = choose|a: int| 0 <= a < p.len() && p[a] == x;
        assert(p[a] < keys.len());
    }
}

/// Rows with equal keys keep their order, and a row with a smaller key comes first.
pub proof fn law_sort_is_ordered_and_stable(keys: Seq<KeyBytes>, p: Seq<usize>, a: int, b: int)
    requires
        sorts(keys, p),
        0 <= a < b < p.len(),
    ensures
        !key_lt(keys[p[b] as int], keys[p[a] as int]),
        keys[p[a] as int] == keys[p[b] as int] ==> p[a] < p[b],
{
    assert(comes_before(keys, p[a] as int, p[b] as int));
    lemma_key_total(keys[p[a] as int], keys[p[b] as int]);
}

} // verus!
