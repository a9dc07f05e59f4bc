//! What sort keys come to: `ORDER BY`, key by key.

use vstd::prelude::*;

use super::rows::Row;
use super::sort::{ended, key_lt, key_part, key_parts, KeyBytes, SortTerm};
use crate::query::error::Fault;
use crate::query::expression::eval::evaluated;
use crate::query::host::{Answer, Question};
use crate::storage::bytes::{complement, lemma_lex_irreflexive, lemma_lex_prefix, lex_lt};
use crate::storage::codec::key_of;
use crate::storage::codec::order::{datum_less, datum_same, law_key_order, same_kind};
use crate::storage::types::Datum;

verus! {

/// Whether one value comes before another by one key of an `ORDER BY`. Where nulls go does not
/// depend on the direction.
pub open spec fn precedes(a: Datum, b: Datum, key: SortTerm) -> bool {
    if a is Null {
        !(b is Null) && key.nulls_first
    } else if b is Null {
        !key.nulls_first
    } else if key.ascending {
        datum_less(a, b)
    } else {
        datum_less(b, a)
    }
}

/// Whether two values rank the same.
pub open spec fn ties(a: Datum, b: Datum) -> bool {
    if a is Null || b is Null {
        a is Null && b is Null
    } else {
        datum_same(a, b)
    }
}

/// Whether a row with the values `a` comes before one with the values `b`, by the keys from
/// the `i`th on: the first that do not tie decide.
pub open spec fn row_precedes(a: Seq<Datum>, b: Seq<Datum>, keys: Seq<SortTerm>, i: nat) -> bool
    decreases keys.len() - i,
{
    if i >= keys.len() {
        false
    } else if ties(a[i as int], b[i as int]) {
        row_precedes(a, b, keys, i + 1)
    } else {
        precedes(a[i as int], b[i as int], keys[i as int])
    }
}

/// Whether the sort key puts two values in order: one is null, or they are of one scalar type.
pub open spec fn sortable(a: Datum, b: Datum) -> bool {
    a is Null || b is Null || same_kind(a, b)
}

/// Marking the ends of two strings and complementing them swaps their order.
proof fn lemma_descending_bytes(k: Seq<u8>, l: Seq<u8>)
    ensures
        lex_lt(complement(ended(k)), complement(ended(l))) == lex_lt(l, k),
        (complement(ended(k)) == complement(ended(l))) == (k == l),
    decreases k.len(),
{
    let (ck, cl) = (complement(ended(k)), complement(ended(l)));
    reveal_with_fuel(lex_lt, 3);
    if k.len() == 0 && l.len() == 0 {
        assert(k =~= l);
        lemma_lex_irreflexive(ck);
    } else if k.len() == 0 || l.len() == 0 {
        let (x, y) = if k.len() == 0 {
            (ck, cl)
        } else {
            (cl, ck)
        };
        assert(x =~= seq![255u8, 255u8]);
        assert(x.drop_first() =~= seq![255u8]);
        assert(y[0] < 255 || y.drop_first()[0] == 0);
        assert(x != y);
        assert(lex_lt(y, x) && !lex_lt(x, y));
    } else if k[0] == l[0] {
        let (x, y) = (k.drop_first(), l.drop_first());
        lemma_descending_bytes(x, y);
        let head = if k[0] == 0 {
            seq![255u8, 0u8]
        } else {
            seq![(255 - k[0]) as u8]
        };
        assert(ck =~= head + complement(ended(x)));
        assert(cl =~= head + complement(ended(y)));
        lemma_lex_prefix(head, complement(ended(x)), complement(ended(y)));
        assert(k =~= seq![k[0]] + x);
        assert(l =~= seq![l[0]] + y);
        if ck == cl {
            assert(complement(ended(x)) =~= ck.skip(head.len() as int));
            assert(complement(ended(y)) =~= cl.skip(head.len() as int));
        }
    } else {
        assert(ck[0] == 255 - k[0] && cl[0] == 255 - l[0]);
        assert(k != l && ck != cl);
    }
}

proof fn lemma_part(a: Datum, b: Datum, key: SortTerm)
    requires
        key_part(a, key.ascending, key.nulls_first) is Ok,
        key_part(b, key.ascending, key.nulls_first) is Ok,
        sortable(a, b),
    ensures
        ({
            let p = key_part(a, key.ascending, key.nulls_first)->Ok_0;
            let q = key_part(b, key.ascending, key.nulls_first)->Ok_0;
            &&& (p == q) == ties(a, b)
            &&& !ties(a, b) ==> lex_lt(p, q) == precedes(a, b, key)
        }),
{
    let p = key_part(a, key.ascending, key.nulls_first)->Ok_0;
    let q = key_part(b, key.ascending, key.nulls_first)->Ok_0;
    reveal_with_fuel(lex_lt, 2);
    if a is Null || b is Null {
        assert(p[0] != q[0] || (a is Null && b is Null));
    } else {
        law_key_order(a, b);
        let (k, l) = (key_of(a)->0, key_of(b)->0);
        let (x, y) = if key.ascending {
            (k, l)
        } else {
            (complement(ended(k)), complement(ended(l)))
        };
        if !key.ascending {
            lemma_descending_bytes(k, l);
            law_key_order(b, a);
        }
        let head = seq![
            if key.nulls_first {
                1u8
            } else {
                0u8
            },
        ];
        assert(p == head + x && q == head + y);
        lemma_lex_prefix(head, x, y);
        assert(p.skip(1) =~= x && q.skip(1) =~= y);
    }
}

/// The values that a row is sorted by.
pub open spec fn sort_values(row: Row, keys: Seq<SortTerm>, table: Seq<(Question, Answer)>) -> Seq<
    Datum,
> {
    Seq::new(keys.len(), |i: int| evaluated(keys[i].expr, row, table)->Ok_0)
}

proof fn lemma_parts(row: Row, keys: Seq<SortTerm>, n: nat, table: Seq<(Question, Answer)>)
    requires
        n <= keys.len(),
        key_parts(row, keys, n, table) is Ok,
    ensures
        key_parts(row, keys, n, table)->Ok_0.len() == n,
        forall|i: int|
            0 <= i < n ==> key_part(
                sort_values(row, keys, table)[i],
                keys[i].ascending,
                keys[i].nulls_first,
            ) == Ok::<Seq<u8>, Fault>(#[trigger] key_parts(row, keys, n, table)->Ok_0[i]),
    decreases n,
{
    if n > 0 {
        lemma_parts(row, keys, (n - 1) as nat, table);
    }
}

proof fn lemma_rows(
    p: KeyBytes,
    q: KeyBytes,
    a: Seq<Datum>,
    b: Seq<Datum>,
    keys: Seq<SortTerm>,
    i: nat,
)
    requires
        i <= keys.len(),
        p.len() == keys.len(),
        q.len() == keys.len(),
        forall|j: int|
            0 <= j < keys.len() ==> key_part(a[j], keys[j].ascending, keys[j].nulls_first) == Ok::<
                Seq<u8>,
                Fault,
            >(#[trigger] p[j]),
        forall|j: int|
            0 <= j < keys.len() ==> key_part(b[j], keys[j].ascending, keys[j].nulls_first) == Ok::<
                Seq<u8>,
                Fault,
            >(#[trigger] q[j]),
        forall|j: int|
            0 <= j < keys.len() ==> sortable(#[trigger] a[j], #[trigger] b[j]),
    ensures
        key_lt(p.skip(i as int), q.skip(i as int)) == row_precedes(a, b, keys, i),
    decreases keys.len() - i,
{
    let (x, y) = (p.skip(i as int), q.skip(i as int));
    if i < keys.len() {
        assert(x[0] == p[i as int] && y[0] == q[i as int]);
        lemma_part(a[i as int], b[i as int], keys[i as int]);
        lemma_rows(p, q, a, b, keys, i + 1);
        assert(x.drop_first() =~= p.skip(i as int + 1));
        assert(y.drop_first() =~= q.skip(i as int + 1));
    }
}

/// Rows with one sort key have values that rank the same, by every key.
pub proof fn law_equal_keys_tie(a: Row, b: Row, keys: Seq<SortTerm>, table: Seq<(Question, Answer)>)
    requires
        key_parts(a, keys, keys.len(), table) is Ok,
        key_parts(a, keys, keys.len(), table) == key_parts(b, keys, keys.len(), table),
        forall|i: int|
            0 <= i < keys.len() ==> sortable(
                #[trigger] sort_values(a, keys, table)[i],
                #[trigger] sort_values(b, keys, table)[i],
            ),
    ensures
        forall|i: int|
            0 <= i < keys.len() ==> ties(
                #[trigger] sort_values(a, keys, table)[i],
                #[trigger] sort_values(b, keys, table)[i],
            ),
{
    lemma_parts(a, keys, keys.len(), table);
    lemma_parts(b, keys, keys.len(), table);
    let p = key_parts(a, keys, keys.len(), table)->Ok_0;
    assert forall|i: int| 0 <= i < keys.len() implies ties(
        #[trigger] sort_values(a, keys, table)[i],
        #[trigger] sort_values(b, keys, table)[i],
    ) by {
        assert(p[i] == p[i]);
        lemma_part(sort_values(a, keys, table)[i], sort_values(b, keys, table)[i], keys[i]);
    }
}

/// Sort keys order rows as `ORDER BY` says: by each key in turn, ascending or descending, with
/// nulls where they are to go, for values of one scalar type by each key.
pub proof fn law_sort_keys_order_rows(
    a: Row,
    b: Row,
    keys: Seq<SortTerm>,
    table: Seq<(Question, Answer)>,
)
    requires
        key_parts(a, keys, keys.len(), table) is Ok,
        key_parts(b, keys, keys.len(), table) is Ok,
        forall|i: int|
            0 <= i < keys.len() ==> sortable(
                #[trigger] sort_values(a, keys, table)[i],
                #[trigger] sort_values(b, keys, table)[i],
            ),
    ensures
        key_lt(
            key_parts(a, keys, keys.len(), table)->Ok_0,
            key_parts(b, keys, keys.len(), table)->Ok_0,
        ) == row_precedes(sort_values(a, keys, table), sort_values(b, keys, table), keys, 0),
{
    let (p, q) = (
        key_parts(a, keys, keys.len(), table)->Ok_0,
        key_parts(b, keys, keys.len(), table)->Ok_0,
    );
    lemma_parts(a, keys, keys.len(), table);
    lemma_parts(b, keys, keys.len(), table);
    lemma_rows(p, q, sort_values(a, keys, table), sort_values(b, keys, table), keys, 0);
    assert(p.skip(0) =~= p);
    assert(q.skip(0) =~= q);
}

} // verus!
