//! A catalog table: rows under byte keys, in the order of the keys.

use vstd::prelude::*;

use crate::storage::bytes::{
    bytes_eq, bytes_lt, lemma_lex_irreflexive, lemma_lex_total, lemma_lex_transitive, lex_lt,
};

verus! {

/// A row under its key.
#[derive(Debug)]
pub struct MetaRow<T> {
    pub key: Vec<u8>,
    pub meta: T,
}

/// Rows in ascending order of their keys, no key twice.
#[derive(Debug)]
pub struct MetaTable<T> {
    rows: Vec<MetaRow<T>>,
}

/// The keys and rows of a table, in order.
pub type Entries<V> = Seq<(Seq<u8>, V)>;

/// Whether keys ascend.
pub open spec fn ascending<V>(entries: Entries<V>) -> bool {
    forall|i: int, j: int|
        0 <= i < j < entries.len() ==> lex_lt((#[trigger] entries[i]).0, (#[trigger] entries[j]).0)
}

/// Whether some entry has the key.
pub open spec fn has_key<V>(entries: Entries<V>, key: Seq<u8>) -> bool {
    exists|i: int| 0 <= i < entries.len() && (#[trigger] entries[i]).0 == key
}

/// Where a key is.
pub open spec fn place_of<V>(entries: Entries<V>, key: Seq<u8>) -> int {
    choose|i: int| 0 <= i < entries.len() && (#[trigger] entries[i]).0 == key
}

/// The row under a key.
pub open spec fn row_at<V>(entries: Entries<V>, key: Seq<u8>) -> V {
    entries[place_of(entries, key)].1
}

/// The entries as a map from keys to rows.
pub open spec fn map_of<V>(entries: Entries<V>) -> Map<Seq<u8>, V> {
    Map::new(|k: Seq<u8>| has_key(entries, k), |k: Seq<u8>| row_at(entries, k))
}

/// The row under a key, if there is one.
pub open spec fn found<V>(entries: Entries<V>, key: Seq<u8>) -> Option<V> {
    if has_key(entries, key) {
        Some(row_at(entries, key))
    } else {
        None
    }
}

/// The rows whose keys start with a prefix, in the order of the keys.
pub open spec fn scanned<V>(entries: Entries<V>, prefix: Seq<u8>) -> Seq<V>
    decreases entries.len(),
{
    if entries.len() == 0 {
        Seq::empty()
    } else {
        let before = scanned(entries.drop_last(), prefix);
        if prefix.is_prefix_of(entries.last().0) {
            before.push(entries.last().1)
        } else {
            before
        }
    }
}

/// A key occurs at one place only.
pub proof fn lemma_unique<V>(entries: Entries<V>, i: int, j: int)
    requires
        ascending(entries),
        0 <= i < entries.len(),
        0 <= j < entries.len(),
        entries[i].0 == entries[j].0,
    ensures
        i == j,
{
    lemma_lex_irreflexive(entries[i].0);
    if i < j {
        assert(lex_lt(entries[i].0, entries[j].0));
    } else if j < i {
        assert(lex_lt(entries[j].0, entries[i].0));
    }
}

/// The row at a place is the row under its key.
pub proof fn lemma_row_at<V>(entries: Entries<V>, i: int)
    requires
        ascending(entries),
        0 <= i < entries.len(),
    ensures
        has_key(entries, entries[i].0),
        row_at(entries, entries[i].0) == entries[i].1,
{
    let key = entries[i].0;
    assert(has_key(entries, key));
    lemma_unique(entries, i, place_of(entries, key));
}

/// Two tables with the same rows under the same keys are the same: the order is determined.
pub proof fn law_entries_are_determined<V>(a: Entries<V>, b: Entries<V>)
    requires
        ascending(a),
        ascending(b),
        map_of(a) == map_of(b),
    ensures
        a == b,
    decreases a.len() + b.len(),
{
    if a.len() == 0 {
        if b.len() > 0 {
            lemma_row_at(b, 0);
            assert(map_of(b).contains_key(b[0].0));
            assert(map_of(a).contains_key(b[0].0));
        }
        assert(a =~= b);
    } else if b.len() == 0 {
        lemma_row_at(a, 0);
        assert(map_of(a).contains_key(a[0].0));
        assert(map_of(b).contains_key(a[0].0));
    } else {
        let (m, n) = (a.len() - 1, b.len() - 1);
        let (x, y) = (a[m].0, b[n].0);
        lemma_row_at(a, m);
        lemma_row_at(b, n);
        assert(map_of(a).contains_key(x) && map_of(b).contains_key(y));
        assert(map_of(b).contains_key(x) && map_of(a).contains_key(y));
        let i = choose|i: int| 0 <= i < b.len() && (#[trigger] b[i]).0 == x;
        let j = choose|j: int| 0 <= j < a.len() && (#[trigger] a[j]).0 == y;
        if i < n {
            assert(lex_lt(b[i].0, b[n].0));
            if j < m {
                assert(lex_lt(a[j].0, a[m].0));
                lemma_lex_transitive(x, y, x);
                lemma_lex_irreflexive(x);
            }
        }
        assert(x == y) by {
            if i == n {
            } else {
                assert(j == m);
            }
        }
        assert(map_of(a)[x] == row_at(a, x) && map_of(b)[x] == row_at(b, x));
        assert(a[m].1 == b[n].1);
        assert(a[m] == b[n]);
        let (c, d) = (a.drop_last(), b.drop_last());
        lemma_drop_last(a);
        lemma_drop_last(b);
        law_entries_are_determined(c, d);
        assert(a =~= c.push(a[m]));
        assert(b =~= d.push(b[n]));
    }
}

proof fn lemma_drop_last<V>(a: Entries<V>)
    requires
        ascending(a),
        a.len() > 0,
    ensures
        ascending(a.drop_last()),
        map_of(a.drop_last()) == map_of(a).remove(a.last().0),
{
    let c = a.drop_last();
    assert forall|i: int, j: int| 0 <= i < j < c.len() implies lex_lt(
        (#[trigger] c[i]).0,
        (#[trigger] c[j]).0,
    ) by {
        assert(lex_lt(a[i].0, a[j].0));
    }
    assert forall|k: Seq<u8>|
        map_of(c).contains_key(k) == map_of(a).remove(a.last().0).contains_key(k) by {
        if has_key(c, k) {
            let i = choose|i: int| 0 <= i < c.len() && (#[trigger] c[i]).0 == k;
            assert(a[i].0 == k);
            if k == a.last().0 {
                lemma_unique(a, i, a.len() - 1);
            }
        }
        if has_key(a, k) && k != a.last().0 {
            let i = choose|i: int| 0 <= i < a.len() && (#[trigger] a[i]).0 == k;
            assert(c[i].0 == k);
        }
    }
    assert forall|k: Seq<u8>| map_of(c).contains_key(k) implies #[trigger] map_of(c)[k] == map_of(
        a,
    ).remove(a.last().0)[k] by {
        let i = choose|i: int| 0 <= i < c.len() && (#[trigger] c[i]).0 == k;
        lemma_row_at(c, i);
        assert(a[i] == c[i]);
        lemma_row_at(a, i);
    }
    assert(map_of(c) =~= map_of(a).remove(a.last().0));
}

/// Entries with a new one at its place.
proof fn lemma_inserted<V>(a: Entries<V>, at: int, key: Seq<u8>, v: V)
    requires
        ascending(a),
        0 <= at <= a.len(),
        forall|i: int| 0 <= i < at ==> lex_lt((#[trigger] a[i]).0, key),
        forall|i: int| at <= i < a.len() ==> lex_lt(key, (#[trigger] a[i]).0),
    ensures
        ascending(a.insert(at, (key, v))),
        map_of(a.insert(at, (key, v))) == map_of(a).insert(key, v),
        !has_key(a, key),
{
    let b = a.insert(at, (key, v));
    lemma_lex_irreflexive(key);
    assert forall|i: int, j: int| 0 <= i < j < b.len() implies lex_lt(
        (#[trigger] b[i]).0,
        (#[trigger] b[j]).0,
    ) by {
        if i < at && j > at {
            assert(b[i] == a[i] && b[j] == a[j - 1]);
            assert(lex_lt(a[i].0, a[j - 1].0));
        } else if j < at {
            assert(b[i] == a[i] && b[j] == a[j]);
            assert(lex_lt(a[i].0, a[j].0));
        } else if i > at {
            assert(b[i] == a[i - 1] && b[j] == a[j - 1]);
            assert(lex_lt(a[i - 1].0, a[j - 1].0));
        } else if i == at {
            assert(b[j] == a[j - 1]);
        } else {
            assert(b[i] == a[i]);
        }
    }
    assert forall|k: Seq<u8>| map_of(b).contains_key(k) == map_of(a).insert(key, v).contains_key(
        k,
    ) by {
        if has_key(b, k) {
            let i = choose|i: int| 0 <= i < b.len() && (#[trigger] b[i]).0 == k;
            if i < at {
                assert(a[i].0 == k);
            } else if i > at {
                assert(a[i - 1].0 == k);
            }
        }
        if k == key {
            assert(b[at].0 == k);
        } else if has_key(a, k) {
            let i = choose|i: int| 0 <= i < a.len() && (#[trigger] a[i]).0 == k;
            if i < at {
                assert(b[i].0 == k);
            } else {
                assert(b[i + 1].0 == k);
            }
        }
    }
    assert forall|k: Seq<u8>| map_of(b).contains_key(k) implies #[trigger] map_of(b)[k] == map_of(
        a,
    ).insert(key, v)[k] by {
        let i = choose|i: int| 0 <= i < b.len() && (#[trigger] b[i]).0 == k;
        lemma_row_at(b, i);
        if i < at {
            assert(a[i] == b[i]);
            lemma_row_at(a, i);
        } else if i > at {
            assert(a[i - 1] == b[i]);
            lemma_row_at(a, i - 1);
        }
    }
    assert(map_of(b) =~= map_of(a).insert(key, v));
}

/// Entries with the row of one replaced.
proof fn lemma_updated<V>(a: Entries<V>, at: int, v: V)
    requires
        ascending(a),
        0 <= at < a.len(),
    ensures
        ascending(a.update(at, (a[at].0, v))),
        map_of(a.update(at, (a[at].0, v))) == map_of(a).insert(a[at].0, v),
{
    let key = a[at].0;
    let b = a.update(at, (key, v));
    assert forall|i: int, j: int| 0 <= i < j < b.len() implies lex_lt(
        (#[trigger] b[i]).0,
        (#[trigger] b[j]).0,
    ) by {
        assert(lex_lt(a[i].0, a[j].0));
    }
    assert forall|k: Seq<u8>| map_of(b).contains_key(k) == map_of(a).insert(key, v).contains_key(
        k,
    ) by {
        if has_key(b, k) {
            let i = choose|i: int| 0 <= i < b.len() && (#[trigger] b[i]).0 == k;
            assert(a[i].0 == k);
        }
        if k == key {
            assert(b[at].0 == k);
        }
        if has_key(a, k) {
            let i = choose|i: int| 0 <= i < a.len() && (#[trigger] a[i]).0 == k;
            assert(b[i].0 == k);
        }
    }
    assert forall|k: Seq<u8>| map_of(b).contains_key(k) implies #[trigger] map_of(b)[k] == map_of(
        a,
    ).insert(key, v)[k] by {
        let i = choose|i: int| 0 <= i < b.len() && (#[trigger] b[i]).0 == k;
        lemma_row_at(b, i);
        lemma_row_at(a, i);
        if k == key {
            lemma_unique(a, i, at);
        }
    }
    assert(map_of(b) =~= map_of(a).insert(key, v));
}

/// Entries without one.
proof fn lemma_removed<V>(a: Entries<V>, at: int)
    requires
        ascending(a),
        0 <= at < a.len(),
    ensures
        ascending(a.remove(at)),
        map_of(a.remove(at)) == map_of(a).remove(a[at].0),
{
    let key = a[at].0;
    let b = a.remove(at);
    assert forall|i: int, j: int| 0 <= i < j < b.len() implies lex_lt(
        (#[trigger] b[i]).0,
        (#[trigger] b[j]).0,
    ) by {
        let p = if i < at {
            i
        } else {
            i + 1
        };
        let q = if j < at {
            j
        } else {
            j + 1
        };
        assert(b[i] == a[p] && b[j] == a[q]);
        assert(lex_lt(a[p].0, a[q].0));
    }
    assert forall|k: Seq<u8>| map_of(b).contains_key(k) == map_of(a).remove(key).contains_key(
        k,
    ) by {
        if has_key(b, k) {
            let i = choose|i: int| 0 <= i < b.len() && (#[trigger] b[i]).0 == k;
            let p = if i < at {
                i
            } else {
                i + 1
            };
            assert(a[p].0 == k);
            if k == key {
                lemma_unique(a, p, at);
            }
        }
        if has_key(a, k) && k != key {
            let i = choose|i: int| 0 <= i < a.len() && (#[trigger] a[i]).0 == k;
            if i < at {
                assert(b[i].0 == k);
            } else {
                assert(b[i - 1].0 == k);
            }
        }
    }
    assert forall|k: Seq<u8>| map_of(b).contains_key(k) implies #[trigger] map_of(b)[k] == map_of(
        a,
    ).remove(key)[k] by {
        let i = choose|i: int| 0 <= i < b.len() && (#[trigger] b[i]).0 == k;
        lemma_row_at(b, i);
        let p = if i < at {
            i
        } else {
            i + 1
        };
        assert(a[p] == b[i]);
        lemma_row_at(a, p);
    }
    assert(map_of(b) =~= map_of(a).remove(key));
}

/// Whether `s` starts with `prefix`.
pub fn has_prefix(s: &Vec<u8>, prefix: &Vec<u8>) -> (r: bool)
    ensures
        r == prefix@.is_prefix_of(s@),
{
    if prefix.len() > s.len() {
        return false;
    }
    let mut i: usize = 0;
    while i < prefix.len()
        invariant
            i <= prefix@.len() <= s@.len(),
            forall|j: int| 0 <= j < i ==> prefix@[j] == s@[j],
        decreases prefix@.len() - i,
    {
        if prefix[i] != s[i] {
            assert(prefix@[i as int] != s@.subrange(0, prefix@.len() as int)[i as int]);
            return false;
        }
        i = i + 1;
    }
    assert(prefix@ =~= s@.subrange(0, prefix@.len() as int));
    true
}

impl<T: View> MetaTable<T> {
    pub closed spec fn entries(&self) -> Entries<T::V> {
        Seq::new(self.rows@.len(), |i: int| (self.rows@[i].key@, self.rows@[i].meta@))
    }
}

impl<T: View> View for MetaTable<T> {
    type V = Entries<T::V>;

    open spec fn view(&self) -> Entries<T::V> {
        self.entries()
    }
}

impl<T: View> MetaTable<T> {
    /// Keys ascend.
    pub open spec fn wf(&self) -> bool {
        ascending(self@)
    }

    /// An empty table.
    pub fn new() -> (r: Self)
        ensures
            r.wf(),
            r@ == Entries::<T::V>::empty(),
    {
        let r = MetaTable { rows: Vec::new() };
        assert(r@ =~= Entries::<T::V>::empty());
        r
    }

    /// How many rows have keys below `key`.
    fn rank(&self, key: &Vec<u8>) -> (r: usize)
        requires
            self.wf(),
        ensures
            r <= self@.len(),
            self@.len() == self.rows@.len(),
            forall|i: int| 0 <= i < r ==> lex_lt((#[trigger] self@[i]).0, key@),
            r < self@.len() ==> !lex_lt(self@[r as int].0, key@),
            forall|i: int| r < i < self@.len() ==> lex_lt(key@, (#[trigger] self@[i]).0),
    {
        let mut i: usize = 0;
        while i < self.rows.len() && bytes_lt(self.rows[i].key.as_slice(), key.as_slice())
            invariant
                self.wf(),
                i <= self.rows@.len(),
                self@.len() == self.rows@.len(),
                forall|j: int| 0 <= j < i ==> lex_lt((#[trigger] self@[j]).0, key@),
            decreases self.rows@.len() - i,
        {
            assert(self@[i as int].0 == self.rows@[i as int].key@);
            i = i + 1;
        }
        proof {
            if i < self@.len() {
                assert(self@[i as int].0 == self.rows@[i as int].key@);
                assert forall|j: int| i < j < self@.len() implies lex_lt(
                    key@,
                    (#[trigger] self@[j]).0,
                ) by {
                    assert(lex_lt(self@[i as int].0, self@[j].0));
                    lemma_lex_total(self@[i as int].0, key@);
                    if lex_lt(key@, self@[i as int].0) {
                        lemma_lex_transitive(key@, self@[i as int].0, self@[j].0);
                    }
                }
            }
        }
        i
    }

    /// The row under `key`, if there is one.
    pub fn get(&self, key: &Vec<u8>) -> (r: Option<&T>)
        requires
            self.wf(),
        ensures
            match r {
                Some(m) => found(self@, key@) == Some(m@),
                None => found(self@, key@) is None,
            },
    {
        let at: usize = self.rank(key);
        proof {
            lemma_lex_irreflexive(key@);
        }
        if at < self.rows.len() && bytes_eq(self.rows[at].key.as_slice(), key.as_slice()) {
            proof {
                assert(self@[at as int] == (self.rows@[at as int].key@, self.rows@[at as int].meta@));
                lemma_row_at(self@, at as int);
            }
            Some(&self.rows[at].meta)
        } else {
            proof {
                if has_key(self@, key@) {
                    let i = choose|i: int| 0 <= i < self@.len() && (#[trigger] self@[i]).0 == key@;
                    if i == at {
                        assert(self@[i].0 == self.rows@[i].key@);
                    }
                }
            }
            None
        }
    }

    /// Put a row under `key`, in place of any that is there.
    pub fn put(&mut self, key: Vec<u8>, meta: T)
        requires
            old(self).wf(),
        ensures
            final(self).wf(),
            map_of(final(self)@) == map_of(old(self)@).insert(key@, meta@),
    {
        let at: usize = self.rank(&key);
        let ghost before = self@;
        let ghost k = key@;
        if at < self.rows.len() && bytes_eq(self.rows[at].key.as_slice(), key.as_slice()) {
            assert(before[at as int].0 == self.rows@[at as int].key@);
            let row = MetaRow { key, meta };
            self.rows.set(at, row);
            proof {
                assert(self@ =~= before.update(at as int, (k, meta@)));
                lemma_updated(before, at as int, meta@);
            }
        } else {
            proof {
                if at < before.len() {
                    assert(before[at as int].0 == self.rows@[at as int].key@);
                    lemma_lex_total(before[at as int].0, k);
                }
                lemma_inserted(before, at as int, k, meta@);
            }
            let row = MetaRow { key, meta };
            self.rows.insert(at, row);
            assert(self@ =~= before.insert(at as int, (k, meta@)));
        }
    }

    /// Take away the row under `key`, if there is one.
    pub fn remove(&mut self, key: &Vec<u8>)
        requires
            old(self).wf(),
        ensures
            final(self).wf(),
            map_of(final(self)@) == map_of(old(self)@).remove(key@),
    {
        let at: usize = self.rank(key);
        let ghost before = self@;
        proof {
            lemma_lex_irreflexive(key@);
        }
        if at < self.rows.len() && bytes_eq(self.rows[at].key.as_slice(), key.as_slice()) {
            assert(before[at as int].0 == self.rows@[at as int].key@);
            let _ = self.rows.remove(at);
            proof {
                assert(self@ =~= before.remove(at as int));
                lemma_removed(before, at as int);
            }
        } else {
            proof {
                assert(!has_key(before, key@)) by {
                    if has_key(before, key@) {
                        let i = choose|i: int|
                            0 <= i < before.len() && (#[trigger] before[i]).0 == key@;
                        if i == at {
                            assert(before[i].0 == self.rows@[i].key@);
                        }
                    }
                }
                assert(map_of(before).remove(key@) =~= map_of(before));
            }
        }
    }

    /// How many rows there are.
    pub fn len(&self) -> (r: usize)
        ensures
            r == self@.len(),
    {
        self.rows.len()
    }

    /// The row at a place.
    pub fn row(&self, i: usize) -> (r: &T)
        requires
            i < self@.len(),
        ensures
            r@ == self@[i as int].1,
    {
        &self.rows[i].meta
    }

    /// Whether the key at a place starts with `prefix`.
    pub fn in_scope(&self, i: usize, prefix: &Vec<u8>) -> (r: bool)
        requires
            i < self@.len(),
        ensures
            r == prefix@.is_prefix_of(self@[i as int].0),
    {
        has_prefix(&self.rows[i].key, prefix)
    }
}

/// The models of a sequence of rows.
pub open spec fn models<T: View>(v: Seq<T>) -> Seq<T::V> {
    Seq::new(v.len(), |i: int| v[i]@)
}

impl<T: View + Clone> MetaTable<T> {
    /// A copy of the rows whose keys start with `prefix`, in the order of the keys.
    pub fn list(&self, prefix: &Vec<u8>) -> (r: Vec<T>)
        requires
            forall|a: T, b: T| #[trigger] call_ensures(T::clone, (&a,), b) ==> b@ == a@,
            forall|a: T| #[trigger] call_requires(T::clone, (&a,)),
        ensures
            models(r@) == scanned(self@, prefix@),
    {
        let mut out: Vec<T> = Vec::new();
        let mut i: usize = 0;
        assert(models(out@) =~= Seq::<T::V>::empty());
        assert(self@.take(0) =~= Entries::<T::V>::empty());
        while i < self.len()
            invariant
                forall|a: T, b: T| #[trigger] call_ensures(T::clone, (&a,), b) ==> b@ == a@,
                forall|a: T| #[trigger] call_requires(T::clone, (&a,)),
                i <= self@.len(),
                models(out@) == scanned(self@.take(i as int), prefix@),
            decreases self@.len() - i,
        {
            let ghost before = models(out@);
            let ghost grown = self@.take(i + 1);
            assert(grown.drop_last() =~= self@.take(i as int));
            assert(grown.last() == self@[i as int]);
            if self.in_scope(i, prefix) {
                let copy = self.row(i).clone();
                out.push(copy);
                assert(models(out@) =~= before.push(copy@));
            }
            i = i + 1;
        }
        assert(self@.take(self@.len() as int) =~= self@);
        out
    }
}

} // verus!
