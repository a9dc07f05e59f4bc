//! What writes do to what reads see: a table gives back what was put into it, other tables do
//! not notice, and a new incarnation of a table starts empty.

use vstd::prelude::*;

use super::context::{row_path, stored_path, table_scope, ContextModel};
use super::volcano::rows::Row;
use crate::catalog::ids::{DatasetId, ProjectId, TableId, TruncationId};
use crate::catalog::keys::{law_table_keys_are_injective, table_path};
use crate::catalog::meta::TableRow;
use crate::catalog::state::{
    creates_table, handle_of, law_newest_incarnation_is_live, law_one_live_incarnation,
    law_other_tables_stay, lemma_scanned, names_table, next_incarnation, replaces_live,
    replaces_table, without_table, CatalogModel,
};
use crate::catalog::store::{
    ascending, has_key, law_entries_are_determined, lemma_row_at, map_of, scanned, Entries,
};
use crate::catalog::tables::TableModel;
use crate::storage::bytes::lex_lt;
use crate::storage::row::{law_row_key_roundtrip, prefix_layout, row_key_of, RowKeyModel};
use crate::storage::types::Datum;

verus! {

/// Whether two handles mean the same incarnation of the same table.
pub open spec fn same_incarnation(a: TableModel, b: TableModel) -> bool {
    &&& a.project_id == b.project_id
    &&& a.dataset_id == b.dataset_id
    &&& a.id == b.id
    &&& a.truncation_id == b.truncation_id
}

/// A key under a prefix names the prefix's incarnation.
proof fn lemma_prefix_names(
    p: ProjectId,
    d: DatasetId,
    t: TableId,
    u: TruncationId,
    k: Seq<u8>,
)
    requires
        prefix_layout(p, d, t, u).is_prefix_of(k),
    ensures
        row_key_of(k) is Some,
        row_key_of(k)->0.project_id == p,
        row_key_of(k)->0.dataset_id == d,
        row_key_of(k)->0.table_id == t,
        row_key_of(k)->0.truncation_id == u,
{
    let prefix = prefix_layout(p, d, t, u);
    let model = RowKeyModel {
        project_id: p,
        dataset_id: d,
        table_id: t,
        truncation_id: u,
        user_key: k.skip(prefix.len() as int),
    };
    assert(model.layout() =~= k);
    law_row_key_roundtrip(model);
}

/// The entries under a prefix.
pub open spec fn under<V>(entries: Entries<V>, prefix: Seq<u8>) -> Entries<V>
    decreases entries.len(),
{
    if entries.len() == 0 {
        Seq::empty()
    } else {
        let before = under(entries.drop_last(), prefix);
        if prefix.is_prefix_of(entries.last().0) {
            before.push(entries.last())
        } else {
            before
        }
    }
}

proof fn lemma_under<V>(entries: Entries<V>, prefix: Seq<u8>)
    requires
        ascending(entries),
    ensures
        scanned(entries, prefix) == under(entries, prefix).map_values(|e: (Seq<u8>, V)| e.1),
        ascending(under(entries, prefix)),
        forall|i: int|
            0 <= i < under(entries, prefix).len() ==> prefix.is_prefix_of(
                (#[trigger] under(entries, prefix)[i]).0,
            ) && entries.contains(under(entries, prefix)[i]),
        forall|i: int|
            0 <= i < entries.len() && prefix.is_prefix_of((#[trigger] entries[i]).0) ==> under(
                entries,
                prefix,
            ).contains(entries[i]),
    decreases entries.len(),
{
    let kept = under(entries, prefix);
    let f = |e: (Seq<u8>, V)| e.1;
    if entries.len() == 0 {
        assert(scanned(entries, prefix) =~= kept.map_values(f));
    } else {
        let rest = entries.drop_last();
        let last = entries.last();
        let before = under(rest, prefix);
        assert forall|i: int, j: int| 0 <= i < j < rest.len() implies lex_lt(
            (#[trigger] rest[i]).0,
            (#[trigger] rest[j]).0,
        ) by {
            assert(lex_lt(entries[i].0, entries[j].0));
        }
        lemma_under(rest, prefix);
        assert(scanned(entries, prefix) =~= kept.map_values(f));
        assert forall|i: int| 0 <= i < kept.len() implies prefix.is_prefix_of(
            (#[trigger] kept[i]).0,
        ) && entries.contains(kept[i]) by {
            if i < before.len() {
                assert(kept[i] == before[i]);
                let j = rest.index_of(before[i]);
                assert(rest.contains(before[i]));
                assert(entries[j] == kept[i]);
            } else {
                assert(kept[i] == last);
                assert(entries[entries.len() - 1] == last);
            }
        }
        assert forall|i: int, j: int| 0 <= i < j < kept.len() implies lex_lt(
            (#[trigger] kept[i]).0,
            (#[trigger] kept[j]).0,
        ) by {
            assert(before[i] == kept[i]);
            assert(rest.contains(before[i]));
            let a = rest.index_of(before[i]);
            if j < before.len() {
                assert(before[j] == kept[j]);
                assert(lex_lt(before[i].0, before[j].0));
            } else {
                assert(lex_lt(entries[a].0, entries[entries.len() - 1].0));
            }
        }
        assert forall|i: int|
            0 <= i < entries.len() && prefix.is_prefix_of(
                (#[trigger] entries[i]).0,
            ) implies kept.contains(entries[i]) by {
            if i < rest.len() {
                assert(rest[i] == entries[i]);
                assert(before.contains(rest[i]));
                let j = before.index_of(rest[i]);
                assert(kept[j] == entries[i]);
            } else {
                assert(kept[before.len() as int] == last);
            }
        }
    }
}

/// The map of the entries under a prefix.
proof fn lemma_under_map<V>(entries: Entries<V>, prefix: Seq<u8>, k: Seq<u8>)
    requires
        ascending(entries),
    ensures
        map_of(under(entries, prefix)).contains_key(k) <==> map_of(entries).contains_key(k)
            && prefix.is_prefix_of(k),
        map_of(under(entries, prefix)).contains_key(k) ==> map_of(under(entries, prefix))[k]
            == map_of(entries)[k],
{
    let kept = under(entries, prefix);
    lemma_under(entries, prefix);
    if has_key(kept, k) {
        let i = choose|i: int| 0 <= i < kept.len() && (#[trigger] kept[i]).0 == k;
        assert(entries.contains(kept[i]));
        let j = entries.index_of(kept[i]);
        lemma_row_at(kept, i);
        lemma_row_at(entries, j);
    }
    if has_key(entries, k) && prefix.is_prefix_of(k) {
        let i = choose|i: int| 0 <= i < entries.len() && (#[trigger] entries[i]).0 == k;
        assert(kept.contains(entries[i]));
        let j = kept.index_of(entries[i]);
        assert(kept[j].0 == k);
    }
}

/// A scan depends on nothing but what is under its prefix.
pub proof fn law_scans_see_their_prefix_only<V>(a: Entries<V>, b: Entries<V>, prefix: Seq<u8>)
    requires
        ascending(a),
        ascending(b),
        forall|k: Seq<u8>| #[trigger]
            prefix.is_prefix_of(k) ==> map_of(a).contains_key(k) == map_of(b).contains_key(k) && (
            map_of(a).contains_key(k) ==> map_of(a)[k] == map_of(b)[k]),
    ensures
        scanned(a, prefix) == scanned(b, prefix),
{
    let (x, y) = (under(a, prefix), under(b, prefix));
    lemma_under(a, prefix);
    lemma_under(b, prefix);
    assert forall|k: Seq<u8>| map_of(x).contains_key(k) == map_of(y).contains_key(k) by {
        lemma_under_map(a, prefix, k);
        lemma_under_map(b, prefix, k);
        if prefix.is_prefix_of(k) {
        }
    }
    assert forall|k: Seq<u8>| map_of(x).contains_key(k) implies #[trigger] map_of(x)[k] == map_of(
        y,
    )[k] by {
        lemma_under_map(a, prefix, k);
        lemma_under_map(b, prefix, k);
        assert(prefix.is_prefix_of(k));
    }
    assert(map_of(x) =~= map_of(y));
    law_entries_are_determined(x, y);
}

/// A row that was put into a table is among its rows.
pub proof fn law_written_row_is_read_back(
    before: ContextModel,
    after: ContextModel,
    table: TableModel,
    row: Row,
)
    requires
        before.wf(),
        after.wf(),
        stored_path(table, row) is Some,
        map_of(after.data) == map_of(before.data).insert(stored_path(table, row)->0, row),
    ensures
        after.rows(table).contains(row),
{
    let k = stored_path(table, row)->0;
    lemma_scanned(after.data, table_scope(table), row);
    assert(map_of(after.data).contains_key(k));
    assert(table_scope(table).is_prefix_of(k));
}

/// A row that was deleted is not there any more: nothing is under its key.
pub proof fn law_deleted_row_is_gone(
    before: ContextModel,
    after: ContextModel,
    table: TableModel,
    key: Datum,
)
    requires
        row_path(table, key) is Some,
        map_of(after.data) == map_of(before.data).remove(row_path(table, key)->0),
    ensures
        !has_key(after.data, row_path(table, key)->0),
{
    assert(!map_of(after.data).contains_key(row_path(table, key)->0));
}

/// Writing to a table, or deleting from it, leaves the rows of every other table, and of
/// every other incarnation of the table, as they were.
pub proof fn law_other_tables_keep_their_rows(
    before: ContextModel,
    after: ContextModel,
    table: TableModel,
    key: Datum,
    row: Row,
    other: TableModel,
)
    requires
        before.wf(),
        after.wf(),
        row_path(table, key) is Some,
        map_of(after.data) == map_of(before.data).insert(row_path(table, key)->0, row) || map_of(
            after.data,
        ) == map_of(before.data).remove(row_path(table, key)->0),
        !same_incarnation(table, other),
    ensures
        after.rows(other) == before.rows(other),
{
    let path = row_path(table, key)->0;
    let prefix = table_scope(other);
    assert forall|k: Seq<u8>| #[trigger] prefix.is_prefix_of(k) implies map_of(
        after.data,
    ).contains_key(k) == map_of(before.data).contains_key(k) && (map_of(after.data).contains_key(k)
        ==> map_of(after.data)[k] == map_of(before.data)[k]) by {
        if k == path {
            lemma_prefix_names(
                other.project_id,
                other.dataset_id,
                other.id,
                other.truncation_id,
                k,
            );
            assert(table_scope(table).is_prefix_of(path));
            lemma_prefix_names(
                table.project_id,
                table.dataset_id,
                table.id,
                table.truncation_id,
                k,
            );
        }
    }
    law_scans_see_their_prefix_only(after.data, before.data, prefix);
}

// --- incarnations ---

/// Whether no two tables share an id.
pub open spec fn distinct_ids(m: CatalogModel) -> bool {
    forall|
        p: ProjectId,
        d: DatasetId,
        name: Seq<char>,
        row: TableRow,
        q: ProjectId,
        e: DatasetId,
        other: Seq<char>,
        other_row: TableRow,
    |
        #![trigger m.has_incarnation(p, d, name, row), m.has_incarnation(q, e, other, other_row)]
        m.has_incarnation(p, d, name, row) && m.has_incarnation(q, e, other, other_row) && row.id
            == other_row.id ==> p == q && d == e && name == other
}

/// Whether neither a table nor a stored row has an id.
pub open spec fn unused_id(ctx: ContextModel, id: TableId) -> bool {
    &&& forall|p: ProjectId, d: DatasetId, name: Seq<char>, row: TableRow| #[trigger]
        ctx.catalog.has_incarnation(p, d, name, row) ==> row.id != id
    &&& forall|k: Seq<u8>| #[trigger]
        map_of(ctx.data).contains_key(k) ==> !of_table(k, id)
}

/// Whether a stored row belongs to the table of an id.
pub open spec fn of_table(k: Seq<u8>, id: TableId) -> bool {
    row_key_of(k) is Some && row_key_of(k)->0.table_id == id
}

/// Whether a stored row is of no later incarnation than `live`, if it is of its table at all.
pub open spec fn not_ahead(k: Seq<u8>, live: TableRow) -> bool {
    of_table(k, live.id) ==> row_key_of(k)->0.truncation_id.0 <= live.truncation_id.0
}

/// A state in which no two tables share an id, and no row is stored under an incarnation that
/// is still to come.
pub open spec fn consistent(ctx: ContextModel) -> bool {
    &&& ctx.wf()
    &&& distinct_ids(ctx.catalog)
    &&& forall|k: Seq<u8>, p: ProjectId, d: DatasetId, name: Seq<char>, live: TableRow|
        #![trigger map_of(ctx.data).contains_key(k), ctx.catalog.is_live(p, d, name, live)]
        map_of(ctx.data).contains_key(k) && ctx.catalog.is_live(p, d, name, live) ==> not_ahead(
            k,
            live,
        )
}

/// A context without tables and rows is consistent.
pub proof fn law_empty_context_is_consistent(ctx: ContextModel)
    requires
        ctx.wf(),
        ctx.data.len() == 0,
        ctx.catalog.tables.len() == 0,
    ensures
        consistent(ctx),
{
    assert forall|k: Seq<u8>| !map_of(ctx.data).contains_key(k) by {}
    assert forall|k: Seq<u8>| !map_of(ctx.catalog.tables).contains_key(k) by {}
}

/// Writing to a table of the catalog, in any of its incarnations, keeps the state consistent.
pub proof fn law_writes_keep_consistency(
    before: ContextModel,
    after: ContextModel,
    p: ProjectId,
    d: DatasetId,
    name: Seq<char>,
    table: TableRow,
    row: Row,
)
    requires
        consistent(before),
        after.wf(),
        after.catalog == before.catalog,
        before.catalog.has_incarnation(p, d, name, table),
        stored_path(handle_of(p, d, table), row) is Some,
        map_of(after.data) == map_of(before.data).insert(
            stored_path(handle_of(p, d, table), row)->0,
            row,
        ),
    ensures
        consistent(after),
{
    let path = stored_path(handle_of(p, d, table), row)->0;
    assert forall|k: Seq<u8>, q: ProjectId, e: DatasetId, other: Seq<char>, live: TableRow|
        #![trigger map_of(after.data).contains_key(k), after.catalog.is_live(q, e, other, live)]
        map_of(after.data).contains_key(k) && after.catalog.is_live(
            q,
            e,
            other,
            live,
        ) implies not_ahead(k, live) by {
        if k == path {
            assert(prefix_layout(p, d, table.id, table.truncation_id).is_prefix_of(k));
            lemma_prefix_names(p, d, table.id, table.truncation_id, k);
            if table.id == live.id {
                assert(before.catalog.has_incarnation(q, e, other, live));
                assert(map_of(before.catalog.tables).contains_key(
                    table_path(q, e, other, table.truncation_id),
                ));
            }
        } else {
            assert(map_of(before.data).contains_key(k));
        }
    }
}

/// Deleting a row keeps the state consistent.
pub proof fn law_deletes_keep_consistency(before: ContextModel, after: ContextModel, path: Seq<u8>)
    requires
        consistent(before),
        after.wf(),
        after.catalog == before.catalog,
        map_of(after.data) == map_of(before.data).remove(path),
    ensures
        consistent(after),
{
    assert forall|k: Seq<u8>, q: ProjectId, e: DatasetId, other: Seq<char>, live: TableRow|
        #![trigger map_of(after.data).contains_key(k), after.catalog.is_live(q, e, other, live)]
        map_of(after.data).contains_key(k) && after.catalog.is_live(
            q,
            e,
            other,
            live,
        ) implies not_ahead(k, live) by {
        assert(map_of(before.data).contains_key(k));
        assert(before.catalog.is_live(q, e, other, live));
    }
}

/// What an added table row does to the incarnations: it is one, and the others stay.
proof fn lemma_gained(
    before: CatalogModel,
    after: CatalogModel,
    p: ProjectId,
    d: DatasetId,
    m: TableRow,
    q: ProjectId,
    e: DatasetId,
    name: Seq<char>,
    row: TableRow,
)
    requires
        after.gains_table(before, p, d, m),
        forall|t: TruncationId| #[trigger]
            map_of(before.tables).contains_key(table_path(p, d, m.name, t)) ==> t.0
                < m.truncation_id.0,
    ensures
        after.has_incarnation(p, d, m.name, m),
        before.has_incarnation(q, e, name, row) ==> after.has_incarnation(q, e, name, row),
        after.has_incarnation(q, e, name, row) ==> before.has_incarnation(q, e, name, row) || (q
            == p && e == d && name == m.name && row == m),
{
    let key = table_path(p, d, m.name, m.truncation_id);
    let other = table_path(q, e, name, row.truncation_id);
    if before.has_incarnation(q, e, name, row) && other == key {
        assert(map_of(before.tables).contains_key(key));
    }
    if after.has_incarnation(q, e, name, row) && other == key {
        law_table_keys_are_injective(
            q,
            e,
            name,
            row.truncation_id,
            p,
            d,
            m.name,
            m.truncation_id,
        );
    }
}

/// An incarnation above all others of its table starts empty, and the state stays consistent.
proof fn lemma_new_incarnation(
    before: ContextModel,
    after: ContextModel,
    p: ProjectId,
    d: DatasetId,
    m: TableRow,
)
    requires
        consistent(before),
        after.wf(),
        after.data == before.data,
        after.catalog.gains_table(before.catalog, p, d, m),
        forall|t: TruncationId| #[trigger]
            map_of(before.catalog.tables).contains_key(table_path(p, d, m.name, t)) ==> t.0
                < m.truncation_id.0,
        forall|q: ProjectId, e: DatasetId, name: Seq<char>, row: TableRow| #[trigger]
            before.catalog.has_incarnation(q, e, name, row) && row.id == m.id ==> q == p && e == d
                && name == m.name,
        forall|k: Seq<u8>| #[trigger]
            map_of(before.data).contains_key(k) ==> of_table(k, m.id)
                ==> row_key_of(k)->0.truncation_id.0 < m.truncation_id.0,
    ensures
        after.rows(handle_of(p, d, m)) == Seq::<Row>::empty(),
        consistent(after),
{
    let handle = handle_of(p, d, m);
    let prefix = table_scope(handle);
    let rows = after.rows(handle);
    if rows.len() > 0 {
        let row = rows[0];
        assert(rows.contains(row));
        lemma_scanned(after.data, prefix, row);
        let k = choose|k: Seq<u8>| #[trigger]
            map_of(after.data).contains_key(k) && prefix.is_prefix_of(k) && map_of(after.data)[k]
                == row;
        assert(map_of(before.data).contains_key(k));
        lemma_prefix_names(p, d, m.id, m.truncation_id, k);
        assert(of_table(k, m.id));
    }
    assert(rows =~= Seq::<Row>::empty());
    assert forall|
        a: ProjectId,
        b: DatasetId,
        name: Seq<char>,
        row: TableRow,
        q: ProjectId,
        e: DatasetId,
        other: Seq<char>,
        other_row: TableRow,
    |
        #![trigger after.catalog.has_incarnation(a, b, name, row), after.catalog.has_incarnation(q, e, other, other_row)]
        after.catalog.has_incarnation(a, b, name, row) && after.catalog.has_incarnation(
            q,
            e,
            other,
            other_row,
        ) && row.id == other_row.id implies a == q && b == e && name == other by {
        lemma_gained(before.catalog, after.catalog, p, d, m, a, b, name, row);
        lemma_gained(before.catalog, after.catalog, p, d, m, q, e, other, other_row);
    }
    assert forall|k: Seq<u8>, q: ProjectId, e: DatasetId, other: Seq<char>, live: TableRow|
        #![trigger map_of(after.data).contains_key(k), after.catalog.is_live(q, e, other, live)]
        map_of(after.data).contains_key(k) && after.catalog.is_live(
            q,
            e,
            other,
            live,
        ) implies not_ahead(k, live) by {
        assert(map_of(before.data).contains_key(k));
        if q == p && e == d && other == m.name {
            law_newest_incarnation_is_live(before.catalog, after.catalog, p, d, m);
            law_one_live_incarnation(after.catalog, p, d, other, live, m);
        } else {
            law_other_tables_stay(before.catalog, after.catalog, p, d, m, q, e, other, live);
            assert(before.catalog.is_live(q, e, other, live));
        }
    }
}

/// A table created under an unused id starts empty, and the state stays consistent.
pub proof fn law_created_table_starts_empty(
    before: ContextModel,
    after: ContextModel,
    p: ProjectId,
    d: DatasetId,
    row: TableRow,
    m: TableRow,
)
    requires
        consistent(before),
        after.wf(),
        after.data == before.data,
        unused_id(before, row.id),
        creates_table(before.catalog, after.catalog, p, d, row, Ok(m)),
    ensures
        after.rows(handle_of(p, d, m)) == Seq::<Row>::empty(),
        consistent(after),
{
    lemma_new_incarnation(before, after, p, d, m);
}

/// A replaced table starts empty, whatever was in it, and the state stays consistent.
pub proof fn law_replaced_table_starts_empty(
    before: ContextModel,
    after: ContextModel,
    p: ProjectId,
    d: DatasetId,
    row: TableRow,
    m: TableRow,
)
    requires
        consistent(before),
        after.wf(),
        after.data == before.data,
        unused_id(before, row.id),
        replaces_table(before.catalog, after.catalog, p, d, row, Ok(m)),
    ensures
        after.rows(handle_of(p, d, m)) == Seq::<Row>::empty(),
        consistent(after),
{
    if !before.catalog.has_no_table(p, d, row.name) {
        assert(replaces_live(before.catalog, p, d, row, m));
        let live = choose|live: TableRow| #[trigger]
            before.catalog.is_live(p, d, row.name, live) && live.truncation_id.0 < u64::MAX && m
                == next_incarnation(live, row);
        assert(before.catalog.is_live(p, d, row.name, live));
        assert(before.catalog.has_incarnation(p, d, row.name, live));
        assert forall|k: Seq<u8>| #[trigger] map_of(before.data).contains_key(k) && of_table(
            k,
            m.id,
        ) implies row_key_of(k)->0.truncation_id.0 < m.truncation_id.0 by {
            assert(not_ahead(k, live));
        }
    }
    lemma_new_incarnation(before, after, p, d, m);
}

/// Dropping a table keeps the state consistent, though its rows stay behind: no table can
/// reach them any more, as long as its id is not used again.
pub proof fn law_drops_keep_consistency(
    before: ContextModel,
    after: ContextModel,
    p: ProjectId,
    d: DatasetId,
    name: Seq<char>,
)
    requires
        consistent(before),
        after.wf(),
        after.data == before.data,
        map_of(after.catalog.tables) == without_table(
            map_of(before.catalog.tables),
            p,
            d,
            name,
        ),
    ensures
        consistent(after),
{
    let (old_tables, new_tables) = (map_of(before.catalog.tables), map_of(after.catalog.tables));
    assert forall|k: Seq<u8>| new_tables.contains_key(k) implies old_tables.contains_key(k)
        && #[trigger] new_tables[k] == old_tables[k] by {}
    assert forall|q: ProjectId, e: DatasetId, other: Seq<char>, row: TableRow| #[trigger]
        after.catalog.has_incarnation(q, e, other, row) implies before.catalog.has_incarnation(
        q,
        e,
        other,
        row,
    ) by {
        let key = table_path(q, e, other, row.truncation_id);
        assert(new_tables[key] == old_tables[key]);
    }
    assert forall|
        a: ProjectId,
        b: DatasetId,
        one: Seq<char>,
        row: TableRow,
        q: ProjectId,
        e: DatasetId,
        other: Seq<char>,
        other_row: TableRow,
    |
        #![trigger after.catalog.has_incarnation(a, b, one, row), after.catalog.has_incarnation(q, e, other, other_row)]
        after.catalog.has_incarnation(a, b, one, row) && after.catalog.has_incarnation(
            q,
            e,
            other,
            other_row,
        ) && row.id == other_row.id implies a == q && b == e && one == other by {
        assert(before.catalog.has_incarnation(a, b, one, row));
        assert(before.catalog.has_incarnation(q, e, other, other_row));
    }
    assert forall|k: Seq<u8>, q: ProjectId, e: DatasetId, other: Seq<char>, live: TableRow|
        #![trigger map_of(after.data).contains_key(k), after.catalog.is_live(q, e, other, live)]
        map_of(after.data).contains_key(k) && after.catalog.is_live(
            q,
            e,
            other,
            live,
        ) implies not_ahead(k, live) by {
        assert(map_of(before.data).contains_key(k));
        let key = table_path(q, e, other, live.truncation_id);
        assert(after.catalog.has_incarnation(q, e, other, live));
        assert(before.catalog.has_incarnation(q, e, other, live));
        assert forall|t: TruncationId| #[trigger]
            old_tables.contains_key(table_path(q, e, other, t)) implies t.0
            <= live.truncation_id.0 by {
            let other_key = table_path(q, e, other, t);
            if !new_tables.contains_key(other_key) {
                assert(names_table(other_key, p, d, name));
                let u = choose|u: TruncationId| other_key == #[trigger] table_path(p, d, name, u);
                law_table_keys_are_injective(q, e, other, t, p, d, name, u);
                assert(names_table(key, p, d, name));
            }
        }
        assert(before.catalog.is_live(q, e, other, live));
    }
}

} // verus!
