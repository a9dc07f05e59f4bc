//! What the system relations show of the catalog.

use vstd::prelude::*;

use super::ids::{DatasetId, ProjectId};
use super::keys::{dataset_scope_path, project_scope_path};
use super::meta::{DatasetRow, ProjectRow, StatsRow, TableRow};
use super::state::{law_listed_tables_are_live, live_rows, CatalogModel};
use super::store::scanned;
use super::system::{
    array_oid_of, base_type_list, column_list, namespace_list, pg_facts, relation_rows,
    relation_schema, resolved, table_list, user_project_list, visible_projects, SystemRelation,
};
use crate::storage::types::{Datum, LogicalType};

verus! {

// --- what is listed ---

/// Whether users see a project: it is in the catalog, and not the catalog's own.
pub open spec fn seen_project(m: CatalogModel, p: ProjectRow) -> bool {
    scanned(m.projects, Seq::empty()).contains(p) && p.id != m.system_project
}

/// Whether users see a dataset: it is one of a project that they see.
pub open spec fn seen_dataset(m: CatalogModel, p: ProjectRow, d: DatasetRow) -> bool {
    seen_project(m, p) && scanned(m.datasets, project_scope_path(p.id)).contains(d)
}

/// Whether users see a table: it is live in a dataset that they see.
pub open spec fn seen_table(
    m: CatalogModel,
    p: ProjectRow,
    d: DatasetRow,
    t: TableRow,
) -> bool {
    seen_dataset(m, p, d) && m.is_live(p.id, d.id, t.name, t)
}

proof fn lemma_projects(projects: Seq<ProjectRow>, system: ProjectId, p: ProjectRow)
    ensures
        user_project_list(projects, system).contains(p) <==> projects.contains(p) && p.id != system,
    decreases projects.len(),
{
    if projects.len() > 0 {
        let rest = projects.drop_last();
        lemma_projects(rest, system, p);
        lemma_push(rest, projects.last(), p);
        assert(rest.push(projects.last()) =~= projects);
        lemma_push(user_project_list(rest, system), projects.last(), p);
    }
}

proof fn lemma_push<T>(s: Seq<T>, last: T, x: T)
    ensures
        s.push(last).contains(x) <==> s.contains(x) || x == last,
{
    let all = s.push(last);
    if s.contains(x) {
        let i = s.index_of(x);
        assert(all[i] == x);
    }
    if x == last {
        assert(all[s.len() as int] == x);
    }
    if all.contains(x) {
        let i = all.index_of(x);
        if i < s.len() {
            assert(s[i] == x);
        }
    }
}

proof fn lemma_append<T>(s: Seq<T>, t: Seq<T>, x: T)
    ensures
        (s + t).contains(x) <==> s.contains(x) || t.contains(x),
{
    let all = s + t;
    if s.contains(x) {
        let i = s.index_of(x);
        assert(all[i] == x);
    }
    if t.contains(x) {
        let i = t.index_of(x);
        assert(all[s.len() + i] == x);
    }
    if all.contains(x) {
        let i = all.index_of(x);
        if i < s.len() {
            assert(s[i] == x);
        } else {
            assert(t[i - s.len()] == x);
        }
    }
}

proof fn lemma_spaces(m: CatalogModel, projects: Seq<ProjectRow>, p: ProjectRow, d: DatasetRow)
    ensures
        namespace_list(m, projects).contains((p, d)) <==> projects.contains(p) && scanned(
            m.datasets,
            project_scope_path(p.id),
        ).contains(d),
    decreases projects.len(),
{
    if projects.len() > 0 {
        let rest = projects.drop_last();
        let q = projects.last();
        let datasets = scanned(m.datasets, project_scope_path(q.id));
        let mine = Seq::new(datasets.len(), |i: int| (q, datasets[i]));
        lemma_spaces(m, rest, p, d);
        lemma_push(rest, q, p);
        assert(rest.push(q) =~= projects);
        lemma_append(namespace_list(m, rest), mine, (p, d));
        if mine.contains((p, d)) {
            let i = mine.index_of((p, d));
            assert(datasets[i] == d);
        }
        if p == q && datasets.contains(d) {
            let i = datasets.index_of(d);
            assert(mine[i] == (p, d));
        }
    }
}

proof fn lemma_tables(
    m: CatalogModel,
    spaces: Seq<(ProjectRow, DatasetRow)>,
    p: ProjectRow,
    d: DatasetRow,
    t: TableRow,
)
    requires
        m.wf(),
    ensures
        table_list(m, spaces).contains((p, d, t)) <==> spaces.contains((p, d)) && m.is_live(
            p.id,
            d.id,
            t.name,
            t,
        ),
    decreases spaces.len(),
{
    if spaces.len() > 0 {
        let rest = spaces.drop_last();
        let (q, e) = spaces.last();
        let all = scanned(m.tables, dataset_scope_path(q.id, e.id));
        let tables = live_rows(all, all.len());
        let mine = Seq::new(tables.len(), |i: int| (q, e, tables[i]));
        lemma_tables(m, rest, p, d, t);
        law_listed_tables_are_live(m, q.id, e.id, t);
        lemma_push(rest, (q, e), (p, d));
        assert(rest.push((q, e)) =~= spaces);
        lemma_append(table_list(m, rest), mine, (p, d, t));
        if mine.contains((p, d, t)) {
            let i = mine.index_of((p, d, t));
            assert(tables[i] == t);
        }
        if p == q && d == e && tables.contains(t) {
            let i = tables.index_of(t);
            assert(mine[i] == (p, d, t));
        }
    }
}

proof fn lemma_columns(
    tables: Seq<(ProjectRow, DatasetRow, TableRow)>,
    p: ProjectRow,
    d: DatasetRow,
    t: TableRow,
    i: nat,
)
    ensures
        column_list(tables).contains((p, d, t, i)) <==> tables.contains((p, d, t)) && i
            < t.schema.len(),
    decreases tables.len(),
{
    if tables.len() > 0 {
        let rest = tables.drop_last();
        let (q, e, u) = tables.last();
        let mine = Seq::new(u.schema.len(), |k: int| (q, e, u, k as nat));
        lemma_columns(rest, p, d, t, i);
        lemma_push(rest, (q, e, u), (p, d, t));
        assert(rest.push((q, e, u)) =~= tables);
        lemma_append(column_list(rest), mine, (p, d, t, i));
        if mine.contains((p, d, t, i)) {
            let k = mine.index_of((p, d, t, i));
            assert(mine[k] == (q, e, u, k as nat));
        }
        if (p, d, t) == (q, e, u) && i < u.schema.len() {
            assert(mine[i as int] == (p, d, t, i));
        }
    }
}

/// What users see: the projects of the catalog but its own, the datasets of those projects, the
/// live tables of those datasets, and every column of those tables.
pub proof fn law_users_see_what_is_live(
    m: CatalogModel,
    p: ProjectRow,
    d: DatasetRow,
    t: TableRow,
    i: nat,
)
    requires
        m.wf(),
    ensures
        visible_projects(m).contains(p) <==> seen_project(m, p),
        namespace_list(m, visible_projects(m)).contains((p, d)) <==> seen_dataset(m, p, d),
        table_list(m, namespace_list(m, visible_projects(m))).contains((p, d, t)) <==> seen_table(
            m,
            p,
            d,
            t,
        ),
        column_list(table_list(m, namespace_list(m, visible_projects(m)))).contains((p, d, t, i))
            <==> seen_table(m, p, d, t) && i < t.schema.len(),
{
    let projects = visible_projects(m);
    let spaces = namespace_list(m, projects);
    let tables = table_list(m, spaces);
    lemma_projects(scanned(m.projects, Seq::empty()), m.system_project, p);
    lemma_spaces(m, projects, p, d);
    lemma_tables(m, spaces, p, d, t);
    lemma_columns(tables, p, d, t, i);
}

// --- what the rows say ---

/// A column as the standard view shows it: where it is, its name, its place counted from one, no
/// default, `YES` where it takes nulls and `NO` where it does not, and its type by its long and
/// short names.
pub open spec fn shows_column(
    row: Seq<Datum>,
    p: ProjectRow,
    d: DatasetRow,
    t: TableRow,
    i: nat,
) -> bool {
    &&& row.len() == 9
    &&& row[0] == Datum::Text(p.name)
    &&& row[1] == Datum::Text(d.name)
    &&& row[2] == Datum::Text(t.name)
    &&& row[3] == Datum::Text(t.schema[i as int].name)
    &&& i < i32::MAX ==> row[4] is Int32 && row[4]->Int32_0 == i + 1
    &&& row[5] == Datum::Null
    &&& row[6] == Datum::Text("YES"@) || row[6] == Datum::Text("NO"@)
    &&& row[6] == Datum::Text("YES"@) <==> t.schema[i as int].nullable
    &&& row[7] == Datum::Text(pg_facts(t.schema[i as int].ty).display)
    &&& row[8] == Datum::Text(pg_facts(t.schema[i as int].ty).name)
}

/// An attribute: its table's number, its name, its type's number, its place counted from one,
/// whether it refuses nulls, whether it has a default, and that it is not dropped.
pub open spec fn shows_attribute(row: Seq<Datum>, t: TableRow, i: nat) -> bool {
    &&& row.len() == 7
    &&& shows_oid(row[0], t.id.0.value)
    &&& row[1] == Datum::Text(t.schema[i as int].name)
    &&& row[2] is Int64 && row[2]->Int64_0 == pg_facts(t.schema[i as int].ty).oid as i64
    &&& i < i32::MAX ==> row[3] is Int32 && row[3]->Int32_0 == i + 1
    &&& row[4] == Datum::Bool(!t.schema[i as int].nullable)
    &&& row[5] == Datum::Bool(t.schema[i as int].default is Some)
    &&& row[6] == Datum::Bool(false)
}

/// A number of 31 bits for an id: its low bits.
pub open spec fn shows_oid(d: Datum, id: u128) -> bool {
    d is Int64 && 0 <= d->Int64_0 < 0x8000_0000 && (id - d->Int64_0) % 0x8000_0000 == 0
}

proof fn lemma_oid(id: u128)
    ensures
        shows_oid(Datum::Int64((id % 0x8000_0000) as i64), id),
{
    let low = (id % 0x8000_0000) as i64;
    assert(low == id % 0x8000_0000);
}

proof fn lemma_yes_no()
    ensures
        "YES"@ != "NO"@,
{
    reveal_strlit("YES");
    reveal_strlit("NO");
    assert("YES"@.len() == 3 && "NO"@.len() == 2);
}

/// Every row of `information_schema.columns`, and the one of `pg_attribute` at the same place,
/// shows a column of a table that users see: the one that is given back.
pub proof fn law_shown_columns_are_seen(m: CatalogModel, k: int) -> (c: (
    ProjectRow,
    DatasetRow,
    TableRow,
    nat,
))
    requires
        m.wf(),
        0 <= k < relation_rows(SystemRelation::InfoColumns, m).len(),
    ensures
        relation_rows(SystemRelation::Attribute, m).len() == relation_rows(
            SystemRelation::InfoColumns,
            m,
        ).len(),
        seen_table(m, c.0, c.1, c.2),
        c.3 < c.2.schema.len(),
        shows_column(relation_rows(SystemRelation::InfoColumns, m)[k], c.0, c.1, c.2, c.3),
        shows_attribute(relation_rows(SystemRelation::Attribute, m)[k], c.2, c.3),
{
    let columns = column_list(table_list(m, namespace_list(m, visible_projects(m))));
    let c = columns[k];
    assert(columns.contains((c.0, c.1, c.2, c.3)));
    law_users_see_what_is_live(m, c.0, c.1, c.2, c.3);
    lemma_yes_no();
    lemma_oid(c.2.id.0.value);
    c
}

/// Every column of a table that users see is shown by a row of `information_schema.columns` and
/// by the row of `pg_attribute` at the same place: the place that is given back.
pub proof fn law_seen_columns_are_shown(
    m: CatalogModel,
    p: ProjectRow,
    d: DatasetRow,
    t: TableRow,
    i: nat,
) -> (k: int)
    requires
        m.wf(),
        seen_table(m, p, d, t),
        i < t.schema.len(),
    ensures
        0 <= k < relation_rows(SystemRelation::InfoColumns, m).len(),
        shows_column(relation_rows(SystemRelation::InfoColumns, m)[k], p, d, t, i),
        shows_attribute(relation_rows(SystemRelation::Attribute, m)[k], t, i),
{
    let columns = column_list(table_list(m, namespace_list(m, visible_projects(m))));
    law_users_see_what_is_live(m, p, d, t, i);
    let k = columns.index_of((p, d, t, i));
    assert(columns[k] == (p, d, t, i));
    lemma_yes_no();
    lemma_oid(t.id.0.value);
    k
}

/// A table as the standard view shows it: where it is, its name, and that it is a base table.
pub open spec fn shows_table(
    row: Seq<Datum>,
    p: ProjectRow,
    d: DatasetRow,
    t: TableRow,
) -> bool {
    &&& row.len() == 4
    &&& row[0] == Datum::Text(p.name)
    &&& row[1] == Datum::Text(d.name)
    &&& row[2] == Datum::Text(t.name)
    &&& row[3] == Datum::Text("BASE TABLE"@)
}

/// A table among the classes: its number and name, its dataset's number, that it is a relation,
/// how many columns it has, whether it has an index, and -1 for its unknown row count.
pub open spec fn shows_class(row: Seq<Datum>, d: DatasetRow, t: TableRow) -> bool {
    &&& row.len() == 7
    &&& shows_oid(row[0], t.id.0.value)
    &&& row[1] == Datum::Text(t.name)
    &&& shows_oid(row[2], d.id.0.value)
    &&& row[3] == Datum::Text("r"@)
    &&& t.schema.len() <= i32::MAX ==> row[4] is Int32 && row[4]->Int32_0 == t.schema.len()
    &&& row[5] == Datum::Bool(t.indexes.len() > 0)
    &&& row[6] is Int64 && row[6]->Int64_0 == -1
}

/// Every row of `information_schema.tables`, and the one of `pg_class` at the same place, shows a
/// live table that users see: the one that is given back.
pub proof fn law_shown_tables_are_seen(m: CatalogModel, k: int) -> (c: (
    ProjectRow,
    DatasetRow,
    TableRow,
))
    requires
        m.wf(),
        0 <= k < relation_rows(SystemRelation::InfoTables, m).len(),
    ensures
        relation_rows(SystemRelation::Class, m).len() == relation_rows(
            SystemRelation::InfoTables,
            m,
        ).len(),
        seen_table(m, c.0, c.1, c.2),
        shows_table(relation_rows(SystemRelation::InfoTables, m)[k], c.0, c.1, c.2),
        shows_class(relation_rows(SystemRelation::Class, m)[k], c.1, c.2),
{
    let tables = table_list(m, namespace_list(m, visible_projects(m)));
    let c = tables[k];
    assert(tables.contains((c.0, c.1, c.2)));
    law_users_see_what_is_live(m, c.0, c.1, c.2, 0);
    lemma_oid(c.2.id.0.value);
    lemma_oid(c.1.id.0.value);
    c
}

/// Every live table that users see is shown by a row of `information_schema.tables` and by the
/// row of `pg_class` at the same place: the place that is given back.
pub proof fn law_seen_tables_are_shown(
    m: CatalogModel,
    p: ProjectRow,
    d: DatasetRow,
    t: TableRow,
) -> (k: int)
    requires
        m.wf(),
        seen_table(m, p, d, t),
    ensures
        0 <= k < relation_rows(SystemRelation::InfoTables, m).len(),
        shows_table(relation_rows(SystemRelation::InfoTables, m)[k], p, d, t),
        shows_class(relation_rows(SystemRelation::Class, m)[k], d, t),
{
    let tables = table_list(m, namespace_list(m, visible_projects(m)));
    law_users_see_what_is_live(m, p, d, t, 0);
    let k = tables.index_of((p, d, t));
    assert(tables[k] == (p, d, t));
    lemma_oid(t.id.0.value);
    lemma_oid(d.id.0.value);
    k
}

/// A dataset as the standard view shows it.
pub open spec fn shows_schema(row: Seq<Datum>, p: ProjectRow, d: DatasetRow) -> bool {
    row == seq![Datum::Text(p.name), Datum::Text(d.name), Datum::Text("strata"@)]
}

/// A dataset among the namespaces.
pub open spec fn shows_namespace(row: Seq<Datum>, d: DatasetRow) -> bool {
    &&& row.len() == 3
    &&& shows_oid(row[0], d.id.0.value)
    &&& row[1] == Datum::Text(d.name)
    &&& row[2] == Datum::Text("strata"@)
}

/// A project among the databases.
pub open spec fn shows_database(row: Seq<Datum>, p: ProjectRow) -> bool {
    row.len() == 2 && shows_oid(row[0], p.id.0.value) && row[1] == Datum::Text(p.name)
}

proof fn lemma_seen_dataset(m: CatalogModel, p: ProjectRow, d: DatasetRow)
    ensures
        visible_projects(m).contains(p) <==> seen_project(m, p),
        namespace_list(m, visible_projects(m)).contains((p, d)) <==> seen_dataset(m, p, d),
{
    lemma_projects(scanned(m.projects, Seq::empty()), m.system_project, p);
    lemma_spaces(m, visible_projects(m), p, d);
}

/// Every row of `information_schema.schemata`, and the one of `pg_namespace` at the same place,
/// shows a dataset that users see: the one that is given back.
pub proof fn law_shown_datasets_are_seen(m: CatalogModel, k: int) -> (c: (ProjectRow, DatasetRow))
    requires
        0 <= k < relation_rows(SystemRelation::InfoSchemata, m).len(),
    ensures
        relation_rows(SystemRelation::Namespace, m).len() == relation_rows(
            SystemRelation::InfoSchemata,
            m,
        ).len(),
        seen_dataset(m, c.0, c.1),
        shows_schema(relation_rows(SystemRelation::InfoSchemata, m)[k], c.0, c.1),
        shows_namespace(relation_rows(SystemRelation::Namespace, m)[k], c.1),
{
    let spaces = namespace_list(m, visible_projects(m));
    let c = spaces[k];
    assert(spaces.contains((c.0, c.1)));
    lemma_seen_dataset(m, c.0, c.1);
    lemma_oid(c.1.id.0.value);
    c
}

/// Every dataset that users see is shown by a row of `information_schema.schemata` and by the row
/// of `pg_namespace` at the same place: the place that is given back.
pub proof fn law_seen_datasets_are_shown(m: CatalogModel, p: ProjectRow, d: DatasetRow) -> (k: int)
    requires
        seen_dataset(m, p, d),
    ensures
        0 <= k < relation_rows(SystemRelation::InfoSchemata, m).len(),
        shows_schema(relation_rows(SystemRelation::InfoSchemata, m)[k], p, d),
        shows_namespace(relation_rows(SystemRelation::Namespace, m)[k], d),
{
    let spaces = namespace_list(m, visible_projects(m));
    lemma_seen_dataset(m, p, d);
    let k = spaces.index_of((p, d));
    assert(spaces[k] == (p, d));
    lemma_oid(d.id.0.value);
    k
}

/// Every row of `pg_database` shows a project that users see: the one that is given back.
pub proof fn law_shown_projects_are_seen(m: CatalogModel, k: int) -> (p: ProjectRow)
    requires
        0 <= k < relation_rows(SystemRelation::Database, m).len(),
    ensures
        seen_project(m, p),
        shows_database(relation_rows(SystemRelation::Database, m)[k], p),
{
    let projects = visible_projects(m);
    let p = projects[k];
    assert(projects.contains(p));
    lemma_projects(scanned(m.projects, Seq::empty()), m.system_project, p);
    lemma_oid(p.id.0.value);
    p
}

/// Every project that users see is shown by a row of `pg_database`: the one at the place that is
/// given back.
pub proof fn law_seen_projects_are_shown(m: CatalogModel, p: ProjectRow) -> (k: int)
    requires
        seen_project(m, p),
    ensures
        0 <= k < relation_rows(SystemRelation::Database, m).len(),
        shows_database(relation_rows(SystemRelation::Database, m)[k], p),
{
    let projects = visible_projects(m);
    lemma_projects(scanned(m.projects, Seq::empty()), m.system_project, p);
    let k = projects.index_of(p);
    lemma_oid(p.id.0.value);
    k
}

/// `pg_stats` shows the statistics that the catalog keeps, value for value.
pub proof fn law_statistics_are_shown(m: CatalogModel, k: int)
    requires
        0 <= k < scanned(m.stats, Seq::empty()).len(),
    ensures
        relation_rows(SystemRelation::Stats, m).len() == scanned(m.stats, Seq::empty()).len(),
        ({
            let s = scanned(m.stats, Seq::empty())[k];
            let row = relation_rows(SystemRelation::Stats, m)[k];
            &&& row.len() == 10
            &&& row[0] == Datum::Text(s.schemaname)
            &&& row[1] == Datum::Text(s.tablename)
            &&& row[2] == Datum::Text(s.attname)
            &&& row[3] == Datum::Float32(s.null_frac)
            &&& row[4] == Datum::Int32(s.avg_width)
            &&& row[5] == Datum::Float32(s.n_distinct)
            &&& row[6] == Datum::Text(s.most_common_vals)
            &&& row[7] == Datum::Text(s.most_common_freqs)
            &&& row[8] == Datum::Text(s.histogram_bounds)
            &&& row[9] == Datum::Float32(s.correlation)
        }),
{
}

// --- types ---

/// Whether a type has no elements.
pub open spec fn is_scalar(ty: LogicalType) -> bool {
    !(ty is Array)
}

/// `pg_type` lists every scalar type, each once.
pub proof fn law_scalar_types_are_listed(ty: LogicalType)
    ensures
        base_type_list().contains(ty) <==> is_scalar(ty),
        base_type_list().len() == 15,
{
    let all = base_type_list();
    let i = match ty {
        LogicalType::Bool => 0int,
        LogicalType::Bytes => 1,
        LogicalType::Int64 => 2,
        LogicalType::Int16 => 3,
        LogicalType::Int32 => 4,
        LogicalType::Text => 5,
        LogicalType::Json => 6,
        LogicalType::Float32 => 7,
        LogicalType::Float64 => 8,
        LogicalType::Date => 9,
        LogicalType::Time => 10,
        LogicalType::Timestamp => 11,
        LogicalType::Interval => 12,
        LogicalType::Numeric => 13,
        LogicalType::Uuid => 14,
        LogicalType::Array(_) => 15,
    };
    if is_scalar(ty) {
        assert(all[i] == ty);
    }
}

/// What the rows of `pg_type` say: the type's number and name, its width in bytes, that it is a
/// base type, its category, and no element type.
pub proof fn law_types_are_shown(m: CatalogModel, k: int)
    requires
        0 <= k < base_type_list().len(),
    ensures
        relation_rows(SystemRelation::Type, m).len() == base_type_list().len(),
        ({
            let pg = pg_facts(base_type_list()[k]);
            let row = relation_rows(SystemRelation::Type, m)[k];
            &&& row.len() == 6
            &&& row[0] is Int64 && row[0]->Int64_0 == pg.oid
            &&& row[1] == Datum::Text(pg.name)
            &&& row[2] is Int32 && row[2]->Int32_0 == pg.len
            &&& row[3] == Datum::Text("b"@)
            &&& row[4] == Datum::Text(pg.category)
            &&& row[5] is Int64 && row[5]->Int64_0 == 0
        }),
{
}

/// The numbers, names, widths and categories of the scalar types, as PostgreSQL has them.
pub proof fn law_type_facts()
    ensures
        pg_facts(LogicalType::Bool).oid == 16 && pg_facts(LogicalType::Bool).len == 1,
        pg_facts(LogicalType::Bytes).oid == 17 && pg_facts(LogicalType::Bytes).len == -1,
        pg_facts(LogicalType::Int64).oid == 20 && pg_facts(LogicalType::Int64).len == 8,
        pg_facts(LogicalType::Int16).oid == 21 && pg_facts(LogicalType::Int16).len == 2,
        pg_facts(LogicalType::Int32).oid == 23 && pg_facts(LogicalType::Int32).len == 4,
        pg_facts(LogicalType::Text).oid == 25 && pg_facts(LogicalType::Text).len == -1,
        pg_facts(LogicalType::Json).oid == 114 && pg_facts(LogicalType::Json).len == -1,
        pg_facts(LogicalType::Float32).oid == 700 && pg_facts(LogicalType::Float32).len == 4,
        pg_facts(LogicalType::Float64).oid == 701 && pg_facts(LogicalType::Float64).len == 8,
        pg_facts(LogicalType::Date).oid == 1082 && pg_facts(LogicalType::Date).len == 4,
        pg_facts(LogicalType::Time).oid == 1083 && pg_facts(LogicalType::Time).len == 8,
        pg_facts(LogicalType::Timestamp).oid == 1184 && pg_facts(LogicalType::Timestamp).len == 8,
        pg_facts(LogicalType::Interval).oid == 1186 && pg_facts(LogicalType::Interval).len == 16,
        pg_facts(LogicalType::Numeric).oid == 1700 && pg_facts(LogicalType::Numeric).len == -1,
        pg_facts(LogicalType::Uuid).oid == 2950 && pg_facts(LogicalType::Uuid).len == 16,
        pg_facts(LogicalType::Bool).name == "bool"@ && pg_facts(LogicalType::Bool).display
            == "boolean"@ && pg_facts(LogicalType::Bool).category == "B"@,
        pg_facts(LogicalType::Bytes).name == "bytea"@ && pg_facts(LogicalType::Bytes).display
            == "bytea"@ && pg_facts(LogicalType::Bytes).category == "U"@,
        pg_facts(LogicalType::Int64).name == "int8"@ && pg_facts(LogicalType::Int64).display
            == "bigint"@ && pg_facts(LogicalType::Int64).category == "N"@,
        pg_facts(LogicalType::Int16).name == "int2"@ && pg_facts(LogicalType::Int16).display
            == "smallint"@ && pg_facts(LogicalType::Int16).category == "N"@,
        pg_facts(LogicalType::Int32).name == "int4"@ && pg_facts(LogicalType::Int32).display
            == "integer"@ && pg_facts(LogicalType::Int32).category == "N"@,
        pg_facts(LogicalType::Text).name == "text"@ && pg_facts(LogicalType::Text).display
            == "text"@ && pg_facts(LogicalType::Text).category == "S"@,
        pg_facts(LogicalType::Json).name == "json"@ && pg_facts(LogicalType::Json).display
            == "json"@ && pg_facts(LogicalType::Json).category == "U"@,
        pg_facts(LogicalType::Float32).name == "float4"@ && pg_facts(LogicalType::Float32).display
            == "real"@ && pg_facts(LogicalType::Float32).category == "N"@,
        pg_facts(LogicalType::Float64).name == "float8"@ && pg_facts(LogicalType::Float64).display
            == "double precision"@ && pg_facts(LogicalType::Float64).category == "N"@,
        pg_facts(LogicalType::Date).name == "date"@ && pg_facts(LogicalType::Date).display
            == "date"@ && pg_facts(LogicalType::Date).category == "D"@,
        pg_facts(LogicalType::Time).name == "time"@ && pg_facts(LogicalType::Time).display
            == "time without time zone"@ && pg_facts(LogicalType::Time).category == "D"@,
        pg_facts(LogicalType::Timestamp).name == "timestamptz"@ && pg_facts(
            LogicalType::Timestamp,
        ).display == "timestamp with time zone"@ && pg_facts(LogicalType::Timestamp).category
            == "D"@,
        pg_facts(LogicalType::Interval).name == "interval"@ && pg_facts(
            LogicalType::Interval,
        ).display == "interval"@ && pg_facts(LogicalType::Interval).category == "T"@,
        pg_facts(LogicalType::Numeric).name == "numeric"@ && pg_facts(LogicalType::Numeric).display
            == "numeric"@ && pg_facts(LogicalType::Numeric).category == "N"@,
        pg_facts(LogicalType::Uuid).name == "uuid"@ && pg_facts(LogicalType::Uuid).display
            == "uuid"@ && pg_facts(LogicalType::Uuid).category == "U"@,
{
}

/// No two scalar types have one number, and an array type names the number of its elements'
/// type.
pub proof fn law_type_numbers_are_distinct(a: LogicalType, b: LogicalType, elem: LogicalType)
    requires
        is_scalar(a),
        is_scalar(b),
    ensures
        pg_facts(a).oid == pg_facts(b).oid ==> a == b,
        pg_facts(a).elem == 0,
        pg_facts(LogicalType::Array(Box::new(elem))).elem == pg_facts(elem).oid,
        pg_facts(LogicalType::Array(Box::new(elem))).category == "A"@,
{
    reveal_with_fuel(pg_facts, 2);
}

// --- names ---

proof fn lemma_spelled()
    ensures
        "schemata"@.len() == 8 && "schemata"@[0] == 's' && "schemata"@[3] == 'e',
        "tables"@.len() == 6 && "tables"@[0] == 't' && "tables"@[3] == 'l',
        "columns"@.len() == 7 && "columns"@[0] == 'c' && "columns"@[3] == 'u',
        "pg_database"@.len() == 11 && "pg_database"@[0] == 'p' && "pg_database"@[3] == 'd',
        "pg_namespace"@.len() == 12 && "pg_namespace"@[0] == 'p' && "pg_namespace"@[3] == 'n',
        "pg_class"@.len() == 8 && "pg_class"@[0] == 'p' && "pg_class"@[3] == 'c',
        "pg_attribute"@.len() == 12 && "pg_attribute"@[0] == 'p' && "pg_attribute"@[3] == 'a',
        "pg_type"@.len() == 7 && "pg_type"@[0] == 'p' && "pg_type"@[3] == 't',
        "pg_stats"@.len() == 8 && "pg_stats"@[0] == 'p' && "pg_stats"@[3] == 's',
        "st_database"@.len() == 11 && "st_database"@[0] == 's' && "st_database"@[3] == 'd',
        "st_namespace"@.len() == 12 && "st_namespace"@[0] == 's' && "st_namespace"@[3] == 'n',
        "st_class"@.len() == 8 && "st_class"@[0] == 's' && "st_class"@[3] == 'c',
        "st_attribute"@.len() == 12 && "st_attribute"@[0] == 's' && "st_attribute"@[3] == 'a',
        "st_type"@.len() == 7 && "st_type"@[0] == 's' && "st_type"@[3] == 't',
        "st_stats"@.len() == 8 && "st_stats"@[0] == 's' && "st_stats"@[3] == 's',
        "information_schema"@.len() == 18 && "information_schema"@[0] == 'i' && "information_schema"@[3] == 'o',
        "pg_catalog"@.len() == 10 && "pg_catalog"@[0] == 'p' && "pg_catalog"@[3] == 'c',
{
    reveal_strlit("schemata");
    reveal_strlit("tables");
    reveal_strlit("columns");
    reveal_strlit("pg_database");
    reveal_strlit("pg_namespace");
    reveal_strlit("pg_class");
    reveal_strlit("pg_attribute");
    reveal_strlit("pg_type");
    reveal_strlit("pg_stats");
    reveal_strlit("st_database");
    reveal_strlit("st_namespace");
    reveal_strlit("st_class");
    reveal_strlit("st_attribute");
    reveal_strlit("st_type");
    reveal_strlit("st_stats");
    reveal_strlit("information_schema");
    reveal_strlit("pg_catalog");
}

/// The names of the system relations: the standard views under `information_schema` alone, the
/// others, with `pg_` or `st_` before them, under `pg_catalog` or without a dataset. Under any
/// other dataset there are none.
pub proof fn law_system_relations_go_by_their_names(dataset: Option<Seq<char>>)
    ensures
        ({
            let info = dataset == Some("information_schema"@);
            let pg = dataset is None || dataset == Some("pg_catalog"@);
            &&& resolved(dataset, "schemata"@) == if info {
                Some(SystemRelation::InfoSchemata)
            } else {
                None
            }
            &&& resolved(dataset, "tables"@) == if info {
                Some(SystemRelation::InfoTables)
            } else {
                None
            }
            &&& resolved(dataset, "columns"@) == if info {
                Some(SystemRelation::InfoColumns)
            } else {
                None
            }
            &&& resolved(dataset, "pg_database"@) == if pg {
                Some(SystemRelation::Database)
            } else {
                None
            }
            &&& resolved(dataset, "st_database"@) == if pg {
                Some(SystemRelation::Database)
            } else {
                None
            }
            &&& resolved(dataset, "pg_namespace"@) == if pg {
                Some(SystemRelation::Namespace)
            } else {
                None
            }
            &&& resolved(dataset, "st_namespace"@) == if pg {
                Some(SystemRelation::Namespace)
            } else {
                None
            }
            &&& resolved(dataset, "pg_class"@) == if pg {
                Some(SystemRelation::Class)
            } else {
                None
            }
            &&& resolved(dataset, "st_class"@) == if pg {
                Some(SystemRelation::Class)
            } else {
                None
            }
            &&& resolved(dataset, "pg_attribute"@) == if pg {
                Some(SystemRelation::Attribute)
            } else {
                None
            }
            &&& resolved(dataset, "st_attribute"@) == if pg {
                Some(SystemRelation::Attribute)
            } else {
                None
            }
            &&& resolved(dataset, "pg_type"@) == if pg {
                Some(SystemRelation::Type)
            } else {
                None
            }
            &&& resolved(dataset, "st_type"@) == if pg {
                Some(SystemRelation::Type)
            } else {
                None
            }
            &&& resolved(dataset, "pg_stats"@) == if pg {
                Some(SystemRelation::Stats)
            } else {
                None
            }
            &&& resolved(dataset, "st_stats"@) == if pg {
                Some(SystemRelation::Stats)
            } else {
                None
            }
        }),
{
    lemma_spelled();
}

/// Whether the columns of a relation have the given names, in order, and take nulls.
pub open spec fn has_columns(relation: SystemRelation, names: Seq<Seq<char>>) -> bool {
    &&& relation_schema(relation).len() == names.len()
    &&& forall|i: int|
        0 <= i < names.len() ==> (#[trigger] relation_schema(relation)[i]).name == names[i]
            && relation_schema(relation)[i].nullable && relation_schema(relation)[i].default is None
}

/// The names of the columns of the system relations.
pub proof fn law_system_columns_have_their_names()
    ensures
        has_columns(
            SystemRelation::InfoSchemata,
            seq!["catalog_name"@, "schema_name"@, "schema_owner"@],
        ),
        has_columns(
            SystemRelation::InfoTables,
            seq!["table_catalog"@, "table_schema"@, "table_name"@, "table_type"@],
        ),
        has_columns(
            SystemRelation::InfoColumns,
            seq!["table_catalog"@, "table_schema"@, "table_name"@, "column_name"@, "ordinal_position"@, "column_default"@, "is_nullable"@, "data_type"@, "udt_name"@],
        ),
        has_columns(
            SystemRelation::Database,
            seq!["oid"@, "datname"@],
        ),
        has_columns(
            SystemRelation::Namespace,
            seq!["oid"@, "nspname"@, "nspowner"@],
        ),
        has_columns(
            SystemRelation::Class,
            seq!["oid"@, "relname"@, "relnamespace"@, "relkind"@, "relnatts"@, "relhasindex"@, "reltuples"@],
        ),
        has_columns(
            SystemRelation::Attribute,
            seq!["attrelid"@, "attname"@, "atttypid"@, "attnum"@, "attnotnull"@, "atthasdef"@, "attisdropped"@],
        ),
        has_columns(
            SystemRelation::Type,
            seq!["oid"@, "typname"@, "typlen"@, "typtype"@, "typcategory"@, "typelem"@],
        ),
        has_columns(
            SystemRelation::Stats,
            seq!["schemaname"@, "tablename"@, "attname"@, "null_frac"@, "avg_width"@, "n_distinct"@, "most_common_vals"@, "most_common_freqs"@, "histogram_bounds"@, "correlation"@],
        ),
{
}

} // verus!
