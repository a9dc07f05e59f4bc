//! System relations: the virtual `information_schema.*`, `pg_catalog.*` and `st_*` relations
//! that SQL tools read on connect. Their rows are not stored but made from the catalog when
//! they are read. A `pg_*` name and the `st_*` name beside it stand for one relation.

use vstd::prelude::*;

use super::ids::ProjectId;
use super::keys::{dataset_scope_path, project_scope_path};
use super::meta::{
    ColumnStats, DatasetMeta, DatasetRow, ProjectMeta, ProjectRow, StatsRow, TableMeta, TableRow,
};
use super::state::{live_rows, Catalog, CatalogModel};
use super::store::{models, scanned};
use crate::storage::codec::roundtrip::has_type;
use crate::storage::text::str_eq;
use crate::storage::types::{
    data_of, fields_of, rows_of, Datum, Field, FieldModel, LogicalType, Schema, Tuple, Uuid, Value,
};

verus! {

// --- types as PostgreSQL has them ---

/// What PostgreSQL knows of a type.
pub struct PgType {
    pub oid: i64,
    /// The type's name, such as `int4`.
    pub name: &'static str,
    /// The name that the standard views show, such as `integer`.
    pub display: &'static str,
    /// Length in bytes, or -1 where it varies.
    pub len: i64,
    pub category: &'static str,
    /// The element type's OID, or 0 for a type that is no array.
    pub elem: i64,
}

/// What a [`PgType`] is, mathematically.
pub struct PgFacts {
    pub oid: int,
    pub name: Seq<char>,
    pub display: Seq<char>,
    pub len: int,
    pub category: Seq<char>,
    pub elem: int,
}

impl View for PgType {
    type V = PgFacts;

    open spec fn view(&self) -> PgFacts {
        PgFacts {
            oid: self.oid as int,
            name: self.name@,
            display: self.display@,
            len: self.len as int,
            category: self.category@,
            elem: self.elem as int,
        }
    }
}

/// The facts of a type that is no array.
pub open spec fn base_facts(
    oid: int,
    name: Seq<char>,
    display: Seq<char>,
    len: int,
    category: Seq<char>,
) -> PgFacts {
    PgFacts { oid, name, display, len, category, elem: 0 }
}

/// The array type's OID of an element type's OID; `anyarray` where there is none.
pub open spec fn array_oid_of(elem: int) -> int {
    if elem == 16 {
        1000
    } else if elem == 17 {
        1001
    } else if elem == 20 {
        1016
    } else if elem == 21 {
        1005
    } else if elem == 23 {
        1007
    } else if elem == 25 {
        1009
    } else if elem == 700 {
        1021
    } else if elem == 701 {
        1022
    } else if elem == 1082 {
        1182
    } else if elem == 1083 {
        1183
    } else if elem == 1184 {
        1185
    } else if elem == 1700 {
        1231
    } else if elem == 2950 {
        2951
    } else {
        2277
    }
}

/// What PostgreSQL knows of a logical type.
pub open spec fn pg_facts(ty: LogicalType) -> PgFacts
    decreases ty,
{
    match ty {
        LogicalType::Bool => base_facts(16, "bool"@, "boolean"@, 1, "B"@),
        LogicalType::Bytes => base_facts(17, "bytea"@, "bytea"@, -1, "U"@),
        LogicalType::Int64 => base_facts(20, "int8"@, "bigint"@, 8, "N"@),
        LogicalType::Int16 => base_facts(21, "int2"@, "smallint"@, 2, "N"@),
        LogicalType::Int32 => base_facts(23, "int4"@, "integer"@, 4, "N"@),
        LogicalType::Text => base_facts(25, "text"@, "text"@, -1, "S"@),
        LogicalType::Json => base_facts(114, "json"@, "json"@, -1, "U"@),
        LogicalType::Float32 => base_facts(700, "float4"@, "real"@, 4, "N"@),
        LogicalType::Float64 => base_facts(701, "float8"@, "double precision"@, 8, "N"@),
        LogicalType::Date => base_facts(1082, "date"@, "date"@, 4, "D"@),
        LogicalType::Time => base_facts(1083, "time"@, "time without time zone"@, 8, "D"@),
        LogicalType::Timestamp => base_facts(
            1184,
            "timestamptz"@,
            "timestamp with time zone"@,
            8,
            "D"@,
        ),
        LogicalType::Interval => base_facts(1186, "interval"@, "interval"@, 16, "T"@),
        LogicalType::Numeric => base_facts(1700, "numeric"@, "numeric"@, -1, "N"@),
        LogicalType::Uuid => base_facts(2950, "uuid"@, "uuid"@, 16, "U"@),
        LogicalType::Array(elem) => PgFacts {
            oid: array_oid_of(pg_facts(*elem).oid),
            name: "array"@,
            display: "ARRAY"@,
            len: -1,
            category: "A"@,
            elem: pg_facts(*elem).oid,
        },
    }
}

fn base(
    oid: i64,
    name: &'static str,
    display: &'static str,
    len: i64,
    category: &'static str,
) -> (r: PgType)
    ensures
        r@ == base_facts(oid as int, name@, display@, len as int, category@),
{
    PgType { oid, name, display, len, category, elem: 0 }
}

/// The array type's OID of an element type's OID.
pub fn array_oid(elem_oid: i64) -> (r: i64)
    ensures
        r == array_oid_of(elem_oid as int),
{
    match elem_oid {
        16 => 1000,
        17 => 1001,
        20 => 1016,
        21 => 1005,
        23 => 1007,
        25 => 1009,
        700 => 1021,
        701 => 1022,
        1082 => 1182,
        1083 => 1183,
        1184 => 1185,
        1700 => 1231,
        2950 => 2951,
        _ => 2277,
    }
}

/// What PostgreSQL knows of a logical type.
pub fn pg_type(ty: &LogicalType) -> (r: PgType)
    ensures
        r@ == pg_facts(*ty),
    decreases ty,
{
    match ty {
        LogicalType::Bool => base(16, "bool", "boolean", 1, "B"),
        LogicalType::Bytes => base(17, "bytea", "bytea", -1, "U"),
        LogicalType::Int64 => base(20, "int8", "bigint", 8, "N"),
        LogicalType::Int16 => base(21, "int2", "smallint", 2, "N"),
        LogicalType::Int32 => base(23, "int4", "integer", 4, "N"),
        LogicalType::Text => base(25, "text", "text", -1, "S"),
        LogicalType::Json => base(114, "json", "json", -1, "U"),
        LogicalType::Float32 => base(700, "float4", "real", 4, "N"),
        LogicalType::Float64 => base(701, "float8", "double precision", 8, "N"),
        LogicalType::Date => base(1082, "date", "date", 4, "D"),
        LogicalType::Time => base(1083, "time", "time without time zone", 8, "D"),
        LogicalType::Timestamp => base(1184, "timestamptz", "timestamp with time zone", 8, "D"),
        LogicalType::Interval => base(1186, "interval", "interval", 16, "T"),
        LogicalType::Numeric => base(1700, "numeric", "numeric", -1, "N"),
        LogicalType::Uuid => base(2950, "uuid", "uuid", 16, "U"),
        LogicalType::Array(elem) => {
            let inner = pg_type(elem);
            PgType {
                oid: array_oid(inner.oid),
                name: "array",
                display: "ARRAY",
                len: -1,
                category: "A",
                elem: inner.oid,
            }
        },
    }
}

/// The types that the type relation lists.
pub open spec fn base_type_list() -> Seq<LogicalType> {
    seq![
        LogicalType::Bool,
        LogicalType::Bytes,
        LogicalType::Int64,
        LogicalType::Int16,
        LogicalType::Int32,
        LogicalType::Text,
        LogicalType::Json,
        LogicalType::Float32,
        LogicalType::Float64,
        LogicalType::Date,
        LogicalType::Time,
        LogicalType::Timestamp,
        LogicalType::Interval,
        LogicalType::Numeric,
        LogicalType::Uuid,
    ]
}

fn base_types() -> (r: Vec<LogicalType>)
    ensures
        r@ == base_type_list(),
{
    let r = vec![
        LogicalType::Bool,
        LogicalType::Bytes,
        LogicalType::Int64,
        LogicalType::Int16,
        LogicalType::Int32,
        LogicalType::Text,
        LogicalType::Json,
        LogicalType::Float32,
        LogicalType::Float64,
        LogicalType::Date,
        LogicalType::Time,
        LogicalType::Timestamp,
        LogicalType::Interval,
        LogicalType::Numeric,
        LogicalType::Uuid,
    ];
    assert(r@ =~= base_type_list());
    r
}

/// An object's OID: the low 31 bits of its UUID.
pub fn oid_of(uuid: Uuid) -> (r: i64)
    ensures
        r == uuid.value % 0x8000_0000,
{
    (uuid.value % 0x8000_0000) as i64
}

/// An object's OID.
pub open spec fn oid(uuid: Uuid) -> Datum {
    Datum::Int64((uuid.value % 0x8000_0000) as i64)
}

// --- the relations ---

/// A virtual catalog relation.
#[derive(Debug, Clone, Copy, PartialEq, Eq, Structural)]
pub enum SystemRelation {
    InfoSchemata,
    InfoTables,
    InfoColumns,
    Database,
    Namespace,
    Class,
    Attribute,
    Type,
    Stats,
}

/// The relation that a name stands for. The standard views want their dataset named; the
/// others go without one, or under `pg_catalog`.
pub open spec fn resolved(dataset: Option<Seq<char>>, table: Seq<char>) -> Option<SystemRelation> {
    let in_info = dataset == Some("information_schema"@);
    let pg_ok = dataset is None || dataset == Some("pg_catalog"@);
    if table == "schemata"@ && in_info {
        Some(SystemRelation::InfoSchemata)
    } else if table == "tables"@ && in_info {
        Some(SystemRelation::InfoTables)
    } else if table == "columns"@ && in_info {
        Some(SystemRelation::InfoColumns)
    } else if (table == "pg_database"@ || table == "st_database"@) && pg_ok {
        Some(SystemRelation::Database)
    } else if (table == "pg_namespace"@ || table == "st_namespace"@) && pg_ok {
        Some(SystemRelation::Namespace)
    } else if (table == "pg_class"@ || table == "st_class"@) && pg_ok {
        Some(SystemRelation::Class)
    } else if (table == "pg_attribute"@ || table == "st_attribute"@) && pg_ok {
        Some(SystemRelation::Attribute)
    } else if (table == "pg_type"@ || table == "st_type"@) && pg_ok {
        Some(SystemRelation::Type)
    } else if (table == "pg_stats"@ || table == "st_stats"@) && pg_ok {
        Some(SystemRelation::Stats)
    } else {
        None
    }
}

/// A nullable column without a default.
pub open spec fn col(name: Seq<char>, ty: LogicalType) -> FieldModel {
    FieldModel { name, ty, nullable: true, default: None }
}

/// The columns of a relation.
pub open spec fn relation_schema(relation: SystemRelation) -> Seq<FieldModel> {
    match relation {
        SystemRelation::InfoSchemata => seq![
            col("catalog_name"@, LogicalType::Text),
            col("schema_name"@, LogicalType::Text),
            col("schema_owner"@, LogicalType::Text),
        ],
        SystemRelation::InfoTables => seq![
            col("table_catalog"@, LogicalType::Text),
            col("table_schema"@, LogicalType::Text),
            col("table_name"@, LogicalType::Text),
            col("table_type"@, LogicalType::Text),
        ],
        SystemRelation::InfoColumns => seq![
            col("table_catalog"@, LogicalType::Text),
            col("table_schema"@, LogicalType::Text),
            col("table_name"@, LogicalType::Text),
            col("column_name"@, LogicalType::Text),
            col("ordinal_position"@, LogicalType::Int32),
            col("column_default"@, LogicalType::Text),
            col("is_nullable"@, LogicalType::Text),
            col("data_type"@, LogicalType::Text),
            col("udt_name"@, LogicalType::Text),
        ],
        SystemRelation::Database => seq![
            col("oid"@, LogicalType::Int64),
            col("datname"@, LogicalType::Text),
        ],
        SystemRelation::Namespace => seq![
            col("oid"@, LogicalType::Int64),
            col("nspname"@, LogicalType::Text),
            col("nspowner"@, LogicalType::Text),
        ],
        SystemRelation::Class => seq![
            col("oid"@, LogicalType::Int64),
            col("relname"@, LogicalType::Text),
            col("relnamespace"@, LogicalType::Int64),
            col("relkind"@, LogicalType::Text),
            col("relnatts"@, LogicalType::Int32),
            col("relhasindex"@, LogicalType::Bool),
            col("reltuples"@, LogicalType::Int64),
        ],
        SystemRelation::Attribute => seq![
            col("attrelid"@, LogicalType::Int64),
            col("attname"@, LogicalType::Text),
            col("atttypid"@, LogicalType::Int64),
            col("attnum"@, LogicalType::Int32),
            col("attnotnull"@, LogicalType::Bool),
            col("atthasdef"@, LogicalType::Bool),
            col("attisdropped"@, LogicalType::Bool),
        ],
        SystemRelation::Type => seq![
            col("oid"@, LogicalType::Int64),
            col("typname"@, LogicalType::Text),
            col("typlen"@, LogicalType::Int32),
            col("typtype"@, LogicalType::Text),
            col("typcategory"@, LogicalType::Text),
            col("typelem"@, LogicalType::Int64),
        ],
        SystemRelation::Stats => seq![
            col("schemaname"@, LogicalType::Text),
            col("tablename"@, LogicalType::Text),
            col("attname"@, LogicalType::Text),
            col("null_frac"@, LogicalType::Float32),
            col("avg_width"@, LogicalType::Int32),
            col("n_distinct"@, LogicalType::Float32),
            col("most_common_vals"@, LogicalType::Text),
            col("most_common_freqs"@, LogicalType::Text),
            col("histogram_bounds"@, LogicalType::Text),
            col("correlation"@, LogicalType::Float32),
        ],
    }
}

// --- what the relations list ---

/// The projects that users see: all but the catalog's own.
pub open spec fn user_project_list(projects: Seq<ProjectRow>, system: ProjectId) -> Seq<ProjectRow>
    decreases projects.len(),
{
    if projects.len() == 0 {
        Seq::empty()
    } else {
        let before = user_project_list(projects.drop_last(), system);
        if projects.last().id != system {
            before.push(projects.last())
        } else {
            before
        }
    }
}

/// The projects that users see.
pub open spec fn visible_projects(m: CatalogModel) -> Seq<ProjectRow> {
    user_project_list(scanned(m.projects, Seq::empty()), m.system_project)
}

/// The datasets of a list of projects.
pub open spec fn namespace_list(m: CatalogModel, projects: Seq<ProjectRow>) -> Seq<
    (ProjectRow, DatasetRow),
>
    decreases projects.len(),
{
    if projects.len() == 0 {
        Seq::empty()
    } else {
        let p = projects.last();
        let datasets = scanned(m.datasets, project_scope_path(p.id));
        namespace_list(m, projects.drop_last()) + Seq::new(
            datasets.len(),
            |i: int| (p, datasets[i]),
        )
    }
}

/// The live tables of a list of datasets.
pub open spec fn table_list(m: CatalogModel, spaces: Seq<(ProjectRow, DatasetRow)>) -> Seq<
    (ProjectRow, DatasetRow, TableRow),
>
    decreases spaces.len(),
{
    if spaces.len() == 0 {
        Seq::empty()
    } else {
        let (p, d) = spaces.last();
        let all = scanned(m.tables, dataset_scope_path(p.id, d.id));
        let tables = live_rows(all, all.len());
        table_list(m, spaces.drop_last()) + Seq::new(tables.len(), |i: int| (p, d, tables[i]))
    }
}

/// The columns of a list of tables, each with its position.
pub open spec fn column_list(tables: Seq<(ProjectRow, DatasetRow, TableRow)>) -> Seq<
    (ProjectRow, DatasetRow, TableRow, nat),
>
    decreases tables.len(),
{
    if tables.len() == 0 {
        Seq::empty()
    } else {
        let (p, d, t) = tables.last();
        column_list(tables.drop_last()) + Seq::new(t.schema.len(), |i: int| (p, d, t, i as nat))
    }
}

/// The rows of the type relation.
pub open spec fn type_row(ty: LogicalType) -> Seq<Datum> {
    let pg = pg_facts(ty);
    seq![
        Datum::Int64(pg.oid as i64),
        Datum::Text(pg.name),
        Datum::Int32(pg.len as i32),
        Datum::Text("b"@),
        Datum::Text(pg.category),
        Datum::Int64(pg.elem as i64),
    ]
}

pub open spec fn stats_row(s: StatsRow) -> Seq<Datum> {
    seq![
        Datum::Text(s.schemaname),
        Datum::Text(s.tablename),
        Datum::Text(s.attname),
        Datum::Float32(s.null_frac),
        Datum::Int32(s.avg_width),
        Datum::Float32(s.n_distinct),
        Datum::Text(s.most_common_vals),
        Datum::Text(s.most_common_freqs),
        Datum::Text(s.histogram_bounds),
        Datum::Float32(s.correlation),
    ]
}

pub open spec fn schemata_row(p: ProjectRow, d: DatasetRow) -> Seq<Datum> {
    seq![Datum::Text(p.name), Datum::Text(d.name), Datum::Text("strata"@)]
}

pub open spec fn database_row(p: ProjectRow) -> Seq<Datum> {
    seq![oid(p.id.0), Datum::Text(p.name)]
}

pub open spec fn namespace_row(d: DatasetRow) -> Seq<Datum> {
    seq![oid(d.id.0), Datum::Text(d.name), Datum::Text("strata"@)]
}

pub open spec fn info_table_row(p: ProjectRow, d: DatasetRow, t: TableRow) -> Seq<Datum> {
    seq![
        Datum::Text(p.name),
        Datum::Text(d.name),
        Datum::Text(t.name),
        Datum::Text("BASE TABLE"@),
    ]
}

/// The row count of a table is not known: -1.
pub open spec fn class_row(d: DatasetRow, t: TableRow) -> Seq<Datum> {
    seq![
        oid(t.id.0),
        Datum::Text(t.name),
        oid(d.id.0),
        Datum::Text("r"@),
        Datum::Int32(t.schema.len() as i32),
        Datum::Bool(t.indexes.len() > 0),
        Datum::Int64(-1i64),
    ]
}

/// The text of a default is not shown: null.
pub open spec fn info_column_row(p: ProjectRow, d: DatasetRow, t: TableRow, i: nat) -> Seq<Datum> {
    let c = t.schema[i as int];
    let pg = pg_facts(c.ty);
    seq![
        Datum::Text(p.name),
        Datum::Text(d.name),
        Datum::Text(t.name),
        Datum::Text(c.name),
        Datum::Int32((i + 1) as i32),
        Datum::Null,
        Datum::Text(
            if c.nullable {
                "YES"@
            } else {
                "NO"@
            },
        ),
        Datum::Text(pg.display),
        Datum::Text(pg.name),
    ]
}

pub open spec fn attribute_row(t: TableRow, i: nat) -> Seq<Datum> {
    let c = t.schema[i as int];
    seq![
        oid(t.id.0),
        Datum::Text(c.name),
        Datum::Int64(pg_facts(c.ty).oid as i64),
        Datum::Int32((i + 1) as i32),
        Datum::Bool(!c.nullable),
        Datum::Bool(c.default is Some),
        Datum::Bool(false),
    ]
}

/// The rows of a relation.
pub open spec fn relation_rows(relation: SystemRelation, m: CatalogModel) -> Seq<Seq<Datum>> {
    let projects = visible_projects(m);
    let spaces = namespace_list(m, projects);
    let tables = table_list(m, spaces);
    let columns = column_list(tables);
    let stats = scanned(m.stats, Seq::empty());
    match relation {
        SystemRelation::Type => Seq::new(
            base_type_list().len(),
            |i: int| type_row(base_type_list()[i]),
        ),
        SystemRelation::Stats => Seq::new(stats.len(), |i: int| stats_row(stats[i])),
        SystemRelation::InfoSchemata => Seq::new(
            spaces.len(),
            |i: int| schemata_row(spaces[i].0, spaces[i].1),
        ),
        SystemRelation::Database => Seq::new(projects.len(), |i: int| database_row(projects[i])),
        SystemRelation::Namespace => Seq::new(spaces.len(), |i: int| namespace_row(spaces[i].1)),
        SystemRelation::InfoTables => Seq::new(
            tables.len(),
            |i: int| info_table_row(tables[i].0, tables[i].1, tables[i].2),
        ),
        SystemRelation::Class => Seq::new(
            tables.len(),
            |i: int| class_row(tables[i].1, tables[i].2),
        ),
        SystemRelation::InfoColumns => Seq::new(
            columns.len(),
            |i: int| info_column_row(columns[i].0, columns[i].1, columns[i].2, columns[i].3),
        ),
        SystemRelation::Attribute => Seq::new(
            columns.len(),
            |i: int| attribute_row(columns[i].2, columns[i].3),
        ),
    }
}

// --- executable enumeration ---

struct Space {
    project: ProjectMeta,
    dataset: DatasetMeta,
}

struct Entry {
    project: ProjectMeta,
    dataset: DatasetMeta,
    table: TableMeta,
}

spec fn spaces_of(v: Seq<Space>) -> Seq<(ProjectRow, DatasetRow)> {
    Seq::new(v.len(), |i: int| (v[i].project@, v[i].dataset@))
}

spec fn entries_of(v: Seq<Entry>) -> Seq<(ProjectRow, DatasetRow, TableRow)> {
    Seq::new(v.len(), |i: int| (v[i].project@, v[i].dataset@, v[i].table@))
}

/// The projects that users see.
pub fn user_projects(catalog: &Catalog) -> (r: Vec<ProjectMeta>)
    ensures
        models(r@) == visible_projects(catalog@),
{
    let all = catalog.list_projects();
    let system = catalog.system_project();
    let ghost rows = models(all@);
    let mut out: Vec<ProjectMeta> = Vec::new();
    let mut i: usize = 0;
    assert(models(out@) =~= Seq::<ProjectRow>::empty());
    assert(rows.take(0) =~= Seq::<ProjectRow>::empty());
    while i < all.len()
        invariant
            i <= all@.len(),
            rows == models(all@),
            models(out@) == user_project_list(rows.take(i as int), system),
        decreases all@.len() - i,
    {
        let ghost before = models(out@);
        assert(rows.take(i + 1).drop_last() =~= rows.take(i as int));
        assert(rows.take(i + 1).last() == rows[i as int]);
        assert(rows[i as int] == all@[i as int]@);
        if all[i].id != system {
            let copy = all[i].clone();
            out.push(copy);
            assert(models(out@) =~= before.push(copy@));
        }
        i = i + 1;
    }
    assert(rows.take(rows.len() as int) =~= rows);
    out
}

/// Every dataset of every project that users see.
fn namespaces(catalog: &Catalog) -> (r: Vec<Space>)
    ensures
        spaces_of(r@) == namespace_list(catalog@, visible_projects(catalog@)),
{
    let projects = user_projects(catalog);
    let ghost rows = models(projects@);
    let mut out: Vec<Space> = Vec::new();
    let mut i: usize = 0;
    assert(spaces_of(out@) =~= Seq::<(ProjectRow, DatasetRow)>::empty());
    assert(rows.take(0) =~= Seq::<ProjectRow>::empty());
    while i < projects.len()
        invariant
            i <= projects@.len(),
            rows == models(projects@),
            spaces_of(out@) == namespace_list(catalog@, rows.take(i as int)),
        decreases projects@.len() - i,
    {
        let ghost before = spaces_of(out@);
        assert(rows.take(i + 1).drop_last() =~= rows.take(i as int));
        assert(rows.take(i + 1).last() == rows[i as int]);
        let p = &projects[i];
        assert(rows[i as int] == p@);
        let datasets = catalog.list_datasets(p.id);
        let ghost ds = models(datasets@);
        let mut j: usize = 0;
        assert(spaces_of(out@) =~= before + Seq::new(0, |k: int| (p@, ds[k])));
        while j < datasets.len()
            invariant
                j <= datasets@.len(),
                ds == models(datasets@),
                spaces_of(out@) == before + Seq::new(j as nat, |k: int| (p@, ds[k])),
            decreases datasets@.len() - j,
        {
            let ghost was = spaces_of(out@);
            let space = Space { project: p.clone(), dataset: datasets[j].clone() };
            out.push(space);
            assert(ds[j as int] == datasets@[j as int]@);
            assert(spaces_of(out@) =~= was.push((p@, ds[j as int])));
            assert(spaces_of(out@) =~= before + Seq::new((j + 1) as nat, |k: int| (p@, ds[k])));
            j = j + 1;
        }
        assert(spaces_of(out@) =~= namespace_list(catalog@, rows.take(i + 1)));
        i = i + 1;
    }
    assert(rows.take(rows.len() as int) =~= rows);
    out
}

/// Every live table of every dataset that users see.
fn tables(catalog: &Catalog) -> (r: Vec<Entry>)
    ensures
        entries_of(r@) == table_list(
            catalog@,
            namespace_list(catalog@, visible_projects(catalog@)),
        ),
{
    let spaces = namespaces(catalog);
    let ghost rows = spaces_of(spaces@);
    let mut out: Vec<Entry> = Vec::new();
    let mut i: usize = 0;
    assert(entries_of(out@) =~= Seq::<(ProjectRow, DatasetRow, TableRow)>::empty());
    assert(rows.take(0) =~= Seq::<(ProjectRow, DatasetRow)>::empty());
    while i < spaces.len()
        invariant
            i <= spaces@.len(),
            rows == spaces_of(spaces@),
            entries_of(out@) == table_list(catalog@, rows.take(i as int)),
        decreases spaces@.len() - i,
    {
        let ghost before = entries_of(out@);
        assert(rows.take(i + 1).drop_last() =~= rows.take(i as int));
        assert(rows.take(i + 1).last() == rows[i as int]);
        let p = &spaces[i].project;
        let d = &spaces[i].dataset;
        assert(rows[i as int] == (p@, d@));
        let live = catalog.list_tables(p.id, d.id);
        let ghost ts = models(live@);
        let mut j: usize = 0;
        assert(entries_of(out@) =~= before + Seq::new(0, |k: int| (p@, d@, ts[k])));
        while j < live.len()
            invariant
                j <= live@.len(),
                ts == models(live@),
                entries_of(out@) == before + Seq::new(j as nat, |k: int| (p@, d@, ts[k])),
            decreases live@.len() - j,
        {
            let ghost was = entries_of(out@);
            let entry = Entry { project: p.clone(), dataset: d.clone(), table: live[j].clone() };
            out.push(entry);
            assert(ts[j as int] == live@[j as int]@);
            assert(entries_of(out@) =~= was.push((p@, d@, ts[j as int])));
            assert(entries_of(out@) =~= before + Seq::new(
                (j + 1) as nat,
                |k: int| (p@, d@, ts[k]),
            ));
            j = j + 1;
        }
        assert(entries_of(out@) =~= table_list(catalog@, rows.take(i + 1)));
        i = i + 1;
    }
    assert(rows.take(rows.len() as int) =~= rows);
    out
}

fn type_rows() -> (r: Vec<Tuple>)
    ensures
        rows_of(r@) == Seq::new(base_type_list().len(), |i: int| type_row(base_type_list()[i])),
{
    let types = base_types();
    let mut out: Vec<Tuple> = Vec::new();
    let mut i: usize = 0;
    while i < types.len()
        invariant
            i <= types@.len(),
            types@ == base_type_list(),
            out@.len() == i,
            forall|j: int| 0 <= j < i ==> (#[trigger] out@[j])@ == type_row(types@[j]),
        decreases types@.len() - i,
    {
        let pg = pg_type(&types[i]);
        let values = vec![
            Value::Int64(pg.oid),
            Value::text(pg.name),
            Value::Int32(pg.len as i32),
            Value::text("b"),
            Value::text(pg.category),
            Value::Int64(pg.elem),
        ];
        assert(data_of(values@) =~= type_row(types@[i as int]));
        out.push(Tuple { values });
        i = i + 1;
    }
    assert(rows_of(out@) =~= Seq::new(
        base_type_list().len(),
        |i: int| type_row(base_type_list()[i]),
    ));
    out
}

impl ColumnStats {
    /// The statistics as a row of the statistics relation.
    pub fn to_row(&self) -> (r: Tuple)
        ensures
            r@ == stats_row(self@),
    {
        let values = vec![
            Value::text(self.schemaname.as_str()),
            Value::text(self.tablename.as_str()),
            Value::text(self.attname.as_str()),
            Value::Float32(self.null_frac),
            Value::Int32(self.avg_width),
            Value::Float32(self.n_distinct),
            Value::text(self.most_common_vals.as_str()),
            Value::text(self.most_common_freqs.as_str()),
            Value::text(self.histogram_bounds.as_str()),
            Value::Float32(self.correlation),
        ];
        assert(data_of(values@) =~= stats_row(self@));
        Tuple { values }
    }
}

/// The row of one column of a table, for the standard view or for the attribute relation.
fn column_row(entry: &Entry, i: usize, standard: bool) -> (r: Tuple)
    requires
        i < entry.table.schema.fields@.len(),
    ensures
        r@ == if standard {
            info_column_row(entry.project@, entry.dataset@, entry.table@, i as nat)
        } else {
            attribute_row(entry.table@, i as nat)
        },
{
    let count: usize = entry.table.schema.fields.len();
    let c = &entry.table.schema.fields[i];
    let pg = pg_type(&c.ty);
    assert(i < count);
    assert(entry.table@.schema[i as int] == c@);
    let values = if standard {
        vec![
            Value::text(entry.project.name.as_str()),
            Value::text(entry.dataset.name.as_str()),
            Value::text(entry.table.name.as_str()),
            Value::text(c.name.as_str()),
            Value::Int32((i + 1) as i32),
            Value::Null,
            Value::text(
                if c.nullable {
                    "YES"
                } else {
                    "NO"
                },
            ),
            Value::text(pg.display),
            Value::text(pg.name),
        ]
    } else {
        vec![
            Value::Int64(oid_of(entry.table.id.0)),
            Value::text(c.name.as_str()),
            Value::Int64(pg.oid),
            Value::Int32((i + 1) as i32),
            Value::Bool(!c.nullable),
            Value::Bool(c.default.is_some()),
            Value::Bool(false),
        ]
    };
    proof {
        if standard {
            assert(data_of(values@) =~= info_column_row(
                entry.project@,
                entry.dataset@,
                entry.table@,
                i as nat,
            ));
        } else {
            assert(data_of(values@) =~= attribute_row(entry.table@, i as nat));
        }
    }
    Tuple { values }
}

/// The row that one column stands for.
spec fn column_datum(
    c: (ProjectRow, DatasetRow, TableRow, nat),
    standard: bool,
) -> Seq<Datum> {
    if standard {
        info_column_row(c.0, c.1, c.2, c.3)
    } else {
        attribute_row(c.2, c.3)
    }
}

/// The rows of every column of every table that users see.
fn columns(catalog: &Catalog, standard: bool) -> (r: Vec<Tuple>)
    ensures
        rows_of(r@) == ({
            let list = column_list(
                table_list(catalog@, namespace_list(catalog@, visible_projects(catalog@))),
            );
            Seq::new(list.len(), |i: int| column_datum(list[i], standard))
        }),
{
    let entries = tables(catalog);
    let ghost rows = entries_of(entries@);
    let mut out: Vec<Tuple> = Vec::new();
    let mut i: usize = 0;
    assert(rows.take(0) =~= Seq::<(ProjectRow, DatasetRow, TableRow)>::empty());
    assert(rows_of(out@) =~= Seq::new(
        column_list(rows.take(0)).len(),
        |k: int| column_datum(column_list(rows.take(0))[k], standard),
    ));
    while i < entries.len()
        invariant
            i <= entries@.len(),
            rows == entries_of(entries@),
            rows_of(out@) == ({
                let list = column_list(rows.take(i as int));
                Seq::new(list.len(), |k: int| column_datum(list[k], standard))
            }),
        decreases entries@.len() - i,
    {
        let ghost list = column_list(rows.take(i as int));
        let ghost grown = column_list(rows.take(i + 1));
        let ghost before = rows_of(out@);
        assert(rows.take(i + 1).drop_last() =~= rows.take(i as int));
        assert(rows.take(i + 1).last() == rows[i as int]);
        let entry = &entries[i];
        let ghost (p, d, t) = rows[i as int];
        assert(rows[i as int] == (entry.project@, entry.dataset@, entry.table@));
        let mut j: usize = 0;
        assert(t.schema.len() == entry.table.schema.fields@.len());
        assert(rows_of(out@) =~= before + Seq::new(
            0,
            |k: int| column_datum((p, d, t, k as nat), standard),
        ));
        while j < entry.table.schema.fields.len()
            invariant
                j <= entry.table.schema.fields@.len(),
                p == entry.project@,
                d == entry.dataset@,
                t == entry.table@,
                rows_of(out@) == before + Seq::new(
                    j as nat,
                    |k: int| column_datum((p, d, t, k as nat), standard),
                ),
            decreases entry.table.schema.fields@.len() - j,
        {
            let ghost was = rows_of(out@);
            let row = column_row(entry, j, standard);
            out.push(row);
            assert(rows_of(out@) =~= was.push(row@));
            assert(rows_of(out@) =~= before + Seq::new(
                (j + 1) as nat,
                |k: int| column_datum((p, d, t, k as nat), standard),
            ));
            j = j + 1;
        }
        assert(rows_of(out@) =~= Seq::new(
            grown.len(),
            |k: int| column_datum(grown[k], standard),
        ));
        i = i + 1;
    }
    assert(rows.take(rows.len() as int) =~= rows);
    out
}

impl SystemRelation {
    /// The relation that a name stands for, if any.
    pub fn resolve(dataset: Option<&str>, table: &str) -> (r: Option<SystemRelation>)
        ensures
            r == resolved(
                match dataset {
                    Some(d) => Some(d@),
                    None => None,
                },
                table@,
            ),
    {
        let in_info: bool = match dataset {
            Some(d) => str_eq(d, "information_schema"),
            None => false,
        };
        let pg_ok: bool = match dataset {
            Some(d) => str_eq(d, "pg_catalog"),
            None => true,
        };
        if in_info && str_eq(table, "schemata") {
            Some(SystemRelation::InfoSchemata)
        } else if in_info && str_eq(table, "tables") {
            Some(SystemRelation::InfoTables)
        } else if in_info && str_eq(table, "columns") {
            Some(SystemRelation::InfoColumns)
        } else if !pg_ok {
            None
        } else if str_eq(table, "pg_database") || str_eq(table, "st_database") {
            Some(SystemRelation::Database)
        } else if str_eq(table, "pg_namespace") || str_eq(table, "st_namespace") {
            Some(SystemRelation::Namespace)
        } else if str_eq(table, "pg_class") || str_eq(table, "st_class") {
            Some(SystemRelation::Class)
        } else if str_eq(table, "pg_attribute") || str_eq(table, "st_attribute") {
            Some(SystemRelation::Attribute)
        } else if str_eq(table, "pg_type") || str_eq(table, "st_type") {
            Some(SystemRelation::Type)
        } else if str_eq(table, "pg_stats") || str_eq(table, "st_stats") {
            Some(SystemRelation::Stats)
        } else {
            None
        }
    }

    /// The columns of the relation.
    pub fn schema(&self) -> (r: Schema)
        ensures
            r@ == relation_schema(*self),
    {
        let fields = match self {
            SystemRelation::InfoSchemata => vec![
                Field::new("catalog_name", LogicalType::Text),
                Field::new("schema_name", LogicalType::Text),
                Field::new("schema_owner", LogicalType::Text),
            ],
            SystemRelation::InfoTables => vec![
                Field::new("table_catalog", LogicalType::Text),
                Field::new("table_schema", LogicalType::Text),
                Field::new("table_name", LogicalType::Text),
                Field::new("table_type", LogicalType::Text),
            ],
            SystemRelation::InfoColumns => vec![
                Field::new("table_catalog", LogicalType::Text),
                Field::new("table_schema", LogicalType::Text),
                Field::new("table_name", LogicalType::Text),
                Field::new("column_name", LogicalType::Text),
                Field::new("ordinal_position", LogicalType::Int32),
                Field::new("column_default", LogicalType::Text),
                Field::new("is_nullable", LogicalType::Text),
                Field::new("data_type", LogicalType::Text),
                Field::new("udt_name", LogicalType::Text),
            ],
            SystemRelation::Database => vec![
                Field::new("oid", LogicalType::Int64),
                Field::new("datname", LogicalType::Text),
            ],
            SystemRelation::Namespace => vec![
                Field::new("oid", LogicalType::Int64),
                Field::new("nspname", LogicalType::Text),
                Field::new("nspowner", LogicalType::Text),
            ],
            SystemRelation::Class => vec![
                Field::new("oid", LogicalType::Int64),
                Field::new("relname", LogicalType::Text),
                Field::new("relnamespace", LogicalType::Int64),
                Field::new("relkind", LogicalType::Text),
                Field::new("relnatts", LogicalType::Int32),
                Field::new("relhasindex", LogicalType::Bool),
                Field::new("reltuples", LogicalType::Int64),
            ],
            SystemRelation::Attribute => vec![
                Field::new("attrelid", LogicalType::Int64),
                Field::new("attname", LogicalType::Text),
                Field::new("atttypid", LogicalType::Int64),
                Field::new("attnum", LogicalType::Int32),
                Field::new("attnotnull", LogicalType::Bool),
                Field::new("atthasdef", LogicalType::Bool),
                Field::new("attisdropped", LogicalType::Bool),
            ],
            SystemRelation::Type => vec![
                Field::new("oid", LogicalType::Int64),
                Field::new("typname", LogicalType::Text),
                Field::new("typlen", LogicalType::Int32),
                Field::new("typtype", LogicalType::Text),
                Field::new("typcategory", LogicalType::Text),
                Field::new("typelem", LogicalType::Int64),
            ],
            SystemRelation::Stats => vec![
                Field::new("schemaname", LogicalType::Text),
                Field::new("tablename", LogicalType::Text),
                Field::new("attname", LogicalType::Text),
                Field::new("null_frac", LogicalType::Float32),
                Field::new("avg_width", LogicalType::Int32),
                Field::new("n_distinct", LogicalType::Float32),
                Field::new("most_common_vals", LogicalType::Text),
                Field::new("most_common_freqs", LogicalType::Text),
                Field::new("histogram_bounds", LogicalType::Text),
                Field::new("correlation", LogicalType::Float32),
            ],
        };
        assert(fields_of(fields@) =~= relation_schema(*self));
        Schema { fields }
    }

    /// The rows of the relation, from what the catalog holds.
    pub fn rows(&self, catalog: &Catalog) -> (r: Vec<Tuple>)
        ensures
            rows_of(r@) == relation_rows(*self, catalog@),
    {
        match self {
            SystemRelation::Type => type_rows(),
            SystemRelation::Stats => {
                let stats = catalog.list_column_stats();
                let ghost list = scanned(catalog@.stats, Seq::empty());
                let mut out: Vec<Tuple> = Vec::new();
                let mut i: usize = 0;
                while i < stats.len()
                    invariant
                        i <= stats@.len(),
                        models(stats@) == list,
                        out@.len() == i,
                        forall|j: int| 0 <= j < i ==> (#[trigger] out@[j])@ == stats_row(list[j]),
                    decreases stats@.len() - i,
                {
                    assert(list[i as int] == stats@[i as int]@);
                    out.push(stats[i].to_row());
                    i = i + 1;
                }
                assert(rows_of(out@) =~= relation_rows(*self, catalog@));
                out
            },
            SystemRelation::Database => {
                let projects = user_projects(catalog);
                let ghost list = visible_projects(catalog@);
                let mut out: Vec<Tuple> = Vec::new();
                let mut i: usize = 0;
                while i < projects.len()
                    invariant
                        i <= projects@.len(),
                        models(projects@) == list,
                        out@.len() == i,
                        forall|j: int| 0 <= j < i ==> (#[trigger] out@[j])@ == database_row(list[j]),
                    decreases projects@.len() - i,
                {
                    assert(list[i as int] == projects@[i as int]@);
                    let values = vec![
                        Value::Int64(oid_of(projects[i].id.0)),
                        Value::text(projects[i].name.as_str()),
                    ];
                    assert(data_of(values@) =~= database_row(list[i as int]));
                    out.push(Tuple { values });
                    i = i + 1;
                }
                assert(rows_of(out@) =~= relation_rows(*self, catalog@));
                out
            },
            SystemRelation::InfoSchemata => space_rows(catalog, true),
            SystemRelation::Namespace => space_rows(catalog, false),
            SystemRelation::InfoTables => table_rows(catalog, true),
            SystemRelation::Class => table_rows(catalog, false),
            SystemRelation::InfoColumns => {
                let out = columns(catalog, true);
                assert(rows_of(out@) =~= relation_rows(*self, catalog@));
                out
            },
            SystemRelation::Attribute => {
                let out = columns(catalog, false);
                assert(rows_of(out@) =~= relation_rows(*self, catalog@));
                out
            },
        }
    }
}

/// One row for each dataset, for the standard view or for the namespace relation.
fn space_rows(catalog: &Catalog, standard: bool) -> (r: Vec<Tuple>)
    ensures
        rows_of(r@) == relation_rows(
            if standard {
                SystemRelation::InfoSchemata
            } else {
                SystemRelation::Namespace
            },
            catalog@,
        ),
{
    let spaces = namespaces(catalog);
    let ghost list = spaces_of(spaces@);
    let mut out: Vec<Tuple> = Vec::new();
    let mut i: usize = 0;
    while i < spaces.len()
        invariant
            i <= spaces@.len(),
            list == spaces_of(spaces@),
            out@.len() == i,
            forall|j: int|
                0 <= j < i ==> (#[trigger] out@[j])@ == if standard {
                    schemata_row(list[j].0, list[j].1)
                } else {
                    namespace_row(list[j].1)
                },
        decreases spaces@.len() - i,
    {
        let (p, d) = (&spaces[i].project, &spaces[i].dataset);
        assert(list[i as int] == (p@, d@));
        let first = if standard {
            Value::text(p.name.as_str())
        } else {
            Value::Int64(oid_of(d.id.0))
        };
        let values = vec![first, Value::text(d.name.as_str()), Value::text("strata")];
        assert(data_of(values@) =~= if standard {
            schemata_row(p@, d@)
        } else {
            namespace_row(d@)
        });
        out.push(Tuple { values });
        i = i + 1;
    }
    proof {
        if standard {
            assert(rows_of(out@) =~= relation_rows(SystemRelation::InfoSchemata, catalog@));
        } else {
            assert(rows_of(out@) =~= relation_rows(SystemRelation::Namespace, catalog@));
        }
    }
    out
}

/// One row for each table, for the standard view or for the class relation.
fn table_rows(catalog: &Catalog, standard: bool) -> (r: Vec<Tuple>)
    ensures
        rows_of(r@) == relation_rows(
            if standard {
                SystemRelation::InfoTables
            } else {
                SystemRelation::Class
            },
            catalog@,
        ),
{
    let entries = tables(catalog);
    let ghost list = entries_of(entries@);
    let mut out: Vec<Tuple> = Vec::new();
    let mut i: usize = 0;
    while i < entries.len()
        invariant
            i <= entries@.len(),
            list == entries_of(entries@),
            out@.len() == i,
            forall|j: int|
                0 <= j < i ==> (#[trigger] out@[j])@ == if standard {
                    info_table_row(list[j].0, list[j].1, list[j].2)
                } else {
                    class_row(list[j].1, list[j].2)
                },
        decreases entries@.len() - i,
    {
        let (p, d, t) = (&entries[i].project, &entries[i].dataset, &entries[i].table);
        assert(list[i as int] == (p@, d@, t@));
        let values = if standard {
            vec![
                Value::text(p.name.as_str()),
                Value::text(d.name.as_str()),
                Value::text(t.name.as_str()),
                Value::text("BASE TABLE"),
            ]
        } else {
            vec![
                Value::Int64(oid_of(t.id.0)),
                Value::text(t.name.as_str()),
                Value::Int64(oid_of(d.id.0)),
                Value::text("r"),
                Value::Int32(t.schema.fields.len() as i32),
                Value::Bool(t.indexes.len() > 0),
                Value::Int64(-1),
            ]
        };
        assert(data_of(values@) =~= if standard {
            info_table_row(p@, d@, t@)
        } else {
            class_row(d@, t@)
        });
        out.push(Tuple { values });
        i = i + 1;
    }
    proof {
        if standard {
            assert(rows_of(out@) =~= relation_rows(SystemRelation::InfoTables, catalog@));
        } else {
            assert(rows_of(out@) =~= relation_rows(SystemRelation::Class, catalog@));
        }
    }
    out
}

// --- laws ---

/// Every row of a relation fits its columns: as many values, and each null or of the column's
/// type.
pub proof fn law_rows_fit_the_schema(relation: SystemRelation, m: CatalogModel, i: int, j: int)
    requires
        0 <= i < relation_rows(relation, m).len(),
        0 <= j < relation_schema(relation).len(),
    ensures
        relation_rows(relation, m)[i].len() == relation_schema(relation).len(),
        relation_rows(relation, m)[i][j] is Null || has_type(
            relation_rows(relation, m)[i][j],
            relation_schema(relation)[j].ty,
        ),
{
}

/// The catalog's own project is not among those that users see.
pub proof fn law_system_project_is_hidden(m: CatalogModel, p: ProjectRow)
    requires
        visible_projects(m).contains(p),
    ensures
        p.id != m.system_project,
        scanned(m.projects, Seq::empty()).contains(p),
{
    lemma_visible(scanned(m.projects, Seq::empty()), m.system_project, p);
}

proof fn lemma_visible(projects: Seq<ProjectRow>, system: ProjectId, p: ProjectRow)
    requires
        user_project_list(projects, system).contains(p),
    ensures
        p.id != system,
        projects.contains(p),
    decreases projects.len(),
{
    let s = user_project_list(projects, system);
    if projects.len() > 0 {
        let rest = projects.drop_last();
        let before = user_project_list(rest, system);
        let q = s.index_of(p);
        if q < before.len() {
            assert(before[q] == p);
            assert(before.contains(p));
            lemma_visible(rest, system, p);
            let i = rest.index_of(p);
            assert(projects[i] == p);
        } else {
            assert(projects[projects.len() - 1] == p);
        }
    }
}

} // verus!
