//! The catalog: namespaces, incarnations of tables, system relations.

use strata_db::catalog::consts::{DEFAULT_DATASET_NAME, DEFAULT_PROJECT_NAME};
use strata_db::catalog::error::{CatalogError, ResourceKind};
use strata_db::catalog::ids::{DatasetId, ProjectId, TableId, TruncationId};
use strata_db::catalog::index::Index;
use strata_db::catalog::keys::{dataset_key, stats_key, table_key};
use strata_db::catalog::meta::{ColumnStats, TableMeta};
use strata_db::catalog::state::Catalog;
use strata_db::catalog::system::{array_oid, oid_of, pg_type, SystemRelation};
use strata_db::catalog::system_table::{
    meta_to_tuple, system_table_schema, tuple_to_meta, SystemIds,
};
use strata_db::catalog::tables::Table;
use strata_db::query::error::QueryError;
use strata_db::storage::json::Json;
use strata_db::storage::types::{Field, Float32, LogicalType, Schema, Tuple, Uuid, Value};

fn id(n: u128) -> Uuid {
    Uuid { value: n }
}

const P: ProjectId = ProjectId(Uuid { value: 1 });
const D: DatasetId = DatasetId(Uuid { value: 2 });

fn ints(names: &[&str]) -> Schema {
    Schema { fields: names.iter().map(|n| Field::new(n, LogicalType::Int32)).collect() }
}

/// A catalog with the project `acme` and its dataset `metrics`.
fn acme() -> Catalog {
    let mut catalog = Catalog::new(ProjectId(id(0)));
    catalog.create_project("acme", P).unwrap();
    catalog.create_dataset(P, "metrics", D).unwrap();
    catalog
}

fn names(metas: &[TableMeta]) -> Vec<&str> {
    let mut out: Vec<&str> = metas.iter().map(|m| m.name.as_str()).collect();
    out.sort();
    out
}

#[test]
fn default_namespace_is_seeded_on_open() {
    let mut catalog = Catalog::new(ProjectId(id(0)));
    catalog.seed_default_namespace(P, D);
    // `strata.public` exists out of the box.
    let project = catalog.get_project("strata").unwrap();
    assert!(catalog.get_dataset(project.id, "public").is_some());
    assert_eq!((DEFAULT_PROJECT_NAME, DEFAULT_DATASET_NAME), ("strata", "public"));
}

#[test]
fn seeding_again_keeps_the_ids() {
    let mut catalog = Catalog::new(ProjectId(id(0)));
    catalog.seed_default_namespace(P, D);
    catalog.seed_default_namespace(ProjectId(id(8)), DatasetId(id(9)));
    let project = catalog.get_project("strata").unwrap();
    assert_eq!(project.id, P);
    assert_eq!(catalog.get_dataset(P, "public").unwrap().id, D);
    assert_eq!(catalog.list_projects().len(), 1);
}

#[test]
fn names_are_taken_once() {
    let mut catalog = acme();
    let again = catalog.create_project("acme", ProjectId(id(5)));
    assert!(matches!(
        again,
        Err(CatalogError::AlreadyExists { kind: ResourceKind::Project, name }) if name == "acme"
    ));
    let again = catalog.create_dataset(P, "metrics", DatasetId(id(5)));
    assert!(matches!(
        again,
        Err(CatalogError::AlreadyExists { kind: ResourceKind::Dataset, .. })
    ));
    // The same name in another project is another dataset.
    assert!(catalog.create_dataset(ProjectId(id(6)), "metrics", DatasetId(id(7))).is_ok());
    catalog.create_table(P, D, "t", ints(&["a"]), TableId(id(3))).unwrap();
    let again = catalog.create_table(P, D, "t", ints(&["a"]), TableId(id(4)));
    assert!(matches!(
        again,
        Err(CatalogError::AlreadyExists { kind: ResourceKind::Table, name }) if name == "t"
    ));
}

#[test]
fn what_is_not_there_cannot_be_dropped() {
    let mut catalog = acme();
    assert!(matches!(
        catalog.drop_project("nope"),
        Err(CatalogError::NotFound { kind: ResourceKind::Project, name }) if name == "nope"
    ));
    assert!(matches!(
        catalog.drop_dataset(P, "nope"),
        Err(CatalogError::NotFound { kind: ResourceKind::Dataset, .. })
    ));
    assert!(matches!(
        catalog.drop_table(P, D, "nope"),
        Err(CatalogError::NotFound { kind: ResourceKind::Table, .. })
    ));
    catalog.drop_dataset(P, "metrics").unwrap();
    assert!(catalog.get_dataset(P, "metrics").is_none());
    catalog.drop_project("acme").unwrap();
    assert!(catalog.get_project("acme").is_none());
}

#[test]
fn resolving_names_the_missing_part() {
    let mut catalog = acme();
    catalog.create_table(P, D, "t", ints(&["a", "b"]), TableId(id(3))).unwrap();
    let table = catalog.resolve_table("acme", "metrics", "t").unwrap();
    assert_eq!(table.name(), "t");
    assert_eq!((table.project_id(), table.dataset_id(), table.id()), (P, D, TableId(id(3))));
    assert_eq!(table.truncation_id(), TruncationId(0));
    assert_eq!(table.schema().fields.len(), 2);
    for (p, d, t, kind) in [
        ("x", "metrics", "t", ResourceKind::Project),
        ("acme", "x", "t", ResourceKind::Dataset),
        ("acme", "metrics", "x", ResourceKind::Table),
    ] {
        assert!(matches!(
            catalog.resolve_table(p, d, t),
            Err(CatalogError::NotFound { kind: k, name }) if k == kind && name == "x"
        ));
    }
}

#[test]
fn a_replacement_is_the_next_incarnation_of_the_table() {
    let mut catalog = acme();
    let first = catalog.create_table(P, D, "t", ints(&["a"]), TableId(id(3))).unwrap();
    assert_eq!(first.truncation_id, TruncationId(0));
    let second = catalog.replace_table(P, D, "t", ints(&["a", "b"]), TableId(id(4))).unwrap();
    // The name keeps its logical id.
    assert_eq!((second.id, second.truncation_id), (TableId(id(3)), TruncationId(1)));
    let live = catalog.get_table(P, D, "t").unwrap();
    assert_eq!((live.truncation_id, live.schema.fields.len()), (TruncationId(1), 2));
    assert_eq!(catalog.table_incarnations(P, D, "t").len(), 2);
    assert_eq!(catalog.list_tables(P, D).len(), 1);

    // A table that is not there is created.
    let fresh = catalog.replace_table(P, D, "u", ints(&["a"]), TableId(id(5))).unwrap();
    assert_eq!((fresh.id, fresh.truncation_id), (TableId(id(5)), TruncationId(0)));
    assert_eq!(names(&catalog.list_tables(P, D)), vec!["t", "u"]);
}

#[test]
fn a_dropped_table_takes_its_history_along() {
    let mut catalog = acme();
    catalog.create_table(P, D, "t", ints(&["a"]), TableId(id(3))).unwrap();
    catalog.replace_table(P, D, "t", ints(&["b"]), TableId(id(4))).unwrap();
    catalog.create_table(P, D, "tt", ints(&["a"]), TableId(id(6))).unwrap();
    catalog.drop_table(P, D, "t").unwrap();
    assert!(catalog.get_table(P, D, "t").is_none());
    assert!(catalog.table_incarnations(P, D, "t").is_empty());
    // A name that starts alike is another table.
    assert!(catalog.get_table(P, D, "tt").is_some());
    let again = catalog.create_table(P, D, "t", ints(&["a"]), TableId(id(7))).unwrap();
    assert_eq!((again.id, again.truncation_id), (TableId(id(7)), TruncationId(0)));
}

#[test]
fn incarnations_run_out() {
    let mut catalog = acme();
    let last = TableMeta {
        id: TableId(id(3)),
        truncation_id: TruncationId(u64::MAX),
        name: "t".into(),
        schema: ints(&["a"]),
        indexes: vec![],
    };
    catalog.put_table_meta(P, D, last);
    assert!(matches!(
        catalog.replace_table(P, D, "t", ints(&["a"]), TableId(id(4))),
        Err(CatalogError::TruncationExhausted { name }) if name == "t"
    ));
    assert!(TruncationId(u64::MAX).next().is_none());
    assert_eq!(TruncationId::initial().next(), Some(TruncationId(1)));
}

#[test]
fn keys_are_scoped() {
    let key = dataset_key(P, "m");
    assert_eq!(key.len(), 17);
    assert_eq!((key[15], key[16]), (1, b'm'));
    let key = table_key(P, D, "ab", TruncationId(3));
    assert_eq!(key.len(), 16 + 16 + 2 + 8);
    assert_eq!(&key[32..], &[b'a', b'b', 0, 0, 0, 0, 0, 0, 0, 3]);
}

#[test]
fn order_comes_from_the_clustered_key_and_the_indexes() {
    let table = Table::new(P, D, TableId(id(3)), TruncationId(0), "t".into(), ints(&["a", "b", "c"]))
        .with_indexes(vec![
            Index { name: "by_b".into(), columns: vec![1] },
            Index { name: "by_bc".into(), columns: vec![1, 2] },
        ]);
    assert_eq!(table.clustered_key(), &[0]);
    assert!(table.clustered_on(&[0]));
    assert!(!table.clustered_on(&[1]));
    assert!(!table.clustered_on(&[0, 1]));
    assert!(!table.clustered_on(&[]));
    assert_eq!(table.index_on(&[1]).unwrap().name, "by_b");
    assert_eq!(table.index_on(&[1, 2]).unwrap().name, "by_bc");
    assert!(table.index_on(&[2]).is_none());
    assert!(table.index_on(&[]).is_none());
    assert_eq!(table.indexes().len(), 2);

    let bare = Table::new(P, D, TableId(id(3)), TruncationId(0), "t".into(), ints(&[]));
    assert!(bare.clustered_key().is_empty());
}

#[test]
fn catalog_rows_frame_their_document() {
    let document = Json::from_slice(b"{ \"id\": 1,  \"name\": \"x\" }").unwrap();
    let row = meta_to_tuple(b"key", document);
    assert_eq!(row.values[0], Value::Bytes(b"key".to_vec()));
    let back = tuple_to_meta(&row).unwrap();
    assert_eq!(back.as_str(), "{\"id\":1,\"name\":\"x\"}");

    let no_document = Tuple { values: vec![Value::Bytes(vec![]), Value::Null] };
    assert!(matches!(tuple_to_meta(&no_document), Err(QueryError::Codec(_))));
    assert!(matches!(tuple_to_meta(&Tuple { values: vec![] }), Err(QueryError::Codec(_))));

    let fields = system_table_schema().fields;
    assert_eq!((fields[0].name.as_str(), fields[1].name.as_str()), ("pk", "meta"));
    let ids = SystemIds {
        project: P,
        dataset: D,
        projects: TableId(id(10)),
        datasets: TableId(id(11)),
        tables: TableId(id(12)),
        stats: TableId(id(13)),
    };
    assert_eq!(ids.projects_meta_table().name(), "_projects");
    assert_eq!(ids.datasets_meta_table().id(), TableId(id(11)));
    assert_eq!(ids.tables_meta_table().clustered_key(), &[0]);
    assert_eq!(ids.stats_meta_table("_stats").name(), "_stats");
}

#[test]
fn system_relations_resolve_by_schema() {
    assert!(SystemRelation::resolve(Some("pg_catalog"), "pg_class").is_some());
    assert!(SystemRelation::resolve(None, "pg_class").is_some());
    assert!(SystemRelation::resolve(Some("information_schema"), "columns").is_some());
    assert!(SystemRelation::resolve(None, "columns").is_none());
    assert!(SystemRelation::resolve(Some("public"), "pg_class").is_none());
    assert!(SystemRelation::resolve(None, "orders").is_none());
}

#[test]
fn system_relations_describe_the_tables() {
    let mut catalog = acme();
    catalog.create_table(P, D, "events", ints(&["a", "b"]), TableId(id(3))).unwrap();
    let columns = SystemRelation::resolve(Some("information_schema"), "columns").unwrap();
    let schema = columns.schema();
    let rows = columns.rows(&catalog);
    assert_eq!(rows.len(), 2);
    let at = |name: &str| schema.fields.iter().position(|f| f.name.as_str() == name).unwrap();
    for (row, column) in rows.iter().zip(["a", "b"]) {
        assert_eq!(row.values.len(), schema.fields.len());
        assert_eq!(row.values[at("table_catalog")], Value::Text("acme".into()));
        assert_eq!(row.values[at("table_schema")], Value::Text("metrics".into()));
        assert_eq!(row.values[at("table_name")], Value::Text("events".into()));
        assert_eq!(row.values[at("column_name")], Value::Text(column.into()));
    }
    // The system project is for the system alone.
    catalog.create_project("hidden", ProjectId(id(0))).unwrap();
    catalog.create_dataset(ProjectId(id(0)), "d", DatasetId(id(20))).unwrap();
    catalog
        .create_table(ProjectId(id(0)), DatasetId(id(20)), "s", ints(&["x"]), TableId(id(21)))
        .unwrap();
    assert_eq!(columns.rows(&catalog).len(), 2);
}

#[test]
fn types_have_their_oids() {
    assert_eq!(pg_type(&LogicalType::Bool).oid, 16);
    assert_eq!(pg_type(&LogicalType::Int64).oid, 20);
    assert_eq!(pg_type(&LogicalType::Int32).oid, 23);
    assert_eq!(pg_type(&LogicalType::Text).oid, 25);
    assert_eq!(pg_type(&LogicalType::Uuid).oid, 2950);
    assert_eq!(array_oid(23), 1007);
    assert_eq!(
        pg_type(&LogicalType::Array(Box::new(LogicalType::Int32))).oid,
        array_oid(23)
    );
    assert_eq!(oid_of(id(0x1_8000_0005)), 5);
}

#[test]
fn statistics_come_in_key_order() {
    let stat = |table: &str, column: &str| ColumnStats {
        schemaname: "public".into(),
        tablename: table.into(),
        attname: column.into(),
        null_frac: Float32 { bits: 0 },
        avg_width: 8,
        n_distinct: Float32 { bits: (-1.0f32).to_bits() },
        most_common_vals: String::new(),
        most_common_freqs: String::new(),
        histogram_bounds: String::new(),
        correlation: Float32 { bits: 0 },
    };
    let mut catalog = acme();
    catalog.put_column_stats(stat("orders", "status"));
    catalog.put_column_stats(stat("orders", "amount"));
    catalog.put_column_stats(stat("a", "z"));
    catalog.put_column_stats(stat("orders", "status"));
    let listed = catalog.list_column_stats();
    // The names do not run together.
    assert_ne!(stats_key(&stat("ab", "c")), stats_key(&stat("a", "bc")));
    assert_eq!(stats_key(&stat("t", "c")), b"public\0t\0c\0".to_vec());
    let order: Vec<(&str, &str)> =
        listed.iter().map(|s| (s.tablename.as_str(), s.attname.as_str())).collect();
    assert_eq!(order, vec![("a", "z"), ("orders", "amount"), ("orders", "status")]);
}
