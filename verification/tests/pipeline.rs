//! SQL text through parsing, binding, lowering and execution.

use sqlparser::ast::{
    BinaryOperator, ColumnOption, DataType, Expr, GroupByExpr, ObjectName, SelectItem, SetExpr,
    Statement, TableFactor, TableObject, Value as Literal,
};
use strata_db::catalog::ids::{DatasetId, ProjectId};
use strata_db::catalog::meta::ColumnStats;
use strata_db::catalog::state::Catalog;
use strata_db::catalog::tables::Table;
use strata_db::query::config::JoinConfig;
use strata_db::query::context::QueryContext;
use strata_db::query::error::QueryError;
use strata_db::query::host::Answers;
use strata_db::query::physical_plan::PhysicalPlan;
use strata_db::query::planner::ast::{
    SqlBinaryOp, SqlBody, SqlColumn, SqlColumnOption, SqlCreateSchema, SqlCreateTable, SqlExpr, SqlFactor,
    SqlFrom, SqlInsert, SqlItem, SqlLimit, SqlLiteral, SqlName, SqlOrderBy, SqlQuery, SqlSelect,
    SqlSource, SqlStatement, SqlType,
};
use strata_db::query::planner::pass::{plan, Parse, Pass};
use strata_db::query::stages::{RawQuery, ReadQuery};
use strata_db::query::volcano::sink::{ExecuteResult, Volcano};
use strata_db::storage::types::{Float32, LogicalType, Tuple, Uuid, Value};

fn id(n: u128) -> Uuid {
    Uuid { value: n }
}

#[derive(Debug)]
enum StmtResult {
    Rows(Vec<Tuple>),
    Affected(u64),
}

fn read_name(name: &ObjectName) -> SqlName {
    SqlName {
        parts: name.0.iter().map(|p| p.as_ident().map(|i| i.value.clone())).collect(),
        written: name.to_string(),
    }
}

fn read_type(ty: &DataType) -> SqlType {
    match ty {
        DataType::SmallInt(_) => SqlType::SmallInt,
        DataType::Int(_) => SqlType::Int,
        DataType::BigInt(_) => SqlType::BigInt,
        DataType::Text => SqlType::Text,
        DataType::Boolean => SqlType::Boolean,
        other => panic!("no reading of {other:?}"),
    }
}

fn read_expr(e: &Expr) -> SqlExpr {
    match e {
        Expr::Identifier(i) => SqlExpr::Column(i.value.clone()),
        Expr::Value(v) => SqlExpr::Literal(match &v.value {
            Literal::Number(s, _) => SqlLiteral::Number(s.to_string()),
            Literal::SingleQuotedString(s) => SqlLiteral::Text(s.clone()),
            other => panic!("no reading of {other:?}"),
        }),
        Expr::BinaryOp { left, op: BinaryOperator::Eq, right } => SqlExpr::Binary {
            op: SqlBinaryOp::Eq,
            left: Box::new(read_expr(left)),
            right: Box::new(read_expr(right)),
        },
        other => panic!("no reading of {other:?}"),
    }
}

/// The statements that these tests use, in the form that the binder reads.
fn read(stmt: &Statement) -> SqlStatement {
    match stmt {
        Statement::CreateTable(c) => SqlStatement::CreateTable(SqlCreateTable {
            name: read_name(&c.name),
            columns: c
                .columns
                .iter()
                .map(|col| SqlColumn {
                    name: col.name.value.clone(),
                    ty: read_type(&col.data_type),
                    options: col
                        .options
                        .iter()
                        .map(|o| match &o.option {
                            ColumnOption::NotNull => SqlColumnOption::NotNull,
                            ColumnOption::Default(e) => SqlColumnOption::Default(read_expr(e)),
                            other => SqlColumnOption::Other(format!("{other:?}")),
                        })
                        .collect(),
                })
                .collect(),
            or_replace: c.or_replace,
            from_query: c.query.is_some(),
            from_table: false,
            constrained: !c.constraints.is_empty(),
        }),
        Statement::Insert(i) => SqlStatement::Insert(SqlInsert {
            table: match &i.table {
                TableObject::TableName(name) => Some(read_name(name)),
                _ => None,
            },
            columns: i.columns.iter().map(read_name).collect(),
            source: match i.source.as_ref().map(|q| q.body.as_ref()) {
                Some(SetExpr::Values(values)) => SqlSource::Values(
                    values.rows.iter().map(|row| row.content.iter().map(read_expr).collect()).collect(),
                ),
                _ => SqlSource::Other,
            },
        }),
        Statement::Query(q) => {
            let select = match q.body.as_ref() {
                SetExpr::Select(s) => s,
                other => panic!("no reading of {other:?}"),
            };
            SqlStatement::Query(SqlQuery {
                fetch: q.fetch.is_some(),
                order_by: SqlOrderBy::Absent,
                body: SqlBody::Select(SqlSelect {
                    distinct: select.distinct.is_some(),
                    grouped: !matches!(
                        &select.group_by,
                        GroupByExpr::Expressions(e, _) if e.is_empty()
                    ),
                    having: select.having.is_some(),
                    from: select
                        .from
                        .iter()
                        .map(|f| SqlFrom {
                            relation: match &f.relation {
                                TableFactor::Table { name, alias, .. } => SqlFactor::Table {
                                    name: read_name(name),
                                    alias: alias.as_ref().map(|a| a.name.value.clone()),
                                },
                                other => SqlFactor::Other(format!("{other:?}")),
                            },
                            joins: vec![],
                        })
                        .collect(),
                    selection: select.selection.as_ref().map(read_expr),
                    projection: select
                        .projection
                        .iter()
                        .map(|item| match item {
                            SelectItem::UnnamedExpr(e) => SqlItem::Expr(read_expr(e)),
                            SelectItem::Wildcard(_) => SqlItem::Wildcard,
                            other => SqlItem::Other(format!("{other:?}")),
                        })
                        .collect(),
                }),
                limit: SqlLimit::Absent,
            })
        }
        Statement::CreateSchema { .. } => SqlStatement::CreateSchema(SqlCreateSchema {
            name: None,
            if_not_exists: false,
            has_options: false,
        }),
        other => SqlStatement::Other(format!("{other:?}")),
    }
}

/// A database in memory.
struct Db {
    ctx: QueryContext,
    next: u128,
}

impl Db {
    fn open() -> Db {
        let mut catalog = Catalog::new(ProjectId(id(0)));
        catalog.seed_default_namespace(ProjectId(id(1)), DatasetId(id(2)));
        let ctx = QueryContext::new(catalog, Answers::new(), JoinConfig::default());
        Db { ctx, next: 100 }
    }

    fn with_dataset() -> Db {
        let mut db = Db::open();
        db.ctx.catalog.create_project("acme", ProjectId(id(3))).unwrap();
        db.ctx.catalog.create_dataset(ProjectId(id(3)), "metrics", DatasetId(id(4))).unwrap();
        db
    }

    fn exec(&mut self, sql: &str) -> Result<Vec<StmtResult>, QueryError> {
        let parsed = Parse.run(RawQuery { sql: sql.to_string() }, &self.ctx)?;
        let input = ReadQuery {
            ast: parsed.ast.iter().map(read).collect(),
            sql: parsed.sql,
        };
        let planned = plan(input, &self.ctx)?;
        let mut out = Vec::new();
        for physical in planned.physical {
            self.next += 1;
            match self.run(physical)? {
                ExecuteResult::Affected(n) => out.push(StmtResult::Affected(n)),
                ExecuteResult::Rows(items) => {
                    out.push(StmtResult::Rows(items.into_iter().collect::<Result<_, _>>()?));
                }
            }
        }
        Ok(out)
    }

    fn run(&mut self, physical: PhysicalPlan) -> Result<ExecuteResult, QueryError> {
        Volcano.execute(physical, &mut self.ctx, id(self.next))
    }

    fn rows(&mut self, sql: &str) -> Vec<Tuple> {
        match self.exec(sql).unwrap().remove(0) {
            StmtResult::Rows(r) => r,
            StmtResult::Affected(_) => panic!("expected rows"),
        }
    }

    fn events(&self) -> Table {
        self.ctx.catalog.resolve_table("acme", "metrics", "events").unwrap()
    }
}

#[test]
fn create_table_persists_schema_and_round_trips() {
    let mut db = Db::with_dataset();
    let results = db
        .exec("CREATE TABLE acme.metrics.events (id INT, name TEXT NOT NULL)")
        .unwrap();
    assert_eq!(results.len(), 1);
    assert!(matches!(results[0], StmtResult::Affected(0)));

    let table = db.events();
    let fields = &table.schema().fields;
    assert_eq!(fields.len(), 2);
    assert_eq!(fields[0].name.as_str(), "id");
    assert!(matches!(fields[0].ty, LogicalType::Int32));
    assert!(fields[0].nullable, "id has no NOT NULL");
    assert_eq!(fields[1].name.as_str(), "name");
    assert!(matches!(fields[1].ty, LogicalType::Text));
    assert!(!fields[1].nullable, "name is NOT NULL");

    // Write a row, read it back through a fresh scan.
    db.ctx
        .put_row(
            &table,
            &Tuple { values: vec![Value::Int32(7), Value::Text("alpha".into())] },
        )
        .unwrap();
    let rows = db.rows("SELECT * FROM acme.metrics.events");
    assert_eq!(rows.len(), 1);
    assert_eq!(rows[0].values[0], Value::Int32(7));
    assert_eq!(rows[0].values[1], Value::Text("alpha".into()));
}

#[test]
fn create_or_replace_swaps_schema_and_drops_old_data() {
    let mut db = Db::with_dataset();
    db.exec("CREATE TABLE acme.metrics.events (id INT, name TEXT)").unwrap();
    let table = db.events();
    db.ctx
        .put_row(
            &table,
            &Tuple { values: vec![Value::Int32(1), Value::Text("old".into())] },
        )
        .unwrap();

    db.exec("CREATE OR REPLACE TABLE acme.metrics.events (id BIGINT, label TEXT, flag BOOLEAN)")
        .unwrap();
    let table = db.events();
    // New incarnation: new schema...
    let fields = &table.schema().fields;
    assert_eq!(fields.len(), 3);
    assert_eq!(fields[1].name.as_str(), "label");
    // ...and the old row is gone: the new incarnation starts empty.
    let rows = db.rows("SELECT * FROM acme.metrics.events");
    assert!(rows.is_empty(), "replaced table should read empty, got {rows:?}");
}

#[test]
fn insert_coerces_widening_and_narrowing_within_range() {
    let mut db = Db::open();
    db.exec("CREATE TABLE strata.public.t (a SMALLINT, b BIGINT)").unwrap();

    // 30000 fits SMALLINT; it widens trivially into BIGINT.
    db.exec("INSERT INTO strata.public.t VALUES (30000, 30000)").unwrap();
    let rows = db.rows("SELECT * FROM strata.public.t");
    assert_eq!(rows[0].values[0], Value::Int16(30000));
    assert_eq!(rows[0].values[1], Value::Int64(30000));

    // 40000 does not fit, and nothing is written.
    let refused = db.exec("INSERT INTO strata.public.t VALUES (1, 1), (40000, 1)");
    assert!(matches!(refused, Err(QueryError::Type(_))));
    assert_eq!(db.rows("SELECT * FROM strata.public.t").len(), 1);
}

fn stat(table: &str, col: &str, n_distinct: f32, mcv: &str) -> ColumnStats {
    let bits = |x: f32| Float32 { bits: x.to_bits() };
    ColumnStats {
        schemaname: "public".into(),
        tablename: table.into(),
        attname: col.into(),
        null_frac: bits(0.0),
        avg_width: 8,
        n_distinct: bits(n_distinct),
        most_common_vals: mcv.into(),
        most_common_freqs: String::new(),
        histogram_bounds: String::new(),
        correlation: bits(0.0),
    }
}

#[test]
fn faked_stats_surface_through_pg_stats() {
    let mut db = Db::open();
    // The relation is queryable but empty.
    assert!(db.rows("SELECT attname FROM pg_stats").is_empty());

    db.ctx.catalog.put_column_stats(stat(
        "orders",
        "status",
        4.0,
        "{complete,pending,cancelled,failed}",
    ));
    db.ctx.catalog.put_column_stats(stat("orders", "amount", -1.0, ""));

    // Rows come back in key order: amount before status.
    let rows = db.rows(
        "SELECT attname, n_distinct, most_common_vals FROM pg_stats WHERE tablename = 'orders'",
    );
    let float = |x: f32| Value::Float32(Float32 { bits: x.to_bits() });
    assert_eq!(rows.len(), 2);
    assert_eq!(rows[0].values[0], Value::Text("amount".into()));
    assert_eq!(rows[0].values[1], float(-1.0));
    assert_eq!(rows[1].values[0], Value::Text("status".into()));
    assert_eq!(rows[1].values[1], float(4.0));
    assert_eq!(
        rows[1].values[2],
        Value::Text("{complete,pending,cancelled,failed}".into())
    );

    // The st_ alias reads the same store.
    let via_st = db.rows("SELECT attname FROM st_stats WHERE attname = 'status'");
    assert_eq!(via_st.len(), 1);
    assert_eq!(via_st[0].values[0], Value::Text("status".into()));
}

#[test]
fn select_gives_back_what_insert_wrote() {
    let mut db = Db::open();
    db.exec("CREATE TABLE strata.public.t (a INT, b TEXT)").unwrap();
    let done = db.exec("INSERT INTO strata.public.t VALUES (2, 'two'), (1, 'one')").unwrap();
    assert!(matches!(done[0], StmtResult::Affected(2)));
    // In key order.
    let rows = db.rows("SELECT * FROM strata.public.t");
    assert_eq!(rows[0].values, vec![Value::Int32(1), Value::Text("one".into())]);
    assert_eq!(rows[1].values, vec![Value::Int32(2), Value::Text("two".into())]);
    // The same key again overwrites.
    db.exec("INSERT INTO strata.public.t (b, a) VALUES ('uno', 1)").unwrap();
    let rows = db.rows("SELECT b FROM strata.public.t WHERE a = 1");
    assert_eq!(rows.len(), 1);
    assert_eq!(rows[0].values, vec![Value::Text("uno".into())]);
}

#[test]
fn defaults_fill_what_an_insert_leaves_out() {
    let mut db = Db::open();
    db.exec("CREATE TABLE strata.public.t (a INT, b BIGINT DEFAULT 7, c TEXT)").unwrap();
    db.exec("INSERT INTO strata.public.t (a) VALUES (1)").unwrap();
    let rows = db.rows("SELECT * FROM strata.public.t");
    assert_eq!(rows[0].values, vec![Value::Int32(1), Value::Int64(7), Value::Null]);
}

#[test]
fn statements_see_the_tables_of_their_catalog_only() {
    let mut db = Db::open();
    assert!(matches!(db.exec("SELECT * FROM strata.public.nope"), Err(QueryError::Catalog(_))));
    assert!(matches!(db.exec("SELEC 1"), Err(QueryError::Parse(_))));
    assert!(matches!(db.exec("CREATE SCHEMA x"), Err(QueryError::Unsupported(_))));
    assert!(matches!(db.exec("DROP TABLE t"), Err(QueryError::Unsupported(_))));
    let both = db.exec("CREATE TABLE strata.public.t (a INT); SELECT * FROM pg_stats").unwrap();
    assert_eq!(both.len(), 2);
}
