//! Binding and lowering, statement by statement.

use strata_db::catalog::error::{CatalogError, ResourceKind};
use strata_db::catalog::ids::{DatasetId, ProjectId, TableId};
use strata_db::catalog::state::Catalog;
use strata_db::query::config::JoinConfig;
use strata_db::query::context::QueryContext;
use strata_db::query::error::QueryError;
use strata_db::query::expression::{Expr, ScalarFunc};
use strata_db::query::host::{Answers, HostAnswer, HostOp};
use strata_db::query::logical_plan::LogicalNode;
use strata_db::query::physical_plan::{JoinStrategy, PhysicalPlan, PlanNode};
use strata_db::query::planner::ast::{
    SqlBinaryOp, SqlBody, SqlColumn, SqlColumnOption, SqlConstraint, SqlCreateSchema, SqlCreateTable,
    SqlExpr, SqlFactor, SqlFrom, SqlInsert, SqlItem, SqlJoin, SqlJoinKind, SqlLimit, SqlLiteral,
    SqlName, SqlOrderBy, SqlOrderTerm, SqlQuery, SqlRounding, SqlSelect, SqlSource, SqlStatement,
    SqlType, SqlUnaryOp, SqlZone, TrimSide,
};
use strata_db::query::planner::binder::dml::{
    coerce_to, coerce_value, const_eval, fit_int, resolve_default,
};
use strata_db::query::planner::binder::expr::resolve_scalar_func;
use strata_db::query::planner::binder::literal::{bind_data_type, bind_typed_string, bind_value};
use strata_db::query::planner::binder::query::bind_count;
use strata_db::query::planner::binder::scope::Scope;
use strata_db::query::planner::binder::Bind;
use strata_db::query::planner::pass::{
    Analyze, BuildLogical, Lower, OptimizeLogical, OptimizePhysical, Parse, Pass,
};
use strata_db::query::volcano::sink::{ExecuteResult, Volcano};
use strata_db::storage::types::{
    Field, Float64, LogicalType, Schema, Tuple, Uuid, Value,
};

fn id(n: u128) -> Uuid {
    Uuid { value: n }
}

/// `p.d` with the tables `l(id, k)` and `r(id, label)`.
fn context() -> QueryContext {
    let (p, d) = (ProjectId(id(1)), DatasetId(id(2)));
    let mut catalog = Catalog::new(ProjectId(id(0)));
    catalog.create_project("p", p).unwrap();
    catalog.create_dataset(p, "d", d).unwrap();
    let l = vec![Field::new("id", LogicalType::Int32), Field::new("k", LogicalType::Int32)];
    let r = vec![Field::new("id", LogicalType::Int32), Field::new("label", LogicalType::Text)];
    catalog.create_table(p, d, "l", Schema { fields: l }, TableId(id(3))).unwrap();
    catalog.create_table(p, d, "r", Schema { fields: r }, TableId(id(4))).unwrap();
    QueryContext::new(catalog, Answers::new(), JoinConfig::default())
}

fn name(parts: &[&str]) -> SqlName {
    SqlName {
        parts: parts.iter().map(|p| Some(p.to_string())).collect(),
        written: parts.join("."),
    }
}

fn num(s: &str) -> SqlExpr {
    SqlExpr::Literal(SqlLiteral::Number(s.into()))
}

fn text(s: &str) -> SqlExpr {
    SqlExpr::Literal(SqlLiteral::Text(s.into()))
}

fn col(s: &str) -> SqlExpr {
    SqlExpr::Column(s.into())
}

fn qualified(parts: &[&str]) -> SqlExpr {
    SqlExpr::Qualified {
        parts: parts.iter().map(|p| p.to_string()).collect(),
        shown: format!("{parts:?}"),
    }
}

fn bin(op: SqlBinaryOp, left: SqlExpr, right: SqlExpr) -> SqlExpr {
    SqlExpr::Binary { op, left: Box::new(left), right: Box::new(right) }
}

fn call(f: &str, args: Vec<SqlExpr>) -> SqlExpr {
    SqlExpr::Call {
        name: name(&[f]),
        has_clause: false,
        listed: true,
        modified: false,
        args: args.into_iter().map(Some).collect(),
    }
}

fn factor(table: &str, alias: Option<&str>) -> SqlFactor {
    SqlFactor::Table { name: name(&["p", "d", table]), alias: alias.map(|a| a.to_string()) }
}

fn select(from: Vec<SqlFrom>, projection: Vec<SqlItem>) -> SqlSelect {
    SqlSelect { distinct: false, grouped: false, having: false, from, selection: None, projection }
}

fn select_of(q: &mut SqlQuery) -> &mut SqlSelect {
    match &mut q.body {
        SqlBody::Select(s) => s,
        SqlBody::Other(shown) => panic!("{shown}"),
    }
}

fn query(body: SqlSelect) -> SqlQuery {
    SqlQuery {
        fetch: false,
        order_by: SqlOrderBy::Absent,
        body: SqlBody::Select(body),
        limit: SqlLimit::Absent,
    }
}

fn from_l() -> Vec<SqlFrom> {
    vec![SqlFrom { relation: factor("l", None), joins: vec![] }]
}

fn from_join(kind: SqlJoinKind, constraint: SqlConstraint) -> Vec<SqlFrom> {
    vec![SqlFrom {
        relation: factor("l", None),
        joins: vec![SqlJoin { relation: factor("r", None), kind, constraint }],
    }]
}

fn on_k() -> SqlConstraint {
    SqlConstraint::On(bin(SqlBinaryOp::Eq, qualified(&["l", "k"]), qualified(&["r", "id"])))
}

fn all(from: Vec<SqlFrom>) -> SqlQuery {
    query(select(from, vec![SqlItem::Wildcard]))
}

fn bind(q: SqlQuery, ctx: &QueryContext) -> Result<LogicalNode, QueryError> {
    SqlStatement::Query(q).bind(ctx).map(|p| p.root)
}

fn run(node: LogicalNode, ctx: &mut QueryContext) -> ExecuteResult {
    Volcano.execute(PhysicalPlan::new(node.lower()), ctx, id(50)).unwrap()
}

fn rows(q: SqlQuery, ctx: &mut QueryContext) -> Vec<Vec<Value>> {
    let node = bind(q, ctx).unwrap();
    match run(node, ctx) {
        ExecuteResult::Rows(items) => items.into_iter().map(|r| r.unwrap().values).collect(),
        ExecuteResult::Affected(_) => panic!("expected rows"),
    }
}

fn insert(table: &str, columns: &[&str], values: Vec<Vec<SqlExpr>>) -> SqlStatement {
    SqlStatement::Insert(SqlInsert {
        table: Some(name(&["p", "d", table])),
        columns: columns.iter().map(|c| name(&[c])).collect(),
        source: SqlSource::Values(values),
    })
}

fn fill(ctx: &mut QueryContext) {
    let l = insert(
        "l",
        &[],
        vec![
            vec![num("1"), num("10")],
            vec![num("2"), num("20")],
            vec![num("3"), SqlExpr::Literal(SqlLiteral::Null)],
        ],
    );
    let r = insert("r", &[], vec![vec![num("10"), text("A")], vec![num("30"), text("C")]]);
    for stmt in [l, r] {
        let node = stmt.bind(ctx).unwrap().root;
        run(node, ctx);
    }
}

fn bound(e: SqlExpr) -> Result<Expr, QueryError> {
    e.bind(None, &Answers::new())
}

fn value_of(e: SqlExpr) -> Result<Value, QueryError> {
    bound(e)?.eval(&Tuple { values: vec![] }, &Answers::new())
}

#[test]
fn functions_resolve_by_name_and_arity() {
    for (f, argc, want) in [
        ("ABS", 1, ScalarFunc::Abs),
        ("GREATEST", 3, ScalarFunc::Greatest),
        ("MAX", 2, ScalarFunc::Greatest),
        ("MIN", 2, ScalarFunc::Least),
        ("ROUND", 1, ScalarFunc::Round),
        ("COALESCE", 2, ScalarFunc::Coalesce),
        ("LENGTH", 1, ScalarFunc::Length),
        ("NULLIF", 2, ScalarFunc::Nullif),
        ("UPPER", 1, ScalarFunc::Upper),
    ] {
        assert!(matches!(resolve_scalar_func(f, argc), Ok(got) if got == want), "{f}");
    }
    // The wrong number of arguments is a type error; an aggregate or an unknown name is not done.
    assert!(matches!(resolve_scalar_func("ABS", 2), Err(QueryError::Type(_))));
    assert!(matches!(resolve_scalar_func("MAX", 1), Err(QueryError::Unsupported(_))));
    assert!(matches!(resolve_scalar_func("SUM", 1), Err(QueryError::Unsupported(_))));
}

#[test]
fn calls_bind_and_evaluate() {
    let abs = call("abs", vec![SqlExpr::Unary { sign: SqlUnaryOp::Minus, expr: Box::new(num("3")) }]);
    assert_eq!(value_of(abs).unwrap(), Value::Int64(3));
    let upper = call("upper", vec![text("aé")]);
    assert_eq!(value_of(upper).unwrap(), Value::Text("AÉ".into()));
    let star = SqlExpr::Call {
        name: name(&["abs"]),
        has_clause: false,
        listed: true,
        modified: false,
        args: vec![None],
    };
    assert!(matches!(bound(star), Err(QueryError::Unsupported(_))));
    let over = SqlExpr::Call {
        name: name(&["abs"]),
        has_clause: true,
        listed: true,
        modified: false,
        args: vec![Some(num("1"))],
    };
    assert!(matches!(bound(over), Err(QueryError::Unsupported(_))));
}

#[test]
fn sugar_is_spelled_out() {
    let between = |negated: bool| SqlExpr::Between {
        expr: Box::new(num("5")),
        negated,
        low: Box::new(num("1")),
        high: Box::new(num("5")),
    };
    assert_eq!(value_of(between(false)).unwrap(), Value::Bool(true));
    assert_eq!(value_of(between(true)).unwrap(), Value::Bool(false));
    let in_list = |list: Vec<SqlExpr>| SqlExpr::InList {
        expr: Box::new(num("2")),
        list,
        negated: false,
    };
    assert_eq!(value_of(in_list(vec![num("1"), num("2")])).unwrap(), Value::Bool(true));
    assert_eq!(value_of(in_list(vec![])).unwrap(), Value::Bool(false));
    let null = || SqlExpr::Literal(SqlLiteral::Null);
    assert_eq!(value_of(in_list(vec![num("1"), null()])).unwrap(), Value::Null);
    assert_eq!(
        value_of(SqlExpr::IsNotNull(Box::new(null()))).unwrap(),
        Value::Bool(false)
    );
    let trim = SqlExpr::Trim {
        expr: Box::new(text("xxaxx")),
        side: Some(TrimSide::Leading),
        what: Some(Box::new(text("x"))),
        listed: false,
    };
    assert_eq!(value_of(trim).unwrap(), Value::Text("axx".into()));
    let case = SqlExpr::Case {
        operand: Some(Box::new(num("2"))),
        branches: vec![(num("1"), text("one")), (num("2"), text("two"))],
        else_result: None,
    };
    assert_eq!(value_of(case).unwrap(), Value::Text("two".into()));
    let like = SqlExpr::Like {
        expr: Box::new(text("abc")),
        pattern: Box::new(text("a%")),
        negated: true,
        any: false,
        escape: false,
    };
    assert_eq!(value_of(like).unwrap(), Value::Bool(false));
    let substring = SqlExpr::Substring {
        expr: Box::new(text("hello")),
        from: Some(Box::new(num("2"))),
        length: Some(Box::new(num("3"))),
    };
    assert_eq!(value_of(substring).unwrap(), Value::Text("ell".into()));
}

#[test]
fn what_is_not_done_is_refused() {
    let refused = vec![
        SqlExpr::Other("?".into()),
        bin(SqlBinaryOp::Other("?".into()), num("1"), num("2")),
        SqlExpr::Unary { sign: SqlUnaryOp::Other("?".into()), expr: Box::new(num("1")) },
        SqlExpr::Ceil { expr: Box::new(num("1")), to: SqlRounding::Scale },
        SqlExpr::Like {
            expr: Box::new(text("a")),
            pattern: Box::new(text("b")),
            negated: false,
            any: false,
            escape: true,
        },
        SqlExpr::Literal(SqlLiteral::Other("?".into())),
    ];
    for e in refused {
        assert!(matches!(bound(e), Err(QueryError::Unsupported(_))));
    }
}

#[test]
fn literals_take_their_natural_type() {
    let mut answers = Answers::new();
    let number = |s: &str, answers: &Answers| bind_value(&SqlLiteral::Number(s.into()), answers);
    assert_eq!(number("42", &answers).unwrap(), Value::Int64(42));
    assert_eq!(bind_value(&SqlLiteral::Bool(true), &answers).unwrap(), Value::Bool(true));
    assert_eq!(bind_value(&SqlLiteral::Null, &answers).unwrap(), Value::Null);
    // What is no 64-bit integer is a float, which is the host's to read.
    for s in ["1.5", "1e3", "12345678901234567890"] {
        assert!(matches!(
            number(s, &answers),
            Err(QueryError::Host(HostOp::ParseFloat(asked))) if asked == s
        ));
    }
    let float = Float64 { bits: 1.5f64.to_bits() };
    answers.record(
        HostOp::ParseFloat("1.5".into()),
        HostAnswer::MaybeFloat64(Some(float)),
    );
    assert_eq!(number("1.5", &answers).unwrap(), Value::Float64(float));
    answers.record(HostOp::ParseFloat("x".into()), HostAnswer::MaybeFloat64(None));
    assert!(matches!(number("x", &answers), Err(QueryError::Internal(_))));
}

#[test]
fn typed_strings_are_read_as_their_type() {
    let none = Answers::new();
    let read = |ty: SqlType, s: &str| bind_typed_string(&ty, "T", &Some(s.to_string()), &none);
    assert_eq!(read(SqlType::Date, "1970-01-02").unwrap(), Value::Date(1));
    assert!(matches!(read(SqlType::Date, "nope"), Err(QueryError::Type(_))));
    let uuid = " 67e55044-10b1-426f-9247-bb680e5fe0c8 ";
    let value = 0x67e55044_10b1_426f_9247_bb680e5fe0c8;
    assert_eq!(read(SqlType::Uuid, uuid).unwrap(), Value::Uuid(id(value)));
    assert!(matches!(read(SqlType::Uuid, "nope"), Err(QueryError::Type(_))));
    assert!(matches!(
        read(SqlType::Numeric, "1.50").unwrap(),
        Value::Numeric(d) if d.to_text() == "1.50"
    ));
    assert!(matches!(read(SqlType::Numeric, "nope"), Err(QueryError::Type(_))));
    assert!(matches!(
        bind_typed_string(&SqlType::Date, "Date", &None, &none),
        Err(QueryError::Type(_))
    ));
    assert!(matches!(read(SqlType::Json, "[1]"), Err(QueryError::Unsupported(_))));
    assert!(matches!(
        read(SqlType::Time { zone: SqlZone::With }, "12:00"),
        Err(QueryError::Unsupported(_))
    ));
    // Instants and times of day are the host's to read.
    let mut answers = Answers::new();
    let noon = || (SqlType::Time { zone: SqlZone::Unsaid }, Some("12:00".to_string()));
    let (ty, s) = noon();
    assert!(matches!(
        bind_typed_string(&ty, "Time", &s, &answers),
        Err(QueryError::Host(HostOp::ParseTime(asked))) if asked == "12:00"
    ));
    answers.record(
        HostOp::ParseTime("12:00".into()),
        HostAnswer::ParsedInt(Ok(43_200_000_000)),
    );
    let (ty, s) = noon();
    assert_eq!(bind_typed_string(&ty, "Time", &s, &answers).unwrap(), Value::Time(43_200_000_000));
}

#[test]
fn types_map_to_their_own() {
    assert_eq!(bind_data_type(&SqlType::SmallInt).unwrap(), LogicalType::Int16);
    assert_eq!(
        bind_data_type(&SqlType::Float { precision: Some(24) }).unwrap(),
        LogicalType::Float32
    );
    assert_eq!(
        bind_data_type(&SqlType::Float { precision: Some(25) }).unwrap(),
        LogicalType::Float64
    );
    assert_eq!(
        bind_data_type(&SqlType::Array(Some(Box::new(SqlType::Text)))).unwrap(),
        LogicalType::Array(Box::new(LogicalType::Text))
    );
    assert!(matches!(bind_data_type(&SqlType::Array(None)), Err(QueryError::Unsupported(_))));
    assert!(matches!(bind_data_type(&SqlType::Other("Xml".into())), Err(QueryError::Unsupported(_))));
}

#[test]
fn columns_resolve_in_their_scope() {
    let schema = |names: &[&str]| Schema {
        fields: names.iter().map(|n| Field::new(n, LogicalType::Int32)).collect(),
    };
    let l = Scope::for_relation(Some("l".into()), &schema(&["id", "k"]));
    let r = Scope::for_relation(Some("r".into()), &schema(&["id", "label"]));
    let both = Scope::concat(l, r);
    assert_eq!(both.len(), 4);
    assert!(matches!(both.resolve(None, "k"), Ok(1)));
    assert!(matches!(both.resolve(Some("r"), "id"), Ok(2)));
    assert!(matches!(both.resolve(None, "id"), Err(QueryError::Internal(_))));
    assert!(matches!(both.resolve(None, "nope"), Err(QueryError::Internal(_))));
    assert!(both.resolve(Some("x"), "id").is_err());
    assert!(Scope::empty().resolve(None, "id").is_err());
}

#[test]
fn a_query_filters_sorts_and_cuts() {
    let mut ctx = context();
    fill(&mut ctx);
    let mut body = select(from_l(), vec![SqlItem::Expr(col("id"))]);
    body.selection = Some(bin(SqlBinaryOp::Gt, col("id"), num("1")));
    let mut q = query(body);
    q.order_by = SqlOrderBy::Terms(vec![SqlOrderTerm {
        expr: col("id"),
        ascending: Some(false),
        nulls_first: None,
    }]);
    q.limit = SqlLimit::Standard { limit: Some(num("1")), offset: Some(num("1")), by: false };
    assert_eq!(rows(q, &mut ctx), vec![vec![Value::Int32(2)]]);
}

#[test]
fn nulls_sort_last_going_up_and_first_going_down() {
    let mut ctx = context();
    fill(&mut ctx);
    for (ascending, want) in [(None, vec![1, 2, 3]), (Some(false), vec![3, 2, 1])] {
        let mut q = query(select(from_l(), vec![SqlItem::Expr(col("id"))]));
        q.order_by = SqlOrderBy::Terms(vec![SqlOrderTerm {
            expr: col("k"),
            ascending,
            nulls_first: None,
        }]);
        let got: Vec<Vec<Value>> = rows(q, &mut ctx);
        let want: Vec<Vec<Value>> = want.into_iter().map(|n| vec![Value::Int32(n)]).collect();
        assert_eq!(got, want);
    }
}

#[test]
fn unsupported_queries_are_refused() {
    let ctx = context();
    let mut fetch = all(from_l());
    fetch.fetch = true;
    let mut distinct = all(from_l());
    select_of(&mut distinct).distinct = true;
    let mut grouped = all(from_l());
    select_of(&mut grouped).grouped = true;
    let mut having = all(from_l());
    select_of(&mut having).having = true;
    let mut order_all = all(from_l());
    order_all.order_by = SqlOrderBy::All;
    let mut comma = all(from_l());
    comma.limit = SqlLimit::Comma;
    let mut no_select = all(from_l());
    no_select.body = SqlBody::Other("?".into());
    let other_item = query(select(from_l(), vec![SqlItem::Other("?".into())]));
    let other_factor = all(vec![SqlFrom { relation: SqlFactor::Other("?".into()), joins: vec![] }]);
    let other_join = all(from_join(SqlJoinKind::Other("?".into()), SqlConstraint::Absent));
    let using = all(from_join(SqlJoinKind::Inner, SqlConstraint::Other("?".into())));
    for q in [
        fetch, distinct, grouped, having, order_all, comma, no_select, other_item, other_factor,
        other_join, using,
    ] {
        let shown = format!("{q:?}");
        assert!(matches!(bind(q, &ctx), Err(QueryError::Unsupported(_))), "{shown}");
    }
}

#[test]
fn counts_are_natural_numbers() {
    let none = Answers::new();
    assert!(matches!(bind_count(&num("3"), &none, "LIMIT"), Ok(3)));
    let minus = SqlExpr::Unary { sign: SqlUnaryOp::Minus, expr: Box::new(num("1")) };
    assert!(bind_count(&minus, &none, "LIMIT").is_err());
    assert!(bind_count(&text("x"), &none, "LIMIT").is_err());
}

/// The algorithm of the topmost join.
fn strategy(node: &PlanNode) -> Option<JoinStrategy> {
    match node {
        PlanNode::Join { strategy, .. } => Some(*strategy),
        PlanNode::Project { input, .. } => strategy(input),
        _ => None,
    }
}

#[test]
fn joins_are_lowered_by_their_predicate() {
    let mut ctx = context();
    fill(&mut ctx);
    // An inner equi-join sorts both sides and merges.
    let node = bind(all(from_join(SqlJoinKind::Inner, on_k())), &ctx).unwrap();
    assert_eq!(strategy(&node.lower()), Some(JoinStrategy::SortMerge));
    // Any other join takes blocks of outer rows.
    let node = bind(all(from_join(SqlJoinKind::Left, on_k())), &ctx).unwrap();
    assert_eq!(strategy(&node.lower()), Some(JoinStrategy::BlockNestedLoop));
    let node = bind(all(from_join(SqlJoinKind::Cross, SqlConstraint::Absent)), &ctx).unwrap();
    assert_eq!(strategy(&node.lower()), Some(JoinStrategy::BlockNestedLoop));

    let inner = rows(all(from_join(SqlJoinKind::Inner, on_k())), &mut ctx);
    assert_eq!(inner.len(), 1);
    assert_eq!(inner[0][3], Value::Text("A".into()));
    assert_eq!(rows(all(from_join(SqlJoinKind::Left, on_k())), &mut ctx).len(), 3);
    assert_eq!(rows(all(from_join(SqlJoinKind::Right, on_k())), &mut ctx).len(), 2);
    assert_eq!(rows(all(from_join(SqlJoinKind::FullOuter, on_k())), &mut ctx).len(), 4);
    let cross = all(from_join(SqlJoinKind::Cross, SqlConstraint::Absent));
    assert_eq!(rows(cross, &mut ctx).len(), 6);
}

#[test]
fn names_have_three_parts() {
    let ctx = context();
    let two = all(vec![SqlFrom {
        relation: SqlFactor::Table { name: name(&["d", "l"]), alias: None },
        joins: vec![],
    }]);
    assert!(bind(two, &ctx).is_err());
    let odd = all(vec![SqlFrom {
        relation: SqlFactor::Table { name: SqlName { parts: vec![None], written: "f()".into() }, alias: None },
        joins: vec![],
    }]);
    match bind(odd, &ctx) {
        Err(QueryError::Unsupported(text)) => assert_eq!(text, "non-identifier in name: f()"),
        other => panic!("{other:?}"),
    }
    let missing = all(vec![SqlFrom { relation: factor("x", None), joins: vec![] }]);
    assert!(matches!(
        bind(missing, &ctx),
        Err(QueryError::Catalog(CatalogError::NotFound { kind: ResourceKind::Table, .. }))
    ));
    // An alias takes the table's place.
    let aliased = vec![SqlFrom { relation: factor("l", Some("x")), joins: vec![] }];
    let q = query(select(aliased, vec![SqlItem::Expr(qualified(&["x", "id"]))]));
    assert!(bind(q, &ctx).is_ok());
}

#[test]
fn inserts_check_their_columns() {
    let ctx = context();
    let err = |s: SqlStatement| s.bind(&ctx).unwrap_err();
    assert!(matches!(err(insert("l", &["id", "id"], vec![])), QueryError::Type(_)));
    assert!(matches!(err(insert("l", &["nope"], vec![])), QueryError::Type(_)));
    let too_many = vec![vec![num("1"), num("2"), num("3")]];
    assert!(matches!(err(insert("l", &[], too_many)), QueryError::Type(_)));
    assert!(matches!(
        err(insert("l", &["id"], vec![vec![text("x")]])),
        QueryError::Type(_)
    ));
    let from_select = SqlStatement::Insert(SqlInsert {
        table: Some(name(&["p", "d", "l"])),
        columns: vec![],
        source: SqlSource::Other,
    });
    assert!(matches!(err(from_select), QueryError::Unsupported(_)));
    let into_query = SqlStatement::Insert(SqlInsert {
        table: None,
        columns: vec![],
        source: SqlSource::Values(vec![]),
    });
    assert!(matches!(err(into_query), QueryError::Unsupported(_)));
}

#[test]
fn values_are_coerced_to_their_column() {
    let none = Answers::new();
    assert_eq!(fit_int(5, &LogicalType::Int16, "a").unwrap(), Value::Int16(5));
    assert!(matches!(fit_int(70_000, &LogicalType::Int16, "a"), Err(QueryError::Type(_))));
    assert_eq!(
        coerce_to(Value::Int64(5), &LogicalType::Int32, true, "a", &none).unwrap(),
        Value::Int32(5)
    );
    assert_eq!(
        coerce_to(Value::Null, &LogicalType::Int32, true, "a", &none).unwrap(),
        Value::Null
    );
    assert!(matches!(
        coerce_to(Value::Null, &LogicalType::Int32, false, "a", &none),
        Err(QueryError::Type(_))
    ));
    assert!(matches!(
        coerce_to(Value::Bool(true), &LogicalType::Int32, true, "a", &none),
        Err(QueryError::Type(_))
    ));
    let mut field = Field::new("a", LogicalType::Text);
    assert_eq!(
        coerce_value(Value::Text("x".into()), &field, &none).unwrap(),
        Value::Text("x".into())
    );
    assert_eq!(resolve_default(&field, &none).unwrap(), Value::Null);
    field.nullable = false;
    assert!(matches!(resolve_default(&field, &none), Err(QueryError::Type(_))));
    field.default = Some(Expr::lit(Value::Text("d".into())));
    assert_eq!(resolve_default(&field, &none).unwrap(), Value::Text("d".into()));
    assert_eq!(const_eval(&bin(SqlBinaryOp::Lt, num("1"), num("2")), &none).unwrap(), Value::Bool(true));
    assert!(const_eval(&col("a"), &none).is_err());
}

#[test]
fn floats_are_the_hosts_to_convert() {
    let mut answers = Answers::new();
    let asked = coerce_to(Value::Int64(3), &LogicalType::Float64, true, "a", &answers);
    assert!(matches!(&asked, Err(QueryError::Host(HostOp::FloatOfInt(3)))));
    let three = Float64 { bits: 3f64.to_bits() };
    answers.record(HostOp::FloatOfInt(3), HostAnswer::Float64(three));
    let got = coerce_to(Value::Int64(3), &LogicalType::Float64, true, "a", &answers).unwrap();
    assert_eq!(got, Value::Float64(three));
}

fn create(table: &str, columns: Vec<SqlColumn>) -> SqlCreateTable {
    SqlCreateTable {
        name: name(&["p", "d", table]),
        columns,
        or_replace: false,
        from_query: false,
        from_table: false,
        constrained: false,
    }
}

fn column(n: &str, options: Vec<SqlColumnOption>) -> SqlColumn {
    SqlColumn { name: n.into(), ty: SqlType::Int, options }
}

#[test]
fn tables_are_created_from_plain_column_lists() {
    let mut ctx = context();
    let refuse = |c: SqlCreateTable, ctx: &QueryContext| {
        assert!(matches!(
            SqlStatement::CreateTable(c).bind(ctx),
            Err(QueryError::Unsupported(_))
        ));
    };
    refuse(create("t", vec![]), &ctx);
    refuse(create("t", vec![column("a", vec![SqlColumnOption::Other("?".into())])]), &ctx);
    let mut c = create("t", vec![column("a", vec![])]);
    c.from_query = true;
    refuse(c, &ctx);
    let mut c = create("t", vec![column("a", vec![])]);
    c.constrained = true;
    refuse(c, &ctx);
    let mut c = create("t", vec![column("a", vec![])]);
    c.from_table = true;
    refuse(c, &ctx);

    let options = vec![SqlColumnOption::NotNull, SqlColumnOption::Default(num("7"))];
    let made = create("t", vec![column("a", vec![]), column("b", options)]);
    let node = SqlStatement::CreateTable(made).bind(&ctx).unwrap().root;
    assert!(matches!(run(node, &mut ctx), ExecuteResult::Affected(0)));
    let table = ctx.catalog.resolve_table("p", "d", "t").unwrap();
    assert_eq!(table.id(), TableId(id(50)));
    let fields = &table.schema().fields;
    assert!(fields[0].nullable && fields[0].default.is_none());
    assert!(!fields[1].nullable && fields[1].default.is_some());

    // The second time it is there.
    let again = create("t", vec![column("a", vec![])]);
    let node = SqlStatement::CreateTable(again).bind(&ctx).unwrap().root;
    let outcome = Volcano.execute(PhysicalPlan::new(node.lower()), &mut ctx, id(51));
    assert!(matches!(
        outcome,
        Err(QueryError::Catalog(CatalogError::AlreadyExists { kind: ResourceKind::Table, .. }))
    ));
}

#[test]
fn schemas_are_datasets() {
    let mut ctx = context();
    let schema = |parts: &[&str], if_not_exists: bool| {
        SqlStatement::CreateSchema(SqlCreateSchema {
            name: Some(name(parts)),
            if_not_exists,
            has_options: false,
        })
    };
    let node = schema(&["p", "e"], false).bind(&ctx).unwrap().root;
    assert!(matches!(run(node, &mut ctx), ExecuteResult::Affected(0)));
    assert!(ctx.catalog.get_dataset(ProjectId(id(1)), "e").is_some());
    let node = schema(&["p", "e"], true).bind(&ctx).unwrap().root;
    assert!(matches!(run(node, &mut ctx), ExecuteResult::Affected(0)));
    let node = schema(&["p", "e"], false).bind(&ctx).unwrap().root;
    let outcome = Volcano.execute(PhysicalPlan::new(node.lower()), &mut ctx, id(52));
    assert!(matches!(
        outcome,
        Err(QueryError::Catalog(CatalogError::AlreadyExists { kind: ResourceKind::Dataset, .. }))
    ));
    let with_options = SqlStatement::CreateSchema(SqlCreateSchema {
        name: Some(name(&["p", "f"])),
        if_not_exists: false,
        has_options: true,
    });
    assert!(matches!(with_options.bind(&ctx), Err(QueryError::Unsupported(_))));
    assert!(matches!(
        schema(&["x", "f"], false).bind(&ctx),
        Err(QueryError::Catalog(CatalogError::NotFound { kind: ResourceKind::Project, .. }))
    ));
}

#[test]
fn limits_follow_the_memory() {
    let small = JoinConfig::from_system_memory(1_600);
    assert_eq!((small.build_budget, small.hash_partitions), (100, 32));
    assert_eq!(small.partition_memory, 4 * 1024 * 1024);
    assert_eq!(small.partition_disk, 1 << 32);
    assert_eq!(JoinConfig::from_detected(1_600).build_budget, 100);
    // Nothing detected: eight gibibytes.
    assert_eq!(JoinConfig::from_detected(0).build_budget, 512 * 1024 * 1024);
    assert_eq!(JoinConfig::default().build_budget, 512 * 1024 * 1024);
    let here = JoinConfig::from_system();
    assert!(here.build_budget > 0);
    assert_eq!(here.hash_partitions, 32);
}

#[test]
fn errors_say_what_is_wrong() {
    let ctx = context();
    let said = |e: QueryError| match e {
        QueryError::Type(s) | QueryError::Unsupported(s) | QueryError::Internal(s) => s,
        other => panic!("no text in {other:?}"),
    };
    let unknown = insert("l", &["nope"], vec![]).bind(&ctx).unwrap_err();
    assert_eq!(said(unknown), "column `nope` does not exist in `l`");
    let twice = insert("l", &["id", "id"], vec![]).bind(&ctx).unwrap_err();
    assert_eq!(said(twice), "column `id` specified more than once");
    let many = insert("l", &["k"], vec![vec![num("1"), num("2")]]).bind(&ctx).unwrap_err();
    assert_eq!(said(many), "INSERT has 2 value(s) but 1 column(s) are targeted in `l`");
    let wide = fit_int(-70_000, &LogicalType::Int16, "a").unwrap_err();
    assert_eq!(said(wide), "value -70000 out of range for column `a` of type Int16");
    let arity = resolve_scalar_func("ABS", 2).unwrap_err();
    assert_eq!(said(arity), "ABS takes exactly 1 argument, got 2");
    let function = resolve_scalar_func("SUM", 1).unwrap_err();
    assert_eq!(said(function), "function SUM");
    let uuid = bind_typed_string(&SqlType::Uuid, "Uuid", &Some("x\"".into()), &Answers::new());
    assert_eq!(said(uuid.unwrap_err()), "invalid UUID literal: \"x\\\"\"");
    let short = all(vec![SqlFrom {
        relation: SqlFactor::Table { name: name(&["d", "l"]), alias: None },
        joins: vec![],
    }]);
    assert_eq!(said(bind(short, &ctx).unwrap_err()), "name needs project.dataset.table, got: d.l");
    let minus = SqlExpr::Unary { sign: SqlUnaryOp::Minus, expr: Box::new(num("1")) };
    assert_eq!(
        said(bind_count(&minus, &Answers::new(), "OFFSET").unwrap_err()),
        "OFFSET must be non-negative"
    );
    assert_eq!(LogicalType::Array(Box::new(LogicalType::Text)).name(), "Array(Text)");
}

#[test]
fn passes_have_names() {
    assert_eq!(Parse.name(), "parse");
    assert_eq!(Analyze.name(), "analyze");
    assert_eq!(Bind.name(), "bind");
    assert_eq!(BuildLogical.name(), "build_logical");
    assert_eq!(OptimizeLogical::default().name(), "optimize_logical");
    assert_eq!(Lower.name(), "lower");
    assert_eq!(OptimizePhysical::new(vec![]).name(), "optimize_physical");
}

#[test]
fn each_spelling_of_a_type_has_its_type() {
    let spellings = vec![
        (SqlType::Bool, LogicalType::Bool),
        (SqlType::Boolean, LogicalType::Bool),
        (SqlType::Int2, LogicalType::Int16),
        (SqlType::Int, LogicalType::Int32),
        (SqlType::Integer, LogicalType::Int32),
        (SqlType::Int4, LogicalType::Int32),
        (SqlType::BigInt, LogicalType::Int64),
        (SqlType::Int8, LogicalType::Int64),
        (SqlType::Varchar, LogicalType::Text),
        (SqlType::Char, LogicalType::Text),
        (SqlType::CharVarying, LogicalType::Text),
        (SqlType::Bytea, LogicalType::Bytes),
        (SqlType::Jsonb, LogicalType::Json),
        (SqlType::Timestamp { zone: SqlZone::With }, LogicalType::Timestamp),
        (SqlType::Timestamp { zone: SqlZone::Tz }, LogicalType::Timestamp),
        (SqlType::Time { zone: SqlZone::Without }, LogicalType::Time),
        (SqlType::Real, LogicalType::Float32),
        (SqlType::Float4, LogicalType::Float32),
        (SqlType::DoublePrecision, LogicalType::Float64),
        (SqlType::Float8, LogicalType::Float64),
        (SqlType::Float { precision: None }, LogicalType::Float64),
        (SqlType::Decimal, LogicalType::Numeric),
        (SqlType::Dec, LogicalType::Numeric),
        (SqlType::BigNumeric, LogicalType::Numeric),
        (SqlType::BigDecimal, LogicalType::Numeric),
        (SqlType::Interval, LogicalType::Interval),
    ];
    for (spelling, ty) in spellings {
        assert_eq!(bind_data_type(&spelling).unwrap(), ty, "{spelling:?}");
    }
}

#[test]
fn refusals_say_what_was_refused() {
    let said = |ty: SqlType| match bind_data_type(&ty) {
        Err(QueryError::Unsupported(text)) => text,
        other => panic!("{other:?}"),
    };
    let bare = SqlType::Timestamp { zone: SqlZone::Unsaid };
    assert_eq!(said(bare), "TIMESTAMP WITHOUT TIME ZONE (use TIMESTAMP WITH TIME ZONE)");
    assert_eq!(said(SqlType::Time { zone: SqlZone::Tz }), "TIME WITH TIME ZONE");
    assert_eq!(said(SqlType::Other("Xml".into())), "column type: Xml");
    let nested = SqlType::Array(Some(Box::new(SqlType::Array(Some(Box::new(SqlType::Int))))));
    assert_eq!(said(nested), "nested arrays");
    assert_eq!(said(SqlType::Array(None)), "ARRAY without an element type");
    assert_eq!(
        said(SqlType::Array(Some(Box::new(SqlType::Other("Xml".into()))))),
        "column type: Xml"
    );
    match bound(SqlExpr::Other("Wildcard".into())) {
        Err(QueryError::Unsupported(text)) => assert_eq!(text, "expression: Wildcard"),
        other => panic!("{other:?}"),
    }
    match bound(bin(SqlBinaryOp::Other("Plus".into()), num("1"), num("2"))) {
        Err(QueryError::Unsupported(text)) => assert_eq!(text, "binary op: Plus"),
        other => panic!("{other:?}"),
    }
}
