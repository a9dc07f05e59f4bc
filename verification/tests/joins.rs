//! Joins, one strategy at a time, and sorts.

use strata_db::catalog::ids::{DatasetId, ProjectId, TableId};
use strata_db::catalog::state::Catalog;
use strata_db::catalog::tables::Table;
use strata_db::query::config::JoinConfig;
use strata_db::query::context::QueryContext;
use strata_db::query::error::QueryError;
use strata_db::query::expression::compare::values_eq;
use strata_db::query::expression::{BinaryOperator, Expr};
use strata_db::query::host::{Answers, HostAnswer, HostOp};
use strata_db::query::physical_plan::{JoinStrategy, PhysicalPlan, PlanNode};
use strata_db::query::volcano::join::block::block_nested_loop_join;
use strata_db::query::volcano::join::bucket::partition_input;
use strata_db::query::volcano::join::grace::{
    grace_hash_join, join_pairs, BucketPair, HashJoinParams,
};
use strata_db::query::volcano::join::keys::key_bytes;
use strata_db::query::volcano::join::merge::sort_merge_join;
use strata_db::query::volcano::join::model::JoinType;
use strata_db::query::volcano::sink::{ExecuteResult, Volcano};
use strata_db::query::volcano::sort::{sort_part, SortKey};
use strata_db::storage::decimal::Decimal;
use strata_db::storage::types::{
    Field, Float32, Float64, Interval, LogicalType, Schema, Tuple, Uuid, Value,
};

fn id(n: u128) -> Uuid {
    Uuid { value: n }
}

/// A context with one project and one dataset.
fn context(dataset: &str) -> QueryContext {
    let mut catalog = Catalog::new(ProjectId(id(0)));
    let p = catalog.create_project("acme", ProjectId(id(1))).unwrap();
    catalog.create_dataset(p.id, dataset, DatasetId(id(2))).unwrap();
    QueryContext::new(catalog, Answers::new(), JoinConfig::default())
}

fn create(ctx: &mut QueryContext, dataset: &str, name: &str, n: u128, schema: Schema) -> Table {
    ctx.catalog
        .create_table(ProjectId(id(1)), DatasetId(id(2)), name, schema, TableId(id(n)))
        .unwrap();
    ctx.catalog.resolve_table("acme", dataset, name).unwrap()
}

fn two_ints() -> Schema {
    Schema {
        fields: vec![
            Field::new("id", LogicalType::Int32),
            Field::new("k", LogicalType::Int32),
        ],
    }
}

fn labelled() -> Schema {
    Schema {
        fields: vec![
            Field::new("id", LogicalType::Int32),
            Field::new("label", LogicalType::Text),
        ],
    }
}

/// `l(id, k)` and `r(id, label)`, joined on `l.k = r.id`. `l` row (3,99) and `r` row (40,'C')
/// have no match.
fn build_tables(ctx: &mut QueryContext) -> (Table, Table) {
    let l = create(ctx, "j", "l", 10, two_ints());
    let r = create(ctx, "j", "r", 11, labelled());
    for (id, k) in [(1, 10), (2, 20), (3, 99)] {
        ctx.put_row(&l, &row2(id, Value::Int32(k))).unwrap();
    }
    for (id, label) in [(10, "A"), (20, "B"), (40, "C")] {
        ctx.put_row(&r, &row2(id, Value::Text(label.to_string()))).unwrap();
    }
    (l, r)
}

fn row2(id: i32, second: Value) -> Tuple {
    Tuple { values: vec![Value::Int32(id), second] }
}

/// `l.k = r.id` over the concatenated `l ++ r` row.
fn on_lk_eq_rid() -> Expr {
    Expr::binary(BinaryOperator::Eq, Expr::column(1), Expr::column(2))
}

fn join_plan(
    l: Table,
    r: Table,
    on: Option<Expr>,
    join_type: JoinType,
    strategy: JoinStrategy,
) -> PhysicalPlan {
    let left_schema = l.schema().clone();
    let right_schema = r.schema().clone();
    PhysicalPlan::new(PlanNode::Join {
        left: Box::new(PlanNode::SeqScan { table: l }),
        right: Box::new(PlanNode::SeqScan { table: r }),
        on,
        join_type,
        left_schema,
        right_schema,
        strategy,
    })
}

fn run(plan: PhysicalPlan, ctx: &mut QueryContext) -> Vec<Tuple> {
    match Volcano.execute(plan, ctx, id(99)).unwrap() {
        ExecuteResult::Rows(rows) => rows.into_iter().map(|r| r.unwrap()).collect(),
        ExecuteResult::Affected(_) => panic!("expected Rows"),
    }
}

/// Join output is unordered.
fn sorted(mut rows: Vec<Tuple>) -> Vec<Tuple> {
    rows.sort_by_key(|t| format!("{:?}", t.values));
    rows
}

const STRATEGIES: [JoinStrategy; 2] = [JoinStrategy::NestedLoop, JoinStrategy::BlockNestedLoop];

const JOIN_TYPES: [JoinType; 4] = [
    JoinType::Inner,
    JoinType::Left,
    JoinType::Right,
    JoinType::Full,
];

#[test]
fn each_strategy_inner_join_matches_expected() {
    let mut ctx = context("j");
    let (l, r) = build_tables(&mut ctx);

    let expected = sorted(vec![
        Tuple {
            values: vec![
                Value::Int32(1),
                Value::Int32(10),
                Value::Int32(10),
                Value::Text("A".into()),
            ],
        },
        Tuple {
            values: vec![
                Value::Int32(2),
                Value::Int32(20),
                Value::Int32(20),
                Value::Text("B".into()),
            ],
        },
    ]);

    for strategy in STRATEGIES {
        let rows = run(
            join_plan(
                l.clone(),
                r.clone(),
                Some(on_lk_eq_rid()),
                JoinType::Inner,
                strategy,
            ),
            &mut ctx,
        );
        assert_eq!(sorted(rows), expected, "inner join, {strategy:?}");
    }
}

#[test]
fn each_strategy_outer_joins_pad_unmatched() {
    let mut ctx = context("j");
    let (l, r) = build_tables(&mut ctx);

    let l3 = || Value::Int32(3); // l (3,99) is the unmatched left row
    let unmatched_left = Tuple {
        values: vec![l3(), Value::Int32(99), Value::Null, Value::Null],
    };
    let unmatched_right = Tuple {
        values: vec![
            Value::Null,
            Value::Null,
            Value::Int32(40),
            Value::Text("C".into()),
        ],
    };

    for strategy in STRATEGIES {
        let mut joined = |join_type| {
            run(
                join_plan(
                    l.clone(),
                    r.clone(),
                    Some(on_lk_eq_rid()),
                    join_type,
                    strategy,
                ),
                &mut ctx,
            )
        };
        let left = joined(JoinType::Left);
        assert!(
            left.contains(&unmatched_left),
            "LEFT keeps unmatched left, {strategy:?}"
        );
        assert_eq!(left.len(), 3, "LEFT row count, {strategy:?}");

        let right = joined(JoinType::Right);
        assert!(
            right.contains(&unmatched_right),
            "RIGHT keeps unmatched right, {strategy:?}"
        );
        assert_eq!(right.len(), 3, "RIGHT row count, {strategy:?}");

        let full = sorted(joined(JoinType::Full));
        assert!(full.contains(&unmatched_left) && full.contains(&unmatched_right));
        assert_eq!(full.len(), 4, "FULL row count, {strategy:?}"); // 2 matched + 2 unmatched
    }
}

#[test]
fn strategies_agree_including_cross_join() {
    let mut ctx = context("j");
    let (l, r) = build_tables(&mut ctx);

    for join_type in JOIN_TYPES {
        let nlj = sorted(run(
            join_plan(
                l.clone(),
                r.clone(),
                Some(on_lk_eq_rid()),
                join_type,
                JoinStrategy::NestedLoop,
            ),
            &mut ctx,
        ));
        let bnlj = sorted(run(
            join_plan(
                l.clone(),
                r.clone(),
                Some(on_lk_eq_rid()),
                join_type,
                JoinStrategy::BlockNestedLoop,
            ),
            &mut ctx,
        ));
        assert_eq!(nlj, bnlj, "strategies disagree for {join_type:?}");
    }

    // Cross join (on: None): 3 x 3 = 9 pairs, both strategies.
    for strategy in STRATEGIES {
        let rows = run(
            join_plan(l.clone(), r.clone(), None, JoinType::Inner, strategy),
            &mut ctx,
        );
        assert_eq!(rows.len(), 9, "cross join, {strategy:?}");
    }
}

#[test]
fn hash_join_agrees_with_nested_loop() {
    let mut ctx = context("j");
    let (l, r) = build_tables(&mut ctx);
    for join_type in JOIN_TYPES {
        let mut joined = |strategy| {
            sorted(run(
                join_plan(
                    l.clone(),
                    r.clone(),
                    Some(on_lk_eq_rid()),
                    join_type,
                    strategy,
                ),
                &mut ctx,
            ))
        };
        assert_eq!(
            joined(JoinStrategy::GraceHash),
            joined(JoinStrategy::NestedLoop),
            "{join_type:?}"
        );
    }
}

#[test]
fn block_nested_loop_spans_multiple_blocks() {
    // More outer rows than one block, so that the blocking path runs for real.
    let mut ctx = context("big");
    let big = create(&mut ctx, "big", "outer", 10, two_ints());
    let small = create(&mut ctx, "big", "inner", 11, labelled());
    for id in 0..2500i32 {
        // k cycles 0..5; only k in {1,2,3} match the inner.
        ctx.put_row(&big, &row2(id, Value::Int32(id % 5))).unwrap();
    }
    for id in 1..=3i32 {
        ctx.put_row(&small, &row2(id, Value::Text(format!("L{id}")))).unwrap();
    }

    let nlj = sorted(run(
        join_plan(
            big.clone(),
            small.clone(),
            Some(on_lk_eq_rid()),
            JoinType::Inner,
            JoinStrategy::NestedLoop,
        ),
        &mut ctx,
    ));
    let bnlj = sorted(run(
        join_plan(
            big,
            small,
            Some(on_lk_eq_rid()),
            JoinType::Inner,
            JoinStrategy::BlockNestedLoop,
        ),
        &mut ctx,
    ));
    assert_eq!(nlj, bnlj);
    // 2500 outer rows, 3/5 of them match exactly one inner row.
    assert_eq!(bnlj.len(), 1500);
}

fn skey(column: usize) -> SortKey {
    SortKey {
        expr: Expr::column(column),
        ascending: true,
        nulls_first: false,
    }
}

/// A sort-merge join with sorts on the join keys.
fn sort_merge_plan(
    l: Table,
    r: Table,
    on: Expr,
    left_key: usize,
    right_key: usize,
) -> PhysicalPlan {
    let left_schema = l.schema().clone();
    let right_schema = r.schema().clone();
    let left = PlanNode::Sort {
        input: Box::new(PlanNode::SeqScan { table: l }),
        keys: vec![skey(left_key)],
        input_schema: left_schema.clone(),
    };
    let right = PlanNode::Sort {
        input: Box::new(PlanNode::SeqScan { table: r }),
        keys: vec![skey(right_key)],
        input_schema: right_schema.clone(),
    };
    PhysicalPlan::new(PlanNode::Join {
        left: Box::new(left),
        right: Box::new(right),
        on: Some(on),
        join_type: JoinType::Inner,
        left_schema,
        right_schema,
        strategy: JoinStrategy::SortMerge,
    })
}

#[test]
fn sort_merge_matches_nested_loop_inner() {
    let mut ctx = context("j");
    let (l, r) = build_tables(&mut ctx);
    // l.k (col 1) = r.id (col 0).
    let smj = sorted(run(
        sort_merge_plan(l.clone(), r.clone(), on_lk_eq_rid(), 1, 0),
        &mut ctx,
    ));
    let nlj = sorted(run(
        join_plan(
            l,
            r,
            Some(on_lk_eq_rid()),
            JoinType::Inner,
            JoinStrategy::NestedLoop,
        ),
        &mut ctx,
    ));
    assert_eq!(smj, nlj, "sort-merge must match the nested-loop reference");
    assert_eq!(smj.len(), 2);
}

#[test]
fn sort_merge_expands_duplicate_key_groups() {
    let mut ctx = context("dup");
    let l = create(&mut ctx, "dup", "l", 10, two_ints());
    let r = create(&mut ctx, "dup", "r", 11, two_ints());
    for (id, k) in [(1, 5), (2, 5), (3, 9)] {
        ctx.put_row(&l, &row2(id, Value::Int32(k))).unwrap();
    }
    for (id, k) in [(10, 5), (11, 5), (12, 7)] {
        ctx.put_row(&r, &row2(id, Value::Int32(k))).unwrap();
    }
    // l.k (col 1) = r.k (combined col 3, right-local col 1).
    let on = Expr::binary(BinaryOperator::Eq, Expr::column(1), Expr::column(3));
    let rows = run(sort_merge_plan(l, r, on, 1, 1), &mut ctx);
    // The k=5 group is 2 left × 2 right; k=9 / k=7 don't match.
    assert_eq!(rows.len(), 4);
}

#[test]
fn merge_of_unsorted_inputs_is_refused() {
    let mut ctx = context("j");
    let l = create(&mut ctx, "j", "l", 10, two_ints());
    for (id, k) in [(1, 9), (2, 5)] {
        ctx.put_row(&l, &row2(id, Value::Int32(k))).unwrap();
    }
    let plan = join_plan(
        l.clone(),
        l,
        Some(Expr::binary(BinaryOperator::Eq, Expr::column(1), Expr::column(3))),
        JoinType::Inner,
        JoinStrategy::SortMerge,
    );
    assert!(Volcano.execute(plan, &mut ctx, id(99)).is_err());
}

// --- sorts ---

/// A table `t(id INT, k INT)` filled from `rows` of `(id, k)`.
fn build_table(ctx: &mut QueryContext, rows: impl IntoIterator<Item = (i32, i32)>) -> Table {
    let table = create(ctx, "s", "t", 10, two_ints());
    for (id, k) in rows {
        ctx.put_row(&table, &row2(id, Value::Int32(k))).unwrap();
    }
    table
}

fn sort_plan(table: Table, keys: Vec<SortKey>) -> PhysicalPlan {
    let input_schema = table.schema().clone();
    PhysicalPlan::new(PlanNode::Sort {
        input: Box::new(PlanNode::SeqScan { table }),
        keys,
        input_schema,
    })
}

fn key(column: usize, ascending: bool) -> SortKey {
    SortKey {
        expr: Expr::column(column),
        ascending,
        nulls_first: !ascending,
    }
}

fn ks(rows: &[Tuple]) -> Vec<i32> {
    rows.iter()
        .map(|t| match t.values[1] {
            Value::Int32(k) => k,
            ref other => panic!("expected Int32 k, got {other:?}"),
        })
        .collect()
}

#[test]
fn sorts_ascending_and_descending() {
    let mut ctx = context("s");
    let table = build_table(&mut ctx, [(1, 30), (2, 10), (3, 20), (4, 10)]);

    let asc = run(sort_plan(table.clone(), vec![key(1, true)]), &mut ctx);
    assert_eq!(ks(&asc), vec![10, 10, 20, 30]);

    let desc = run(sort_plan(table, vec![key(1, false)]), &mut ctx);
    assert_eq!(ks(&desc), vec![30, 20, 10, 10]);
}

#[test]
fn external_merge_spans_multiple_runs() {
    // Keys are scrambled, so that an unsorted pass cannot look sorted.
    let mut ctx = context("s");
    let n = 5_000i32;
    let table = build_table(
        &mut ctx,
        (0..n).map(|id| (id, ((id as i64).wrapping_mul(2_654_435_761) % 9973) as i32)),
    );

    let sorted = run(sort_plan(table, vec![key(1, true)]), &mut ctx);
    assert_eq!(sorted.len(), n as usize);

    let keys = ks(&sorted);
    let mut expected = keys.clone();
    expected.sort_unstable();
    assert_eq!(keys, expected, "external merge sort must be fully ordered");
}

#[test]
fn nulls_go_where_they_are_told() {
    let mut ctx = context("s");
    let rows = vec![
        row2(1, Value::Int32(5)),
        row2(2, Value::Null),
        row2(3, Value::Int32(4)),
    ];
    let mut ids = |ascending, nulls_first| -> Vec<Value> {
        let plan = PhysicalPlan::new(PlanNode::Sort {
            input: Box::new(PlanNode::Values { rows: rows.clone() }),
            keys: vec![SortKey { expr: Expr::column(1), ascending, nulls_first }],
            input_schema: two_ints(),
        });
        run(plan, &mut ctx).into_iter().map(|t| t.values[0].clone()).collect()
    };
    let i = Value::Int32;
    assert_eq!(ids(true, false), vec![i(3), i(1), i(2)]);
    assert_eq!(ids(true, true), vec![i(2), i(3), i(1)]);
    assert_eq!(ids(false, true), vec![i(2), i(1), i(3)]);
    assert_eq!(ids(false, false), vec![i(1), i(3), i(2)]);
}

// --- hash partitions ---

/// Small, fixed sizes with a build budget that forces repartitioning.
fn test_config(build_budget: usize) -> JoinConfig {
    JoinConfig {
        partition_memory: 64 * 1024,
        partition_disk: 1 << 30,
        build_budget,
        hash_partitions: 16,
    }
}

/// Join a single bucket pair with the given build budget.
fn run_stream(budget: usize, jt: JoinType, l: &[(i32, i32)], r: &[(i32, i32)]) -> Vec<Tuple> {
    let params = HashJoinParams {
        join_type: jt,
        left_key: 1,
        right_key: 1,
        left_width: 2,
        right_width: 2,
        config: test_config(budget),
    };
    let bucket = |rows: &[(i32, i32)]| {
        let items = rows.iter().map(|(id, k)| Ok(row2(*id, Value::Int32(*k)))).collect();
        let (mut parts, nulls) = partition_input(items, 1, 1).unwrap();
        assert!(nulls.is_empty());
        parts.pop().unwrap()
    };
    let mut out = Vec::new();
    join_pairs(
        vec![BucketPair { left: bucket(l), right: bucket(r), level: 0 }],
        &params,
        &mut out,
    );
    out.sort_by_key(|t| format!("{:?}", t.values));
    out
}

#[test]
fn repartitioning_preserves_results() {
    // Many rows over 200 keys: a small budget forces a repartition pass. The result must equal
    // the single-pass join, for every join type.
    let l: Vec<(i32, i32)> = (0..2000).map(|i| (i, i % 200)).collect();
    let r: Vec<(i32, i32)> = (0..2000).map(|i| (i, i % 200)).collect();
    for jt in JOIN_TYPES {
        let repartitioned = run_stream(8 * 1024, jt, &l, &r);
        let single_pass = run_stream(1 << 30, jt, &l, &r);
        assert_eq!(repartitioned, single_pass, "{jt:?} repartition mismatch");
    }
}

#[test]
fn builds_on_the_smaller_side() {
    // Tiny left, huge right: every left key 5 matches every right key-5 row.
    let l = [(1, 5), (2, 5)];
    let r: Vec<(i32, i32)> = (0..500).map(|i| (i, if i < 100 { 5 } else { 9 })).collect();
    let rows = run_stream(1 << 30, JoinType::Inner, &l, &r);
    assert_eq!(rows.len(), 2 * 100); // 2 left × 100 matching right
}

#[test]
fn irreducible_single_key_still_joins() {
    // No seed separates identical keys, so this exhausts the recursion and builds in memory
    // anyway.
    let l: Vec<(i32, i32)> = (0..40).map(|i| (i, 7)).collect();
    let r: Vec<(i32, i32)> = (0..40).map(|i| (i, 7)).collect();
    let skewed = run_stream(64, JoinType::Inner, &l, &r);
    assert_eq!(skewed.len(), 40 * 40);
    assert_eq!(skewed, run_stream(1 << 30, JoinType::Inner, &l, &r));
}

#[test]
fn skew_preserves_outer_joins() {
    // Skewed keys (7 vs 9) that never match: every left and right row survives, padded.
    let l: Vec<(i32, i32)> = (0..30).map(|i| (i, 7)).collect();
    let r: Vec<(i32, i32)> = (0..30).map(|i| (i, 9)).collect();
    let full = run_stream(64, JoinType::Full, &l, &r);
    assert_eq!(full.len(), 60);
    assert_eq!(full, run_stream(1 << 30, JoinType::Full, &l, &r));
}

#[test]
fn null_keys_match_nothing() {
    let mut ctx = context("s");
    let rows = vec![row2(1, Value::Null), row2(2, Value::Int32(7))];
    for strategy in [JoinStrategy::NestedLoop, JoinStrategy::BlockNestedLoop, JoinStrategy::GraceHash] {
        let plan = PhysicalPlan::new(PlanNode::Join {
            left: Box::new(PlanNode::Values { rows: rows.clone() }),
            right: Box::new(PlanNode::Values { rows: rows.clone() }),
            on: Some(Expr::binary(BinaryOperator::Eq, Expr::column(1), Expr::column(3))),
            join_type: JoinType::Full,
            left_schema: two_ints(),
            right_schema: two_ints(),
            strategy,
        });
        // One match; each null row survives alone on its side.
        assert_eq!(run(plan, &mut ctx).len(), 3, "{strategy:?}");
    }
}

#[test]
fn grace_hash_join_stops_at_the_first_error() {
    let params = |n: usize| HashJoinParams {
        join_type: JoinType::Inner,
        left_key: 1,
        right_key: 0,
        left_width: 2,
        right_width: 2,
        config: JoinConfig { hash_partitions: n, ..JoinConfig::default() },
    };
    let left = || vec![Ok(row2(1, Value::Int32(10))), Ok(row2(2, Value::Null))];
    let right = || vec![Ok(row2(10, Value::Int32(7))), Ok(row2(11, Value::Int32(8)))];
    // The fan-out does not matter.
    for n in [1, 2, 32] {
        let rows = grace_hash_join(left(), right(), &params(n)).unwrap();
        assert_eq!(rows.len(), 1);
        assert_eq!(
            rows[0].values,
            vec![Value::Int32(1), Value::Int32(10), Value::Int32(10), Value::Int32(7)]
        );
    }
    let mut broken = left();
    broken.push(Err(QueryError::Internal("boom".into())));
    let outcome = grace_hash_join(broken, right(), &params(2));
    assert!(matches!(outcome, Err(QueryError::Internal(m)) if m == "boom"));
}

fn double(x: f64) -> Value {
    Value::Float64(Float64 { bits: x.to_bits() })
}

fn single(x: f32) -> Value {
    Value::Float32(Float32 { bits: x.to_bits() })
}

fn decimal(s: &str) -> Value {
    Value::Numeric(Decimal::parse(s).unwrap())
}

#[test]
fn join_keys_agree_where_values_are_equal() {
    let none = Answers::new();
    let values = vec![
        Value::Bool(true),
        Value::Int16(5),
        Value::Int32(5),
        Value::Int64(5),
        Value::Int64(6),
        decimal("5"),
        decimal("5.00"),
        decimal("5.5"),
        Value::Text("5".into()),
        Value::Bytes(b"5".to_vec()),
        Value::Date(5),
        Value::Timestamp(5),
        Value::Time(5),
        Value::Uuid(id(5)),
        Value::Interval(Interval { months: 0, days: 1, micros: 0 }),
        Value::Interval(Interval { months: 0, days: 0, micros: 86_400_000_000 }),
    ];
    let floats = vec![
        single(0.5),
        double(0.5),
        double(-0.0),
        double(0.0),
        double(f64::NAN),
        double(-f64::NAN),
        single(f32::NAN),
    ];
    for side in [&values, &floats] {
        for a in side {
            for b in side {
                let same = values_eq(a, b, &none).unwrap();
                let keys = (key_bytes(a).unwrap().unwrap(), key_bytes(b).unwrap().unwrap());
                assert_eq!(keys.0 == keys.1, same, "{a:?} against {b:?}");
            }
        }
    }
    assert_eq!(key_bytes(&Value::Int32(5)).unwrap(), key_bytes(&Value::Int64(5)).unwrap());
    assert!(key_bytes(&Value::Null).unwrap().is_none());
    let holed = Value::Array(vec![Value::Int32(1), Value::Null]);
    assert!(matches!(key_bytes(&holed), Err(QueryError::Type(_))));
}

/// Two one-column inputs, joined by each strategy that takes them.
fn join_values(l: Vec<Value>, r: Vec<Value>, jt: JoinType, strategy: JoinStrategy) -> Vec<Tuple> {
    let mut ctx = context("j");
    for n in [5, 6, 9007199254740992, 9007199254740993] {
        let f = Float64 { bits: (n as f64).to_bits() };
        ctx.answers.record(HostOp::FloatOfInt(n), HostAnswer::Float64(f));
    }
    let values = |vs: Vec<Value>| PlanNode::Values {
        rows: vs.into_iter().map(|v| Tuple { values: vec![v] }).collect(),
    };
    let schema = || Schema { fields: vec![Field::new("k", LogicalType::Int64)] };
    run(
        PhysicalPlan::new(PlanNode::Join {
            left: Box::new(values(l)),
            right: Box::new(values(r)),
            on: Some(Expr::binary(BinaryOperator::Eq, Expr::column(0), Expr::column(1))),
            join_type: jt,
            left_schema: schema(),
            right_schema: schema(),
            strategy,
        }),
        &mut ctx,
    )
}

#[test]
fn hash_joins_match_numbers_across_types() {
    let cases: Vec<(Vec<Value>, Vec<Value>, usize)> = vec![
        (vec![Value::Int32(5), Value::Int32(6)], vec![Value::Int64(5)], 1),
        (vec![Value::Int16(5)], vec![decimal("5.0"), decimal("5.1")], 1),
        (vec![single(0.5), single(0.1)], vec![double(0.5), double(0.1)], 1),
        (vec![Value::Int64(5), Value::Int64(6)], vec![double(5.0)], 1),
        (
            vec![Value::Int64(9007199254740992), Value::Int64(9007199254740993)],
            vec![double(9007199254740992.0)],
            2,
        ),
    ];
    for (l, r, inner) in cases {
        for jt in JOIN_TYPES {
            let copy = |vs: &Vec<Value>| vs.iter().map(|v| v.clone()).collect::<Vec<_>>();
            let hashed = join_values(copy(&l), copy(&r), jt, JoinStrategy::GraceHash);
            let looped = join_values(copy(&l), copy(&r), jt, JoinStrategy::NestedLoop);
            assert_eq!(sorted(hashed), sorted(looped));
        }
        let hashed = join_values(l, r, JoinType::Inner, JoinStrategy::GraceHash);
        assert_eq!(hashed.len(), inner);
    }
}

#[test]
fn merges_match_numbers_across_widths() {
    let rows = join_values(
        vec![Value::Int32(1), Value::Int32(5), Value::Int32(5)],
        vec![decimal("0.5"), Value::Int64(5), decimal("5.00")],
        JoinType::Inner,
        JoinStrategy::SortMerge,
    );
    assert_eq!(rows.len(), 4);
    let rows = join_values(
        vec![single(-1.5), single(0.5)],
        vec![double(-2.0), double(0.5), double(f64::NAN)],
        JoinType::Inner,
        JoinStrategy::SortMerge,
    );
    assert_eq!(rows.len(), 1);
}

#[test]
fn a_merge_fails_where_a_comparison_does() {
    let left = vec![Tuple { values: vec![Value::Uuid(id(1))] }];
    let right = vec![Tuple { values: vec![Value::Uuid(id(1))] }];
    let merged = sort_merge_join(&left, &right, 0, 0, &Answers::new());
    assert!(matches!(merged, Err(QueryError::Type(_))));
    // Nulls are passed over before anything is compared.
    let nulls = vec![Tuple { values: vec![Value::Null] }];
    assert!(sort_merge_join(&nulls, &right, 0, 0, &Answers::new()).unwrap().is_empty());
    // A row of a run that does not compare ends the merge, too.
    let mixed = vec![
        Tuple { values: vec![Value::Int32(1)] },
        Tuple { values: vec![Value::Text("x".into())] },
    ];
    let ones = vec![Tuple { values: vec![Value::Int64(1)] }];
    assert!(matches!(
        sort_merge_join(&mixed, &ones, 0, 0, &Answers::new()),
        Err(QueryError::Type(_))
    ));
}

#[test]
fn block_joins_fail_on_the_first_pair_they_form() {
    // The predicate is the left value cast to a bool, if that can be done.
    let on = Some(Expr::Cast {
        input: Box::new(Expr::column(0)),
        target: LogicalType::Bool,
    });
    let row = |v: Value| Tuple { values: vec![v] };
    let left = vec![row(Value::Bool(true)), row(Value::Text("maybe".into())), row(Value::Date(0))];
    let right = vec![row(Value::Int32(1)), row(Value::Int32(2))];
    let r = block_nested_loop_join(&left, &right, &on, JoinType::Inner, 1, 1, &Answers::new());
    assert!(matches!(r, Err(QueryError::Type(_))));
    let fine = vec![row(Value::Bool(true))];
    let r = block_nested_loop_join(&fine, &right, &on, JoinType::Inner, 1, 1, &Answers::new());
    assert_eq!(r.unwrap().len(), 2);
}

#[test]
fn descending_keys_of_any_length_sort_backwards() {
    let texts = ["", "a", "a\0", "a\0b", "ab", "abc", "b"];
    let part = |s: &str| sort_part(&Value::Text(s.into()), false, false).unwrap();
    for pair in texts.windows(2) {
        assert!(part(pair[1]) < part(pair[0]), "{pair:?}");
    }
    let numbers = ["-12.5", "-12", "-1.25", "0", "0.5", "12", "12.01", "120"];
    let part = |s: &str| sort_part(&decimal(s), false, true).unwrap();
    for pair in numbers.windows(2) {
        assert!(part(pair[1]) < part(pair[0]), "{pair:?}");
    }
    let up = |s: &str| sort_part(&Value::Text(s.into()), true, false).unwrap();
    assert!(up("a") < up("ab"));
    assert_eq!(sort_part(&Value::Bytes(vec![0, 7]), false, false).unwrap(), vec![
        0, 255, 0, 248, 255, 255
    ]);
}
