//! From logical plans to physical ones: each operator gets its algorithm.

use vstd::prelude::*;

use crate::query::expression::{clone_exprs, clone_opt_expr, Expr, opt_term, Term};
use crate::query::logical_plan::{LogicalNode, LogicalTree};
use crate::query::physical_plan::{plan_tree, JoinStrategy, PlanNode, PlanTree};
use crate::query::volcano::join::keys::{equi_columns, equi_join_keys};
use crate::query::volcano::join::model::JoinType;
use crate::query::volcano::sort::{clone_sort_keys, sort_terms, SortKey, SortTerm};
use crate::storage::types::{clone_rows, FieldModel, Schema};

verus! {

/// A sort by one ascending column, nulls last.
pub open spec fn sorted_on(input: PlanTree, column: nat, schema: Seq<FieldModel>) -> PlanTree {
    PlanTree::Sort(
        Box::new(input),
        seq![SortTerm { expr: Term::Column(column), ascending: true, nulls_first: false }],
        schema,
    )
}

/// The physical join: an inner equi-join merges its inputs, each sorted on its key; any other
/// join is a block nested loop.
pub open spec fn lowered_join(
    left: PlanTree,
    right: PlanTree,
    on: Option<Term>,
    join_type: JoinType,
    left_schema: Seq<FieldModel>,
    right_schema: Seq<FieldModel>,
) -> PlanTree {
    match (join_type, equi_columns(on, left_schema.len())) {
        (JoinType::Inner, Some((a, b))) => PlanTree::Join {
            left: Box::new(sorted_on(left, a, left_schema)),
            right: Box::new(sorted_on(right, b, right_schema)),
            on,
            join_type,
            left_schema,
            right_schema,
            strategy: JoinStrategy::SortMerge,
        },
        _ => PlanTree::Join {
            left: Box::new(left),
            right: Box::new(right),
            on,
            join_type,
            left_schema,
            right_schema,
            strategy: JoinStrategy::BlockNestedLoop,
        },
    }
}

/// The physical plan of a logical one.
pub open spec fn lowered(node: LogicalTree) -> PlanTree
    decreases node,
{
    match node {
        LogicalTree::Scan(t) => PlanTree::SeqScan(t),
        LogicalTree::SystemScan(r) => PlanTree::SystemScan(r),
        LogicalTree::Filter(i, p) => PlanTree::Filter(Box::new(lowered(*i)), p),
        LogicalTree::Project(i, es) => PlanTree::Project(Box::new(lowered(*i)), es),
        LogicalTree::Limit(i, n) => PlanTree::Limit(Box::new(lowered(*i)), n),
        LogicalTree::Offset(i, n) => PlanTree::Offset(Box::new(lowered(*i)), n),
        LogicalTree::Sort(i, ks, s) => PlanTree::Sort(Box::new(lowered(*i)), ks, s),
        LogicalTree::Join { left, right, on, join_type, left_schema, right_schema } => lowered_join(
            lowered(*left),
            lowered(*right),
            on,
            join_type,
            left_schema,
            right_schema,
        ),
        LogicalTree::Values(rows) => PlanTree::Values(rows),
        LogicalTree::Insert(t, i) => PlanTree::Insert(t, Box::new(lowered(*i))),
        LogicalTree::Delete(t, i) => PlanTree::Delete(t, Box::new(lowered(*i))),
        LogicalTree::CreateTable { project_id, dataset_id, name, schema, or_replace } => {
            PlanTree::CreateTable { project_id, dataset_id, name, schema, or_replace }
        },
        LogicalTree::CreateDataset { project_id, name, if_not_exists } => {
            PlanTree::CreateDataset { project_id, name, if_not_exists }
        },
    }
}

/// Wrap `input` in a sort by one ascending column, as a merge wants its inputs.
pub fn sort_on(input: PlanNode, column: usize, input_schema: &Schema) -> (r: PlanNode)
    ensures
        r@ == sorted_on(input@, column as nat, input_schema@),
{
    let key = SortKey { expr: Expr::column(column), ascending: true, nulls_first: false };
    let keys = vec![key];
    let r = PlanNode::Sort { input: Box::new(input), keys, input_schema: input_schema.clone() };
    proof {
        reveal_with_fuel(plan_tree, 2);
        assert(sort_terms(keys@) =~= seq![
            SortTerm { expr: Term::Column(column as nat), ascending: true, nulls_first: false },
        ]);
    }
    r
}

/// Choose the algorithm of a join.
fn lower_join(
    left: PlanNode,
    right: PlanNode,
    on: &Option<Expr>,
    join_type: JoinType,
    left_schema: &Schema,
    right_schema: &Schema,
) -> (r: PlanNode)
    ensures
        r@ == lowered_join(
            left@,
            right@,
            opt_term(*on),
            join_type,
            left_schema@,
            right_schema@,
        ),
{
    proof {
        reveal_with_fuel(plan_tree, 2);
    }
    if join_type == JoinType::Inner {
        if let Some((left_key, right_key)) = equi_join_keys(on, left_schema.fields.len()) {
            let l = sort_on(left, left_key, left_schema);
            let r = sort_on(right, right_key, right_schema);
            return PlanNode::Join {
                left: Box::new(l),
                right: Box::new(r),
                on: clone_opt_expr(on),
                join_type,
                left_schema: left_schema.clone(),
                right_schema: right_schema.clone(),
                strategy: JoinStrategy::SortMerge,
            };
        }
    }
    PlanNode::Join {
        left: Box::new(left),
        right: Box::new(right),
        on: clone_opt_expr(on),
        join_type,
        left_schema: left_schema.clone(),
        right_schema: right_schema.clone(),
        strategy: JoinStrategy::BlockNestedLoop,
    }
}

impl LogicalNode {
    /// The physical plan of this node.
    pub fn lower(&self) -> (r: PlanNode)
        ensures
            r@ == lowered(self@),
        decreases self,
    {
        proof {
            reveal_with_fuel(plan_tree, 2);
        }
        match self {
            LogicalNode::Scan { table } => PlanNode::SeqScan { table: table.clone() },
            LogicalNode::SystemScan { relation } => PlanNode::SystemScan { relation: *relation },
            LogicalNode::Filter { input, predicate } => PlanNode::Filter {
                input: Box::new(input.lower()),
                predicate: predicate.clone(),
            },
            LogicalNode::Project { input, expressions } => PlanNode::Project {
                input: Box::new(input.lower()),
                expressions: clone_exprs(expressions),
            },
            LogicalNode::Limit { input, count } => PlanNode::Limit {
                input: Box::new(input.lower()),
                count: *count,
            },
            LogicalNode::Offset { input, count } => PlanNode::Offset {
                input: Box::new(input.lower()),
                count: *count,
            },
            LogicalNode::Sort { input, keys, input_schema } => PlanNode::Sort {
                input: Box::new(input.lower()),
                keys: clone_sort_keys(keys),
                input_schema: input_schema.clone(),
            },
            LogicalNode::Join { left, right, on, join_type, left_schema, right_schema } => {
                let l = left.lower();
                let r = right.lower();
                lower_join(l, r, on, *join_type, left_schema, right_schema)
            },
            LogicalNode::Values { rows } => PlanNode::Values { rows: clone_rows(rows) },
            LogicalNode::Insert { table, input } => PlanNode::Insert {
                table: table.clone(),
                input: Box::new(input.lower()),
            },
            LogicalNode::Delete { table, input } => PlanNode::Delete {
                table: table.clone(),
                input: Box::new(input.lower()),
            },
            LogicalNode::CreateTable { project_id, dataset_id, name, schema, or_replace } => {
                PlanNode::CreateTable {
                    project_id: *project_id,
                    dataset_id: *dataset_id,
                    name: name.clone(),
                    schema: schema.clone(),
                    or_replace: *or_replace,
                }
            },
            LogicalNode::CreateDataset { project_id, name, if_not_exists } => {
                PlanNode::CreateDataset {
                    project_id: *project_id,
                    name: name.clone(),
                    if_not_exists: *if_not_exists,
                }
            },
        }
    }
}

} // verus!
