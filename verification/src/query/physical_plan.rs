//! Physical plans: a tree of operators with the algorithms chosen. Plain data; an executor runs it.

use vstd::prelude::*;

use super::expression::{Expr, opt_term, Term, terms_of};
use super::volcano::join::model::JoinType;
use super::volcano::rows::Row;
use super::volcano::sort::{sort_terms, SortKey, SortTerm};
use crate::catalog::ids::{DatasetId, ProjectId};
use crate::catalog::system::SystemRelation;
use crate::catalog::tables::{Table, TableModel};
use crate::storage::types::{rows_of, FieldModel, Schema, Tuple};

verus! {

/// A physical plan: the root of an operator tree.
#[derive(Debug)]
pub struct PhysicalPlan {
    pub root: PlanNode,
}

/// Which algorithm a join runs.
#[derive(Debug, Clone, Copy, PartialEq, Eq, Structural)]
pub enum JoinStrategy {
    /// Row by row; any predicate.
    NestedLoop,
    /// A batch of outer rows for each scan of the inner side; any predicate.
    BlockNestedLoop,
    /// One pass over two sorted inputs; inner equi-joins.
    SortMerge,
    /// Hash partitions; equi-joins of any type.
    GraceHash,
}

/// One operator of a physical plan. The sinks (`Insert`, `Delete`, `CreateTable`,
/// `CreateDataset`) stand at the top of a plan only.
#[derive(Debug)]
pub enum PlanNode {
    /// Read every row of a table.
    SeqScan { table: Table },
    /// Read a system relation.
    SystemScan { relation: SystemRelation },
    /// Drop the rows for which `predicate` is not true; a null drops the row.
    Filter { input: Box<PlanNode>, predicate: Expr },
    Project { input: Box<PlanNode>, expressions: Vec<Expr> },
    Limit { input: Box<PlanNode>, count: usize },
    Offset { input: Box<PlanNode>, count: usize },
    /// Order the rows of `input`, whose shape is `input_schema`.
    Sort { input: Box<PlanNode>, keys: Vec<SortKey>, input_schema: Schema },
    /// Join two inputs; the output row is `left ++ right`. Without a predicate every pair
    /// matches.
    Join {
        left: Box<PlanNode>,
        right: Box<PlanNode>,
        on: Option<Expr>,
        join_type: JoinType,
        left_schema: Schema,
        right_schema: Schema,
        strategy: JoinStrategy,
    },
    /// The given rows.
    Values { rows: Vec<Tuple> },
    Insert { table: Table, input: Box<PlanNode> },
    /// Deletes by the first column.
    Delete { table: Table, input: Box<PlanNode> },
    CreateTable {
        project_id: ProjectId,
        dataset_id: DatasetId,
        name: String,
        schema: Schema,
        /// Replace any table of the name instead of failing.
        or_replace: bool,
    },
    CreateDataset {
        project_id: ProjectId,
        name: String,
        /// Do nothing where the dataset exists, instead of failing.
        if_not_exists: bool,
    },
}

/// What a [`PlanNode`] is, mathematically.
pub enum PlanTree {
    SeqScan(TableModel),
    SystemScan(SystemRelation),
    Filter(Box<PlanTree>, Term),
    Project(Box<PlanTree>, Seq<Term>),
    Limit(Box<PlanTree>, usize),
    Offset(Box<PlanTree>, usize),
    Sort(Box<PlanTree>, Seq<SortTerm>, Seq<FieldModel>),
    Join {
        left: Box<PlanTree>,
        right: Box<PlanTree>,
        on: Option<Term>,
        join_type: JoinType,
        left_schema: Seq<FieldModel>,
        right_schema: Seq<FieldModel>,
        strategy: JoinStrategy,
    },
    Values(Seq<Row>),
    Insert(TableModel, Box<PlanTree>),
    Delete(TableModel, Box<PlanTree>),
    CreateTable {
        project_id: ProjectId,
        dataset_id: DatasetId,
        name: Seq<char>,
        schema: Seq<FieldModel>,
        or_replace: bool,
    },
    CreateDataset { project_id: ProjectId, name: Seq<char>, if_not_exists: bool },
}

/// The tree of a node.
pub open spec fn plan_tree(node: PlanNode) -> PlanTree
    decreases node,
{
    match node {
        PlanNode::SeqScan { table } => PlanTree::SeqScan(table@),
        PlanNode::SystemScan { relation } => PlanTree::SystemScan(relation),
        PlanNode::Filter { input, predicate } => PlanTree::Filter(
            Box::new(plan_tree(*input)),
            predicate@,
        ),
        PlanNode::Project { input, expressions } => PlanTree::Project(
            Box::new(plan_tree(*input)),
            terms_of(expressions@),
        ),
        PlanNode::Limit { input, count } => PlanTree::Limit(
            Box::new(plan_tree(*input)),
            count,
        ),
        PlanNode::Offset { input, count } => PlanTree::Offset(
            Box::new(plan_tree(*input)),
            count,
        ),
        PlanNode::Sort { input, keys, input_schema } => PlanTree::Sort(
            Box::new(plan_tree(*input)),
            sort_terms(keys@),
            input_schema@,
        ),
        PlanNode::Join { left, right, on, join_type, left_schema, right_schema, strategy } => {
            PlanTree::Join {
                left: Box::new(plan_tree(*left)),
                right: Box::new(plan_tree(*right)),
                on: opt_term(on),
                join_type,
                left_schema: left_schema@,
                right_schema: right_schema@,
                strategy,
            }
        },
        PlanNode::Values { rows } => PlanTree::Values(rows_of(rows@)),
        PlanNode::Insert { table, input } => PlanTree::Insert(
            table@,
            Box::new(plan_tree(*input)),
        ),
        PlanNode::Delete { table, input } => PlanTree::Delete(
            table@,
            Box::new(plan_tree(*input)),
        ),
        PlanNode::CreateTable { project_id, dataset_id, name, schema, or_replace } => {
            PlanTree::CreateTable {
                project_id,
                dataset_id,
                name: name@,
                schema: schema@,
                or_replace,
            }
        },
        PlanNode::CreateDataset { project_id, name, if_not_exists } => {
            PlanTree::CreateDataset { project_id, name: name@, if_not_exists }
        },
    }
}

impl View for PlanNode {
    type V = PlanTree;

    open spec fn view(&self) -> PlanTree {
        plan_tree(*self)
    }
}

impl View for PhysicalPlan {
    type V = PlanTree;

    open spec fn view(&self) -> PlanTree {
        self.root@
    }
}

impl PhysicalPlan {
    pub fn new(root: PlanNode) -> (r: Self)
        ensures
            r@ == root@,
    {
        PhysicalPlan { root }
    }
}

} // verus!
