//! Logical plans: what a query computes, without a choice of algorithms.

use vstd::prelude::*;

use super::expression::{Expr, opt_term, Term, terms_of};
use super::volcano::join::model::JoinType;
use super::volcano::rows::Row;
use super::volcano::sort::{sort_terms, SortKey, SortTerm};
use crate::catalog::ids::{DatasetId, ProjectId};
use crate::catalog::system::SystemRelation;
use crate::catalog::tables::{Table, TableModel};
use crate::storage::types::{rows_of, FieldModel, Schema, Tuple};

verus! {

/// A logical plan: the root of an operator tree.
#[derive(Debug)]
pub struct LogicalPlan {
    pub root: LogicalNode,
}

/// One operator of a logical plan.
#[derive(Debug)]
pub enum LogicalNode {
    /// Read a table. How is left to lowering.
    Scan { table: Table },
    /// Read a system relation.
    SystemScan { relation: SystemRelation },
    /// Drop the rows for which `predicate` is not true; a null drops the row.
    Filter { input: Box<LogicalNode>, predicate: Expr },
    Project { input: Box<LogicalNode>, expressions: Vec<Expr> },
    Limit { input: Box<LogicalNode>, count: usize },
    Offset { input: Box<LogicalNode>, count: usize },
    /// Order the rows of `input`, whose shape is `input_schema`.
    Sort { input: Box<LogicalNode>, keys: Vec<SortKey>, input_schema: Schema },
    /// Join two inputs; the output row is `left ++ right`. Without a predicate every pair
    /// matches.
    Join {
        left: Box<LogicalNode>,
        right: Box<LogicalNode>,
        on: Option<Expr>,
        join_type: JoinType,
        left_schema: Schema,
        right_schema: Schema,
    },
    /// The given rows.
    Values { rows: Vec<Tuple> },
    Insert { table: Table, input: Box<LogicalNode> },
    /// Deletes by the first column.
    Delete { table: Table, input: Box<LogicalNode> },
    CreateTable {
        project_id: ProjectId,
        dataset_id: DatasetId,
        name: String,
        schema: Schema,
        /// Replace any table of the name instead of failing.
        or_replace: bool,
    },
    CreateDataset {
        project_id: ProjectId,
        name: String,
        /// Do nothing where the dataset exists, instead of failing.
        if_not_exists: bool,
    },
}

/// What a [`LogicalNode`] is, mathematically.
pub enum LogicalTree {
    Scan(TableModel),
    SystemScan(SystemRelation),
    Filter(Box<LogicalTree>, Term),
    Project(Box<LogicalTree>, Seq<Term>),
    Limit(Box<LogicalTree>, usize),
    Offset(Box<LogicalTree>, usize),
    Sort(Box<LogicalTree>, Seq<SortTerm>, Seq<FieldModel>),
    Join {
        left: Box<LogicalTree>,
        right: Box<LogicalTree>,
        on: Option<Term>,
        join_type: JoinType,
        left_schema: Seq<FieldModel>,
        right_schema: Seq<FieldModel>,
    },
    Values(Seq<Row>),
    Insert(TableModel, Box<LogicalTree>),
    Delete(TableModel, Box<LogicalTree>),
    CreateTable {
        project_id: ProjectId,
        dataset_id: DatasetId,
        name: Seq<char>,
        schema: Seq<FieldModel>,
        or_replace: bool,
    },
    CreateDataset { project_id: ProjectId, name: Seq<char>, if_not_exists: bool },
}

/// The tree of a node.
pub open spec fn logical_tree(node: LogicalNode) -> LogicalTree
    decreases node,
{
    match node {
        LogicalNode::Scan { table } => LogicalTree::Scan(table@),
        LogicalNode::SystemScan { relation } => LogicalTree::SystemScan(relation),
        LogicalNode::Filter { input, predicate } => LogicalTree::Filter(
            Box::new(logical_tree(*input)),
            predicate@,
        ),
        LogicalNode::Project { input, expressions } => LogicalTree::Project(
            Box::new(logical_tree(*input)),
            terms_of(expressions@),
        ),
        LogicalNode::Limit { input, count } => LogicalTree::Limit(
            Box::new(logical_tree(*input)),
            count,
        ),
        LogicalNode::Offset { input, count } => LogicalTree::Offset(
            Box::new(logical_tree(*input)),
            count,
        ),
        LogicalNode::Sort { input, keys, input_schema } => LogicalTree::Sort(
            Box::new(logical_tree(*input)),
            sort_terms(keys@),
            input_schema@,
        ),
        LogicalNode::Join { left, right, on, join_type, left_schema, right_schema } => {
            LogicalTree::Join {
                left: Box::new(logical_tree(*left)),
                right: Box::new(logical_tree(*right)),
                on: opt_term(on),
                join_type,
                left_schema: left_schema@,
                right_schema: right_schema@,
            }
        },
        LogicalNode::Values { rows } => LogicalTree::Values(rows_of(rows@)),
        LogicalNode::Insert { table, input } => LogicalTree::Insert(
            table@,
            Box::new(logical_tree(*input)),
        ),
        LogicalNode::Delete { table, input } => LogicalTree::Delete(
            table@,
            Box::new(logical_tree(*input)),
        ),
        LogicalNode::CreateTable { project_id, dataset_id, name, schema, or_replace } => {
            LogicalTree::CreateTable {
                project_id,
                dataset_id,
                name: name@,
                schema: schema@,
                or_replace,
            }
        },
        LogicalNode::CreateDataset { project_id, name, if_not_exists } => {
            LogicalTree::CreateDataset { project_id, name: name@, if_not_exists }
        },
    }
}

impl View for LogicalNode {
    type V = LogicalTree;

    open spec fn view(&self) -> LogicalTree {
        logical_tree(*self)
    }
}

impl View for LogicalPlan {
    type V = LogicalTree;

    open spec fn view(&self) -> LogicalTree {
        self.root@
    }
}

impl LogicalPlan {
    pub fn new(root: LogicalNode) -> (r: Self)
        ensures
            r@ == root@,
    {
        LogicalPlan { root }
    }
}

} // verus!
