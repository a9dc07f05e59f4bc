//! The stages of a query on its way to a plan. Each pass takes one stage and gives the next.

use vstd::prelude::*;

use super::logical_plan::{LogicalPlan, LogicalTree};
use super::physical_plan::{PhysicalPlan, PlanTree};
use super::planner::ast::SqlStatement;
use sqlparser::ast::Statement;

verus! {

/// SQL text.
#[derive(Debug)]
pub struct RawQuery {
    pub sql: String,
}

/// The text and the parser's statements.
#[derive(Debug)]
pub struct ParsedQuery {
    pub sql: String,
    pub ast: Vec<Statement>,
}

/// The text and its statements in the form that the binder reads.
#[derive(Debug)]
pub struct ReadQuery {
    pub sql: String,
    pub ast: Vec<SqlStatement>,
}

/// Every statement bound.
#[derive(Debug)]
pub struct AnalyzedQuery {
    pub sql: String,
    pub ast: Vec<SqlStatement>,
    pub logical: Vec<LogicalPlan>,
}

/// A logical plan for every statement.
#[derive(Debug)]
pub struct LogicalQuery {
    pub sql: String,
    pub ast: Vec<SqlStatement>,
    pub logical: Vec<LogicalPlan>,
}

/// A physical plan for every statement.
#[derive(Debug)]
pub struct PhysicalQuery {
    pub sql: String,
    pub ast: Vec<SqlStatement>,
    pub logical: Vec<LogicalPlan>,
    pub physical: Vec<PhysicalPlan>,
}

/// The trees of some logical plans.
pub open spec fn logical_trees(plans: Seq<LogicalPlan>) -> Seq<LogicalTree> {
    Seq::new(plans.len(), |i: int| plans[i]@)
}

/// The trees of some physical plans.
pub open spec fn plan_trees(plans: Seq<PhysicalPlan>) -> Seq<PlanTree> {
    Seq::new(plans.len(), |i: int| plans[i]@)
}

} // verus!
