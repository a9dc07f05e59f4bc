//! Queries: expressions, plans, and the executor that runs them.

pub mod config;
pub mod consistency;
pub mod context;
pub mod error;
pub mod expression;
pub mod host;
pub mod laws;
pub mod logical_plan;
pub mod physical_plan;
pub mod planner;
pub mod stages;
pub mod statement_laws;
pub mod volcano;
