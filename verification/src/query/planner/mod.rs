//! The planner: from SQL to physical plans, pass by pass.

pub mod ast;
pub mod binder;
pub mod lower;
pub mod pass;
pub mod rule;
