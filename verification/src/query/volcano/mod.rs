//! Volcano: running physical plans row by row.

pub mod join;
pub mod order_by;
pub mod rows;
pub mod run;
pub mod scalar;
pub mod scalar_laws;
pub mod sink;
pub mod sort;
