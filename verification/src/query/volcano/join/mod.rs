//! Join operators. Every join produces `left ++ right` rows and handles all four join types.

pub mod agree;
pub mod block;
pub mod bucket;
pub mod grace;
pub mod keys;
pub mod merge;
pub mod model;
pub mod nested_loop;
pub mod plans;
pub mod rows_of_join;
