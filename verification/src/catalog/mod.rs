//! The catalog: what projects, datasets and tables there are.

pub mod consts;
pub mod error;
pub mod ids;
pub mod index;
pub mod keys;
pub mod meta;
pub mod seed;
pub mod state;
pub mod store;
pub mod system;
pub mod system_laws;
pub mod system_table;
pub mod tables;
