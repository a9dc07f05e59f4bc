//! StrataDB: the verified core of an embedded SQL database.

pub mod catalog;
pub mod journal;
pub mod query;
pub mod sql;
pub mod storage;
pub mod store;

pub use catalog::consts;
pub use catalog::error::{CatalogError, ResourceKind};
pub use catalog::ids::{DatasetId, ProjectId, TableId};
pub use catalog::tables::Table;
pub use query::context::QueryContext;
pub use query::error::QueryError;
pub use query::expression::{BinaryOperator, Expr};
pub use query::physical_plan::{PhysicalPlan, PlanNode};
pub use storage::codec::{DecodeError, KeyCodec, ValueCodec};
pub use storage::row::{EncodingError, RowKey};
pub use storage::types::{Field, FieldName, LogicalType, Schema, Tuple, Value};
