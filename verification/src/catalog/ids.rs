//! Identifiers of catalog objects.

use vstd::prelude::*;

use crate::storage::types::Uuid;

verus! {

/// Identifies a project.
#[derive(Debug, Clone, Copy, PartialEq, Eq, Structural)]
pub struct ProjectId(pub Uuid);

/// Identifies a dataset.
#[derive(Debug, Clone, Copy, PartialEq, Eq, Structural)]
pub struct DatasetId(pub Uuid);

/// Identifies a table, across its incarnations.
#[derive(Debug, Clone, Copy, PartialEq, Eq, Structural)]
pub struct TableId(pub Uuid);

/// Counts a table's incarnations: each replacement of the table mints the next one.
#[derive(Debug, Clone, Copy, PartialEq, Eq, Structural)]
pub struct TruncationId(pub u64);

impl TruncationId {
    /// The incarnation a table is created with.
    pub fn initial() -> (r: TruncationId)
        ensures
            r.0 == 0,
    {
        TruncationId(0)
    }

    /// The incarnation after this one; none after the last.
    pub fn next(self) -> (r: Option<TruncationId>)
        ensures
            self.0 < u64::MAX ==> r == Some(TruncationId((self.0 + 1) as u64)),
            self.0 == u64::MAX ==> r is None,
    {
        if self.0 < u64::MAX {
            Some(TruncationId(self.0 + 1))
        } else {
            None
        }
    }
}

} // verus!
