//! What can be wrong with a name in the catalog.

use vstd::prelude::*;

verus! {

/// The kinds of catalog object.
#[derive(Debug, Clone, Copy, PartialEq, Eq, Structural)]
pub enum ResourceKind {
    Project,
    Dataset,
    Table,
}

/// A catalog operation that cannot be done.
#[derive(Debug)]
pub enum CatalogError {
    NotFound { kind: ResourceKind, name: String },
    AlreadyExists { kind: ResourceKind, name: String },
    /// A table's incarnation counter is at its end.
    TruncationExhausted { name: String },
}

/// What a [`CatalogError`] is, mathematically.
pub enum CatalogFault {
    NotFound(ResourceKind, Seq<char>),
    AlreadyExists(ResourceKind, Seq<char>),
    TruncationExhausted(Seq<char>),
}

impl View for CatalogError {
    type V = CatalogFault;

    open spec fn view(&self) -> CatalogFault {
        match self {
            CatalogError::NotFound { kind, name } => CatalogFault::NotFound(*kind, name@),
            CatalogError::AlreadyExists { kind, name } => CatalogFault::AlreadyExists(*kind, name@),
            CatalogError::TruncationExhausted { name } => CatalogFault::TruncationExhausted(name@),
        }
    }
}

/// The name is taken.
pub fn already_exists(kind: ResourceKind, name: &str) -> (r: CatalogError)
    ensures
        r@ == CatalogFault::AlreadyExists(kind, name@),
{
    CatalogError::AlreadyExists { kind, name: name.to_owned() }
}

/// There is nothing of that name.
pub fn not_found(kind: ResourceKind, name: &str) -> (r: CatalogError)
    ensures
        r@ == CatalogFault::NotFound(kind, name@),
{
    CatalogError::NotFound { kind, name: name.to_owned() }
}

/// The table has no incarnations left to mint.
pub fn truncation_exhausted(name: &str) -> (r: CatalogError)
    ensures
        r@ == CatalogFault::TruncationExhausted(name@),
{
    CatalogError::TruncationExhausted { name: name.to_owned() }
}

} // verus!
