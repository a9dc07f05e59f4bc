//! What can go wrong with the storage engine.

use vstd::prelude::*;

verus! {

/// A failure of the index.
#[derive(Debug)]
pub struct IndexError {
    /// Whether a bounded resource ran out.
    pub exhausted: bool,
    pub message: String,
}

/// A failure of the heap.
#[derive(Debug)]
pub struct HeapError {
    /// Whether a bounded resource ran out.
    pub exhausted: bool,
    pub message: String,
}

/// A failure of the engine.
#[derive(Debug)]
pub enum StorageError {
    /// The index failed.
    Lsm(IndexError),
    /// The heap failed.
    Block(HeapError),
    /// Index and heap disagree.
    Corruption(String),
    /// A bounded resource ran out, whichever part it belongs to. Reads never allocate, so
    /// they go on.
    Exhausted(String),
}

impl StorageError {
    /// Whether a bounded resource ran out.
    pub fn is_exhausted(&self) -> (r: bool)
        ensures
            r == (self is Exhausted),
    {
        match self {
            StorageError::Exhausted(_) => true,
            _ => false,
        }
    }
}

/// What becomes of an error of the index.
pub open spec fn of_index(e: IndexError) -> StorageError {
    if e.exhausted {
        StorageError::Exhausted(e.message)
    } else {
        StorageError::Lsm(e)
    }
}

/// What becomes of an error of the heap.
pub open spec fn of_heap(e: HeapError) -> StorageError {
    if e.exhausted {
        StorageError::Exhausted(e.message)
    } else {
        StorageError::Block(e)
    }
}

impl From<IndexError> for StorageError {
    fn from(e: IndexError) -> (r: StorageError) {
        if e.exhausted {
            StorageError::Exhausted(e.message)
        } else {
            StorageError::Lsm(e)
        }
    }
}

impl vstd::std_specs::convert::FromSpecImpl<IndexError> for StorageError {
    open spec fn obeys_from_spec() -> bool {
        true
    }

    open spec fn from_spec(e: IndexError) -> StorageError {
        of_index(e)
    }
}

impl From<HeapError> for StorageError {
    fn from(e: HeapError) -> (r: StorageError) {
        if e.exhausted {
            StorageError::Exhausted(e.message)
        } else {
            StorageError::Block(e)
        }
    }
}

impl vstd::std_specs::convert::FromSpecImpl<HeapError> for StorageError {
    open spec fn obeys_from_spec() -> bool {
        true
    }

    open spec fn from_spec(e: HeapError) -> StorageError {
        of_heap(e)
    }
}

/// Running out of room is one error wherever it happens, and nothing else is that error.
pub proof fn law_exhaustion_is_one_error(i: IndexError, h: HeapError)
    ensures
        of_index(i) is Exhausted <==> i.exhausted,
        of_heap(h) is Exhausted <==> h.exhausted,
{
}

} // verus!
