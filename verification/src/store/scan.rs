//! Scans: index entries in key order, each resolved to its tuple. The page of the last row
//! stays pinned, so that neighbours on it cost no second fetch.

use vstd::prelude::*;

use super::engine::{decode_loc, TupleLoc};
use super::error::{of_heap, HeapError, StorageError};

verus! {

/// What the index scan yields: a key and what its bytes spell, or an error; nothing at the end.
pub type IndexEntry = Option<Result<(Vec<u8>, Option<TupleLoc>), StorageError>>;

/// How to get the next row.
#[derive(Debug)]
pub enum ScanStep {
    /// There is none.
    End,
    /// There is none, and this is why.
    Failed(StorageError),
    /// It is on the pinned page.
    Read { key: Vec<u8>, slot_id: u16 },
    /// Its page must be pinned first.
    Pin { key: Vec<u8>, loc: TupleLoc },
}

/// A scan: the page that is pinned.
#[derive(Debug)]
pub struct Scan {
    pub current: Option<u64>,
}

/// How the next row is to be got, with `current` pinned.
pub open spec fn steps(current: Option<u64>, entry: IndexEntry, step: ScanStep) -> bool {
    match entry {
        None => step is End,
        Some(Err(e)) => step == ScanStep::Failed(e),
        Some(Ok(kv)) => match kv.1 {
            None => step matches ScanStep::Failed(StorageError::Corruption(_)),
            Some(loc) => if current == Some(loc.page_id) {
                step == (ScanStep::Read { key: kv.0, slot_id: loc.slot_id })
            } else {
                step == (ScanStep::Pin { key: kv.0, loc })
            },
        },
    }
}

impl Scan {
    /// A scan without a pinned page.
    pub fn new() -> (r: Scan)
        ensures
            r.current is None,
    {
        Scan { current: None }
    }

    /// How to get the row of an index entry.
    pub fn next(&self, entry: IndexEntry) -> (r: ScanStep)
        ensures
            steps(self.current, entry, r),
    {
        match entry {
            None => ScanStep::End,
            Some(Err(e)) => ScanStep::Failed(e),
            Some(Ok((key, decoded))) => match decode_loc(decoded) {
                Err(e) => ScanStep::Failed(e),
                Ok(loc) => {
                    let pinned: bool = match self.current {
                        Some(page_id) => page_id == loc.page_id,
                        None => false,
                    };
                    if pinned {
                        ScanStep::Read { key, slot_id: loc.slot_id }
                    } else {
                        ScanStep::Pin { key, loc }
                    }
                },
            },
        }
    }

    /// Go on from an attempt to pin a page: it is the pinned one now, or the scan keeps the
    /// page it had and the row is lost to the error.
    pub fn pinned(&mut self, key: Vec<u8>, loc: TupleLoc, result: Result<(), HeapError>) -> (r:
        ScanStep)
        ensures
            match result {
                Ok(_) => {
                    &&& final(self).current == Some(loc.page_id)
                    &&& r == (ScanStep::Read { key, slot_id: loc.slot_id })
                },
                Err(e) => {
                    &&& final(self).current == old(self).current
                    &&& r == ScanStep::Failed(of_heap(e))
                },
            },
    {
        match result {
            Ok(_) => {
                self.current = Some(loc.page_id);
                ScanStep::Read { key, slot_id: loc.slot_id }
            },
            Err(e) => ScanStep::Failed(StorageError::from(e)),
        }
    }
}

/// A row is read off the pinned page only where that is the page it is on.
pub proof fn law_rows_are_read_off_their_own_page(
    current: Option<u64>,
    key: Vec<u8>,
    loc: TupleLoc,
    step: ScanStep,
)
    requires
        steps(current, Some(Ok((key, Some(loc)))), step),
    ensures
        step is Read ==> current == Some(loc.page_id),
        step is Read || step == (ScanStep::Pin { key, loc }),
{
}

} // verus!
