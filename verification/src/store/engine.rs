//! The engine's operations, step by step. An operation names an action; the host performs it
//! and hands back what came of it.

use vstd::prelude::*;

use super::error::{of_heap, of_index, HeapError, IndexError, StorageError};

verus! {

/// Frames of the heap's buffer pool, unless told otherwise.
pub const HEAP_FRAMES: usize = 1024;

/// How to open an engine. `L` describes one level of the index.
#[derive(Debug)]
pub struct EngineBuilder<L> {
    pub heap_frames: usize,
    pub direct_io: bool,
    /// The levels of the index; `None` for its own default.
    pub levels: Option<Vec<L>>,
}

impl<L> EngineBuilder<L> {
    /// The defaults.
    pub fn new() -> (r: Self)
        ensures
            r == (EngineBuilder::<L> { heap_frames: HEAP_FRAMES, direct_io: false, levels: None }),
    {
        EngineBuilder { heap_frames: HEAP_FRAMES, direct_io: false, levels: None }
    }

    /// With another buffer pool.
    pub fn heap_frames(self, n: usize) -> (r: Self)
        ensures
            r == (EngineBuilder { heap_frames: n, ..self }),
    {
        EngineBuilder { heap_frames: n, direct_io: self.direct_io, levels: self.levels }
    }

    /// With or without direct I/O on the heap.
    pub fn direct_io(self, yes: bool) -> (r: Self)
        ensures
            r == (EngineBuilder { direct_io: yes, ..self }),
    {
        EngineBuilder { heap_frames: self.heap_frames, direct_io: yes, levels: self.levels }
    }

    /// With explicit levels.
    pub fn levels(self, levels: Vec<L>) -> (r: Self)
        ensures
            r == (EngineBuilder { levels: Some(levels), ..self }),
    {
        EngineBuilder {
            heap_frames: self.heap_frames,
            direct_io: self.direct_io,
            levels: Some(levels),
        }
    }

    /// The levels to open the index with.
    pub fn levels_or(self, default: Vec<L>) -> (r: Vec<L>)
        ensures
            r == match self.levels {
                Some(levels) => levels,
                None => default,
            },
    {
        match self.levels {
            Some(levels) => levels,
            None => default,
        }
    }
}

/// Where a tuple is in the heap.
#[derive(Debug, Clone, Copy, PartialEq, Eq, Structural)]
pub struct TupleLoc {
    pub page_id: u64,
    pub slot_id: u16,
}

/// What is asked of the engine.
#[derive(Debug)]
pub enum Request {
    Put { key: Vec<u8>, value: Vec<u8> },
    Delete { key: Vec<u8> },
    Get { key: Vec<u8> },
    Flush,
}

/// What the host is to do next.
#[derive(Debug)]
pub enum Action {
    /// Put a tuple into the heap.
    InsertTuple { value: Vec<u8> },
    /// Map a key to a tuple's location.
    IndexPut { key: Vec<u8>, loc: TupleLoc },
    /// Write a tombstone for a key.
    IndexDelete { key: Vec<u8> },
    /// Look a key up.
    IndexGet { key: Vec<u8> },
    /// Read a tuple.
    FetchTuple { loc: TupleLoc },
    /// Make the heap durable.
    FlushHeap,
    /// Seal the index's memory into a file.
    FlushIndex,
    /// Nothing: the operation has ended.
    Finish(Result<Outcome, StorageError>),
}

/// How an operation ended well.
#[derive(Debug)]
pub enum Outcome {
    Written,
    Flushed,
    Absent,
    Value(Vec<u8>),
}

/// What came of an action.
#[derive(Debug)]
pub enum Event {
    Inserted(Result<TupleLoc, HeapError>),
    /// The index took a mapping or a tombstone.
    Indexed(Result<(), IndexError>),
    /// What the index holds for a key: nothing, or bytes that spell a location or do not.
    Looked(Result<Option<Option<TupleLoc>>, IndexError>),
    Fetched(Result<Vec<u8>, HeapError>),
    HeapFlushed(Result<(), HeapError>),
    IndexFlushed(Result<(), IndexError>),
}

/// What an operation waits for.
#[derive(Debug)]
pub enum Phase {
    /// The tuple for `key` is on its way into the heap.
    Inserting { key: Vec<u8> },
    /// A mapping or a tombstone is on its way into the index.
    Indexing,
    Looking,
    Fetching,
    FlushingHeap,
    FlushingIndex,
    Over,
}

impl Phase {
    /// Whether an event is what the phase waits for.
    pub open spec fn awaits(self, event: Event) -> bool {
        match self {
            Phase::Inserting { .. } => event is Inserted,
            Phase::Indexing => event is Indexed,
            Phase::Looking => event is Looked,
            Phase::Fetching => event is Fetched,
            Phase::FlushingHeap => event is HeapFlushed,
            Phase::FlushingIndex => event is IndexFlushed,
            Phase::Over => false,
        }
    }
}

/// The first action of a request, and what is waited for then.
pub open spec fn begins(request: Request) -> (Phase, Action) {
    match request {
        Request::Put { key, value } => (Phase::Inserting { key }, Action::InsertTuple { value }),
        Request::Delete { key } => (Phase::Indexing, Action::IndexDelete { key }),
        Request::Get { key } => (Phase::Looking, Action::IndexGet { key }),
        Request::Flush => (Phase::FlushingHeap, Action::FlushHeap),
    }
}

/// An operation that ended with an error.
pub open spec fn fails(e: StorageError) -> (Phase, Action) {
    (Phase::Over, Action::Finish(Err(e)))
}

/// An operation that ended well.
pub open spec fn ends(o: Outcome) -> (Phase, Action) {
    (Phase::Over, Action::Finish(Ok(o)))
}

/// Whether an operation goes on from an event as it should. A tuple is in the heap before the
/// index maps a key to it; the heap is durable before the index is sealed; a mapping that
/// spells no location is corruption.
pub open spec fn continues(phase: Phase, event: Event, next: (Phase, Action)) -> bool {
    match (phase, event) {
        (Phase::Inserting { key }, Event::Inserted(Ok(loc))) => next == (
            Phase::Indexing,
            Action::IndexPut { key, loc },
        ),
        (Phase::Inserting { .. }, Event::Inserted(Err(e))) => next == fails(of_heap(e)),
        (Phase::Indexing, Event::Indexed(Ok(_))) => next == ends(Outcome::Written),
        (Phase::Indexing, Event::Indexed(Err(e))) => next == fails(of_index(e)),
        (Phase::Looking, Event::Looked(Ok(None))) => next == ends(Outcome::Absent),
        (Phase::Looking, Event::Looked(Ok(Some(Some(loc))))) => next == (
            Phase::Fetching,
            Action::FetchTuple { loc },
        ),
        (Phase::Looking, Event::Looked(Ok(Some(None)))) => {
            &&& next.0 is Over
            &&& next.1 matches Action::Finish(Err(StorageError::Corruption(_)))
        },
        (Phase::Looking, Event::Looked(Err(e))) => next == fails(of_index(e)),
        (Phase::Fetching, Event::Fetched(Ok(value))) => next == ends(Outcome::Value(value)),
        (Phase::Fetching, Event::Fetched(Err(e))) => next == fails(of_heap(e)),
        (Phase::FlushingHeap, Event::HeapFlushed(Ok(_))) => next == (
            Phase::FlushingIndex,
            Action::FlushIndex,
        ),
        (Phase::FlushingHeap, Event::HeapFlushed(Err(e))) => next == fails(of_heap(e)),
        (Phase::FlushingIndex, Event::IndexFlushed(Ok(_))) => next == ends(Outcome::Flushed),
        (Phase::FlushingIndex, Event::IndexFlushed(Err(e))) => next == fails(of_index(e)),
        _ => false,
    }
}

/// A location that the index holds, where its bytes spell one.
pub fn decode_loc(decoded: Option<TupleLoc>) -> (r: Result<TupleLoc, StorageError>)
    ensures
        match decoded {
            Some(loc) => r == Ok::<TupleLoc, StorageError>(loc),
            None => r is Err && r->Err_0 is Corruption,
        },
{
    match decoded {
        Some(loc) => Ok(loc),
        None => Err(StorageError::Corruption("malformed tuple location".to_owned())),
    }
}

/// Begin an operation.
pub fn begin(request: Request) -> (r: (Phase, Action))
    ensures
        r == begins(request),
{
    match request {
        Request::Put { key, value } => (Phase::Inserting { key }, Action::InsertTuple { value }),
        Request::Delete { key } => (Phase::Indexing, Action::IndexDelete { key }),
        Request::Get { key } => (Phase::Looking, Action::IndexGet { key }),
        Request::Flush => (Phase::FlushingHeap, Action::FlushHeap),
    }
}

/// Go on with an operation from what came of its last action.
pub fn resume(phase: Phase, event: Event) -> (r: (Phase, Action))
    requires
        phase.awaits(event),
    ensures
        continues(phase, event, r),
{
    let end: Result<Outcome, StorageError> = match event {
        Event::Inserted(Ok(loc)) => match phase {
            Phase::Inserting { key } => {
                return (Phase::Indexing, Action::IndexPut { key, loc });
            },
            _ => Ok(Outcome::Written),
        },
        Event::Inserted(Err(e)) => Err(StorageError::from(e)),
        Event::Indexed(Ok(_)) => Ok(Outcome::Written),
        Event::Indexed(Err(e)) => Err(StorageError::from(e)),
        Event::Looked(Ok(None)) => Ok(Outcome::Absent),
        Event::Looked(Ok(Some(decoded))) => match decode_loc(decoded) {
            Ok(loc) => {
                return (Phase::Fetching, Action::FetchTuple { loc });
            },
            Err(e) => Err(e),
        },
        Event::Looked(Err(e)) => Err(StorageError::from(e)),
        Event::Fetched(Ok(value)) => Ok(Outcome::Value(value)),
        Event::Fetched(Err(e)) => Err(StorageError::from(e)),
        Event::HeapFlushed(Ok(_)) => {
            return (Phase::FlushingIndex, Action::FlushIndex);
        },
        Event::HeapFlushed(Err(e)) => Err(StorageError::from(e)),
        Event::IndexFlushed(Ok(_)) => Ok(Outcome::Flushed),
        Event::IndexFlushed(Err(e)) => Err(StorageError::from(e)),
    };
    (Phase::Over, Action::Finish(end))
}

/// The index maps a key to a tuple only after the heap has taken the tuple, and to the place
/// that the heap gave it.
pub proof fn law_tuples_are_stored_before_they_are_indexed(
    phase: Phase,
    event: Event,
    next: (Phase, Action),
)
    requires
        phase.awaits(event),
        continues(phase, event, next),
        next.1 is IndexPut,
    ensures
        event == Event::Inserted(Ok(next.1->IndexPut_loc)),
        phase == (Phase::Inserting { key: next.1->IndexPut_key }),
{
}

/// The index is sealed only after the heap is durable.
pub proof fn law_heap_is_durable_before_the_index(
    phase: Phase,
    event: Event,
    next: (Phase, Action),
)
    requires
        phase.awaits(event),
        continues(phase, event, next),
        next.1 is FlushIndex,
    ensures
        event matches Event::HeapFlushed(Ok(_)),
{
}

/// Every operation ends after at most two events.
pub proof fn law_operations_end(
    request: Request,
    first: Event,
    after_first: (Phase, Action),
    second: Event,
    after_second: (Phase, Action),
)
    requires
        begins(request).0.awaits(first),
        continues(begins(request).0, first, after_first),
        after_first.0.awaits(second),
        continues(after_first.0, second, after_second),
    ensures
        after_second.0 is Over,
        after_second.1 is Finish,
{
}

} // verus!
