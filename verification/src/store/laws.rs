//! What the engine's operations come to over an index and a heap that do as they are told.

use vstd::prelude::*;

use super::engine::{begins, continues, Action, Event, Outcome, Phase, Request, TupleLoc};
use super::error::StorageError;

verus! {

/// What is on disk: where each key's tuple is, and each tuple's bytes.
pub struct Files {
    pub index: Map<Seq<u8>, TupleLoc>,
    pub heap: Map<TupleLoc, Seq<u8>>,
}

impl Files {
    /// Every key leads to a tuple.
    pub open spec fn wf(self) -> bool {
        forall|k: Seq<u8>| #[trigger]
            self.index.contains_key(k) ==> self.heap.contains_key(self.index[k])
    }

    /// The value under each key.
    pub open spec fn contents(self) -> Map<Seq<u8>, Seq<u8>> {
        self.index.map_values(|loc: TupleLoc| self.heap[loc])
    }
}

/// Whether an action was performed without an error, with this event and this effect. The heap
/// puts a tuple where none is.
pub open spec fn served(before: Files, action: Action, event: Event, after: Files) -> bool {
    match (action, event) {
        (Action::InsertTuple { value }, Event::Inserted(Ok(loc))) => {
            &&& !before.heap.contains_key(loc)
            &&& after == (Files { heap: before.heap.insert(loc, value@), ..before })
        },
        (Action::IndexPut { key, loc }, Event::Indexed(Ok(_))) => after == (Files {
            index: before.index.insert(key@, loc),
            ..before
        }),
        (Action::IndexDelete { key }, Event::Indexed(Ok(_))) => after == (Files {
            index: before.index.remove(key@),
            ..before
        }),
        (Action::IndexGet { key }, Event::Looked(Ok(found))) => {
            &&& after == before
            &&& found == if before.index.contains_key(key@) {
                Some(Some(before.index[key@]))
            } else {
                None
            }
        },
        (Action::FetchTuple { loc }, Event::Fetched(Ok(value))) => {
            &&& after == before
            &&& before.heap.contains_key(loc) ==> value@ == before.heap[loc]
        },
        (Action::FlushHeap, Event::HeapFlushed(Ok(_))) => after == before,
        (Action::FlushIndex, Event::IndexFlushed(Ok(_))) => after == before,
        _ => false,
    }
}

/// Whether an operation that stands at `at` ends with `result` and this effect, every action
/// performed without an error, in at most `steps` actions.
pub open spec fn finishes(
    before: Files,
    at: (Phase, Action),
    result: Result<Outcome, StorageError>,
    after: Files,
    steps: nat,
) -> bool
    decreases steps,
{
    match at.1 {
        Action::Finish(r) => r == result && after == before,
        _ => steps > 0 && exists|event: Event, mid: Files, next: (Phase, Action)|
            {
                &&& #[trigger] served(before, at.1, event, mid)
                &&& #[trigger] continues(at.0, event, next)
                &&& finishes(mid, next, result, after, (steps - 1) as nat)
            },
    }
}

/// Whether a request ends with `result` and this effect, every action performed without an
/// error.
pub open spec fn answered(
    before: Files,
    request: Request,
    result: Result<Outcome, StorageError>,
    after: Files,
) -> bool {
    finishes(before, begins(request), result, after, 2)
}

/// A put ends well. Its key holds its value afterwards, and every other key what it held.
pub proof fn law_put_writes_the_value(
    before: Files,
    key: Vec<u8>,
    value: Vec<u8>,
    result: Result<Outcome, StorageError>,
    after: Files,
)
    requires
        before.wf(),
        answered(before, Request::Put { key, value }, result, after),
    ensures
        result matches Ok(Outcome::Written),
        after.wf(),
        after.contents() == before.contents().insert(key@, value@),
{
    reveal_with_fuel(finishes, 3);
    assert(after.contents() =~= before.contents().insert(key@, value@));
}

/// A delete ends well. Its key holds nothing afterwards, and every other key what it held.
pub proof fn law_delete_removes_the_key(
    before: Files,
    key: Vec<u8>,
    result: Result<Outcome, StorageError>,
    after: Files,
)
    requires
        before.wf(),
        answered(before, Request::Delete { key }, result, after),
    ensures
        result matches Ok(Outcome::Written),
        after.wf(),
        after.contents() == before.contents().remove(key@),
{
    reveal_with_fuel(finishes, 3);
    assert(after.contents() =~= before.contents().remove(key@));
}

/// A get gives what its key holds, and changes nothing.
pub proof fn law_get_reads_the_value(
    before: Files,
    key: Vec<u8>,
    result: Result<Outcome, StorageError>,
    after: Files,
)
    requires
        before.wf(),
        answered(before, Request::Get { key }, result, after),
    ensures
        after == before,
        before.contents().contains_key(key@) ==> (result matches Ok(Outcome::Value(v)) && v@
            == before.contents()[key@]),
        !before.contents().contains_key(key@) ==> (result matches Ok(Outcome::Absent)),
{
    reveal_with_fuel(finishes, 3);
}

/// A get after a put of the same key gives the value that was put.
pub proof fn law_get_gives_back_what_put_wrote(
    before: Files,
    key: Vec<u8>,
    value: Vec<u8>,
    written: Result<Outcome, StorageError>,
    between: Files,
    read: Result<Outcome, StorageError>,
    after: Files,
)
    requires
        before.wf(),
        answered(before, Request::Put { key, value }, written, between),
        answered(between, Request::Get { key }, read, after),
    ensures
        read matches Ok(Outcome::Value(v)) && v@ == value@,
{
    law_put_writes_the_value(before, key, value, written, between);
    law_get_reads_the_value(between, key, read, after);
}

/// A flush ends well and keeps what every key holds.
pub proof fn law_flush_keeps_the_contents(
    before: Files,
    result: Result<Outcome, StorageError>,
    after: Files,
)
    requires
        answered(before, Request::Flush, result, after),
    ensures
        result matches Ok(Outcome::Flushed),
        after == before,
{
    reveal_with_fuel(finishes, 3);
}

} // verus!
