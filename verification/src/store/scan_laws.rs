//! What a scan yields over an index and a heap that do as they are told.

use vstd::prelude::*;

use super::engine::{Outcome, Request, TupleLoc};
use super::error::StorageError;
use super::laws::{
    answered, law_delete_removes_the_key, law_flush_keeps_the_contents, law_get_reads_the_value,
    law_put_writes_the_value, Files,
};
use super::scan::{steps, ScanStep};
use crate::storage::bytes::lex_lt;

verus! {

/// A key and its value.
pub type Pair = (Seq<u8>, Seq<u8>);

/// Whether an index scan over `range` yields `entries`: each key of the index in the range,
/// once, in ascending order, with its tuple's location.
pub open spec fn indexed(
    files: Files,
    range: spec_fn(Seq<u8>) -> bool,
    entries: Seq<(Vec<u8>, TupleLoc)>,
) -> bool {
    &&& forall|i: int, j: int|
        0 <= i < j < entries.len() ==> lex_lt((#[trigger] entries[i]).0@, (#[trigger] entries[j]).0@)
    &&& forall|i: int|
        0 <= i < entries.len() ==> range((#[trigger] entries[i]).0@) && files.index.contains_key(
            entries[i].0@,
        ) && files.index[entries[i].0@] == entries[i].1
    &&& forall|k: Seq<u8>| #[trigger]
        files.index.contains_key(k) && range(k) ==> exists|i: int|
            0 <= i < entries.len() && (#[trigger] entries[i]).0@ == k
}

/// Whether a scan with the page `current` pinned gets `row` for an index entry and has `next`
/// pinned then, every action performed without an error.
pub open spec fn fetched(
    files: Files,
    current: Option<u64>,
    entry: (Vec<u8>, TupleLoc),
    row: Pair,
    next: Option<u64>,
) -> bool {
    exists|step: ScanStep| #[trigger]
        steps(current, Some(Ok((entry.0, Some(entry.1)))), step) && match step {
            ScanStep::Read { key, slot_id } => current is Some && next == current && row == (
                key@,
                files.heap[(TupleLoc { page_id: current->0, slot_id })],
            ),
            ScanStep::Pin { key, loc } => next == Some(loc.page_id) && row == (
                key@,
                files.heap[(TupleLoc { page_id: loc.page_id, slot_id: loc.slot_id })],
            ),
            _ => false,
        }
}

/// Whether a scan turns index entries into `rows`, one by one.
pub open spec fn scans(
    files: Files,
    current: Option<u64>,
    entries: Seq<(Vec<u8>, TupleLoc)>,
    rows: Seq<Pair>,
) -> bool
    decreases entries.len(),
{
    if entries.len() == 0 {
        rows.len() == 0
    } else {
        rows.len() > 0 && exists|next: Option<u64>| #[trigger]
            fetched(files, current, entries[0], rows[0], next) && scans(
                files,
                next,
                entries.drop_first(),
                rows.drop_first(),
            )
    }
}

/// Whether a scan over `range` yields `rows`.
pub open spec fn scanned(
    files: Files,
    range: spec_fn(Seq<u8>) -> bool,
    rows: Seq<Pair>,
) -> bool {
    exists|entries: Seq<(Vec<u8>, TupleLoc)>| #[trigger]
        indexed(files, range, entries) && scans(files, None, entries, rows)
}

proof fn lemma_scans(
    files: Files,
    current: Option<u64>,
    entries: Seq<(Vec<u8>, TupleLoc)>,
    rows: Seq<Pair>,
)
    requires
        scans(files, current, entries, rows),
    ensures
        rows.len() == entries.len(),
        forall|i: int|
            0 <= i < rows.len() ==> #[trigger] rows[i] == (
                entries[i].0@,
                files.heap[entries[i].1],
            ),
    decreases entries.len(),
{
    if entries.len() > 0 {
        let next = choose|next: Option<u64>| #[trigger]
            fetched(files, current, entries[0], rows[0], next) && scans(
                files,
                next,
                entries.drop_first(),
                rows.drop_first(),
            );
        lemma_scans(files, next, entries.drop_first(), rows.drop_first());
        assert forall|i: int| 0 <= i < rows.len() implies #[trigger] rows[i] == (
            entries[i].0@,
            files.heap[entries[i].1],
        ) by {
            if i > 0 {
                assert(rows[i] == rows.drop_first()[i - 1]);
                assert(entries[i] == entries.drop_first()[i - 1]);
            }
        }
    }
}

/// A scan yields what the keys of its range hold: every key once, in ascending order, each with
/// its value, and nothing else.
pub proof fn law_scan_yields_the_contents(
    files: Files,
    range: spec_fn(Seq<u8>) -> bool,
    rows: Seq<Pair>,
)
    requires
        files.wf(),
        scanned(files, range, rows),
    ensures
        forall|i: int, j: int|
            0 <= i < j < rows.len() ==> lex_lt((#[trigger] rows[i]).0, (#[trigger] rows[j]).0),
        forall|i: int|
            0 <= i < rows.len() ==> range((#[trigger] rows[i]).0) && files.contents().contains_key(
                rows[i].0,
            ) && files.contents()[rows[i].0] == rows[i].1,
        forall|k: Seq<u8>| #[trigger]
            files.contents().contains_key(k) && range(k) ==> exists|i: int|
                0 <= i < rows.len() && (#[trigger] rows[i]).0 == k,
{
    let entries = choose|entries: Seq<(Vec<u8>, TupleLoc)>| #[trigger]
        indexed(files, range, entries) && scans(files, None, entries, rows);
    lemma_scans(files, None, entries, rows);
    assert forall|i: int, j: int| 0 <= i < j < rows.len() implies lex_lt(
        (#[trigger] rows[i]).0,
        (#[trigger] rows[j]).0,
    ) by {
        assert(lex_lt(entries[i].0@, entries[j].0@));
    }
    assert forall|i: int| 0 <= i < rows.len() implies range((#[trigger] rows[i]).0)
        && files.contents().contains_key(rows[i].0) && files.contents()[rows[i].0]
        == rows[i].1 by {
        assert(range(entries[i].0@));
    }
    assert forall|k: Seq<u8>| #[trigger]
        files.contents().contains_key(k) && range(k) implies exists|i: int|
        0 <= i < rows.len() && (#[trigger] rows[i]).0 == k by {
        assert(files.index.contains_key(k));
        let i = choose|i: int| 0 <= i < entries.len() && (#[trigger] entries[i]).0@ == k;
        assert(rows[i].0 == k);
    }
}

// --- after any run of requests ---

/// Whether a run of requests, each answered in turn, leads from one state of the files to
/// another.
pub open spec fn lived(before: Files, requests: Seq<Request>, after: Files) -> bool
    decreases requests.len(),
{
    if requests.len() == 0 {
        after == before
    } else {
        exists|mid: Files, result: Result<Outcome, StorageError>| #[trigger]
            answered(mid, requests.last(), result, after) && lived(
                before,
                requests.drop_last(),
                mid,
            )
    }
}

/// What the last put or delete of a key left of it; what it held `initially` where there was
/// neither.
pub open spec fn last_written(
    requests: Seq<Request>,
    key: Seq<u8>,
    initially: Option<Seq<u8>>,
) -> Option<Seq<u8>>
    decreases requests.len(),
{
    if requests.len() == 0 {
        initially
    } else {
        match requests.last() {
            Request::Put { key: k, value } if k@ == key => Some(value@),
            Request::Delete { key: k } if k@ == key => None,
            _ => last_written(requests.drop_last(), key, initially),
        }
    }
}

/// What a key holds.
pub open spec fn held(files: Files, key: Seq<u8>) -> Option<Seq<u8>> {
    if files.contents().contains_key(key) {
        Some(files.contents()[key])
    } else {
        None
    }
}

/// After any run of requests every key holds what its last put wrote, and nothing where its
/// last write was a delete.
pub proof fn law_the_last_write_counts(before: Files, requests: Seq<Request>, after: Files)
    requires
        before.wf(),
        lived(before, requests, after),
    ensures
        after.wf(),
        forall|k: Seq<u8>| #[trigger]
            held(after, k) == last_written(requests, k, held(before, k)),
    decreases requests.len(),
{
    if requests.len() > 0 {
        let (mid, result) = choose|mid: Files, result: Result<Outcome, StorageError>| #[trigger]
            answered(mid, requests.last(), result, after) && lived(
                before,
                requests.drop_last(),
                mid,
            );
        law_the_last_write_counts(before, requests.drop_last(), mid);
        match requests.last() {
            Request::Put { key, value } => law_put_writes_the_value(mid, key, value, result, after),
            Request::Delete { key } => law_delete_removes_the_key(mid, key, result, after),
            Request::Get { key } => law_get_reads_the_value(mid, key, result, after),
            Request::Flush => law_flush_keeps_the_contents(mid, result, after),
        }
        assert forall|k: Seq<u8>| #[trigger]
            held(after, k) == last_written(requests, k, held(before, k)) by {
            assert(held(mid, k) == last_written(requests.drop_last(), k, held(before, k)));
        }
    }
}

/// A run of requests without its flushes.
pub open spec fn without_flushes(requests: Seq<Request>) -> Seq<Request>
    decreases requests.len(),
{
    if requests.len() == 0 {
        requests
    } else {
        let before = without_flushes(requests.drop_last());
        if requests.last() is Flush {
            before
        } else {
            before.push(requests.last())
        }
    }
}

/// Flushes, wherever they stand in a run of requests, make no difference to what any key holds.
pub proof fn law_flushes_make_no_difference(
    requests: Seq<Request>,
    key: Seq<u8>,
    initially: Option<Seq<u8>>,
)
    ensures
        last_written(without_flushes(requests), key, initially) == last_written(
            requests,
            key,
            initially,
        ),
    decreases requests.len(),
{
    if requests.len() > 0 {
        law_flushes_make_no_difference(requests.drop_last(), key, initially);
        let before = without_flushes(requests.drop_last());
        if !(requests.last() is Flush) {
            assert(before.push(requests.last()).drop_last() =~= before);
        }
    }
}

/// A scan after any run of requests on an empty store yields exactly the keys in its range
/// whose last write was a put, each once and with the value put, in ascending order.
pub proof fn law_scan_sees_the_last_writes(
    before: Files,
    requests: Seq<Request>,
    after: Files,
    range: spec_fn(Seq<u8>) -> bool,
    rows: Seq<Pair>,
)
    requires
        before.index == Map::<Seq<u8>, TupleLoc>::empty(),
        lived(before, requests, after),
        scanned(after, range, rows),
    ensures
        forall|i: int, j: int|
            0 <= i < j < rows.len() ==> lex_lt((#[trigger] rows[i]).0, (#[trigger] rows[j]).0),
        forall|i: int|
            0 <= i < rows.len() ==> range((#[trigger] rows[i]).0) && last_written(
                requests,
                rows[i].0,
                None,
            ) == Some(rows[i].1),
        forall|k: Seq<u8>|
            range(k) && (#[trigger] last_written(requests, k, None)) is Some ==> exists|i: int|
                0 <= i < rows.len() && (#[trigger] rows[i]).0 == k,
{
    assert(before.wf());
    law_the_last_write_counts(before, requests, after);
    law_scan_yields_the_contents(after, range, rows);
    assert forall|k: Seq<u8>| #[trigger] held(after, k) == last_written(requests, k, None) by {
        assert(held(before, k) is None);
    }
    assert forall|i: int| 0 <= i < rows.len() implies range((#[trigger] rows[i]).0)
        && last_written(requests, rows[i].0, None) == Some(rows[i].1) by {
        assert(held(after, rows[i].0) == Some(rows[i].1));
    }
    assert forall|k: Seq<u8>|
        range(k) && (#[trigger] last_written(requests, k, None)) is Some implies exists|i: int|
        0 <= i < rows.len() && (#[trigger] rows[i]).0 == k by {
        assert(held(after, k) is Some);
    }
}

} // verus!
