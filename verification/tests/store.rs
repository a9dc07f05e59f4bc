//! The storage engine's operations, over an index and a heap in memory.

use std::collections::BTreeMap;

use strata_db::store::engine::{
    begin, decode_loc, resume, Action, EngineBuilder, Event, Outcome, Phase, Request, TupleLoc,
    HEAP_FRAMES,
};
use strata_db::store::error::{HeapError, IndexError, StorageError};
use strata_db::store::scan::{Scan, ScanStep};

/// Two tuples go on a page.
const PER_PAGE: usize = 2;

/// An index whose entries are sealed at a flush, and a heap that is durable from then on.
#[derive(Clone, Default)]
struct Disk {
    sealed: BTreeMap<Vec<u8>, Option<TupleLoc>>,
    memory: BTreeMap<Vec<u8>, Option<TupleLoc>>,
    tuples: Vec<Vec<u8>>,
    durable: usize,
}

impl Disk {
    fn place(n: usize) -> TupleLoc {
        TupleLoc { page_id: (n / PER_PAGE) as u64, slot_id: (n % PER_PAGE) as u16 }
    }

    fn tuple(&self, loc: TupleLoc) -> Vec<u8> {
        self.tuples[loc.page_id as usize * PER_PAGE + loc.slot_id as usize].clone()
    }

    fn lookup(&self, key: &[u8]) -> Option<TupleLoc> {
        match self.memory.get(key) {
            Some(newest) => *newest,
            None => self.sealed.get(key).copied().flatten(),
        }
    }

    fn perform(&mut self, action: Action) -> Event {
        match action {
            Action::InsertTuple { value } => {
                self.tuples.push(value);
                Event::Inserted(Ok(Disk::place(self.tuples.len() - 1)))
            }
            Action::IndexPut { key, loc } => {
                self.memory.insert(key, Some(loc));
                Event::Indexed(Ok(()))
            }
            Action::IndexDelete { key } => {
                self.memory.insert(key, None);
                Event::Indexed(Ok(()))
            }
            Action::IndexGet { key } => Event::Looked(Ok(self.lookup(&key).map(Some))),
            Action::FetchTuple { loc } => Event::Fetched(Ok(self.tuple(loc))),
            Action::FlushHeap => {
                self.durable = self.tuples.len();
                Event::HeapFlushed(Ok(()))
            }
            Action::FlushIndex => {
                // Nothing is sealed that leads to a tuple which is not durable.
                assert!(self.durable == self.tuples.len());
                let memory = std::mem::take(&mut self.memory);
                self.sealed.extend(memory);
                Event::IndexFlushed(Ok(()))
            }
            Action::Finish(_) => unreachable!(),
        }
    }

    fn run(&mut self, request: Request) -> Result<Outcome, StorageError> {
        let (mut phase, mut action) = begin(request);
        loop {
            if let Action::Finish(result) = action {
                assert!(matches!(phase, Phase::Over));
                return result;
            }
            let event = self.perform(action);
            (phase, action) = resume(phase, event);
        }
    }

    fn put(&mut self, key: &[u8], value: &[u8]) {
        let request = Request::Put { key: key.to_vec(), value: value.to_vec() };
        assert!(matches!(self.run(request), Ok(Outcome::Written)));
    }

    fn delete(&mut self, key: &[u8]) {
        let request = Request::Delete { key: key.to_vec() };
        assert!(matches!(self.run(request), Ok(Outcome::Written)));
    }

    fn get(&mut self, key: &[u8]) -> Option<Vec<u8>> {
        match self.run(Request::Get { key: key.to_vec() }).unwrap() {
            Outcome::Value(v) => Some(v),
            Outcome::Absent => None,
            other => panic!("a read ended with {other:?}"),
        }
    }

    fn flush(&mut self) {
        assert!(matches!(self.run(Request::Flush), Ok(Outcome::Flushed)));
    }

    /// What is left of it after a crash.
    fn reopen(self) -> Disk {
        let mut tuples = self.tuples;
        tuples.truncate(self.durable);
        Disk { sealed: self.sealed, memory: BTreeMap::new(), tuples, durable: self.durable }
    }

    /// Every row in key order, and how many pages were pinned for them.
    fn scan(&self) -> (Vec<(Vec<u8>, Vec<u8>)>, usize) {
        let mut merged = self.sealed.clone();
        merged.extend(self.memory.clone());
        let mut entries = merged.into_iter().filter_map(|(k, loc)| loc.map(|l| (k, Some(l))));
        let mut scan = Scan::new();
        let mut rows = Vec::new();
        let mut pins = 0;
        loop {
            let step = match scan.next(entries.next().map(Ok)) {
                ScanStep::Pin { key, loc } => {
                    pins += 1;
                    scan.pinned(key, loc, Ok(()))
                }
                step => step,
            };
            match step {
                ScanStep::Read { key, slot_id } => {
                    let loc = TupleLoc { page_id: scan.current.unwrap(), slot_id };
                    rows.push((key, self.tuple(loc)));
                }
                ScanStep::End => return (rows, pins),
                other => panic!("the scan ended with {other:?}"),
            }
        }
    }
}

fn pair(k: &[u8], v: &[u8]) -> (Vec<u8>, Vec<u8>) {
    (k.to_vec(), v.to_vec())
}

fn index_error(exhausted: bool) -> IndexError {
    IndexError { exhausted, message: "boom".into() }
}

fn heap_error(exhausted: bool) -> HeapError {
    HeapError { exhausted, message: "boom".into() }
}

#[test]
fn engine_put_get_delete_round_trip() {
    let mut engine = Disk::default();
    engine.put(b"user:alice", b"admin");
    assert_eq!(engine.get(b"user:alice"), Some(b"admin".to_vec()));

    engine.delete(b"user:alice");
    assert_eq!(engine.get(b"user:alice"), None);
}

#[test]
fn scan_returns_sorted_results() {
    let mut engine = Disk::default();
    engine.put(b"key:c", b"3");
    engine.put(b"key:a", b"1");
    engine.put(b"key:b", b"2");
    let (rows, pins) = engine.scan();
    assert_eq!(rows, vec![pair(b"key:a", b"1"), pair(b"key:b", b"2"), pair(b"key:c", b"3")]);
    // a and c share the first page, but b comes between them.
    assert_eq!(pins, 3);
}

#[test]
fn reads_merge_memtable_over_flushed_l0() {
    let mut engine = Disk::default();
    engine.put(b"a", b"1");
    engine.put(b"b", b"2");
    engine.flush();

    // Newer writes win over the sealed ones.
    engine.put(b"a", b"1b");
    assert_eq!(engine.get(b"a"), Some(b"1b".to_vec()));
    assert_eq!(engine.get(b"b"), Some(b"2".to_vec()));
}

#[test]
fn delete_after_flush_shadows_value() {
    let mut engine = Disk::default();
    engine.put(b"k", b"v");
    engine.flush();
    engine.delete(b"k");
    assert_eq!(engine.get(b"k"), None);
}

#[test]
fn values_survive_flush_and_reopen() {
    let mut engine = Disk::default();
    engine.put(b"durable", b"value");
    engine.flush();
    let mut engine = engine.reopen();
    assert_eq!(engine.get(b"durable"), Some(b"value".to_vec()));
}

#[test]
fn exhaustion_funnels_into_one_variant() {
    // The index and the heap running out of room both land in Exhausted.
    let from_lsm: StorageError = index_error(true).into();
    assert!(from_lsm.is_exhausted());
    let from_pager: StorageError = heap_error(true).into();
    assert!(from_pager.is_exhausted());

    // Another error keeps its own variant.
    let internal: StorageError = index_error(false).into();
    assert!(!internal.is_exhausted());
    assert!(matches!(internal, StorageError::Lsm(_)));
    let block: StorageError = heap_error(false).into();
    assert!(!block.is_exhausted());
    assert!(matches!(block, StorageError::Block(_)));
}

#[test]
fn scan_returns_sorted_merged_view() {
    let mut engine = Disk::default();
    engine.put(b"k:c", b"3");
    engine.put(b"k:a", b"1");
    engine.flush();
    engine.put(b"k:b", b"2");
    engine.put(b"k:a", b"1b");
    let (rows, _) = engine.scan();
    assert_eq!(rows, vec![pair(b"k:a", b"1b"), pair(b"k:b", b"2"), pair(b"k:c", b"3")]);
}

#[test]
fn many_writes_with_periodic_flush_all_readable() {
    let mut engine = Disk::default();
    let n = 500;
    for i in 0..n {
        engine.put(format!("k:{i:06}").as_bytes(), format!("v:{i}").as_bytes());
        if i % 50 == 49 {
            engine.flush();
        }
    }
    for i in 0..n {
        let val = engine.get(format!("k:{i:06}").as_bytes());
        assert_eq!(val, Some(format!("v:{i}").into_bytes()), "missing k:{i:06}");
    }
}

#[test]
fn flushed_data_survives_reopen() {
    let mut engine = Disk::default();
    engine.put(b"config:theme", b"dark");
    engine.put(b"config:lang", b"en");
    engine.flush();
    let mut engine = engine.reopen();
    assert_eq!(engine.get(b"config:theme"), Some(b"dark".to_vec()));
    assert_eq!(engine.get(b"config:lang"), Some(b"en".to_vec()));
}

#[test]
fn delete_after_flush_is_hidden() {
    let mut engine = Disk::default();
    engine.put(b"k", b"v");
    engine.flush();
    engine.delete(b"k");
    assert_eq!(engine.get(b"k"), None);

    // The tombstone still holds when it is sealed too.
    engine.flush();
    assert_eq!(engine.get(b"k"), None);
}

#[test]
fn neighbours_share_a_pin() {
    let mut engine = Disk::default();
    for (k, v) in [(b"a", b"1"), (b"b", b"2"), (b"c", b"3"), (b"d", b"4")] {
        engine.put(k, v);
    }
    let (rows, pins) = engine.scan();
    assert_eq!(rows.len(), 4);
    assert_eq!(pins, 2);
}

#[test]
fn a_tuple_that_was_not_stored_is_not_indexed() {
    let (phase, action) = begin(Request::Put { key: vec![1], value: vec![2] });
    assert!(matches!(action, Action::InsertTuple { .. }));
    let (phase, action) = resume(phase, Event::Inserted(Err(heap_error(true))));
    assert!(matches!(phase, Phase::Over));
    assert!(matches!(action, Action::Finish(Err(StorageError::Exhausted(_)))));
}

#[test]
fn the_index_is_not_sealed_over_a_heap_that_is_not_durable() {
    let (phase, action) = begin(Request::Flush);
    assert!(matches!(action, Action::FlushHeap));
    let (_, action) = resume(phase, Event::HeapFlushed(Err(heap_error(false))));
    assert!(matches!(action, Action::Finish(Err(StorageError::Block(_)))));
}

#[test]
fn a_mapping_that_spells_no_location_is_corruption() {
    let (phase, _) = begin(Request::Get { key: vec![1] });
    let (_, action) = resume(phase, Event::Looked(Ok(Some(None))));
    assert!(matches!(action, Action::Finish(Err(StorageError::Corruption(_)))));
    assert!(matches!(decode_loc(None), Err(StorageError::Corruption(_))));
    let loc = TupleLoc { page_id: 3, slot_id: 4 };
    assert!(matches!(decode_loc(Some(loc)), Ok(l) if l == loc));

    let step = Scan::new().next(Some(Ok((vec![1], None))));
    assert!(matches!(step, ScanStep::Failed(StorageError::Corruption(_))));
}

#[test]
fn index_and_heap_errors_end_an_operation() {
    let (phase, _) = begin(Request::Delete { key: vec![1] });
    let (_, action) = resume(phase, Event::Indexed(Err(index_error(false))));
    assert!(matches!(action, Action::Finish(Err(StorageError::Lsm(_)))));

    let (phase, _) = begin(Request::Get { key: vec![1] });
    let loc = TupleLoc { page_id: 0, slot_id: 0 };
    let (phase, action) = resume(phase, Event::Looked(Ok(Some(Some(loc)))));
    assert!(matches!(action, Action::FetchTuple { loc: l } if l == loc));
    let (_, action) = resume(phase, Event::Fetched(Err(heap_error(false))));
    assert!(matches!(action, Action::Finish(Err(StorageError::Block(_)))));
}

#[test]
fn a_page_that_cannot_be_pinned_fails_the_row_only() {
    let mut scan = Scan::new();
    let here = TupleLoc { page_id: 1, slot_id: 0 };
    let there = TupleLoc { page_id: 2, slot_id: 0 };
    scan.pinned(vec![1], here, Ok(()));
    assert!(matches!(
        scan.pinned(vec![2], there, Err(heap_error(true))),
        ScanStep::Failed(StorageError::Exhausted(_))
    ));
    assert_eq!(scan.current, Some(1));
    let failed = scan.next(Some(Err(StorageError::Lsm(index_error(false)))));
    assert!(matches!(failed, ScanStep::Failed(StorageError::Lsm(_))));
    assert!(matches!(scan.next(None), ScanStep::End));
}

#[test]
fn options_start_from_their_defaults() {
    let options: EngineBuilder<u8> = EngineBuilder::new();
    assert_eq!(options.heap_frames, HEAP_FRAMES);
    assert_eq!(options.heap_frames, 1024);
    assert!(!options.direct_io);
    let options = options.heap_frames(8).direct_io(true);
    assert_eq!((options.heap_frames, options.direct_io), (8, true));
    assert_eq!(options.levels_or(vec![7]), vec![7]);
    let options: EngineBuilder<u8> = EngineBuilder::new().levels(vec![1, 2]);
    assert_eq!(options.levels_or(vec![7]), vec![1, 2]);
}

#[test]
fn the_last_write_of_a_key_counts_whatever_was_flushed() {
    let writes: Vec<(&[u8], Option<&[u8]>)> = vec![
        (b"b", Some(b"1")),
        (b"a", Some(b"2")),
        (b"c", Some(b"3")),
        (b"b", None),
        (b"a", Some(b"4")),
        (b"d", None),
        (b"c", None),
        (b"c", Some(b"5")),
    ];
    let expected = vec![pair(b"a", b"4"), pair(b"c", b"5")];
    // A flush after each write that the mask picks, or after none.
    for mask in [0u32, 0b1, 0b1010_1010, 0b1111_1111, 0b0010_0000] {
        let mut disk = Disk::default();
        for (i, (key, value)) in writes.iter().enumerate() {
            match value {
                Some(v) => disk.put(key, v),
                None => disk.delete(key),
            }
            if mask & (1 << i) != 0 {
                disk.flush();
            }
        }
        assert_eq!(disk.scan().0, expected, "{mask:b}");
    }
}
