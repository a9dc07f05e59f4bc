//! The storage engine: an index over a heap of tuples. The index and the heap are files, and
//! what reads and writes them is the host; what to read and write, and in which order, is
//! decided here.

pub mod engine;
pub mod error;
pub mod laws;
pub mod scan;
pub mod scan_laws;
