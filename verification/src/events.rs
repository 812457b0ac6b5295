//! Incremental scan events: the streaming scan emits its records in
//! bounded batches, errors on a parallel stream, progress counters in
//! file units, and one terminal signal.

use vstd::prelude::*;

verus! {

/// One event of a streaming scan.
pub enum ScanEvent<T> {
    /// A batch of produced records.
    Chunk(Vec<T>),
    /// How many of the discovered files have been handled so far.
    Progress { current: usize, total: usize },
    /// One per-file failure.
    Error(String),
    /// The scan is over; no further event follows.
    Finished,
}

/// Ghost form of a scan event.
pub enum GScanEvent<V> {
    Chunk(Seq<V>),
    Progress { current: int, total: int },
    Error(Seq<char>),
    Finished,
}

impl<T: View> View for ScanEvent<T> {
    type V = GScanEvent<T::V>;

    open spec fn view(&self) -> GScanEvent<T::V> {
        match self {
            ScanEvent::Chunk(v) => GScanEvent::Chunk(v@.map_values(|x: T| x@)),
            ScanEvent::Progress { current, total } => GScanEvent::Progress {
                current: *current as int,
                total: *total as int,
            },
            ScanEvent::Error(m) => GScanEvent::Error(m@),
            ScanEvent::Finished => GScanEvent::Finished,
        }
    }
}

} // verus!
