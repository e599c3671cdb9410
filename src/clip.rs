//! The canonical clip record.

use vstd::prelude::*;

verus! {

/// A point in time in UTC: whole seconds since the Unix epoch and the
/// nanoseconds past that second.
#[derive(Debug, Clone, Copy, PartialEq, Eq, Structural)]
pub struct Timestamp {
    pub secs: i64,
    pub nanos: u32,
}

/// One captured snippet. `embedding` holds the bit patterns of the 32-bit
/// floats of its vector, in order.
#[derive(Debug, Clone)]
pub struct ClipItem {
    pub id: String,
    pub content: String,
    pub summary: String,
    pub tags: Vec<String>,
    pub timestamp: Timestamp,
    pub source: Option<String>,
    pub embedding: Option<Vec<u32>>,
}

} // verus!
