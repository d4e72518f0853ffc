//! The event capability: any value a replay run can schedule.

use vstd::prelude::*;

verus! {

/// Any event that is to be rewound must be rewindable: it exposes a single,
/// pure timestamp, measured in microseconds since an arbitrary fixed epoch.
pub trait Rewindable {
    /// The event's timestamp as a mathematical integer (microseconds).
    spec fn ts(&self) -> int;

    /// The event's timestamp in executable form.
    fn timestamp(&self) -> (r: i64)
        ensures
            r as int == self.ts(),
    ;
}

/// A ready-made event: an opaque payload plus a microsecond timestamp.
#[derive(Debug, PartialEq, Eq)]
pub struct Event {
    pub data: String,
    pub timestamp_micros: i64,
}

impl Rewindable for Event {
    open spec fn ts(&self) -> int {
        self.timestamp_micros as int
    }

    fn timestamp(&self) -> (r: i64)
        ensures
            r as int == self.ts(),
    {
        self.timestamp_micros
    }
}

} // verus!
