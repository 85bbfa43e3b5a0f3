use vstd::prelude::*;

verus! {

/// An absolute UTC instant: whole seconds since the Unix epoch and the
/// nanoseconds within that second. Nanoseconds from one billion up mark a
/// leap second, as chrono represents it (see `wf`).
#[derive(Clone, Copy, Debug, PartialEq, Eq, Structural)]
pub struct Timestamp {
    pub secs: i64,
    pub nanos: u32,
}

/// `a` lies strictly before `b`.
pub open spec fn earlier(a: Timestamp, b: Timestamp) -> bool {
    a.secs < b.secs || (a.secs == b.secs && a.nanos < b.nanos)
}

impl Timestamp {
    /// The nanoseconds stay below two seconds' worth.
    pub open spec fn wf(&self) -> bool {
        self.nanos < 2_000_000_000
    }

    pub fn new(secs: i64, nanos: u32) -> (r: Timestamp)
        requires
            nanos < 2_000_000_000,
        ensures
            r.wf(),
            r == (Timestamp { secs, nanos }),
    {
        Timestamp { secs, nanos }
    }

    /// Whether `self` lies strictly before `other`.
    pub fn is_before(&self, other: &Timestamp) -> (r: bool)
        ensures
            r == earlier(*self, *other),
    {
        self.secs < other.secs || (self.secs == other.secs && self.nanos < other.nanos)
    }
}

} // verus!
