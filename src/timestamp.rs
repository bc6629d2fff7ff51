use vstd::prelude::*;

verus! {

/// An instant as seconds since the Unix epoch and the nanoseconds past that
/// second. Ordering by the pair orders the instants, whatever offset the
/// date text carried.
#[derive(Clone, Copy, Debug, PartialEq, Eq, Structural)]
pub struct Timestamp {
    pub secs: i64,
    pub nanos: u32,
}

impl Timestamp {
    /// Strictly earlier than `other`.
    pub open spec fn before(self, other: Timestamp) -> bool {
        self.secs < other.secs || (self.secs == other.secs && self.nanos < other.nanos)
    }

    /// Earlier than or equal to `other`.
    pub open spec fn not_after(self, other: Timestamp) -> bool {
        self.before(other) || self == other
    }

    /// The Unix epoch: what an item without a publish time is dated.
    pub fn epoch() -> (r: Timestamp)
        ensures
            r.secs == 0 && r.nanos == 0,
    {
        Timestamp { secs: 0, nanos: 0 }
    }

    pub fn is_after(&self, other: &Timestamp) -> (r: bool)
        ensures
            r == other.before(*self),
    {
        other.secs < self.secs || (other.secs == self.secs && other.nanos < self.nanos)
    }
}

} // verus!
