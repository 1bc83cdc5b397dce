use vstd::prelude::*;

verus! {

/// A packet timestamp: whole seconds plus a sub-second nanosecond part.
///
/// A well-formed timestamp keeps `nanos` strictly below one billion; every
/// constructor of the library establishes that bound and every operation
/// preserves it.
#[derive(Clone, Copy, Debug, PartialEq, Eq, Structural, Default)]
pub struct Timestamp {
    /// Whole seconds.
    pub secs: u64,
    /// Nanoseconds within the second.
    pub nanos: u32,
}

/// The number of nanoseconds in one second.
pub const NANOS_PER_SEC: u32 = 1_000_000_000;

impl Timestamp {
    /// Well-formedness: the nanosecond part stays within one second.
    pub open spec fn wf(self) -> bool {
        self.nanos < NANOS_PER_SEC
    }

    /// The timestamp as a total count of nanoseconds.
    pub open spec fn spec_as_nanos(self) -> int {
        self.secs * NANOS_PER_SEC + self.nanos
    }

    /// Build a timestamp from seconds and nanoseconds.
    pub fn new(secs: u64, nanos: u32) -> (r: Timestamp)
        requires
            nanos < NANOS_PER_SEC,
        ensures
            r == (Timestamp { secs, nanos }),
            r.wf(),
    {
        Timestamp { secs, nanos }
    }

    /// The zero timestamp.
    pub fn zero() -> (r: Timestamp)
        ensures
            r == (Timestamp { secs: 0u64, nanos: 0u32 }),
            r.spec_as_nanos() == 0,
            r.wf(),
    {
        Timestamp { secs: 0, nanos: 0 }
    }

    /// The timestamp as a total count of nanoseconds.
    pub fn as_nanos(&self) -> (r: u128)
        ensures
            r == self.spec_as_nanos(),
    {
        proof {
            assert(self.secs as u128 * (NANOS_PER_SEC as u128) <= u64::MAX as u128
                * (NANOS_PER_SEC as u128)) by (nonlinear_arith)
                requires
                    self.secs <= u64::MAX,
            ;
        }
        self.secs as u128 * NANOS_PER_SEC as u128 + self.nanos as u128
    }

    /// Ordering of timestamps: strictly earlier than the other.
    pub open spec fn spec_lt(self, other: Timestamp) -> bool {
        self.spec_as_nanos() < other.spec_as_nanos()
    }

    /// Ordering of timestamps: no later than the other.
    pub open spec fn spec_le(self, other: Timestamp) -> bool {
        self.spec_as_nanos() <= other.spec_as_nanos()
    }

    /// Whether this timestamp is strictly earlier than the other.
    pub fn lt(&self, other: &Timestamp) -> (r: bool)
        requires
            self.wf(),
            other.wf(),
        ensures
            r == self.spec_lt(*other),
    {
        self.secs < other.secs || (self.secs == other.secs && self.nanos < other.nanos)
    }

    /// Whether this timestamp is no later than the other.
    pub fn le(&self, other: &Timestamp) -> (r: bool)
        requires
            self.wf(),
            other.wf(),
        ensures
            r == self.spec_le(*other),
    {
        self.secs < other.secs || (self.secs == other.secs && self.nanos <= other.nanos)
    }

    /// The difference between a later and an earlier timestamp, in
    /// nanoseconds.
    pub open spec fn spec_diff_nanos(self, earlier: Timestamp) -> int {
        self.spec_as_nanos() - earlier.spec_as_nanos()
    }

    /// The difference between this timestamp and an earlier one, in
    /// nanoseconds.
    pub fn diff_nanos(&self, earlier: &Timestamp) -> (r: u128)
        requires
            earlier.spec_le(*self),
        ensures
            r == self.spec_diff_nanos(*earlier),
    {
        self.as_nanos() - earlier.as_nanos()
    }
}

} // verus!
