use vstd::prelude::*;

use crate::stats::{samples_bounded, spec_statistic_of, Statistic, MAX_SAMPLE_COUNT, MAX_SAMPLE_MAGNITUDE};
use crate::time::Timestamp;

verus! {

/// The currently open active burst of a flow.
#[derive(Clone, Copy, Debug, PartialEq, Eq, Structural)]
pub struct Burst {
    /// Timestamp of the first packet of the burst.
    pub first_seen: Timestamp,
    /// Timestamp of the last packet of the burst so far.
    pub last_seen: Timestamp,
}

/// The duration sample recorded for a closed burst: the burst length in
/// whole milliseconds, saturated at the largest sample magnitude the
/// statistics accept.
pub open spec fn spec_duration_sample(first: Timestamp, last: Timestamp) -> i64 {
    let ms = (last.spec_as_nanos() - first.spec_as_nanos()) / 1000000;
    if ms > MAX_SAMPLE_MAGNITUDE {
        MAX_SAMPLE_MAGNITUDE
    } else {
        ms as i64
    }
}

/// A sample sequence extended by one sample, unless it is already at the
/// count the statistics accept, in which case it is kept as it is.
pub open spec fn spec_push_capped(s: Seq<i64>, x: i64) -> Seq<i64> {
    if s.len() < MAX_SAMPLE_COUNT {
        s.push(x)
    } else {
        s
    }
}

/// Segments a flow's packet timeline into active bursts separated by idle
/// gaps longer than the configured timeout.
///
/// The tracker is a two-state machine: either no burst is open, or one is.
/// Each closed burst contributes its duration, in milliseconds, to the
/// sample behind [`ActivityTracker::burst_statistic`]. Packets must be
/// observed in non-decreasing timestamp order; that order is a precondition
/// of [`ActivityTracker::observe`], which is how this library settles the
/// out-of-order question: an out-of-order packet is the caller's error, not
/// silently tolerated.
#[derive(Debug)]
pub struct ActivityTracker {
    /// The configured activity timeout, in whole seconds: a gap longer than
    /// this closes the open burst.
    pub activity_timeout: u64,
    /// Durations of the closed bursts so far, in milliseconds, each
    /// saturated at the largest accepted sample magnitude.
    pub burst_durations: Vec<i64>,
    /// The open burst, if any.
    pub current_burst: Option<Burst>,
}

/// How one observed timestamp changes a tracker: the fields of `post` in
/// terms of the fields of `pre`.
///
/// With no burst open, one opens at `t`. With a burst open and the gap
/// since its last packet within the timeout, the burst extends to `t`.
/// Otherwise the burst closes, its duration joins the sample, and a new
/// burst opens at `t`.
pub open spec fn spec_observe_step(pre: ActivityTracker, post: ActivityTracker, t: Timestamp)
    -> bool {
    &&& post.activity_timeout == pre.activity_timeout
    &&& match pre.current_burst {
        None => {
            &&& post.current_burst == Some(Burst { first_seen: t, last_seen: t })
            &&& post.burst_durations@ == pre.burst_durations@
        },
        Some(b) => {
            if t.spec_as_nanos() - b.last_seen.spec_as_nanos() <= pre.activity_timeout
                * 1000000000 {
                &&& post.current_burst == Some(Burst { first_seen: b.first_seen, last_seen: t })
                &&& post.burst_durations@ == pre.burst_durations@
            } else {
                &&& post.current_burst == Some(Burst { first_seen: t, last_seen: t })
                &&& post.burst_durations@ == spec_push_capped(
                    pre.burst_durations@,
                    spec_duration_sample(b.first_seen, b.last_seen),
                )
            }
        },
    }
}

impl ActivityTracker {
    /// Well-formedness: the recorded samples stay within what the
    /// statistics accept, and an open burst is ordered with well-formed
    /// timestamps.
    pub open spec fn wf(self) -> bool {
        &&& self.burst_durations@.len() <= MAX_SAMPLE_COUNT
        &&& samples_bounded(self.burst_durations@)
        &&& forall|i: int|
            0 <= i < self.burst_durations@.len() ==> #[trigger] self.burst_durations@[i] >= 0
        &&& match self.current_burst {
            Some(b) => b.first_seen.wf() && b.last_seen.wf() && b.first_seen.spec_le(
                b.last_seen,
            ),
            None => true,
        }
    }

    /// A tracker with the given timeout, no open burst and no closed
    /// bursts.
    pub fn new(activity_timeout: u64) -> (r: ActivityTracker)
        ensures
            r.activity_timeout == activity_timeout,
            r.burst_durations@ == Seq::<i64>::empty(),
            r.current_burst is None,
            r.wf(),
    {
        ActivityTracker {
            activity_timeout,
            burst_durations: Vec::new(),
            current_burst: None,
        }
    }

    /// The duration sample of a closed burst.
    fn duration_sample(first: &Timestamp, last: &Timestamp) -> (r: i64)
        requires
            first.wf(),
            last.wf(),
            first.spec_le(*last),
        ensures
            r == spec_duration_sample(*first, *last),
            0 <= r <= MAX_SAMPLE_MAGNITUDE,
    {
        let ns = last.diff_nanos(first);
        let ms = ns / 1000000;
        if ms > MAX_SAMPLE_MAGNITUDE as u128 {
            MAX_SAMPLE_MAGNITUDE
        } else {
            ms as i64
        }
    }

    /// Record one packet timestamp.
    ///
    /// Packets must arrive in non-decreasing timestamp order: a timestamp
    /// earlier than the last packet of the open burst is rejected by the
    /// precondition.
    pub fn observe(&mut self, t: Timestamp)
        requires
            old(self).wf(),
            t.wf(),
            match old(self).current_burst {
                Some(b) => b.last_seen.spec_le(t),
                None => true,
            },
        ensures
            final(self).wf(),
            spec_observe_step(*old(self), *final(self), t),
    {
        match self.current_burst {
            None => {
                self.current_burst = Some(Burst { first_seen: t, last_seen: t });
            },
            Some(b) => {
                let gap = t.diff_nanos(&b.last_seen);
                if gap <= self.activity_timeout as u128 * 1000000000 {
                    self.current_burst = Some(Burst { first_seen: b.first_seen, last_seen: t });
                } else {
                    let sample = Self::duration_sample(&b.first_seen, &b.last_seen);
                    if self.burst_durations.len() < MAX_SAMPLE_COUNT {
                        self.burst_durations.push(sample);
                    }
                    self.current_burst = Some(Burst { first_seen: t, last_seen: t });
                }
            },
        }
    }

    /// Close the open burst, if any, recording its duration; afterwards no
    /// burst is open.
    ///
    /// Called at flow finalization, when no more packets will arrive.
    pub fn finalize(&mut self)
        requires
            old(self).wf(),
        ensures
            final(self).wf(),
            final(self).activity_timeout == old(self).activity_timeout,
            final(self).current_burst is None,
            final(self).burst_durations@ == match old(self).current_burst {
                Some(b) => spec_push_capped(
                    old(self).burst_durations@,
                    spec_duration_sample(b.first_seen, b.last_seen),
                ),
                None => old(self).burst_durations@,
            },
    {
        match self.current_burst {
            Some(b) => {
                let sample = Self::duration_sample(&b.first_seen, &b.last_seen);
                if self.burst_durations.len() < MAX_SAMPLE_COUNT {
                    self.burst_durations.push(sample);
                }
                self.current_burst = None;
            },
            None => {},
        }
    }

    /// The descriptive statistics of the closed-burst durations, exactly as
    /// [`Statistic::new`] computes them from the duration sample.
    pub fn burst_statistic(&self) -> (r: Statistic)
        requires
            self.wf(),
        ensures
            spec_statistic_of(self.burst_durations@, r),
    {
        Statistic::new(&self.burst_durations)
    }
}

} // verus!
