use vstd::prelude::*;

use crate::active::{
    spec_duration_sample, spec_observe_step, spec_push_capped, ActivityTracker,
};
use crate::flow_information::FlowInformation;
use crate::information::Information;
use crate::packet::Packet;
use crate::stats::{
    samples_bounded, spec_statistic_of, Statistic, MAX_SAMPLE_COUNT, MAX_SAMPLE_MAGNITUDE,
};
use crate::time::Timestamp;

verus! {

/// The observed direction of a packet within a flow, determined by the
/// caller from how the packet's endpoints relate to the flow identifier's
/// canonical orientation.
#[derive(Clone, Copy, Debug, PartialEq, Eq, Structural)]
pub enum Direction {
    Forward,
    Backward,
}

/// The packet length as a statistical sample, saturated at the largest
/// accepted sample magnitude.
pub open spec fn spec_length_sample(len: u64) -> i64 {
    if len > MAX_SAMPLE_MAGNITUDE {
        MAX_SAMPLE_MAGNITUDE
    } else {
        len as i64
    }
}

/// The packet length as a byte count, saturated at the machine limit.
pub open spec fn spec_length_bytes(len: u64) -> int {
    if len > usize::MAX {
        usize::MAX as int
    } else {
        len as int
    }
}

/// How recording one packet changes a directional aggregate: one more
/// packet, its bytes added (saturating), its network protocol recorded, and
/// the timestamp bounds widened by its timestamp.
pub open spec fn spec_aggregate_record(pre: Information, post: Information, p: Packet) -> bool {
    &&& post.nb_packet == (if pre.nb_packet < usize::MAX {
        pre.nb_packet + 1
    } else {
        usize::MAX as int
    })
    &&& post.nb_packet_byte == (if pre.nb_packet_byte + spec_length_bytes(p.length)
        <= usize::MAX {
        pre.nb_packet_byte + spec_length_bytes(p.length)
    } else {
        usize::MAX as int
    })
    &&& post.network_protocol@ == (if pre.network_protocol@.contains(p.network_protocol) {
        pre.network_protocol@
    } else {
        pre.network_protocol@.push(p.network_protocol)
    })
    &&& post.first_seen_packet == (if pre.first_seen_packet.spec_as_nanos() == 0
        || p.timestamp.spec_lt(pre.first_seen_packet) {
        p.timestamp
    } else {
        pre.first_seen_packet
    })
    &&& post.last_seen_packet == (if pre.last_seen_packet.spec_lt(p.timestamp) {
        p.timestamp
    } else {
        pre.last_seen_packet
    })
}

/// A directional aggregate left exactly as it was.
pub open spec fn spec_aggregate_unchanged(pre: Information, post: Information) -> bool {
    &&& post.nb_packet == pre.nb_packet
    &&& post.nb_packet_byte == pre.nb_packet_byte
    &&& post.network_protocol@ == pre.network_protocol@
    &&& post.first_seen_packet == pre.first_seen_packet
    &&& post.last_seen_packet == pre.last_seen_packet
}

/// One flow under aggregation: the persisted record (hint and packet
/// lists), the two directional aggregates, the activity tracker, the sample
/// sequences behind the whole-flow statistics, and the running totals.
///
/// Created on the first packet of a new flow and mutated by
/// [`Flow::ingest`] on every further packet of the flow.
#[derive(Debug)]
pub struct Flow {
    /// The persisted part: application hint and per-direction packet lists.
    pub information: FlowInformation,
    /// Aggregate of the packets seen in the forward direction.
    pub forward: Information,
    /// Aggregate of the packets seen in the backward direction.
    pub backward: Information,
    /// Active/idle burst segmentation of the flow's timeline.
    pub active: ActivityTracker,
    /// Packet length samples, for the length distribution.
    pub packet_length: Vec<i64>,
    /// Inter-arrival time samples in milliseconds, any direction.
    pub iat: Vec<i64>,
    /// Idle gap samples in milliseconds: the gaps that exceeded the
    /// activity timeout.
    pub idle: Vec<i64>,
    /// Timestamp of the most recent packet, any direction.
    pub last_seen: Option<Timestamp>,
    /// Whether packets have been seen in both directions.
    pub bidirectional: bool,
    /// Total number of packets, both directions, saturating.
    pub num_packets: usize,
    /// Total number of packet bytes, both directions, saturating.
    pub num_bytes: u64,
}

impl Flow {
    /// Well-formedness: the aggregates and tracker are well formed, every
    /// sample sequence stays within what the statistics accept, the
    /// timestamps are well formed, and an open burst ends at the last seen
    /// packet.
    pub open spec fn wf(self) -> bool {
        &&& self.forward.wf()
        &&& self.backward.wf()
        &&& self.active.wf()
        &&& self.packet_length@.len() <= MAX_SAMPLE_COUNT
        &&& samples_bounded(self.packet_length@)
        &&& self.iat@.len() <= MAX_SAMPLE_COUNT
        &&& samples_bounded(self.iat@)
        &&& self.idle@.len() <= MAX_SAMPLE_COUNT
        &&& samples_bounded(self.idle@)
        &&& match self.last_seen {
            Some(t) => t.wf(),
            None => true,
        }
        &&& match self.active.current_burst {
            Some(b) => self.last_seen == Some(b.last_seen),
            None => true,
        }
    }

    /// A fresh flow with the given activity timeout and nothing observed.
    pub fn new(activity_timeout: u64) -> (r: Flow)
        ensures
            r.wf(),
            r.information@.sni is None,
            r.information@.forward_packet_list == Seq::<Packet>::empty(),
            r.information@.backward_packet_list == Seq::<Packet>::empty(),
            r.forward.nb_packet == 0,
            r.backward.nb_packet == 0,
            r.active.activity_timeout == activity_timeout,
            r.active.current_burst is None,
            r.active.burst_durations@ == Seq::<i64>::empty(),
            r.packet_length@ == Seq::<i64>::empty(),
            r.iat@ == Seq::<i64>::empty(),
            r.idle@ == Seq::<i64>::empty(),
            r.last_seen is None,
            !r.bidirectional,
            r.num_packets == 0,
            r.num_bytes == 0,
    {
        Flow {
            information: FlowInformation::new(),
            forward: Information::new(),
            backward: Information::new(),
            active: ActivityTracker::new(activity_timeout),
            packet_length: Vec::new(),
            iat: Vec::new(),
            idle: Vec::new(),
            last_seen: None,
            bidirectional: false,
            num_packets: 0,
            num_bytes: 0,
        }
    }

    /// Fold one packet into the flow.
    ///
    /// The packet joins the packet list and the aggregate of its direction;
    /// its timestamp feeds the activity tracker; its length joins the
    /// length sample; the gap since the previous packet (any direction)
    /// joins the inter-arrival sample, and also the idle sample when it
    /// exceeds the activity timeout. The flow becomes bidirectional as soon
    /// as both directions have packets. Packets must arrive in
    /// non-decreasing timestamp order.
    #[verifier::rlimit(100)]
    pub fn ingest(&mut self, packet: &Packet, direction: Direction)
        requires
            old(self).wf(),
            packet.timestamp.wf(),
            match old(self).last_seen {
                Some(p) => p.spec_le(packet.timestamp),
                None => true,
            },
        ensures
            final(self).wf(),
            final(self).information@.sni == old(self).information@.sni,
            match direction {
                Direction::Forward => {
                    &&& final(self).information@.forward_packet_list
                        == old(self).information@.forward_packet_list.push(*packet)
                    &&& final(self).information@.backward_packet_list
                        == old(self).information@.backward_packet_list
                    &&& spec_aggregate_record(old(self).forward, final(self).forward, *packet)
                    &&& spec_aggregate_unchanged(old(self).backward, final(self).backward)
                },
                Direction::Backward => {
                    &&& final(self).information@.backward_packet_list
                        == old(self).information@.backward_packet_list.push(*packet)
                    &&& final(self).information@.forward_packet_list
                        == old(self).information@.forward_packet_list
                    &&& spec_aggregate_record(old(self).backward, final(self).backward, *packet)
                    &&& spec_aggregate_unchanged(old(self).forward, final(self).forward)
                },
            },
            spec_observe_step(old(self).active, final(self).active, packet.timestamp),
            final(self).packet_length@ == spec_push_capped(
                old(self).packet_length@,
                spec_length_sample(packet.length),
            ),
            final(self).iat@ == match old(self).last_seen {
                Some(p) => spec_push_capped(
                    old(self).iat@,
                    spec_duration_sample(p, packet.timestamp),
                ),
                None => old(self).iat@,
            },
            final(self).idle@ == match old(self).last_seen {
                Some(p) => (if packet.timestamp.spec_as_nanos() - p.spec_as_nanos()
                    > old(self).active.activity_timeout * 1000000000 {
                    spec_push_capped(
                        old(self).idle@,
                        spec_duration_sample(p, packet.timestamp),
                    )
                } else {
                    old(self).idle@
                }),
                None => old(self).idle@,
            },
            final(self).last_seen == Some(packet.timestamp),
            final(self).bidirectional == (final(self).forward.nb_packet > 0
                && final(self).backward.nb_packet > 0),
            final(self).num_packets == (if old(self).num_packets < usize::MAX {
                old(self).num_packets + 1
            } else {
                usize::MAX as int
            }),
            final(self).num_bytes == (if old(self).num_bytes + packet.length <= u64::MAX {
                old(self).num_bytes + packet.length
            } else {
                u64::MAX as int
            }),
    {
        let t = packet.timestamp;
        // Length in bytes, saturated at the machine limit.
        let length_bytes: usize = if packet.length > usize::MAX as u64 {
            usize::MAX
        } else {
            packet.length as usize
        };
        match direction {
            Direction::Forward => {
                self.information.forward_packet_list.push(*packet);
                self.forward.add_packet(length_bytes, packet.network_protocol);
                self.forward.update_timestamp(t, t);
            },
            Direction::Backward => {
                self.information.backward_packet_list.push(*packet);
                self.backward.add_packet(length_bytes, packet.network_protocol);
                self.backward.update_timestamp(t, t);
            },
        }
        let length_sample: i64 = if packet.length > MAX_SAMPLE_MAGNITUDE as u64 {
            MAX_SAMPLE_MAGNITUDE
        } else {
            packet.length as i64
        };
        if self.packet_length.len() < MAX_SAMPLE_COUNT {
            self.packet_length.push(length_sample);
        }
        match self.last_seen {
            Some(prev) => {
                let gap_ns = t.diff_nanos(&prev);
                let gap_ms = gap_ns / 1000000;
                let gap_sample: i64 = if gap_ms > MAX_SAMPLE_MAGNITUDE as u128 {
                    MAX_SAMPLE_MAGNITUDE
                } else {
                    gap_ms as i64
                };
                if self.iat.len() < MAX_SAMPLE_COUNT {
                    self.iat.push(gap_sample);
                }
                if gap_ns > self.active.activity_timeout as u128 * 1000000000 {
                    if self.idle.len() < MAX_SAMPLE_COUNT {
                        self.idle.push(gap_sample);
                    }
                }
            },
            None => {},
        }
        self.active.observe(t);
        self.last_seen = Some(t);
        self.bidirectional = self.forward.nb_packet > 0 && self.backward.nb_packet > 0;
        if self.num_packets < usize::MAX {
            self.num_packets = self.num_packets + 1;
        }
        if self.num_bytes <= u64::MAX - packet.length {
            self.num_bytes = self.num_bytes + packet.length;
        } else {
            self.num_bytes = u64::MAX;
        }
    }

    /// Close the flow's open burst, if any: called when no more packets
    /// will arrive.
    pub fn finalize(&mut self)
        requires
            old(self).wf(),
        ensures
            final(self).wf(),
            final(self).active.current_burst is None,
            final(self).active.activity_timeout == old(self).active.activity_timeout,
            final(self).active.burst_durations@ == match old(self).active.current_burst {
                Some(b) => spec_push_capped(
                    old(self).active.burst_durations@,
                    spec_duration_sample(b.first_seen, b.last_seen),
                ),
                None => old(self).active.burst_durations@,
            },
            final(self).information@ == old(self).information@,
            spec_aggregate_unchanged(old(self).forward, final(self).forward),
            spec_aggregate_unchanged(old(self).backward, final(self).backward),
            final(self).packet_length@ == old(self).packet_length@,
            final(self).iat@ == old(self).iat@,
            final(self).idle@ == old(self).idle@,
            final(self).last_seen == old(self).last_seen,
            final(self).bidirectional == old(self).bidirectional,
            final(self).num_packets == old(self).num_packets,
            final(self).num_bytes == old(self).num_bytes,
    {
        self.active.finalize();
    }

    /// The statistics of the packet length sample.
    pub fn packet_length_statistic(&self) -> (r: Statistic)
        requires
            self.wf(),
        ensures
            spec_statistic_of(self.packet_length@, r),
    {
        Statistic::new(&self.packet_length)
    }

    /// The statistics of the inter-arrival time sample, in milliseconds.
    pub fn iat_statistic(&self) -> (r: Statistic)
        requires
            self.wf(),
        ensures
            spec_statistic_of(self.iat@, r),
    {
        Statistic::new(&self.iat)
    }

    /// The statistics of the idle gap sample, in milliseconds.
    pub fn idle_statistic(&self) -> (r: Statistic)
        requires
            self.wf(),
        ensures
            spec_statistic_of(self.idle@, r),
    {
        Statistic::new(&self.idle)
    }
}

} // verus!
