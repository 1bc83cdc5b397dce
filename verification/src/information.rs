use vstd::prelude::*;

use crate::time::Timestamp;

verus! {

/// Per-direction running totals of a flow: packet and byte counts, the set of
/// observed network-layer protocols, and the first/last-seen timestamp
/// bounds.
///
/// All fields are monotonic: the counts and the protocol set only grow,
/// `first_seen_packet` only moves earlier and `last_seen_packet` only moves
/// later; an update that would not extend a bound is ignored.
#[derive(Debug, Default)]
pub struct Information {
    /// Number of packets.
    pub nb_packet: usize,
    /// Number of packet bytes.
    pub nb_packet_byte: usize,
    /// Network-layer protocol identifiers seen so far (e.g. IPv4, IPv6),
    /// each held once, in order of first appearance.
    pub network_protocol: Vec<u16>,
    /// Timestamp of the first seen packet.
    pub first_seen_packet: Timestamp,
    /// Timestamp of the last seen packet.
    pub last_seen_packet: Timestamp,
}

impl Information {
    /// Well-formedness: the protocol list holds no duplicates, so that it
    /// represents a set, and the timestamp bounds are well formed.
    pub open spec fn wf(self) -> bool {
        &&& forall|i: int, j: int|
            0 <= i < j < self.network_protocol@.len()
                ==> self.network_protocol@[i] != self.network_protocol@[j]
        &&& self.first_seen_packet.wf()
        &&& self.last_seen_packet.wf()
    }

    /// The protocol list as a mathematical set.
    pub open spec fn protocol_set(self) -> Set<u16> {
        self.network_protocol@.to_set()
    }

    /// An aggregate with zero counts, an empty protocol set and zero
    /// timestamp bounds.
    pub fn new() -> (r: Information)
        ensures
            r.nb_packet == 0,
            r.nb_packet_byte == 0,
            r.network_protocol@ == Seq::<u16>::empty(),
            r.first_seen_packet == (Timestamp { secs: 0u64, nanos: 0u32 }),
            r.last_seen_packet == (Timestamp { secs: 0u64, nanos: 0u32 }),
            r.wf(),
    {
        Information {
            nb_packet: 0,
            nb_packet_byte: 0,
            network_protocol: Vec::new(),
            first_seen_packet: Timestamp { secs: 0, nanos: 0 },
            last_seen_packet: Timestamp { secs: 0, nanos: 0 },
        }
    }

    /// Account one packet: raise the packet count by one and the byte count
    /// by the packet's length (both saturating at the machine limit), and
    /// record its network-layer protocol.
    ///
    /// The timestamp bounds are left untouched; they are maintained by
    /// [`Information::update_timestamp`].
    pub fn add_packet(&mut self, nb_packet_byte: usize, network_protocol: u16)
        requires
            old(self).wf(),
        ensures
            final(self).wf(),
            final(self).nb_packet == if old(self).nb_packet < usize::MAX {
                old(self).nb_packet + 1
            } else {
                usize::MAX as int
            },
            final(self).nb_packet_byte == if old(self).nb_packet_byte + nb_packet_byte
                <= usize::MAX {
                old(self).nb_packet_byte + nb_packet_byte
            } else {
                usize::MAX as int
            },
            final(self).network_protocol@ == if old(self).network_protocol@.contains(
                network_protocol,
            ) {
                old(self).network_protocol@
            } else {
                old(self).network_protocol@.push(network_protocol)
            },
            final(self).protocol_set() == old(self).protocol_set().insert(network_protocol),
            final(self).first_seen_packet == old(self).first_seen_packet,
            final(self).last_seen_packet == old(self).last_seen_packet,
    {
        if self.nb_packet_byte <= usize::MAX - nb_packet_byte {
            self.nb_packet_byte = self.nb_packet_byte + nb_packet_byte;
        } else {
            self.nb_packet_byte = usize::MAX;
        }
        if self.nb_packet < usize::MAX {
            self.nb_packet = self.nb_packet + 1;
        }
        let mut present = false;
        let mut i: usize = 0;
        while i < self.network_protocol.len()
            invariant
                0 <= i <= self.network_protocol@.len(),
                present <==> (exists|k: int|
                    0 <= k < i && #[trigger] self.network_protocol@[k] == network_protocol),
            decreases self.network_protocol@.len() - i,
        {
            if self.network_protocol[i] == network_protocol {
                present = true;
            }
            i = i + 1;
        }
        proof {
            assert(present == self.network_protocol@.contains(network_protocol));
        }
        if !present {
            self.network_protocol.push(network_protocol);
        }
        proof {
            let s_old = old(self).network_protocol@;
            let s_new = self.network_protocol@;
            assert forall|p: u16| s_new.contains(p) implies s_old.contains(p) || p
                == network_protocol by {
                let k = choose|k: int| 0 <= k < s_new.len() && s_new[k] == p;
                if k < s_old.len() {
                    assert(s_old[k] == p);
                }
            }
            assert forall|p: u16| s_old.contains(p) implies s_new.contains(p) by {
                let k = choose|k: int| 0 <= k < s_old.len() && s_old[k] == p;
                assert(s_new[k] == p);
            }
            if !present {
                assert(s_new[s_old.len() as int] == network_protocol);
            }
            assert(s_new.to_set() =~= s_old.to_set().insert(network_protocol));
        }
    }

    /// Widen the first/last-seen bounds with a candidate pair of timestamps.
    ///
    /// The first-seen bound is replaced when it is still unset (zero) or when
    /// the candidate is strictly earlier; the last-seen bound is replaced
    /// when the candidate is strictly later. A candidate that does not extend
    /// a bound is advisory only and is ignored, never an error.
    pub fn update_timestamp(&mut self, first_seen_packet: Timestamp, last_seen_packet: Timestamp)
        requires
            old(self).wf(),
            first_seen_packet.wf(),
            last_seen_packet.wf(),
        ensures
            final(self).wf(),
            final(self).first_seen_packet == if old(self).first_seen_packet.spec_as_nanos() == 0
                || first_seen_packet.spec_lt(old(self).first_seen_packet) {
                first_seen_packet
            } else {
                old(self).first_seen_packet
            },
            final(self).last_seen_packet == if old(self).last_seen_packet.spec_lt(
                last_seen_packet,
            ) {
                last_seen_packet
            } else {
                old(self).last_seen_packet
            },
            final(self).nb_packet == old(self).nb_packet,
            final(self).nb_packet_byte == old(self).nb_packet_byte,
            final(self).network_protocol@ == old(self).network_protocol@,
    {
        let current_is_zero = self.first_seen_packet.secs == 0 && self.first_seen_packet.nanos
            == 0;
        if current_is_zero || first_seen_packet.lt(&self.first_seen_packet) {
            self.first_seen_packet = first_seen_packet;
        }
        if self.last_seen_packet.lt(&last_seen_packet) {
            self.last_seen_packet = last_seen_packet;
        }
    }
}

} // verus!
