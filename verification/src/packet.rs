use vstd::prelude::*;

use crate::flag::FlagSet;
use crate::time::Timestamp;

verus! {

/// One observed packet: an immutable value created once per packet by the
/// external decoder and never mutated.
///
/// The optional fields are explicitly "unknown", distinct from zero.
#[derive(Clone, Copy, Debug)]
pub struct Packet {
    /// Number of bytes (possibly of the reassembled segment alone).
    pub length: u64,
    /// TCP window size, when known.
    pub window: Option<u16>,
    /// Capture timestamp.
    pub timestamp: Timestamp,
    /// The set of TCP control flags of the packet.
    pub flag_list: FlagSet,
    /// Network-layer protocol identifier (e.g. IPv4, IPv6).
    pub network_protocol: u16,
    /// Network-layer header size in bytes, when known.
    pub network_header_length: Option<u64>,
    /// Network-layer payload size in bytes, when known.
    pub network_payload_length: Option<u64>,
    /// Position in the originating capture sequence, for traceability.
    pub position: u64,
}

impl Default for Packet {
    /// The all-zero packet with every optional field unknown and no flags.
    fn default() -> (r: Self)
        ensures
            r.length == 0,
            r.window is None,
            r.timestamp == (Timestamp { secs: 0u64, nanos: 0u32 }),
            r.flag_list == FlagSet::spec_empty(),
            r.network_protocol == 0,
            r.network_header_length is None,
            r.network_payload_length is None,
            r.position == 0,
    {
        Packet {
            length: 0,
            window: None,
            timestamp: Timestamp { secs: 0, nanos: 0 },
            flag_list: FlagSet {
                ack: false,
                cwr: false,
                ece: false,
                fin: false,
                ns: false,
                psh: false,
                rst: false,
                syn: false,
                urg: false,
            },
            network_protocol: 0,
            network_header_length: None,
            network_payload_length: None,
            position: 0,
        }
    }
}

impl Packet {
    /// Well-formedness: the timestamp keeps its nanosecond part within one
    /// second.
    pub open spec fn wf(self) -> bool {
        self.timestamp.wf()
    }

    /// The all-zero packet, as [`Packet::default`].
    pub fn new() -> (r: Self)
        ensures
            r.length == 0,
            r.window is None,
            r.timestamp == (Timestamp { secs: 0u64, nanos: 0u32 }),
            r.flag_list == FlagSet::spec_empty(),
            r.network_protocol == 0,
            r.network_header_length is None,
            r.network_payload_length is None,
            r.position == 0,
    {
        Packet::default()
    }
}

} // verus!
