use vstd::prelude::*;

use crate::packet::Packet;

verus! {

/// The abstract value of a [`FlowInformation`]: the optional hint as a
/// character sequence and the two packet lists as sequences.
pub struct FlowInformationView {
    /// Application-layer hint, when present.
    pub sni: Option<Seq<char>>,
    /// Packets observed in the backward direction, in arrival order.
    pub backward_packet_list: Seq<Packet>,
    /// Packets observed in the forward direction, in arrival order.
    pub forward_packet_list: Seq<Packet>,
}

/// The persisted record of one flow: the optional application-layer hint
/// (an observed server name) and the per-direction packet lists.
///
/// This is what [`crate::generator::Generator`] maps each flow identifier
/// to and what the persisted representation carries.
#[derive(Debug)]
pub struct FlowInformation {
    /// Application-layer hint (an observed server name), when one was seen.
    pub sni: Option<String>,
    /// Packets observed in the backward direction, in arrival order.
    pub backward_packet_list: Vec<Packet>,
    /// Packets observed in the forward direction, in arrival order.
    pub forward_packet_list: Vec<Packet>,
}

impl View for FlowInformation {
    type V = FlowInformationView;

    open spec fn view(&self) -> FlowInformationView {
        FlowInformationView {
            sni: match self.sni {
                Some(ref s) => Some(s@),
                None => None,
            },
            backward_packet_list: self.backward_packet_list@,
            forward_packet_list: self.forward_packet_list@,
        }
    }
}

impl FlowInformation {
    /// A record with no hint and empty packet lists.
    pub fn new() -> (r: FlowInformation)
        ensures
            r@.sni is None,
            r@.backward_packet_list == Seq::<Packet>::empty(),
            r@.forward_packet_list == Seq::<Packet>::empty(),
    {
        FlowInformation {
            sni: None,
            backward_packet_list: Vec::new(),
            forward_packet_list: Vec::new(),
        }
    }
}

} // verus!
