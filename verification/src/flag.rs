use vstd::prelude::*;

verus! {

/// TCP control flags.
///
/// NS: ECN-nonce concealment protection (experimental, RFC 3540).
/// CWR: set by the sender to say that it received a segment with ECE set and
/// responded with its congestion control mechanism (RFC 3168).
/// ECE: with SYN set, the peer is ECN capable; with SYN clear, a packet with
/// the Congestion Experienced mark was received (RFC 3168).
/// URG: the Urgent pointer field is significant.
/// ACK: the Acknowledgment field is significant.
/// PSH: push the buffered data to the receiving application.
/// RST: reset the connection.
/// SYN: synchronize sequence numbers.
/// FIN: no more data from the sender.
///
/// The variants are declared in the canonical ascending name order, which is
/// also the order in which a flag set is enumerated and persisted.
#[derive(Clone, Copy, Debug, PartialEq, Eq, Structural)]
pub enum Flag {
    ACK,
    CWR,
    ECE,
    FIN,
    NS,
    PSH,
    RST,
    SYN,
    URG,
}

impl Flag {
    /// The canonical name of the flag, as it appears in the persisted form.
    pub fn name(&self) -> (r: &'static str)
        ensures
            r@ == Self::spec_name(*self),
    {
        proof {
            reveal_strlit("ACK");
            reveal_strlit("CWR");
            reveal_strlit("ECE");
            reveal_strlit("FIN");
            reveal_strlit("NS");
            reveal_strlit("PSH");
            reveal_strlit("RST");
            reveal_strlit("SYN");
            reveal_strlit("URG");
        }
        match self {
            Flag::ACK => "ACK",
            Flag::CWR => "CWR",
            Flag::ECE => "ECE",
            Flag::FIN => "FIN",
            Flag::NS => "NS",
            Flag::PSH => "PSH",
            Flag::RST => "RST",
            Flag::SYN => "SYN",
            Flag::URG => "URG",
        }
    }

    /// The canonical name of the flag as a character sequence.
    pub open spec fn spec_name(f: Flag) -> Seq<char> {
        match f {
            Flag::ACK => seq!['A', 'C', 'K'],
            Flag::CWR => seq!['C', 'W', 'R'],
            Flag::ECE => seq!['E', 'C', 'E'],
            Flag::FIN => seq!['F', 'I', 'N'],
            Flag::NS => seq!['N', 'S'],
            Flag::PSH => seq!['P', 'S', 'H'],
            Flag::RST => seq!['R', 'S', 'T'],
            Flag::SYN => seq!['S', 'Y', 'N'],
            Flag::URG => seq!['U', 'R', 'G'],
        }
    }
}

/// A set of TCP control flags.
///
/// The set is closed over the nine [`Flag`] variants; insertion order is
/// irrelevant and the canonical iteration order is the flag enumeration
/// order.
#[derive(Clone, Copy, Debug, PartialEq, Eq, Structural, Default)]
pub struct FlagSet {
    pub ack: bool,
    pub cwr: bool,
    pub ece: bool,
    pub fin: bool,
    pub ns: bool,
    pub psh: bool,
    pub rst: bool,
    pub syn: bool,
    pub urg: bool,
}

impl FlagSet {
    /// Whether the set holds the given flag.
    pub open spec fn spec_contains(self, f: Flag) -> bool {
        match f {
            Flag::ACK => self.ack,
            Flag::CWR => self.cwr,
            Flag::ECE => self.ece,
            Flag::FIN => self.fin,
            Flag::NS => self.ns,
            Flag::PSH => self.psh,
            Flag::RST => self.rst,
            Flag::SYN => self.syn,
            Flag::URG => self.urg,
        }
    }

    /// The value of the set as a mathematical set of flags.
    pub open spec fn view(self) -> Set<Flag> {
        Set::new(|f: Flag| self.spec_contains(f))
    }

    /// The set with the given flag present, as a mathematical value.
    pub open spec fn spec_insert(self, f: Flag) -> FlagSet {
        match f {
            Flag::ACK => FlagSet { ack: true, ..self },
            Flag::CWR => FlagSet { cwr: true, ..self },
            Flag::ECE => FlagSet { ece: true, ..self },
            Flag::FIN => FlagSet { fin: true, ..self },
            Flag::NS => FlagSet { ns: true, ..self },
            Flag::PSH => FlagSet { psh: true, ..self },
            Flag::RST => FlagSet { rst: true, ..self },
            Flag::SYN => FlagSet { syn: true, ..self },
            Flag::URG => FlagSet { urg: true, ..self },
        }
    }

    /// The empty flag set, as a mathematical value.
    pub open spec fn spec_empty() -> FlagSet {
        FlagSet {
            ack: false,
            cwr: false,
            ece: false,
            fin: false,
            ns: false,
            psh: false,
            rst: false,
            syn: false,
            urg: false,
        }
    }

    /// The empty flag set.
    pub fn empty() -> (r: FlagSet)
        ensures
            r == FlagSet::spec_empty(),
            forall|f: Flag| !r.spec_contains(f),
    {
        FlagSet {
            ack: false,
            cwr: false,
            ece: false,
            fin: false,
            ns: false,
            psh: false,
            rst: false,
            syn: false,
            urg: false,
        }
    }

    /// Whether the set holds the given flag.
    pub fn contains(&self, f: Flag) -> (r: bool)
        ensures
            r == self.spec_contains(f),
    {
        match f {
            Flag::ACK => self.ack,
            Flag::CWR => self.cwr,
            Flag::ECE => self.ece,
            Flag::FIN => self.fin,
            Flag::NS => self.ns,
            Flag::PSH => self.psh,
            Flag::RST => self.rst,
            Flag::SYN => self.syn,
            Flag::URG => self.urg,
        }
    }

    /// Add the given flag to the set; adding a flag twice changes nothing.
    pub fn insert(&mut self, f: Flag)
        ensures
            *final(self) == old(self).spec_insert(f),
    {
        match f {
            Flag::ACK => self.ack = true,
            Flag::CWR => self.cwr = true,
            Flag::ECE => self.ece = true,
            Flag::FIN => self.fin = true,
            Flag::NS => self.ns = true,
            Flag::PSH => self.psh = true,
            Flag::RST => self.rst = true,
            Flag::SYN => self.syn = true,
            Flag::URG => self.urg = true,
        }
    }

    /// The flags of the set, in the canonical enumeration order: each
    /// present flag is appended in turn.
    pub open spec fn spec_to_seq(self) -> Seq<Flag> {
        let s = Seq::<Flag>::empty();
        let s = if self.ack { s.push(Flag::ACK) } else { s };
        let s = if self.cwr { s.push(Flag::CWR) } else { s };
        let s = if self.ece { s.push(Flag::ECE) } else { s };
        let s = if self.fin { s.push(Flag::FIN) } else { s };
        let s = if self.ns { s.push(Flag::NS) } else { s };
        let s = if self.psh { s.push(Flag::PSH) } else { s };
        let s = if self.rst { s.push(Flag::RST) } else { s };
        let s = if self.syn { s.push(Flag::SYN) } else { s };
        if self.urg { s.push(Flag::URG) } else { s }
    }

    /// The flags of the set, in the canonical enumeration order.
    pub fn to_seq(&self) -> (r: Vec<Flag>)
        ensures
            r@ == self.spec_to_seq(),
    {
        let mut r: Vec<Flag> = Vec::new();
        if self.ack {
            r.push(Flag::ACK);
        }
        if self.cwr {
            r.push(Flag::CWR);
        }
        if self.ece {
            r.push(Flag::ECE);
        }
        if self.fin {
            r.push(Flag::FIN);
        }
        if self.ns {
            r.push(Flag::NS);
        }
        if self.psh {
            r.push(Flag::PSH);
        }
        if self.rst {
            r.push(Flag::RST);
        }
        if self.syn {
            r.push(Flag::SYN);
        }
        if self.urg {
            r.push(Flag::URG);
        }
        r
    }
}

} // verus!
