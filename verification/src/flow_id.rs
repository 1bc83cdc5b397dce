use vstd::prelude::*;

use crate::error::FlowError;
use crate::ip::{spec_parse_ip, parse_ip, IpAddress, Ipv4Address};
use crate::text::str_chars;

verus! {

/// The canonical, direction-independent identity of a flow.
///
/// Two identifiers name the same flow exactly when their transport
/// protocols match and their endpoint pairs match either directly or with
/// source and destination exchanged; `==` on this type means exactly that.
/// The [`FlowId::hash`] value is likewise the same for both orientations of
/// a flow, so both land in the same bucket of any table keyed by it.
#[derive(Clone, Copy, Debug)]
pub struct FlowId {
    /// Source IP address.
    pub src: IpAddress,
    /// Source port; zero when not relevant for the protocol.
    pub src_port: u16,
    /// Destination IP address.
    pub dst: IpAddress,
    /// Destination port; zero when not relevant for the protocol.
    pub dst_port: u16,
    /// Transport-layer protocol (e.g. TCP, UDP, ICMP).
    pub transport_protocol: u8,
}

/// Whether two identifiers name the same flow: same transport protocol, and
/// the endpoints match directly or exchanged.
pub open spec fn spec_same_flow(a: FlowId, b: FlowId) -> bool {
    &&& a.transport_protocol == b.transport_protocol
    &&& {
        ||| (a.src == b.src && a.src_port == b.src_port && a.dst == b.dst && a.dst_port
            == b.dst_port)
        ||| (a.src == b.dst && a.src_port == b.dst_port && a.dst == b.src && a.dst_port
            == b.src_port)
    }
}

/// The identifier with source and destination exchanged: the other
/// orientation of the same flow.
pub open spec fn spec_swap(k: FlowId) -> FlowId {
    FlowId {
        src: k.dst,
        src_port: k.dst_port,
        dst: k.src,
        dst_port: k.src_port,
        transport_protocol: k.transport_protocol,
    }
}

/// The comparable fields of an address, as words: the family first, then
/// the address fields in order of significance.
pub open spec fn spec_ip_fields(ip: IpAddress) -> Seq<u64> {
    match ip {
        IpAddress::V4(a) => seq![0u64, a.o0 as u64, a.o1 as u64, a.o2 as u64, a.o3 as u64],
        IpAddress::V6(a) => seq![
            1u64,
            a.s0 as u64,
            a.s1 as u64,
            a.s2 as u64,
            a.s3 as u64,
            a.s4 as u64,
            a.s5 as u64,
            a.s6 as u64,
            a.s7 as u64,
        ],
    }
}

/// The comparable words of one endpoint: its address fields, then its port.
pub open spec fn spec_endpoint_words(ip: IpAddress, port: u16) -> Seq<u64> {
    spec_ip_fields(ip).push(port as u64)
}

/// Lexicographic order on word sequences; a prefix sorts before its
/// extensions.
pub open spec fn spec_lex_le(a: Seq<u64>, b: Seq<u64>) -> bool
    decreases a.len(),
{
    if a.len() == 0 {
        true
    } else if b.len() == 0 {
        false
    } else if a[0] < b[0] {
        true
    } else if a[0] > b[0] {
        false
    } else {
        spec_lex_le(a.drop_first(), b.drop_first())
    }
}

/// The lexicographic order is total.
proof fn lemma_lex_total(a: Seq<u64>, b: Seq<u64>)
    ensures
        spec_lex_le(a, b) || spec_lex_le(b, a),
    decreases a.len(),
{
    if a.len() > 0 && b.len() > 0 && a[0] == b[0] {
        lemma_lex_total(a.drop_first(), b.drop_first());
    }
}

/// Two sequences of one length each ordered no later than the other are
/// equal.
proof fn lemma_lex_antisymmetric(a: Seq<u64>, b: Seq<u64>)
    requires
        a.len() == b.len(),
        spec_lex_le(a, b),
        spec_lex_le(b, a),
    ensures
        a == b,
    decreases a.len(),
{
    if a.len() > 0 {
        lemma_lex_antisymmetric(a.drop_first(), b.drop_first());
        assert(a =~= seq![a[0]] + a.drop_first());
        assert(b =~= seq![b[0]] + b.drop_first());
    }
}

/// Whether the identifier already stands in its canonical orientation: the
/// source endpoint sorts no later than the destination endpoint.
pub open spec fn spec_forward(k: FlowId) -> bool {
    spec_lex_le(
        spec_endpoint_words(k.src, k.src_port),
        spec_endpoint_words(k.dst, k.dst_port),
    )
}

/// The words fed to the hash: the transport protocol first, then the two
/// endpoints in canonical orientation.
pub open spec fn spec_hash_words(k: FlowId) -> Seq<u64> {
    if spec_forward(k) {
        seq![k.transport_protocol as u64] + spec_endpoint_words(k.src, k.src_port)
            + spec_endpoint_words(k.dst, k.dst_port)
    } else {
        seq![k.transport_protocol as u64] + spec_endpoint_words(k.dst, k.dst_port)
            + spec_endpoint_words(k.src, k.src_port)
    }
}

/// One step of the hash: fold a word into the state, multiplying by the
/// FNV-1a prime modulo two to the 64th power.
pub open spec fn spec_mix(h: u64, v: u64) -> u64 {
    (((h ^ v) * 0x100000001b3) % 0x10000000000000000) as u64
}

/// The hash state after folding in every word, starting from `h`.
pub open spec fn spec_hash_fold(h: u64, ws: Seq<u64>) -> u64
    decreases ws.len(),
{
    if ws.len() == 0 {
        h
    } else {
        spec_hash_fold(spec_mix(h, ws[0]), ws.drop_first())
    }
}

/// The FNV-1a offset basis, the initial hash state.
pub const HASH_BASIS: u64 = 0xcbf29ce484222325;

/// The hash of a flow identifier, identical for both orientations of a
/// flow.
pub open spec fn spec_hash(k: FlowId) -> u64 {
    spec_hash_fold(HASH_BASIS, spec_hash_words(k))
}


/// The display text of an identifier: source, destination, the two ports
/// and the transport protocol, dash separated.
pub open spec fn spec_flow_id_text(k: FlowId) -> Seq<char> {
    crate::ip::spec_format_ip(k.src) + seq!['-'] + crate::ip::spec_format_ip(k.dst)
        + seq!['-'] + crate::ip::spec_dec(k.src_port as int) + seq!['-'] + crate::ip::spec_dec(
        k.dst_port as int,
    ) + seq!['-'] + crate::ip::spec_dec(k.transport_protocol as int)
}

impl PartialEq for FlowId {
    /// Two identifiers are equal when they name the same flow, in either
    /// orientation.
    fn eq(&self, other: &Self) -> (r: bool) {
        self.transport_protocol == other.transport_protocol && ((self.src == other.src
            && self.src_port == other.src_port && self.dst == other.dst && self.dst_port
            == other.dst_port) || (self.src == other.dst && self.src_port == other.dst_port
            && self.dst == other.src && self.dst_port == other.src_port))
    }
}

impl vstd::std_specs::cmp::PartialEqSpecImpl for FlowId {
    open spec fn obeys_eq_spec() -> bool {
        true
    }

    open spec fn eq_spec(&self, other: &FlowId) -> bool {
        spec_same_flow(*self, *other)
    }
}

impl Default for FlowId {
    /// The all-zero identifier, with the unspecified IPv4 address at both
    /// ends.
    fn default() -> (r: Self)
        ensures
            r.transport_protocol == 0,
            r.src == IpAddress::V4(Ipv4Address { o0: 0u8, o1: 0u8, o2: 0u8, o3: 0u8 }),
            r.dst == IpAddress::V4(Ipv4Address { o0: 0u8, o1: 0u8, o2: 0u8, o3: 0u8 }),
            r.src_port == 0,
            r.dst_port == 0,
    {
        FlowId {
            src: IpAddress::V4(Ipv4Address { o0: 0, o1: 0, o2: 0, o3: 0 }),
            src_port: 0,
            dst: IpAddress::V4(Ipv4Address { o0: 0, o1: 0, o2: 0, o3: 0 }),
            dst_port: 0,
            transport_protocol: 0,
        }
    }
}

impl FlowId {
    /// Build a flow identifier from address texts.
    ///
    /// Fails with [`FlowError::InvalidAddress`] exactly when one of the two
    /// texts is valid as neither an IPv4 nor an IPv6 address.
    pub fn new(transport_protocol: u8, src: &str, dst: &str, src_port: u16, dst_port: u16) -> (r:
        Result<FlowId, FlowError>)
        ensures
            match r {
                Ok(k) => {
                    &&& spec_parse_ip(src@) == Some(k.src)
                    &&& spec_parse_ip(dst@) == Some(k.dst)
                    &&& k.src_port == src_port
                    &&& k.dst_port == dst_port
                    &&& k.transport_protocol == transport_protocol
                },
                Err(e) => e == FlowError::InvalidAddress && (spec_parse_ip(src@) is None
                    || spec_parse_ip(dst@) is None),
            },
    {
        let src_chars = str_chars(src);
        let dst_chars = str_chars(dst);
        let src_ip = match parse_ip(&src_chars) {
            Some(ip) => ip,
            None => {
                return Err(FlowError::InvalidAddress);
            },
        };
        let dst_ip = match parse_ip(&dst_chars) {
            Some(ip) => ip,
            None => {
                return Err(FlowError::InvalidAddress);
            },
        };
        Ok(
            FlowId {
                src: src_ip,
                src_port,
                dst: dst_ip,
                dst_port,
                transport_protocol,
            },
        )
    }


    /// The display text of the identifier, for reporting.
    pub fn to_text(&self) -> (r: String)
        ensures
            r@ == spec_flow_id_text(*self),
    {
        let mut out: Vec<char> = Vec::new();
        crate::ip::push_ip(&mut out, &self.src);
        out.push('-');
        crate::ip::push_ip(&mut out, &self.dst);
        out.push('-');
        crate::ip::push_dec(&mut out, self.src_port as u64);
        out.push('-');
        crate::ip::push_dec(&mut out, self.dst_port as u64);
        out.push('-');
        crate::ip::push_dec(&mut out, self.transport_protocol as u64);
        proof {
            assert(out@ =~= spec_flow_id_text(*self));
        }
        crate::text::chars_string(&out)
    }

    /// The comparable words of one endpoint.
    fn endpoint_words(ip: &IpAddress, port: u16) -> (r: Vec<u64>)
        ensures
            r@ == spec_endpoint_words(*ip, port),
    {
        let mut r: Vec<u64> = Vec::new();
        match ip {
            IpAddress::V4(a) => {
                r.push(0);
                r.push(a.o0 as u64);
                r.push(a.o1 as u64);
                r.push(a.o2 as u64);
                r.push(a.o3 as u64);
            },
            IpAddress::V6(a) => {
                r.push(1);
                r.push(a.s0 as u64);
                r.push(a.s1 as u64);
                r.push(a.s2 as u64);
                r.push(a.s3 as u64);
                r.push(a.s4 as u64);
                r.push(a.s5 as u64);
                r.push(a.s6 as u64);
                r.push(a.s7 as u64);
            },
        }
        r.push(port as u64);
        proof {
            assert(r@ =~= spec_endpoint_words(*ip, port));
        }
        r
    }

    /// Lexicographic comparison of word sequences.
    fn words_le(a: &Vec<u64>, b: &Vec<u64>) -> (r: bool)
        ensures
            r == spec_lex_le(a@, b@),
    {
        let mut i: usize = 0;
        proof {
            assert(a@.skip(0) =~= a@);
            assert(b@.skip(0) =~= b@);
        }
        loop
            invariant
                0 <= i <= a@.len(),
                i <= b@.len(),
                spec_lex_le(a@, b@) == spec_lex_le(a@.skip(i as int), b@.skip(i as int)),
            decreases a@.len() - i,
        {
            if i == a.len() {
                return true;
            }
            if i == b.len() {
                return false;
            }
            if a[i] < b[i] {
                return true;
            }
            if a[i] > b[i] {
                return false;
            }
            proof {
                assert(a@.skip(i as int).drop_first() =~= a@.skip(i as int + 1));
                assert(b@.skip(i as int).drop_first() =~= b@.skip(i as int + 1));
            }
            i = i + 1;
        }
    }

    /// One step of the hash fold.
    fn mix(h: u64, v: u64) -> (r: u64)
        ensures
            r == spec_mix(h, v),
    {
        let x = (h ^ v) as u128;
        let m = (x * 0x100000001b3u128) % 0x10000000000000000u128;
        m as u64
    }

    /// The hash of the identifier.
    ///
    /// The words hashed are the transport protocol, then the two endpoints
    /// in canonical orientation, picked by comparing the endpoints
    /// themselves, so that both orientations of one flow hash alike (see
    /// [`lemma_same_flow_same_hash`]).
    pub fn hash(&self) -> (r: u64)
        ensures
            r == spec_hash(*self),
    {
        let src_words = Self::endpoint_words(&self.src, self.src_port);
        let dst_words = Self::endpoint_words(&self.dst, self.dst_port);
        let forward = Self::words_le(&src_words, &dst_words);
        let mut words: Vec<u64> = Vec::new();
        words.push(self.transport_protocol as u64);
        let (first, second) = if forward {
            (&src_words, &dst_words)
        } else {
            (&dst_words, &src_words)
        };
        let mut i: usize = 0;
        while i < first.len()
            invariant
                0 <= i <= first@.len(),
                words@ == seq![self.transport_protocol as u64] + first@.subrange(0, i as int),
            decreases first@.len() - i,
        {
            words.push(first[i]);
            proof {
                assert(first@.subrange(0, i + 1) =~= first@.subrange(0, i as int).push(
                    first@[i as int],
                ));
                assert(words@ =~= seq![self.transport_protocol as u64] + first@.subrange(
                    0,
                    i + 1,
                ));
            }
            i = i + 1;
        }
        let mut j: usize = 0;
        let ghost mid = words@;
        while j < second.len()
            invariant
                0 <= j <= second@.len(),
                words@ == mid + second@.subrange(0, j as int),
            decreases second@.len() - j,
        {
            words.push(second[j]);
            proof {
                assert(mid + second@.subrange(0, j + 1) =~= (mid + second@.subrange(
                    0,
                    j as int,
                )).push(second@[j as int]));
            }
            j = j + 1;
        }
        proof {
            assert(first@.subrange(0, first@.len() as int) =~= first@);
            assert(second@.subrange(0, second@.len() as int) =~= second@);
            assert(words@ =~= spec_hash_words(*self));
        }
        let mut h: u64 = HASH_BASIS;
        let mut p: usize = 0;
        proof {
            assert(words@.skip(0) =~= words@);
        }
        while p < words.len()
            invariant
                0 <= p <= words@.len(),
                spec_hash_fold(HASH_BASIS, words@) == spec_hash_fold(h, words@.skip(p as int)),
            decreases words@.len() - p,
        {
            proof {
                assert(words@.skip(p as int).drop_first() =~= words@.skip(p as int + 1));
            }
            h = Self::mix(h, words[p]);
            p = p + 1;
        }
        h
    }
}

/// Law: the two orientations of a flow are the same flow, and hash alike.
///
/// For any identifier, the identifier with source and destination
/// exchanged is equal to it under flow equality, and has the same hash.
pub proof fn lemma_same_flow_same_hash(k: FlowId)
    ensures
        spec_same_flow(k, spec_swap(k)),
        spec_hash(spec_swap(k)) == spec_hash(k),
{
    let s = spec_endpoint_words(k.src, k.src_port);
    let d = spec_endpoint_words(k.dst, k.dst_port);
    let w = spec_swap(k);
    lemma_lex_total(s, d);
    if spec_lex_le(s, d) && spec_lex_le(d, s) {
        assert(s.len() == d.len());
        lemma_lex_antisymmetric(s, d);
        assert(spec_hash_words(w) == spec_hash_words(k));
    } else if spec_lex_le(s, d) {
        assert(!spec_forward(w));
        assert(spec_hash_words(w) == spec_hash_words(k));
    } else {
        assert(spec_forward(w));
        assert(spec_hash_words(w) == spec_hash_words(k));
    }
}

/// Law: identifiers that differ in transport protocol are never the same
/// flow, however their addresses and ports relate.
pub proof fn lemma_protocol_distinguishes(a: FlowId, b: FlowId)
    requires
        a.transport_protocol != b.transport_protocol,
    ensures
        !spec_same_flow(a, b),
{
}

/// Flow equality is symmetric.
pub proof fn lemma_same_flow_symmetric(a: FlowId, b: FlowId)
    ensures
        spec_same_flow(a, b) == spec_same_flow(b, a),
{
}

/// Flow equality is transitive.
pub proof fn lemma_same_flow_transitive(a: FlowId, b: FlowId, c: FlowId)
    requires
        spec_same_flow(a, b),
        spec_same_flow(b, c),
    ensures
        spec_same_flow(a, c),
{
}

} // verus!
