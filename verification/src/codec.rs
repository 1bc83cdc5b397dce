use vstd::prelude::*;

use crate::flag::{Flag, FlagSet};
use crate::flow_id::FlowId;
use crate::flow_information::FlowInformationView;
use crate::ip::{spec_format_ip, spec_parse_ip};
use crate::json::{Json, JsonV};
use crate::packet::Packet;
use crate::time::Timestamp;

verus! {

/// The persisted form of a timestamp: an object with the seconds and the
/// nanoseconds, in that order.
pub open spec fn spec_enc_timestamp(t: Timestamp) -> JsonV {
    JsonV::Obj(
        seq![("secs"@, JsonV::Num(t.secs)), ("nanos"@, JsonV::Num(t.nanos as u64))],
    )
}

/// The persisted form of a flag set: the flag names in canonical ascending
/// order.
pub open spec fn spec_enc_flags(fs: FlagSet) -> JsonV {
    JsonV::Arr(fs.spec_to_seq().map_values(|f: Flag| JsonV::Str(Flag::spec_name(f))))
}

/// The persisted form of a packet: its fields in the canonical save
/// order, the optional fields present exactly when known.
pub open spec fn spec_enc_packet(p: Packet) -> JsonV {
    JsonV::Obj(
        seq![("length"@, JsonV::Num(p.length))] + (match p.window {
            Some(w) => seq![("window"@, JsonV::Num(w as u64))],
            None => Seq::empty(),
        }) + seq![
            ("timestamp"@, spec_enc_timestamp(p.timestamp)),
            ("flag_list"@, spec_enc_flags(p.flag_list)),
            ("network_protocol"@, JsonV::Num(p.network_protocol as u64)),
        ] + (match p.network_header_length {
            Some(n) => seq![("network_header_length"@, JsonV::Num(n))],
            None => Seq::empty(),
        }) + (match p.network_payload_length {
            Some(n) => seq![("network_payload_length"@, JsonV::Num(n))],
            None => Seq::empty(),
        }) + seq![("position"@, JsonV::Num(p.position))],
    )
}

/// The persisted form of a flow identifier: source and destination as
/// canonical address texts, with the ports and the transport protocol.
pub open spec fn spec_enc_flow_id(k: FlowId) -> JsonV {
    JsonV::Obj(
        seq![
            ("src"@, JsonV::Str(spec_format_ip(k.src))),
            ("src_port"@, JsonV::Num(k.src_port as u64)),
            ("dst"@, JsonV::Str(spec_format_ip(k.dst))),
            ("dst_port"@, JsonV::Num(k.dst_port as u64)),
            ("transport_protocol"@, JsonV::Num(k.transport_protocol as u64)),
        ],
    )
}

/// The persisted forms of the packets of one direction.
pub open spec fn spec_enc_packets(ps: Seq<Packet>) -> Seq<JsonV> {
    ps.map_values(|p: Packet| spec_enc_packet(p))
}

/// The persisted form of one flow's record: the hint when present, then
/// the backward and forward packet lists.
pub open spec fn spec_enc_info(v: FlowInformationView) -> JsonV {
    JsonV::Obj(
        (match v.sni {
            Some(sv) => seq![("sni"@, JsonV::Str(sv))],
            None => Seq::empty(),
        }) + seq![
            ("backward_packet_list"@, JsonV::Arr(spec_enc_packets(v.backward_packet_list))),
            ("forward_packet_list"@, JsonV::Arr(spec_enc_packets(v.forward_packet_list))),
        ],
    )
}

/// The persisted form of the whole table: one object with a `flow_map`
/// member holding the key/record pairs as two-element arrays.
pub open spec fn spec_enc_generator(pairs: Seq<(FlowId, FlowInformationView)>) -> JsonV {
    JsonV::Obj(
        seq![
            ("flow_map"@, JsonV::Arr(
                pairs.map_values(
                    |p: (FlowId, FlowInformationView)|
                        JsonV::Arr(seq![spec_enc_flow_id(p.0), spec_enc_info(p.1)]),
                ),
            )),
        ],
    )
}

/// The value of the first member with the given key, from position `i`
/// on.
pub open spec fn spec_lookup_from(ms: Seq<(Seq<char>, JsonV)>, key: Seq<char>, i: int)
    -> Option<JsonV>
    decreases ms.len() - i,
    when 0 <= i
{
    if i >= ms.len() {
        None
    } else if ms[i].0 == key {
        Some(ms[i].1)
    } else {
        spec_lookup_from(ms, key, i + 1)
    }
}

/// The value of the member with the given key, if any is present.
pub open spec fn spec_member_lookup(ms: Seq<(Seq<char>, JsonV)>, key: Seq<char>) -> Option<
    JsonV,
> {
    spec_lookup_from(ms, key, 0)
}

/// Whether no two members share a key; a duplicate field is a structural
/// mismatch.
pub open spec fn spec_keys_unique(ms: Seq<(Seq<char>, JsonV)>) -> bool {
    forall|i: int, j: int|
        0 <= i < j < ms.len() ==> (#[trigger] ms[i]).0 != (#[trigger] ms[j]).0
}

/// A required numeric member: its value, when it is present as a number.
pub open spec fn spec_req_num(ms: Seq<(Seq<char>, JsonV)>, key: Seq<char>) -> Option<u64> {
    match spec_member_lookup(ms, key) {
        Some(JsonV::Num(n)) => Some(n),
        _ => None,
    }
}

/// An optional numeric member: absent, present as a number, or a mismatch.
pub open spec fn spec_opt_num(ms: Seq<(Seq<char>, JsonV)>, key: Seq<char>) -> Option<
    Option<u64>,
> {
    match spec_member_lookup(ms, key) {
        None => Some(None),
        Some(JsonV::Num(n)) => Some(Some(n)),
        Some(_) => None,
    }
}

/// An optional string member: absent, present as a string, or a mismatch.
pub open spec fn spec_opt_str(ms: Seq<(Seq<char>, JsonV)>, key: Seq<char>) -> Option<
    Option<Seq<char>>,
> {
    match spec_member_lookup(ms, key) {
        None => Some(None),
        Some(JsonV::Str(sv)) => Some(Some(sv)),
        Some(_) => None,
    }
}

/// The flag named by the given text, if any.
pub open spec fn spec_flag_of_name(n: Seq<char>) -> Option<Flag> {
    if n == Flag::spec_name(Flag::ACK) {
        Some(Flag::ACK)
    } else if n == Flag::spec_name(Flag::CWR) {
        Some(Flag::CWR)
    } else if n == Flag::spec_name(Flag::ECE) {
        Some(Flag::ECE)
    } else if n == Flag::spec_name(Flag::FIN) {
        Some(Flag::FIN)
    } else if n == Flag::spec_name(Flag::NS) {
        Some(Flag::NS)
    } else if n == Flag::spec_name(Flag::PSH) {
        Some(Flag::PSH)
    } else if n == Flag::spec_name(Flag::RST) {
        Some(Flag::RST)
    } else if n == Flag::spec_name(Flag::SYN) {
        Some(Flag::SYN)
    } else if n == Flag::spec_name(Flag::URG) {
        Some(Flag::URG)
    } else {
        None
    }
}

/// The flag set denoted by an array of flag names from position `idx` on,
/// inserted into `acc`; any other element is a mismatch.
pub open spec fn spec_dec_flags_rec(es: Seq<JsonV>, idx: int, acc: FlagSet) -> Option<FlagSet>
    decreases es.len() - idx,
    when 0 <= idx
{
    if idx >= es.len() {
        Some(acc)
    } else {
        match es[idx] {
            JsonV::Str(nm) => match spec_flag_of_name(nm) {
                Some(f) => spec_dec_flags_rec(es, idx + 1, acc.spec_insert(f)),
                None => None,
            },
            _ => None,
        }
    }
}

/// The flag set denoted by the persisted flag list.
pub open spec fn spec_dec_flags(j: JsonV) -> Option<FlagSet> {
    match j {
        JsonV::Arr(es) => spec_dec_flags_rec(es, 0, FlagSet::spec_empty()),
        _ => None,
    }
}

/// Whether `k` is a field name of the persisted timestamp object.
pub open spec fn spec_ts_key(k: Seq<char>) -> bool {
    k == "secs"@ || k == "nanos"@
}

/// Whether every member key belongs to the timestamp schema.
pub open spec fn spec_ts_keys_allowed(ms: Seq<(Seq<char>, JsonV)>) -> bool {
    forall|i: int| 0 <= i < ms.len() ==> spec_ts_key((#[trigger] ms[i]).0)
}

/// The timestamp denoted by the persisted timestamp object: a `secs` and a
/// `nanos` member, in any order, with no unknown, missing or duplicate
/// field. A nanosecond count of a second or more is normalized into the
/// seconds, failing only when the seconds overflow.
pub open spec fn spec_dec_timestamp(j: JsonV) -> Option<Timestamp> {
    match j {
        JsonV::Obj(ms) => {
            if spec_keys_unique(ms) && spec_ts_keys_allowed(ms) {
                match (spec_req_num(ms, "secs"@), spec_req_num(ms, "nanos"@)) {
                    (Some(secs), Some(nanos)) => {
                        let extra = nanos / 1000000000;
                        if secs + extra <= u64::MAX {
                            Some(
                                Timestamp {
                                    secs: (secs + extra) as u64,
                                    nanos: (nanos % 1000000000) as u32,
                                },
                            )
                        } else {
                            None
                        }
                    },
                    _ => None,
                }
            } else {
                None
            }
        },
        _ => None,
    }
}

/// Whether `k` is a field name of the persisted packet object.
pub open spec fn spec_packet_key(k: Seq<char>) -> bool {
    ||| k == "length"@
    ||| k == "window"@
    ||| k == "timestamp"@
    ||| k == "flag_list"@
    ||| k == "network_protocol"@
    ||| k == "network_header_length"@
    ||| k == "network_payload_length"@
    ||| k == "position"@
}

/// Whether every member key belongs to the packet schema.
pub open spec fn spec_packet_keys_allowed(ms: Seq<(Seq<char>, JsonV)>) -> bool {
    forall|i: int| 0 <= i < ms.len() ==> spec_packet_key((#[trigger] ms[i]).0)
}

/// The packet denoted by a persisted packet object: fields in any order,
/// each optional field either present once or absent, and no unknown,
/// missing or duplicate field.
pub open spec fn spec_dec_packet(j: JsonV) -> Option<Packet> {
    match j {
        JsonV::Obj(ms) => {
            if spec_keys_unique(ms) && spec_packet_keys_allowed(ms) {
                match (spec_req_num(ms, "length"@), spec_opt_num(ms, "window"@),
                spec_member_lookup(ms, "timestamp"@), spec_member_lookup(ms, "flag_list"@),
                spec_req_num(ms, "network_protocol"@), spec_opt_num(
                    ms,
                    "network_header_length"@,
                ), spec_opt_num(ms, "network_payload_length"@), spec_req_num(
                    ms,
                    "position"@,
                )) {
                    (
                        Some(length),
                        Some(window),
                        Some(tsj),
                        Some(flj),
                        Some(proto),
                        Some(hdr),
                        Some(pay),
                        Some(position),
                    ) => {
                        match (spec_dec_timestamp(tsj), spec_dec_flags(flj)) {
                            (Some(ts), Some(flags)) => {
                                if proto <= 0xFFFF && (match window {
                                    Some(w) => w <= 0xFFFF,
                                    None => true,
                                }) {
                                    Some(
                                        Packet {
                                            length,
                                            window: match window {
                                                Some(w) => Some(w as u16),
                                                None => None,
                                            },
                                            timestamp: ts,
                                            flag_list: flags,
                                            network_protocol: proto as u16,
                                            network_header_length: hdr,
                                            network_payload_length: pay,
                                            position,
                                        },
                                    )
                                } else {
                                    None
                                }
                            },
                            _ => None,
                        }
                    },
                    _ => None,
                }
            } else {
                None
            }
        },
        _ => None,
    }
}

/// The packets denoted by a persisted packet list from position `idx` on.
pub open spec fn spec_dec_packets_rec(es: Seq<JsonV>, idx: int) -> Option<Seq<Packet>>
    decreases es.len() - idx,
    when 0 <= idx
{
    if idx >= es.len() {
        Some(Seq::empty())
    } else {
        match spec_dec_packet(es[idx]) {
            Some(p) => match spec_dec_packets_rec(es, idx + 1) {
                Some(ps) => Some(seq![p] + ps),
                None => None,
            },
            None => None,
        }
    }
}

/// Whether `k` is a field name of the persisted flow identifier object.
pub open spec fn spec_flow_id_key(k: Seq<char>) -> bool {
    ||| k == "src"@
    ||| k == "src_port"@
    ||| k == "dst"@
    ||| k == "dst_port"@
    ||| k == "transport_protocol"@
}

/// Whether every member key belongs to the flow identifier schema.
pub open spec fn spec_flow_id_keys_allowed(ms: Seq<(Seq<char>, JsonV)>) -> bool {
    forall|i: int| 0 <= i < ms.len() ==> spec_flow_id_key((#[trigger] ms[i]).0)
}

/// The flow identifier denoted by a persisted key object: the five fields
/// in any order, the addresses as parseable texts, and no unknown, missing
/// or duplicate field.
pub open spec fn spec_dec_flow_id(j: JsonV) -> Option<FlowId> {
    match j {
        JsonV::Obj(ms) => {
            if spec_keys_unique(ms) && spec_flow_id_keys_allowed(ms) {
                match (spec_member_lookup(ms, "src"@), spec_member_lookup(ms, "dst"@),
                spec_req_num(ms, "src_port"@), spec_req_num(ms, "dst_port"@), spec_req_num(
                    ms,
                    "transport_protocol"@,
                )) {
                    (Some(JsonV::Str(srct)), Some(JsonV::Str(dstt)), Some(sp), Some(dp), Some(
                        proto,
                    )) => {
                        match (spec_parse_ip(srct), spec_parse_ip(dstt)) {
                            (Some(src), Some(dst)) => {
                                if sp <= 0xFFFF && dp <= 0xFFFF && proto <= 0xFF {
                                    Some(
                                        FlowId {
                                            src,
                                            src_port: sp as u16,
                                            dst,
                                            dst_port: dp as u16,
                                            transport_protocol: proto as u8,
                                        },
                                    )
                                } else {
                                    None
                                }
                            },
                            _ => None,
                        }
                    },
                    _ => None,
                }
            } else {
                None
            }
        },
        _ => None,
    }
}

/// Whether `k` is a field name of the persisted record object.
pub open spec fn spec_info_key(k: Seq<char>) -> bool {
    k == "sni"@ || k == "backward_packet_list"@ || k == "forward_packet_list"@
}

/// Whether every member key belongs to the record schema.
pub open spec fn spec_info_keys_allowed(ms: Seq<(Seq<char>, JsonV)>) -> bool {
    forall|i: int| 0 <= i < ms.len() ==> spec_info_key((#[trigger] ms[i]).0)
}

/// The record denoted by a persisted record object: an optional hint and
/// the two packet lists, in any order, with no unknown, missing or
/// duplicate field.
pub open spec fn spec_dec_info(j: JsonV) -> Option<FlowInformationView> {
    match j {
        JsonV::Obj(ms) => {
            if spec_keys_unique(ms) && spec_info_keys_allowed(ms) {
                match (spec_opt_str(ms, "sni"@), spec_member_lookup(
                    ms,
                    "backward_packet_list"@,
                ), spec_member_lookup(ms, "forward_packet_list"@)) {
                    (Some(sni), Some(JsonV::Arr(bes)), Some(JsonV::Arr(fes))) => {
                        match (spec_dec_packets_rec(bes, 0), spec_dec_packets_rec(fes, 0)) {
                            (Some(bps), Some(fps)) => Some(
                                FlowInformationView {
                                    sni,
                                    backward_packet_list: bps,
                                    forward_packet_list: fps,
                                },
                            ),
                            _ => None,
                        }
                    },
                    _ => None,
                }
            } else {
                None
            }
        },
        _ => None,
    }
}

/// The key/record pairs denoted by the persisted pair list from position
/// `idx` on; each element must be a two-element array of a key and a
/// record.
pub open spec fn spec_dec_pairs_rec(es: Seq<JsonV>, idx: int) -> Option<
    Seq<(FlowId, FlowInformationView)>,
>
    decreases es.len() - idx,
    when 0 <= idx
{
    if idx >= es.len() {
        Some(Seq::empty())
    } else {
        match es[idx] {
            JsonV::Arr(kv) => {
                if kv.len() == 2 {
                    match (spec_dec_flow_id(kv[0]), spec_dec_info(kv[1])) {
                        (Some(k), Some(v)) => match spec_dec_pairs_rec(es, idx + 1) {
                            Some(ps) => Some(seq![(k, v)] + ps),
                            None => None,
                        },
                        _ => None,
                    }
                } else {
                    None
                }
            },
            _ => None,
        }
    }
}

/// Whether `k` is the field name of the persisted document object.
pub open spec fn spec_doc_key(k: Seq<char>) -> bool {
    k == "flow_map"@
}

/// Whether every member key belongs to the document schema.
pub open spec fn spec_doc_keys_allowed(ms: Seq<(Seq<char>, JsonV)>) -> bool {
    forall|i: int| 0 <= i < ms.len() ==> spec_doc_key((#[trigger] ms[i]).0)
}

/// The table contents denoted by a persisted document: one object with a
/// single `flow_map` member holding the pair list.
pub open spec fn spec_dec_generator(j: JsonV) -> Option<Seq<(FlowId, FlowInformationView)>> {
    match j {
        JsonV::Obj(ms) => {
            if spec_keys_unique(ms) && spec_doc_keys_allowed(ms) {
                match spec_member_lookup(ms, "flow_map"@) {
                    Some(JsonV::Arr(es)) => spec_dec_pairs_rec(es, 0),
                    _ => None,
                }
            } else {
                None
            }
        },
        _ => None,
    }
}

/// Distinct flags have distinct canonical names.
proof fn lemma_name_injective(f: Flag, g: Flag)
    requires
        Flag::spec_name(f) == Flag::spec_name(g),
    ensures
        f == g,
{
    let nf = Flag::spec_name(f);
    let ng = Flag::spec_name(g);
    assert(nf.len() == ng.len());
    assert(nf[0] == ng[0] && nf[1] == ng[1]);
}

/// Looking a flag's own name up finds that flag.
proof fn lemma_flag_of_name(f: Flag)
    ensures
        spec_flag_of_name(Flag::spec_name(f)) == Some(f),
{
    let n = Flag::spec_name(f);
    assert forall|g: Flag| n == Flag::spec_name(g) implies g == f by {
        lemma_name_injective(f, g);
    }
}

/// What decoding a list of valid flag names yields: the accumulator with
/// exactly the named flags added.
proof fn lemma_dec_flags_rec_props(es: Seq<JsonV>, idx: int, acc: FlagSet)
    requires
        0 <= idx <= es.len(),
        forall|t: int|
            idx <= t < es.len() ==> ((#[trigger] es[t]) matches JsonV::Str(nm)
                && spec_flag_of_name(nm) is Some),
    ensures
        spec_dec_flags_rec(es, idx, acc) matches Some(r) && (forall|f: Flag|
            r.spec_contains(f) <==> acc.spec_contains(f) || (exists|t: int|
                idx <= t < es.len() && #[trigger] es[t] == JsonV::Str(Flag::spec_name(f)))),
    decreases es.len() - idx,
{
    if idx < es.len() {
        let nm = es[idx]->Str_0;
        let g = spec_flag_of_name(nm)->0;
        lemma_dec_flags_rec_props(es, idx + 1, acc.spec_insert(g));
        let r = spec_dec_flags_rec(es, idx, acc)->0;
        assert forall|f: Flag| r.spec_contains(f) implies acc.spec_contains(f) || (exists|t: int|
            idx <= t < es.len() && #[trigger] es[t] == JsonV::Str(Flag::spec_name(f))) by {
            if acc.spec_insert(g).spec_contains(f) && !acc.spec_contains(f) {
                assert(f == g);
                assert(nm == Flag::spec_name(g)) by {
                    assert forall|h: Flag| spec_flag_of_name(nm) == Some(h) implies nm
                        == Flag::spec_name(h) by {}
                }
                assert(es[idx] == JsonV::Str(Flag::spec_name(f)));
            }
        }
        assert forall|f: Flag|
            acc.spec_contains(f) || (exists|t: int|
                idx <= t < es.len() && #[trigger] es[t] == JsonV::Str(
                    Flag::spec_name(f),
                )) implies r.spec_contains(f) by {
            if !acc.spec_contains(f) {
                let t = choose|t: int|
                    idx <= t < es.len() && #[trigger] es[t] == JsonV::Str(Flag::spec_name(f));
                if t == idx {
                    lemma_flag_of_name(f);
                    assert(g == f);
                }
            }
        }
    }
}

/// The canonical flag list of a set holds exactly the set's flags.
#[verifier::rlimit(100)]
proof fn lemma_to_seq_props(fs: FlagSet)
    ensures
        forall|f: Flag| fs.spec_contains(f) <==> fs.spec_to_seq().contains(f),
{
    broadcast use vstd::seq_lib::lemma_seq_contains_after_push;

    let s0 = Seq::<Flag>::empty();
    assert(forall|f: Flag| !s0.contains(f));
    assert forall|f: Flag| fs.spec_contains(f) <==> fs.spec_to_seq().contains(f) by {
        let s1 = if fs.ack { s0.push(Flag::ACK) } else { s0 };
        let s2 = if fs.cwr { s1.push(Flag::CWR) } else { s1 };
        let s3 = if fs.ece { s2.push(Flag::ECE) } else { s2 };
        let s4 = if fs.fin { s3.push(Flag::FIN) } else { s3 };
        let s5 = if fs.ns { s4.push(Flag::NS) } else { s4 };
        let s6 = if fs.psh { s5.push(Flag::PSH) } else { s5 };
        let s7 = if fs.rst { s6.push(Flag::RST) } else { s6 };
        let s8 = if fs.syn { s7.push(Flag::SYN) } else { s7 };
        let s9 = if fs.urg { s8.push(Flag::URG) } else { s8 };
        assert(fs.spec_to_seq() == s9);
        assert(s1.contains(f) <==> (fs.ack && f == Flag::ACK));
        assert(s2.contains(f) <==> s1.contains(f) || (fs.cwr && f == Flag::CWR));
        assert(s3.contains(f) <==> s2.contains(f) || (fs.ece && f == Flag::ECE));
        assert(s4.contains(f) <==> s3.contains(f) || (fs.fin && f == Flag::FIN));
        assert(s5.contains(f) <==> s4.contains(f) || (fs.ns && f == Flag::NS));
        assert(s6.contains(f) <==> s5.contains(f) || (fs.psh && f == Flag::PSH));
        assert(s7.contains(f) <==> s6.contains(f) || (fs.rst && f == Flag::RST));
        assert(s8.contains(f) <==> s7.contains(f) || (fs.syn && f == Flag::SYN));
        assert(s9.contains(f) <==> s8.contains(f) || (fs.urg && f == Flag::URG));
    }
}

/// Decoding the encoded flag list of a set gives the set back.
#[verifier::rlimit(100)]
proof fn lemma_flags_roundtrip(fs: FlagSet)
    ensures
        spec_dec_flags(spec_enc_flags(fs)) == Some(fs),
{
    let names = fs.spec_to_seq();
    let es = names.map_values(|f: Flag| JsonV::Str(Flag::spec_name(f)));
    lemma_to_seq_props(fs);
    assert forall|t: int| 0 <= t < es.len() implies ((#[trigger] es[t]) matches JsonV::Str(nm)
        && spec_flag_of_name(nm) is Some) by {
        assert(es[t] == JsonV::Str(Flag::spec_name(names[t])));
        lemma_flag_of_name(names[t]);
    }
    lemma_dec_flags_rec_props(es, 0, FlagSet::spec_empty());
    let r = spec_dec_flags_rec(es, 0, FlagSet::spec_empty())->0;
    assert forall|f: Flag| r.spec_contains(f) == fs.spec_contains(f) by {
        if fs.spec_contains(f) {
            assert(names.contains(f));
            let t = choose|t: int| 0 <= t < names.len() && names[t] == f;
            assert(es[t] == JsonV::Str(Flag::spec_name(f)));
        }
        if r.spec_contains(f) && !FlagSet::spec_empty().spec_contains(f) {
            let t = choose|t: int|
                0 <= t < es.len() && #[trigger] es[t] == JsonV::Str(Flag::spec_name(f));
            assert(es[t] == JsonV::Str(Flag::spec_name(names[t])));
            lemma_name_injective(names[t], f);
            assert(names.contains(f));
        }
    }
    assert(r.spec_contains(Flag::ACK) == fs.spec_contains(Flag::ACK));
    assert(r.spec_contains(Flag::CWR) == fs.spec_contains(Flag::CWR));
    assert(r.spec_contains(Flag::ECE) == fs.spec_contains(Flag::ECE));
    assert(r.spec_contains(Flag::FIN) == fs.spec_contains(Flag::FIN));
    assert(r.spec_contains(Flag::NS) == fs.spec_contains(Flag::NS));
    assert(r.spec_contains(Flag::PSH) == fs.spec_contains(Flag::PSH));
    assert(r.spec_contains(Flag::RST) == fs.spec_contains(Flag::RST));
    assert(r.spec_contains(Flag::SYN) == fs.spec_contains(Flag::SYN));
    assert(r.spec_contains(Flag::URG) == fs.spec_contains(Flag::URG));
    assert(r == fs);
}


/// Well-formedness of a record view for persistence: every packet carries
/// a well-formed timestamp.
pub open spec fn spec_info_wf(v: FlowInformationView) -> bool {
    &&& forall|i: int|
        0 <= i < v.backward_packet_list.len() ==> (#[trigger] v.backward_packet_list[i]).wf()
    &&& forall|i: int|
        0 <= i < v.forward_packet_list.len() ==> (#[trigger] v.forward_packet_list[i]).wf()
}

/// Well-formedness of table contents for persistence: every record is
/// well formed.
pub open spec fn spec_pairs_wf(pairs: Seq<(FlowId, FlowInformationView)>) -> bool {
    forall|i: int| 0 <= i < pairs.len() ==> spec_info_wf((#[trigger] pairs[i]).1)
}

/// Reveal every key literal of the persisted schema, so that the keys are
/// concrete and distinct.
proof fn lemma_keys()
    ensures
        "length"@ != "window"@,
        "window"@ != "timestamp"@,
        "length"@ != "timestamp"@,
        "network_protocol"@ != "network_header_length"@,
        "network_header_length"@ != "network_payload_length"@,
        "network_header_length"@ != "position"@,
        "network_payload_length"@ != "position"@,
        "sni"@ != "backward_packet_list"@,
{
    reveal_strlit("length");
    reveal_strlit("window");
    reveal_strlit("timestamp");
    reveal_strlit("flag_list");
    reveal_strlit("network_protocol");
    reveal_strlit("network_header_length");
    reveal_strlit("network_payload_length");
    reveal_strlit("position");
    reveal_strlit("secs");
    reveal_strlit("nanos");
    reveal_strlit("sni");
    reveal_strlit("backward_packet_list");
    reveal_strlit("forward_packet_list");
    reveal_strlit("src");
    reveal_strlit("src_port");
    reveal_strlit("dst");
    reveal_strlit("dst_port");
    reveal_strlit("transport_protocol");
    reveal_strlit("flow_map");
    assert("length"@[0] != "window"@[0]);
    assert("window"@.len() != "timestamp"@.len());
    assert("length"@.len() != "timestamp"@.len());
    assert("network_protocol"@.len() != "network_header_length"@.len());
    assert("network_header_length"@[8] != "network_payload_length"@[8]);
    assert("network_header_length"@.len() != "position"@.len());
    assert("network_payload_length"@.len() != "position"@.len());
    assert("sni"@.len() != "backward_packet_list"@.len());
}

/// Decoding an encoded timestamp gives the timestamp back.
proof fn lemma_ts_roundtrip(t: Timestamp)
    requires
        t.wf(),
    ensures
        spec_dec_timestamp(spec_enc_timestamp(t)) == Some(t),
{
    reveal_strlit("secs");
    reveal_strlit("nanos");
    reveal_with_fuel(spec_lookup_from, 4);
    let ms = spec_enc_timestamp(t)->Obj_0;
    assert("secs"@ != "nanos"@) by {
        assert("secs"@.len() != "nanos"@.len());
    }
    assert(spec_keys_unique(ms));
    assert(spec_ts_keys_allowed(ms));
    assert(spec_member_lookup(ms, "secs"@) == Some(JsonV::Num(t.secs)));
    assert(spec_member_lookup(ms, "nanos"@) == Some(JsonV::Num(t.nanos as u64)));
    assert((t.nanos as u64) / 1000000000 == 0);
    assert((t.nanos as u64) % 1000000000 == t.nanos);
}

/// The field names of the persisted packet object are pairwise distinct.
proof fn lemma_packet_keys_distinct()
    ensures
        "length"@ != "window"@,
        "length"@ != "timestamp"@,
        "length"@ != "flag_list"@,
        "length"@ != "network_protocol"@,
        "length"@ != "network_header_length"@,
        "length"@ != "network_payload_length"@,
        "length"@ != "position"@,
        "window"@ != "timestamp"@,
        "window"@ != "flag_list"@,
        "window"@ != "network_protocol"@,
        "window"@ != "network_header_length"@,
        "window"@ != "network_payload_length"@,
        "window"@ != "position"@,
        "timestamp"@ != "flag_list"@,
        "timestamp"@ != "network_protocol"@,
        "timestamp"@ != "network_header_length"@,
        "timestamp"@ != "network_payload_length"@,
        "timestamp"@ != "position"@,
        "flag_list"@ != "network_protocol"@,
        "flag_list"@ != "network_header_length"@,
        "flag_list"@ != "network_payload_length"@,
        "flag_list"@ != "position"@,
        "network_protocol"@ != "network_header_length"@,
        "network_protocol"@ != "network_payload_length"@,
        "network_protocol"@ != "position"@,
        "network_header_length"@ != "network_payload_length"@,
        "network_header_length"@ != "position"@,
        "network_payload_length"@ != "position"@,
{
    reveal_strlit("length");
    reveal_strlit("window");
    reveal_strlit("timestamp");
    reveal_strlit("flag_list");
    reveal_strlit("network_protocol");
    reveal_strlit("network_header_length");
    reveal_strlit("network_payload_length");
    reveal_strlit("position");
    assert("length"@ != "window"@) by {
        assert("length"@[0] != "window"@[0]);
    }
    assert("length"@ != "timestamp"@) by {
        assert("length"@.len() != "timestamp"@.len());
    }
    assert("length"@ != "flag_list"@) by {
        assert("length"@.len() != "flag_list"@.len());
    }
    assert("length"@ != "network_protocol"@) by {
        assert("length"@.len() != "network_protocol"@.len());
    }
    assert("length"@ != "network_header_length"@) by {
        assert("length"@.len() != "network_header_length"@.len());
    }
    assert("length"@ != "network_payload_length"@) by {
        assert("length"@.len() != "network_payload_length"@.len());
    }
    assert("length"@ != "position"@) by {
        assert("length"@.len() != "position"@.len());
    }
    assert("window"@ != "timestamp"@) by {
        assert("window"@.len() != "timestamp"@.len());
    }
    assert("window"@ != "flag_list"@) by {
        assert("window"@.len() != "flag_list"@.len());
    }
    assert("window"@ != "network_protocol"@) by {
        assert("window"@.len() != "network_protocol"@.len());
    }
    assert("window"@ != "network_header_length"@) by {
        assert("window"@.len() != "network_header_length"@.len());
    }
    assert("window"@ != "network_payload_length"@) by {
        assert("window"@.len() != "network_payload_length"@.len());
    }
    assert("window"@ != "position"@) by {
        assert("window"@.len() != "position"@.len());
    }
    assert("timestamp"@ != "flag_list"@) by {
        assert("timestamp"@[0] != "flag_list"@[0]);
    }
    assert("timestamp"@ != "network_protocol"@) by {
        assert("timestamp"@.len() != "network_protocol"@.len());
    }
    assert("timestamp"@ != "network_header_length"@) by {
        assert("timestamp"@.len() != "network_header_length"@.len());
    }
    assert("timestamp"@ != "network_payload_length"@) by {
        assert("timestamp"@.len() != "network_payload_length"@.len());
    }
    assert("timestamp"@ != "position"@) by {
        assert("timestamp"@.len() != "position"@.len());
    }
    assert("flag_list"@ != "network_protocol"@) by {
        assert("flag_list"@.len() != "network_protocol"@.len());
    }
    assert("flag_list"@ != "network_header_length"@) by {
        assert("flag_list"@.len() != "network_header_length"@.len());
    }
    assert("flag_list"@ != "network_payload_length"@) by {
        assert("flag_list"@.len() != "network_payload_length"@.len());
    }
    assert("flag_list"@ != "position"@) by {
        assert("flag_list"@.len() != "position"@.len());
    }
    assert("network_protocol"@ != "network_header_length"@) by {
        assert("network_protocol"@.len() != "network_header_length"@.len());
    }
    assert("network_protocol"@ != "network_payload_length"@) by {
        assert("network_protocol"@.len() != "network_payload_length"@.len());
    }
    assert("network_protocol"@ != "position"@) by {
        assert("network_protocol"@.len() != "position"@.len());
    }
    assert("network_header_length"@ != "network_payload_length"@) by {
        assert("network_header_length"@.len() != "network_payload_length"@.len());
    }
    assert("network_header_length"@ != "position"@) by {
        assert("network_header_length"@.len() != "position"@.len());
    }
    assert("network_payload_length"@ != "position"@) by {
        assert("network_payload_length"@.len() != "position"@.len());
    }
}

/// Decoding an encoded packet gives the packet back.
#[verifier::rlimit(100)]
proof fn lemma_packet_roundtrip(p: Packet)
    requires
        p.wf(),
    ensures
        spec_dec_packet(spec_enc_packet(p)) == Some(p),
{
    lemma_packet_keys_distinct();
    lemma_ts_roundtrip(p.timestamp);
    lemma_flags_roundtrip(p.flag_list);
    reveal_with_fuel(spec_lookup_from, 12);
    let ms = spec_enc_packet(p)->Obj_0;
    let nw: int = if p.window is Some {
        1
    } else {
        0
    };
    let nh: int = if p.network_header_length is Some {
        1
    } else {
        0
    };
    let np: int = if p.network_payload_length is Some {
        1
    } else {
        0
    };
    let w_extra: Seq<(Seq<char>, JsonV)> = match p.window {
        Some(w) => seq![("window"@, JsonV::Num(w as u64))],
        None => Seq::empty(),
    };
    let h_extra: Seq<(Seq<char>, JsonV)> = match p.network_header_length {
        Some(n) => seq![("network_header_length"@, JsonV::Num(n))],
        None => Seq::empty(),
    };
    let p_extra: Seq<(Seq<char>, JsonV)> = match p.network_payload_length {
        Some(n) => seq![("network_payload_length"@, JsonV::Num(n))],
        None => Seq::empty(),
    };
    assert(ms == seq![("length"@, JsonV::Num(p.length))] + w_extra + seq![
        ("timestamp"@, spec_enc_timestamp(p.timestamp)),
        ("flag_list"@, spec_enc_flags(p.flag_list)),
        ("network_protocol"@, JsonV::Num(p.network_protocol as u64)),
    ] + h_extra + p_extra + seq![("position"@, JsonV::Num(p.position))]);
    assert(w_extra.len() == nw && h_extra.len() == nh && p_extra.len() == np);
    assert(ms.len() == 5 + nw + nh + np);
    assert(ms[0] == ("length"@, JsonV::Num(p.length)));
    if p.window is Some {
        assert(ms[1] == ("window"@, JsonV::Num(p.window->0 as u64)));
    }
    assert(ms[1 + nw] == ("timestamp"@, spec_enc_timestamp(p.timestamp)));
    assert(ms[2 + nw] == ("flag_list"@, spec_enc_flags(p.flag_list)));
    assert(ms[3 + nw] == ("network_protocol"@, JsonV::Num(p.network_protocol as u64)));
    if p.network_header_length is Some {
        assert(ms[4 + nw] == ("network_header_length"@, JsonV::Num(
            p.network_header_length->0,
        )));
    }
    if p.network_payload_length is Some {
        assert(ms[4 + nw + nh] == ("network_payload_length"@, JsonV::Num(
            p.network_payload_length->0,
        )));
    }
    assert(ms[4 + nw + nh + np] == ("position"@, JsonV::Num(p.position)));
    assert(spec_keys_unique(ms));
    assert(spec_packet_keys_allowed(ms));
    assert(spec_member_lookup(ms, "length"@) == Some(JsonV::Num(p.length)));
    assert(spec_member_lookup(ms, "window"@) == (match p.window {
        Some(w) => Some(JsonV::Num(w as u64)),
        None => None,
    }));
    assert(spec_member_lookup(ms, "timestamp"@) == Some(spec_enc_timestamp(p.timestamp)));
    assert(spec_member_lookup(ms, "flag_list"@) == Some(spec_enc_flags(p.flag_list)));
    assert(spec_member_lookup(ms, "network_protocol"@) == Some(JsonV::Num(
        p.network_protocol as u64,
    )));
    assert(spec_member_lookup(ms, "network_header_length"@) == (
    match p.network_header_length {
        Some(n) => Some(JsonV::Num(n)),
        None => None,
    }));
    assert(spec_member_lookup(ms, "network_payload_length"@) == (
    match p.network_payload_length {
        Some(n) => Some(JsonV::Num(n)),
        None => None,
    }));
    assert(spec_member_lookup(ms, "position"@) == Some(JsonV::Num(p.position)));
}

/// Decoding an encoded packet list gives the packets back, from any
/// starting position.
proof fn lemma_packets_roundtrip(ps: Seq<Packet>, idx: int)
    requires
        0 <= idx <= ps.len(),
        forall|i: int| 0 <= i < ps.len() ==> (#[trigger] ps[i]).wf(),
    ensures
        spec_dec_packets_rec(spec_enc_packets(ps), idx) == Some(ps.skip(idx)),
    decreases ps.len() - idx,
{
    let es = spec_enc_packets(ps);
    if idx >= ps.len() {
        assert(ps.skip(idx) =~= Seq::<Packet>::empty());
    } else {
        lemma_packet_roundtrip(ps[idx]);
        assert(es[idx] == spec_enc_packet(ps[idx]));
        lemma_packets_roundtrip(ps, idx + 1);
        assert(seq![ps[idx]] + ps.skip(idx + 1) =~= ps.skip(idx));
    }
}

/// Decoding an encoded flow identifier gives the identifier back.
#[verifier::rlimit(100)]
proof fn lemma_flow_id_roundtrip(k: FlowId)
    ensures
        spec_dec_flow_id(spec_enc_flow_id(k)) == Some(k),
{
    reveal_strlit("src");
    reveal_strlit("src_port");
    reveal_strlit("dst");
    reveal_strlit("dst_port");
    reveal_strlit("transport_protocol");
    reveal_with_fuel(spec_lookup_from, 7);
    crate::ip::lemma_parse_format_ip(k.src);
    crate::ip::lemma_parse_format_ip(k.dst);
    assert("src"@ != "dst"@) by {
        assert("src"@[0] != "dst"@[0]);
    }
    assert("src_port"@ != "dst_port"@) by {
        assert("src_port"@[0] != "dst_port"@[0]);
    }
    assert("src"@ != "src_port"@) by {
        assert("src"@.len() != "src_port"@.len());
    }
    assert("src"@ != "dst_port"@) by {
        assert("src"@.len() != "dst_port"@.len());
    }
    assert("src"@ != "transport_protocol"@) by {
        assert("src"@.len() != "transport_protocol"@.len());
    }
    assert("dst"@ != "src_port"@) by {
        assert("dst"@.len() != "src_port"@.len());
    }
    assert("dst"@ != "dst_port"@) by {
        assert("dst"@.len() != "dst_port"@.len());
    }
    assert("dst"@ != "transport_protocol"@) by {
        assert("dst"@.len() != "transport_protocol"@.len());
    }
    assert("src_port"@ != "transport_protocol"@) by {
        assert("src_port"@.len() != "transport_protocol"@.len());
    }
    assert("dst_port"@ != "transport_protocol"@) by {
        assert("dst_port"@.len() != "transport_protocol"@.len());
    }
    let ms = spec_enc_flow_id(k)->Obj_0;
    assert(ms[0] == ("src"@, JsonV::Str(spec_format_ip(k.src))));
    assert(ms[1] == ("src_port"@, JsonV::Num(k.src_port as u64)));
    assert(ms[2] == ("dst"@, JsonV::Str(spec_format_ip(k.dst))));
    assert(ms[3] == ("dst_port"@, JsonV::Num(k.dst_port as u64)));
    assert(ms[4] == ("transport_protocol"@, JsonV::Num(k.transport_protocol as u64)));
    assert(spec_keys_unique(ms));
    assert(spec_flow_id_keys_allowed(ms));
    assert(spec_member_lookup(ms, "src"@) == Some(JsonV::Str(spec_format_ip(k.src))));
    assert(spec_member_lookup(ms, "dst"@) == Some(JsonV::Str(spec_format_ip(k.dst))));
    assert(spec_member_lookup(ms, "src_port"@) == Some(JsonV::Num(k.src_port as u64)));
    assert(spec_member_lookup(ms, "dst_port"@) == Some(JsonV::Num(k.dst_port as u64)));
    assert(spec_member_lookup(ms, "transport_protocol"@) == Some(JsonV::Num(
        k.transport_protocol as u64,
    )));
}

/// Decoding an encoded record gives the record back.
#[verifier::rlimit(100)]
proof fn lemma_info_roundtrip(v: FlowInformationView)
    requires
        spec_info_wf(v),
    ensures
        spec_dec_info(spec_enc_info(v)) == Some(v),
{
    reveal_strlit("sni");
    reveal_strlit("backward_packet_list");
    reveal_strlit("forward_packet_list");
    reveal_with_fuel(spec_lookup_from, 5);
    lemma_packets_roundtrip(v.backward_packet_list, 0);
    lemma_packets_roundtrip(v.forward_packet_list, 0);
    assert(v.backward_packet_list.skip(0) =~= v.backward_packet_list);
    assert(v.forward_packet_list.skip(0) =~= v.forward_packet_list);
    assert("sni"@ != "backward_packet_list"@) by {
        assert("sni"@.len() != "backward_packet_list"@.len());
    }
    assert("sni"@ != "forward_packet_list"@) by {
        assert("sni"@.len() != "forward_packet_list"@.len());
    }
    assert("backward_packet_list"@ != "forward_packet_list"@) by {
        assert("backward_packet_list"@.len() != "forward_packet_list"@.len());
    }
    let ms = spec_enc_info(v)->Obj_0;
    let c: int = if v.sni is Some {
        1
    } else {
        0
    };
    if v.sni is Some {
        assert(ms[0] == ("sni"@, JsonV::Str(v.sni->0)));
    }
    assert(ms[c] == ("backward_packet_list"@, JsonV::Arr(
        spec_enc_packets(v.backward_packet_list),
    )));
    assert(ms[c + 1] == ("forward_packet_list"@, JsonV::Arr(
        spec_enc_packets(v.forward_packet_list),
    )));
    assert(spec_keys_unique(ms));
    assert(spec_info_keys_allowed(ms));
    assert(spec_opt_str(ms, "sni"@) == Some(v.sni));
    assert(spec_member_lookup(ms, "backward_packet_list"@) == Some(JsonV::Arr(
        spec_enc_packets(v.backward_packet_list),
    )));
    assert(spec_member_lookup(ms, "forward_packet_list"@) == Some(JsonV::Arr(
        spec_enc_packets(v.forward_packet_list),
    )));
}

/// Decoding encoded table pairs gives the pairs back, from any starting
/// position.
#[verifier::rlimit(100)]
proof fn lemma_pairs_roundtrip(pairs: Seq<(FlowId, FlowInformationView)>, idx: int)
    requires
        0 <= idx <= pairs.len(),
        spec_pairs_wf(pairs),
    ensures
        spec_dec_pairs_rec(
            pairs.map_values(
                |p: (FlowId, FlowInformationView)|
                    JsonV::Arr(seq![spec_enc_flow_id(p.0), spec_enc_info(p.1)]),
            ),
            idx,
        ) == Some(pairs.skip(idx)),
    decreases pairs.len() - idx,
{
    let es = pairs.map_values(
        |p: (FlowId, FlowInformationView)|
            JsonV::Arr(seq![spec_enc_flow_id(p.0), spec_enc_info(p.1)]),
    );
    if idx >= pairs.len() {
        assert(pairs.skip(idx) =~= Seq::<(FlowId, FlowInformationView)>::empty());
    } else {
        lemma_flow_id_roundtrip(pairs[idx].0);
        lemma_info_roundtrip(pairs[idx].1);
        assert(es[idx] == JsonV::Arr(
            seq![spec_enc_flow_id(pairs[idx].0), spec_enc_info(pairs[idx].1)],
        ));
        lemma_pairs_roundtrip(pairs, idx + 1);
        assert(seq![(pairs[idx].0, pairs[idx].1)] + pairs.skip(idx + 1) =~= pairs.skip(idx));
        assert((pairs[idx].0, pairs[idx].1) == pairs[idx]);
    }
}

/// Law: decoding the encoded form of well-formed table contents gives the
/// contents back.
pub proof fn lemma_generator_roundtrip(pairs: Seq<(FlowId, FlowInformationView)>)
    requires
        spec_pairs_wf(pairs),
    ensures
        spec_dec_generator(spec_enc_generator(pairs)) == Some(pairs),
{
    reveal_strlit("flow_map");
    reveal_with_fuel(spec_lookup_from, 3);
    lemma_pairs_roundtrip(pairs, 0);
    assert(pairs.skip(0) =~= pairs);
    let ms = spec_enc_generator(pairs)->Obj_0;
    assert(spec_keys_unique(ms));
    assert(spec_doc_keys_allowed(ms));
    assert(spec_member_lookup(ms, "flow_map"@) is Some);
}

/// Whether two character vectors hold the same characters.
fn chars_eq(a: &Vec<char>, b: &Vec<char>) -> (r: bool)
    ensures
        r == (a@ == b@),
{
    if a.len() != b.len() {
        proof {
            assert(a@ != b@);
        }
        return false;
    }
    let mut i: usize = 0;
    while i < a.len()
        invariant
            a@.len() == b@.len(),
            0 <= i <= a@.len(),
            forall|k: int| 0 <= k < i ==> a@[k] == b@[k],
        decreases a@.len() - i,
    {
        if a[i] != b[i] {
            proof {
                assert(a@ != b@);
            }
            return false;
        }
        i = i + 1;
    }
    proof {
        assert(a@ =~= b@);
    }
    true
}

/// The encoded timestamp.
fn enc_timestamp(t: &Timestamp) -> (r: Json)
    ensures
        r@ == spec_enc_timestamp(*t),
{
    let mut ms: Vec<(Vec<char>, Json)> = Vec::new();
    ms.push((crate::text::str_chars("secs"), Json::Num(t.secs)));
    ms.push((crate::text::str_chars("nanos"), Json::Num(t.nanos as u64)));
    proof {
        crate::json::lemma_json_view_members_index(ms@);
        assert(crate::json::json_view_members(ms@) =~= spec_enc_timestamp(*t)->Obj_0);
    }
    Json::Obj(ms)
}

/// Whether the first `i` encoded flag elements are the names of the
/// corresponding flags.
spec fn spec_flag_elems_ok(es: Seq<Json>, flags: Seq<Flag>, i: int) -> bool {
    forall|k: int|
        0 <= k < i ==> crate::json::json_view(#[trigger] es[k]) == JsonV::Str(
            Flag::spec_name(flags[k]),
        )
}


/// The encoded flag list.
fn enc_flags(flag_set: &FlagSet) -> (r: Json)
    ensures
        r@ == spec_enc_flags(*flag_set),
{
    let flags = flag_set.to_seq();
    let mut es: Vec<Json> = Vec::new();
    let mut i: usize = 0;
    while i < flags.len()
        invariant
            flags@ == flag_set.spec_to_seq(),
            0 <= i <= flags@.len(),
            es@.len() == i,
            spec_flag_elems_ok(es@, flags@, i as int),
        decreases flags@.len() - i,
    {
        es.push(Json::Str(crate::text::str_chars(flags[i].name())));
        i = i + 1;
    }
    proof {
        crate::json::lemma_json_view_elems_index(es@);
        let m = flag_set.spec_to_seq().map_values((|f: Flag| JsonV::Str(Flag::spec_name(f))));
        assert(crate::json::json_view_elems(es@) =~= m);
    }
    Json::Arr(es)
}

/// The encoded packet.
#[verifier::rlimit(100)]
fn enc_packet(p: &Packet) -> (r: Json)
    ensures
        r@ == spec_enc_packet(*p),
{
    let mut ms: Vec<(Vec<char>, Json)> = Vec::new();
    ms.push((crate::text::str_chars("length"), Json::Num(p.length)));
    match p.window {
        Some(w) => {
            ms.push((crate::text::str_chars("window"), Json::Num(w as u64)));
        },
        None => {},
    }
    ms.push((crate::text::str_chars("timestamp"), enc_timestamp(&p.timestamp)));
    ms.push((crate::text::str_chars("flag_list"), enc_flags(&p.flag_list)));
    ms.push((crate::text::str_chars("network_protocol"), Json::Num(p.network_protocol as u64)));
    match p.network_header_length {
        Some(n) => {
            ms.push((crate::text::str_chars("network_header_length"), Json::Num(n)));
        },
        None => {},
    }
    match p.network_payload_length {
        Some(n) => {
            ms.push((crate::text::str_chars("network_payload_length"), Json::Num(n)));
        },
        None => {},
    }
    ms.push((crate::text::str_chars("position"), Json::Num(p.position)));
    proof {
        crate::json::lemma_json_view_members_index(ms@);
        assert(crate::json::json_view_members(ms@) =~= spec_enc_packet(*p)->Obj_0);
    }
    Json::Obj(ms)
}

/// Whether the first `i` encoded packet elements are the encodings of the
/// corresponding packets.
spec fn spec_packet_elems_ok(es: Seq<Json>, ps: Seq<Packet>, i: int) -> bool {
    forall|k: int|
        0 <= k < i ==> crate::json::json_view(#[trigger] es[k]) == spec_enc_packet(ps[k])
}

/// The encoded packet list of one direction.
fn enc_packets(ps: &Vec<Packet>) -> (r: Json)
    ensures
        r@ == JsonV::Arr(spec_enc_packets(ps@)),
{
    let mut es: Vec<Json> = Vec::new();
    let mut i: usize = 0;
    while i < ps.len()
        invariant
            0 <= i <= ps@.len(),
            es@.len() == i,
            spec_packet_elems_ok(es@, ps@, i as int),
        decreases ps@.len() - i,
    {
        es.push(enc_packet(&ps[i]));
        i = i + 1;
    }
    proof {
        crate::json::lemma_json_view_elems_index(es@);
        assert(crate::json::json_view_elems(es@) =~= spec_enc_packets(ps@));
    }
    Json::Arr(es)
}

/// The encoded flow identifier.
fn enc_flow_id(k: &FlowId) -> (r: Json)
    ensures
        r@ == spec_enc_flow_id(*k),
{
    let mut ms: Vec<(Vec<char>, Json)> = Vec::new();
    ms.push((crate::text::str_chars("src"), Json::Str(crate::ip::format_ip(&k.src))));
    ms.push((crate::text::str_chars("src_port"), Json::Num(k.src_port as u64)));
    ms.push((crate::text::str_chars("dst"), Json::Str(crate::ip::format_ip(&k.dst))));
    ms.push((crate::text::str_chars("dst_port"), Json::Num(k.dst_port as u64)));
    ms.push(
        (crate::text::str_chars("transport_protocol"), Json::Num(k.transport_protocol as u64)),
    );
    proof {
        crate::json::lemma_json_view_members_index(ms@);
        assert(crate::json::json_view_members(ms@) =~= spec_enc_flow_id(*k)->Obj_0);
    }
    Json::Obj(ms)
}

/// The encoded record of one flow.
fn enc_info(v: &crate::flow_information::FlowInformation) -> (r: Json)
    ensures
        r@ == spec_enc_info(v@),
{
    let mut ms: Vec<(Vec<char>, Json)> = Vec::new();
    match v.sni {
        Some(ref sv) => {
            ms.push((crate::text::str_chars("sni"), Json::Str(crate::text::str_chars(
                sv.as_str(),
            ))));
        },
        None => {},
    }
    ms.push(
        (crate::text::str_chars("backward_packet_list"), enc_packets(&v.backward_packet_list)),
    );
    ms.push(
        (crate::text::str_chars("forward_packet_list"), enc_packets(&v.forward_packet_list)),
    );
    proof {
        crate::json::lemma_json_view_members_index(ms@);
        assert(crate::json::json_view_members(ms@) =~= spec_enc_info(v@)->Obj_0);
    }
    Json::Obj(ms)
}

/// The abstract value of a vector of key/record pairs.
pub open spec fn spec_pairs_view(
    pairs: Seq<(FlowId, crate::flow_information::FlowInformation)>,
) -> Seq<(FlowId, FlowInformationView)> {
    pairs.map_values(
        (|pr: (FlowId, crate::flow_information::FlowInformation)| (pr.0, pr.1@)),
    )
}

/// Whether the first `i` encoded pair elements are the encodings of the
/// corresponding pairs.
spec fn spec_pair_elems_ok(
    es: Seq<Json>,
    pairs: Seq<(FlowId, FlowInformationView)>,
    i: int,
) -> bool {
    forall|k: int|
        0 <= k < i ==> crate::json::json_view(#[trigger] es[k]) == JsonV::Arr(
            seq![spec_enc_flow_id(pairs[k].0), spec_enc_info(pairs[k].1)],
        )
}

/// The encoded document of the whole table.
#[verifier::rlimit(100)]
pub fn enc_generator(pairs: &Vec<(FlowId, crate::flow_information::FlowInformation)>) -> (r:
    Json)
    ensures
        r@ == spec_enc_generator(spec_pairs_view(pairs@)),
{
    let mut es: Vec<Json> = Vec::new();
    let mut i: usize = 0;
    while i < pairs.len()
        invariant
            0 <= i <= pairs@.len(),
            es@.len() == i,
            spec_pair_elems_ok(es@, spec_pairs_view(pairs@), i as int),
        decreases pairs@.len() - i,
    {
        let kj = enc_flow_id(&pairs[i].0);
        let vj = enc_info(&pairs[i].1);
        let mut kv: Vec<Json> = Vec::new();
        kv.push(kj);
        kv.push(vj);
        proof {
            crate::json::lemma_json_view_elems_index(kv@);
            assert(crate::json::json_view_elems(kv@) =~= seq![
                spec_enc_flow_id(spec_pairs_view(pairs@)[i as int].0),
                spec_enc_info(spec_pairs_view(pairs@)[i as int].1),
            ]);
        }
        es.push(Json::Arr(kv));
        i = i + 1;
    }
    let ghost esv = es@;
    proof {
        crate::json::lemma_json_view_elems_index(esv);
    }
    let mut ms: Vec<(Vec<char>, Json)> = Vec::new();
    ms.push((crate::text::str_chars("flow_map"), Json::Arr(es)));
    proof {
        crate::json::lemma_json_view_members_index(ms@);
        let pv = spec_pairs_view(pairs@);
        let m = pv.map_values(
            (|p: (FlowId, FlowInformationView)|
                JsonV::Arr(seq![spec_enc_flow_id(p.0), spec_enc_info(p.1)])),
        );
        assert(ms@[0].1->Arr_0@ == esv);
        assert(crate::json::json_view_elems(esv) =~= m);
        assert(crate::json::json_view_members(ms@) =~= spec_enc_generator(pv)->Obj_0);
    }
    Json::Obj(ms)
}

/// The value of the member with the given key, if any is present.
#[verifier::loop_isolation(false)]
fn obj_lookup<'a>(ms: &'a Vec<(Vec<char>, Json)>, key: &str) -> (r: Option<&'a Json>)
    ensures
        match r {
            Some(v) => spec_member_lookup(crate::json::json_view_members(ms@), key@) == Some(
                v@,
            ),
            None => spec_member_lookup(crate::json::json_view_members(ms@), key@) is None,
        },
{
    proof {
        crate::json::lemma_json_view_members_index(ms@);
    }
    let ghost vms = crate::json::json_view_members(ms@);
    let kv = crate::text::str_chars(key);
    let mut i: usize = 0;
    while i < ms.len()
        invariant
            0 <= i <= ms@.len(),
            spec_lookup_from(vms, key@, 0) == spec_lookup_from(vms, key@, i as int),
        decreases ms@.len() - i,
    {
        if chars_eq(&ms[i].0, &kv) {
            return Some(&ms[i].1);
        }
        i = i + 1;
    }
    None
}

/// Whether no two members share a key.
#[verifier::loop_isolation(false)]
fn keys_unique(ms: &Vec<(Vec<char>, Json)>) -> (r: bool)
    ensures
        r == spec_keys_unique(crate::json::json_view_members(ms@)),
{
    proof {
        crate::json::lemma_json_view_members_index(ms@);
    }
    let ghost vms = crate::json::json_view_members(ms@);
    let mut i: usize = 1;
    while i < ms.len()
        invariant
            1 <= i <= ms@.len() || ms@.len() == 0,
            forall|a: int, b: int| 0 <= a < b < i ==> (#[trigger] vms[a]).0 != (
            #[trigger] vms[b]).0,
        decreases ms@.len() - i,
    {
        let mut j: usize = 0;
        while j < i
            invariant
                0 <= j <= i < ms@.len(),
                forall|a: int, b: int| 0 <= a < b < i ==> (#[trigger] vms[a]).0 != (
                #[trigger] vms[b]).0,
                forall|t: int| 0 <= t < j ==> (#[trigger] vms[t]).0 != vms[i as int].0,
            decreases i - j,
        {
            if chars_eq(&ms[j].0, &ms[i].0) {
                proof {
                    assert(vms[j as int].0 == vms[i as int].0);
                }
                return false;
            }
            j = j + 1;
        }
        i = i + 1;
    }
    true
}

/// A required numeric member.
fn req_num(ms: &Vec<(Vec<char>, Json)>, key: &str) -> (r: Option<u64>)
    ensures
        r == spec_req_num(crate::json::json_view_members(ms@), key@),
{
    match obj_lookup(ms, key) {
        Some(v) => match v {
            Json::Num(n) => Some(*n),
            _ => None,
        },
        None => None,
    }
}

/// An optional numeric member: absent, present as a number, or a mismatch.
fn opt_num(ms: &Vec<(Vec<char>, Json)>, key: &str) -> (r: Option<Option<u64>>)
    ensures
        r == spec_opt_num(crate::json::json_view_members(ms@), key@),
{
    match obj_lookup(ms, key) {
        Some(v) => match v {
            Json::Num(n) => Some(Some(*n)),
            _ => None,
        },
        None => Some(None),
    }
}

/// The flag named by the given text, if any.
fn flag_of_name(n: &Vec<char>) -> (r: Option<Flag>)
    ensures
        r == spec_flag_of_name(n@),
{
    proof {
        reveal_strlit("ACK");
        reveal_strlit("CWR");
        reveal_strlit("ECE");
        reveal_strlit("FIN");
        reveal_strlit("NS");
        reveal_strlit("PSH");
        reveal_strlit("RST");
        reveal_strlit("SYN");
        reveal_strlit("URG");
        assert("ACK"@ =~= Flag::spec_name(Flag::ACK));
        assert("CWR"@ =~= Flag::spec_name(Flag::CWR));
        assert("ECE"@ =~= Flag::spec_name(Flag::ECE));
        assert("FIN"@ =~= Flag::spec_name(Flag::FIN));
        assert("NS"@ =~= Flag::spec_name(Flag::NS));
        assert("PSH"@ =~= Flag::spec_name(Flag::PSH));
        assert("RST"@ =~= Flag::spec_name(Flag::RST));
        assert("SYN"@ =~= Flag::spec_name(Flag::SYN));
        assert("URG"@ =~= Flag::spec_name(Flag::URG));
    }
    if chars_eq(n, &crate::text::str_chars("ACK")) {
        Some(Flag::ACK)
    } else if chars_eq(n, &crate::text::str_chars("CWR")) {
        Some(Flag::CWR)
    } else if chars_eq(n, &crate::text::str_chars("ECE")) {
        Some(Flag::ECE)
    } else if chars_eq(n, &crate::text::str_chars("FIN")) {
        Some(Flag::FIN)
    } else if chars_eq(n, &crate::text::str_chars("NS")) {
        Some(Flag::NS)
    } else if chars_eq(n, &crate::text::str_chars("PSH")) {
        Some(Flag::PSH)
    } else if chars_eq(n, &crate::text::str_chars("RST")) {
        Some(Flag::RST)
    } else if chars_eq(n, &crate::text::str_chars("SYN")) {
        Some(Flag::SYN)
    } else if chars_eq(n, &crate::text::str_chars("URG")) {
        Some(Flag::URG)
    } else {
        None
    }
}

/// Decode a persisted flag list.
#[verifier::loop_isolation(false)]
fn dec_flags(j: &Json) -> (r: Option<FlagSet>)
    ensures
        r == spec_dec_flags(j@),
{
    match j {
        Json::Arr(es) => {
            proof {
                crate::json::lemma_json_view_elems_index(es@);
            }
            let ghost ves = crate::json::json_view_elems(es@);
            let mut acc = FlagSet::empty();
            let mut i: usize = 0;
            while i < es.len()
                invariant
                    0 <= i <= es@.len(),
                    ves == crate::json::json_view_elems(es@),
                    ves.len() == es@.len(),
                    forall|k: int|
                        0 <= k < es@.len() ==> #[trigger] ves[k] == crate::json::json_view(
                            es@[k],
                        ),
                    spec_dec_flags_rec(ves, 0, FlagSet::spec_empty()) == spec_dec_flags_rec(
                        ves,
                        i as int,
                        acc,
                    ),
                decreases es@.len() - i,
            {
                match &es[i] {
                    Json::Str(nm) => {
                        match flag_of_name(nm) {
                            Some(f) => {
                                acc.insert(f);
                            },
                            None => {
                                return None;
                            },
                        }
                    },
                    _ => {
                        return None;
                    },
                }
                i = i + 1;
            }
            Some(acc)
        },
        _ => None,
    }
}

/// Whether every member key belongs to the timestamp schema.
#[verifier::loop_isolation(false)]
fn ts_keys_allowed(ms: &Vec<(Vec<char>, Json)>) -> (r: bool)
    ensures
        r == spec_ts_keys_allowed(crate::json::json_view_members(ms@)),
{
    proof {
        crate::json::lemma_json_view_members_index(ms@);
    }
    let ghost vms = crate::json::json_view_members(ms@);
    let mut i: usize = 0;
    while i < ms.len()
        invariant
            0 <= i <= ms@.len(),
            forall|t: int| 0 <= t < i ==> spec_ts_key((#[trigger] vms[t]).0),
        decreases ms@.len() - i,
    {
        if !(chars_eq(&ms[i].0, &crate::text::str_chars("secs")) || chars_eq(
            &ms[i].0,
            &crate::text::str_chars("nanos"),
        )) {
            proof {
                assert(!spec_ts_key(vms[i as int].0));
            }
            return false;
        }
        i = i + 1;
    }
    true
}

/// Decode a persisted timestamp object, normalizing overlong nanoseconds.
fn dec_timestamp(j: &Json) -> (r: Option<Timestamp>)
    ensures
        r == spec_dec_timestamp(j@),
        r matches Some(t) ==> t.wf(),
{
    match j {
        Json::Obj(ms) => {
            proof {
                crate::json::lemma_json_view_members_index(ms@);
            }
            if !keys_unique(ms) || !ts_keys_allowed(ms) {
                return None;
            }
            match (req_num(ms, "secs"), req_num(ms, "nanos")) {
                (Some(secs), Some(nanos)) => {
                    let extra = nanos / 1000000000;
                    if secs <= u64::MAX - extra {
                        Some(Timestamp { secs: secs + extra, nanos: (nanos % 1000000000) as u32 })
                    } else {
                        None
                    }
                },
                _ => None,
            }
        },
        _ => None,
    }
}

/// Whether every member key belongs to the packet schema.
#[verifier::loop_isolation(false)]
fn packet_keys_allowed(ms: &Vec<(Vec<char>, Json)>) -> (r: bool)
    ensures
        r == spec_packet_keys_allowed(crate::json::json_view_members(ms@)),
{
    proof {
        crate::json::lemma_json_view_members_index(ms@);
    }
    let ghost vms = crate::json::json_view_members(ms@);
    let mut i: usize = 0;
    while i < ms.len()
        invariant
            0 <= i <= ms@.len(),
            forall|t: int| 0 <= t < i ==> spec_packet_key((#[trigger] vms[t]).0),
        decreases ms@.len() - i,
    {
        let k = &ms[i].0;
        if !(chars_eq(k, &crate::text::str_chars("length")) || chars_eq(
            k,
            &crate::text::str_chars("window"),
        ) || chars_eq(k, &crate::text::str_chars("timestamp")) || chars_eq(
            k,
            &crate::text::str_chars("flag_list"),
        ) || chars_eq(k, &crate::text::str_chars("network_protocol")) || chars_eq(
            k,
            &crate::text::str_chars("network_header_length"),
        ) || chars_eq(k, &crate::text::str_chars("network_payload_length")) || chars_eq(
            k,
            &crate::text::str_chars("position"),
        )) {
            proof {
                assert(!spec_packet_key(vms[i as int].0));
            }
            return false;
        }
        i = i + 1;
    }
    true
}

/// Decode a persisted packet object.
#[verifier::rlimit(100)]
fn dec_packet(j: &Json) -> (r: Option<Packet>)
    ensures
        r == spec_dec_packet(j@),
        r matches Some(p) ==> p.wf(),
{
    match j {
        Json::Obj(ms) => {
            proof {
                crate::json::lemma_json_view_members_index(ms@);
            }
            if !keys_unique(ms) || !packet_keys_allowed(ms) {
                return None;
            }
            let length = match req_num(ms, "length") {
                Some(n) => n,
                None => {
                    return None;
                },
            };
            let window = match opt_num(ms, "window") {
                Some(w) => w,
                None => {
                    return None;
                },
            };
            let ts = match obj_lookup(ms, "timestamp") {
                Some(tsj) => match dec_timestamp(tsj) {
                    Some(t) => t,
                    None => {
                        return None;
                    },
                },
                None => {
                    return None;
                },
            };
            let flags = match obj_lookup(ms, "flag_list") {
                Some(flj) => match dec_flags(flj) {
                    Some(f) => f,
                    None => {
                        return None;
                    },
                },
                None => {
                    return None;
                },
            };
            let proto = match req_num(ms, "network_protocol") {
                Some(n) => n,
                None => {
                    return None;
                },
            };
            let hdr = match opt_num(ms, "network_header_length") {
                Some(h) => h,
                None => {
                    return None;
                },
            };
            let pay = match opt_num(ms, "network_payload_length") {
                Some(h) => h,
                None => {
                    return None;
                },
            };
            let position = match req_num(ms, "position") {
                Some(n) => n,
                None => {
                    return None;
                },
            };
            if proto > 0xFFFF {
                return None;
            }
            let window16: Option<u16> = match window {
                Some(w) => {
                    if w > 0xFFFF {
                        return None;
                    }
                    Some(w as u16)
                },
                None => None,
            };
            Some(
                Packet {
                    length,
                    window: window16,
                    timestamp: ts,
                    flag_list: flags,
                    network_protocol: proto as u16,
                    network_header_length: hdr,
                    network_payload_length: pay,
                    position,
                },
            )
        },
        _ => None,
    }
}

/// Decode a persisted packet list.
#[verifier::loop_isolation(false)]
fn dec_packets(j: &Json) -> (r: Option<Vec<Packet>>)
    ensures
        match r {
            Some(ps) => {
                &&& match j@ {
                    JsonV::Arr(es) => spec_dec_packets_rec(es, 0) == Some(ps@),
                    _ => false,
                }
                &&& forall|k: int| 0 <= k < ps@.len() ==> (#[trigger] ps@[k]).wf()
            },
            None => match j@ {
                JsonV::Arr(es) => spec_dec_packets_rec(es, 0) is None,
                _ => true,
            },
        },
{
    match j {
        Json::Arr(es) => {
            proof {
                crate::json::lemma_json_view_elems_index(es@);
            }
            let ghost ves = crate::json::json_view_elems(es@);
            let mut out: Vec<Packet> = Vec::new();
            let mut i: usize = 0;
            while i < es.len()
                invariant
                    0 <= i <= es@.len(),
                    ves == crate::json::json_view_elems(es@),
                    ves.len() == es@.len(),
                    forall|k: int|
                        0 <= k < es@.len() ==> #[trigger] ves[k] == crate::json::json_view(
                            es@[k],
                        ),
                    out@.len() == i,
                    forall|k: int| 0 <= k < i ==> (#[trigger] out@[k]).wf(),
                    spec_dec_packets_rec(ves, 0) == (match spec_dec_packets_rec(ves, i as int) {
                        Some(rest) => Some(out@ + rest),
                        None => None::<Seq<Packet>>,
                    }),
                decreases es@.len() - i,
            {
                match dec_packet(&es[i]) {
                    Some(p) => {
                        let ghost prev = out@;
                        out.push(p);
                        proof {
                            assert(prev + (seq![p] + spec_dec_packets_rec(ves, i + 1)->0)
                                =~= out@ + spec_dec_packets_rec(ves, i + 1)->0) by {
                                if spec_dec_packets_rec(ves, i + 1) is Some {
                                }
                            }
                        }
                    },
                    None => {
                        return None;
                    },
                }
                i = i + 1;
            }
            proof {
                assert(out@ + Seq::<Packet>::empty() =~= out@);
            }
            Some(out)
        },
        _ => None,
    }
}

/// Whether every member key belongs to the flow identifier schema.
#[verifier::loop_isolation(false)]
fn flow_id_keys_allowed(ms: &Vec<(Vec<char>, Json)>) -> (r: bool)
    ensures
        r == spec_flow_id_keys_allowed(crate::json::json_view_members(ms@)),
{
    proof {
        crate::json::lemma_json_view_members_index(ms@);
    }
    let ghost vms = crate::json::json_view_members(ms@);
    let mut i: usize = 0;
    while i < ms.len()
        invariant
            0 <= i <= ms@.len(),
            forall|t: int| 0 <= t < i ==> spec_flow_id_key((#[trigger] vms[t]).0),
        decreases ms@.len() - i,
    {
        let k = &ms[i].0;
        if !(chars_eq(k, &crate::text::str_chars("src")) || chars_eq(
            k,
            &crate::text::str_chars("src_port"),
        ) || chars_eq(k, &crate::text::str_chars("dst")) || chars_eq(
            k,
            &crate::text::str_chars("dst_port"),
        ) || chars_eq(k, &crate::text::str_chars("transport_protocol"))) {
            proof {
                assert(!spec_flow_id_key(vms[i as int].0));
            }
            return false;
        }
        i = i + 1;
    }
    true
}

/// Decode a persisted flow identifier object.
fn dec_flow_id(j: &Json) -> (r: Option<FlowId>)
    ensures
        r == spec_dec_flow_id(j@),
{
    match j {
        Json::Obj(ms) => {
            proof {
                crate::json::lemma_json_view_members_index(ms@);
            }
            if !keys_unique(ms) || !flow_id_keys_allowed(ms) {
                return None;
            }
            let src = match obj_lookup(ms, "src") {
                Some(v) => match v {
                    Json::Str(t) => match crate::ip::parse_ip(t) {
                        Some(ip) => ip,
                        None => {
                            return None;
                        },
                    },
                    _ => {
                        return None;
                    },
                },
                None => {
                    return None;
                },
            };
            let dst = match obj_lookup(ms, "dst") {
                Some(v) => match v {
                    Json::Str(t) => match crate::ip::parse_ip(t) {
                        Some(ip) => ip,
                        None => {
                            return None;
                        },
                    },
                    _ => {
                        return None;
                    },
                },
                None => {
                    return None;
                },
            };
            match (req_num(ms, "src_port"), req_num(ms, "dst_port"), req_num(
                ms,
                "transport_protocol",
            )) {
                (Some(sp), Some(dp), Some(proto)) => {
                    if sp <= 0xFFFF && dp <= 0xFFFF && proto <= 0xFF {
                        Some(
                            FlowId {
                                src,
                                src_port: sp as u16,
                                dst,
                                dst_port: dp as u16,
                                transport_protocol: proto as u8,
                            },
                        )
                    } else {
                        None
                    }
                },
                _ => None,
            }
        },
        _ => None,
    }
}

/// Whether every member key belongs to the record schema.
#[verifier::loop_isolation(false)]
fn info_keys_allowed(ms: &Vec<(Vec<char>, Json)>) -> (r: bool)
    ensures
        r == spec_info_keys_allowed(crate::json::json_view_members(ms@)),
{
    proof {
        crate::json::lemma_json_view_members_index(ms@);
    }
    let ghost vms = crate::json::json_view_members(ms@);
    let mut i: usize = 0;
    while i < ms.len()
        invariant
            0 <= i <= ms@.len(),
            forall|t: int| 0 <= t < i ==> spec_info_key((#[trigger] vms[t]).0),
        decreases ms@.len() - i,
    {
        let k = &ms[i].0;
        if !(chars_eq(k, &crate::text::str_chars("sni")) || chars_eq(
            k,
            &crate::text::str_chars("backward_packet_list"),
        ) || chars_eq(k, &crate::text::str_chars("forward_packet_list"))) {
            proof {
                assert(!spec_info_key(vms[i as int].0));
            }
            return false;
        }
        i = i + 1;
    }
    true
}

/// Decode a persisted flow record object.
fn dec_info(j: &Json) -> (r: Option<crate::flow_information::FlowInformation>)
    ensures
        match r {
            Some(fi) => spec_dec_info(j@) == Some(fi@) && spec_info_wf(fi@),
            None => spec_dec_info(j@) is None,
        },
{
    match j {
        Json::Obj(ms) => {
            proof {
                crate::json::lemma_json_view_members_index(ms@);
            }
            if !keys_unique(ms) || !info_keys_allowed(ms) {
                return None;
            }
            let sni: Option<String> = match obj_lookup(ms, "sni") {
                Some(v) => match v {
                    Json::Str(t) => Some(crate::text::chars_string(t)),
                    _ => {
                        return None;
                    },
                },
                None => None,
            };
            let backward = match obj_lookup(ms, "backward_packet_list") {
                Some(v) => match v {
                    Json::Arr(_) => match dec_packets(v) {
                        Some(ps) => ps,
                        None => {
                            return None;
                        },
                    },
                    _ => {
                        return None;
                    },
                },
                None => {
                    return None;
                },
            };
            let forward = match obj_lookup(ms, "forward_packet_list") {
                Some(v) => match v {
                    Json::Arr(_) => match dec_packets(v) {
                        Some(ps) => ps,
                        None => {
                            return None;
                        },
                    },
                    _ => {
                        return None;
                    },
                },
                None => {
                    return None;
                },
            };
            let fi = crate::flow_information::FlowInformation {
                sni,
                backward_packet_list: backward,
                forward_packet_list: forward,
            };
            proof {
                assert(spec_dec_info(j@) == Some(fi@));
            }
            Some(fi)
        },
        _ => None,
    }
}

/// Decode the persisted pair list.
#[verifier::loop_isolation(false)]
fn dec_pairs(es: &Vec<Json>) -> (r: Option<
    Vec<(FlowId, crate::flow_information::FlowInformation)>,
>)
    ensures
        match r {
            Some(pairs) => spec_dec_pairs_rec(crate::json::json_view_elems(es@), 0) == Some(
                spec_pairs_view(pairs@),
            ) && spec_pairs_wf(spec_pairs_view(pairs@)),
            None => spec_dec_pairs_rec(crate::json::json_view_elems(es@), 0) is None,
        },
{
    proof {
        crate::json::lemma_json_view_elems_index(es@);
    }
    let ghost ves = crate::json::json_view_elems(es@);
    let mut out: Vec<(FlowId, crate::flow_information::FlowInformation)> = Vec::new();
    let mut i: usize = 0;
    while i < es.len()
        invariant
            0 <= i <= es@.len(),
            out@.len() == i,
            spec_pairs_wf(spec_pairs_view(out@)),
            spec_dec_pairs_rec(ves, 0) == (match spec_dec_pairs_rec(ves, i as int) {
                Some(rest) => Some(spec_pairs_view(out@) + rest),
                None => None::<Seq<(FlowId, FlowInformationView)>>,
            }),
        decreases es@.len() - i,
    {
        match &es[i] {
            Json::Arr(kv) => {
                proof {
                    crate::json::lemma_json_view_elems_index(kv@);
                }
                if kv.len() != 2 {
                    return None;
                }
                let k = match dec_flow_id(&kv[0]) {
                    Some(k) => k,
                    None => {
                        return None;
                    },
                };
                let v = match dec_info(&kv[1]) {
                    Some(v) => v,
                    None => {
                        return None;
                    },
                };
                let ghost prev = spec_pairs_view(out@);
                let ghost vview = v@;
                out.push((k, v));
                proof {
                    assert(spec_pairs_view(out@) =~= prev.push((k, vview)));
                    assert(prev + (seq![(k, vview)] + spec_dec_pairs_rec(ves, i + 1)->0)
                        =~= spec_pairs_view(out@) + spec_dec_pairs_rec(ves, i + 1)->0) by {
                        if spec_dec_pairs_rec(ves, i + 1) is Some {
                        }
                    }
                }
            },
            _ => {
                return None;
            },
        }
        i = i + 1;
    }
    proof {
        assert(spec_pairs_view(out@) + Seq::<(FlowId, FlowInformationView)>::empty()
            =~= spec_pairs_view(out@));
    }
    Some(out)
}

/// Whether every member key belongs to the document schema.
#[verifier::loop_isolation(false)]
fn doc_keys_allowed(ms: &Vec<(Vec<char>, Json)>) -> (r: bool)
    ensures
        r == spec_doc_keys_allowed(crate::json::json_view_members(ms@)),
{
    proof {
        crate::json::lemma_json_view_members_index(ms@);
    }
    let ghost vms = crate::json::json_view_members(ms@);
    let mut i: usize = 0;
    while i < ms.len()
        invariant
            0 <= i <= ms@.len(),
            forall|t: int| 0 <= t < i ==> spec_doc_key((#[trigger] vms[t]).0),
        decreases ms@.len() - i,
    {
        if !chars_eq(&ms[i].0, &crate::text::str_chars("flow_map")) {
            proof {
                assert(!spec_doc_key(vms[i as int].0));
            }
            return false;
        }
        i = i + 1;
    }
    true
}

/// Decode a persisted table document.
pub fn dec_generator(j: &Json) -> (r: Option<
    Vec<(FlowId, crate::flow_information::FlowInformation)>,
>)
    ensures
        match r {
            Some(pairs) => spec_dec_generator(j@) == Some(spec_pairs_view(pairs@))
                && spec_pairs_wf(spec_pairs_view(pairs@)),
            None => spec_dec_generator(j@) is None,
        },
{
    match j {
        Json::Obj(ms) => {
            proof {
                crate::json::lemma_json_view_members_index(ms@);
            }
            if !keys_unique(ms) || !doc_keys_allowed(ms) {
                return None;
            }
            match obj_lookup(ms, "flow_map") {
                Some(v) => match v {
                    Json::Arr(es) => dec_pairs(es),
                    _ => None,
                },
                None => None,
            }
        },
        _ => None,
    }
}

} // verus!
