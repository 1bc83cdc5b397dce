use flowgen::error::FlowError;
use flowgen::flow_id::FlowId;
use flowgen::ip::{format_ip, parse_ip, IpAddress, Ipv4Address};

fn build_local_flow_id() -> FlowId {
    FlowId::new(
        17, // UDP
        "127.0.0.1",
        "192.168.0.1",
        8001,
        8002,
    )
    .unwrap()
}

fn v4(o0: u8, o1: u8, o2: u8, o3: u8) -> IpAddress {
    IpAddress::V4(Ipv4Address { o0, o1, o2, o3 })
}

#[test]
fn flow_id_test_default() {
    let default = FlowId::default();
    assert_eq!(default.transport_protocol, 0);
    assert_eq!(default.src, v4(0, 0, 0, 0));
    assert_eq!(default.dst, v4(0, 0, 0, 0));
    assert_eq!(default.src_port, 0);
    assert_eq!(default.dst_port, 0);
}

#[test]
fn test_local_new() {
    let new = build_local_flow_id();
    assert_eq!(new.transport_protocol, 17);
    assert_eq!(new.src, v4(127, 0, 0, 1));
    assert_eq!(new.dst, v4(192, 168, 0, 1));
    assert_eq!(new.src_port, 8001);
    assert_eq!(new.dst_port, 8002);
}

#[test]
fn test_bad_src_new() {
    let r = FlowId::new(
        17, // UDP
        "bad",
        "192.168.0.1",
        8001,
        8002,
    );
    assert_eq!(r.unwrap_err(), FlowError::InvalidAddress);
}

#[test]
fn test_bad_dst_new() {
    let r = FlowId::new(
        17, // UDP
        "127.0.0.1",
        "192.168.0.KK",
        8001,
        8002,
    );
    assert_eq!(r.unwrap_err(), FlowError::InvalidAddress);
}

#[test]
fn test_forward_eq() {
    let flow1 = build_local_flow_id();
    // the same
    let flow2 = build_local_flow_id();
    assert_eq!(flow1, flow2)
}

#[test]
fn test_backward_eq() {
    let flow1 = build_local_flow_id();
    // the reverse
    let flow2 = FlowId::new(
        17, // UDP
        "192.168.0.1",
        "127.0.0.1",
        8002,
        8001,
    )
    .unwrap();
    assert_eq!(flow1, flow2)
}

#[test]
fn test_forward_hash() {
    let flow1 = build_local_flow_id();
    // the same
    let flow2 = build_local_flow_id();
    assert_eq!(flow1.hash(), flow2.hash());
}

#[test]
fn test_backward_hash() {
    let flow1 = build_local_flow_id();
    // the reverse
    let flow2 = FlowId::new(
        17, // UDP
        "192.168.0.1",
        "127.0.0.1",
        8002,
        8001,
    )
    .unwrap();
    assert_eq!(flow1.hash(), flow2.hash());
}

#[test]
fn test_display() {
    let flow = build_local_flow_id();
    assert_eq!(flow.to_text(), "127.0.0.1-192.168.0.1-8001-8002-17")
}

// Identifiers differing only in transport protocol never name the same
// flow, with the endpoints matching directly or reversed.
#[test]
fn test_protocol_distinguishes() {
    let udp = build_local_flow_id();
    let tcp = FlowId::new(6, "127.0.0.1", "192.168.0.1", 8001, 8002).unwrap();
    let tcp_reversed = FlowId::new(6, "192.168.0.1", "127.0.0.1", 8002, 8001).unwrap();
    assert_ne!(udp, tcp);
    assert_ne!(udp, tcp_reversed);
}

// IPv6 endpoints get the same symmetric treatment as IPv4 ones.
#[test]
fn test_v6_swap_eq_and_hash() {
    let a = FlowId::new(6, "2a01:cb06:a02d:8571:4706:7df1:bd62:5169", "64:ff9b::9df0:1523", 44146, 443)
        .unwrap();
    let b = FlowId::new(6, "64:ff9b::9df0:1523", "2a01:cb06:a02d:8571:4706:7df1:bd62:5169", 443, 44146)
        .unwrap();
    assert_eq!(a, b);
    assert_eq!(a.hash(), b.hash());
}

// Address texts round-trip through the canonical formatter and parser.
#[test]
fn test_ip_format_parse() {
    let a = parse_ip(&"10.216.28.97".chars().collect()).unwrap();
    assert_eq!(a, v4(10, 216, 28, 97));
    let text: String = format_ip(&a).into_iter().collect();
    assert_eq!(text, "10.216.28.97");

    let b = parse_ip(&"2a00:1450:4007:810::2004".chars().collect()).unwrap();
    let text_b: String = format_ip(&b).into_iter().collect();
    // the canonical text of this library never compresses with a double colon
    assert_eq!(text_b, "2a00:1450:4007:810:0:0:0:2004");
    let b2 = parse_ip(&text_b.chars().collect()).unwrap();
    assert_eq!(b, b2);

    assert!(parse_ip(&"256.0.0.1".chars().collect()).is_none());
    assert!(parse_ip(&"01.2.3.4".chars().collect()).is_none());
    assert!(parse_ip(&"1:2:3".chars().collect()).is_none());
    assert!(parse_ip(&"1::2::3".chars().collect()).is_none());
}

// The error names are stable, for reporting.
#[test]
fn test_error_describe() {
    assert_eq!(FlowError::InvalidAddress.describe(), "invalid address");
    assert_eq!(
        FlowError::MalformedPersistedState.describe(),
        "malformed persisted state"
    );
}

// IPv6 texts with an embedded dotted-quad tail are accepted.
#[test]
fn test_v6_embedded_v4() {
    let mapped = parse_ip(&"::ffff:192.0.2.1".chars().collect()).unwrap();
    match mapped {
        IpAddress::V6(a) => {
            assert_eq!(
                (a.s0, a.s1, a.s2, a.s3, a.s4, a.s5, a.s6, a.s7),
                (0, 0, 0, 0, 0, 0xffff, 0xc000, 0x0201)
            );
        }
        IpAddress::V4(_) => panic!("expected a V6 address"),
    }

    let full = parse_ip(&"64:ff9b:0:0:0:0:192.0.2.33".chars().collect()).unwrap();
    match full {
        IpAddress::V6(a) => {
            assert_eq!(a.s0, 0x64);
            assert_eq!(a.s1, 0xff9b);
            assert_eq!(a.s6, 0xc000);
            assert_eq!(a.s7, 0x0221);
        }
        IpAddress::V4(_) => panic!("expected a V6 address"),
    }

    // the tail must be last, well formed, and leave room
    assert!(parse_ip(&"::1.2.3.4:5".chars().collect()).is_none());
    assert!(parse_ip(&"1:2:3:4:5:6:7:1.2.3.4".chars().collect()).is_none());
    assert!(parse_ip(&"::256.0.0.1".chars().collect()).is_none());
}
