use flowgen::active::{ActivityTracker, Burst};
use flowgen::flag::FlagSet;
use flowgen::flow::{Direction, Flow};
use flowgen::flow_information::FlowInformation;
use flowgen::packet::Packet;
use flowgen::time::Timestamp;

fn at(secs: u64) -> Timestamp {
    Timestamp::new(secs, 0)
}

fn packet_at(secs: u64, length: u64, direction_port: u16) -> Packet {
    let mut p = Packet::new();
    p.length = length;
    p.timestamp = at(secs);
    p.network_protocol = 2048;
    p.position = direction_port as u64;
    p
}

#[test]
fn flow_information_test_default() {
    let default = FlowInformation::new();
    assert!(default.sni.is_none());
    assert!(default.backward_packet_list.is_empty());
    assert!(default.forward_packet_list.is_empty());
}

#[test]
fn flow_information_test_new() {
    let new = FlowInformation::new();
    assert!(new.sni.is_none());
    assert!(new.backward_packet_list.is_empty());
    assert!(new.forward_packet_list.is_empty());
}

#[test]
fn packet_test_default() {
    let default = Packet::default();
    assert_eq!(default.length, 0);
    assert_eq!(default.window, None);
    assert_eq!(default.timestamp, Timestamp::zero());
    assert_eq!(default.flag_list, FlagSet::empty());
    assert_eq!(default.network_protocol, 0);
    assert_eq!(default.network_payload_length, None);
    assert_eq!(default.network_header_length, None);
    assert_eq!(default.position, 0);
}

#[test]
fn packet_test_new() {
    let new = Packet::new();
    assert_eq!(new.length, 0);
    assert_eq!(new.window, None);
    assert_eq!(new.timestamp, Timestamp::zero());
    assert_eq!(new.flag_list, FlagSet::empty());
    assert_eq!(new.network_protocol, 0);
    assert_eq!(new.network_payload_length, None);
    assert_eq!(new.network_header_length, None);
    assert_eq!(new.position, 0);
}

#[test]
fn mod_test_new() {
    let flow = Flow::new(15);
    assert!(flow.information.sni.is_none());
    assert!(flow.information.forward_packet_list.is_empty());
    assert!(flow.information.backward_packet_list.is_empty());
    assert_eq!(flow.forward.nb_packet, 0);
    assert_eq!(flow.backward.nb_packet, 0);
    assert_eq!(flow.active.activity_timeout, 15);
    assert!(flow.active.current_burst.is_none());
    assert!(flow.active.burst_durations.is_empty());
    assert!(flow.packet_length.is_empty());
    assert!(flow.iat.is_empty());
    assert!(flow.idle.is_empty());
    assert!(flow.last_seen.is_none());
    assert!(!flow.bidirectional);
    assert_eq!(flow.num_packets, 0);
    assert_eq!(flow.num_bytes, 0);
}

// The tracker scenario with a timeout of five seconds: packets at 0, 1 and 2
// extend a single open burst; a packet at 20 closes it with a duration of two
// seconds and opens a new burst at 20.
#[test]
fn test_tracker_bursts() {
    let mut tracker = ActivityTracker::new(5);
    tracker.observe(at(0));
    tracker.observe(at(1));
    tracker.observe(at(2));
    assert_eq!(
        tracker.current_burst,
        Some(Burst { first_seen: at(0), last_seen: at(2) })
    );
    assert!(tracker.burst_durations.is_empty());

    tracker.observe(at(20));
    assert_eq!(
        tracker.current_burst,
        Some(Burst { first_seen: at(20), last_seen: at(20) })
    );
    // one closed burst of two seconds, recorded in milliseconds
    assert_eq!(tracker.burst_durations, vec![2000]);

    tracker.finalize();
    assert!(tracker.current_burst.is_none());
    assert_eq!(tracker.burst_durations, vec![2000, 0]);
}

// A gap of exactly the timeout still extends the burst; one beyond it closes.
#[test]
fn test_tracker_timeout_edge() {
    let mut tracker = ActivityTracker::new(5);
    tracker.observe(at(0));
    tracker.observe(at(5));
    assert_eq!(
        tracker.current_burst,
        Some(Burst { first_seen: at(0), last_seen: at(5) })
    );
    tracker.observe(Timestamp::new(10, 1));
    assert_eq!(tracker.burst_durations, vec![5000]);
}

#[test]
fn test_ingest() {
    let mut flow = Flow::new(5);
    let p1 = packet_at(10, 100, 1);
    let p2 = packet_at(12, 60, 2);
    let p3 = packet_at(30, 40, 3);

    flow.ingest(&p1, Direction::Forward);
    assert_eq!(flow.information.forward_packet_list.len(), 1);
    assert_eq!(flow.forward.nb_packet, 1);
    assert_eq!(flow.forward.nb_packet_byte, 100);
    assert_eq!(flow.forward.network_protocol, vec![2048]);
    assert_eq!(flow.forward.first_seen_packet, at(10));
    assert_eq!(flow.forward.last_seen_packet, at(10));
    assert!(!flow.bidirectional);
    assert_eq!(flow.num_packets, 1);
    assert_eq!(flow.num_bytes, 100);
    assert_eq!(flow.packet_length, vec![100]);
    assert!(flow.iat.is_empty());

    flow.ingest(&p2, Direction::Backward);
    assert_eq!(flow.information.backward_packet_list.len(), 1);
    assert_eq!(flow.backward.nb_packet, 1);
    assert!(flow.bidirectional);
    assert_eq!(flow.num_packets, 2);
    assert_eq!(flow.num_bytes, 160);
    assert_eq!(flow.packet_length, vec![100, 60]);
    // the gap from 10s to 12s, in milliseconds
    assert_eq!(flow.iat, vec![2000]);
    assert!(flow.idle.is_empty());

    flow.ingest(&p3, Direction::Forward);
    assert_eq!(flow.information.forward_packet_list.len(), 2);
    assert_eq!(flow.iat, vec![2000, 18000]);
    // the 18-second gap exceeded the timeout: an idle period and a closed burst
    assert_eq!(flow.idle, vec![18000]);
    assert_eq!(flow.active.burst_durations, vec![2000]);

    let stats = flow.packet_length_statistic();
    assert_eq!(stats.length, 3);
    assert_eq!(stats.sum, 200);
    assert_eq!(stats.min, Some(40));
    assert_eq!(stats.max, Some(100));

    let iat_stats = flow.iat_statistic();
    assert_eq!(iat_stats.length, 2);
    assert_eq!(iat_stats.sum, 20000);

    flow.finalize();
    assert!(flow.active.current_burst.is_none());
    // the closed bursts: 10..12 (two seconds) and the single packet at 30
    assert_eq!(flow.active.burst_durations, vec![2000, 0]);
    let burst_stats = flow.active.burst_statistic();
    assert_eq!(burst_stats.length, 2);
    assert_eq!(burst_stats.sum, 2000);
}
