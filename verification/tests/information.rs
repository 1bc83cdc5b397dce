use flowgen::information::Information;
use flowgen::time::Timestamp;

fn build_information() -> Information {
    let mut information = Information::new();
    information.add_packet(100, 34525);
    information.update_timestamp(Timestamp::new(1607509522, 1), Timestamp::new(1607509532, 2));
    information
}

#[test]
fn information_test_default() {
    let default = Information::new();
    assert_eq!(default.nb_packet, 0);
    assert_eq!(default.nb_packet_byte, 0);
    assert!(default.network_protocol.is_empty());
    assert_eq!(default.first_seen_packet, Timestamp::zero());
    assert_eq!(default.last_seen_packet, Timestamp::zero());
}

#[test]
fn information_test_new() {
    let new = Information::new();
    assert_eq!(new.nb_packet, 0);
    assert_eq!(new.nb_packet_byte, 0);
    assert!(new.network_protocol.is_empty());
    assert_eq!(new.first_seen_packet, Timestamp::zero());
    assert_eq!(new.last_seen_packet, Timestamp::zero());
}

#[test]
fn test_add_packet() {
    let mut information = build_information();

    information.add_packet(50, 6);
    assert_eq!(information.nb_packet, 2);
    assert_eq!(information.nb_packet_byte, 150);
    assert_eq!(information.network_protocol.len(), 2);
    assert!(information.network_protocol.contains(&34525));
    assert!(information.network_protocol.contains(&6));
    assert_eq!(information.first_seen_packet, Timestamp::new(1607509522, 1));
    assert_eq!(information.last_seen_packet, Timestamp::new(1607509532, 2));
}

#[test]
fn test_first_seen_default_update_timestamp() {
    let mut information = Information::new();
    information.update_timestamp(Timestamp::new(1607509512, 3), Timestamp::new(1607509527, 4));
    assert_eq!(information.nb_packet, 0);
    assert_eq!(information.nb_packet_byte, 0);
    assert_eq!(information.network_protocol.len(), 0);
    assert_eq!(information.first_seen_packet, Timestamp::new(1607509512, 3));
    assert_eq!(information.last_seen_packet, Timestamp::new(1607509527, 4));
}

#[test]
fn test_first_seen_update_timestamp() {
    let mut information = build_information();
    information.update_timestamp(Timestamp::new(1607509512, 3), Timestamp::new(1607509527, 4));
    assert_eq!(information.nb_packet, 1);
    assert_eq!(information.nb_packet_byte, 100);
    assert_eq!(information.network_protocol.len(), 1);
    assert_eq!(information.network_protocol.first(), Some(34525).as_ref());
    assert_eq!(information.first_seen_packet, Timestamp::new(1607509512, 3));
    assert_eq!(information.last_seen_packet, Timestamp::new(1607509532, 2));
}

#[test]
fn test_last_seen_update_timestamp() {
    let mut information = build_information();
    information.update_timestamp(Timestamp::new(1607509527, 3), Timestamp::new(1607509542, 4));
    assert_eq!(information.nb_packet, 1);
    assert_eq!(information.nb_packet_byte, 100);
    assert_eq!(information.network_protocol.len(), 1);
    assert_eq!(information.network_protocol.first(), Some(34525).as_ref());
    assert_eq!(information.first_seen_packet, Timestamp::new(1607509522, 1));
    assert_eq!(information.last_seen_packet, Timestamp::new(1607509542, 4));
}

#[test]
fn test_both_update_timestamp() {
    let mut information = build_information();
    information.update_timestamp(Timestamp::new(1607509512, 3), Timestamp::new(1607509542, 4));
    assert_eq!(information.nb_packet, 1);
    assert_eq!(information.nb_packet_byte, 100);
    assert_eq!(information.network_protocol.len(), 1);
    assert_eq!(information.network_protocol.first(), Some(34525).as_ref());
    assert_eq!(information.first_seen_packet, Timestamp::new(1607509512, 3));
    assert_eq!(information.last_seen_packet, Timestamp::new(1607509542, 4));
}

// The bounds rule of the spec: an earlier first-seen moves the lower bound, a
// timestamp inside the known range changes nothing, a later last-seen moves
// the upper bound.
#[test]
fn test_update_bounds_rule() {
    let mut information = Information::new();
    information.update_timestamp(Timestamp::new(100, 0), Timestamp::new(200, 0));
    assert_eq!(information.first_seen_packet, Timestamp::new(100, 0));
    assert_eq!(information.last_seen_packet, Timestamp::new(200, 0));

    // t earlier than first_seen updates the lower bound.
    information.update_timestamp(Timestamp::new(50, 0), Timestamp::new(50, 0));
    assert_eq!(information.first_seen_packet, Timestamp::new(50, 0));
    assert_eq!(information.last_seen_packet, Timestamp::new(200, 0));

    // t strictly inside (first_seen, last_seen) changes neither bound.
    information.update_timestamp(Timestamp::new(120, 0), Timestamp::new(120, 0));
    assert_eq!(information.first_seen_packet, Timestamp::new(50, 0));
    assert_eq!(information.last_seen_packet, Timestamp::new(200, 0));

    // t later than last_seen updates the upper bound.
    information.update_timestamp(Timestamp::new(300, 0), Timestamp::new(300, 0));
    assert_eq!(information.first_seen_packet, Timestamp::new(50, 0));
    assert_eq!(information.last_seen_packet, Timestamp::new(300, 0));
}
