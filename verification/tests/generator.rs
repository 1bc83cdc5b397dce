use flowgen::flag::{Flag, FlagSet};
use flowgen::flow_id::FlowId;
use flowgen::flow_information::FlowInformation;
use flowgen::generator::Generator;
use flowgen::packet::Packet;
use flowgen::time::Timestamp;

fn remove_whitespace(s: &str) -> String {
    s.split_whitespace().collect()
}

fn basic_flow_map() -> &'static str {
    return r#"
{
  "flow_map": [
    [
      {
        "src": "127.0.0.1",
        "src_port": 8001,
        "dst": "192.168.0.1",
        "dst_port": 8002,
        "transport_protocol": 17
      },
      {
        "backward_packet_list": [],
        "forward_packet_list": []
      }
    ]
  ]
}
"#;
}

fn complete_flow_map() -> &'static str {
    return r#"
{
  "flow_map": [
    [
      {
        "src": "10.216.31.192",
        "src_port": 0,
        "dst": "10.15.194.132",
        "dst_port": 0,
        "transport_protocol": 132
      },
      {
        "sni": "www.google.com",
        "backward_packet_list": [],
        "forward_packet_list": [
          {
            "length": 0,
            "window": 0,
            "timestamp": {
              "secs": 1595324876,
              "nanos": 73920000
            },
            "flag_list": [],
            "network_protocol": 2048,
            "network_header_length": 5,
            "network_payload_length": 0,
            "position": 1
          }
        ]
      }
    ],
    [
      {
        "src": "2a01:cb06:a02d:8571:4706:7df1:bd62:5169",
        "src_port": 42254,
        "dst": "2a00:1450:4007:810::2004",
        "dst_port": 443,
        "transport_protocol": 6
      },
      {
        "sni": "mtalk.google.com",
        "backward_packet_list": [
          {
            "length": 218,
            "timestamp": {
              "secs": 1595324883,
              "nanos": 969259000
            },
            "flag_list": [
              "ACK"
            ],
            "network_protocol": 34525,
            "position": 182
          },
          {
            "length": 882,
            "window": 3222,
            "timestamp": {
              "secs": 1595324884,
              "nanos": 248056000
            },
            "flag_list": [
              "ACK"
            ],
            "network_protocol": 34525,
            "position": 196
          }
        ],
        "forward_packet_list": [
          {
            "length": 558,
            "window": 28,
            "timestamp": {
              "secs": 1595324883,
              "nanos": 910142000
            },
            "flag_list": [
              "ACK"
            ],
            "network_protocol": 34525,
            "position": 178
          },
          {
            "length": 64,
            "window": 38,
              "timestamp": {
              "secs": 1595324884,
              "nanos": 36342000
            },
            "flag_list": [
              "ACK"
            ],
            "network_protocol": 34525,
            "network_header_length": 5,
            "network_payload_length": 104,
            "position": 189
          },
          {
            "length": 234,
            "window": 22240,
            "timestamp": {
              "secs": 1595324884,
              "nanos": 158344000
            },
            "flag_list": [
              "ACK", "CWR","ECE"
            ],
            "network_protocol": 34525,
            "position": 194
          }
        ]
      }
    ]
  ]
}
"#;
}

fn empty_flow_map() -> &'static str {
    return r#"
{"flow_map":[]}
"#;
}

fn bad_flow_map_with_packet_list() -> &'static str {
    return r#"
[
    {
      "packet_list": [],
      "backward_packet_list": [],
      "dst": "10.15.194.131",
      "dst_port": 80,
      "sni": "mtalk.google.com",
      "forward_packet_list": [],
      "src": "10.216.31.191",
      "src_port": 8080,
      "transport_protocol": 17
    }
]
"#;
}

fn ack_flags() -> FlagSet {
    let mut flags = FlagSet::empty();
    flags.insert(Flag::ACK);
    flags
}

fn create_generator_with_complete_flow() -> Generator {
    let mut generator = Generator::new();

    let flow_id_1 = FlowId::new(132, "10.216.31.192", "10.15.194.132", 0, 0).unwrap();
    let mut flow_information_1 = FlowInformation::new();
    flow_information_1.sni = Some("www.google.com".to_string());
    flow_information_1.forward_packet_list.push(Packet {
        length: 0,
        window: Some(0),
        timestamp: Timestamp::new(1595324876, 73920000),
        flag_list: FlagSet::empty(),
        network_protocol: 2048,
        network_payload_length: Some(0),
        network_header_length: Some(5),
        position: 1,
    });
    generator.add(flow_id_1, flow_information_1);

    let flow_id_2 = FlowId::new(
        6,
        "2a01:cb06:a02d:8571:4706:7df1:bd62:5169",
        "2a00:1450:4007:810::2004",
        42254,
        443,
    )
    .unwrap();
    let mut flow_information_2 = FlowInformation::new();
    flow_information_2.sni = Some("mtalk.google.com".to_string());
    let mut flag_list = ack_flags();
    flow_information_2.backward_packet_list.push(Packet {
        length: 218,
        window: None,
        timestamp: Timestamp::new(1595324883, 969259000),
        flag_list,
        network_protocol: 34525,
        network_payload_length: None,
        network_header_length: None,
        position: 182,
    });
    flow_information_2.backward_packet_list.push(Packet {
        length: 882,
        window: Some(3222),
        timestamp: Timestamp::new(1595324884, 248056000),
        flag_list,
        network_protocol: 34525,
        network_payload_length: None,
        network_header_length: None,
        position: 196,
    });
    flow_information_2.forward_packet_list.push(Packet {
        length: 558,
        window: Some(28),
        timestamp: Timestamp::new(1595324883, 910142000),
        flag_list,
        network_protocol: 34525,
        network_payload_length: None,
        network_header_length: None,
        position: 178,
    });
    flow_information_2.forward_packet_list.push(Packet {
        length: 64,
        window: Some(38),
        timestamp: Timestamp::new(1595324884, 36342000),
        flag_list,
        network_protocol: 34525,
        network_payload_length: Some(104),
        network_header_length: Some(5),
        position: 189,
    });
    flag_list.insert(Flag::CWR);
    flag_list.insert(Flag::ECE);
    flow_information_2.forward_packet_list.push(Packet {
        length: 234,
        window: Some(22240),
        timestamp: Timestamp::new(1595324884, 158344000),
        flag_list,
        network_protocol: 34525,
        network_payload_length: None,
        network_header_length: None,
        position: 194,
    });
    generator.add(flow_id_2, flow_information_2);
    generator
}

#[test]
fn it_can_read_a_basic_flow_map() {
    let generator = Generator::load(basic_flow_map()).unwrap();

    assert_eq!(generator.len(), 1);
    let key = FlowId::new(17, "127.0.0.1", "192.168.0.1", 8001, 8002).unwrap();
    let flow_information = generator.get(&key).unwrap();
    assert!(flow_information.forward_packet_list.is_empty());
    assert!(flow_information.backward_packet_list.is_empty());
}

#[test]
fn it_can_read_a_complete_flow_map() {
    let generator = Generator::load(complete_flow_map()).unwrap();

    assert_eq!(generator.len(), 2);

    let mut flow_information = generator
        .get(&FlowId::new(132, "10.216.31.192", "10.15.194.132", 0, 0).unwrap())
        .unwrap();
    assert_eq!(flow_information.sni, Some("www.google.com".to_string()));
    assert_eq!(flow_information.backward_packet_list.len(), 0);
    assert_eq!(flow_information.forward_packet_list.len(), 1);
    let packet = flow_information.forward_packet_list.get(0).unwrap();
    assert_eq!(packet.length, 0);
    assert_eq!(packet.window, Some(0));
    assert_eq!(packet.timestamp, Timestamp::new(1595324876, 73920000));
    assert_eq!(packet.flag_list, FlagSet::empty());
    assert_eq!(packet.network_protocol, 2048);
    assert_eq!(packet.network_header_length, Some(5));
    assert_eq!(packet.position, 1);

    flow_information = generator
        .get(
            &FlowId::new(
                6,
                "2a01:cb06:a02d:8571:4706:7df1:bd62:5169",
                "2a00:1450:4007:810::2004",
                42254,
                443,
            )
            .unwrap(),
        )
        .unwrap();

    assert_eq!(flow_information.sni, Some("mtalk.google.com".to_string()));
    assert_eq!(flow_information.backward_packet_list.len(), 2);
    let mut packet = flow_information.backward_packet_list.get(1).unwrap();
    assert_eq!(packet.length, 882);
    assert_eq!(packet.window, Some(3222));
    assert_eq!(packet.timestamp, Timestamp::new(1595324884, 248056000));
    let mut flag_list = ack_flags();
    assert_eq!(packet.flag_list, flag_list);
    assert_eq!(packet.network_protocol, 34525);
    assert_eq!(packet.network_header_length, None);
    assert_eq!(packet.position, 196);

    assert_eq!(flow_information.forward_packet_list.len(), 3);
    packet = flow_information.forward_packet_list.get(2).unwrap();
    assert_eq!(packet.length, 234);
    assert_eq!(packet.window, Some(22240));
    assert_eq!(packet.timestamp, Timestamp::new(1595324884, 158344000));
    flag_list.insert(Flag::CWR);
    flag_list.insert(Flag::ECE);
    assert_eq!(packet.flag_list, flag_list);
    assert_eq!(packet.network_protocol, 34525);
    assert_eq!(packet.network_header_length, None);
    assert_eq!(packet.position, 194);
}

#[test]
fn it_can_write_a_basic_flow_map() {
    let mut generator = Generator::new();
    let flow_id = FlowId::new(
        17, // UDP
        "127.0.0.1",
        "192.168.0.1",
        8001,
        8002,
    )
    .unwrap();
    generator.add(flow_id, FlowInformation::new());

    let saved = generator.save();

    assert_eq!(remove_whitespace(basic_flow_map()), remove_whitespace(&saved));
}

#[test]
fn it_can_write_an_empty_flow_map() {
    let generator = Generator::new();

    let saved = generator.save();

    assert_eq!(remove_whitespace(empty_flow_map()), remove_whitespace(&saved));
}

#[test]
fn it_should_panic_when_read_a_flow_path_with_packet_list() {
    let r = Generator::load(bad_flow_map_with_packet_list());
    assert!(r.is_err());
}

#[test]
fn it_can_browse_a_complete_flow_map() {
    let generator = create_generator_with_complete_flow();

    assert_eq!(generator.len(), 2);

    let expected_flow_id_1 = FlowId::new(132, "10.216.31.192", "10.15.194.132", 0, 0).unwrap();
    let expected_flow_id_2 = FlowId::new(
        6,
        "2a01:cb06:a02d:8571:4706:7df1:bd62:5169",
        "2a00:1450:4007:810::2004",
        42254,
        443,
    )
    .unwrap();
    let mut n = 0;
    for pair in generator.pairs().iter() {
        assert!(pair.0 == expected_flow_id_1 || pair.0 == expected_flow_id_2);
        n += 1;
    }
    assert_eq!(n, 2);
}

// Saving and loading a table yields the same set of flows and records; the
// hint, the packet lists and every optional field survive the trip.
#[test]
fn test_save_load_round_trip() {
    let generator = create_generator_with_complete_flow();
    let saved = generator.save();
    let loaded = Generator::load(&saved).unwrap();

    assert_eq!(loaded.len(), generator.len());
    for pair in generator.pairs().iter() {
        let (flow_id, flow_information) = (&pair.0, &pair.1);
        let loaded_information = loaded.get(flow_id).unwrap();
        assert_eq!(loaded_information.sni, flow_information.sni);
        assert_eq!(
            loaded_information.forward_packet_list.len(),
            flow_information.forward_packet_list.len()
        );
        for (a, b) in loaded_information
            .forward_packet_list
            .iter()
            .zip(flow_information.forward_packet_list.iter())
        {
            assert_eq!(a.length, b.length);
            assert_eq!(a.window, b.window);
            assert_eq!(a.timestamp, b.timestamp);
            assert_eq!(a.flag_list, b.flag_list);
            assert_eq!(a.network_protocol, b.network_protocol);
            assert_eq!(a.network_header_length, b.network_header_length);
            assert_eq!(a.network_payload_length, b.network_payload_length);
            assert_eq!(a.position, b.position);
        }
        assert_eq!(
            loaded_information.backward_packet_list.len(),
            flow_information.backward_packet_list.len()
        );
    }
}

// A loaded hint decodes string escapes.
#[test]
fn test_escaped_sni() {
    let text = r#"{"flow_map":[[
      {"src":"1.2.3.4","src_port":1,"dst":"5.6.7.8","dst_port":2,"transport_protocol":6},
      {"sni":"AB\n","backward_packet_list":[],"forward_packet_list":[]}
    ]]}"#;
    let generator = Generator::load(text).unwrap();
    let key = FlowId::new(6, "1.2.3.4", "5.6.7.8", 1, 2).unwrap();
    let information = generator.get(&key).unwrap();
    assert_eq!(information.sni, Some("AB\n".to_string()));

    // and the escaping round-trips through save
    let saved = generator.save();
    let reloaded = Generator::load(&saved).unwrap();
    assert_eq!(
        reloaded.get(&key).unwrap().sni,
        Some("AB\n".to_string())
    );
}

// Two entries for the two orientations of one flow are a duplicate key.
#[test]
fn test_duplicate_flow_key_rejected() {
    let text = r#"{"flow_map":[
      [{"src":"1.2.3.4","src_port":1,"dst":"5.6.7.8","dst_port":2,"transport_protocol":6},
       {"backward_packet_list":[],"forward_packet_list":[]}],
      [{"src":"5.6.7.8","src_port":2,"dst":"1.2.3.4","dst_port":1,"transport_protocol":6},
       {"backward_packet_list":[],"forward_packet_list":[]}]
    ]}"#;
    assert!(Generator::load(text).is_err());
}

// A structural mismatch in a field's type fails the whole load.
#[test]
fn test_wrong_field_type_rejected() {
    let text = r#"{"flow_map":[[
      {"src":"1.2.3.4","src_port":"1","dst":"5.6.7.8","dst_port":2,"transport_protocol":6},
      {"backward_packet_list":[],"forward_packet_list":[]}
    ]]}"#;
    assert!(Generator::load(text).is_err());
}

// An out-of-range numeric field fails the whole load.
#[test]
fn test_out_of_range_field_rejected() {
    let text = r#"{"flow_map":[[
      {"src":"1.2.3.4","src_port":1,"dst":"5.6.7.8","dst_port":2,"transport_protocol":42424242424242424242},
      {"backward_packet_list":[],"forward_packet_list":[]}
    ]]}"#;
    assert!(Generator::load(text).is_err());
}

// Adding a record under the other orientation of an existing flow replaces
// that flow's record instead of growing the table.
#[test]
fn test_add_replaces_either_orientation() {
    let mut generator = Generator::new();
    let forward = FlowId::new(6, "1.2.3.4", "5.6.7.8", 10, 20).unwrap();
    let backward = FlowId::new(6, "5.6.7.8", "1.2.3.4", 20, 10).unwrap();

    let mut with_hint = FlowInformation::new();
    with_hint.sni = Some("example.test".to_string());

    generator.add(forward, FlowInformation::new());
    generator.add(backward, with_hint);

    assert_eq!(generator.len(), 1);
    assert_eq!(
        generator.get(&forward).unwrap().sni,
        Some("example.test".to_string())
    );
}

// A record fetched mutably can be updated in place, under either
// orientation of the key.
#[test]
fn test_get_mut_updates_in_place() {
    let mut generator = Generator::new();
    let forward = FlowId::new(6, "1.2.3.4", "5.6.7.8", 10, 20).unwrap();
    let backward = FlowId::new(6, "5.6.7.8", "1.2.3.4", 20, 10).unwrap();
    generator.add(forward, FlowInformation::new());

    assert!(generator.get_mut(&FlowId::new(6, "9.9.9.9", "5.6.7.8", 1, 2).unwrap()).is_none());

    let record = generator.get_mut(&backward).unwrap();
    record.sni = Some("updated.test".to_string());
    assert_eq!(generator.len(), 1);
    assert_eq!(
        generator.get(&forward).unwrap().sni,
        Some("updated.test".to_string())
    );
}

// Looking a flow up or creating it gives a fresh empty record exactly once.
#[test]
fn test_get_or_create() {
    let mut generator = Generator::new();
    let forward = FlowId::new(6, "1.2.3.4", "5.6.7.8", 10, 20).unwrap();
    let backward = FlowId::new(6, "5.6.7.8", "1.2.3.4", 20, 10).unwrap();

    let record = generator.get_or_create(forward);
    assert!(record.sni.is_none());
    record.sni = Some("first.test".to_string());
    assert_eq!(generator.len(), 1);

    let again = generator.get_or_create(backward);
    assert_eq!(again.sni, Some("first.test".to_string()));
    assert_eq!(generator.len(), 1);
}

// Fields of a persisted object are accepted in any order.
#[test]
fn test_reordered_fields_accepted() {
    let text = r#"{"flow_map":[[
      {"transport_protocol":17,"dst_port":8002,"dst":"192.168.0.1","src_port":8001,"src":"127.0.0.1"},
      {"forward_packet_list":[{
          "position":28456,
          "network_protocol":34525,
          "flag_list":[],
          "timestamp":{"nanos":502092000,"secs":1595325117},
          "window":7,
          "length":66
      }],"backward_packet_list":[],"sni":"example.test"}
    ]]}"#;
    let generator = Generator::load(text).unwrap();
    let key = FlowId::new(17, "127.0.0.1", "192.168.0.1", 8001, 8002).unwrap();
    let information = generator.get(&key).unwrap();
    assert_eq!(information.sni, Some("example.test".to_string()));
    let packet = &information.forward_packet_list[0];
    assert_eq!(packet.length, 66);
    assert_eq!(packet.window, Some(7));
    assert_eq!(packet.timestamp, Timestamp::new(1595325117, 502092000));
    assert_eq!(packet.position, 28456);
}

// A duplicate field is a structural mismatch.
#[test]
fn test_duplicate_field_rejected() {
    let text = r#"{"flow_map":[[
      {"src":"1.2.3.4","src_port":1,"src_port":1,"dst":"5.6.7.8","dst_port":2,"transport_protocol":6},
      {"backward_packet_list":[],"forward_packet_list":[]}
    ]]}"#;
    assert!(Generator::load(text).is_err());
}

// An overlong nanosecond count is normalized into the seconds.
#[test]
fn test_nanos_normalized_on_load() {
    let text = r#"{"flow_map":[[
      {"src":"1.2.3.4","src_port":1,"dst":"5.6.7.8","dst_port":2,"transport_protocol":6},
      {"backward_packet_list":[],"forward_packet_list":[{
          "length":1,
          "timestamp":{"secs":10,"nanos":2500000000},
          "flag_list":[],
          "network_protocol":2048,
          "position":0
      }]}
    ]]}"#;
    let generator = Generator::load(text).unwrap();
    let key = FlowId::new(6, "1.2.3.4", "5.6.7.8", 1, 2).unwrap();
    let packet = &generator.get(&key).unwrap().forward_packet_list[0];
    assert_eq!(packet.timestamp, Timestamp::new(12, 500000000));
}
