use broker::codec::ConnectFields;
use broker::packet::{
    ConnectPacket, PublishPacket, SubackPacket, SubscribePacket, UnsubscribePacket, VariablePacket,
};
use broker::qos::{QoSWithPacketIdentifier, QualityOfService, SubscribeReturnCode};
use broker::topic::{Topic, TopicFilter, TopicName};

fn publish(topic: &str, qos: QoSWithPacketIdentifier, payload: &[u8]) -> PublishPacket {
    PublishPacket::new(TopicName::new(topic).unwrap(), qos, payload.to_vec())
}

fn connect_fields() -> ConnectFields {
    ConnectFields {
        protocol_name: "MQTT".to_owned(),
        client_identifier: "12345".to_owned(),
        clean_session: true,
        keep_alive: 0x1234,
        will: Some(("w/t".to_owned(), b"bye".to_vec())),
        will_qos: 2,
        will_retain: true,
    }
}

/// Reads a packet back from its bytes, which have a header of two bytes.
fn read_back(packet: &VariablePacket) -> VariablePacket {
    let bytes = packet.encode();
    assert_eq!(bytes[1] as usize, bytes.len() - 2);
    VariablePacket::decode(bytes[0], &bytes[2..]).unwrap()
}

#[test]
fn connect_bytes_are_exact() {
    let packet = VariablePacket::ConnectPacket(ConnectPacket::new(connect_fields()));
    let expected = b"\x10\x1B\x00\x04MQTT\x04\x36\x12\x34\x00\x0512345\x00\x03w/t\x00\x03bye";
    assert_eq!(packet.encode(), expected.to_vec());
    match read_back(&packet) {
        VariablePacket::ConnectPacket(p) => {
            assert_eq!(p.protocol_name(), "MQTT");
            assert_eq!(p.client_identifier(), "12345");
            assert_eq!(p.clean_session(), true);
            assert_eq!(p.keep_alive(), 0x1234);
            let (topic, message) = p.will().unwrap();
            assert_eq!(topic.0, "w/t");
            assert_eq!(message, b"bye");
            assert_eq!(p.will_qos(), 2);
            assert_eq!(p.will_retain(), true);
        }
        _ => panic!("not a connect packet"),
    }
}

#[test]
fn will_can_be_dropped() {
    let mut packet = ConnectPacket::new(connect_fields());
    packet.clear_will();
    assert!(packet.will().is_none());
    assert_eq!(packet.client_identifier(), "12345");
}

#[test]
fn publish_bytes_are_exact() {
    let mut p = publish("a/b", QoSWithPacketIdentifier::Level0, b"hi");
    assert_eq!(p.encode(), b"\x30\x07\x00\x03a/bhi".to_vec());
    p.set_retain(true);
    p.set_dup(true);
    p.set_qos(QoSWithPacketIdentifier::Level2(0x0102));
    assert_eq!(p.encode(), b"\x3D\x09\x00\x03a/b\x01\x02hi".to_vec());
    match read_back(&VariablePacket::PublishPacket(p.copy())) {
        VariablePacket::PublishPacket(q) => {
            assert_eq!(q.topic_name(), "a/b");
            assert_eq!(q.qos(), QoSWithPacketIdentifier::Level2(0x0102));
            assert_eq!(q.payload(), b"hi");
            assert_eq!(q.retain(), true);
            assert_eq!(q.dup(), true);
        }
        _ => panic!("not a publish packet"),
    }
}

#[test]
fn long_lengths_take_more_bytes() {
    for (n, header) in vec![
        (127 - 3, vec![127]),
        (128 - 3, vec![0x80, 0x01]),
        (16383 - 3, vec![0xFF, 0x7F]),
        (16384 - 3, vec![0x80, 0x80, 0x01]),
        (2097152 - 3, vec![0x80, 0x80, 0x80, 0x01]),
    ] {
        let bytes = publish("t", QoSWithPacketIdentifier::Level0, &vec![7; n]).encode();
        assert_eq!(bytes[1..1 + header.len()], header[..]);
        assert_eq!(bytes.len(), 1 + header.len() + 3 + n);
        assert_eq!(bytes[bytes.len() - 1], 7);
    }
}

#[test]
fn subscriptions_are_exact() {
    let packet = VariablePacket::SubscribePacket(SubscribePacket {
        pkid: 10,
        subscribes: vec![
            ("a/+".to_owned(), QualityOfService::Level1),
            ("#".to_owned(), QualityOfService::Level2),
        ],
    });
    assert_eq!(packet.encode(), b"\x82\x0C\x00\x0A\x00\x03a/+\x01\x00\x01#\x02".to_vec());
    match read_back(&packet) {
        VariablePacket::SubscribePacket(p) => {
            assert_eq!(p.pkid, 10);
            assert_eq!(p.subscribes[0], ("a/+".to_owned(), QualityOfService::Level1));
            assert_eq!(p.subscribes[1], ("#".to_owned(), QualityOfService::Level2));
            assert_eq!(p.subscribes.len(), 2);
        }
        _ => panic!("not a subscribe packet"),
    }

    let packet = VariablePacket::UnsubscribePacket(UnsubscribePacket {
        pkid: 11,
        filters: vec!["a/+".to_owned(), "b".to_owned()],
    });
    assert_eq!(packet.encode(), b"\xA2\x0A\x00\x0B\x00\x03a/+\x00\x01b".to_vec());
    match read_back(&packet) {
        VariablePacket::UnsubscribePacket(p) => {
            assert_eq!(p.pkid, 11);
            assert_eq!(p.filters, vec!["a/+".to_owned(), "b".to_owned()]);
        }
        _ => panic!("not an unsubscribe packet"),
    }

    let packet = VariablePacket::SubackPacket(SubackPacket {
        pkid: 10,
        codes: vec![
            SubscribeReturnCode::MaximumQoSLevel0,
            SubscribeReturnCode::MaximumQoSLevel1,
            SubscribeReturnCode::MaximumQoSLevel2,
            SubscribeReturnCode::Failure,
        ],
    });
    assert_eq!(packet.encode(), b"\x90\x06\x00\x0A\x00\x01\x02\x80".to_vec());
    match read_back(&packet) {
        VariablePacket::SubackPacket(p) => {
            assert_eq!(p.pkid, 10);
            assert_eq!(p.codes.len(), 4);
            assert_eq!(p.codes[3], SubscribeReturnCode::Failure);
        }
        _ => panic!("not a suback packet"),
    }
}

#[test]
fn small_packets_are_exact() {
    let cases = vec![
        (VariablePacket::ConnackPacket(true, 5), vec![0x20, 2, 1, 5]),
        (VariablePacket::ConnackPacket(false, 0), vec![0x20, 2, 0, 0]),
        (VariablePacket::PubackPacket(0x0102), vec![0x40, 2, 1, 2]),
        (VariablePacket::PubrecPacket(0x0102), vec![0x50, 2, 1, 2]),
        (VariablePacket::PubrelPacket(0x0102), vec![0x62, 2, 1, 2]),
        (VariablePacket::PubcompPacket(0x0102), vec![0x70, 2, 1, 2]),
        (VariablePacket::UnsubackPacket(0x0102), vec![0xB0, 2, 1, 2]),
        (VariablePacket::PingreqPacket, vec![0xC0, 0]),
        (VariablePacket::PingrespPacket, vec![0xD0, 0]),
        (VariablePacket::DisconnectPacket, vec![0xE0, 0]),
    ];
    for (packet, bytes) in cases {
        assert_eq!(packet.encode(), bytes);
        assert_eq!(read_back(&packet).encode(), bytes);
    }
}

#[test]
fn undecodable_bodies_are_refused() {
    let cases: Vec<(u8, &[u8])> = vec![
        (0x10, b""),
        (0x10, b"\x00\x04MQTT\x06\x00\x00\x00\x00\x01a"),
        (0x10, b"\x00\x04MQTT\x04\x01\x00\x00\x00\x01a"),
        (0x10, b"\x00\x04MQTT\x04\x04\x00\x00\x00\x01a\x00\x01#\x00\x01m"),
        (0x20, b"\x02\x00"),
        (0x20, b"\x00"),
        (0x30, b"\x00\x00"),
        (0x30, b"\x00\x01+"),
        (0x30, b"\x00\x01\xFF"),
        (0x32, b"\x00\x01a\x01"),
        (0x40, b"\x01"),
        (0x82, b"\x00\x01\x00\x01a\x03"),
        (0x82, b"\x00\x01\x00\x02#/\x00"),
        (0x82, b"\x00\x01\x00\x01a"),
        (0x90, b"\x00\x01\x03"),
        (0xA2, b"\x00\x01\x00\x02a+"),
    ];
    for (first, body) in cases {
        assert!(VariablePacket::decode(first, body).is_none(), "{:x} {:?}", first, body);
    }
}

#[test]
fn user_name_and_password_are_passed_over() {
    let body = b"\x00\x04MQTT\x04\xC2\x00\x0A\x00\x01a\x00\x01u\x00\x01p";
    match VariablePacket::decode(0x10, body).unwrap() {
        VariablePacket::ConnectPacket(p) => {
            assert_eq!(p.client_identifier(), "a");
            assert_eq!(p.keep_alive(), 10);
        }
        _ => panic!("not a connect packet"),
    }
}

#[test]
fn topic_names_are_looked_at() {
    assert!(TopicName::new("a/b").is_ok());
    assert!(TopicName::new("/").is_ok());
    for name in vec!["", "a/+", "#", "a#"] {
        assert_eq!(TopicName::new(name).unwrap_err().0, name);
    }
    assert!(TopicName::new(&"x".repeat(65535)).is_ok());
    assert!(TopicName::new(&"x".repeat(65536)).is_err());
    assert!(TopicName::new(&"\u{e9}".repeat(32768)).is_err());
}

#[test]
fn topic_filters_are_looked_at() {
    for filter in vec!["#", "+", "a/+/b", "a/#", "/+", "a"] {
        assert_eq!(TopicFilter::new_checked(filter).unwrap().0, filter);
    }
    for filter in vec!["", "#/a", "a+", "a/b#", "+a/b", "##"] {
        assert_eq!(TopicFilter::new_checked(filter).unwrap_err().0, filter);
        assert_eq!(TopicFilter::new(filter).0, filter);
    }
    assert!(matches!(Topic::from_str("a/+"), Topic::Filter(f) if f.0 == "a/+"));
    assert!(matches!(Topic::from_str("a/b"), Topic::Name(n) if n.0 == "a/b"));
    assert!(matches!(Topic::from_filter(&TopicFilter::new("a/#")), Topic::Filter(f) if f.0 == "a/#"));
    assert!(matches!(Topic::from_filter(&TopicFilter::new("a")), Topic::Name(n) if n.0 == "a"));
}

#[test]
fn levels_have_numbers() {
    let levels =
        vec![QualityOfService::Level0, QualityOfService::Level1, QualityOfService::Level2];
    for (n, level) in levels.iter().enumerate() {
        assert_eq!(level.to_u8(), n as u8);
        assert_eq!(QualityOfService::from_u8(n as u8), Some(*level));
        assert_eq!(level.with(7).level(), *level);
        for (m, other) in levels.iter().enumerate() {
            assert_eq!(QualityOfService::min(*level, *other).to_u8() as usize, n.min(m));
        }
    }
    assert_eq!(QualityOfService::from_u8(3), None);
    assert_eq!(SubscribeReturnCode::from_u8(3), None);
    assert_eq!(SubscribeReturnCode::from_u8(0x80), Some(SubscribeReturnCode::Failure));
}
