use broker::mqttc::{
    client_id, connect, generate_client_id, parse_line, Command, Local, MyCompleter, Refusal,
    Reply, UnsubscribeTopic, CMD_EXIT, CMD_GET, CMD_HELP, CMD_PUBLISH, CMD_STATUS, CMD_SUBSCRIBE,
    CMD_UNSUBSCRIBE,
};
use broker::packet::{encode_unsubscribe_text, PublishPacket, VariablePacket};
use broker::qos::{QoSWithPacketIdentifier, QualityOfService};
use broker::text::{parse_usize, trim};
use broker::topic::{TopicFilter, TopicName};

fn refusal(line: &str) -> Refusal {
    match parse_line(line) {
        Command::Refused(refusal) => refusal,
        _ => panic!("not refused: {}", line),
    }
}

#[test]
fn commands_are_completed() {
    let commands = vec![
        CMD_STATUS,
        CMD_GET,
        CMD_SUBSCRIBE,
        CMD_UNSUBSCRIBE,
        CMD_PUBLISH,
        CMD_HELP,
        CMD_EXIT,
    ];
    let completer = MyCompleter::new(&commands);
    assert_eq!(completer.complete("s"), (0, vec!["status".to_owned(), "subscribe".to_owned()]));
    assert_eq!(completer.complete("unsub"), (0, vec!["unsubscribe".to_owned()]));
    assert_eq!(completer.complete("").1.len(), 7);
    assert_eq!(completer.complete("xyz"), (0, Vec::new()));
}

#[test]
fn commands_are_read() {
    assert!(matches!(parse_line(" status "), Command::Status));
    assert!(matches!(parse_line("help"), Command::Help));
    assert!(matches!(parse_line("exit now"), Command::Exit));
    assert!(matches!(parse_line("get a/b"), Command::Get(t, 1) if t.0 == "a/b"));
    assert!(matches!(parse_line("get a 25"), Command::Get(t, 25) if t.0 == "a"));
    assert!(matches!(parse_line("get a x"), Command::Get(t, 1) if t.0 == "a"));
    assert!(matches!(parse_line("subscribe  a/# "), Command::Subscribe(f) if f.0 == "a/#"));
    assert!(matches!(
        parse_line("unsubscribe a"),
        Command::Unsubscribe(UnsubscribeTopic::Normal(t)) if t == "a"
    ));
    assert!(matches!(
        parse_line("unsubscribe all"),
        Command::Unsubscribe(UnsubscribeTopic::All)
    ));
    assert!(matches!(
        parse_line("publish a hi"),
        Command::Publish(t, m, false) if t.0 == "a" && m == "hi"
    ));
    for word in vec!["1", "true", "yes"] {
        assert!(matches!(parse_line(&format!("publish a hi {}", word)), Command::Publish(_, _, true)));
    }
    assert!(matches!(parse_line("publish a hi no"), Command::Publish(_, _, false)));
}

#[test]
fn wrong_commands_are_refused() {
    assert_eq!(refusal("get"), Refusal::TopicMissing);
    assert_eq!(refusal("get  a"), Refusal::BadTopic);
    assert_eq!(refusal("subscribe"), Refusal::FilterRequired);
    assert_eq!(refusal("subscribe a#"), Refusal::BadFilter);
    assert_eq!(refusal("unsubscribe"), Refusal::FilterRequired);
    assert_eq!(refusal("publish"), Refusal::NotEnoughArguments);
    assert_eq!(refusal("publish a"), Refusal::MessageMissing);
    assert_eq!(refusal("publish # hi"), Refusal::BadTopic);
    assert_eq!(refusal(""), Refusal::UnknownCommand);
    assert_eq!(refusal("Status"), Refusal::UnknownCommand);
}

#[test]
fn white_space_is_trimmed() {
    assert_eq!(trim(" \t\n a b \u{3000}\u{a0}"), "a b");
    assert_eq!(trim("\u{200b}x"), "\u{200b}x".trim());
    assert_eq!(trim("   "), "");
    for n in 0..0x11_0000 {
        if let Some(c) = char::from_u32(n) {
            if c.is_whitespace() {
                assert_eq!(trim(&format!("{}x{}", c, c)), "x");
            }
        }
    }
}

#[test]
fn numbers_are_read() {
    for s in vec!["0", "007", "+5", "18446744073709551615", "18446744073709551616", "", "+", "-1", "1a", "++1"] {
        assert_eq!(parse_usize(s), s.parse::<usize>().ok());
    }
}

#[test]
fn client_identifiers_are_made() {
    assert_eq!(client_id("abc"), "/MQTT/rust/abc");
    let (a, b) = (generate_client_id(), generate_client_id());
    assert_ne!(a, b);
    assert!(a.starts_with("/MQTT/rust/"));
    assert_eq!(a.len(), 11 + 32);
    assert!(a[11..].chars().all(|c| matches!(c, '0'..='9' | 'a'..='f')));
}

#[test]
fn connection_is_opened() {
    assert_eq!(connect("me"), b"\x10\x0E\x00\x04MQTT\x04\x02\x00\x0A\x00\x02me".to_vec());
}

fn message(topic: &str, text: &str) -> VariablePacket {
    VariablePacket::PublishPacket(PublishPacket::new(
        TopicName::new(topic).unwrap(),
        QoSWithPacketIdentifier::Level0,
        text.as_bytes().to_vec(),
    ))
}

#[test]
fn actions_send_packets() {
    let mut local = Local::new();
    let bytes = local.publish(TopicName::new("a").unwrap(), "h\u{e9}", true);
    assert_eq!(bytes, b"\x31\x06\x00\x01ah\xC3\xA9".to_vec());
    let bytes = local.publish(TopicName::new("a").unwrap(), "EMPTY", false);
    assert_eq!(bytes, b"\x30\x03\x00\x01a".to_vec());
    let bytes = local.subscribe(TopicFilter::new("a/+"), QualityOfService::Level0);
    assert_eq!(bytes, b"\x82\x08\x00\x01\x00\x03a/+\x00".to_vec());
    let bytes = local.unsubscribe(UnsubscribeTopic::Normal("a".to_owned()));
    assert_eq!(bytes, b"\xA2\x05\x00\x02\x00\x01a".to_vec());
    let bytes = local.unsubscribe(UnsubscribeTopic::All);
    assert_eq!(bytes, b"\xA2\x02\x00\x03".to_vec());
}

#[test]
fn any_topic_is_unsubscribed_from() {
    let mut local = Local::new();
    let bytes = local.unsubscribe(UnsubscribeTopic::Normal("a#b".to_owned()));
    assert_eq!(bytes, b"\xA2\x07\x00\x01\x00\x03a#b".to_vec());
    let bytes = local.unsubscribe(UnsubscribeTopic::Normal(String::new()));
    assert_eq!(bytes, b"\xA2\x04\x00\x02\x00\x00".to_vec());
    let bytes = local.unsubscribe(UnsubscribeTopic::Normal("+".repeat(200)));
    assert_eq!(bytes[..7], b"\xA2\xCC\x01\x00\x03\x00\xC8"[..]);
    assert_eq!(bytes[7..], vec![b'+'; 200][..]);
    assert_eq!(encode_unsubscribe_text(0x1234, "h\u{e9}"), b"\xA2\x07\x12\x34\x00\x03h\xC3\xA9");
}

#[test]
fn mailbox_gives_the_oldest_first() {
    let mut local = Local::new();
    let a = TopicName::new("a").unwrap();
    assert!(local.get(&a, 1).is_none());
    for text in vec!["1", "2", "3"] {
        assert!(matches!(local.receive(message("a", text), 5), Reply::Nothing));
    }
    local.receive(message("b", "x"), 5);
    local.subscribe(TopicFilter::new("a"), QualityOfService::Level0);
    let status = local.status();
    assert_eq!(status.last_pingresp, None);
    assert_eq!(status.subscribes.len(), 1);
    assert_eq!(status.counts.len(), 2);
    assert_eq!(status.counts.get(&a), Some(&3));

    let got = local.get(&a, 2).unwrap();
    assert_eq!(got.iter().map(|p| p.payload()[0]).collect::<Vec<u8>>(), b"12".to_vec());
    let got = local.get(&a, 2).unwrap();
    assert_eq!(got.iter().map(|p| p.payload()[0]).collect::<Vec<u8>>(), b"3".to_vec());
    assert_eq!(local.get(&a, 2).unwrap().len(), 0);
    assert_eq!(local.status().counts.get(&a), Some(&0));
}

#[test]
fn packets_from_the_broker_are_handled() {
    let mut local = Local::new();
    let reply = local.receive(VariablePacket::PingreqPacket, 7);
    assert!(matches!(reply, Reply::Send(bytes) if bytes == vec![0xD0, 0]));
    assert!(matches!(local.receive(VariablePacket::PingrespPacket, 8), Reply::Nothing));
    assert_eq!(local.status().last_pingresp, Some(8));
    assert!(matches!(local.receive(VariablePacket::PubackPacket(1), 9), Reply::Nothing));
    assert!(matches!(local.receive(VariablePacket::DisconnectPacket, 9), Reply::Stop));
    assert_eq!(local.status().last_pingresp, Some(8));
}
