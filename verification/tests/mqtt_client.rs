use broker::client::{pass_on, Client, ClientMsg, Received};
use broker::packet::VariablePacket;

fn client(ignore_pingresp: bool) -> Client {
    Client::new("ssl://10.0.0.1:8883", 70000, "id", false, ignore_pingresp, None, Some(2), None)
}

#[test]
fn nothing_is_sent_before_connecting() {
    let mut c = client(true);
    assert_eq!(c.server_port(), "10.0.0.1:8883");
    assert_eq!(c.send(&VariablePacket::PingreqPacket), None);
    assert_eq!(c.publish("a", Vec::new(), 1, false, false), None);
    assert_eq!(c.subscribe(vec![("a", 1)]), None);
    assert_eq!(c.unsubscribe(vec!["a"]), None);
    assert_eq!(c.shutdown(), None);
    c.connect();
    assert_eq!(c.publish("a", b"x".to_vec(), 1, false, false).unwrap(), b"\x32\x06\x00\x01a\x00\x04x");
    assert_eq!(c.shutdown(), Some(Vec::new()));
}

#[test]
fn connect_says_what_the_client_is() {
    let mut c = client(true);
    assert_eq!(c.connect(), b"\x10\x0E\x00\x04MQTT\x04\x00\x11\x70\x00\x02id".to_vec());

    let will = Some(("w", b"m".to_vec()));
    let mut c = Client::new("tcp://h:1", 10, "id", true, true, will, Some(1), Some(true));
    assert_eq!(
        c.connect(),
        b"\x10\x14\x00\x04MQTT\x04\x2E\x00\x0A\x00\x02id\x00\x01w\x00\x01m".to_vec()
    );
    let will = Some(("w", b"m".to_vec()));
    let mut c = Client::new("tcp://h:1", 10, "id", true, true, will, None, None);
    assert_eq!(c.connect()[9], 0x06);
}

#[test]
fn identifiers_go_round() {
    let mut c = client(true);
    assert_eq!((c.pkid(), c.pkid()), (1, 2));
    let mut c = client(true);
    c.connect();
    for i in 1..65536u32 {
        let bytes = c.publish("a", Vec::new(), 1, false, false).unwrap();
        assert_eq!(bytes[5] as u32 * 256 + bytes[6] as u32, i);
    }
    let bytes = c.unsubscribe(vec!["a", "b/#"]).unwrap();
    assert_eq!(bytes, b"\xA2\x0A\x00\x01\x00\x01a\x00\x03b/#".to_vec());
    c.publish("a", Vec::new(), 0, false, false);
    let bytes = c.subscribe(vec![("a", 2), ("+", 0)]).unwrap();
    assert_eq!(bytes, b"\x82\x0A\x00\x03\x00\x01a\x02\x00\x01+\x00".to_vec());
}

#[test]
fn published_flags_are_kept() {
    let mut c = client(true);
    c.connect();
    let bytes = c.publish("a", b"x".to_vec(), 0, true, false).unwrap();
    assert_eq!(bytes, b"\x31\x04\x00\x01ax".to_vec());
    let bytes = c.publish("a", b"x".to_vec(), 2, false, true).unwrap();
    assert_eq!(bytes, b"\x3C\x06\x00\x01a\x00\x02x".to_vec());
}

#[test]
fn one_packet_is_read_for_each_arrival() {
    let mut r = client(false).receiver();
    assert!(matches!(r.handle(ClientMsg::Data(vec![0x40])), Received::Nothing));
    assert!(matches!(r.handle(ClientMsg::Data(vec![2, 0])), Received::Nothing));
    let both = r.handle(ClientMsg::Data(vec![1, 0xD0, 0]));
    assert!(matches!(both, Received::Packet(VariablePacket::PubackPacket(1))));
    let later = r.handle(ClientMsg::Data(Vec::new()));
    assert!(matches!(later, Received::Packet(VariablePacket::PingrespPacket)));
    assert!(matches!(r.handle(ClientMsg::Shutdown), Received::Stop));
}

#[test]
fn answers_to_pings_can_be_ignored() {
    let mut r = client(true).receiver();
    assert!(matches!(r.handle(ClientMsg::Data(vec![0xD0, 0])), Received::Nothing));
    assert!(pass_on(Some(VariablePacket::PingrespPacket), true).is_none());
    assert!(pass_on(Some(VariablePacket::PingrespPacket), false).is_some());
    assert!(pass_on(Some(VariablePacket::PingreqPacket), true).is_some());
    assert!(pass_on(None, false).is_none());
}

#[test]
fn wrong_bytes_stop_the_client() {
    let mut r = client(true).receiver();
    let bytes = vec![0x30, 0x80, 0x80, 0x80, 0x80, 0x01];
    assert!(matches!(r.handle(ClientMsg::Data(bytes)), Received::Fault));
    let mut r = client(true).receiver();
    assert!(matches!(r.handle(ClientMsg::Data(vec![0x30, 0xFF, 0xFF, 0xFF])), Received::Nothing));
    assert!(matches!(r.handle(ClientMsg::Data(vec![0xFF, 0xFF])), Received::Fault));
    let mut r = client(true).receiver();
    assert!(matches!(r.handle(ClientMsg::Data(vec![0xF0, 0x00])), Received::Fault));
}

#[test]
fn unreadable_packet_is_dropped() {
    let mut r = client(true).receiver();
    assert!(matches!(r.handle(ClientMsg::Data(vec![0x30, 0x01, 0x00])), Received::Nothing));
    let next = r.handle(ClientMsg::Data(vec![0xC0, 0]));
    assert!(matches!(next, Received::Packet(VariablePacket::PingreqPacket)));
}
