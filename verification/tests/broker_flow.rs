use std::collections::VecDeque;

use broker::client::{Client, ClientMsg, ClientReceiver, Received};
use broker::common::SocketAddr;
use broker::hub::client_session::ClientSessions;
use broker::hub::local_router::{LocalRoutes, RouterAction};
use broker::hub::session::protocol_reason;
use broker::hub::session_spec::SessionFault;
use broker::hub::{
    ClientConnectionMsg, ClientSessionMsg, LocalRouterMsg, Outbox, SessionAction,
    SessionTimerAction, SessionTimerPacketType, SessionTimerPayload,
};
use broker::packet::{PublishPacket, VariablePacket};
use broker::qos::{QoSWithPacketIdentifier, SubscribeReturnCode};
use broker::store::global_retain::GlobalRetains;
use broker::store::GlobalRetainMsg;

const NOW: u64 = 1_000_000_000;

enum Message {
    Session(ClientSessionMsg),
    Router(LocalRouterMsg),
    Retain(GlobalRetainMsg),
}

/// A hub with its router and the retained messages, wired together.
struct Broker {
    sessions: ClientSessions,
    routes: LocalRoutes,
    retains: GlobalRetains,
    queue: VecDeque<Message>,
    sent: Vec<(SocketAddr, Vec<u8>)>,
    closed: Vec<(SocketAddr, String)>,
    timers: Vec<(SessionTimerAction, SessionTimerPayload)>,
}

impl Broker {
    fn new() -> Broker {
        Broker {
            sessions: ClientSessions::new(),
            routes: LocalRoutes::new(),
            retains: GlobalRetains::new(),
            queue: VecDeque::new(),
            sent: Vec::new(),
            closed: Vec::new(),
            timers: Vec::new(),
        }
    }

    /// Handles a message and all that come of it.
    fn run(&mut self, msg: ClientSessionMsg) -> Option<SessionFault> {
        let mut first_fault = None;
        self.queue.push_back(Message::Session(msg));
        while let Some(message) = self.queue.pop_front() {
            match message {
                Message::Session(msg) => {
                    let mut out = Outbox::new();
                    let fault = self.sessions.handle(msg, NOW, &mut out);
                    first_fault = first_fault.or(fault);
                    for action in out.actions {
                        match action {
                            SessionAction::Connection(ClientConnectionMsg::Data(addr, data)) => {
                                self.sent.push((addr, data))
                            }
                            SessionAction::Connection(ClientConnectionMsg::DisconnectClient(
                                addr,
                                reason,
                            )) => self.closed.push((addr, reason)),
                            SessionAction::Timer(action, payload) => {
                                self.timers.push((action, payload))
                            }
                            SessionAction::Router(msg) => {
                                self.queue.push_back(Message::Router(msg))
                            }
                            SessionAction::Retain(msg) => {
                                self.queue.push_back(Message::Retain(msg))
                            }
                        }
                    }
                }
                Message::Router(msg) => {
                    for action in self.routes.handle(msg) {
                        self.queue.push_back(match action {
                            RouterAction::Router(msg) => Message::Router(msg),
                            RouterAction::Session(msg) => Message::Session(msg),
                            RouterAction::Retain(msg) => Message::Retain(msg),
                        });
                    }
                }
                Message::Retain(msg) => {
                    if let Some(msg) = self.retains.handle(msg) {
                        self.queue.push_back(Message::Session(msg));
                    }
                }
            }
        }
        first_fault
    }

    fn data(&mut self, addr: SocketAddr, data: Vec<u8>) -> Option<SessionFault> {
        self.run(ClientSessionMsg::Data(addr, data))
    }

    fn gone(&mut self, addr: SocketAddr) -> Option<SessionFault> {
        self.run(ClientSessionMsg::ClientDisconnect(addr, "Normal disconnect!".to_owned()))
    }

    /// What was sent to a client, taken out.
    fn sent_to(&mut self, addr: SocketAddr) -> Vec<Vec<u8>> {
        let all = std::mem::take(&mut self.sent);
        let (mine, others): (Vec<_>, Vec<_>) = all.into_iter().partition(|(to, _)| *to == addr);
        self.sent = others;
        mine.into_iter().map(|(_, data)| data).collect()
    }
}

/// A client with its receiver.
struct Peer {
    addr: SocketAddr,
    client: Client,
    receiver: ClientReceiver,
}

impl Peer {
    fn connect(broker: &mut Broker, port: u16, mut client: Client) -> Peer {
        let addr = address(port);
        let bytes = client.connect();
        assert_eq!(broker.data(addr, bytes), None);
        let receiver = client.receiver();
        let mut peer = Peer { addr, client, receiver };
        match peer.receive(broker).remove(0) {
            VariablePacket::ConnackPacket(present, code) => {
                assert_eq!(present, false);
                assert_eq!(code, 0);
            }
            _ => panic!("first packet is not connack"),
        }
        peer
    }

    fn receive(&mut self, broker: &mut Broker) -> Vec<VariablePacket> {
        let mut packets = Vec::new();
        for data in broker.sent_to(self.addr) {
            match self.receiver.handle(ClientMsg::Data(data)) {
                Received::Packet(packet) => packets.push(packet),
                Received::Nothing => {}
                _ => panic!("the client cannot go on"),
            }
        }
        packets
    }

    fn send(&self, broker: &mut Broker, packet: VariablePacket) -> Option<SessionFault> {
        broker.data(self.addr, self.client.send(&packet).unwrap())
    }

    fn subscribe(&mut self, broker: &mut Broker, filter: &str, qos: u32) {
        let bytes = self.client.subscribe(vec![(filter, qos)]).unwrap();
        assert_eq!(broker.data(self.addr, bytes), None);
    }

    fn unsubscribe(&mut self, broker: &mut Broker, filter: &str) {
        let bytes = self.client.unsubscribe(vec![filter]).unwrap();
        assert_eq!(broker.data(self.addr, bytes), None);
    }

    fn publish(&mut self, broker: &mut Broker, topic: &str, text: &str, qos: u32, retain: bool) {
        let payload = text.as_bytes().to_vec();
        let bytes = self.client.publish(topic, payload, qos, retain, false).unwrap();
        assert_eq!(broker.data(self.addr, bytes), None);
    }
}

fn address(port: u16) -> SocketAddr {
    SocketAddr::V4 { ip: 0x7F00_0001, port }
}

fn client(name: &str, clean_session: bool) -> Client {
    Client::new("tcp://127.0.0.1:1999", 2, name, clean_session, true, None, None, None)
}

fn publish_of(packet: &VariablePacket) -> &PublishPacket {
    match packet {
        VariablePacket::PublishPacket(p) => p,
        _ => panic!("not a publish packet"),
    }
}

#[test]
fn simple_pubsub() {
    let mut broker = Broker::new();
    let mut one = Peer::connect(&mut broker, 1, client("client-1", true));
    one.subscribe(&mut broker, "a/b", 0);
    match &one.receive(&mut broker)[..] {
        [VariablePacket::SubackPacket(p)] => {
            assert_eq!(p.pkid, 1);
            assert_eq!(p.codes, vec![SubscribeReturnCode::MaximumQoSLevel0]);
        }
        _ => panic!("not a suback packet"),
    }

    one.publish(&mut broker, "a/b", "this-is-ab", 0, false);
    let packets = one.receive(&mut broker);
    assert_eq!(packets.len(), 1);
    let p = publish_of(&packets[0]);
    assert_eq!(p.qos(), QoSWithPacketIdentifier::Level0);
    assert_eq!(p.topic_name(), "a/b");
    assert_eq!(p.payload(), b"this-is-ab");
}

#[test]
fn message_reaches_the_subscribed_only() {
    let mut broker = Broker::new();
    let mut one = Peer::connect(&mut broker, 1, client("one", true));
    let mut two = Peer::connect(&mut broker, 2, client("two", true));
    let mut three = Peer::connect(&mut broker, 3, client("three", true));
    two.subscribe(&mut broker, "news/#", 0);
    three.subscribe(&mut broker, "news/+/today", 0);
    two.receive(&mut broker);
    three.receive(&mut broker);

    one.publish(&mut broker, "news/sport", "goal", 0, false);
    assert_eq!(publish_of(&two.receive(&mut broker)[0]).payload(), b"goal");
    assert_eq!(three.receive(&mut broker).len(), 0);
    assert_eq!(one.receive(&mut broker).len(), 0);

    one.publish(&mut broker, "news/sport/today", "draw", 0, false);
    assert_eq!(publish_of(&two.receive(&mut broker)[0]).payload(), b"draw");
    assert_eq!(publish_of(&three.receive(&mut broker)[0]).payload(), b"draw");

    two.unsubscribe(&mut broker, "news/#");
    assert!(matches!(two.receive(&mut broker)[..], [VariablePacket::UnsubackPacket(2)]));
    one.publish(&mut broker, "news/sport", "again", 0, false);
    assert_eq!(two.receive(&mut broker).len(), 0);

    broker.gone(three.addr);
    one.publish(&mut broker, "news/sport/today", "late", 0, false);
    assert_eq!(broker.sent.len(), 0);
}

#[test]
fn retained_message_is_sent_to_subscribers() {
    let mut broker = Broker::new();
    let mut one = Peer::connect(&mut broker, 1, client("client-1", true));
    one.publish(&mut broker, "a/b", "this-is-ab", 0, true);

    for _ in 0..3 {
        one.subscribe(&mut broker, "a/b", 0);
        let packets = one.receive(&mut broker);
        assert!(matches!(packets[0], VariablePacket::SubackPacket(_)));
        let p = publish_of(&packets[1]);
        assert_eq!(p.retain(), true);
        assert_eq!(p.payload(), b"this-is-ab");
        one.unsubscribe(&mut broker, "a/b");
        one.receive(&mut broker);
    }

    one.subscribe(&mut broker, "b/+", 0);
    assert_eq!(one.receive(&mut broker).len(), 1);

    one.subscribe(&mut broker, "a/+", 0);
    let packets = one.receive(&mut broker);
    let p = publish_of(&packets[1]);
    assert_eq!(p.retain(), true);
    assert_eq!(p.topic_name(), "a/b");
    assert_eq!(p.payload(), b"this-is-ab");
    one.unsubscribe(&mut broker, "a/+");
    one.receive(&mut broker);

    one.publish(&mut broker, "a/b", "", 0, true);
    one.subscribe(&mut broker, "a/b", 0);
    assert_eq!(one.receive(&mut broker).len(), 1);
}

fn client_with_will(name: &str, will_qos: Option<u8>, retain: Option<bool>) -> Client {
    let will = Some(("last/will/topic", b"This is a will message".to_vec()));
    Client::new("tcp://127.0.0.1:2002", 2, name, true, true, will, will_qos, retain)
}

#[test]
fn last_will_is_published() {
    let mut broker = Broker::new();
    let mut one = Peer::connect(&mut broker, 1, client("client-1", true));
    one.subscribe(&mut broker, "last/will/topic", 0);
    one.receive(&mut broker);
    let two = Peer::connect(&mut broker, 2, client_with_will("client-2", None, Some(true)));
    assert_eq!(broker.gone(two.addr), None);
    let packets = one.receive(&mut broker);
    assert_eq!(packets.len(), 1);
    assert_eq!(publish_of(&packets[0]).payload(), b"This is a will message");
    assert_eq!(publish_of(&packets[0]).retain(), false);

    one.subscribe(&mut broker, "last/#", 0);
    let packets = one.receive(&mut broker);
    assert_eq!(publish_of(&packets[1]).retain(), true);
    assert_eq!(publish_of(&packets[1]).topic_name(), "last/will/topic");
}

#[test]
fn disconnect_forgets_the_will() {
    let mut broker = Broker::new();
    let mut one = Peer::connect(&mut broker, 1, client("client-1", true));
    one.subscribe(&mut broker, "last/will/topic", 0);
    one.receive(&mut broker);
    let two = Peer::connect(&mut broker, 2, client_with_will("client-2", None, None));
    assert_eq!(two.send(&mut broker, VariablePacket::DisconnectPacket), None);
    assert_eq!(broker.closed, vec![(two.addr, "Receive disconnect packet!".to_owned())]);
    assert_eq!(broker.gone(two.addr), None);
    assert_eq!(one.receive(&mut broker).len(), 0);
}

#[test]
fn level_one_is_acknowledged() {
    let mut broker = Broker::new();
    let mut one = Peer::connect(&mut broker, 1, client("one", true));
    let mut two = Peer::connect(&mut broker, 2, client("two", true));
    two.subscribe(&mut broker, "t", 1);
    two.receive(&mut broker);

    broker.timers.clear();
    one.publish(&mut broker, "t", "x", 2, false);
    assert!(matches!(one.receive(&mut broker)[..], [VariablePacket::PubrecPacket(1)]));
    let packets = two.receive(&mut broker);
    assert_eq!(publish_of(&packets[0]).qos(), QoSWithPacketIdentifier::Level1(1));
    assert_eq!(publish_of(&packets[0]).dup(), false);
    let owed = SessionTimerPayload::RecvPacketTimer(
        SessionTimerPacketType::RecvPubackTimeout,
        two.addr,
        1,
    );
    assert!(broker.timers.contains(&(SessionTimerAction::SetAt(21_000_000_000), owed)));

    broker.timers.clear();
    assert_eq!(broker.run(ClientSessionMsg::Timeout(owed)), None);
    let packets = two.receive(&mut broker);
    assert_eq!(publish_of(&packets[0]).qos(), QoSWithPacketIdentifier::Level1(1));
    assert_eq!(publish_of(&packets[0]).dup(), true);
    assert_eq!(broker.timers.len(), 2);
    assert_eq!(broker.timers[1], (SessionTimerAction::SetAt(21_000_000_000), owed));

    broker.timers.clear();
    assert_eq!(two.send(&mut broker, VariablePacket::PubackPacket(1)), None);
    assert_eq!(broker.timers[0], (SessionTimerAction::Cancel, owed));
    assert_eq!(broker.run(ClientSessionMsg::Timeout(owed)), None);
    assert_eq!(two.receive(&mut broker).len(), 0);
}

#[test]
fn level_two_takes_four_packets() {
    let mut broker = Broker::new();
    let mut one = Peer::connect(&mut broker, 1, client("one", true));
    let mut two = Peer::connect(&mut broker, 2, client("two", true));
    two.subscribe(&mut broker, "t", 2);
    two.receive(&mut broker);

    one.publish(&mut broker, "t", "x", 2, false);
    assert!(matches!(one.receive(&mut broker)[..], [VariablePacket::PubrecPacket(1)]));
    let unreleased = SessionTimerPayload::RecvPacketTimer(
        SessionTimerPacketType::RecvPubrelTimeout,
        one.addr,
        1,
    );
    assert_eq!(broker.run(ClientSessionMsg::Timeout(unreleased)), None);
    assert!(matches!(one.receive(&mut broker)[..], [VariablePacket::PubrecPacket(1)]));
    assert_eq!(one.send(&mut broker, VariablePacket::PubrelPacket(1)), None);
    assert!(matches!(one.receive(&mut broker)[..], [VariablePacket::PubcompPacket(1)]));
    assert_eq!(
        one.send(&mut broker, VariablePacket::PubrelPacket(1)),
        Some(SessionFault::UnexpectedPubrel)
    );

    let packets = two.receive(&mut broker);
    assert_eq!(publish_of(&packets[0]).qos(), QoSWithPacketIdentifier::Level2(1));
    assert_eq!(two.send(&mut broker, VariablePacket::PubrecPacket(1)), None);
    assert!(matches!(two.receive(&mut broker)[..], [VariablePacket::PubrelPacket(1)]));
    let incomplete = SessionTimerPayload::RecvPacketTimer(
        SessionTimerPacketType::RecvPubcompTimeout,
        two.addr,
        1,
    );
    assert_eq!(broker.run(ClientSessionMsg::Timeout(incomplete)), None);
    assert!(matches!(two.receive(&mut broker)[..], [VariablePacket::PubrelPacket(1)]));
    assert_eq!(two.send(&mut broker, VariablePacket::PubcompPacket(1)), None);
    assert_eq!(two.receive(&mut broker).len(), 0);
    assert_eq!(
        two.send(&mut broker, VariablePacket::PubcompPacket(1)),
        Some(SessionFault::UnexpectedPubcomp)
    );
}

#[test]
fn session_is_resumed() {
    let mut broker = Broker::new();
    let mut one = Peer::connect(&mut broker, 1, client("one", true));
    let mut two = Peer::connect(&mut broker, 2, client("two", false));
    two.subscribe(&mut broker, "t", 1);
    two.receive(&mut broker);
    one.publish(&mut broker, "t", "kept", 1, false);
    assert_eq!(two.receive(&mut broker).len(), 1);
    broker.gone(two.addr);

    let mut again = client("two", false);
    let bytes = again.connect();
    assert_eq!(broker.data(address(3), bytes), None);
    let mut two = Peer { addr: address(3), receiver: again.receiver(), client: again };
    let packets = two.receive(&mut broker);
    assert!(matches!(packets[0], VariablePacket::ConnackPacket(false, 0)));
    assert_eq!(publish_of(&packets[1]).payload(), b"kept");
    assert_eq!(publish_of(&packets[1]).qos(), QoSWithPacketIdentifier::Level1(1));

    one.publish(&mut broker, "t", "next", 1, false);
    let packets = two.receive(&mut broker);
    assert_eq!(publish_of(&packets[0]).qos(), QoSWithPacketIdentifier::Level1(2));
}

#[test]
fn clean_session_starts_afresh() {
    let mut broker = Broker::new();
    let mut one = Peer::connect(&mut broker, 1, client("one", true));
    let mut two = Peer::connect(&mut broker, 2, client("two", false));
    two.subscribe(&mut broker, "t", 1);
    one.publish(&mut broker, "t", "lost", 1, false);
    broker.gone(two.addr);
    let mut two = Peer::connect(&mut broker, 3, client("two", true));
    assert_eq!(two.receive(&mut broker).len(), 0);
}

#[test]
fn refused_packets_close_the_connection() {
    let mut broker = Broker::new();
    let stranger = address(9);
    assert_eq!(broker.data(stranger, vec![0xC0, 0]), None);
    assert_eq!(broker.closed.pop(), Some((stranger, "Client not connected yet!".to_owned())));

    let one = Peer::connect(&mut broker, 1, client("one", true));
    assert_eq!(broker.data(one.addr, client("one", true).connect()), None);
    assert_eq!(broker.closed.pop(), Some((one.addr, "Client already connected!".to_owned())));

    assert_eq!(one.send(&mut broker, VariablePacket::PingrespPacket), None);
    assert_eq!(
        broker.closed.pop(),
        Some((one.addr, "Can't send broker only packets!".to_owned()))
    );

    let connect = b"\x10\x13\x00\x06MQIs\"p\x04\x00\x00\x00\x00\x0512345".to_vec();
    assert_eq!(broker.data(address(2), connect), None);
    assert_eq!(
        broker.closed.pop(),
        Some((address(2), "Invalid protocol name: \"MQIs\\\"p\"!".to_owned()))
    );
    assert_eq!(broker.closed.len(), 0);
}

#[test]
fn reason_names_the_protocol() {
    assert_eq!(protocol_reason("\"x\""), "Invalid protocol name: \"x\"!");
}

#[test]
fn ping_is_answered() {
    let mut broker = Broker::new();
    let one = Peer::connect(&mut broker, 1, client("one", true));
    assert_eq!(one.send(&mut broker, VariablePacket::PingreqPacket), None);
    assert_eq!(broker.sent_to(one.addr), vec![vec![0xD0, 0]]);
}

#[test]
fn wrong_bytes_are_found() {
    let mut broker = Broker::new();
    let fault = broker.data(address(1), vec![0x00, 0x00]);
    assert_eq!(fault, Some(SessionFault::UndecodableHeader));

    let fault = broker.data(address(2), vec![0x30, 0x01, 0x00]);
    assert_eq!(fault, Some(SessionFault::UndecodablePacket));

    let fault = broker.data(address(3), vec![0x30, 0x80, 0x80, 0x80, 0x80, 0x01]);
    assert_eq!(fault, None);
    assert_eq!(broker.closed, vec![(address(3), "Invalid header length!".to_owned())]);

    let mut endless = Broker::new();
    let fault = endless.data(address(1), vec![0x30, 0xFF, 0xFF, 0xFF, 0xFF]);
    assert_eq!(fault, None);
    assert_eq!(endless.closed.len(), 0);
    assert_eq!(endless.data(address(1), vec![0xFF]), None);
    assert_eq!(endless.closed, vec![(address(1), "Invalid header length!".to_owned())]);
    assert_eq!(endless.sent_to(address(1)).len(), 0);

    let retained = ClientSessionMsg::RetainPackets(
        broker::common::UserId(0),
        address(4),
        Vec::new(),
        broker::qos::QualityOfService::Level0,
    );
    assert_eq!(broker.run(retained), Some(SessionFault::NoSession));

    let connect =
        b"\x10\x17\x00\x04MQTT\x04\x1C\x00\x00\x00\x0512345\x00\x01w\x00\x01x".to_vec();
    assert_eq!(broker.data(address(5), connect), None);
    assert_eq!(broker.gone(address(5)), Some(SessionFault::InvalidWillQos));
}

#[test]
fn bytes_may_come_one_by_one() {
    let mut broker = Broker::new();
    let addr = address(1);
    let mut one = client("one", true);
    let mut bytes = one.connect();
    bytes.extend(one.subscribe(vec![("a", 0)]).unwrap());
    bytes.extend(one.publish("a", vec![b'x'; 200], 0, false, false).unwrap());
    for byte in bytes.clone() {
        assert_eq!(broker.data(addr, vec![byte]), None);
    }
    let in_pieces = broker.sent_to(addr);

    let mut broker = Broker::new();
    assert_eq!(broker.data(addr, bytes), None);
    assert_eq!(broker.sent_to(addr), in_pieces);
    assert_eq!(in_pieces.len(), 3);
}

#[test]
fn keep_alive_is_limited() {
    for (keep_alive, seconds) in vec![(0, 30), (1, 1), (2, 3), (19, 28), (20, 30), (60, 30)] {
        let mut broker = Broker::new();
        let mut one =
            Client::new("tcp://h:1", keep_alive, "one", true, true, None, None, None);
        broker.data(address(1), one.connect());
        let payload = SessionTimerPayload::KeepAliveTimer(address(1));
        assert_eq!(
            broker.timers,
            vec![
                (SessionTimerAction::SetAt(NOW + 30_000_000_000), payload),
                (SessionTimerAction::SetAt(NOW + seconds * 1_000_000_000), payload),
            ]
        );
        assert_eq!(broker.run(ClientSessionMsg::Timeout(payload)), None);
        assert_eq!(broker.closed, vec![(address(1), "Keep-Alive timeout!".to_owned())]);
    }
}
