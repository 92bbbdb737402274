use std::time::{Duration, Instant};

use broker::assoc::{AssocMap, Ident};
use broker::common::{
    ClientIdentifier, CodecState, SocketAddr, StoreRequest, StoreResponse, UserId,
};
use broker::hub::client_connection::on_message;
use broker::hub::session::PersistentSession;
use broker::hub::session_timer::{
    clock_is_stale, delay, may_rest, SessionTimers, MIN_CAPACITY,
};
use broker::hub::store_client::on_response;
use broker::hub::{
    ClientConnectionMsg, ClientSessionMsg, LocalRouterMsg, SessionTimerAction, SessionTimerPayload,
};
use broker::net::{
    after_attempt, received, server_port, stays_open, Attempt, ClientCodec, Connections, NetAction,
    ToNetMsg,
};
use broker::packet::PublishPacket;
use broker::qos::{QoSWithPacketIdentifier, QualityOfService};
use broker::store::global_retain::GlobalRetains;
use broker::store::global_router::GlobalRouter;
use broker::store::store_session::{StoreAction, StoreSession, StoreSessions};
use broker::store::{GlobalRetainMsg, GlobalRouterMsg, StoreSessionMsg};
use broker::text::{split, split_at_first};
use broker::topic::{Topic, TopicName};
use broker::window::Window;
use bytes::BytesMut;

fn address(port: u16) -> SocketAddr {
    SocketAddr::V4 { ip: 0x7F00_0001, port }
}

fn message(topic: &str) -> PublishPacket {
    PublishPacket::new(
        TopicName::new(topic).unwrap(),
        QoSWithPacketIdentifier::Level0,
        b"x".to_vec(),
    )
}

fn framed(payload: &[u8]) -> Vec<u8> {
    let mut bytes = (payload.len() as u64).to_be_bytes().to_vec();
    bytes.extend_from_slice(payload);
    bytes
}

#[test]
fn server_is_found_in_url() {
    assert_eq!(server_port("ssl://140.205.202.2:8080"), Some("140.205.202.2:8080".to_owned()));
    assert_eq!(server_port("a://b://c"), Some("b".to_owned()));
    assert_eq!(server_port("127.0.0.1:80"), None);
}

#[test]
fn text_is_split() {
    assert_eq!(split("a//b", '/'), vec!["a".to_owned(), String::new(), "b".to_owned()]);
    assert_eq!(split("", '/'), vec![String::new()]);
    assert_eq!(split_at_first("k=v=w", "="), Some(("k".to_owned(), "v=w".to_owned())));
    assert_eq!(split_at_first("k", "="), None);
}

#[test]
fn codec_reads_frames() {
    let mut codec = ClientCodec::new();
    let mut buf = BytesMut::with_capacity(64);
    let mut bytes = framed(b"abc");
    bytes.extend(framed(b""));
    bytes.extend(&framed(b"rest")[..10]);
    codec.encode(&bytes[..5], &mut buf);
    assert_eq!(codec.decode(&mut buf), None);
    codec.encode(&bytes[5..9], &mut buf);
    assert_eq!(codec.decode(&mut buf), None);
    assert_eq!(codec.state, CodecState::Payload { len: 3 });
    codec.encode(&bytes[9..], &mut buf);
    assert_eq!(codec.decode(&mut buf), Some(b"abc".to_vec()));
    assert_eq!(codec.decode(&mut buf), Some(Vec::new()));
    assert_eq!(codec.decode(&mut buf), None);
    assert_eq!(codec.state, CodecState::Payload { len: 4 });
    assert_eq!(&buf[..], b"re");
}

#[test]
fn store_session_cuts_payloads_of_one_length() {
    let mut session = StoreSession::new(address(1));
    let mut bytes = framed(b"abc");
    bytes.extend_from_slice(b"defg");
    assert_eq!(session.decode(&bytes[..9]), (Vec::new(), false));
    assert_eq!(session.decode(&bytes[9..]), (vec![b"abc".to_vec(), b"def".to_vec()], false));
    assert_eq!(session.decode(b"hi"), (vec![b"ghi".to_vec()], false));
    let mut session = StoreSession::new(address(1));
    assert_eq!(session.decode(&[0; 8]), (Vec::new(), true));
}

#[test]
fn store_sessions_answer_known_hubs() {
    let mut sessions = StoreSessions::new();
    let publish = |port| StoreSessionMsg::Publish(address(port), UserId(0), message("a"));
    assert!(matches!(sessions.handle(publish(1)), StoreAction::Nothing));
    match sessions.handle(StoreSessionMsg::Data(address(1), framed(b"abc"))) {
        StoreAction::Requests { addr, payloads, zero_length } => {
            assert_eq!(addr, address(1));
            assert_eq!(payloads, vec![b"abc".to_vec()]);
            assert_eq!(zero_length, false);
        }
        _ => panic!("no requests"),
    }
    match sessions.handle(publish(1)) {
        StoreAction::Respond(addr, StoreResponse::Publish(user_id, p)) => {
            assert_eq!(addr, address(1));
            assert_eq!(user_id, UserId(0));
            assert_eq!(p.topic_name(), "a");
        }
        _ => panic!("no response"),
    }
    let retains = StoreSessionMsg::Retains(
        address(1),
        UserId(0),
        ClientIdentifier("c".to_owned()),
        vec![message("a")],
        QualityOfService::Level1,
    );
    assert!(matches!(
        sessions.handle(retains),
        StoreAction::Respond(_, StoreResponse::Retains(_, c, p, QualityOfService::Level1))
            if c.0 == "c" && p.len() == 1
    ));
    let request = StoreRequest::Subscribe(UserId(3), vec![Topic::from_str("a")]);
    assert!(matches!(
        sessions.request(address(1), request),
        Some(GlobalRouterMsg::Subscribe(addr, UserId(3), topics))
            if addr == address(1) && topics.len() == 1
    ));
    let gone = StoreSessionMsg::Disconnect(address(1), "gone".to_owned());
    assert!(matches!(sessions.handle(gone), StoreAction::Nothing));
}

#[test]
fn global_router_tells_the_subscribed_hubs() {
    let mut router = GlobalRouter::new();
    let subscribe = |port, topic| {
        GlobalRouterMsg::Subscribe(address(port), UserId(1), vec![Topic::from_str(topic)])
    };
    assert_eq!(router.handle(subscribe(1, "a/+")).len(), 0);
    assert_eq!(router.handle(subscribe(2, "a/b")).len(), 0);
    assert_eq!(router.handle(subscribe(3, "c")).len(), 0);
    let publish =
        |user, topic| GlobalRouterMsg::Publish(address(9), UserId(user), message(topic));
    let told = router.handle(publish(1, "a/b"));
    let mut hubs: Vec<u16> = told
        .iter()
        .map(|m| match m {
            StoreSessionMsg::Publish(SocketAddr::V4 { port, .. }, UserId(1), p) => {
                assert_eq!(p.topic_name(), "a/b");
                *port
            }
            _ => panic!("no message"),
        })
        .collect();
    hubs.sort();
    assert_eq!(hubs, vec![1, 2]);
    assert_eq!(router.handle(publish(2, "a/b")).len(), 0);
    let unsubscribe =
        GlobalRouterMsg::Unsubscribe(address(1), UserId(1), vec![Topic::from_str("a/+")]);
    assert_eq!(router.handle(unsubscribe).len(), 0);
    assert_eq!(router.handle(publish(1, "a/b")).len(), 1);
    assert_eq!(router.handle(GlobalRouterMsg::NodeDisconnect(address(2))).len(), 0);
    assert_eq!(router.handle(publish(1, "a/b")).len(), 1);
}

#[test]
fn users_have_their_own_retained_messages() {
    let mut retains = GlobalRetains::new();
    let ask = |user, topic| {
        GlobalRetainMsg::MatchAll(
            UserId(user),
            address(1),
            Topic::from_str(topic),
            QualityOfService::Level2,
        )
    };
    assert!(retains.handle(ask(1, "#")).is_none());
    assert!(retains.handle(GlobalRetainMsg::Insert(UserId(1), message("a/b"))).is_none());
    assert!(retains.handle(ask(2, "#")).is_none());
    match retains.handle(ask(1, "a/+")) {
        Some(ClientSessionMsg::RetainPackets(user, addr, packets, qos)) => {
            assert_eq!((user, addr, qos), (UserId(1), address(1), QualityOfService::Level2));
            assert_eq!(packets.len(), 1);
            assert_eq!(packets[0].topic_name(), "a/b");
        }
        _ => panic!("no answer"),
    }
    assert!(retains.handle(GlobalRetainMsg::Remove(UserId(1), "a/b".to_owned())).is_none());
    assert!(matches!(
        retains.handle(ask(1, "a/+")),
        Some(ClientSessionMsg::RetainPackets(_, _, packets, _)) if packets.is_empty()
    ));
}

#[test]
fn connections_are_told_apart() {
    let mut connections = Connections::new();
    let data = |port| ClientConnectionMsg::Data(address(port), vec![1, 2]);
    assert!(matches!(
        on_message(&connections, data(1)),
        NetAction::Session(ClientSessionMsg::ClientDisconnect(addr, reason))
            if addr == address(1) && reason == "Connection closed unexpected!"
    ));
    connections.connected(address(1));
    assert!(matches!(
        on_message(&connections, data(1)),
        NetAction::Write(addr, bytes) if addr == address(1) && bytes == vec![1, 2]
    ));
    let close = || ClientConnectionMsg::DisconnectClient(address(1), "why".to_owned());
    assert!(matches!(
        on_message(&connections, close()),
        NetAction::Write(addr, bytes) if addr == address(1) && bytes.is_empty()
    ));
    let gone: StoreSessionMsg = connections.closed(address(1));
    assert!(matches!(gone, StoreSessionMsg::Disconnect(_, reason) if reason == "Normal disconnect!"));
    assert!(matches!(on_message(&connections, close()), NetAction::Nothing));
    let action: NetAction<StoreSessionMsg> =
        connections.handle(ToNetMsg::Data(address(1), Vec::new()));
    assert!(matches!(action, NetAction::Session(StoreSessionMsg::Disconnect(_, _))));
}

#[test]
fn reads_end_with_the_peer() {
    let buf = [1, 2, 3, 4];
    let none: Option<ClientSessionMsg> = received(address(1), &buf, 0);
    assert!(none.is_none());
    let some: Option<ClientSessionMsg> = received(address(1), &buf, 3);
    assert!(matches!(some, Some(ClientSessionMsg::Data(_, data)) if data == vec![1, 2, 3]));
    assert_eq!(stays_open(&buf), true);
    assert_eq!(stays_open(&[]), false);
}

#[test]
fn answers_of_the_store_are_passed_on() {
    let publish = StoreResponse::Publish(UserId(4), message("t"));
    assert!(matches!(
        on_response(publish),
        Some(LocalRouterMsg::Publish(UserId(4), p)) if p.topic_name() == "t"
    ));
    let client = ClientIdentifier("c".to_owned());
    let retains = StoreResponse::Retains(UserId(4), client, Vec::new(), QualityOfService::Level0);
    assert!(on_response(retains).is_none());
}

#[test]
fn timers_run_out() {
    let mut timers = SessionTimers::new(0);
    let one = SessionTimerPayload::KeepAliveTimer(address(1));
    let two = SessionTimerPayload::KeepAliveTimer(address(2));
    let three = SessionTimerPayload::KeepAliveTimer(address(3));
    assert_eq!(timers.handle(SessionTimerAction::SetAt(5), one, 5), Some(one));
    assert_eq!(timers.poll(), None);
    let start = Instant::now();
    assert_eq!(timers.handle(SessionTimerAction::SetAt(200_000_000), one, 0), None);
    assert_eq!(timers.handle(SessionTimerAction::SetAt(100_000_000), two, 0), None);
    assert_eq!(timers.handle(SessionTimerAction::SetAt(100_000_000), three, 0), None);
    assert_eq!(timers.handle(SessionTimerAction::Cancel, three, 0), None);
    let mut fired = Vec::new();
    while fired.len() < 2 && start.elapsed() < Duration::from_secs(10) {
        if let Some(payload) = timers.poll() {
            fired.push(payload);
        }
    }
    assert_eq!(fired, vec![two, one]);
    assert_eq!(timers.poll(), None);
}

#[test]
fn timers_get_more_room() {
    let mut timers = SessionTimers::new(0);
    let payload = |i: usize| SessionTimerPayload::KeepAliveTimer(address(i as u16));
    for i in 0..MIN_CAPACITY + 59 {
        timers.handle(SessionTimerAction::SetAt(60_000_000_000), payload(i), 0);
    }
    assert_eq!(timers.can_adjust_room(0), true);
    assert_eq!(timers.adjust_room(0), false);
    timers.handle(SessionTimerAction::SetAt(60_000_000_000), payload(MIN_CAPACITY + 59), 0);
    assert_eq!(timers.adjust_room(0), true);
    let moved = timers.begin_resize(1);
    assert_eq!(moved.len(), MIN_CAPACITY + 60);
    assert_eq!(moved[0], (payload(0), 60_000_000_000));
    assert_eq!(timers.can_adjust_room(0), false);
    assert_eq!(timers.can_adjust_room(1), true);
    assert_eq!(timers.adjust_room(1), false);
    assert_eq!(timers.adjust_room(901_000_000_000), false);
    assert_eq!(timers.adjust_room(901_000_000_001), true);
    assert_eq!(timers.begin_resize(901_000_000_001).len(), 0);
}

#[test]
fn timers_run_until_their_end() {
    assert_eq!(delay(7, 5), Some(2));
    assert_eq!(delay(5, 5), None);
    assert_eq!(delay(5, 7), None);
    assert_eq!(delay(u64::MAX, 0), Some(u64::MAX));
}

#[test]
fn attempts_are_counted() {
    assert_eq!(after_attempt(0, 3, true), Attempt::Done);
    assert_eq!(after_attempt(1, 3, false), Attempt::Again);
    assert_eq!(after_attempt(2, 3, false), Attempt::GiveUp);
    assert_eq!(after_attempt(2, 3, true), Attempt::Done);
    assert_eq!(after_attempt(0, 0, false), Attempt::GiveUp);
    assert_eq!(after_attempt(usize::MAX, usize::MAX, false), Attempt::GiveUp);
}

#[test]
fn rest_is_taken_when_there_is_nothing_to_do() {
    assert_eq!(may_rest(false, false, false), true);
    assert_eq!(may_rest(true, false, false), false);
    assert_eq!(may_rest(false, true, false), false);
    assert_eq!(may_rest(false, false, true), false);
    assert_eq!(clock_is_stale(510), false);
    assert_eq!(clock_is_stale(511), true);
    assert_eq!(clock_is_stale(1023), true);
}

#[test]
fn identifiers_are_given_out_in_turn() {
    let mut session = PersistentSession::new(UserId(0), ClientIdentifier("c".to_owned()));
    for i in 1..=65535 {
        assert_eq!(session.incr_pkid(), Some(i));
    }
    assert_eq!(session.incr_pkid(), Some(1));
}

#[test]
fn window_keeps_the_order() {
    let mut window: Window<char> = Window::new();
    for (pkid, c) in vec![(5, 'a'), (3, 'b'), (9, 'c'), (3, 'd')] {
        window.insert(pkid, c);
    }
    let entries: Vec<(u16, char)> =
        (0..window.len()).map(|i| (window.pkid_at(i), *window.value_at(i))).collect();
    assert_eq!(entries, vec![(5, 'a'), (3, 'd'), (9, 'c')]);
    assert_eq!(window.remove(5), Some('a'));
    assert_eq!(window.remove(5), None);
    assert_eq!(window.get(3), Some(&'d'));
    assert_eq!(window.contains(5), false);
}

#[test]
fn map_compares_keys() {
    let mut map: AssocMap<ClientIdentifier, u8> = AssocMap::new();
    let key = |s: &str| ClientIdentifier(s.to_owned());
    assert_eq!(map.is_empty(), true);
    assert_eq!(map.insert(key("a"), 1), None);
    assert_eq!(map.insert(key("b"), 2), None);
    assert_eq!(map.insert(key("a"), 3), Some(1));
    assert_eq!(map.len(), 2);
    assert!(map.key_at(0).same(&key("a")));
    assert_eq!(map.get(&key("a")), Some(&3));
    assert_eq!(map.remove(&key("a")), Some(3));
    assert_eq!(map.pop().map(|(k, v)| (k.0, v)), Some(("b".to_owned(), 2)));
    assert!(map.pop().is_none());
}
