//! What a client's session does, as mathematics.
use vstd::prelude::*;

use crate::common::{SocketAddr, UserId};
use crate::hub;
use crate::hub::{
    LocalRouterMsgModel, SessionActionModel, SessionTimerAction, SessionTimerPacketType,
    SessionTimerPayload,
};
use crate::qos::{QoSWithPacketIdentifier, QualityOfService};
use crate::store::GlobalRetainMsgModel;
use crate::text;
use crate::window;
use crate::wire;
use crate::wire::{
    ConnectModel, Frames, FramesEnd, PacketModel, PublishModel, SubscribeModel, UnsubscribeModel,
};

verus! {

/// Nanoseconds in a second.
pub const NANOS_PER_SEC: u64 = 1_000_000_000;

/// A message sent or received at level two: the message, whether PUBREC was sent for it, whether
/// PUBREL was.
pub type Handshake = (PublishModel, bool, bool);

/// What outlives a client's connection: the messages in flight.
#[verifier::ext_equal]
pub struct PersistentModel {
    pub user_id: UserId,
    pub client_identifier: Seq<char>,
    /// The identifier that was given out last.
    pub pkid: u16,
    /// Sent at level one, not yet acknowledged.
    pub qos1_send: Seq<(u16, PublishModel)>,
    /// Sent at level two, not yet complete.
    pub qos2_send: Seq<(u16, Handshake)>,
    /// Received at level two, not yet released.
    pub qos2_recv: Seq<(u16, Handshake)>,
}

/// A connection's session. Durations are in seconds.
#[verifier::ext_equal]
pub struct SessionModel {
    pub addr: SocketAddr,
    pub recv_packet_timeout: u64,
    pub keep_alive_timeout: u64,
    pub connected: bool,
    pub connect_packet: Option<ConnectModel>,
    pub persistent: Option<PersistentModel>,
}

/// A session, the addresses of the connected clients, and what is kept of those that left.
#[verifier::ext_equal]
pub struct WorldModel {
    pub session: SessionModel,
    pub addrs: Map<(UserId, Seq<char>), SocketAddr>,
    pub persistents: Map<(UserId, Seq<char>), PersistentModel>,
}

/// What stops the session thread.
#[derive(Debug, PartialEq, Eq, Structural, Clone, Copy)]
pub enum SessionFault {
    /// A first byte that no packet can have.
    UndecodableHeader,
    /// A body that its packet cannot have.
    UndecodablePacket,
    /// PUBREL for a message that was not received.
    UnexpectedPubrel,
    /// PUBCOMP for a message that was not sent.
    UnexpectedPubcomp,
    /// Retained messages for a client that is not connected.
    NoSession,
    /// All packet identifiers are in use.
    NoPacketIdentifier,
    /// A last will of level three.
    InvalidWillQos,
}

/// What comes of a step: the state after it, the messages to send, and what went wrong. After a
/// fault the state means nothing.
#[verifier::ext_equal]
pub struct StepModel {
    pub world: WorldModel,
    pub actions: Seq<SessionActionModel>,
    pub fault: Option<SessionFault>,
}

/// A step that changes nothing but the session.
#[verifier::ext_equal]
pub struct SessionStep {
    pub session: SessionModel,
    pub actions: Seq<SessionActionModel>,
    pub fault: Option<SessionFault>,
}

pub open spec fn fresh_persistent(
    user_id: UserId,
    client_identifier: Seq<char>,
) -> PersistentModel {
    PersistentModel {
        user_id,
        client_identifier,
        pkid: 0,
        qos1_send: Seq::empty(),
        qos2_send: Seq::empty(),
        qos2_recv: Seq::empty(),
    }
}

/// `true` iff a message is in flight under the identifier, in either direction.
pub open spec fn pkid_used(p: PersistentModel, pkid: u16) -> bool {
    window::holds(p.qos1_send, pkid) || window::holds(p.qos2_send, pkid) || window::holds(
        p.qos2_recv,
        pkid,
    )
}

/// The `n`-th identifier after `pkid` in the cycle 1, 2, ..., 65535, 1, ...
pub open spec fn nth_pkid(pkid: u16, n: int) -> u16 {
    ((pkid + n - 1) % 65535 + 1) as u16
}

/// The first unused identifier from the `n`-th after the last one on, once round the cycle.
pub open spec fn free_pkid_from(p: PersistentModel, n: int) -> Option<u16>
    decreases 65536 - n,
{
    if n > 65535 {
        None
    } else if !pkid_used(p, nth_pkid(p.pkid, n)) {
        Some(nth_pkid(p.pkid, n))
    } else {
        free_pkid_from(p, n + 1)
    }
}

/// The identifier that is given out next: the first unused one after the last one.
pub open spec fn next_pkid(p: PersistentModel) -> Option<u16> {
    free_pkid_from(p, 1)
}

/// `true` iff the clock can be set `secs` seconds ahead.
pub open spec fn clock_fits(now: u64, secs: u64) -> bool {
    now + secs * NANOS_PER_SEC <= u64::MAX
}

/// Sets a timer `secs` seconds ahead.
pub open spec fn set_timer(
    now: u64,
    secs: u64,
    payload: SessionTimerPayload,
) -> SessionActionModel {
    SessionActionModel::Timer(
        SessionTimerAction::SetAt((now + secs * NANOS_PER_SEC) as u64),
        payload,
    )
}

pub open spec fn packet_timer(
    kind: SessionTimerPacketType,
    addr: SocketAddr,
    pkid: u16,
) -> SessionTimerPayload {
    SessionTimerPayload::RecvPacketTimer(kind, addr, pkid)
}

pub open spec fn cancel_timer(payload: SessionTimerPayload) -> SessionActionModel {
    SessionActionModel::Timer(SessionTimerAction::Cancel, payload)
}

/// Sending a message to the client: above level zero it stays in flight, under a timer.
pub open spec fn send_publish(s: SessionModel, p: PublishModel, now: u64) -> (
    SessionModel,
    Seq<SessionActionModel>,
) {
    let bytes = seq![hub::send_action(s.addr, wire::publish_bytes(p))];
    match (s.persistent, p.qos) {
        (Some(ps), QoSWithPacketIdentifier::Level1(pkid)) => (
            SessionModel {
                persistent: Some(
                    PersistentModel { qos1_send: window::put(ps.qos1_send, pkid, p), ..ps },
                ),
                ..s
            },
            bytes.push(
                set_timer(
                    now,
                    s.recv_packet_timeout,
                    packet_timer(SessionTimerPacketType::RecvPubackTimeout, s.addr, pkid),
                ),
            ),
        ),
        (Some(ps), QoSWithPacketIdentifier::Level2(pkid)) => (
            SessionModel {
                persistent: Some(
                    PersistentModel {
                        qos2_send: window::put(ps.qos2_send, pkid, (p, false, false)),
                        ..ps
                    },
                ),
                ..s
            },
            bytes.push(
                set_timer(
                    now,
                    s.recv_packet_timeout,
                    packet_timer(SessionTimerPacketType::RecvPubrecTimeout, s.addr, pkid),
                ),
            ),
        ),
        _ => (s, bytes),
    }
}

/// What a published message changes in the retained ones: an empty one clears its topic, any other
/// takes its topic's place.
pub open spec fn retain_actions(user_id: UserId, p: PublishModel) -> Seq<SessionActionModel> {
    if !p.retain {
        Seq::empty()
    } else if p.payload.len() == 0 {
        seq![SessionActionModel::Retain(GlobalRetainMsgModel::Remove(user_id, p.topic))]
    } else {
        seq![SessionActionModel::Retain(GlobalRetainMsgModel::Insert(user_id, p))]
    }
}

/// Receiving a message of the client `ps`: it is retained, forwarded, and unless it is the last
/// will acknowledged as its level asks.
pub open spec fn recv_publish(
    s: SessionModel,
    ps: PersistentModel,
    p: PublishModel,
    is_will: bool,
    now: u64,
) -> (SessionModel, Seq<SessionActionModel>) {
    let forwarded = retain_actions(ps.user_id, p).push(
        SessionActionModel::Router(LocalRouterMsgModel::ForwardPublish(ps.user_id, p)),
    );
    if is_will {
        (s, forwarded)
    } else {
        match p.qos {
            QoSWithPacketIdentifier::Level0 => (s, forwarded),
            QoSWithPacketIdentifier::Level1(pkid) => (
                s,
                forwarded.push(hub::send_action(s.addr, wire::puback_bytes(pkid))),
            ),
            QoSWithPacketIdentifier::Level2(pkid) => (
                SessionModel {
                    persistent: Some(
                        PersistentModel {
                            qos2_recv: window::put(ps.qos2_recv, pkid, (p, true, false)),
                            ..ps
                        },
                    ),
                    ..s
                },
                forwarded.push(hub::send_action(s.addr, wire::pubrec_bytes(pkid))).push(
                    set_timer(
                        now,
                        s.recv_packet_timeout,
                        packet_timer(SessionTimerPacketType::RecvPubrelTimeout, s.addr, pkid),
                    ),
                ),
            ),
        }
    }
}

/// Messages of level one are sent again.
pub open spec fn redeliver_qos1(addr: SocketAddr, w: Seq<(u16, PublishModel)>) -> Seq<
    SessionActionModel,
> {
    w.map_values(|e: (u16, PublishModel)| hub::send_action(addr, wire::publish_bytes(e.1)))
}

/// Of a message of level two that was sent, PUBREL is sent again where PUBREC came, else the
/// message.
pub open spec fn redeliver_qos2_send(
    addr: SocketAddr,
    timeout: u64,
    w: Seq<(u16, Handshake)>,
    now: u64,
) -> Seq<SessionActionModel>
    decreases w.len(),
{
    if w.len() == 0 {
        Seq::empty()
    } else {
        let (pkid, (p, pubrec, _)) = w.last();
        let before = redeliver_qos2_send(addr, timeout, w.drop_last(), now);
        if pubrec {
            before.push(hub::send_action(addr, wire::pubrel_bytes(pkid))).push(
                set_timer(
                    now,
                    timeout,
                    packet_timer(SessionTimerPacketType::RecvPubcompTimeout, addr, pkid),
                ),
            )
        } else {
            before.push(hub::send_action(addr, wire::publish_bytes(p)))
        }
    }
}

/// Of a message of level two that was received, PUBCOMP is sent again where it was released, else
/// PUBREC.
pub open spec fn redeliver_qos2_recv(
    addr: SocketAddr,
    timeout: u64,
    w: Seq<(u16, Handshake)>,
    now: u64,
) -> Seq<SessionActionModel>
    decreases w.len(),
{
    if w.len() == 0 {
        Seq::empty()
    } else {
        let (pkid, (_, _, pubrel)) = w.last();
        let before = redeliver_qos2_recv(addr, timeout, w.drop_last(), now);
        if pubrel {
            before.push(hub::send_action(addr, wire::pubcomp_bytes(pkid)))
        } else {
            before.push(hub::send_action(addr, wire::pubrec_bytes(pkid))).push(
                set_timer(
                    now,
                    timeout,
                    packet_timer(SessionTimerPacketType::RecvPubrelTimeout, addr, pkid),
                ),
            )
        }
    }
}

/// The received messages that are not yet released.
pub open spec fn unreleased(w: Seq<(u16, Handshake)>) -> Seq<(u16, Handshake)> {
    w.filter(|e: (u16, Handshake)| !(e.1).2)
}

/// Taking up what an earlier connection left in flight.
pub open spec fn redelivery(s: SessionModel, now: u64) -> (SessionModel, Seq<SessionActionModel>) {
    match s.persistent {
        None => (s, Seq::empty()),
        Some(ps) => (
            SessionModel {
                persistent: Some(PersistentModel { qos2_recv: unreleased(ps.qos2_recv), ..ps }),
                ..s
            },
            redeliver_qos1(s.addr, ps.qos1_send) + redeliver_qos2_send(
                s.addr,
                s.recv_packet_timeout,
                ps.qos2_send,
                now,
            ) + redeliver_qos2_recv(s.addr, s.recv_packet_timeout, ps.qos2_recv, now),
        ),
    }
}

/// The seconds of silence after which a client counts as gone: one and a half times what it asked
/// for, but never longer than the limit, which also stands where it asked for none.
pub open spec fn keep_alive_limit(limit: u64, keep_alive: u16) -> u64 {
    let asked = (keep_alive * 3 / 2) as u64;
    if 0 < asked < limit {
        asked
    } else {
        limit
    }
}

/// The reason for which a client with another protocol, whose name is given in quotation marks, is
/// disconnected.
pub open spec fn protocol_reason(quoted_name: Seq<char>) -> Seq<char> {
    "Invalid protocol name: "@ + quoted_name + "!"@
}

/// A CONNECT packet.
pub open spec fn on_connect(w: WorldModel, c: ConnectModel, now: u64) -> StepModel {
    let s = w.session;
    if s.connected {
        refuse(w, "Client already connected!"@)
    } else if c.protocol_name != "MQTT"@ {
        refuse(w, protocol_reason(text::quoted(c.protocol_name)))
    } else {
        let key = (UserId(0), c.client_identifier);
        let persistent = if !c.clean_session && w.persistents.contains_key(key) {
            w.persistents[key]
        } else {
            fresh_persistent(UserId(0), c.client_identifier)
        };
        let connected = SessionModel {
            connected: true,
            connect_packet: Some(c),
            persistent: Some(persistent),
            keep_alive_timeout: keep_alive_limit(s.keep_alive_timeout, c.keep_alive),
            ..s
        };
        let (session, redelivered) = redelivery(connected, now);
        StepModel {
            world: WorldModel {
                session,
                addrs: w.addrs.insert(key, s.addr),
                persistents: w.persistents.remove(key),
            },
            actions: seq![
                hub::send_action(s.addr, wire::connack_bytes(false, wire::CONNECTION_ACCEPTED)),
            ] + redelivered,
            fault: None,
        }
    }
}

/// The client's connection is closed.
pub open spec fn refuse(w: WorldModel, reason: Seq<char>) -> StepModel {
    in_world(w, refused(w.session, reason))
}

pub open spec fn refused(s: SessionModel, reason: Seq<char>) -> SessionStep {
    session_step(s, seq![hub::disconnect_action(s.addr, reason)])
}

pub open spec fn session_step(s: SessionModel, actions: Seq<SessionActionModel>) -> SessionStep {
    SessionStep { session: s, actions, fault: None }
}

pub open spec fn in_world(w: WorldModel, step: SessionStep) -> StepModel {
    StepModel {
        world: WorldModel { session: step.session, ..w },
        actions: step.actions,
        fault: step.fault,
    }
}

pub open spec fn with_persistent(s: SessionModel, ps: PersistentModel) -> SessionModel {
    SessionModel { persistent: Some(ps), ..s }
}

/// PUBLISH.
pub open spec fn on_publish(
    s: SessionModel,
    ps: PersistentModel,
    p: PublishModel,
    now: u64,
) -> SessionStep {
    let (session, actions) = recv_publish(s, ps, p, false, now);
    session_step(session, actions)
}

/// PUBACK: the message is no longer in flight.
pub open spec fn on_puback(s: SessionModel, ps: PersistentModel, pkid: u16) -> SessionStep {
    session_step(
        with_persistent(
            s,
            PersistentModel { qos1_send: window::erase(ps.qos1_send, pkid), ..ps },
        ),
        seq![cancel_timer(packet_timer(SessionTimerPacketType::RecvPubackTimeout, s.addr, pkid))],
    )
}

/// PUBREC: where the message is in flight, it is released.
pub open spec fn on_pubrec(
    s: SessionModel,
    ps: PersistentModel,
    pkid: u16,
    now: u64,
) -> SessionStep {
    let cancel = cancel_timer(
        packet_timer(SessionTimerPacketType::RecvPubrecTimeout, s.addr, pkid),
    );
    match window::get(ps.qos2_send, pkid) {
        None => session_step(s, seq![cancel]),
        Some(h) => session_step(
            with_persistent(
                s,
                PersistentModel {
                    qos2_send: window::put(
                        window::erase(ps.qos2_send, pkid),
                        pkid,
                        (h.0, true, true),
                    ),
                    ..ps
                },
            ),
            seq![
                cancel,
                hub::send_action(s.addr, wire::pubrel_bytes(pkid)),
                set_timer(
                    now,
                    s.recv_packet_timeout,
                    packet_timer(SessionTimerPacketType::RecvPubcompTimeout, s.addr, pkid),
                ),
            ],
        ),
    }
}

/// PUBREL: the received message is complete.
pub open spec fn on_pubrel(s: SessionModel, ps: PersistentModel, pkid: u16) -> SessionStep {
    let cancel = cancel_timer(
        packet_timer(SessionTimerPacketType::RecvPubrelTimeout, s.addr, pkid),
    );
    if window::holds(ps.qos2_recv, pkid) {
        session_step(
            with_persistent(
                s,
                PersistentModel { qos2_recv: window::erase(ps.qos2_recv, pkid), ..ps },
            ),
            seq![cancel, hub::send_action(s.addr, wire::pubcomp_bytes(pkid))],
        )
    } else {
        SessionStep {
            session: s,
            actions: seq![cancel],
            fault: Some(SessionFault::UnexpectedPubrel),
        }
    }
}

/// PUBCOMP: the sent message is complete.
pub open spec fn on_pubcomp(s: SessionModel, ps: PersistentModel, pkid: u16) -> SessionStep {
    let cancel = cancel_timer(
        packet_timer(SessionTimerPacketType::RecvPubcompTimeout, s.addr, pkid),
    );
    if window::holds(ps.qos2_send, pkid) {
        session_step(
            with_persistent(
                s,
                PersistentModel { qos2_send: window::erase(ps.qos2_send, pkid), ..ps },
            ),
            seq![cancel],
        )
    } else {
        SessionStep {
            session: s,
            actions: seq![cancel],
            fault: Some(SessionFault::UnexpectedPubcomp),
        }
    }
}

/// DISCONNECT: the connection is closed and the last will forgotten.
pub open spec fn on_disconnect(s: SessionModel) -> SessionStep {
    SessionStep {
        session: SessionModel {
            connect_packet: match s.connect_packet {
                Some(c) => Some(ConnectModel { will: None, ..c }),
                None => None,
            },
            ..s
        },
        ..refused(s, "Receive disconnect packet!"@)
    }
}

/// SUBSCRIBE: told to the router, and granted as asked.
pub open spec fn on_subscribe(
    s: SessionModel,
    ps: PersistentModel,
    m: SubscribeModel,
) -> SessionStep {
    session_step(
        s,
        seq![
            SessionActionModel::Router(
                LocalRouterMsgModel::Subscribe(ps.user_id, ps.client_identifier, s.addr, m),
            ),
            hub::send_action(
                s.addr,
                wire::suback_bytes(
                    m.pkid,
                    m.subscribes.map_values(|e: (Seq<char>, QualityOfService)| e.1.number()),
                ),
            ),
        ],
    )
}

/// UNSUBSCRIBE: told to the router, and acknowledged.
pub open spec fn on_unsubscribe(
    s: SessionModel,
    ps: PersistentModel,
    m: UnsubscribeModel,
) -> SessionStep {
    session_step(
        s,
        seq![
            SessionActionModel::Router(
                LocalRouterMsgModel::Unsubscribe(ps.user_id, ps.client_identifier, m),
            ),
            hub::send_action(s.addr, wire::unsuback_bytes(m.pkid)),
        ],
    )
}

/// A packet, other than CONNECT, of the connected client `ps`.
pub open spec fn on_connected(
    s: SessionModel,
    ps: PersistentModel,
    p: PacketModel,
    now: u64,
) -> SessionStep {
    match p {
        PacketModel::Publish(m) => on_publish(s, ps, m, now),
        PacketModel::Puback(pkid) => on_puback(s, ps, pkid),
        PacketModel::Pubrec(pkid) => on_pubrec(s, ps, pkid, now),
        PacketModel::Pubrel(pkid) => on_pubrel(s, ps, pkid),
        PacketModel::Pubcomp(pkid) => on_pubcomp(s, ps, pkid),
        PacketModel::Pingreq => session_step(
            s,
            seq![hub::send_action(s.addr, wire::pingresp_bytes())],
        ),
        PacketModel::Disconnect => on_disconnect(s),
        PacketModel::Subscribe(m) => on_subscribe(s, ps, m),
        PacketModel::Unsubscribe(m) => on_unsubscribe(s, ps, m),
        _ => refused(s, "Can't send broker only packets!"@),
    }
}

/// A packet from the client.
#[verifier::opaque]
pub open spec fn on_packet(w: WorldModel, p: PacketModel, now: u64) -> StepModel {
    match p {
        PacketModel::Connect(c) => on_connect(w, c, now),
        _ => match w.session.persistent {
            None => refuse(w, "Client not connected yet!"@),
            Some(ps) => in_world(w, on_connected(w.session, ps, p, now)),
        },
    }
}

/// A sequence of packets, as first bytes and bodies. The first fault ends it.
pub open spec fn on_packets(w: WorldModel, packets: Seq<(u8, Seq<u8>)>, now: u64) -> StepModel
    decreases packets.len(),
{
    if packets.len() == 0 {
        StepModel { world: w, actions: Seq::empty(), fault: None }
    } else {
        match wire::decoded(packets[0].0, packets[0].1) {
            None => StepModel {
                world: w,
                actions: Seq::empty(),
                fault: Some(SessionFault::UndecodablePacket),
            },
            Some(p) => {
                let first = on_packet(w, p, now);
                if first.fault is Some {
                    first
                } else {
                    let rest = on_packets(first.world, packets.drop_first(), now);
                    StepModel { actions: first.actions + rest.actions, ..rest }
                }
            },
        }
    }
}

/// Bytes from the client, cut into packets: the packets in order, then what is wrong with the
/// bytes after them. A packet puts off the end of the client's time.
pub open spec fn on_frames(w: WorldModel, f: Frames, now: u64) -> StepModel {
    let handled = on_packets(w, f.packets, now);
    if handled.fault is Some {
        handled
    } else {
        let addr = w.session.addr;
        match f.end {
            FramesEnd::BadHeader => StepModel {
                fault: Some(SessionFault::UndecodableHeader),
                ..handled
            },
            _ => {
                let actions = if f.end is BadLength {
                    handled.actions.push(hub::disconnect_action(addr, "Invalid header length!"@))
                } else {
                    handled.actions
                };
                StepModel {
                    actions: if f.packets.len() > 0 {
                        actions.push(
                            set_timer(
                                now,
                                handled.world.session.keep_alive_timeout,
                                SessionTimerPayload::KeepAliveTimer(addr),
                            ),
                        )
                    } else {
                        actions
                    },
                    ..handled
                }
            },
        }
    }
}

/// A packet changes neither the address nor the packet timeout, and never lengthens the time after
/// which the client counts as gone.
pub proof fn lemma_on_packet_frame(w: WorldModel, p: PacketModel, now: u64)
    ensures
        on_packet(w, p, now).world.session.addr == w.session.addr,
        on_packet(w, p, now).world.session.recv_packet_timeout == w.session.recv_packet_timeout,
        on_packet(w, p, now).world.session.keep_alive_timeout <= w.session.keep_alive_timeout,
{
    reveal(on_packet);
}

} // verus!
