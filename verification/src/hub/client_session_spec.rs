//! What the sessions of all clients do, as mathematics.
use vstd::prelude::*;

use crate::common::{SocketAddr, UserId};
use crate::hub;
use crate::hub::session_spec;
use crate::hub::session_spec::{
    PersistentModel, SessionFault, SessionModel, SessionStep, WorldModel,
};
use crate::hub::{
    ClientSessionMsgModel, LocalRouterMsgModel, SessionActionModel, SessionTimerPacketType,
    SessionTimerPayload,
};
use crate::qos::{QoSWithPacketIdentifier, QualityOfService};
use crate::window;
use crate::wire;
use crate::wire::{ConnectModel, FixedHeader, PacketModel, PublishModel};

verus! {

/// Seconds after which a packet that the client owes is asked for again.
pub const RECV_PACKET_TIMEOUT: u64 = 20;

/// Seconds of silence after which a client counts as gone, unless it asked for less.
pub const DEFAULT_KEEP_ALIVE: u64 = 30;

/// A session with the bytes that belong to no whole packet yet.
#[verifier::ext_equal]
pub struct ConnectionModel {
    pub session: SessionModel,
    pub bytes: Seq<u8>,
    pub header: Option<FixedHeader>,
}

/// The sessions of all clients, the addresses of those that are connected, and what is kept of
/// those that left.
#[verifier::ext_equal]
pub struct HubModel {
    pub addrs: Map<(UserId, Seq<char>), SocketAddr>,
    pub sessions: Map<SocketAddr, ConnectionModel>,
    pub persistents: Map<(UserId, Seq<char>), PersistentModel>,
}

/// What comes of a message. After a fault the state means nothing.
#[verifier::ext_equal]
pub struct HubStep {
    pub hub: HubModel,
    pub actions: Seq<SessionActionModel>,
    pub fault: Option<SessionFault>,
}

/// The client that the messages in flight belong to.
pub open spec fn key_of(p: PersistentModel) -> (UserId, Seq<char>) {
    (p.user_id, p.client_identifier)
}

/// What holds of a session among the others: it is connected, and knows its client, or neither;
/// its client belongs to the first user, as all do; and addresses of clients that lead to it lead to
/// its client.
pub open spec fn world_wf(w: WorldModel) -> bool {
    &&& w.session.connected <==> w.session.connect_packet is Some
    &&& w.session.connected <==> w.session.persistent is Some
    &&& w.session.recv_packet_timeout == RECV_PACKET_TIMEOUT
    &&& w.session.keep_alive_timeout <= DEFAULT_KEEP_ALIVE
    &&& w.session.persistent matches Some(ps) ==> ps.user_id == UserId(0)
    &&& forall|k: (UserId, Seq<char>)| #[trigger]
        w.addrs.contains_key(k) && w.addrs[k] == w.session.addr ==> w.session.persistent is Some
            && key_of(w.session.persistent->0) == k
    &&& forall|k: (UserId, Seq<char>)| #[trigger]
        w.persistents.contains_key(k) ==> key_of(w.persistents[k]) == k && k.0 == UserId(0)
}

/// The addresses of clients lead to sessions that are connected to them, and all clients belong to
/// the first user.
pub open spec fn hub_wf(h: HubModel) -> bool {
    &&& forall|addr: SocketAddr| #[trigger]
        h.sessions.contains_key(addr) ==> {
            let s = h.sessions[addr].session;
            &&& s.addr == addr
            &&& s.connected <==> s.connect_packet is Some
            &&& s.connected <==> s.persistent is Some
            &&& s.recv_packet_timeout == RECV_PACKET_TIMEOUT
            &&& s.keep_alive_timeout <= DEFAULT_KEEP_ALIVE
            &&& s.persistent matches Some(ps) ==> ps.user_id == UserId(0)
        }
    &&& forall|k: (UserId, Seq<char>)| #[trigger]
        h.addrs.contains_key(k) ==> {
            &&& h.sessions.contains_key(h.addrs[k])
            &&& h.sessions[h.addrs[k]].session.persistent is Some
            &&& key_of(h.sessions[h.addrs[k]].session.persistent->0) == k
        }
    &&& forall|k: (UserId, Seq<char>)| #[trigger]
        h.persistents.contains_key(k) ==> key_of(h.persistents[k]) == k && k.0 == UserId(0)
}

/// Nothing happens.
pub open spec fn unchanged(h: HubModel) -> HubStep {
    HubStep { hub: h, actions: Seq::empty(), fault: None }
}

pub open spec fn faulty(h: HubModel, fault: SessionFault) -> HubStep {
    HubStep { hub: h, actions: Seq::empty(), fault: Some(fault) }
}

/// A session before its first byte.
pub open spec fn fresh_session(addr: SocketAddr) -> SessionModel {
    SessionModel {
        addr,
        recv_packet_timeout: RECV_PACKET_TIMEOUT,
        keep_alive_timeout: DEFAULT_KEEP_ALIVE,
        connected: false,
        connect_packet: None,
        persistent: None,
    }
}

pub open spec fn with_session(h: HubModel, addr: SocketAddr, s: SessionModel) -> HubModel {
    HubModel {
        sessions: h.sessions.insert(addr, ConnectionModel { session: s, ..h.sessions[addr] }),
        ..h
    }
}

/// Bytes from a client. The first ones open its session and start its time.
pub open spec fn on_data(h: HubModel, addr: SocketAddr, data: Seq<u8>, now: u64) -> HubStep {
    let known = h.sessions.contains_key(addr);
    let conn = if known {
        h.sessions[addr]
    } else {
        ConnectionModel { session: fresh_session(addr), bytes: Seq::empty(), header: None }
    };
    let opening = if known {
        Seq::empty()
    } else {
        seq![
            session_spec::set_timer(
                now,
                DEFAULT_KEEP_ALIVE,
                SessionTimerPayload::KeepAliveTimer(addr),
            ),
        ]
    };
    let frames = wire::frames(conn.bytes + data, conn.header);
    let step = session_spec::on_frames(
        WorldModel { session: conn.session, addrs: h.addrs, persistents: h.persistents },
        frames,
        now,
    );
    HubStep {
        hub: HubModel {
            addrs: step.world.addrs,
            sessions: h.sessions.insert(
                addr,
                ConnectionModel {
                    session: step.world.session,
                    bytes: frames.rest,
                    header: frames.header,
                },
            ),
            persistents: step.world.persistents,
        },
        actions: opening + step.actions,
        fault: step.fault,
    }
}

/// The message that a client left as its last will.
pub open spec fn will_message(c: ConnectModel) -> Option<PublishModel> {
    match c.will {
        None => None,
        Some((topic, payload)) => Some(
            PublishModel {
                topic,
                qos: wire::level_of(c.will_qos).with(0),
                payload,
                retain: c.will_retain,
                dup: false,
            },
        ),
    }
}

/// A client is gone: its connection is closed and its session ends. Its subscriptions end with a
/// clean session, else its messages in flight are kept. Its last will is published.
pub open spec fn on_client_disconnect(
    h: HubModel,
    addr: SocketAddr,
    reason: Seq<char>,
    now: u64,
) -> HubStep {
    if !h.sessions.contains_key(addr) {
        unchanged(h)
    } else {
        let s = h.sessions[addr].session;
        let closing = seq![hub::disconnect_action(addr, reason)];
        let sessions = h.sessions.remove(addr);
        match (s.persistent, s.connect_packet) {
            (Some(ps), Some(c)) => {
                let leaving = if c.clean_session {
                    closing.push(
                        SessionActionModel::Router(
                            LocalRouterMsgModel::ClientDisconnect(
                                ps.user_id,
                                ps.client_identifier,
                            ),
                        ),
                    )
                } else {
                    closing
                };
                let hub = HubModel {
                    addrs: h.addrs.remove(key_of(ps)),
                    sessions,
                    persistents: if c.clean_session {
                        h.persistents
                    } else {
                        h.persistents.insert(key_of(ps), ps)
                    },
                };
                match will_message(c) {
                    None => HubStep { hub, actions: leaving, fault: None },
                    Some(p) => if c.will_qos > 2 {
                        HubStep { hub, actions: leaving, fault: Some(SessionFault::InvalidWillQos) }
                    } else {
                        HubStep {
                            hub,
                            actions: leaving + session_spec::recv_publish(s, ps, p, true, now).1,
                            fault: None,
                        }
                    },
                }
            },
            _ => HubStep { hub: HubModel { sessions, ..h }, actions: closing, fault: None },
        }
    }
}

/// A message for the client with the given session: it gets the next identifier and goes out at
/// `level`.
pub open spec fn deliver(
    s: SessionModel,
    p: PublishModel,
    level: QualityOfService,
    now: u64,
) -> SessionStep {
    match s.persistent {
        None => SessionStep {
            session: s,
            actions: Seq::empty(),
            fault: Some(SessionFault::NoSession),
        },
        Some(ps) => match session_spec::next_pkid(ps) {
            None => SessionStep {
                session: s,
                actions: Seq::empty(),
                fault: Some(SessionFault::NoPacketIdentifier),
            },
            Some(pkid) => {
                let (session, actions) = session_spec::send_publish(
                    session_spec::with_persistent(s, PersistentModel { pkid, ..ps }),
                    PublishModel { qos: level.with(pkid), ..p },
                    now,
                );
                session_spec::session_step(session, actions)
            },
        },
    }
}

/// A message from the router for a subscribed client: neither retained nor a repetition, and at the
/// lower of its own level and the subscription's. A client that is not connected does not get it.
pub open spec fn on_publish(
    h: HubModel,
    user_id: UserId,
    client_identifier: Seq<char>,
    subscribe_qos: QualityOfService,
    p: PublishModel,
    now: u64,
) -> HubStep {
    let key = (user_id, client_identifier);
    if !h.addrs.contains_key(key) {
        unchanged(h)
    } else {
        let addr = h.addrs[key];
        let level = p.qos.level().lower(subscribe_qos);
        let plain = PublishModel { retain: false, dup: false, ..p };
        if level == QualityOfService::Level0 {
            HubStep {
                hub: h,
                actions: seq![
                    hub::send_action(
                        addr,
                        wire::publish_bytes(
                            PublishModel { qos: QoSWithPacketIdentifier::Level0, ..plain },
                        ),
                    ),
                ],
                fault: None,
            }
        } else {
            let step = deliver(h.sessions[addr].session, plain, level, now);
            HubStep {
                hub: with_session(h, addr, step.session),
                actions: step.actions,
                fault: step.fault,
            }
        }
    }
}

/// Retained messages for a client that has just subscribed, one after the other.
pub open spec fn deliver_retained(
    s: SessionModel,
    packets: Seq<PublishModel>,
    subscribe_qos: QualityOfService,
    now: u64,
) -> SessionStep
    decreases packets.len(),
{
    if packets.len() == 0 {
        session_spec::session_step(s, Seq::empty())
    } else {
        let before = deliver_retained(s, packets.drop_last(), subscribe_qos, now);
        if before.fault is Some {
            before
        } else {
            let p = packets.last();
            let step = deliver(
                before.session,
                PublishModel { retain: true, dup: false, ..p },
                p.qos.level().lower(subscribe_qos),
                now,
            );
            SessionStep { actions: before.actions + step.actions, ..step }
        }
    }
}

/// Retained messages for the client at an address: marked as retained, no repetitions, and each at
/// the lower of its own level and the subscription's.
pub open spec fn on_retain_packets(
    h: HubModel,
    addr: SocketAddr,
    packets: Seq<PublishModel>,
    subscribe_qos: QualityOfService,
    now: u64,
) -> HubStep {
    if !h.sessions.contains_key(addr) {
        faulty(h, SessionFault::NoSession)
    } else {
        let step = deliver_retained(h.sessions[addr].session, packets, subscribe_qos, now);
        HubStep {
            hub: with_session(h, addr, step.session),
            actions: step.actions,
            fault: step.fault,
        }
    }
}

/// What is sent again to a client that owes a packet: the message as a repetition, PUBREL or
/// PUBREC. `None` where it no longer owes it.
pub open spec fn resend(
    s: SessionModel,
    kind: SessionTimerPacketType,
    pkid: u16,
    now: u64,
) -> Option<(SessionModel, Seq<SessionActionModel>)> {
    match s.persistent {
        None => None,
        Some(ps) => match kind {
            SessionTimerPacketType::RecvPubackTimeout => match window::get(ps.qos1_send, pkid) {
                None => None,
                Some(p) => Some(
                    session_spec::send_publish(s, PublishModel { dup: true, ..p }, now),
                ),
            },
            SessionTimerPacketType::RecvPubrecTimeout => match window::get(ps.qos2_send, pkid) {
                None => None,
                Some(e) => Some(
                    session_spec::send_publish(s, PublishModel { dup: true, ..e.0 }, now),
                ),
            },
            SessionTimerPacketType::RecvPubcompTimeout => if window::holds(ps.qos2_send, pkid) {
                Some((s, seq![hub::send_action(s.addr, wire::pubrel_bytes(pkid))]))
            } else {
                None
            },
            SessionTimerPacketType::RecvPubrelTimeout => if window::holds(ps.qos2_recv, pkid) {
                Some((s, seq![hub::send_action(s.addr, wire::pubrec_bytes(pkid))]))
            } else {
                None
            },
        },
    }
}

/// A timer has run out: what the client owes is asked for again and the timer set anew; a silent
/// client is disconnected.
pub open spec fn on_timeout(h: HubModel, payload: SessionTimerPayload, now: u64) -> HubStep {
    match payload {
        SessionTimerPayload::KeepAliveTimer(addr) => HubStep {
            hub: h,
            actions: seq![hub::disconnect_action(addr, "Keep-Alive timeout!"@)],
            fault: None,
        },
        SessionTimerPayload::RecvPacketTimer(kind, addr, pkid) => {
            if !h.sessions.contains_key(addr) {
                unchanged(h)
            } else {
                match resend(h.sessions[addr].session, kind, pkid, now) {
                    None => unchanged(h),
                    Some((session, actions)) => HubStep {
                        hub: with_session(h, addr, session),
                        actions: actions.push(
                            session_spec::set_timer(now, RECV_PACKET_TIMEOUT, payload),
                        ),
                        fault: None,
                    },
                }
            }
        },
    }
}

/// A message to the sessions.
pub open spec fn on_msg(h: HubModel, msg: ClientSessionMsgModel, now: u64) -> HubStep {
    match msg {
        ClientSessionMsgModel::Data(addr, data) => on_data(h, addr, data, now),
        ClientSessionMsgModel::ClientDisconnect(addr, reason) => on_client_disconnect(
            h,
            addr,
            reason,
            now,
        ),
        ClientSessionMsgModel::Publish(user_id, client_identifier, qos, p) => on_publish(
            h,
            user_id,
            client_identifier,
            qos,
            p,
            now,
        ),
        ClientSessionMsgModel::RetainPackets(_, addr, packets, qos) => on_retain_packets(
            h,
            addr,
            packets,
            qos,
            now,
        ),
        ClientSessionMsgModel::Timeout(payload) => on_timeout(h, payload, now),
    }
}

/// `hub_wf` does not depend on the bytes that have come.
pub proof fn lemma_hub_wf_without_bytes(a: HubModel, b: HubModel)
    requires
        hub_wf(a),
        a.addrs == b.addrs,
        a.persistents == b.persistents,
        forall|addr: SocketAddr| #[trigger]
            a.sessions.contains_key(addr) <==> b.sessions.contains_key(addr),
        forall|addr: SocketAddr| #[trigger]
            b.sessions.contains_key(addr) ==> a.sessions[addr].session == b.sessions[addr].session,
    ensures
        hub_wf(b),
{
    assert forall|addr: SocketAddr| #[trigger] b.sessions.contains_key(addr) implies a.sessions.contains_key(
        addr,
    ) by {}
    assert forall|k: (UserId, Seq<char>)| #[trigger] b.addrs.contains_key(k) implies {
        &&& b.sessions.contains_key(b.addrs[k])
        &&& b.sessions[b.addrs[k]].session.persistent is Some
        &&& key_of(b.sessions[b.addrs[k]].session.persistent->0) == k
    } by {
        assert(a.sessions.contains_key(a.addrs[k]));
    }
}

/// A packet keeps `world_wf`, and gives out no address but the session's own.
pub proof fn lemma_on_packet_wf(w: WorldModel, p: PacketModel, now: u64)
    requires
        world_wf(w),
    ensures
        world_wf(session_spec::on_packet(w, p, now).world),
        session_spec::on_packet(w, p, now).world.session.addr == w.session.addr,
        forall|k: (UserId, Seq<char>)| #[trigger]
            session_spec::on_packet(w, p, now).world.addrs.contains_key(k) && session_spec::on_packet(
                w,
                p,
                now,
            ).world.addrs[k] != w.session.addr ==> w.addrs.contains_key(k) && w.addrs[k]
                == session_spec::on_packet(w, p, now).world.addrs[k],
{
    reveal(session_spec::on_packet);
}

/// Packets keep `world_wf`.
pub proof fn lemma_on_packets_wf(w: WorldModel, packets: Seq<(u8, Seq<u8>)>, now: u64)
    requires
        world_wf(w),
    ensures
        world_wf(session_spec::on_packets(w, packets, now).world),
        session_spec::on_packets(w, packets, now).world.session.addr == w.session.addr,
        forall|k: (UserId, Seq<char>)| #[trigger]
            session_spec::on_packets(w, packets, now).world.addrs.contains_key(k)
                && session_spec::on_packets(w, packets, now).world.addrs[k] != w.session.addr
                ==> w.addrs.contains_key(k) && w.addrs[k] == session_spec::on_packets(
                w,
                packets,
                now,
            ).world.addrs[k],
    decreases packets.len(),
{
    if packets.len() > 0 {
        match wire::decoded(packets[0].0, packets[0].1) {
            None => {},
            Some(p) => {
                lemma_on_packet_wf(w, p, now);
                let first = session_spec::on_packet(w, p, now);
                if first.fault is None {
                    lemma_on_packets_wf(first.world, packets.drop_first(), now);
                }
            },
        }
    }
}

/// Retained messages change nothing of a session but its messages in flight.
pub proof fn lemma_deliver_retained_frame(
    s: SessionModel,
    packets: Seq<PublishModel>,
    subscribe_qos: QualityOfService,
    now: u64,
)
    ensures
        ({
            let after = deliver_retained(s, packets, subscribe_qos, now).session;
            &&& after.addr == s.addr
            &&& after.recv_packet_timeout == s.recv_packet_timeout
            &&& after.keep_alive_timeout == s.keep_alive_timeout
            &&& after.connected == s.connected
            &&& after.connect_packet == s.connect_packet
            &&& after.persistent is Some <==> s.persistent is Some
            &&& s.persistent is Some ==> key_of(after.persistent->0) == key_of(s.persistent->0)
        }),
    decreases packets.len(),
{
    if packets.len() > 0 {
        lemma_deliver_retained_frame(s, packets.drop_last(), subscribe_qos, now);
    }
}

/// A fault on the way is the fault of the whole, and nothing is sent after it.
pub proof fn lemma_deliver_retained_faults(
    s: SessionModel,
    packets: Seq<PublishModel>,
    n: int,
    subscribe_qos: QualityOfService,
    now: u64,
)
    requires
        0 <= n <= packets.len(),
        n == packets.len() || deliver_retained(s, packets.take(n), subscribe_qos, now).fault is Some,
    ensures
        deliver_retained(s, packets, subscribe_qos, now) == deliver_retained(
            s,
            packets.take(n),
            subscribe_qos,
            now,
        ),
    decreases packets.len(),
{
    if n == packets.len() {
        assert(packets.take(n) =~= packets);
    } else {
        assert(packets.drop_last().take(n) =~= packets.take(n));
        lemma_deliver_retained_faults(s, packets.drop_last(), n, subscribe_qos, now);
    }
}

/// Law: whatever message comes, the addresses of clients lead to sessions that are connected to
/// them.
pub proof fn law_addresses_lead_to_connected_sessions(
    h: HubModel,
    msg: ClientSessionMsgModel,
    now: u64,
)
    requires
        hub_wf(h),
    ensures
        hub_wf(on_msg(h, msg, now).hub),
{
    match msg {
        ClientSessionMsgModel::Data(addr, data) => {
            let conn = if h.sessions.contains_key(addr) {
                h.sessions[addr]
            } else {
                ConnectionModel { session: fresh_session(addr), bytes: Seq::empty(), header: None }
            };
            let w = WorldModel {
                session: conn.session,
                addrs: h.addrs,
                persistents: h.persistents,
            };
            let frames = wire::frames(conn.bytes + data, conn.header);
            lemma_on_packets_wf(w, frames.packets, now);
        },
        ClientSessionMsgModel::RetainPackets(_, addr, packets, qos) => {
            if h.sessions.contains_key(addr) {
                lemma_deliver_retained_frame(h.sessions[addr].session, packets, qos, now);
            }
        },
        _ => {},
    }
}

} // verus!
