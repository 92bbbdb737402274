//! The sessions of all clients.
use vstd::prelude::*;
use vstd::string::*;

use crate::assoc::{AssocMap, Ident};
use crate::common::{ClientIdentifier, ClientKey, SocketAddr, UserId};
use crate::hub;
use crate::hub::client_session_spec;
use crate::hub::client_session_spec::{
    ConnectionModel, HubModel, DEFAULT_KEEP_ALIVE, RECV_PACKET_TIMEOUT,
};
use crate::hub::session;
use crate::hub::session::{PersistentSession, Session};
use crate::hub::session_spec;
use crate::hub::session_spec::{PersistentModel, SessionFault};
use crate::hub::{
    ClientSessionMsg, LocalRouterMsg, Outbox, SessionAction, SessionActionModel, SessionTimerAction,
    SessionTimerPayload,
};
use crate::packet::PublishPacket;
use crate::qos::{QoSWithPacketIdentifier, QualityOfService};
use crate::store;
use crate::wire;
use crate::wire::PublishModel;

verus! {

/// The sessions of all clients.
pub struct ClientSessions {
    addrs: AssocMap<ClientKey, SocketAddr>,
    sessions: AssocMap<SocketAddr, Session>,
    persistents: AssocMap<ClientKey, PersistentSession>,
}

pub open spec fn connection(s: Session) -> ConnectionModel {
    ConnectionModel { session: s@, bytes: s.bytes(), header: s.header() }
}

pub open spec fn connections(m: Map<SocketAddr, Session>) -> Map<SocketAddr, ConnectionModel> {
    m.map_values(|s: Session| connection(s))
}

impl View for ClientSessions {
    type V = HubModel;

    closed spec fn view(&self) -> HubModel {
        HubModel {
            addrs: self.addrs@,
            sessions: connections(self.sessions@),
            persistents: session::models(self.persistents@),
        }
    }
}

/// `true` iff every timer that the sessions set fits the clock.
pub open spec fn clock_fits(now: u64) -> bool {
    session_spec::clock_fits(now, DEFAULT_KEEP_ALIVE)
}

impl ClientSessions {
    /// Every session is sound, and the addresses of clients lead to sessions connected to them.
    pub closed spec fn wf(&self) -> bool {
        &&& client_session_spec::hub_wf(self@)
        &&& forall|addr: SocketAddr| #[trigger]
            self.sessions@.contains_key(addr) ==> self.sessions@[addr].wf()
    }

    pub fn new() -> (r: ClientSessions)
        ensures
            r.wf(),
            r@ == (HubModel { addrs: Map::empty(), sessions: Map::empty(), persistents: Map::empty() }),
    {
        let r = ClientSessions {
            addrs: AssocMap::new(),
            sessions: AssocMap::new(),
            persistents: AssocMap::new(),
        };
        assert(r@.sessions =~= Map::<SocketAddr, ConnectionModel>::empty());
        assert(r@.persistents =~= Map::<(UserId, Seq<char>), PersistentModel>::empty());
        r
    }

    /// Bytes from a client.
    pub fn data(&mut self, addr: SocketAddr, data: &[u8], now: u64, out: &mut Outbox) -> (r: Option<
        SessionFault,
    >)
        requires
            old(self).wf(),
            clock_fits(now),
        ensures
            final(self).wf(),
            ({
                let step = client_session_spec::on_data(old(self)@, addr, data@, now);
                &&& step.fault == r
                &&& final(out)@ == old(out)@ + step.actions
                &&& r is None ==> final(self)@ == step.hub
            }),
    {
        let ghost before = self@;
        let mut session = match self.sessions.remove(&addr) {
            Some(session) => session,
            None => {
                out.timer(
                    SessionTimerAction::SetAt(now + DEFAULT_KEEP_ALIVE * session_spec::NANOS_PER_SEC),
                    SessionTimerPayload::KeepAliveTimer(addr),
                );
                Session::new(addr, RECV_PACKET_TIMEOUT, DEFAULT_KEEP_ALIVE)
            },
        };
        let fault = session.recv_packet(&mut self.addrs, &mut self.persistents, data, now, out);
        self.sessions.insert(addr, session);
        proof {
            assert(self@.sessions =~= before.sessions.insert(addr, connection(session)));
            let step = client_session_spec::on_data(before, addr, data@, now);
            client_session_spec::law_addresses_lead_to_connected_sessions(
                before,
                hub::ClientSessionMsgModel::Data(addr, data@),
                now,
            );
            client_session_spec::lemma_hub_wf_without_bytes(step.hub, self@);
        }
        fault
    }

    /// A client is gone.
    pub fn client_disconnect(
        &mut self,
        addr: SocketAddr,
        reason: String,
        now: u64,
        out: &mut Outbox,
    ) -> (r: Option<SessionFault>)
        requires
            old(self).wf(),
            clock_fits(now),
        ensures
            final(self).wf(),
            ({
                let step = client_session_spec::on_client_disconnect(
                    old(self)@,
                    addr,
                    reason@,
                    now,
                );
                &&& step.fault == r
                &&& final(out)@ == old(out)@ + step.actions
                &&& r is None ==> final(self)@ == step.hub
            }),
    {
        let ghost before = self@;
        let ghost step = client_session_spec::on_client_disconnect(before, addr, reason@, now);
        proof {
            client_session_spec::law_addresses_lead_to_connected_sessions(
                before,
                hub::ClientSessionMsgModel::ClientDisconnect(addr, reason@),
                now,
            );
        }
        let mut session = match self.sessions.remove(&addr) {
            Some(session) => session,
            None => {
                assert(connections(self.sessions@) =~= before.sessions);
                assert(out@ =~= old(out)@ + Seq::<SessionActionModel>::empty());
                return None;
            },
        };
        assert(connections(self.sessions@) =~= before.sessions.remove(addr));
        assert(connection(session) == before.sessions[addr]);
        out.disconnect(addr, reason);
        let (user_id, client_identifier) = match (session.user_id(), session.client_identifier()) {
            (Some(user_id), Some(client_identifier)) => (user_id, client_identifier),
            _ => {
                return None;
            },
        };
        let key = ClientKey { user_id, client_identifier: client_identifier.copy() };
        self.addrs.remove(&key);
        let (clean_session, will, will_qos, will_retain) = match session.connect_packet() {
            Some(packet) => (
                packet.clean_session(),
                packet.will(),
                packet.will_qos(),
                packet.will_retain(),
            ),
            None => (true, None, 0, false),
        };
        if clean_session {
            out.push(
                SessionAction::Router(LocalRouterMsg::ClientDisconnect(user_id, client_identifier)),
            );
        }
        let ghost leaving = out@;
        let mut fault: Option<SessionFault> = None;
        if let Some((topic, payload)) = will {
            match QualityOfService::from_u8(will_qos) {
                Some(level) => {
                    assert(level == wire::level_of(will_qos));
                    let mut packet = PublishPacket::new(topic, level.with(0), payload);
                    packet.set_retain(will_retain);
                    session.recv_publish(&packet, true, now, out);
                },
                None => {
                    fault = Some(SessionFault::InvalidWillQos);
                },
            }
        }
        if !clean_session {
            if let Some(persistent) = session.into_persistent() {
                self.persistents.insert(key, persistent);
            }
        }
        assert(self@.persistents =~= step.hub.persistents);
        assert(self@ =~= step.hub);
        fault
    }

    /// A message from the router for a client.
    pub fn publish(
        &mut self,
        user_id: UserId,
        client_identifier: ClientIdentifier,
        subscribe_qos: QualityOfService,
        packet: PublishPacket,
        now: u64,
        out: &mut Outbox,
    ) -> (r: Option<SessionFault>)
        requires
            old(self).wf(),
            clock_fits(now),
        ensures
            final(self).wf(),
            ({
                let step = client_session_spec::on_publish(
                    old(self)@,
                    user_id,
                    client_identifier@,
                    subscribe_qos,
                    packet@,
                    now,
                );
                &&& step.fault == r
                &&& final(out)@ == old(out)@ + step.actions
                &&& final(self)@ == step.hub
            }),
    {
        let ghost before = self@;
        proof {
            client_session_spec::law_addresses_lead_to_connected_sessions(
                before,
                hub::ClientSessionMsgModel::Publish(
                    user_id,
                    client_identifier@,
                    subscribe_qos,
                    packet@,
                ),
                now,
            );
        }
        let key = ClientKey { user_id, client_identifier };
        let addr = match self.addrs.get(&key) {
            Some(addr) => *addr,
            None => {
                assert(out@ =~= old(out)@ + Seq::<SessionActionModel>::empty());
                return None;
            },
        };
        let mut packet = packet;
        packet.set_retain(false);
        packet.set_dup(false);
        let level = packet.qos().level().min(subscribe_qos);
        if level.to_u8() == 0 {
            packet.set_qos(QoSWithPacketIdentifier::Level0);
            out.send(addr, packet.encode());
            return None;
        }
        assert(before.sessions.contains_key(addr));
        match self.sessions.remove(&addr) {
            Some(session) => {
                let mut session = session;
                let fault = session.deliver(packet, level, now, out);
                self.sessions.insert(addr, session);
                assert(self@.sessions =~= before.sessions.insert(addr, connection(session)));
                fault
            },
            None => None,
        }
    }

    /// Retained messages for the client at an address.
    pub fn retain_packets(
        &mut self,
        addr: SocketAddr,
        packets: Vec<PublishPacket>,
        subscribe_qos: QualityOfService,
        now: u64,
        out: &mut Outbox,
    ) -> (r: Option<SessionFault>)
        requires
            old(self).wf(),
            clock_fits(now),
        ensures
            final(self).wf(),
            ({
                let step = client_session_spec::on_retain_packets(
                    old(self)@,
                    addr,
                    store::publish_views(packets@),
                    subscribe_qos,
                    now,
                );
                &&& step.fault == r
                &&& final(out)@ == old(out)@ + step.actions
                &&& r is None ==> final(self)@ == step.hub
            }),
    {
        let ghost before = self@;
        let ghost views = store::publish_views(packets@);
        proof {
            client_session_spec::law_addresses_lead_to_connected_sessions(
                before,
                hub::ClientSessionMsgModel::RetainPackets(UserId(0), addr, views, subscribe_qos),
                now,
            );
        }
        let mut session = match self.sessions.remove(&addr) {
            Some(session) => session,
            None => {
                assert(connections(self.sessions@) =~= before.sessions);
                assert(out@ =~= old(out)@ + Seq::<SessionActionModel>::empty());
                return Some(SessionFault::NoSession);
            },
        };
        let ghost conn = connection(session);
        assert(conn == before.sessions[addr]);
        let mut fault: Option<SessionFault> = None;
        let mut i: usize = 0;
        assert(views.take(0) =~= Seq::<PublishModel>::empty());
        assert(out@ =~= old(out)@ + Seq::<SessionActionModel>::empty());
        while i < packets.len() && fault.is_none()
            invariant
                i <= packets@.len(),
                views == store::publish_views(packets@),
                session.wf(),
                session_spec::clock_fits(now, session@.recv_packet_timeout),
                session.bytes() == conn.bytes,
                session.header() == conn.header,
                ({
                    let done = client_session_spec::deliver_retained(
                        conn.session,
                        views.take(i as int),
                        subscribe_qos,
                        now,
                    );
                    &&& session@ == done.session
                    &&& out@ == old(out)@ + done.actions
                    &&& fault == done.fault
                }),
            decreases packets@.len() - i,
        {
            let mut packet = packets[i].copy();
            packet.set_retain(true);
            packet.set_dup(false);
            let level = packet.qos().level().min(subscribe_qos);
            proof {
                assert(views.take(i + 1).drop_last() =~= views.take(i as int));
                assert(views.take(i + 1).last() == views[i as int]);
            }
            fault = session.deliver(packet, level, now, out);
            i = i + 1;
        }
        proof {
            client_session_spec::lemma_deliver_retained_faults(
                conn.session,
                views,
                i as int,
                subscribe_qos,
                now,
            );
            client_session_spec::lemma_deliver_retained_frame(
                conn.session,
                views.take(i as int),
                subscribe_qos,
                now,
            );
            assert(views.take(views.len() as int) =~= views);
        }
        self.sessions.insert(addr, session);
        proof {
            assert(self@.sessions =~= before.sessions.insert(addr, connection(session)));
            let step = client_session_spec::on_retain_packets(
                before,
                addr,
                views,
                subscribe_qos,
                now,
            );
            assert(self@ =~= step.hub);
        }
        fault
    }

    /// A timer has run out.
    pub fn timeout(&mut self, payload: SessionTimerPayload, now: u64, out: &mut Outbox)
        requires
            old(self).wf(),
            clock_fits(now),
        ensures
            final(self).wf(),
            ({
                let step = client_session_spec::on_timeout(old(self)@, payload, now);
                &&& step.fault is None
                &&& final(out)@ == old(out)@ + step.actions
                &&& final(self)@ == step.hub
            }),
    {
        let ghost before = self@;
        proof {
            client_session_spec::law_addresses_lead_to_connected_sessions(
                before,
                hub::ClientSessionMsgModel::Timeout(payload),
                now,
            );
        }
        match payload {
            SessionTimerPayload::RecvPacketTimer(kind, addr, pkid) => {
                match self.sessions.remove(&addr) {
                    Some(session) => {
                        let mut session = session;
                        assert(before.sessions.contains_key(addr));
                        let resent = session.resend(kind, pkid, now, out);
                        self.sessions.insert(addr, session);
                        assert(self@.sessions =~= before.sessions.insert(
                            addr,
                            connection(session),
                        ));
                        if resent {
                            out.timer(
                                SessionTimerAction::SetAt(
                                    now + RECV_PACKET_TIMEOUT * session_spec::NANOS_PER_SEC,
                                ),
                                payload,
                            );
                        }
                    },
                    None => {
                        assert(connections(self.sessions@) =~= before.sessions);
                    },
                }
            },
            SessionTimerPayload::KeepAliveTimer(addr) => {
                out.disconnect(addr, "Keep-Alive timeout!".to_owned());
            },
        }
    }

    /// A message to the sessions.
    pub fn handle(&mut self, msg: ClientSessionMsg, now: u64, out: &mut Outbox) -> (r: Option<
        SessionFault,
    >)
        requires
            old(self).wf(),
            clock_fits(now),
        ensures
            final(self).wf(),
            ({
                let step = client_session_spec::on_msg(old(self)@, msg@, now);
                &&& step.fault == r
                &&& final(out)@ == old(out)@ + step.actions
                &&& r is None ==> final(self)@ == step.hub
            }),
    {
        match msg {
            ClientSessionMsg::Data(addr, data) => self.data(addr, data.as_slice(), now, out),
            ClientSessionMsg::ClientDisconnect(addr, reason) => self.client_disconnect(
                addr,
                reason,
                now,
                out,
            ),
            ClientSessionMsg::Publish(user_id, client_identifier, qos, packet) => self.publish(
                user_id,
                client_identifier,
                qos,
                packet,
                now,
                out,
            ),
            ClientSessionMsg::RetainPackets(_, addr, packets, qos) => self.retain_packets(
                addr,
                packets,
                qos,
                now,
                out,
            ),
            ClientSessionMsg::Timeout(payload) => {
                self.timeout(payload, now, out);
                None
            },
        }
    }
}

} // verus!
