//! A client's session.
use vstd::prelude::*;
use vstd::string::*;

use crate::assoc::{AssocMap, Ident};
use crate::codec;
use crate::common::{ClientIdentifier, ClientKey, SocketAddr, UserId};
use crate::framing::{NextPacket, PacketReader};
use crate::hub;
use crate::hub::client_session_spec;
use crate::hub::session_spec;
use crate::hub::session_spec::{
    Handshake, PersistentModel, SessionFault, SessionModel, StepModel, WorldModel, NANOS_PER_SEC,
};
use crate::hub::{
    LocalRouterMsg, Outbox, SessionAction, SessionActionModel, SessionTimerAction,
    SessionTimerPacketType, SessionTimerPayload,
};
use crate::packet::{
    ConnectPacket, PublishPacket, SubscribePacket, UnsubscribePacket, VariablePacket,
};
use crate::qos::{QoSWithPacketIdentifier, QualityOfService, SubscribeReturnCode};
use crate::store::GlobalRetainMsg;
use crate::text;
use crate::window;
use crate::window::Window;
use crate::wire;
use crate::wire::FixedHeader;

verus! {

/// What outlives a client's connection.
pub struct PersistentSession {
    user_id: UserId,
    client_identifier: ClientIdentifier,
    pkid: u16,
    qos1_send_packets: Window<PublishPacket>,
    qos2_send_packets: Window<(PublishPacket, bool, bool)>,
    qos2_recv_packets: Window<(PublishPacket, bool, bool)>,
}

impl View for PersistentSession {
    type V = PersistentModel;

    closed spec fn view(&self) -> PersistentModel {
        PersistentModel {
            user_id: self.user_id,
            client_identifier: self.client_identifier@,
            pkid: self.pkid,
            qos1_send: self.qos1_send_packets@,
            qos2_send: self.qos2_send_packets@,
            qos2_recv: self.qos2_recv_packets@,
        }
    }
}

impl PersistentSession {
    pub fn new(user_id: UserId, client_identifier: ClientIdentifier) -> (r: PersistentSession)
        ensures
            r@ == session_spec::fresh_persistent(user_id, client_identifier@),
    {
        PersistentSession {
            user_id,
            client_identifier,
            pkid: 0,
            qos1_send_packets: Window::new(),
            qos2_send_packets: Window::new(),
            qos2_recv_packets: Window::new(),
        }
    }

    /// Gives out the next packet identifier that is not in use; `None` where all are.
    pub fn incr_pkid(&mut self) -> (r: Option<u16>)
        ensures
            r == session_spec::next_pkid(old(self)@),
            match r {
                Some(pkid) => {
                    &&& final(self)@ == (PersistentModel { pkid, ..old(self)@ })
                    &&& 1 <= pkid
                    &&& !session_spec::pkid_used(old(self)@, pkid)
                },
                None => final(self)@ == old(self)@,
            },
    {
        let mut pkid: u16 = self.pkid;
        let mut n: u32 = 0;
        while n < 65535
            invariant
                n <= 65535,
                *self == *old(self),
                n == 0 ==> pkid == self.pkid,
                n > 0 ==> pkid == session_spec::nth_pkid(self.pkid, n as int),
                session_spec::next_pkid(self@) == session_spec::free_pkid_from(self@, n + 1),
            decreases 65535 - n,
        {
            if pkid == 65535 {
                pkid = 0;
            }
            pkid = pkid + 1;
            n = n + 1;
            assert(pkid == session_spec::nth_pkid(self.pkid, n as int));
            let used = self.qos1_send_packets.contains(pkid) || self.qos2_send_packets.contains(pkid)
                || self.qos2_recv_packets.contains(pkid);
            if !used {
                self.pkid = pkid;
                return Some(pkid);
            }
        }
        None
    }
}

/// A connection's session.
pub struct Session {
    reader: PacketReader,
    addr: SocketAddr,
    recv_packet_timeout: u64,
    keep_alive_timeout: u64,
    connected: bool,
    connect_packet: Option<ConnectPacket>,
    persistent: Option<PersistentSession>,
}

impl View for Session {
    type V = SessionModel;

    closed spec fn view(&self) -> SessionModel {
        SessionModel {
            addr: self.addr,
            recv_packet_timeout: self.recv_packet_timeout,
            keep_alive_timeout: self.keep_alive_timeout,
            connected: self.connected,
            connect_packet: match self.connect_packet {
                Some(c) => Some(c@),
                None => None,
            },
            persistent: match self.persistent {
                Some(p) => Some(p@),
                None => None,
            },
        }
    }
}

impl Session {
    /// The bytes that have come and belong to no whole packet yet.
    pub closed spec fn bytes(&self) -> Seq<u8> {
        self.reader.bytes()
    }

    /// The header of the packet whose body has not come yet.
    pub closed spec fn header(&self) -> Option<FixedHeader> {
        self.reader.header()
    }

    /// A session before its first byte. The timeouts are in seconds.
    pub fn new(addr: SocketAddr, recv_packet_timeout: u64, keep_alive_timeout: u64) -> (r: Session)
        ensures
            r@ == (SessionModel {
                addr,
                recv_packet_timeout,
                keep_alive_timeout,
                connected: false,
                connect_packet: None,
                persistent: None,
            }),
            r.bytes() == Seq::<u8>::empty(),
            r.header() is None,
    {
        Session {
            reader: PacketReader::new(),
            addr,
            recv_packet_timeout,
            keep_alive_timeout,
            connected: false,
            connect_packet: None,
            persistent: None,
        }
    }

    /// The instant `secs` seconds after `now`.
    fn after(now: u64, secs: u64) -> (r: SessionTimerAction)
        requires
            session_spec::clock_fits(now, secs),
        ensures
            r == SessionTimerAction::SetAt((now + secs * NANOS_PER_SEC) as u64),
    {
        SessionTimerAction::SetAt(now + secs * NANOS_PER_SEC)
    }

    /// Sends a message to the client.
    pub fn send_publish(&mut self, packet: &PublishPacket, now: u64, out: &mut Outbox)
        requires
            session_spec::clock_fits(now, old(self)@.recv_packet_timeout),
        ensures
            final(self)@ == session_spec::send_publish(old(self)@, packet@, now).0,
            final(out)@ == old(out)@ + session_spec::send_publish(old(self)@, packet@, now).1,
            final(self).bytes() == old(self).bytes(),
            final(self).header() == old(self).header(),
    {
        out.send(self.addr, packet.encode());
        match packet.qos() {
            QoSWithPacketIdentifier::Level1(pkid) => {
                if let Some(persistent) = &mut self.persistent {
                    persistent.qos1_send_packets.insert(pkid, packet.copy());
                    out.timer(
                        Session::after(now, self.recv_packet_timeout),
                        SessionTimerPayload::RecvPacketTimer(
                            SessionTimerPacketType::RecvPubackTimeout,
                            self.addr,
                            pkid,
                        ),
                    );
                }
            },
            QoSWithPacketIdentifier::Level2(pkid) => {
                if let Some(persistent) = &mut self.persistent {
                    persistent.qos2_send_packets.insert(pkid, (packet.copy(), false, false));
                    out.timer(
                        Session::after(now, self.recv_packet_timeout),
                        SessionTimerPayload::RecvPacketTimer(
                            SessionTimerPacketType::RecvPubrecTimeout,
                            self.addr,
                            pkid,
                        ),
                    );
                }
            },
            QoSWithPacketIdentifier::Level0 => {},
        }
    }

    /// The session is connected, and holds a client's CONNECT packet and its messages in flight, or
    /// none of these. A header that it holds is one that a packet can have.
    pub open spec fn wf(&self) -> bool {
        &&& self@.connected <==> self@.connect_packet is Some
        &&& self@.connected <==> self@.persistent is Some
        &&& self.header() matches Some(h) ==> wire::valid_first(h.packet_type) && h.remaining_length
            <= wire::MAX_REMAINING_LENGTH
    }

    /// Receives a message from the client, or its last will.
    pub fn recv_publish(
        &mut self,
        packet: &PublishPacket,
        is_will: bool,
        now: u64,
        out: &mut Outbox,
    )
        requires
            old(self)@.persistent is Some,
            session_spec::clock_fits(now, old(self)@.recv_packet_timeout),
        ensures
            ({
                let (s, actions) = session_spec::recv_publish(
                    old(self)@,
                    old(self)@.persistent->0,
                    packet@,
                    is_will,
                    now,
                );
                final(self)@ == s && final(out)@ == old(out)@ + actions
            }),
            final(self).bytes() == old(self).bytes(),
            final(self).header() == old(self).header(),
    {
        if let Some(persistent) = &mut self.persistent {
            let user_id = persistent.user_id;
            if packet.retain() {
                if packet.payload().is_empty() {
                    out.push(
                        SessionAction::Retain(
                            GlobalRetainMsg::Remove(user_id, packet.topic_name().to_owned()),
                        ),
                    );
                } else {
                    out.push(SessionAction::Retain(GlobalRetainMsg::Insert(user_id, packet.copy())));
                }
            }
            out.push(SessionAction::Router(LocalRouterMsg::ForwardPublish(user_id, packet.copy())));
            if !is_will {
                match packet.qos() {
                    QoSWithPacketIdentifier::Level0 => {},
                    QoSWithPacketIdentifier::Level1(pkid) => {
                        out.send(self.addr, codec::encode_puback(pkid));
                    },
                    QoSWithPacketIdentifier::Level2(pkid) => {
                        out.send(self.addr, codec::encode_pubrec(pkid));
                        persistent.qos2_recv_packets.insert(pkid, (packet.copy(), true, false));
                        out.timer(
                            Session::after(now, self.recv_packet_timeout),
                            SessionTimerPayload::RecvPacketTimer(
                                SessionTimerPacketType::RecvPubrelTimeout,
                                self.addr,
                                pkid,
                            ),
                        );
                    },
                }
            }
        }
    }

    /// Sends again what `w`, sent at level one, still waits for.
    fn redeliver_qos1(&self, w: &Window<PublishPacket>, out: &mut Outbox)
        ensures
            final(out)@ == old(out)@ + session_spec::redeliver_qos1(self@.addr, w@),
    {
        let n: usize = w.len();
        let mut i: usize = 0;
        while i < n
            invariant
                i <= n == w@.len(),
                out@ == old(out)@ + session_spec::redeliver_qos1(self@.addr, w@.take(i as int)),
            decreases n - i,
        {
            out.send(self.addr, w.value_at(i).encode());
            i = i + 1;
            assert(session_spec::redeliver_qos1(self@.addr, w@.take(i as int))
                =~= session_spec::redeliver_qos1(self@.addr, w@.take(i - 1)).push(
                hub::send_action(self@.addr, wire::publish_bytes(w@[i - 1].1)),
            ));
        }
        assert(w@.take(i as int) =~= w@);
    }

    /// Sends again what `w`, sent at level two, still waits for.
    fn redeliver_qos2_send(
        &mut self,
        w: &Window<(PublishPacket, bool, bool)>,
        now: u64,
        out: &mut Outbox,
    )
        requires
            old(self)@.persistent is None,
            session_spec::clock_fits(now, old(self)@.recv_packet_timeout),
        ensures
            final(self)@ == old(self)@,
            final(self).bytes() == old(self).bytes(),
            final(self).header() == old(self).header(),
            final(out)@ == old(out)@ + session_spec::redeliver_qos2_send(
                old(self)@.addr,
                old(self)@.recv_packet_timeout,
                w@,
                now,
            ),
    {
        let n: usize = w.len();
        let mut i: usize = 0;
        assert(w@.take(0) =~= Seq::<(u16, Handshake)>::empty());
        while i < n
            invariant
                i <= n == w@.len(),
                self@ == old(self)@,
                self@.persistent is None,
                session_spec::clock_fits(now, self@.recv_packet_timeout),
                self.bytes() == old(self).bytes(),
                self.header() == old(self).header(),
                out@ == old(out)@ + session_spec::redeliver_qos2_send(
                    self@.addr,
                    self@.recv_packet_timeout,
                    w@.take(i as int),
                    now,
                ),
            decreases n - i,
        {
            let pkid: u16 = w.pkid_at(i);
            let entry = w.value_at(i);
            proof {
                assert(w@.take(i + 1).drop_last() =~= w@.take(i as int));
                assert(w@.take(i + 1).last() == w@[i as int]);
            }
            if entry.1 {
                out.send(self.addr, codec::encode_pubrel(pkid));
                out.timer(
                    Session::after(now, self.recv_packet_timeout),
                    SessionTimerPayload::RecvPacketTimer(
                        SessionTimerPacketType::RecvPubcompTimeout,
                        self.addr,
                        pkid,
                    ),
                );
            } else {
                self.send_publish(&entry.0, now, out);
            }
            i = i + 1;
        }
        assert(w@.take(i as int) =~= w@);
    }

    /// Answers again what `w` holds, received at level two, and returns what is not yet released.
    fn redeliver_qos2_recv(
        &self,
        w: &Window<(PublishPacket, bool, bool)>,
        now: u64,
        out: &mut Outbox,
    ) -> (r: Window<(PublishPacket, bool, bool)>)
        requires
            session_spec::clock_fits(now, self@.recv_packet_timeout),
        ensures
            r@ == session_spec::unreleased(w@),
            final(out)@ == old(out)@ + session_spec::redeliver_qos2_recv(
                self@.addr,
                self@.recv_packet_timeout,
                w@,
                now,
            ),
    {
        let mut kept: Window<(PublishPacket, bool, bool)> = Window::new();
        let n: usize = w.len();
        let mut i: usize = 0;
        let ghost open = |e: (u16, Handshake)| !(e.1).2;
        assert(w@.take(0) =~= Seq::<(u16, Handshake)>::empty());
        assert(w@.take(0).filter(open) =~= Seq::<(u16, Handshake)>::empty()) by {
            reveal(Seq::filter);
        }
        while i < n
            invariant
                i <= n == w@.len(),
                window::distinct(w@),
                open == (|e: (u16, Handshake)| !(e.1).2),
                session_spec::clock_fits(now, self@.recv_packet_timeout),
                kept@ == w@.take(i as int).filter(open),
                out@ == old(out)@ + session_spec::redeliver_qos2_recv(
                    self@.addr,
                    self@.recv_packet_timeout,
                    w@.take(i as int),
                    now,
                ),
            decreases n - i,
        {
            let pkid: u16 = w.pkid_at(i);
            let entry = w.value_at(i);
            proof {
                assert(w@.take(i + 1).drop_last() =~= w@.take(i as int));
                assert(w@.take(i + 1).last() == w@[i as int]);
                assert(w@.take(i + 1).filter(open) == if open(w@[i as int]) {
                    w@.take(i as int).filter(open).push(w@[i as int])
                } else {
                    w@.take(i as int).filter(open)
                }) by {
                    reveal(Seq::filter);
                }
                assert forall|j: int| 0 <= j < kept@.len() implies (#[trigger] kept@[j]).0 != pkid by {
                    w@.take(i as int).lemma_filter_contains_rev(open, kept@[j]);
                    let k = choose|k: int| 0 <= k < i && w@.take(i as int)[k] == kept@[j];
                    assert(w@[k].0 != w@[i as int].0);
                }
            }
            if entry.2 {
                out.send(self.addr, codec::encode_pubcomp(pkid));
            } else {
                out.send(self.addr, codec::encode_pubrec(pkid));
                out.timer(
                    Session::after(now, self.recv_packet_timeout),
                    SessionTimerPayload::RecvPacketTimer(
                        SessionTimerPacketType::RecvPubrelTimeout,
                        self.addr,
                        pkid,
                    ),
                );
                kept.insert(pkid, (entry.0.copy(), entry.1, entry.2));
            }
            i = i + 1;
        }
        assert(w@.take(i as int) =~= w@);
        kept
    }

    /// Takes up what an earlier connection left in flight.
    pub fn redelivery_packets(&mut self, now: u64, out: &mut Outbox)
        requires
            session_spec::clock_fits(now, old(self)@.recv_packet_timeout),
        ensures
            final(self)@ == session_spec::redelivery(old(self)@, now).0,
            final(out)@ == old(out)@ + session_spec::redelivery(old(self)@, now).1,
            final(self).bytes() == old(self).bytes(),
            final(self).header() == old(self).header(),
    {
        let taken = self.persistent.take();
        if let Some(mut persistent) = taken {
            self.redeliver_qos1(&persistent.qos1_send_packets, out);
            self.redeliver_qos2_send(&persistent.qos2_send_packets, now, out);
            let kept = self.redeliver_qos2_recv(&persistent.qos2_recv_packets, now, out);
            persistent.qos2_recv_packets = kept;
            self.persistent = Some(persistent);
        }
    }

    /// A CONNECT packet.
    fn recv_connect(
        &mut self,
        packet: ConnectPacket,
        now: u64,
        addrs: &mut AssocMap<ClientKey, SocketAddr>,
        persistents: &mut AssocMap<ClientKey, PersistentSession>,
        out: &mut Outbox,
    )
        requires
            old(self).wf(),
            session_spec::clock_fits(now, old(self)@.recv_packet_timeout),
        ensures
            final(self).wf(),
            final(self).bytes() == old(self).bytes(),
            final(self).header() == old(self).header(),
            ({
                let step = session_spec::on_connect(
                    world(*old(self), *old(addrs), *old(persistents)),
                    packet@,
                    now,
                );
                &&& world(*final(self), *final(addrs), *final(persistents)) == step.world
                &&& final(out)@ == old(out)@ + step.actions
                &&& step.fault is None
            }),
    {
        if self.connected {
            out.disconnect(self.addr, "Client already connected!".to_owned());
            return;
        }
        if !text::same_text(packet.protocol_name(), "MQTT") {
            let quoted = text::quote(packet.protocol_name());
            out.disconnect(self.addr, protocol_reason(quoted.as_str()));
            return;
        }
        let user_id = UserId(0);
        let client_identifier = ClientIdentifier(packet.client_identifier().to_owned());
        let key = ClientKey { user_id, client_identifier: client_identifier.copy() };
        self.connected = true;
        let kept = persistents.remove(&key);
        let persistent = match kept {
            Some(persistent) => {
                if packet.clean_session() {
                    PersistentSession::new(user_id, client_identifier)
                } else {
                    persistent
                }
            },
            None => PersistentSession::new(user_id, client_identifier),
        };
        self.persistent = Some(persistent);
        addrs.insert(key, self.addr);
        let keep_alive: u64 = (packet.keep_alive() as u64) * 3 / 2;
        if keep_alive > 0 && keep_alive < self.keep_alive_timeout {
            self.keep_alive_timeout = keep_alive;
        }
        self.connect_packet = Some(packet);
        out.send(self.addr, codec::encode_connack(false, wire::CONNECTION_ACCEPTED));
        self.redelivery_packets(now, out);
        proof {
            let before = world(*old(self), *old(addrs), *old(persistents));
            let step = session_spec::on_connect(before, packet@, now);
            assert(models(persistents@) =~= step.world.persistents);
        }
    }

    /// PUBACK.
    fn recv_puback(&mut self, pkid: u16, out: &mut Outbox)
        requires
            old(self)@.persistent is Some,
        ensures
            ({
                let step = session_spec::on_puback(old(self)@, old(self)@.persistent->0, pkid);
                &&& final(self)@ == step.session
                &&& final(out)@ == old(out)@ + step.actions
                &&& step.fault is None
            }),
            final(self).bytes() == old(self).bytes(),
            final(self).header() == old(self).header(),
    {
        if let Some(persistent) = &mut self.persistent {
            out.timer(
                SessionTimerAction::Cancel,
                SessionTimerPayload::RecvPacketTimer(
                    SessionTimerPacketType::RecvPubackTimeout,
                    self.addr,
                    pkid,
                ),
            );
            persistent.qos1_send_packets.remove(pkid);
        }
    }

    /// PUBREC.
    fn recv_pubrec(&mut self, pkid: u16, now: u64, out: &mut Outbox)
        requires
            old(self)@.persistent is Some,
            session_spec::clock_fits(now, old(self)@.recv_packet_timeout),
        ensures
            ({
                let step = session_spec::on_pubrec(old(self)@, old(self)@.persistent->0, pkid, now);
                &&& final(self)@ == step.session
                &&& final(out)@ == old(out)@ + step.actions
                &&& step.fault is None
            }),
            final(self).bytes() == old(self).bytes(),
            final(self).header() == old(self).header(),
    {
        if let Some(persistent) = &mut self.persistent {
            out.timer(
                SessionTimerAction::Cancel,
                SessionTimerPayload::RecvPacketTimer(
                    SessionTimerPacketType::RecvPubrecTimeout,
                    self.addr,
                    pkid,
                ),
            );
            if let Some((publish, _, _)) = persistent.qos2_send_packets.remove(pkid) {
                out.send(self.addr, codec::encode_pubrel(pkid));
                persistent.qos2_send_packets.insert(pkid, (publish, true, true));
                out.timer(
                    Session::after(now, self.recv_packet_timeout),
                    SessionTimerPayload::RecvPacketTimer(
                        SessionTimerPacketType::RecvPubcompTimeout,
                        self.addr,
                        pkid,
                    ),
                );
            }
        }
    }

    /// PUBREL.
    fn recv_pubrel(&mut self, pkid: u16, out: &mut Outbox) -> (r: Option<SessionFault>)
        requires
            old(self)@.persistent is Some,
        ensures
            ({
                let step = session_spec::on_pubrel(old(self)@, old(self)@.persistent->0, pkid);
                &&& final(self)@ == step.session
                &&& final(out)@ == old(out)@ + step.actions
                &&& step.fault == r
            }),
            final(self).bytes() == old(self).bytes(),
            final(self).header() == old(self).header(),
    {
        if let Some(persistent) = &mut self.persistent {
            out.timer(
                SessionTimerAction::Cancel,
                SessionTimerPayload::RecvPacketTimer(
                    SessionTimerPacketType::RecvPubrelTimeout,
                    self.addr,
                    pkid,
                ),
            );
            if persistent.qos2_recv_packets.remove(pkid).is_none() {
                return Some(SessionFault::UnexpectedPubrel);
            }
            out.send(self.addr, codec::encode_pubcomp(pkid));
        }
        None
    }

    /// PUBCOMP.
    fn recv_pubcomp(&mut self, pkid: u16, out: &mut Outbox) -> (r: Option<SessionFault>)
        requires
            old(self)@.persistent is Some,
        ensures
            ({
                let step = session_spec::on_pubcomp(old(self)@, old(self)@.persistent->0, pkid);
                &&& final(self)@ == step.session
                &&& final(out)@ == old(out)@ + step.actions
                &&& step.fault == r
            }),
            final(self).bytes() == old(self).bytes(),
            final(self).header() == old(self).header(),
    {
        if let Some(persistent) = &mut self.persistent {
            out.timer(
                SessionTimerAction::Cancel,
                SessionTimerPayload::RecvPacketTimer(
                    SessionTimerPacketType::RecvPubcompTimeout,
                    self.addr,
                    pkid,
                ),
            );
            if persistent.qos2_send_packets.remove(pkid).is_none() {
                return Some(SessionFault::UnexpectedPubcomp);
            }
        }
        None
    }

    /// DISCONNECT.
    fn recv_disconnect(&mut self, out: &mut Outbox)
        requires
            old(self)@.persistent is Some,
        ensures
            ({
                let step = session_spec::on_disconnect(old(self)@);
                &&& final(self)@ == step.session
                &&& final(out)@ == old(out)@ + step.actions
                &&& step.fault is None
            }),
            final(self).bytes() == old(self).bytes(),
            final(self).header() == old(self).header(),
    {
        if let Some(connect_packet) = &mut self.connect_packet {
            connect_packet.clear_will();
        }
        out.disconnect(self.addr, "Receive disconnect packet!".to_owned());
    }

    /// SUBSCRIBE.
    fn recv_subscribe(&mut self, packet: SubscribePacket, out: &mut Outbox)
        requires
            old(self)@.persistent is Some,
            packet.subscribes@.len() + 2 <= u32::MAX,
        ensures
            ({
                let step = session_spec::on_subscribe(old(self)@, old(self)@.persistent->0, packet@);
                &&& final(self)@ == step.session
                &&& final(out)@ == old(out)@ + step.actions
                &&& step.fault is None
            }),
            final(self).bytes() == old(self).bytes(),
            final(self).header() == old(self).header(),
    {
        if let Some(persistent) = &self.persistent {
            let pkid: u16 = packet.pkid;
            let codes = granted_codes(&packet);
            assert(codes@.map_values(|c: SubscribeReturnCode| c.number())
                =~= packet@.subscribes.map_values(
                |e: (Seq<char>, QualityOfService)| e.1.number(),
            ));
            out.push(
                SessionAction::Router(
                    LocalRouterMsg::Subscribe(
                        persistent.user_id,
                        persistent.client_identifier.copy(),
                        self.addr,
                        packet,
                    ),
                ),
            );
            out.send(self.addr, codec::encode_suback(pkid, &codes));
        }
    }

    /// UNSUBSCRIBE.
    fn recv_unsubscribe(&mut self, packet: UnsubscribePacket, out: &mut Outbox)
        requires
            old(self)@.persistent is Some,
        ensures
            ({
                let step = session_spec::on_unsubscribe(old(self)@, old(self)@.persistent->0, packet@);
                &&& final(self)@ == step.session
                &&& final(out)@ == old(out)@ + step.actions
                &&& step.fault is None
            }),
            final(self).bytes() == old(self).bytes(),
            final(self).header() == old(self).header(),
    {
        if let Some(persistent) = &self.persistent {
            let pkid: u16 = packet.pkid;
            out.push(
                SessionAction::Router(
                    LocalRouterMsg::Unsubscribe(
                        persistent.user_id,
                        persistent.client_identifier.copy(),
                        packet,
                    ),
                ),
            );
            out.send(self.addr, codec::encode_unsuback(pkid));
        }
    }

    /// A packet, other than CONNECT, of a connected client.
    fn recv_connected(&mut self, packet: VariablePacket, now: u64, out: &mut Outbox) -> (r: Option<
        SessionFault,
    >)
        requires
            old(self)@.persistent is Some,
            !(packet is ConnectPacket),
            packet matches VariablePacket::SubscribePacket(p) ==> p.subscribes@.len() + 2
                <= u32::MAX,
            session_spec::clock_fits(now, old(self)@.recv_packet_timeout),
        ensures
            ({
                let step = session_spec::on_connected(
                    old(self)@,
                    old(self)@.persistent->0,
                    packet@,
                    now,
                );
                &&& final(self)@ == step.session
                &&& final(out)@ == old(out)@ + step.actions
                &&& step.fault == r
            }),
            final(self).bytes() == old(self).bytes(),
            final(self).header() == old(self).header(),
    {
        match packet {
            VariablePacket::PublishPacket(packet) => {
                self.recv_publish(&packet, false, now, out);
                None
            },
            VariablePacket::PubackPacket(pkid) => {
                self.recv_puback(pkid, out);
                None
            },
            VariablePacket::PubrecPacket(pkid) => {
                self.recv_pubrec(pkid, now, out);
                None
            },
            VariablePacket::PubrelPacket(pkid) => self.recv_pubrel(pkid, out),
            VariablePacket::PubcompPacket(pkid) => self.recv_pubcomp(pkid, out),
            VariablePacket::PingreqPacket => {
                out.send(self.addr, codec::encode_pingresp());
                None
            },
            VariablePacket::DisconnectPacket => {
                self.recv_disconnect(out);
                None
            },
            VariablePacket::SubscribePacket(packet) => {
                self.recv_subscribe(packet, out);
                None
            },
            VariablePacket::UnsubscribePacket(packet) => {
                self.recv_unsubscribe(packet, out);
                None
            },
            _ => {
                out.disconnect(self.addr, "Can't send broker only packets!".to_owned());
                None
            },
        }
    }

    /// A packet from the client.
    pub fn handle_packet(
        &mut self,
        addrs: &mut AssocMap<ClientKey, SocketAddr>,
        persistents: &mut AssocMap<ClientKey, PersistentSession>,
        packet: VariablePacket,
        now: u64,
        out: &mut Outbox,
    ) -> (r: Option<SessionFault>)
        requires
            old(self).wf(),
            packet matches VariablePacket::SubscribePacket(p) ==> p.subscribes@.len() + 2
                <= u32::MAX,
            session_spec::clock_fits(now, old(self)@.recv_packet_timeout),
        ensures
            final(self).wf(),
            final(self).bytes() == old(self).bytes(),
            final(self).header() == old(self).header(),
            ({
                let step = session_spec::on_packet(
                    world(*old(self), *old(addrs), *old(persistents)),
                    packet@,
                    now,
                );
                &&& world(*final(self), *final(addrs), *final(persistents)) == step.world
                &&& final(out)@ == old(out)@ + step.actions
                &&& step.fault == r
            }),
    {
        proof {
            reveal(session_spec::on_packet);
        }
        match packet {
            VariablePacket::ConnectPacket(packet) => {
                self.recv_connect(packet, now, addrs, persistents, out);
                None
            },
            packet => {
                if !self.connected {
                    out.disconnect(self.addr, "Client not connected yet!".to_owned());
                    None
                } else {
                    self.recv_connected(packet, now, out)
                }
            },
        }
    }

    /// Bytes from the client.
    pub fn recv_packet(
        &mut self,
        addrs: &mut AssocMap<ClientKey, SocketAddr>,
        persistents: &mut AssocMap<ClientKey, PersistentSession>,
        data: &[u8],
        now: u64,
        out: &mut Outbox,
    ) -> (r: Option<SessionFault>)
        requires
            old(self).wf(),
            session_spec::clock_fits(now, old(self)@.recv_packet_timeout),
            session_spec::clock_fits(now, old(self)@.keep_alive_timeout),
        ensures
            final(self).wf(),
            ({
                let frames = wire::frames(old(self).bytes() + data@, old(self).header());
                let step = session_spec::on_frames(
                    world(*old(self), *old(addrs), *old(persistents)),
                    frames,
                    now,
                );
                &&& world(*final(self), *final(addrs), *final(persistents)) == step.world
                &&& final(out)@ == old(out)@ + step.actions
                &&& step.fault == r
                &&& r is None ==> final(self).bytes() == frames.rest && final(self).header()
                    == frames.header
            }),
    {
        self.reader.append(data);
        let ghost start = world(*self, *addrs, *persistents);
        let ghost frames = wire::frames(self.bytes(), self.header());
        let ghost whole = session_spec::on_packets(start, frames.packets, now);
        let ghost mut sent = Seq::<SessionActionModel>::empty();
        let mut decoded_any = false;
        let mut bad_length = false;
        assert(out@ =~= old(out)@ + sent);
        assert(whole.actions =~= sent + whole.actions);
        loop
            invariant_except_break
                !bad_length,
                ({
                    let left = wire::frames(self.bytes(), self.header());
                    let ahead = session_spec::on_packets(
                        world(*self, *addrs, *persistents),
                        left.packets,
                        now,
                    );
                    &&& left.rest == frames.rest
                    &&& left.header == frames.header
                    &&& left.end == frames.end
                    &&& whole == (StepModel { actions: sent + ahead.actions, ..ahead })
                    &&& frames.packets.len() >= left.packets.len()
                    &&& decoded_any <==> frames.packets.len() > left.packets.len()
                }),
            invariant
                self.wf(),
                session_spec::clock_fits(now, self@.recv_packet_timeout),
                session_spec::clock_fits(now, self@.keep_alive_timeout),
                self@.addr == start.session.addr,
                out@ == old(out)@ + sent,
                whole == session_spec::on_packets(start, frames.packets, now),
                frames == wire::frames(old(self).bytes() + data@, old(self).header()),
                start == world(*old(self), *old(addrs), *old(persistents)),
            ensures
                self.bytes() == frames.rest,
                self.header() == frames.header,
                bad_length <==> frames.end is BadLength,
                !(frames.end is BadHeader),
                whole.world == world(*self, *addrs, *persistents),
                whole.actions == sent,
                whole.fault is None,
                decoded_any <==> frames.packets.len() > 0,
            decreases
                    self.bytes().len(),
                    (if self.header() is Some {
                        1nat
                    } else {
                        0nat
                    }),
        {
            let ghost left = wire::frames(self.bytes(), self.header());
            match self.reader.next_packet() {
                NextPacket::Packet(first, body) => {
                    let ghost now_left = wire::frames(self.bytes(), self.header());
                    let ghost before = world(*self, *addrs, *persistents);
                    assert(left.packets.drop_first() =~= now_left.packets);
                    let packet = match VariablePacket::decode(first, body.as_slice()) {
                        Some(packet) => packet,
                        None => return Some(SessionFault::UndecodablePacket),
                    };
                    decoded_any = true;
                    let ghost step = session_spec::on_packet(before, packet@, now);
                    let ghost ahead = session_spec::on_packets(step.world, now_left.packets, now);
                    proof {
                        session_spec::lemma_on_packet_frame(before, packet@, now);
                        assert(sent + (step.actions + ahead.actions) =~= (sent + step.actions)
                            + ahead.actions);
                    }
                    match self.handle_packet(addrs, persistents, packet, now, out) {
                        Some(fault) => {
                            return Some(fault);
                        },
                        None => {},
                    }
                    proof {
                        assert(out@ =~= old(out)@ + (sent + step.actions));
                        sent = sent + step.actions;
                    }
                },
                NextPacket::NeedMore => {
                    assert(sent + Seq::<SessionActionModel>::empty() =~= sent);
                    break;
                },
                NextPacket::BadLength => {
                    assert(sent + Seq::<SessionActionModel>::empty() =~= sent);
                    bad_length = true;
                    break;
                },
                NextPacket::BadHeader => {
                    return Some(SessionFault::UndecodableHeader);
                },
            }
        }
        if bad_length {
            out.disconnect(self.addr, "Invalid header length!".to_owned());
        }
        if decoded_any {
            out.timer(
                Session::after(now, self.keep_alive_timeout),
                SessionTimerPayload::KeepAliveTimer(self.addr),
            );
        }
        None
    }

    /// The user that the client belongs to.
    pub fn user_id(&self) -> (r: Option<UserId>)
        ensures
            r == (match self@.persistent {
                Some(p) => Some(p.user_id),
                None => None,
            }),
    {
        match &self.persistent {
            Some(persistent) => Some(persistent.user_id),
            None => None,
        }
    }

    /// The name that the client gave itself.
    pub fn client_identifier(&self) -> (r: Option<ClientIdentifier>)
        ensures
            match r {
                Some(c) => self@.persistent is Some && c@ == self@.persistent->0.client_identifier,
                None => self@.persistent is None,
            },
    {
        match &self.persistent {
            Some(persistent) => Some(persistent.client_identifier.copy()),
            None => None,
        }
    }

    /// Gives out the next packet identifier that is not in use.
    pub fn incr_pkid(&mut self) -> (r: Option<u16>)
        requires
            old(self)@.persistent is Some,
        ensures
            r == session_spec::next_pkid(old(self)@.persistent->0),
            final(self)@ == (match r {
                Some(pkid) => session_spec::with_persistent(
                    old(self)@,
                    PersistentModel { pkid, ..old(self)@.persistent->0 },
                ),
                None => old(self)@,
            }),
            final(self).bytes() == old(self).bytes(),
            final(self).header() == old(self).header(),
    {
        match &mut self.persistent {
            Some(persistent) => persistent.incr_pkid(),
            None => None,
        }
    }

    /// The client's CONNECT packet.
    pub fn connect_packet(&self) -> (r: Option<&ConnectPacket>)
        ensures
            self@.connect_packet == (match r {
                Some(c) => Some(c@),
                None => None,
            }),
    {
        self.connect_packet.as_ref()
    }

    /// The client's messages in flight.
    pub fn into_persistent(self) -> (r: Option<PersistentSession>)
        ensures
            self@.persistent == (match r {
                Some(p) => Some(p@),
                None => None,
            }),
    {
        self.persistent
    }

    /// Sends a message to the client at `level`, under the next packet identifier.
    pub fn deliver(
        &mut self,
        packet: PublishPacket,
        level: QualityOfService,
        now: u64,
        out: &mut Outbox,
    ) -> (r: Option<SessionFault>)
        requires
            session_spec::clock_fits(now, old(self)@.recv_packet_timeout),
        ensures
            ({
                let step = client_session_spec::deliver(old(self)@, packet@, level, now);
                &&& final(self)@ == step.session
                &&& final(out)@ == old(out)@ + step.actions
                &&& step.fault == r
            }),
            final(self).bytes() == old(self).bytes(),
            final(self).header() == old(self).header(),
    {
        if self.persistent.is_none() {
            return Some(SessionFault::NoSession);
        }
        match self.incr_pkid() {
            None => Some(SessionFault::NoPacketIdentifier),
            Some(pkid) => {
                let mut packet = packet;
                packet.set_qos(level.with(pkid));
                self.send_publish(&packet, now, out);
                None
            },
        }
    }

    /// Sends again what the client has not answered; `false` where there is nothing such.
    pub fn resend(
        &mut self,
        kind: SessionTimerPacketType,
        pkid: u16,
        now: u64,
        out: &mut Outbox,
    ) -> (r: bool)
        requires
            session_spec::clock_fits(now, old(self)@.recv_packet_timeout),
        ensures
            match client_session_spec::resend(old(self)@, kind, pkid, now) {
                Some((session, actions)) => r && final(self)@ == session && final(out)@ == old(out)@
                    + actions,
                None => !r && final(self)@ == old(self)@ && final(out)@ == old(out)@,
            },
            final(self).bytes() == old(self).bytes(),
            final(self).header() == old(self).header(),
    {
        let persistent = match &self.persistent {
            Some(persistent) => persistent,
            None => return false,
        };
        match kind {
            SessionTimerPacketType::RecvPubackTimeout => {
                match persistent.qos1_send_packets.get(pkid) {
                    Some(packet) => {
                        let mut packet = packet.copy();
                        packet.set_dup(true);
                        self.send_publish(&packet, now, out);
                        true
                    },
                    None => false,
                }
            },
            SessionTimerPacketType::RecvPubrecTimeout => {
                match persistent.qos2_send_packets.get(pkid) {
                    Some(entry) => {
                        let mut packet = entry.0.copy();
                        packet.set_dup(true);
                        self.send_publish(&packet, now, out);
                        true
                    },
                    None => false,
                }
            },
            SessionTimerPacketType::RecvPubcompTimeout => {
                if persistent.qos2_send_packets.contains(pkid) {
                    out.send(self.addr, codec::encode_pubrel(pkid));
                    true
                } else {
                    false
                }
            },
            SessionTimerPacketType::RecvPubrelTimeout => {
                if persistent.qos2_recv_packets.contains(pkid) {
                    out.send(self.addr, codec::encode_pubrec(pkid));
                    true
                } else {
                    false
                }
            },
        }
    }
}

/// The models of what is kept of the clients that left.
pub open spec fn models(m: Map<(UserId, Seq<char>), PersistentSession>) -> Map<
    (UserId, Seq<char>),
    PersistentModel,
> {
    m.map_values(|p: PersistentSession| p@)
}

/// The state that a client's packets change.
pub open spec fn world(
    session: Session,
    addrs: AssocMap<ClientKey, SocketAddr>,
    persistents: AssocMap<ClientKey, PersistentSession>,
) -> WorldModel {
    WorldModel { session: session@, addrs: addrs@, persistents: models(persistents@) }
}

/// The reason for which a client with another protocol is disconnected.
pub fn protocol_reason(quoted_name: &str) -> (r: String)
    ensures
        r@ == session_spec::protocol_reason(quoted_name@),
{
    let mut reason = "Invalid protocol name: ".to_owned();
    reason.append(quoted_name);
    reason.append("!");
    reason
}

/// Grants a SUBSCRIBE packet the levels that it asks for.
fn granted_codes(packet: &SubscribePacket) -> (r: Vec<SubscribeReturnCode>)
    ensures
        r@.len() == packet@.subscribes.len(),
        forall|i: int|
            0 <= i < r@.len() ==> (#[trigger] r@[i]).number() == packet@.subscribes[i].1.number(),
{
    let mut codes: Vec<SubscribeReturnCode> = Vec::new();
    let mut i: usize = 0;
    while i < packet.subscribes.len()
        invariant
            i <= packet.subscribes@.len(),
            codes@.len() == i,
            forall|j: int|
                0 <= j < i ==> (#[trigger] codes@[j]).number() == packet@.subscribes[j].1.number(),
        decreases packet.subscribes@.len() - i,
    {
        codes.push(SubscribeReturnCode::granted(packet.subscribes[i].1));
        i = i + 1;
    }
    codes
}

} // verus!
