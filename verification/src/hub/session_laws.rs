//! What holds of the sessions of clients.
use vstd::prelude::*;

use crate::common::{SocketAddr, UserId};
use crate::hub;
use crate::hub::client_session_spec;
use crate::hub::client_session_spec::{ConnectionModel, HubModel};
use crate::hub::session_spec;
use crate::hub::session_spec::{PersistentModel, SessionModel, StepModel, WorldModel};
use crate::hub::{
    ClientSessionMsgModel, LocalRouterMsgModel, SessionActionModel, SessionTimerPacketType,
    SessionTimerPayload,
};
use crate::qos::{QoSWithPacketIdentifier, QualityOfService};
use crate::window;
use crate::wire;
use crate::wire::{ConnectModel, Frames, FramesEnd, PacketModel, PublishModel};
use crate::wire_laws;

verus! {

/// No identifier is in flight twice in one direction and at one level, and each message in flight
/// is at its level and stands under its own identifier.
pub open spec fn sound(ps: PersistentModel) -> bool {
    &&& window::distinct(ps.qos1_send)
    &&& window::distinct(ps.qos2_send)
    &&& window::distinct(ps.qos2_recv)
    &&& forall|k: u16| #[trigger]
        window::get(ps.qos1_send, k) matches Some(p) ==> p.qos == QoSWithPacketIdentifier::Level1(k)
    &&& forall|k: u16| #[trigger]
        window::get(ps.qos2_send, k) matches Some(e) ==> e.0.qos == QoSWithPacketIdentifier::Level2(k)
    &&& forall|k: u16| #[trigger]
        window::get(ps.qos2_recv, k) matches Some(e) ==> e.0.qos == QoSWithPacketIdentifier::Level2(k)
}

/// What is found from the `n`-th identifier on is one of those, and is not in use.
proof fn lemma_free_pkid_from(p: PersistentModel, n: int)
    requires
        1 <= n <= 65536,
    ensures
        match session_spec::free_pkid_from(p, n) {
            Some(pkid) => 1 <= pkid && !session_spec::pkid_used(p, pkid),
            None => forall|i: int|
                n <= i <= 65535 ==> session_spec::pkid_used(
                    p,
                    #[trigger] session_spec::nth_pkid(p.pkid, i),
                ),
        },
    decreases 65536 - n,
{
    if n <= 65535 && session_spec::pkid_used(p, session_spec::nth_pkid(p.pkid, n)) {
        lemma_free_pkid_from(p, n + 1);
    }
}

/// Law: the identifier that is given out next is not zero and not in use; none is given out iff all
/// are in use.
pub proof fn law_next_identifier_is_free(p: PersistentModel)
    ensures
        session_spec::next_pkid(p) matches Some(pkid) ==> 1 <= pkid && !session_spec::pkid_used(
            p,
            pkid,
        ),
        session_spec::next_pkid(p) is None <==> forall|pkid: u16|
            1 <= pkid ==> #[trigger] session_spec::pkid_used(p, pkid),
{
    lemma_free_pkid_from(p, 1);
    if session_spec::next_pkid(p) is None {
        assert forall|pkid: u16| 1 <= pkid implies #[trigger] session_spec::pkid_used(p, pkid) by {
            let i = if pkid > p.pkid {
                pkid - p.pkid
            } else {
                65535 + pkid - p.pkid
            };
            assert(session_spec::nth_pkid(p.pkid, i) == pkid);
        }
    }
}

/// Law: packets one after the other do what the first ones and then the others do. A fault among the
/// first ones ends it.
pub proof fn law_packets_in_pieces(
    w: WorldModel,
    a: Seq<(u8, Seq<u8>)>,
    b: Seq<(u8, Seq<u8>)>,
    now: u64,
)
    ensures
        ({
            let first = session_spec::on_packets(w, a, now);
            let second = session_spec::on_packets(first.world, b, now);
            session_spec::on_packets(w, a + b, now) == (if first.fault is Some {
                first
            } else {
                StepModel { actions: first.actions + second.actions, ..second }
            })
        }),
    decreases a.len(),
{
    if a.len() == 0 {
        assert(a + b =~= b);
        let second = session_spec::on_packets(w, b, now);
        assert(Seq::empty() + second.actions =~= second.actions);
    } else {
        assert((a + b).drop_first() =~= a.drop_first() + b);
        match wire::decoded(a[0].0, a[0].1) {
            None => {},
            Some(p) => {
                let one = session_spec::on_packet(w, p, now);
                if one.fault is None {
                    law_packets_in_pieces(one.world, a.drop_first(), b, now);
                    let rest = session_spec::on_packets(one.world, a.drop_first(), now);
                    let second = session_spec::on_packets(rest.world, b, now);
                    assert(one.actions + (rest.actions + second.actions) =~= (one.actions
                        + rest.actions) + second.actions);
                }
            },
        }
    }
}

/// The session at an address with the bytes that have come from it.
pub open spec fn connection(h: HubModel, addr: SocketAddr) -> ConnectionModel {
    if h.sessions.contains_key(addr) {
        h.sessions[addr]
    } else {
        ConnectionModel {
            session: client_session_spec::fresh_session(addr),
            bytes: Seq::empty(),
            header: None,
        }
    }
}

/// A client's session among the others.
pub open spec fn world_at(h: HubModel, addr: SocketAddr) -> WorldModel {
    WorldModel {
        session: connection(h, addr).session,
        addrs: h.addrs,
        persistents: h.persistents,
    }
}

/// What is sent to clients, the router and the keeper of retained messages: all but the timers.
pub open spec fn sent(actions: Seq<SessionActionModel>) -> Seq<SessionActionModel> {
    actions.filter(|action: SessionActionModel| !(action is Timer))
}

/// What is sent by some actions and then others.
proof fn lemma_sent_add(a: Seq<SessionActionModel>, b: Seq<SessionActionModel>)
    ensures
        sent(a + b) == sent(a) + sent(b),
{
    Seq::filter_distributes_over_add(a, b, |action: SessionActionModel| !(action is Timer));
}

/// What is sent by some actions and then one more.
proof fn lemma_sent_push(a: Seq<SessionActionModel>, action: SessionActionModel)
    ensures
        sent(a.push(action)) == (if action is Timer {
            sent(a)
        } else {
            sent(a).push(action)
        }),
{
    reveal(Seq::filter);
    assert(a.push(action).drop_last() =~= a);
}

/// Packets do not change the address of the session.
proof fn lemma_on_packets_addr(w: WorldModel, packets: Seq<(u8, Seq<u8>)>, now: u64)
    ensures
        session_spec::on_packets(w, packets, now).world.session.addr == w.session.addr,
    decreases packets.len(),
{
    if packets.len() > 0 {
        if let Some(p) = wire::decoded(packets[0].0, packets[0].1) {
            session_spec::lemma_on_packet_frame(w, p, now);
            lemma_on_packets_addr(
                session_spec::on_packet(w, p, now).world,
                packets.drop_first(),
                now,
            );
        }
    }
}

/// What is sent for bytes is what is sent for their packets, and then the end of the connection
/// where a length is wrong.
proof fn lemma_sent_for_frames(w: WorldModel, f: Frames, now: u64)
    ensures
        ({
            let handled = session_spec::on_packets(w, f.packets, now);
            sent(session_spec::on_frames(w, f, now).actions) == (if handled.fault is None && f.end
                is BadLength {
                sent(handled.actions).push(
                    hub::disconnect_action(w.session.addr, "Invalid header length!"@),
                )
            } else {
                sent(handled.actions)
            })
        }),
{
    let handled = session_spec::on_packets(w, f.packets, now);
    let timer = session_spec::set_timer(
        now,
        handled.world.session.keep_alive_timeout,
        SessionTimerPayload::KeepAliveTimer(w.session.addr),
    );
    let closing = handled.actions.push(
        hub::disconnect_action(w.session.addr, "Invalid header length!"@),
    );
    lemma_sent_push(
        handled.actions,
        hub::disconnect_action(w.session.addr, "Invalid header length!"@),
    );
    lemma_sent_push(handled.actions, timer);
    lemma_sent_push(closing, timer);
}

/// What is sent for the data of a client is what is sent for the bytes that have come.
proof fn lemma_sent_for_data(h: HubModel, addr: SocketAddr, data: Seq<u8>, now: u64)
    ensures
        ({
            let conn = connection(h, addr);
            let f = wire::frames(conn.bytes + data, conn.header);
            sent(client_session_spec::on_data(h, addr, data, now).actions) == sent(
                session_spec::on_frames(world_at(h, addr), f, now).actions,
            )
        }),
{
    let conn = connection(h, addr);
    let f = wire::frames(conn.bytes + data, conn.header);
    let actions = session_spec::on_frames(world_at(h, addr), f, now).actions;
    let timer = session_spec::set_timer(
        now,
        client_session_spec::DEFAULT_KEEP_ALIVE,
        SessionTimerPayload::KeepAliveTimer(addr),
    );
    let none = Seq::<SessionActionModel>::empty();
    reveal(Seq::filter);
    lemma_sent_push(none, timer);
    assert(seq![timer] =~= none.push(timer));
    lemma_sent_add(seq![timer], actions);
    assert(none + actions =~= actions);
    assert(none + sent(actions) =~= sent(actions));
}

/// Law: it does not matter how the bytes of a client are cut on their way. Two pieces leave the hub
/// as the whole would, and go wrong as the whole would. But for the timers, what is sent for the two
/// is what is sent for the whole; where a length in the first piece is already wrong, the first piece
/// alone has sent all of it.
pub proof fn law_bytes_in_pieces(h: HubModel, addr: SocketAddr, a: Seq<u8>, b: Seq<u8>, now: u64)
    requires
        client_session_spec::on_data(h, addr, a, now).fault is None,
    ensures
        ({
            let first = client_session_spec::on_data(h, addr, a, now);
            let second = client_session_spec::on_data(first.hub, addr, b, now);
            let whole = client_session_spec::on_data(h, addr, a + b, now);
            let conn = connection(h, addr);
            &&& second.hub == whole.hub
            &&& second.fault == whole.fault
            &&& sent(whole.actions) == (if wire::frames(conn.bytes + a, conn.header).end is NeedMore {
                sent(first.actions) + sent(second.actions)
            } else {
                sent(first.actions)
            })
        }),
{
    let conn = connection(h, addr);
    let w = world_at(h, addr);
    let first = client_session_spec::on_data(h, addr, a, now);
    let f = wire::frames(conn.bytes + a, conn.header);
    let g = wire::frames(f.rest + b, f.header);
    assert(conn.bytes + (a + b) =~= (conn.bytes + a) + b);
    wire_laws::law_frames_in_pieces(conn.bytes + a, b, conn.header);
    law_packets_in_pieces(w, f.packets, g.packets, now);
    if f.end is BadLength {
        wire_laws::lemma_bad_length(conn.bytes + a, conn.header);
        wire_laws::lemma_header_end_stays(f.rest, b);
        assert(g == (Frames {
            packets: Seq::empty(),
            rest: f.rest + b,
            header: None,
            end: FramesEnd::BadLength,
        })) by {
            reveal_with_fuel(wire::frames, 2);
        }
        assert(f.header is None);
    }
    let mid = session_spec::on_packets(w, f.packets, now);
    assert(first.hub.sessions[addr].session == mid.world.session);
    assert(world_at(first.hub, addr) == mid.world);
    let second = client_session_spec::on_data(first.hub, addr, b, now);
    let whole = client_session_spec::on_data(h, addr, a + b, now);
    assert(second.fault == whole.fault);
    assert(second.hub.addrs == whole.hub.addrs);
    assert(second.hub.sessions =~= whole.hub.sessions);
    lemma_sent_for_data(h, addr, a, now);
    lemma_sent_for_data(first.hub, addr, b, now);
    lemma_sent_for_data(h, addr, a + b, now);
    lemma_sent_for_frames(w, f, now);
    lemma_sent_for_frames(mid.world, g, now);
    lemma_sent_for_frames(w, wire::frames(conn.bytes + (a + b), conn.header), now);
    lemma_on_packets_addr(w, f.packets, now);
    let last = session_spec::on_packets(mid.world, g.packets, now);
    lemma_sent_add(mid.actions, last.actions);
    if f.end is NeedMore && g.end is BadLength {
        let closing = hub::disconnect_action(w.session.addr, "Invalid header length!"@);
        assert((sent(mid.actions) + sent(last.actions)).push(closing) =~= sent(mid.actions) + sent(
            last.actions,
        ).push(closing));
    }
}

/// The messages that come of a packet, and the timer that then runs for the client.
pub open spec fn with_keep_alive(step: StepModel, now: u64) -> Seq<SessionActionModel> {
    step.actions.push(
        session_spec::set_timer(
            now,
            step.world.session.keep_alive_timeout,
            SessionTimerPayload::KeepAliveTimer(step.world.session.addr),
        ),
    )
}

/// Law: what a client wrote is what its session handles. The bytes of a packet, from a client whose
/// earlier packets have all come whole, do what the packet does, and put off the end of the client's
/// time.
pub proof fn law_written_packet_is_handled(
    h: HubModel,
    addr: SocketAddr,
    p: PacketModel,
    now: u64,
)
    requires
        wire_laws::writable(p),
        h.sessions.contains_key(addr),
        h.sessions[addr].session.addr == addr,
        h.sessions[addr].bytes == Seq::<u8>::empty(),
        h.sessions[addr].header is None,
    ensures
        ({
            let step = session_spec::on_packet(world_at(h, addr), p, now);
            let r = client_session_spec::on_data(h, addr, wire::packet_bytes(p), now);
            &&& r.fault == step.fault
            &&& step.fault is None ==> {
                &&& r.actions == with_keep_alive(step, now)
                &&& r.hub.addrs == step.world.addrs
                &&& r.hub.persistents == step.world.persistents
                &&& r.hub.sessions == h.sessions.insert(
                    addr,
                    ConnectionModel {
                        session: step.world.session,
                        bytes: Seq::empty(),
                        header: None,
                    },
                )
            }
        }),
{
    let w = world_at(h, addr);
    let bytes = wire::packet_bytes(p);
    let none = Seq::<u8>::empty();
    assert(h.sessions[addr].bytes + bytes =~= bytes + none);
    wire_laws::law_written_packet_is_read_back(p, none);
    let f = wire::frames(bytes + none, None);
    let after = wire::frames(none, None);
    assert(after.packets =~= Seq::empty() && after.rest =~= none && after.header is None
        && after.end is NeedMore) by {
        reveal_with_fuel(wire::frames, 2);
    }
    session_spec::lemma_on_packet_frame(w, p, now);
    let step = session_spec::on_packet(w, p, now);
    reveal_with_fuel(session_spec::on_packets, 2);
    assert(f.packets.drop_first() =~= Seq::empty());
    assert(step.actions + Seq::empty() =~= step.actions);
    let r = client_session_spec::on_data(h, addr, bytes, now);
    assert(Seq::empty() + with_keep_alive(step, now) =~= with_keep_alive(step, now));
}

/// Law: a packet that a client may not send closes its connection and changes nothing: any but
/// CONNECT before it has connected, CONNECT after it has, one with another protocol's name, and those
/// that only a broker sends.
pub proof fn law_refused_packet_changes_nothing(w: WorldModel, p: PacketModel, now: u64)
    requires
        client_session_spec::world_wf(w),
        ({
            ||| !(p is Connect) && !w.session.connected
            ||| p is Connect && w.session.connected
            ||| p matches PacketModel::Connect(c) && c.protocol_name != "MQTT"@
            ||| p is Connack
            ||| p is Suback
            ||| p is Unsuback
            ||| p is Pingresp
        }),
    ensures
        ({
            let step = session_spec::on_packet(w, p, now);
            &&& step.world == w
            &&& step.fault is None
            &&& step.actions.len() == 1
            &&& step.actions[0] matches SessionActionModel::Connection(
                hub::ClientConnectionMsgModel::DisconnectClient(addr, _),
            ) && addr == w.session.addr
        }),
{
    reveal(session_spec::on_packet);
}

/// Law: the time after which a silent client counts as gone is never longer than the limit, and is
/// one and a half times what the client asked for where that is shorter and not nothing.
pub proof fn law_keep_alive(limit: u64, keep_alive: u16)
    ensures
        session_spec::keep_alive_limit(limit, keep_alive) <= limit,
        keep_alive == 0 ==> session_spec::keep_alive_limit(limit, keep_alive) == limit,
        0 < keep_alive && keep_alive * 3 / 2 < limit ==> session_spec::keep_alive_limit(
            limit,
            keep_alive,
        ) == keep_alive * 3 / 2,
{
}

/// Law: a message that was sent at level one stays in flight until PUBACK comes for it, and then no
/// longer is.
pub proof fn law_level_one_until_acknowledged(
    s: SessionModel,
    ps: PersistentModel,
    p: PacketModel,
    pkid: u16,
    now: u64,
)
    requires
        sound(ps),
        s.persistent == Some(ps),
        !(p is Connect),
    ensures
        ({
            let after = session_spec::on_connected(s, ps, p, now).session.persistent;
            &&& after is Some
            &&& p == PacketModel::Puback(pkid) ==> !window::holds(after->0.qos1_send, pkid)
            &&& p != PacketModel::Puback(pkid) ==> window::get(after->0.qos1_send, pkid)
                == window::get(ps.qos1_send, pkid)
        }),
{
    if let PacketModel::Puback(k) = p {
        window::lemma_erase(ps.qos1_send, k);
    }
}

/// Law: a message that was sent at level two stays in flight until PUBCOMP comes for it, and then no
/// longer is. PUBREC changes what is known of it, and nothing else does.
pub proof fn law_level_two_until_complete(
    s: SessionModel,
    ps: PersistentModel,
    p: PacketModel,
    pkid: u16,
    now: u64,
)
    requires
        sound(ps),
        s.persistent == Some(ps),
        !(p is Connect),
    ensures
        ({
            let after = session_spec::on_connected(s, ps, p, now).session.persistent;
            let before = window::get(ps.qos2_send, pkid);
            &&& after is Some
            &&& p == PacketModel::Pubcomp(pkid) ==> !window::holds(after->0.qos2_send, pkid)
            &&& p == PacketModel::Pubrec(pkid) ==> window::get(after->0.qos2_send, pkid) == (
            match before {
                Some(e) => Some((e.0, true, true)),
                None => None,
            })
            &&& p != PacketModel::Pubcomp(pkid) && p != PacketModel::Pubrec(pkid) ==> window::get(
                after->0.qos2_send,
                pkid,
            ) == before
        }),
{
    match p {
        PacketModel::Pubcomp(k) => window::lemma_erase(ps.qos2_send, k),
        PacketModel::Pubrec(k) => {
            if let Some(e) = window::get(ps.qos2_send, k) {
                window::lemma_erase(ps.qos2_send, k);
                window::lemma_put(window::erase(ps.qos2_send, k), k, (e.0, true, true));
            }
        },
        _ => {},
    }
}

/// `true` iff the packet is a message of level two under the identifier.
pub open spec fn carries(p: PacketModel, pkid: u16) -> bool {
    match p {
        PacketModel::Publish(m) => m.qos == QoSWithPacketIdentifier::Level2(pkid),
        _ => false,
    }
}

/// Law: a message that was received at level two is remembered until PUBREL comes for it, and then
/// no longer is.
pub proof fn law_level_two_until_released(
    s: SessionModel,
    ps: PersistentModel,
    p: PacketModel,
    pkid: u16,
    now: u64,
)
    requires
        sound(ps),
        s.persistent == Some(ps),
        !(p is Connect),
    ensures
        ({
            let after = session_spec::on_connected(s, ps, p, now).session.persistent;
            let before = window::get(ps.qos2_recv, pkid);
            &&& after is Some
            &&& p == PacketModel::Pubrel(pkid) ==> !window::holds(after->0.qos2_recv, pkid)
            &&& carries(p, pkid) ==> window::get(after->0.qos2_recv, pkid) == Some(
                (p->Publish_0, true, false),
            )
            &&& p != PacketModel::Pubrel(pkid) && !carries(p, pkid) ==> window::get(
                after->0.qos2_recv,
                pkid,
            ) == before
        }),
{
    match p {
        PacketModel::Pubrel(k) => window::lemma_erase(ps.qos2_recv, k),
        PacketModel::Publish(m) => {
            if let QoSWithPacketIdentifier::Level2(k) = m.qos {
                window::lemma_put(ps.qos2_recv, k, (m, true, false));
            }
        },
        _ => {},
    }
}

/// Law: no packet of a connected client puts an identifier in flight twice, or a message under
/// another identifier than its own.
pub proof fn law_packets_keep_flights_sound(
    s: SessionModel,
    ps: PersistentModel,
    p: PacketModel,
    now: u64,
)
    requires
        sound(ps),
        s.persistent == Some(ps),
        !(p is Connect),
    ensures
        ({
            let after = session_spec::on_connected(s, ps, p, now).session.persistent;
            after is Some && sound(after->0)
        }),
{
    match p {
        PacketModel::Puback(k) => window::lemma_erase(ps.qos1_send, k),
        PacketModel::Pubcomp(k) => window::lemma_erase(ps.qos2_send, k),
        PacketModel::Pubrec(k) => {
            if let Some(e) = window::get(ps.qos2_send, k) {
                window::lemma_erase(ps.qos2_send, k);
                window::lemma_put(window::erase(ps.qos2_send, k), k, (e.0, true, true));
            }
        },
        PacketModel::Pubrel(k) => window::lemma_erase(ps.qos2_recv, k),
        PacketModel::Publish(m) => {
            if let QoSWithPacketIdentifier::Level2(k) = m.qos {
                window::lemma_put(ps.qos2_recv, k, (m, true, false));
            }
        },
        _ => {},
    }
}

/// Law: nor does sending a message to the client, for the first time or again.
pub proof fn law_sending_keeps_flights_sound(s: SessionModel, p: PublishModel, now: u64)
    requires
        s.persistent matches Some(ps) && sound(ps),
    ensures
        ({
            let after = session_spec::send_publish(s, p, now).0.persistent;
            after is Some && sound(after->0)
        }),
{
    let ps = s.persistent->0;
    match p.qos {
        QoSWithPacketIdentifier::Level0 => {},
        QoSWithPacketIdentifier::Level1(k) => window::lemma_put(ps.qos1_send, k, p),
        QoSWithPacketIdentifier::Level2(k) => window::lemma_put(
            ps.qos2_send,
            k,
            (p, false, false),
        ),
    }
}

/// Law: at level two a sent message takes its four packets. PUBREC is answered by PUBREL, and
/// PUBCOMP then ends it, without a fault.
pub proof fn law_sent_handshake_completes(
    s: SessionModel,
    ps: PersistentModel,
    pkid: u16,
    now: u64,
)
    requires
        sound(ps),
        s.persistent == Some(ps),
        window::holds(ps.qos2_send, pkid),
    ensures
        ({
            let released = session_spec::on_pubrec(s, ps, pkid, now);
            let done = session_spec::on_pubcomp(
                released.session,
                released.session.persistent->0,
                pkid,
            );
            &&& released.fault is None
            &&& released.actions.contains(hub::send_action(s.addr, wire::pubrel_bytes(pkid)))
            &&& done.fault is None
            &&& !window::holds(done.session.persistent->0.qos2_send, pkid)
        }),
{
    let e = window::get(ps.qos2_send, pkid)->0;
    let without = window::erase(ps.qos2_send, pkid);
    window::lemma_erase(ps.qos2_send, pkid);
    window::lemma_put(without, pkid, (e.0, true, true));
    window::lemma_erase(window::put(without, pkid, (e.0, true, true)), pkid);
    let released = session_spec::on_pubrec(s, ps, pkid, now);
    assert(released.actions[1] == hub::send_action(s.addr, wire::pubrel_bytes(pkid)));
}

/// Law: at level two a received message is answered by PUBREC, and PUBREL then ends it with PUBCOMP,
/// without a fault.
pub proof fn law_received_handshake_completes(
    s: SessionModel,
    ps: PersistentModel,
    p: PublishModel,
    pkid: u16,
    now: u64,
)
    requires
        sound(ps),
        s.persistent == Some(ps),
        p.qos == QoSWithPacketIdentifier::Level2(pkid),
    ensures
        ({
            let received = session_spec::on_publish(s, ps, p, now);
            let done = session_spec::on_pubrel(
                received.session,
                received.session.persistent->0,
                pkid,
            );
            &&& received.fault is None
            &&& received.actions.contains(hub::send_action(s.addr, wire::pubrec_bytes(pkid)))
            &&& done.fault is None
            &&& done.actions.contains(hub::send_action(s.addr, wire::pubcomp_bytes(pkid)))
            &&& !window::holds(done.session.persistent->0.qos2_recv, pkid)
        }),
{
    window::lemma_put(ps.qos2_recv, pkid, (p, true, false));
    window::lemma_erase(window::put(ps.qos2_recv, pkid, (p, true, false)), pkid);
    let received = session_spec::on_publish(s, ps, p, now);
    let n = received.actions.len();
    assert(received.actions[n - 2] == hub::send_action(s.addr, wire::pubrec_bytes(pkid)));
    let done = session_spec::on_pubrel(received.session, received.session.persistent->0, pkid);
    assert(done.actions[1] == hub::send_action(s.addr, wire::pubcomp_bytes(pkid)));
}

/// `true` iff the action sends the client at `addr` a message that it reads as `m`.
pub open spec fn sends(a: SessionActionModel, addr: SocketAddr, m: PublishModel) -> bool {
    a == hub::send_action(addr, wire::publish_bytes(m))
}

/// What a client gets of a message: its topic and its payload, at the given level.
pub open spec fn is_copy(m: PublishModel, p: PublishModel, level: QualityOfService) -> bool {
    &&& m.topic == p.topic
    &&& m.payload == p.payload
    &&& m.qos.level() == level
    &&& !m.dup
}

/// Delivering a message sends it first of all.
proof fn lemma_deliver_sends(s: SessionModel, p: PublishModel, level: QualityOfService, now: u64)
    requires
        s.persistent is Some,
        session_spec::next_pkid(s.persistent->0) is Some,
    ensures
        ({
            let step = client_session_spec::deliver(s, p, level, now);
            let pkid = session_spec::next_pkid(s.persistent->0)->0;
            let m = PublishModel { qos: level.with(pkid), ..p };
            &&& step.fault is None
            &&& step.actions.len() >= 1
            &&& sends(step.actions[0], s.addr, m)
            &&& m.qos.level() == level
        }),
{
}

/// Law: a message from the router is sent to the subscriber with its topic and its payload, at the
/// lower of its own level and the subscription's, and not marked as retained.
pub proof fn law_subscriber_is_sent_the_message(
    h: HubModel,
    user_id: UserId,
    client_identifier: Seq<char>,
    subscribe_qos: QualityOfService,
    p: PublishModel,
    now: u64,
)
    requires
        client_session_spec::hub_wf(h),
        h.addrs.contains_key((user_id, client_identifier)),
        p.qos.level().lower(subscribe_qos) == QualityOfService::Level0 || session_spec::next_pkid(
            h.sessions[h.addrs[(user_id, client_identifier)]].session.persistent->0,
        ) is Some,
    ensures
        ({
            let step = client_session_spec::on_publish(
                h,
                user_id,
                client_identifier,
                subscribe_qos,
                p,
                now,
            );
            let addr = h.addrs[(user_id, client_identifier)];
            &&& step.fault is None
            &&& step.actions.len() >= 1
            &&& exists|m: PublishModel|
                {
                    &&& #[trigger] sends(step.actions[0], addr, m)
                    &&& is_copy(m, p, p.qos.level().lower(subscribe_qos))
                    &&& !m.retain
                }
        }),
{
    let addr = h.addrs[(user_id, client_identifier)];
    let level = p.qos.level().lower(subscribe_qos);
    let plain = PublishModel { retain: false, dup: false, ..p };
    let step = client_session_spec::on_publish(
        h,
        user_id,
        client_identifier,
        subscribe_qos,
        p,
        now,
    );
    if level == QualityOfService::Level0 {
        let m = PublishModel { qos: QoSWithPacketIdentifier::Level0, ..plain };
        assert(sends(step.actions[0], addr, m));
    } else {
        let s = h.sessions[addr].session;
        lemma_deliver_sends(s, plain, level, now);
        let pkid = session_spec::next_pkid(s.persistent->0)->0;
        assert(sends(step.actions[0], addr, PublishModel { qos: level.with(pkid), ..plain }));
    }
}

/// Law: a client reads what it was sent. The bytes of a message, cut off the front of what the client
/// gets, are read as that message.
pub proof fn law_subscriber_reads_the_message(m: PublishModel, rest: Seq<u8>)
    requires
        wire::valid_topic_name(m.topic),
        wire::publish_body(m).len() <= wire::MAX_REMAINING_LENGTH,
    ensures
        wire::next_frame(wire::publish_bytes(m) + rest, None).0 matches wire::NextFrame::Packet(
            first,
            body,
        ) && wire::decoded(first, body) == Some(PacketModel::Publish(m)),
{
    wire_laws::law_written_packet_is_read_back(PacketModel::Publish(m), rest);
}

/// Law: each retained message for a client that has subscribed is sent to it with its topic and its
/// payload, at the lower of its own level and the subscription's, and marked as retained.
pub proof fn law_retained_messages_are_sent(
    s: SessionModel,
    packets: Seq<PublishModel>,
    subscribe_qos: QualityOfService,
    now: u64,
    i: int,
)
    requires
        client_session_spec::deliver_retained(s, packets, subscribe_qos, now).fault is None,
        0 <= i < packets.len(),
    ensures
        ({
            let actions = client_session_spec::deliver_retained(
                s,
                packets,
                subscribe_qos,
                now,
            ).actions;
            exists|j: int, m: PublishModel|
                {
                    &&& 0 <= j < actions.len()
                    &&& #[trigger] sends(actions[j], s.addr, m)
                    &&& is_copy(m, packets[i], packets[i].qos.level().lower(subscribe_qos))
                    &&& m.retain
                }
        }),
    decreases packets.len(),
{
    let n = packets.len() - 1;
    let before = client_session_spec::deliver_retained(s, packets.drop_last(), subscribe_qos, now);
    let p = packets.last();
    let plain = PublishModel { retain: true, dup: false, ..p };
    let level = p.qos.level().lower(subscribe_qos);
    let step = client_session_spec::deliver(before.session, plain, level, now);
    let actions = client_session_spec::deliver_retained(s, packets, subscribe_qos, now).actions;
    assert(before.fault is None && step.fault is None);
    assert(actions == before.actions + step.actions);
    client_session_spec::lemma_deliver_retained_frame(s, packets.drop_last(), subscribe_qos, now);
    if i == n {
        lemma_deliver_sends(before.session, plain, level, now);
        let pkid = session_spec::next_pkid(before.session.persistent->0)->0;
        let m = PublishModel { qos: level.with(pkid), ..plain };
        let j = before.actions.len() as int;
        assert(actions[j] == step.actions[0]);
        assert(sends(actions[j], s.addr, m));
    } else {
        law_retained_messages_are_sent(s, packets.drop_last(), subscribe_qos, now, i);
        let (j, m) = choose|j: int, m: PublishModel|
            {
                &&& 0 <= j < before.actions.len()
                &&& #[trigger] sends(before.actions[j], s.addr, m)
                &&& is_copy(
                    m,
                    packets.drop_last()[i],
                    packets.drop_last()[i].qos.level().lower(subscribe_qos),
                )
                &&& m.retain
            };
        assert(actions[j] == before.actions[j]);
        assert(sends(actions[j], s.addr, m));
    }
}

/// Law: a message of a connected client goes to the router as it is, and to the retained messages
/// where it is to be retained.
pub proof fn law_message_is_forwarded(
    s: SessionModel,
    ps: PersistentModel,
    p: PublishModel,
    now: u64,
)
    ensures
        ({
            let actions = session_spec::on_publish(s, ps, p, now).actions;
            let kept = session_spec::retain_actions(ps.user_id, p);
            &&& actions.take(kept.len() as int) == kept
            &&& actions.len() > kept.len()
            &&& actions[kept.len() as int] == SessionActionModel::Router(
                LocalRouterMsgModel::ForwardPublish(ps.user_id, p),
            )
        }),
{
    let actions = session_spec::on_publish(s, ps, p, now).actions;
    let kept = session_spec::retain_actions(ps.user_id, p);
    assert(actions.take(kept.len() as int) =~= kept);
}

/// Law: a client that goes without DISCONNECT has its last will published: forwarded as a message of
/// its own, and retained where it asked for that.
pub proof fn law_last_will_is_published(
    h: HubModel,
    addr: SocketAddr,
    reason: Seq<char>,
    now: u64,
)
    requires
        client_session_spec::hub_wf(h),
        h.sessions.contains_key(addr),
        h.sessions[addr].session.connect_packet matches Some(c) && c.will is Some && c.will_qos <= 2,
    ensures
        ({
            let s = h.sessions[addr].session;
            let c = s.connect_packet->0;
            let ps = s.persistent->0;
            let will = client_session_spec::will_message(c)->0;
            let step = client_session_spec::on_client_disconnect(h, addr, reason, now);
            &&& step.fault is None
            &&& c.will == Some((will.topic, will.payload))
            &&& step.actions.last() == SessionActionModel::Router(
                LocalRouterMsgModel::ForwardPublish(ps.user_id, will),
            )
            &&& session_spec::retain_actions(ps.user_id, will).len() > 0 ==> step.actions.contains(
                session_spec::retain_actions(ps.user_id, will)[0],
            )
        }),
{
    let s = h.sessions[addr].session;
    let c = s.connect_packet->0;
    let ps = s.persistent->0;
    let will = client_session_spec::will_message(c)->0;
    let step = client_session_spec::on_client_disconnect(h, addr, reason, now);
    let said = session_spec::recv_publish(s, ps, will, true, now).1;
    let n = step.actions.len() - said.len();
    let kept = session_spec::retain_actions(ps.user_id, will);
    if kept.len() > 0 {
        assert(said[0] == kept[0]);
        assert(step.actions[n] == said[0]);
    }
}

/// Law: a client that says DISCONNECT has no last will: when it is gone nothing is forwarded and
/// nothing retained.
pub proof fn law_disconnect_forgets_the_will(
    h: HubModel,
    addr: SocketAddr,
    reason: Seq<char>,
    now: u64,
)
    requires
        client_session_spec::hub_wf(h),
        h.sessions.contains_key(addr),
        h.sessions[addr].session.connected,
    ensures
        ({
            let s = h.sessions[addr].session;
            let said = session_spec::on_disconnect(s);
            let after = client_session_spec::with_session(h, addr, said.session);
            let step = client_session_spec::on_client_disconnect(after, addr, reason, now);
            &&& said.fault is None
            &&& step.fault is None
            &&& forall|i: int|
                0 <= i < step.actions.len() ==> !((#[trigger] step.actions[i]) is Retain) && !(
                step.actions[i] matches SessionActionModel::Router(m) && m is ForwardPublish)
        }),
{
}

/// The state of the hub after a client has gone.
pub open spec fn after_leaving(h: HubModel, addr: SocketAddr, reason: Seq<char>, now: u64) -> HubModel {
    client_session_spec::on_client_disconnect(h, addr, reason, now).hub
}

/// Law: a client that connects again without a clean session, and did so before, finds its messages
/// in flight: those sent to it as they were, those received from it that it has not yet released.
pub proof fn law_session_is_resumed(
    h: HubModel,
    addr: SocketAddr,
    reason: Seq<char>,
    again: SocketAddr,
    c: ConnectModel,
    now: u64,
    later: u64,
)
    requires
        client_session_spec::hub_wf(h),
        h.sessions.contains_key(addr),
        h.sessions[addr].session.connect_packet matches Some(d) && !d.clean_session,
        c.client_identifier == h.sessions[addr].session.persistent->0.client_identifier,
        c.protocol_name == "MQTT"@,
        !c.clean_session,
    ensures
        ({
            let ps = h.sessions[addr].session.persistent->0;
            let w = WorldModel {
                session: client_session_spec::fresh_session(again),
                addrs: after_leaving(h, addr, reason, now).addrs,
                persistents: after_leaving(h, addr, reason, now).persistents,
            };
            let step = session_spec::on_packet(w, PacketModel::Connect(c), later);
            &&& step.fault is None
            &&& step.world.session.connected
            &&& step.world.session.persistent == Some(
                PersistentModel { qos2_recv: session_spec::unreleased(ps.qos2_recv), ..ps },
            )
            &&& step.world.addrs.contains_pair((UserId(0), c.client_identifier), again)
        }),
{
    reveal(session_spec::on_packet);
}

/// Law: a client that connects with a clean session, or left a clean one, starts with nothing in
/// flight.
pub proof fn law_clean_session_starts_afresh(w: WorldModel, c: ConnectModel, now: u64)
    requires
        !w.session.connected,
        c.protocol_name == "MQTT"@,
        c.clean_session || !w.persistents.contains_key((UserId(0), c.client_identifier)),
    ensures
        ({
            let step = session_spec::on_packet(w, PacketModel::Connect(c), now);
            &&& step.fault is None
            &&& step.world.session.persistent == Some(
                session_spec::fresh_persistent(UserId(0), c.client_identifier),
            )
            &&& step.actions == seq![
                hub::send_action(
                    w.session.addr,
                    wire::connack_bytes(false, wire::CONNECTION_ACCEPTED),
                ),
            ]
        }),
{
    reveal(session_spec::on_packet);
    let fresh = session_spec::fresh_persistent(UserId(0), c.client_identifier);
    let none = Seq::<(u16, session_spec::Handshake)>::empty();
    assert(session_spec::unreleased(none) =~= none) by {
        reveal(Seq::filter);
    }
    let step = session_spec::on_packet(w, PacketModel::Connect(c), now);
    assert(session_spec::redeliver_qos1(w.session.addr, fresh.qos1_send) =~= Seq::empty());
    assert(step.actions =~= seq![
        hub::send_action(w.session.addr, wire::connack_bytes(false, wire::CONNECTION_ACCEPTED)),
    ]);
}

/// The address that a message to the sessions is about, where there is one.
pub open spec fn concerns(h: HubModel, msg: ClientSessionMsgModel) -> Option<SocketAddr> {
    match msg {
        ClientSessionMsgModel::Data(addr, _) => Some(addr),
        ClientSessionMsgModel::ClientDisconnect(addr, _) => Some(addr),
        ClientSessionMsgModel::RetainPackets(_, addr, _, _) => Some(addr),
        ClientSessionMsgModel::Timeout(SessionTimerPayload::KeepAliveTimer(addr)) => Some(addr),
        ClientSessionMsgModel::Timeout(
            SessionTimerPayload::RecvPacketTimer(_, addr, _),
        ) => Some(addr),
        ClientSessionMsgModel::Publish(user_id, client_identifier, _, _) => if h.addrs.contains_key(
            (user_id, client_identifier),
        ) {
            Some(h.addrs[(user_id, client_identifier)])
        } else {
            None
        },
    }
}

/// Law: a message about one client leaves the sessions of all others as they were.
pub proof fn law_others_are_left_alone(
    h: HubModel,
    msg: ClientSessionMsgModel,
    other: SocketAddr,
    now: u64,
)
    requires
        concerns(h, msg) != Some(other),
    ensures
        ({
            let after = client_session_spec::on_msg(h, msg, now).hub;
            &&& after.sessions.contains_key(other) == h.sessions.contains_key(other)
            &&& h.sessions.contains_key(other) ==> after.sessions[other] == h.sessions[other]
        }),
{
}

/// Law: a packet that the client owes is asked for again for as long as it is owed: the message goes
/// out once more under its identifier, marked as a repetition, and the timer is set anew.
pub proof fn law_message_is_sent_again(
    h: HubModel,
    addr: SocketAddr,
    pkid: u16,
    now: u64,
)
    requires
        client_session_spec::hub_wf(h),
        h.sessions.contains_key(addr),
        h.sessions[addr].session.persistent matches Some(ps) && sound(ps) && window::holds(
            ps.qos1_send,
            pkid,
        ),
    ensures
        ({
            let payload = session_spec::packet_timer(
                SessionTimerPacketType::RecvPubackTimeout,
                addr,
                pkid,
            );
            let p = window::get(h.sessions[addr].session.persistent->0.qos1_send, pkid)->0;
            let again = PublishModel { dup: true, ..p };
            let step = client_session_spec::on_timeout(h, payload, now);
            &&& step.fault is None
            &&& sends(step.actions[0], addr, again)
            &&& step.actions.last() == session_spec::set_timer(
                now,
                client_session_spec::RECV_PACKET_TIMEOUT,
                payload,
            )
            &&& window::get(step.hub.sessions[addr].session.persistent->0.qos1_send, pkid) == Some(
                again,
            )
        }),
{
    let ps = h.sessions[addr].session.persistent->0;
    let p = window::get(ps.qos1_send, pkid)->0;
    window::lemma_put(ps.qos1_send, pkid, PublishModel { dup: true, ..p });
}

} // verus!
