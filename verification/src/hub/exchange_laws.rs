//! What holds of the exchange of packets with one client: what it sends is answered, forwarded and
//! remembered.
use vstd::prelude::*;

use crate::common::{SocketAddr, UserId};
use crate::hub::session_laws;
use crate::hub::session_spec;
use crate::hub::session_spec::{Handshake, PersistentModel, SessionFault, WorldModel};
use crate::hub::{
    ClientConnectionMsgModel, LocalRouterMsgModel, SessionActionModel, SessionTimerAction,
    SessionTimerPacketType, SessionTimerPayload,
};
use crate::qos::{QoSWithPacketIdentifier, QualityOfService};
use crate::store::GlobalRetainMsgModel;
use crate::text;
use crate::window;
use crate::wire;
use crate::wire::{
    ConnectModel, PacketModel, PublishModel, SubackModel, SubscribeModel, UnsubscribeModel,
};
use crate::wire_laws;

verus! {

/// Where an action goes.
pub enum Channel {
    Clients,
    Timers,
    Router,
    Keeper,
}

pub open spec fn channel_of(action: SessionActionModel) -> Channel {
    match action {
        SessionActionModel::Connection(_) => Channel::Clients,
        SessionActionModel::Timer(_, _) => Channel::Timers,
        SessionActionModel::Router(_) => Channel::Router,
        SessionActionModel::Retain(_) => Channel::Keeper,
    }
}

/// What goes over a channel, in order.
pub open spec fn over(actions: Seq<SessionActionModel>, channel: Channel) -> Seq<
    SessionActionModel,
> {
    actions.filter(|action: SessionActionModel| channel_of(action) == channel)
}

pub broadcast proof fn lemma_over_nothing(channel: Channel)
    ensures
        #[trigger] over(Seq::empty(), channel) == Seq::<SessionActionModel>::empty(),
{
    reveal(Seq::filter);
}

pub broadcast proof fn lemma_over_push(
    actions: Seq<SessionActionModel>,
    action: SessionActionModel,
    channel: Channel,
)
    ensures
        #[trigger] over(actions.push(action), channel) == (if channel_of(action) == channel {
            over(actions, channel).push(action)
        } else {
            over(actions, channel)
        }),
{
    reveal(Seq::filter);
    assert(actions.push(action).drop_last() =~= actions);
}

pub broadcast proof fn lemma_over_add(
    a: Seq<SessionActionModel>,
    b: Seq<SessionActionModel>,
    channel: Channel,
)
    ensures
        #[trigger] over(a + b, channel) == over(a, channel) + over(b, channel),
{
    Seq::filter_distributes_over_add(
        a,
        b,
        |action: SessionActionModel| channel_of(action) == channel,
    );
}

/// Two or three actions, one after the other.
pub proof fn lemma_few(s: Seq<SessionActionModel>)
    ensures
        s.len() == 2 ==> s == Seq::empty().push(s[0]).push(s[1]),
        s.len() == 3 ==> s == Seq::empty().push(s[0]).push(s[1]).push(s[2]),
{
    if s.len() == 2 {
        assert(s =~= Seq::empty().push(s[0]).push(s[1]));
    }
    if s.len() == 3 {
        assert(s =~= Seq::empty().push(s[0]).push(s[1]).push(s[2]));
    }
}

/// A packet on its way to a client.
pub open spec fn to_client(addr: SocketAddr, p: PacketModel) -> SessionActionModel {
    SessionActionModel::Connection(ClientConnectionMsgModel::Data(addr, wire::packet_bytes(p)))
}

/// The end of a connection.
pub open spec fn closes(addr: SocketAddr, reason: Seq<char>) -> SessionActionModel {
    SessionActionModel::Connection(ClientConnectionMsgModel::DisconnectClient(addr, reason))
}

/// The packet is awaited for so many seconds.
pub open spec fn awaits(
    now: u64,
    secs: u64,
    kind: SessionTimerPacketType,
    addr: SocketAddr,
    pkid: u16,
) -> SessionActionModel {
    SessionActionModel::Timer(
        SessionTimerAction::SetAt((now + secs * 1_000_000_000) as u64),
        SessionTimerPayload::RecvPacketTimer(kind, addr, pkid),
    )
}

/// The packet is no longer awaited.
pub open spec fn awaits_no_longer(
    kind: SessionTimerPacketType,
    addr: SocketAddr,
    pkid: u16,
) -> SessionActionModel {
    SessionActionModel::Timer(
        SessionTimerAction::Cancel,
        SessionTimerPayload::RecvPacketTimer(kind, addr, pkid),
    )
}

/// Nothing has changed but, perhaps, the messages in flight of the session's client.
pub open spec fn only_flights_change(before: WorldModel, after: WorldModel) -> bool {
    &&& after.addrs == before.addrs
    &&& after.persistents == before.persistents
    &&& before.session.persistent matches Some(a) && after.session.persistent matches Some(b)
        && b.user_id == a.user_id && b.client_identifier == a.client_identifier && b.pkid == a.pkid
    &&& after.session.addr == before.session.addr
    &&& after.session.recv_packet_timeout == before.session.recv_packet_timeout
    &&& after.session.keep_alive_timeout == before.session.keep_alive_timeout
    &&& after.session.connected == before.session.connected
    &&& after.session.connect_packet == before.session.connect_packet
}

/// `after` has under one identifier what is given, and is else as before.
pub open spec fn changed_at<T>(
    before: Seq<(u16, T)>,
    after: Seq<(u16, T)>,
    pkid: u16,
    value: Option<T>,
) -> bool {
    forall|k: u16| #[trigger]
        window::get(after, k) == (if k == pkid {
            value
        } else {
            window::get(before, k)
        })
}

/// What a message does to the retained ones.
pub open spec fn is_kept_as_asked(kept: Seq<SessionActionModel>, user_id: UserId, p: PublishModel) -> bool {
    &&& !p.retain ==> kept.len() == 0
    &&& p.retain ==> kept.len() == 1
    &&& p.retain && p.payload.len() > 0 ==> kept[0] == SessionActionModel::Retain(
        GlobalRetainMsgModel::Insert(user_id, p),
    )
    &&& p.retain && p.payload.len() == 0 ==> kept[0] == SessionActionModel::Retain(
        GlobalRetainMsgModel::Remove(user_id, p.topic),
    )
}

/// Law: a message of a connected client is forwarded once, as it is. Where it is to be retained it
/// takes the place of the one that was, or, if it is empty, ends it.
pub proof fn law_message_is_forwarded_once(
    w: WorldModel,
    ps: PersistentModel,
    p: PublishModel,
    now: u64,
)
    requires
        w.session.persistent == Some(ps),
    ensures
        ({
            let step = session_spec::on_packet(w, PacketModel::Publish(p), now);
            &&& step.fault is None
            &&& over(step.actions, Channel::Router) == seq![
                SessionActionModel::Router(LocalRouterMsgModel::ForwardPublish(ps.user_id, p)),
            ]
            &&& is_kept_as_asked(over(step.actions, Channel::Keeper), ps.user_id, p)
        }),
{
    broadcast use {lemma_over_nothing, lemma_over_push, lemma_over_add};

    reveal(session_spec::on_packet);
}

/// Law: a message of a connected client is acknowledged as its level asks, under its own identifier
/// and to the client alone: not at all at level zero, by PUBACK at level one, by PUBREC at level two.
/// At level two it is remembered, and its release awaited.
pub proof fn law_message_is_acknowledged(
    w: WorldModel,
    ps: PersistentModel,
    p: PublishModel,
    now: u64,
)
    requires
        w.session.persistent == Some(ps),
        window::distinct(ps.qos2_recv),
    ensures
        ({
            let step = session_spec::on_packet(w, PacketModel::Publish(p), now);
            let addr = w.session.addr;
            let answers = over(step.actions, Channel::Clients);
            let timers = over(step.actions, Channel::Timers);
            let after = step.world.session.persistent->0;
            &&& only_flights_change(w, step.world)
            &&& after.qos1_send == ps.qos1_send
            &&& after.qos2_send == ps.qos2_send
            &&& match p.qos {
                QoSWithPacketIdentifier::Level0 => {
                    &&& answers.len() == 0
                    &&& timers.len() == 0
                    &&& after.qos2_recv == ps.qos2_recv
                },
                QoSWithPacketIdentifier::Level1(k) => {
                    &&& answers == seq![to_client(addr, PacketModel::Puback(k))]
                    &&& timers.len() == 0
                    &&& after.qos2_recv == ps.qos2_recv
                },
                QoSWithPacketIdentifier::Level2(k) => {
                    &&& answers == seq![to_client(addr, PacketModel::Pubrec(k))]
                    &&& timers == seq![
                        awaits(
                            now,
                            w.session.recv_packet_timeout,
                            SessionTimerPacketType::RecvPubrelTimeout,
                            addr,
                            k,
                        ),
                    ]
                    &&& changed_at(ps.qos2_recv, after.qos2_recv, k, Some((p, true, false)))
                },
            }
        }),
{
    broadcast use {lemma_over_nothing, lemma_over_push, lemma_over_add};

    reveal(session_spec::on_packet);
    if let QoSWithPacketIdentifier::Level2(k) = p.qos {
        window::lemma_put(ps.qos2_recv, k, (p, true, false));
    }
}

/// Law: PUBACK ends a message that was sent at level one, and no other. Nothing is sent for it.
pub proof fn law_puback_ends_the_message(w: WorldModel, ps: PersistentModel, k: u16, now: u64)
    requires
        w.session.persistent == Some(ps),
        window::distinct(ps.qos1_send),
    ensures
        ({
            let step = session_spec::on_packet(w, PacketModel::Puback(k), now);
            let after = step.world.session.persistent->0;
            &&& step.fault is None
            &&& only_flights_change(w, step.world)
            &&& changed_at(ps.qos1_send, after.qos1_send, k, None)
            &&& after.qos2_send == ps.qos2_send
            &&& after.qos2_recv == ps.qos2_recv
            &&& step.actions == seq![
                awaits_no_longer(SessionTimerPacketType::RecvPubackTimeout, w.session.addr, k),
            ]
        }),
{
    reveal(session_spec::on_packet);
    window::lemma_erase(ps.qos1_send, k);
}

/// Law: PUBREC for a message that was sent at level two is answered by PUBREL, and PUBCOMP is then
/// awaited in its place. For any other it is passed over.
pub proof fn law_pubrec_is_answered_by_pubrel(w: WorldModel, ps: PersistentModel, k: u16, now: u64)
    requires
        w.session.persistent == Some(ps),
        window::distinct(ps.qos2_send),
    ensures
        ({
            let step = session_spec::on_packet(w, PacketModel::Pubrec(k), now);
            let addr = w.session.addr;
            let after = step.world.session.persistent->0;
            let end = awaits_no_longer(SessionTimerPacketType::RecvPubrecTimeout, addr, k);
            &&& step.fault is None
            &&& only_flights_change(w, step.world)
            &&& after.qos1_send == ps.qos1_send
            &&& after.qos2_recv == ps.qos2_recv
            &&& over(step.actions, Channel::Router).len() == 0
            &&& over(step.actions, Channel::Keeper).len() == 0
            &&& match window::get(ps.qos2_send, k) {
                Some(e) => {
                    &&& over(step.actions, Channel::Clients) == seq![
                        to_client(addr, PacketModel::Pubrel(k)),
                    ]
                    &&& over(step.actions, Channel::Timers) == seq![
                        end,
                        awaits(
                            now,
                            w.session.recv_packet_timeout,
                            SessionTimerPacketType::RecvPubcompTimeout,
                            addr,
                            k,
                        ),
                    ]
                    &&& changed_at(ps.qos2_send, after.qos2_send, k, Some((e.0, true, true)))
                },
                None => {
                    &&& over(step.actions, Channel::Clients).len() == 0
                    &&& over(step.actions, Channel::Timers) == seq![end]
                    &&& after.qos2_send == ps.qos2_send
                },
            }
        }),
{
    broadcast use {lemma_over_nothing, lemma_over_push, lemma_over_add};

    reveal(session_spec::on_packet);
    let step = session_spec::on_packet(w, PacketModel::Pubrec(k), now);
    lemma_few(step.actions);
    if let Some(e) = window::get(ps.qos2_send, k) {
        assert(over(step.actions, Channel::Timers) =~= seq![step.actions[0], step.actions[2]]);
        let without = window::erase(ps.qos2_send, k);
        window::lemma_erase(ps.qos2_send, k);
        window::lemma_put(without, k, (e.0, true, true));
    }
}

/// Law: PUBREL for a message that was received at level two is answered by PUBCOMP and ends it. For
/// any other it is a fault.
pub proof fn law_pubrel_is_answered_by_pubcomp(w: WorldModel, ps: PersistentModel, k: u16, now: u64)
    requires
        w.session.persistent == Some(ps),
        window::distinct(ps.qos2_recv),
    ensures
        ({
            let step = session_spec::on_packet(w, PacketModel::Pubrel(k), now);
            let addr = w.session.addr;
            let after = step.world.session.persistent->0;
            if window::get(ps.qos2_recv, k) is Some {
                &&& step.fault is None
                &&& only_flights_change(w, step.world)
                &&& after.qos1_send == ps.qos1_send
                &&& after.qos2_send == ps.qos2_send
                &&& changed_at(ps.qos2_recv, after.qos2_recv, k, None)
                &&& over(step.actions, Channel::Router).len() == 0
                &&& over(step.actions, Channel::Keeper).len() == 0
                &&& over(step.actions, Channel::Clients) == seq![
                    to_client(addr, PacketModel::Pubcomp(k)),
                ]
                &&& over(step.actions, Channel::Timers) == seq![
                    awaits_no_longer(SessionTimerPacketType::RecvPubrelTimeout, addr, k),
                ]
            } else {
                &&& step.fault == Some(SessionFault::UnexpectedPubrel)
                &&& over(step.actions, Channel::Clients).len() == 0
            }
        }),
{
    broadcast use {lemma_over_nothing, lemma_over_push, lemma_over_add};

    reveal(session_spec::on_packet);
    lemma_few(session_spec::on_packet(w, PacketModel::Pubrel(k), now).actions);
    window::lemma_erase(ps.qos2_recv, k);
}

/// Law: PUBCOMP ends a message that was sent at level two. Nothing is sent for it. For any other it
/// is a fault.
pub proof fn law_pubcomp_ends_the_message(w: WorldModel, ps: PersistentModel, k: u16, now: u64)
    requires
        w.session.persistent == Some(ps),
        window::distinct(ps.qos2_send),
    ensures
        ({
            let step = session_spec::on_packet(w, PacketModel::Pubcomp(k), now);
            let after = step.world.session.persistent->0;
            &&& step.actions == seq![
                awaits_no_longer(SessionTimerPacketType::RecvPubcompTimeout, w.session.addr, k),
            ]
            &&& if window::get(ps.qos2_send, k) is Some {
                &&& step.fault is None
                &&& only_flights_change(w, step.world)
                &&& after.qos1_send == ps.qos1_send
                &&& after.qos2_recv == ps.qos2_recv
                &&& changed_at(ps.qos2_send, after.qos2_send, k, None)
            } else {
                step.fault == Some(SessionFault::UnexpectedPubcomp)
            }
        }),
{
    reveal(session_spec::on_packet);
    window::lemma_erase(ps.qos2_send, k);
}

/// Law: a ping of a connected client is answered, and that is all.
pub proof fn law_ping_is_answered(w: WorldModel, now: u64)
    requires
        w.session.persistent is Some,
    ensures
        ({
            let step = session_spec::on_packet(w, PacketModel::Pingreq, now);
            &&& step.fault is None
            &&& step.world == w
            &&& step.actions == seq![to_client(w.session.addr, PacketModel::Pingresp)]
        }),
{
    reveal(session_spec::on_packet);
}

/// Law: the subscriptions of a connected client go to the router as they were asked for, in the
/// client's name and with its address, and each is granted at the level that was asked for.
pub proof fn law_subscriptions_are_granted(
    w: WorldModel,
    ps: PersistentModel,
    m: SubscribeModel,
    now: u64,
)
    requires
        w.session.persistent == Some(ps),
    ensures
        ({
            let step = session_spec::on_packet(w, PacketModel::Subscribe(m), now);
            let addr = w.session.addr;
            &&& step.fault is None
            &&& step.world == w
            &&& over(step.actions, Channel::Timers).len() == 0
            &&& over(step.actions, Channel::Keeper).len() == 0
            &&& over(step.actions, Channel::Router) == seq![
                SessionActionModel::Router(
                    LocalRouterMsgModel::Subscribe(ps.user_id, ps.client_identifier, addr, m),
                ),
            ]
            &&& over(step.actions, Channel::Clients).len() == 1
            &&& exists|codes: Seq<u8>|
                {
                    &&& over(step.actions, Channel::Clients)[0] == #[trigger] to_client(
                        addr,
                        PacketModel::Suback(SubackModel { pkid: m.pkid, codes }),
                    )
                    &&& codes.len() == m.subscribes.len()
                    &&& forall|i: int|
                        0 <= i < codes.len() ==> match m.subscribes[i].1 {
                            QualityOfService::Level0 => #[trigger] codes[i] == 0,
                            QualityOfService::Level1 => codes[i] == 1,
                            QualityOfService::Level2 => codes[i] == 2,
                        }
                }
        }),
{
    broadcast use {lemma_over_nothing, lemma_over_push, lemma_over_add};

    reveal(session_spec::on_packet);
    let codes = m.subscribes.map_values(|e: (Seq<char>, QualityOfService)| e.1.number());
    let step = session_spec::on_packet(w, PacketModel::Subscribe(m), now);
    lemma_few(step.actions);
    assert(over(step.actions, Channel::Clients)[0] == to_client(
        w.session.addr,
        PacketModel::Suback(SubackModel { pkid: m.pkid, codes }),
    ));
}

/// Law: the filters that a connected client gives up go to the router, all of them and in the
/// client's name, and the client is told so.
pub proof fn law_unsubscribing_is_acknowledged(
    w: WorldModel,
    ps: PersistentModel,
    m: UnsubscribeModel,
    now: u64,
)
    requires
        w.session.persistent == Some(ps),
    ensures
        ({
            let step = session_spec::on_packet(w, PacketModel::Unsubscribe(m), now);
            &&& step.fault is None
            &&& step.world == w
            &&& over(step.actions, Channel::Timers).len() == 0
            &&& over(step.actions, Channel::Keeper).len() == 0
            &&& over(step.actions, Channel::Router) == seq![
                SessionActionModel::Router(
                    LocalRouterMsgModel::Unsubscribe(ps.user_id, ps.client_identifier, m),
                ),
            ]
            &&& over(step.actions, Channel::Clients) == seq![
                to_client(w.session.addr, PacketModel::Unsuback(m.pkid)),
            ]
        }),
{
    broadcast use {lemma_over_nothing, lemma_over_push, lemma_over_add};

    reveal(session_spec::on_packet);
    lemma_few(session_spec::on_packet(w, PacketModel::Unsubscribe(m), now).actions);
}

/// Law: DISCONNECT closes the connection, and of what the client said of itself its last will alone is
/// forgotten. Its messages in flight stay.
pub proof fn law_disconnect_closes_the_connection(w: WorldModel, c: ConnectModel, now: u64)
    requires
        w.session.persistent is Some,
        w.session.connect_packet == Some(c),
    ensures
        ({
            let step = session_spec::on_packet(w, PacketModel::Disconnect, now);
            let said = step.world.session.connect_packet;
            &&& step.fault is None
            &&& step.actions == seq![closes(w.session.addr, "Receive disconnect packet!"@)]
            &&& step.world.addrs == w.addrs
            &&& step.world.persistents == w.persistents
            &&& step.world.session.persistent == w.session.persistent
            &&& step.world.session.connected == w.session.connected
            &&& step.world.session.addr == w.session.addr
            &&& step.world.session.keep_alive_timeout == w.session.keep_alive_timeout
            &&& said matches Some(d) && d.will is None && d.clean_session == c.clean_session
                && d.client_identifier == c.client_identifier && d.keep_alive == c.keep_alive
        }),
{
    reveal(session_spec::on_packet);
}

/// Law: a client is told why it is refused: for a packet before CONNECT, for a second CONNECT, for
/// another protocol, for a packet that only a broker sends.
pub proof fn law_refusals_have_reasons(w: WorldModel, p: PacketModel, now: u64)
    ensures
        ({
            let step = session_spec::on_packet(w, p, now);
            let addr = w.session.addr;
            &&& !(p is Connect) && w.session.persistent is None ==> step.world == w && step.fault
                is None && step.actions == seq![closes(addr, "Client not connected yet!"@)]
            &&& p is Connect && w.session.connected ==> step.world == w && step.fault is None
                && step.actions == seq![closes(addr, "Client already connected!"@)]
            &&& p is Connect && !w.session.connected && p->Connect_0.protocol_name
                != "MQTT"@ ==> step.world == w && step.fault is None && step.actions == seq![
                closes(
                    addr,
                    "Invalid protocol name: "@ + text::quoted(p->Connect_0.protocol_name) + "!"@,
                ),
            ]
            &&& (p is Connack || p is Suback || p is Unsuback || p is Pingresp)
                && w.session.persistent is Some ==> step.world == w && step.fault is None
                && step.actions == seq![closes(addr, "Can't send broker only packets!"@)]
        }),
{
    reveal(session_spec::on_packet);
}

/// Actions that all go over one channel.
proof fn lemma_over_one(s: Seq<SessionActionModel>, one: Channel, channel: Channel)
    requires
        forall|i: int| 0 <= i < s.len() ==> channel_of(#[trigger] s[i]) == one,
    ensures
        over(s, channel) == (if channel == one {
            s
        } else {
            Seq::empty()
        }),
    decreases s.len(),
{
    if s.len() == 0 {
        lemma_over_nothing(channel);
        assert(s =~= Seq::empty());
    } else {
        lemma_over_one(s.drop_last(), one, channel);
        lemma_over_push(s.drop_last(), s.last(), channel);
        assert(s =~= s.drop_last().push(s.last()));
    }
}

/// What a client is to get of a message that was sent to it at level two: PUBREL once PUBREC has come,
/// the message until then.
pub open spec fn owed_to(e: (u16, Handshake)) -> PacketModel {
    if (e.1).1 {
        PacketModel::Pubrel(e.0)
    } else {
        PacketModel::Publish((e.1).0)
    }
}

/// What a client is to get for a message that was received from it at level two: PUBCOMP once PUBREL
/// has come, PUBREC until then.
pub open spec fn owed_for(e: (u16, Handshake)) -> PacketModel {
    if (e.1).2 {
        PacketModel::Pubcomp(e.0)
    } else {
        PacketModel::Pubrec(e.0)
    }
}

/// What goes over each channel for the messages that were sent at level two.
proof fn lemma_taken_up_sent(addr: SocketAddr, timeout: u64, w: Seq<(u16, Handshake)>, now: u64)
    ensures
        ({
            let actions = session_spec::redeliver_qos2_send(addr, timeout, w, now);
            let out = over(actions, Channel::Clients);
            let timers = over(actions, Channel::Timers);
            &&& over(actions, Channel::Router).len() == 0
            &&& over(actions, Channel::Keeper).len() == 0
            &&& out.len() == w.len()
            &&& forall|i: int|
                0 <= i < w.len() ==> out[i] == to_client(addr, owed_to(#[trigger] w[i]))
            &&& forall|i: int|
                0 <= i < w.len() && ((#[trigger] w[i]).1).1 ==> timers.contains(
                    awaits(now, timeout, SessionTimerPacketType::RecvPubcompTimeout, addr, w[i].0),
                )
        }),
    decreases w.len(),
{
    broadcast use {lemma_over_nothing, lemma_over_push};

    if w.len() > 0 {
        let before = session_spec::redeliver_qos2_send(addr, timeout, w.drop_last(), now);
        let actions = session_spec::redeliver_qos2_send(addr, timeout, w, now);
        lemma_taken_up_sent(addr, timeout, w.drop_last(), now);
        let old_timers = over(before, Channel::Timers);
        let timers = over(actions, Channel::Timers);
        let out = over(actions, Channel::Clients);
        assert forall|i: int| 0 <= i < w.len() implies out[i] == to_client(
            addr,
            owed_to(#[trigger] w[i]),
        ) by {
            if i < w.len() - 1 {
                assert(w.drop_last()[i] == w[i]);
            }
        }
        assert forall|i: int| 0 <= i < w.len() && ((#[trigger] w[i]).1).1 implies timers.contains(
            awaits(now, timeout, SessionTimerPacketType::RecvPubcompTimeout, addr, w[i].0),
        ) by {
            let timer = awaits(
                now,
                timeout,
                SessionTimerPacketType::RecvPubcompTimeout,
                addr,
                w[i].0,
            );
            if i < w.len() - 1 {
                assert(w.drop_last()[i] == w[i]);
                let t = old_timers.index_of(timer);
                assert(timers[t] == timer);
            } else {
                assert(timers[timers.len() - 1] == timer);
            }
        }
    }
}

/// What goes over each channel for the messages that were received at level two.
proof fn lemma_taken_up_received(addr: SocketAddr, timeout: u64, w: Seq<(u16, Handshake)>, now: u64)
    ensures
        ({
            let actions = session_spec::redeliver_qos2_recv(addr, timeout, w, now);
            let out = over(actions, Channel::Clients);
            let timers = over(actions, Channel::Timers);
            &&& over(actions, Channel::Router).len() == 0
            &&& over(actions, Channel::Keeper).len() == 0
            &&& out.len() == w.len()
            &&& forall|i: int|
                0 <= i < w.len() ==> out[i] == to_client(addr, owed_for(#[trigger] w[i]))
            &&& forall|i: int|
                0 <= i < w.len() && !((#[trigger] w[i]).1).2 ==> timers.contains(
                    awaits(now, timeout, SessionTimerPacketType::RecvPubrelTimeout, addr, w[i].0),
                )
        }),
    decreases w.len(),
{
    broadcast use {lemma_over_nothing, lemma_over_push};

    if w.len() > 0 {
        let before = session_spec::redeliver_qos2_recv(addr, timeout, w.drop_last(), now);
        let actions = session_spec::redeliver_qos2_recv(addr, timeout, w, now);
        lemma_taken_up_received(addr, timeout, w.drop_last(), now);
        let old_timers = over(before, Channel::Timers);
        let timers = over(actions, Channel::Timers);
        let out = over(actions, Channel::Clients);
        assert forall|i: int| 0 <= i < w.len() implies out[i] == to_client(
            addr,
            owed_for(#[trigger] w[i]),
        ) by {
            if i < w.len() - 1 {
                assert(w.drop_last()[i] == w[i]);
            }
        }
        assert forall|i: int| 0 <= i < w.len() && !((#[trigger] w[i]).1).2 implies timers.contains(
            awaits(now, timeout, SessionTimerPacketType::RecvPubrelTimeout, addr, w[i].0),
        ) by {
            let timer = awaits(
                now,
                timeout,
                SessionTimerPacketType::RecvPubrelTimeout,
                addr,
                w[i].0,
            );
            if i < w.len() - 1 {
                assert(w.drop_last()[i] == w[i]);
                let t = old_timers.index_of(timer);
                assert(timers[t] == timer);
            } else {
                assert(timers[timers.len() - 1] == timer);
            }
        }
    }
}

/// The client that a CONNECT packet names. All clients belong to the first user.
pub open spec fn named_by(c: ConnectModel) -> (UserId, Seq<char>) {
    (UserId(0), c.client_identifier)
}

/// Law: a client that is not connected and speaks the protocol is let in. CONNACK is the first it
/// gets; from then on its identifier leads to its address, and nothing is kept of it elsewhere. Its
/// time is one and a half times what it asked for, where that is more than nothing and less than it
/// had.
pub proof fn law_client_is_let_in(w: WorldModel, c: ConnectModel, now: u64)
    requires
        !w.session.connected,
        c.protocol_name == "MQTT"@,
    ensures
        ({
            let step = session_spec::on_packet(w, PacketModel::Connect(c), now);
            let s = step.world.session;
            let out = over(step.actions, Channel::Clients);
            let asked = c.keep_alive * 3 / 2;
            &&& step.fault is None
            &&& s.connected
            &&& s.connect_packet == Some(c)
            &&& s.addr == w.session.addr
            &&& s.recv_packet_timeout == w.session.recv_packet_timeout
            &&& s.keep_alive_timeout == (if 0 < asked < w.session.keep_alive_timeout {
                asked
            } else {
                w.session.keep_alive_timeout as int
            })
            &&& s.persistent matches Some(ps) && (w.persistents.contains_key(named_by(c)) || (
            ps.user_id, ps.client_identifier) == named_by(c))
            &&& out.len() > 0
            &&& out[0] == to_client(s.addr, PacketModel::Connack(false, 0))
            &&& over(step.actions, Channel::Router).len() == 0
            &&& over(step.actions, Channel::Keeper).len() == 0
            &&& forall|k: (UserId, Seq<char>)| #[trigger]
                step.world.addrs.contains_key(k) <==> k == named_by(c) || w.addrs.contains_key(k)
            &&& forall|k: (UserId, Seq<char>)| #[trigger]
                step.world.addrs.contains_key(k) ==> step.world.addrs[k] == (if k == named_by(c) {
                    s.addr
                } else {
                    w.addrs[k]
                })
            &&& forall|k: (UserId, Seq<char>)| #[trigger]
                step.world.persistents.contains_key(k) <==> k != named_by(c)
                    && w.persistents.contains_key(k)
            &&& forall|k: (UserId, Seq<char>)| #[trigger]
                step.world.persistents.contains_key(k) ==> step.world.persistents[k]
                    == w.persistents[k]
        }),
{
    reveal(session_spec::on_packet);
    let ps = if !c.clean_session && w.persistents.contains_key(named_by(c)) {
        w.persistents[named_by(c)]
    } else {
        session_spec::fresh_persistent(UserId(0), c.client_identifier)
    };
    lemma_taken_up(w, c, ps, now);
}

/// What a client that is let in makes the session do.
pub proof fn lemma_let_in(w: WorldModel, c: ConnectModel, ps: PersistentModel, now: u64)
    requires
        !w.session.connected,
        c.protocol_name == "MQTT"@,
        ps == (if !c.clean_session && w.persistents.contains_key(named_by(c)) {
            w.persistents[named_by(c)]
        } else {
            session_spec::fresh_persistent(UserId(0), c.client_identifier)
        }),
    ensures
        ({
            let step = session_spec::on_packet(w, PacketModel::Connect(c), now);
            let addr = w.session.addr;
            let timeout = w.session.recv_packet_timeout;
            step.actions == seq![to_client(addr, PacketModel::Connack(false, 0))] + ((
            session_spec::redeliver_qos1(addr, ps.qos1_send) + session_spec::redeliver_qos2_send(
                addr,
                timeout,
                ps.qos2_send,
                now,
            )) + session_spec::redeliver_qos2_recv(addr, timeout, ps.qos2_recv, now))
        }),
{
    reveal(session_spec::on_packet);
}

/// What goes over a channel of four lists of actions.
proof fn lemma_over_four(
    a: Seq<SessionActionModel>,
    b: Seq<SessionActionModel>,
    c: Seq<SessionActionModel>,
    d: Seq<SessionActionModel>,
    channel: Channel,
)
    ensures
        over(a + ((b + c) + d), channel) == over(a, channel) + ((over(b, channel) + over(
            c,
            channel,
        )) + over(d, channel)),
{
    lemma_over_add(a, (b + c) + d, channel);
    lemma_over_add(b + c, d, channel);
    lemma_over_add(b, c, channel);
}

/// What goes over each channel when a client is let in.
proof fn lemma_taken_up(w: WorldModel, c: ConnectModel, ps: PersistentModel, now: u64)
    requires
        !w.session.connected,
        c.protocol_name == "MQTT"@,
        ps == (if !c.clean_session && w.persistents.contains_key(named_by(c)) {
            w.persistents[named_by(c)]
        } else {
            session_spec::fresh_persistent(UserId(0), c.client_identifier)
        }),
    ensures
        ({
            let step = session_spec::on_packet(w, PacketModel::Connect(c), now);
            let addr = w.session.addr;
            let timeout = w.session.recv_packet_timeout;
            let sent = session_spec::redeliver_qos2_send(addr, timeout, ps.qos2_send, now);
            let received = session_spec::redeliver_qos2_recv(addr, timeout, ps.qos2_recv, now);
            &&& over(step.actions, Channel::Router).len() == 0
            &&& over(step.actions, Channel::Keeper).len() == 0
            &&& over(step.actions, Channel::Timers) == over(sent, Channel::Timers) + over(
                received,
                Channel::Timers,
            )
            &&& over(step.actions, Channel::Clients) == seq![
                to_client(addr, PacketModel::Connack(false, 0)),
            ] + ((session_spec::redeliver_qos1(addr, ps.qos1_send) + over(sent, Channel::Clients))
                + over(received, Channel::Clients))
        }),
{
    let step = session_spec::on_packet(w, PacketModel::Connect(c), now);
    let addr = w.session.addr;
    let timeout = w.session.recv_packet_timeout;
    let connack = seq![to_client(addr, PacketModel::Connack(false, 0))];
    let first = session_spec::redeliver_qos1(addr, ps.qos1_send);
    let sent = session_spec::redeliver_qos2_send(addr, timeout, ps.qos2_send, now);
    let received = session_spec::redeliver_qos2_recv(addr, timeout, ps.qos2_recv, now);
    lemma_let_in(w, c, ps, now);
    lemma_taken_up_sent(addr, timeout, ps.qos2_send, now);
    lemma_taken_up_received(addr, timeout, ps.qos2_recv, now);
    assert forall|i: int| 0 <= i < first.len() implies channel_of(#[trigger] first[i])
        == Channel::Clients by {}
    lemma_over_four(connack, first, sent, received, Channel::Clients);
    lemma_over_one(connack, Channel::Clients, Channel::Clients);
    lemma_over_one(first, Channel::Clients, Channel::Clients);
    lemma_over_four(connack, first, sent, received, Channel::Router);
    lemma_over_one(connack, Channel::Clients, Channel::Router);
    lemma_over_one(first, Channel::Clients, Channel::Router);
    lemma_over_four(connack, first, sent, received, Channel::Keeper);
    lemma_over_one(connack, Channel::Clients, Channel::Keeper);
    lemma_over_one(first, Channel::Clients, Channel::Keeper);
    lemma_over_four(connack, first, sent, received, Channel::Timers);
    lemma_over_one(connack, Channel::Clients, Channel::Timers);
    lemma_over_one(first, Channel::Clients, Channel::Timers);
    assert(over(step.actions, Channel::Timers) =~= over(sent, Channel::Timers) + over(
        received,
        Channel::Timers,
    ));
}

/// Law: a client that asks for a clean session, or of which nothing is kept, gets CONNACK alone and
/// has nothing in flight.
pub proof fn law_nothing_is_taken_up(w: WorldModel, c: ConnectModel, now: u64)
    requires
        !w.session.connected,
        c.protocol_name == "MQTT"@,
        c.clean_session || !w.persistents.contains_key(named_by(c)),
    ensures
        ({
            let step = session_spec::on_packet(w, PacketModel::Connect(c), now);
            let ps = step.world.session.persistent->0;
            &&& step.actions == seq![to_client(w.session.addr, PacketModel::Connack(false, 0))]
            &&& ps.user_id == UserId(0)
            &&& ps.client_identifier == c.client_identifier
            &&& ps.pkid == 0
            &&& ps.qos1_send.len() == 0
            &&& ps.qos2_send.len() == 0
            &&& ps.qos2_recv.len() == 0
        }),
{
    reveal(session_spec::on_packet);
    reveal(Seq::filter);
    let step = session_spec::on_packet(w, PacketModel::Connect(c), now);
    let fresh = session_spec::fresh_persistent(UserId(0), c.client_identifier);
    assert(session_spec::redeliver_qos1(w.session.addr, fresh.qos1_send) =~= Seq::empty());
    assert(step.actions =~= seq![to_client(w.session.addr, PacketModel::Connack(false, 0))]);
}

/// Of the messages that are not released, each is found as before; the others are not.
pub proof fn lemma_unreleased(w: Seq<(u16, Handshake)>, k: u16)
    requires
        window::distinct(w),
    ensures
        window::distinct(session_spec::unreleased(w)),
        forall|i: int|
            0 <= i < session_spec::unreleased(w).len() ==> w.contains(
                #[trigger] session_spec::unreleased(w)[i],
            ) && !(session_spec::unreleased(w)[i].1).2,
        window::get(session_spec::unreleased(w), k) == (match window::get(w, k) {
            Some(e) => if e.2 {
                None
            } else {
                Some(e)
            },
            None => None,
        }),
    decreases w.len(),
{
    reveal(Seq::filter);
    let kept = session_spec::unreleased(w);
    if w.len() > 0 {
        let before = w.drop_last();
        let last = w.last();
        lemma_unreleased(before, k);
        let kept_before = session_spec::unreleased(before);
        assert(kept == (if !(last.1).2 {
            kept_before.push(last)
        } else {
            kept_before
        }));
        assert forall|i: int| 0 <= i < kept.len() implies w.contains(#[trigger] kept[i]) && !(
        kept[i].1).2 by {
            if i < kept_before.len() {
                assert(kept[i] == kept_before[i]);
                assert(before.contains(kept_before[i]));
                let j = before.index_of(kept_before[i]);
                assert(w[j] == kept[i]);
            } else {
                assert(w[w.len() - 1] == kept[i]);
            }
        }
        assert forall|i: int, j: int|
            0 <= i < kept.len() && 0 <= j < kept.len() && i != j implies (#[trigger] kept[i]).0 != (
        #[trigger] kept[j]).0 by {
            if i < kept_before.len() && j < kept_before.len() {
                assert(kept_before[i].0 != kept_before[j].0);
            } else {
                let l = if i < kept_before.len() {
                    i
                } else {
                    j
                };
                let m = before.index_of(kept_before[l]);
                assert(before.contains(kept_before[l]));
                assert(w[m].0 != w[w.len() - 1].0);
            }
        }
        if window::holds(w, k) {
            let i = window::place(w, k);
            if i == w.len() - 1 {
                if window::holds(before, k) {
                    let j = window::place(before, k);
                    assert(w[j].0 != w[i].0);
                }
                if !(last.1).2 {
                    assert(kept[kept.len() - 1].0 == k);
                    assert(window::holds(kept, k));
                } else if window::holds(kept, k) {
                    assert(window::holds(kept_before, k));
                }
            } else {
                assert(before[i].0 == k);
                assert(window::holds(before, k));
                assert(window::place(before, k) == i);
                assert(window::get(before, k) == window::get(w, k));
                if window::holds(kept_before, k) {
                    let j = window::place(kept_before, k);
                    assert(kept[j].0 == k);
                    assert(window::holds(kept, k));
                    assert(window::place(kept, k) == j);
                }
                if window::holds(kept, k) {
                    let j = window::place(kept, k);
                    assert(w[w.len() - 1].0 != w[i].0);
                    assert(j < kept_before.len());
                    assert(kept_before[j].0 == k);
                }
            }
        } else {
            if window::holds(before, k) {
                let j = window::place(before, k);
                assert(w[j].0 == k);
            }
            if window::holds(kept, k) {
                let j = window::place(kept, k);
                assert(w.contains(kept[j]));
                let i = w.index_of(kept[j]);
                assert(w[i].0 == k);
            }
        }
    }
}

/// Law: a client that comes back without a clean session gets, behind CONNACK, one packet for each
/// message in flight and nothing else. Of a message that was sent to it: at level one the message; at
/// level two the message until PUBREC has come for it, PUBREL from then on. Of one that was received
/// from it at level two: PUBREC until it was released, PUBCOMP from then on.
pub proof fn law_flights_are_taken_up(
    w: WorldModel,
    c: ConnectModel,
    ps: PersistentModel,
    now: u64,
)
    requires
        !w.session.connected,
        c.protocol_name == "MQTT"@,
        !c.clean_session,
        w.persistents.contains_pair(named_by(c), ps),
    ensures
        ({
            let step = session_spec::on_packet(w, PacketModel::Connect(c), now);
            let addr = w.session.addr;
            let out = over(step.actions, Channel::Clients);
            let a = 1 + ps.qos1_send.len();
            let b = a + ps.qos2_send.len();
            &&& out.len() == b + ps.qos2_recv.len()
            &&& out[0] == to_client(addr, PacketModel::Connack(false, 0))
            &&& forall|i: int|
                0 <= i < ps.qos1_send.len() ==> out[1 + i] == to_client(
                    addr,
                    PacketModel::Publish((#[trigger] ps.qos1_send[i]).1),
                )
            &&& forall|i: int|
                0 <= i < ps.qos2_send.len() ==> out[a + i] == to_client(
                    addr,
                    if ((#[trigger] ps.qos2_send[i]).1).1 {
                        PacketModel::Pubrel(ps.qos2_send[i].0)
                    } else {
                        PacketModel::Publish((ps.qos2_send[i].1).0)
                    },
                )
            &&& forall|i: int|
                0 <= i < ps.qos2_recv.len() ==> out[b + i] == to_client(
                    addr,
                    if ((#[trigger] ps.qos2_recv[i]).1).2 {
                        PacketModel::Pubcomp(ps.qos2_recv[i].0)
                    } else {
                        PacketModel::Pubrec(ps.qos2_recv[i].0)
                    },
                )
        }),
{
    lemma_taken_up(w, c, ps, now);
    let addr = w.session.addr;
    let timeout = w.session.recv_packet_timeout;
    lemma_taken_up_sent(addr, timeout, ps.qos2_send, now);
    lemma_taken_up_received(addr, timeout, ps.qos2_recv, now);
}

/// Law: when a client comes back, what it owes is awaited again: PUBCOMP for each message that PUBREC
/// has come for, PUBREL for each that is not released. What was sent to it is in flight as before, and
/// of what was received from it that which is not released.
pub proof fn law_flights_go_on(
    w: WorldModel,
    c: ConnectModel,
    ps: PersistentModel,
    now: u64,
)
    requires
        !w.session.connected,
        c.protocol_name == "MQTT"@,
        !c.clean_session,
        w.persistents.contains_pair(named_by(c), ps),
        window::distinct(ps.qos2_recv),
    ensures
        ({
            let step = session_spec::on_packet(w, PacketModel::Connect(c), now);
            let addr = w.session.addr;
            let timeout = w.session.recv_packet_timeout;
            let timers = over(step.actions, Channel::Timers);
            let after = step.world.session.persistent->0;
            &&& after.user_id == ps.user_id
            &&& after.client_identifier == ps.client_identifier
            &&& after.pkid == ps.pkid
            &&& after.qos1_send == ps.qos1_send
            &&& after.qos2_send == ps.qos2_send
            &&& forall|k: u16| #[trigger]
                window::get(after.qos2_recv, k) == (match window::get(ps.qos2_recv, k) {
                    Some(e) => if e.2 {
                        None
                    } else {
                        Some(e)
                    },
                    None => None,
                })
            &&& forall|i: int|
                0 <= i < ps.qos2_send.len() && ((#[trigger] ps.qos2_send[i]).1).1
                    ==> timers.contains(
                    awaits(
                        now,
                        timeout,
                        SessionTimerPacketType::RecvPubcompTimeout,
                        addr,
                        ps.qos2_send[i].0,
                    ),
                )
            &&& forall|i: int|
                0 <= i < ps.qos2_recv.len() && !((#[trigger] ps.qos2_recv[i]).1).2
                    ==> timers.contains(
                    awaits(
                        now,
                        timeout,
                        SessionTimerPacketType::RecvPubrelTimeout,
                        addr,
                        ps.qos2_recv[i].0,
                    ),
                )
        }),
{
    reveal(session_spec::on_packet);
    lemma_taken_up(w, c, ps, now);
    let step = session_spec::on_packet(w, PacketModel::Connect(c), now);
    let addr = w.session.addr;
    let timeout = w.session.recv_packet_timeout;
    lemma_taken_up_sent(addr, timeout, ps.qos2_send, now);
    lemma_taken_up_received(addr, timeout, ps.qos2_recv, now);
    let timers = over(step.actions, Channel::Timers);
    let first = over(
        session_spec::redeliver_qos2_send(addr, timeout, ps.qos2_send, now),
        Channel::Timers,
    );
    let second = over(
        session_spec::redeliver_qos2_recv(addr, timeout, ps.qos2_recv, now),
        Channel::Timers,
    );
    assert forall|k: u16| #[trigger]
        window::get(session_spec::unreleased(ps.qos2_recv), k) == (match window::get(
            ps.qos2_recv,
            k,
        ) {
            Some(e) => if e.2 {
                None
            } else {
                Some(e)
            },
            None => None,
        }) by {
        lemma_unreleased(ps.qos2_recv, k);
    }
    assert forall|i: int|
        0 <= i < ps.qos2_send.len() && ((#[trigger] ps.qos2_send[i]).1).1 implies timers.contains(
        awaits(
            now,
            timeout,
            SessionTimerPacketType::RecvPubcompTimeout,
            addr,
            ps.qos2_send[i].0,
        ),
    ) by {
        let timer = awaits(
            now,
            timeout,
            SessionTimerPacketType::RecvPubcompTimeout,
            addr,
            ps.qos2_send[i].0,
        );
        assert(first.contains(timer));
        assert(timers[first.index_of(timer)] == timer);
    }
    assert forall|i: int|
        0 <= i < ps.qos2_recv.len() && !((#[trigger] ps.qos2_recv[i]).1).2 implies timers.contains(
        awaits(now, timeout, SessionTimerPacketType::RecvPubrelTimeout, addr, ps.qos2_recv[i].0),
    ) by {
        let timer = awaits(
            now,
            timeout,
            SessionTimerPacketType::RecvPubrelTimeout,
            addr,
            ps.qos2_recv[i].0,
        );
        assert(second.contains(timer));
        assert(timers[first.len() + second.index_of(timer)] == timer);
    }
}

/// What stands in a window is found under its identifier.
proof fn lemma_found_at<T>(w: Seq<(u16, T)>, i: int)
    requires
        window::distinct(w),
        0 <= i < w.len(),
    ensures
        window::get(w, w[i].0) == Some(w[i].1),
{
    assert(window::holds(w, w[i].0));
}

/// Law: a client that comes back gets each message that was sent to it at level two, under its own
/// identifier and without PUBREL, as long as PUBREC has not come for it; and from then on PUBREL for
/// the identifier, without the message.
pub proof fn law_message_is_published_or_released(
    w: WorldModel,
    c: ConnectModel,
    ps: PersistentModel,
    i: int,
    now: u64,
)
    requires
        !w.session.connected,
        c.protocol_name == "MQTT"@,
        !c.clean_session,
        w.persistents.contains_pair(named_by(c), ps),
        session_laws::sound(ps),
        0 <= i < ps.qos2_send.len(),
        forall|j: int|
            0 <= j < ps.qos2_send.len() ==> wire_laws::writable(
                PacketModel::Publish(((#[trigger] ps.qos2_send[j]).1).0),
            ),
    ensures
        ({
            let actions = session_spec::on_packet(w, PacketModel::Connect(c), now).actions;
            let addr = w.session.addr;
            let (k, (p, pubrec, _)) = ps.qos2_send[i];
            let message = to_client(addr, PacketModel::Publish(p));
            let release = to_client(addr, PacketModel::Pubrel(k));
            &&& p.qos == QoSWithPacketIdentifier::Level2(k)
            &&& !pubrec ==> actions.contains(message) && !actions.contains(release)
            &&& pubrec ==> actions.contains(release) && !actions.contains(message)
        }),
{
    let actions = session_spec::on_packet(w, PacketModel::Connect(c), now).actions;
    let addr = w.session.addr;
    let out = over(actions, Channel::Clients);
    let a = 1 + ps.qos1_send.len() as int;
    let b = a + ps.qos2_send.len();
    let (k, (p, pubrec, _)) = ps.qos2_send[i];
    law_flights_are_taken_up(w, c, ps, now);
    lemma_found_at(ps.qos2_send, i);
    assert(window::get(ps.qos2_send, k) is Some);
    assert forall|x: SessionActionModel| x is Connection implies #[trigger] actions.contains(x)
        == out.contains(x) by {
        lemma_contains(actions, x);
    }
    assert(out[a + i] == to_client(addr, owed_to(ps.qos2_send[i])));
    let message = PacketModel::Publish(p);
    let release = PacketModel::Pubrel(k);
    let never = if pubrec {
        message
    } else {
        release
    };
    assert forall|n: int| 0 <= n < out.len() implies #[trigger] out[n] != to_client(addr, never) by {
        if n == 0 {
            wire_laws::law_different_packets_differ(PacketModel::Connack(false, 0), never);
        } else if n < a {
            let m = ps.qos1_send[n - 1].1;
            lemma_found_at(ps.qos1_send, n - 1);
            assert(window::get(ps.qos1_send, ps.qos1_send[n - 1].0) is Some);
            wire_laws::lemma_first_bytes_differ(PacketModel::Publish(m), never);
        } else if n < b {
            let j = n - a;
            let e = ps.qos2_send[j];
            lemma_found_at(ps.qos2_send, j);
            assert(window::get(ps.qos2_send, e.0) is Some);
            assert(out[a + j] == to_client(addr, owed_to(e)));
            assert(j != i ==> e.0 != k);
            wire_laws::law_different_packets_differ(owed_to(e), never);
        } else {
            let e = ps.qos2_recv[n - b];
            assert(out[b + (n - b)] == to_client(addr, owed_for(e)));
            wire_laws::law_different_packets_differ(owed_for(e), never);
        }
    }
}

/// What is sent to clients is among the actions, and the other way round.
pub proof fn lemma_contains(actions: Seq<SessionActionModel>, x: SessionActionModel)
    ensures
        over(actions, channel_of(x)).contains(x) <==> actions.contains(x),
    decreases actions.len(),
{
    let channel = channel_of(x);
    let out = over(actions, channel);
    if actions.len() == 0 {
        lemma_over_nothing(channel);
        assert(actions =~= Seq::empty());
    } else {
        let before = actions.drop_last();
        let last = actions.last();
        let out_before = over(before, channel);
        lemma_contains(before, x);
        lemma_over_push(before, last, channel);
        assert(actions =~= before.push(last));
        if before.contains(x) {
            assert(actions[before.index_of(x)] == x);
            assert(out[out_before.index_of(x)] == x);
        }
        if last == x {
            assert(actions[actions.len() - 1] == x);
            assert(out[out.len() - 1] == x);
        }
        if out.contains(x) {
            let n = out.index_of(x);
            if n < out_before.len() {
                assert(out_before[n] == x);
            }
        }
        if actions.contains(x) {
            let n = actions.index_of(x);
            if n < before.len() {
                assert(before[n] == x);
            }
        }
    }
}

} // verus!
