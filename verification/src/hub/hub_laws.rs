//! What holds of the messages that the hub sends to its clients and of those that they leave behind.
use vstd::prelude::*;

use crate::common::{SocketAddr, UserId};
use crate::hub;
use crate::hub::client_session_spec;
use crate::hub::client_session_spec::HubModel;
use crate::hub::exchange_laws;
use crate::hub::exchange_laws::{
    awaits, changed_at, closes, is_kept_as_asked, lemma_over_add, lemma_over_nothing, lemma_over_push,
    over, to_client, Channel,
};
use crate::hub::session_laws;
use crate::hub::session_spec;
use crate::hub::session_spec::{
    Handshake, PersistentModel, SessionFault, SessionModel, SessionStep, WorldModel,
};
use crate::hub::{
    ClientConnectionMsgModel, ClientSessionMsgModel, LocalRouterMsgModel, SessionActionModel,
    SessionTimerAction, SessionTimerPacketType, SessionTimerPayload,
};
use crate::qos::{QoSWithPacketIdentifier, QualityOfService};
use crate::window;
use crate::wire;
use crate::wire::{ConnectModel, PacketModel, PublishModel, SubscribeModel, UnsubscribeModel};
use crate::wire_laws;

verus! {

/// The client is to be heard of within so many seconds.
pub open spec fn lives(now: u64, secs: u64, addr: SocketAddr) -> SessionActionModel {
    SessionActionModel::Timer(
        SessionTimerAction::SetAt((now + secs * 1_000_000_000) as u64),
        SessionTimerPayload::KeepAliveTimer(addr),
    )
}

/// The session that a client's bytes come to: its own, or a new one, which is not connected and
/// waits twenty seconds for a packet and thirty for a sign of life.
pub open spec fn is_session_of(h: HubModel, addr: SocketAddr, w: WorldModel) -> bool {
    &&& w.addrs == h.addrs
    &&& w.persistents == h.persistents
    &&& if h.sessions.contains_key(addr) {
        w.session == h.sessions[addr].session
    } else {
        &&& w.session.addr == addr
        &&& w.session.recv_packet_timeout == 20
        &&& w.session.keep_alive_timeout == 30
        &&& !w.session.connected
        &&& w.session.connect_packet is None
        &&& w.session.persistent is None
    }
}

/// Law: the bytes of a packet, from a client whose earlier packets have all come whole, do what the
/// packet does, whoever the client is; and the client then has its time again.
pub proof fn law_packet_comes_to_the_session(
    h: HubModel,
    addr: SocketAddr,
    w: WorldModel,
    p: PacketModel,
    now: u64,
)
    requires
        wire_laws::writable(p),
        is_session_of(h, addr, w),
        w.session.addr == addr,
        h.sessions.contains_key(addr) ==> h.sessions[addr].bytes.len() == 0
            && h.sessions[addr].header is None,
    ensures
        ({
            let step = session_spec::on_packet(w, p, now);
            let r = client_session_spec::on_msg(
                h,
                ClientSessionMsgModel::Data(addr, wire::packet_bytes(p)),
                now,
            );
            let after = r.hub.sessions[addr];
            &&& r.fault == step.fault
            &&& step.fault is None ==> {
                &&& over(r.actions, Channel::Clients) == over(step.actions, Channel::Clients)
                &&& over(r.actions, Channel::Router) == over(step.actions, Channel::Router)
                &&& over(r.actions, Channel::Keeper) == over(step.actions, Channel::Keeper)
                &&& over(r.actions, Channel::Timers) == (if h.sessions.contains_key(addr) {
                    Seq::empty()
                } else {
                    seq![lives(now, 30, addr)]
                }) + over(step.actions, Channel::Timers) + seq![
                    lives(now, step.world.session.keep_alive_timeout, addr),
                ]
                &&& r.hub.addrs == step.world.addrs
                &&& r.hub.persistents == step.world.persistents
                &&& r.hub.sessions.dom() == h.sessions.dom().insert(addr)
                &&& after.session == step.world.session
                &&& after.bytes.len() == 0
                &&& after.header is None
            }
        }),
{
    let bytes = wire::packet_bytes(p);
    let none = Seq::<u8>::empty();
    let conn = session_laws::connection(h, addr);
    assert(conn.session == w.session);
    assert(session_laws::world_at(h, addr) == w);
    assert(conn.bytes + bytes =~= bytes + none);
    wire_laws::law_written_packet_is_read_back(p, none);
    let f = wire::frames(bytes + none, None);
    let rest = wire::frames(none, None);
    assert(rest.packets =~= Seq::empty() && rest.rest =~= none && rest.header is None && rest.end
        is NeedMore) by {
        reveal_with_fuel(wire::frames, 2);
    }
    session_spec::lemma_on_packet_frame(w, p, now);
    let step = session_spec::on_packet(w, p, now);
    reveal_with_fuel(session_spec::on_packets, 2);
    assert(f.packets.drop_first() =~= Seq::empty());
    assert(step.actions + Seq::empty() =~= step.actions);
    let r = client_session_spec::on_data(h, addr, bytes, now);
    if step.fault is None {
        let last = lives(now, step.world.session.keep_alive_timeout, addr);
        let opening = if h.sessions.contains_key(addr) {
            Seq::<SessionActionModel>::empty()
        } else {
            seq![lives(now, 30, addr)]
        };
        assert(r.actions == opening + step.actions.push(last));
        assert forall|channel: Channel| #[trigger] over(r.actions, channel) == over(opening, channel)
            + over(step.actions.push(last), channel) by {
            lemma_over_add(opening, step.actions.push(last), channel);
        }
        lemma_packet_channels(opening, step.actions, last);
        assert(r.hub.sessions.dom() =~= h.sessions.dom().insert(addr));
    }
}

/// What goes over each channel where only timers stand before and behind.
proof fn lemma_packet_channels(
    opening: Seq<SessionActionModel>,
    actions: Seq<SessionActionModel>,
    last: SessionActionModel,
)
    requires
        opening.len() == 0 || opening == seq![opening[0]] && opening[0] is Timer,
        last is Timer,
    ensures
        over(opening, Channel::Clients) + over(actions.push(last), Channel::Clients) == over(
            actions,
            Channel::Clients,
        ),
        over(opening, Channel::Router) + over(actions.push(last), Channel::Router) == over(
            actions,
            Channel::Router,
        ),
        over(opening, Channel::Keeper) + over(actions.push(last), Channel::Keeper) == over(
            actions,
            Channel::Keeper,
        ),
        over(opening, Channel::Timers) + over(actions.push(last), Channel::Timers) == opening + over(
            actions,
            Channel::Timers,
        ) + seq![last],
{
    broadcast use {lemma_over_nothing, lemma_over_push};

    if opening.len() == 0 {
        assert(opening =~= Seq::empty());
    }
    assert(over(opening, Channel::Clients) + over(actions.push(last), Channel::Clients) =~= over(
        actions,
        Channel::Clients,
    ));
    assert(over(opening, Channel::Router) + over(actions.push(last), Channel::Router) =~= over(
        actions,
        Channel::Router,
    ));
    assert(over(opening, Channel::Keeper) + over(actions.push(last), Channel::Keeper) =~= over(
        actions,
        Channel::Keeper,
    ));
    assert(over(opening, Channel::Timers) + over(actions.push(last), Channel::Timers) =~= opening
        + over(actions, Channel::Timers) + seq![last]);
}

/// `m` is the last will in a CONNECT packet, at the level and with the flag that the packet gives.
pub open spec fn is_will_of(m: PublishModel, c: ConnectModel) -> bool {
    &&& c.will == Some((m.topic, m.payload))
    &&& m.retain == c.will_retain
    &&& !m.dup
    &&& match m.qos {
        QoSWithPacketIdentifier::Level0 => c.will_qos == 0,
        QoSWithPacketIdentifier::Level1(_) => c.will_qos == 1,
        QoSWithPacketIdentifier::Level2(_) => c.will_qos == 2,
    }
}

/// Law: a client that goes leaves its last will, if it has one: the message is forwarded once, with
/// the topic, the payload, the level and the flag that the client gave when it connected, and is
/// retained as that flag asks. A client without one leaves no message.
pub proof fn law_will_is_as_the_client_set_it_up(
    h: HubModel,
    addr: SocketAddr,
    c: ConnectModel,
    ps: PersistentModel,
    reason: Seq<char>,
    now: u64,
)
    requires
        h.sessions.contains_key(addr),
        h.sessions[addr].session.connect_packet == Some(c),
        h.sessions[addr].session.persistent == Some(ps),
    ensures
        ({
            let step = client_session_spec::on_msg(
                h,
                ClientSessionMsgModel::ClientDisconnect(addr, reason),
                now,
            );
            let told = over(step.actions, Channel::Router);
            let kept = over(step.actions, Channel::Keeper);
            let left = if c.clean_session {
                1int
            } else {
                0
            };
            &&& c.clean_session ==> told.len() > 0 && told[0] == SessionActionModel::Router(
                LocalRouterMsgModel::ClientDisconnect(ps.user_id, ps.client_identifier),
            )
            &&& c.will is None ==> step.fault is None && told.len() == left && kept.len() == 0
            &&& c.will is Some && c.will_qos > 2 ==> step.fault == Some(
                SessionFault::InvalidWillQos,
            )
            &&& c.will is Some && c.will_qos <= 2 ==> {
                &&& step.fault is None
                &&& told.len() == left + 1
                &&& exists|m: PublishModel|
                    {
                        &&& #[trigger] is_will_of(m, c)
                        &&& told[left] == SessionActionModel::Router(
                            LocalRouterMsgModel::ForwardPublish(ps.user_id, m),
                        )
                        &&& is_kept_as_asked(kept, ps.user_id, m)
                    }
            }
        }),
{
    broadcast use {lemma_over_nothing, lemma_over_push, lemma_over_add};

    if let Some((topic, payload)) = c.will {
        if c.will_qos <= 2 {
            let m = client_session_spec::will_message(c)->0;
            assert(is_will_of(m, c));
        }
    }
}

/// Law: a client that goes has its connection closed for the reason given, and its session ends. Its
/// messages in flight are kept for it iff it did not ask for a clean session. Nobody else's are
/// touched.
pub proof fn law_client_that_goes_is_forgotten(
    h: HubModel,
    addr: SocketAddr,
    c: ConnectModel,
    ps: PersistentModel,
    reason: Seq<char>,
    now: u64,
)
    requires
        h.sessions.contains_key(addr),
        h.sessions[addr].session.connect_packet == Some(c),
        h.sessions[addr].session.persistent == Some(ps),
    ensures
        ({
            let step = client_session_spec::on_msg(
                h,
                ClientSessionMsgModel::ClientDisconnect(addr, reason),
                now,
            );
            let key = (ps.user_id, ps.client_identifier);
            &&& over(step.actions, Channel::Clients) == seq![closes(addr, reason)]
            &&& over(step.actions, Channel::Timers).len() == 0
            &&& !step.hub.sessions.contains_key(addr)
            &&& !step.hub.addrs.contains_key(key)
            &&& !c.clean_session ==> step.hub.persistents.contains_pair(key, ps)
            &&& c.clean_session ==> step.hub.persistents == h.persistents
            &&& forall|k: (UserId, Seq<char>)|
                k != key ==> {
                    &&& #[trigger] step.hub.addrs.contains_key(k) == h.addrs.contains_key(k)
                    &&& h.addrs.contains_key(k) ==> step.hub.addrs[k] == h.addrs[k]
                }
            &&& forall|k: (UserId, Seq<char>)|
                k != key ==> {
                    &&& #[trigger] step.hub.persistents.contains_key(k)
                        == h.persistents.contains_key(k)
                    &&& h.persistents.contains_key(k) ==> step.hub.persistents[k]
                        == h.persistents[k]
                }
        }),
{
    broadcast use {lemma_over_nothing, lemma_over_push, lemma_over_add};

    let step = client_session_spec::on_msg(
        h,
        ClientSessionMsgModel::ClientDisconnect(addr, reason),
        now,
    );
    assert(over(step.actions, Channel::Clients) =~= seq![closes(addr, reason)]);
}

/// Law: one that goes before it has connected leaves nothing, and one that is not known changes
/// nothing.
pub proof fn law_stranger_that_goes(h: HubModel, addr: SocketAddr, reason: Seq<char>, now: u64)
    requires
        client_session_spec::hub_wf(h),
        h.sessions.contains_key(addr) ==> !h.sessions[addr].session.connected,
    ensures
        ({
            let step = client_session_spec::on_msg(
                h,
                ClientSessionMsgModel::ClientDisconnect(addr, reason),
                now,
            );
            &&& step.fault is None
            &&& step.hub.addrs == h.addrs
            &&& step.hub.persistents == h.persistents
            &&& !step.hub.sessions.contains_key(addr)
            &&& step.actions == (if h.sessions.contains_key(addr) {
                seq![closes(addr, reason)]
            } else {
                Seq::empty()
            })
        }),
{
}

/// The number of a level.
pub open spec fn level_number(q: QualityOfService) -> int {
    match q {
        QualityOfService::Level0 => 0,
        QualityOfService::Level1 => 1,
        QualityOfService::Level2 => 2,
    }
}

/// The number of the level that a message is at.
pub open spec fn level_of(p: PublishModel) -> int {
    match p.qos {
        QoSWithPacketIdentifier::Level0 => 0,
        QoSWithPacketIdentifier::Level1(_) => 1,
        QoSWithPacketIdentifier::Level2(_) => 2,
    }
}

/// The identifier of a message, where it has one.
pub open spec fn pkid_of(p: PublishModel) -> Option<u16> {
    match p.qos {
        QoSWithPacketIdentifier::Level0 => None,
        QoSWithPacketIdentifier::Level1(k) => Some(k),
        QoSWithPacketIdentifier::Level2(k) => Some(k),
    }
}

/// The lower of two numbers.
pub open spec fn lesser(a: int, b: int) -> int {
    if a <= b {
        a
    } else {
        b
    }
}

/// `m` is `p` at the lower of its own level and a subscription's, and no repetition.
pub open spec fn is_copy_for(m: PublishModel, p: PublishModel, q: QualityOfService) -> bool {
    &&& m.topic == p.topic
    &&& m.payload == p.payload
    &&& level_of(m) == lesser(level_of(p), level_number(q))
    &&& !m.dup
}

/// Nothing is in flight under the identifier.
pub open spec fn is_free(ps: PersistentModel, k: u16) -> bool {
    &&& k >= 1
    &&& window::get(ps.qos1_send, k) is None
    &&& window::get(ps.qos2_send, k) is None
    &&& window::get(ps.qos2_recv, k) is None
}

/// `after` is `before` with the message in flight to the client, as its level asks.
pub open spec fn in_flight(
    before: PersistentModel,
    after: PersistentModel,
    m: PublishModel,
) -> bool {
    &&& after.user_id == before.user_id
    &&& after.client_identifier == before.client_identifier
    &&& after.qos2_recv == before.qos2_recv
    &&& match m.qos {
        QoSWithPacketIdentifier::Level0 => after.qos1_send == before.qos1_send && after.qos2_send
            == before.qos2_send,
        QoSWithPacketIdentifier::Level1(k) => after.qos2_send == before.qos2_send && changed_at(
            before.qos1_send,
            after.qos1_send,
            k,
            Some(m),
        ),
        QoSWithPacketIdentifier::Level2(k) => after.qos1_send == before.qos1_send && changed_at(
            before.qos2_send,
            after.qos2_send,
            k,
            Some((m, false, false)),
        ),
    }
}

/// What is awaited for a message that was sent to a client: PUBACK at level one, PUBREC at level two.
pub open spec fn answer_to(
    m: PublishModel,
    now: u64,
    secs: u64,
    addr: SocketAddr,
) -> Seq<SessionActionModel> {
    match m.qos {
        QoSWithPacketIdentifier::Level0 => Seq::empty(),
        QoSWithPacketIdentifier::Level1(k) => seq![
            awaits(now, secs, SessionTimerPacketType::RecvPubackTimeout, addr, k),
        ],
        QoSWithPacketIdentifier::Level2(k) => seq![
            awaits(now, secs, SessionTimerPacketType::RecvPubrecTimeout, addr, k),
        ],
    }
}

/// Law: the identifier that is given out is the first free one after the last, round from 65535 to
/// one; none is given out iff none is free.
pub proof fn law_identifiers_are_given_out_in_turn(ps: PersistentModel)
    ensures
        match session_spec::next_pkid(ps) {
            Some(k) => is_free(ps, k) && exists|n: int|
                {
                    &&& 1 <= n <= 65535
                    &&& k == #[trigger] turn(ps.pkid, n)
                    &&& forall|i: int| 1 <= i < n ==> !is_free(ps, #[trigger] turn(ps.pkid, i))
                },
            None => forall|k: u16| !#[trigger] is_free(ps, k),
        },
{
    session_laws::law_next_identifier_is_free(ps);
    lemma_turns(ps, 1);
    match session_spec::next_pkid(ps) {
        Some(k) => {
            let n = choose|n: int|
                {
                    &&& 1 <= n <= 65535
                    &&& k == #[trigger] turn(ps.pkid, n)
                    &&& forall|i: int| 1 <= i < n ==> !is_free(ps, #[trigger] turn(ps.pkid, i))
                };
            assert(turn(ps.pkid, n) == k);
        },
        None => {
            assert forall|k: u16| !#[trigger] is_free(ps, k) by {
                if k >= 1 {
                    assert(session_spec::pkid_used(ps, k));
                }
            }
        },
    }
}

/// The `n`-th number after `last` in the round 1, 2, ..., 65535, 1, ...
pub open spec fn turn(last: u16, n: int) -> u16 {
    ((last + n - 1) % 65535 + 1) as u16
}

proof fn lemma_turns(ps: PersistentModel, from: int)
    requires
        1 <= from <= 65536,
    ensures
        session_spec::free_pkid_from(ps, from) matches Some(k) ==> exists|n: int|
            {
                &&& from <= n <= 65535
                &&& k == #[trigger] turn(ps.pkid, n)
                &&& forall|i: int| from <= i < n ==> !is_free(ps, #[trigger] turn(ps.pkid, i))
            },
    decreases 65536 - from,
{
    if from <= 65535 {
        let k = session_spec::nth_pkid(ps.pkid, from);
        assert(turn(ps.pkid, from) == k);
        if session_spec::pkid_used(ps, k) {
            lemma_turns(ps, from + 1);
            if let Some(found) = session_spec::free_pkid_from(ps, from + 1) {
                let n = choose|n: int|
                    {
                        &&& from + 1 <= n <= 65535
                        &&& found == #[trigger] turn(ps.pkid, n)
                        &&& forall|i: int|
                            from + 1 <= i < n ==> !is_free(ps, #[trigger] turn(ps.pkid, i))
                    };
                assert(forall|i: int| from <= i < n ==> !is_free(ps, #[trigger] turn(ps.pkid, i)));
            }
        }
    }
}

/// A message that goes out at a level is sent, is in flight from then on, and its answer awaited.
proof fn lemma_delivered(
    s: SessionModel,
    ps: PersistentModel,
    p: PublishModel,
    q: QualityOfService,
    now: u64,
)
    requires
        s.persistent == Some(ps),
        window::distinct(ps.qos1_send),
        window::distinct(ps.qos2_send),
        session_spec::next_pkid(ps) is Some,
    ensures
        ({
            let k = session_spec::next_pkid(ps)->0;
            let step = client_session_spec::deliver(s, p, q, now);
            let m = PublishModel { qos: q.with(k), ..p };
            let after = step.session.persistent->0;
            &&& step.fault is None
            &&& is_free(ps, k)
            &&& step.session == (SessionModel { persistent: Some(after), ..s })
            &&& after.pkid == k
            &&& in_flight(ps, after, m)
            &&& level_of(m) == level_number(q)
            &&& pkid_of(m) matches Some(id) ==> id == k
            &&& step.actions == seq![to_client(s.addr, PacketModel::Publish(m))] + answer_to(
                m,
                now,
                s.recv_packet_timeout,
                s.addr,
            )
            &&& window::distinct(after.qos1_send)
            &&& window::distinct(after.qos2_send)
        }),
{
    let k = session_spec::next_pkid(ps)->0;
    let m = PublishModel { qos: q.with(k), ..p };
    law_identifiers_are_given_out_in_turn(ps);
    window::lemma_put(ps.qos1_send, k, m);
    window::lemma_put(ps.qos2_send, k, (m, false, false));
    let step = client_session_spec::deliver(s, p, q, now);
    assert(step.actions =~= seq![to_client(s.addr, PacketModel::Publish(m))] + answer_to(
        m,
        now,
        s.recv_packet_timeout,
        s.addr,
    ));
}

/// Law: a message for a subscribed client is sent to it, and to it alone: topic and payload as they
/// are, at the lower of the message's level and the subscription's, neither retained nor a repetition.
/// Above level zero it goes under an identifier that was free, stays in flight, and its answer is
/// awaited; it fails only where no identifier is free. A client that is not connected gets nothing.
pub proof fn law_message_for_a_client(
    h: HubModel,
    user_id: UserId,
    client: Seq<char>,
    q: QualityOfService,
    p: PublishModel,
    now: u64,
)
    requires
        client_session_spec::hub_wf(h),
        h.addrs.contains_key((user_id, client)) ==> {
            let ps = h.sessions[h.addrs[(user_id, client)]].session.persistent->0;
            window::distinct(ps.qos1_send) && window::distinct(ps.qos2_send)
        },
    ensures
        ({
            let step = client_session_spec::on_msg(
                h,
                ClientSessionMsgModel::Publish(user_id, client, q, p),
                now,
            );
            let addr = h.addrs[(user_id, client)];
            let s = h.sessions[addr].session;
            let ps = s.persistent->0;
            let after = step.hub.sessions[addr].session.persistent->0;
            if !h.addrs.contains_key((user_id, client)) {
                step.hub == h && step.actions.len() == 0 && step.fault is None
            } else if lesser(level_of(p), level_number(q)) > 0 && forall|k: u16|
                !#[trigger] is_free(ps, k) {
                step.fault == Some(SessionFault::NoPacketIdentifier)
            } else {
                &&& step.fault is None
                &&& step.hub.addrs == h.addrs
                &&& step.hub.persistents == h.persistents
                &&& step.hub.sessions.contains_key(addr)
                &&& exists|m: PublishModel|
                    {
                        &&& #[trigger] is_copy_for(m, p, q)
                        &&& !m.retain
                        &&& pkid_of(m) matches Some(k) ==> is_free(ps, k) && after.pkid == k
                        &&& step.actions == seq![to_client(addr, PacketModel::Publish(m))]
                            + answer_to(m, now, 20, addr)
                        &&& in_flight(ps, after, m)
                    }
            }
        }),
{
    let step = client_session_spec::on_msg(
        h,
        ClientSessionMsgModel::Publish(user_id, client, q, p),
        now,
    );
    if h.addrs.contains_key((user_id, client)) {
        let addr = h.addrs[(user_id, client)];
        let s = h.sessions[addr].session;
        let ps = s.persistent->0;
        let level = p.qos.level().lower(q);
        let plain = PublishModel { retain: false, dup: false, ..p };
        law_identifiers_are_given_out_in_turn(ps);
        if level == QualityOfService::Level0 {
            let m = PublishModel { qos: QoSWithPacketIdentifier::Level0, ..plain };
            assert(is_copy_for(m, p, q));
            assert(step.actions =~= seq![to_client(addr, PacketModel::Publish(m))] + answer_to(
                m,
                now,
                20,
                addr,
            ));
        } else if session_spec::next_pkid(ps) is Some {
            let k = session_spec::next_pkid(ps)->0;
            lemma_delivered(s, ps, plain, level, now);
            let m = PublishModel { qos: level.with(k), ..plain };
            assert(is_free(ps, k));
            assert(is_copy_for(m, p, q));
        } else {
            assert(forall|k: u16| !#[trigger] is_free(ps, k));
        }
    }
}

/// A message on its way to a client.
#[verifier::opaque]
pub open spec fn message_to(addr: SocketAddr, m: PublishModel) -> SessionActionModel {
    to_client(addr, PacketModel::Publish(m))
}

/// The messages on their way to a client.
pub open spec fn all_to_client(addr: SocketAddr, ms: Seq<PublishModel>) -> Seq<SessionActionModel> {
    ms.map_values(|m: PublishModel| message_to(addr, m))
}

/// What a message that goes out at a level puts on each channel.
proof fn lemma_delivered_over(
    s: SessionModel,
    ps: PersistentModel,
    p: PublishModel,
    q: QualityOfService,
    now: u64,
) -> (m: PublishModel)
    requires
        s.persistent == Some(ps),
        window::distinct(ps.qos1_send),
        window::distinct(ps.qos2_send),
        session_spec::next_pkid(ps) is Some,
    ensures
        ({
            let step = client_session_spec::deliver(s, p, q, now);
            let after = step.session.persistent->0;
            &&& step.fault is None
            &&& step.session == (SessionModel { persistent: Some(after), ..s })
            &&& in_flight(ps, after, m)
            &&& m.topic == p.topic
            &&& m.payload == p.payload
            &&& m.retain == p.retain
            &&& m.dup == p.dup
            &&& level_of(m) == level_number(q)
            &&& pkid_of(m) matches Some(k) ==> is_free(ps, k)
            &&& over(step.actions, Channel::Clients) == seq![message_to(s.addr, m)]
            &&& over(step.actions, Channel::Router).len() == 0
            &&& over(step.actions, Channel::Keeper).len() == 0
            &&& over(step.actions, Channel::Timers) == answer_to(
                m,
                now,
                s.recv_packet_timeout,
                s.addr,
            )
            &&& window::distinct(after.qos1_send)
            &&& window::distinct(after.qos2_send)
        }),
{
    let m = PublishModel { qos: q.with(session_spec::next_pkid(ps)->0), ..p };
    lemma_delivered(s, ps, p, q, now);
    lemma_over_message(s.addr, m, now, s.recv_packet_timeout);
    reveal(message_to);
    m
}

/// The message stands in the window of its level.
pub open spec fn flies(ps: PersistentModel, m: PublishModel) -> bool {
    match m.qos {
        QoSWithPacketIdentifier::Level0 => true,
        QoSWithPacketIdentifier::Level1(k) => window::get(ps.qos1_send, k) == Some(m),
        QoSWithPacketIdentifier::Level2(k) => window::get(ps.qos2_send, k) == Some(
            (m, false, false),
        ),
    }
}

/// What stood in a window stands in it still.
pub open spec fn keeps_flights(before: PersistentModel, after: PersistentModel) -> bool {
    &&& forall|k: u16| #[trigger]
        window::get(before.qos1_send, k) is Some ==> window::get(after.qos1_send, k)
            == window::get(before.qos1_send, k)
    &&& forall|k: u16| #[trigger]
        window::get(before.qos2_send, k) is Some ==> window::get(after.qos2_send, k)
            == window::get(before.qos2_send, k)
    &&& after.qos2_recv == before.qos2_recv
    &&& after.user_id == before.user_id
    &&& after.client_identifier == before.client_identifier
}

/// `ms` are retained messages as a client with a subscription at level `q` gets them.
pub open spec fn are_retained_copies(
    ms: Seq<PublishModel>,
    packets: Seq<PublishModel>,
    q: QualityOfService,
) -> bool {
    &&& ms.len() == packets.len()
    &&& forall|i: int|
        0 <= i < ms.len() ==> is_copy_for(#[trigger] ms[i], packets[i], q) && ms[i].retain
}

/// Each of the messages is in flight, and its answer awaited.
pub open spec fn are_sent(
    ms: Seq<PublishModel>,
    ps: PersistentModel,
    timers: Seq<SessionActionModel>,
    now: u64,
    secs: u64,
    addr: SocketAddr,
) -> bool {
    forall|i: int|
        0 <= i < ms.len() ==> {
            &&& flies(ps, #[trigger] ms[i])
            &&& answer_to(ms[i], now, secs, addr).len() > 0 ==> timers.contains(
                answer_to(ms[i], now, secs, addr)[0],
            )
        }
}

/// One more copy.
proof fn lemma_one_more_copy(
    ms: Seq<PublishModel>,
    packets: Seq<PublishModel>,
    q: QualityOfService,
    m: PublishModel,
)
    requires
        packets.len() > 0,
        are_retained_copies(ms, packets.drop_last(), q),
        is_copy_for(m, packets.last(), q),
        m.retain,
    ensures
        are_retained_copies(ms.push(m), packets, q),
{
    let all = ms.push(m);
    assert forall|i: int| 0 <= i < all.len() implies is_copy_for(#[trigger] all[i], packets[i], q)
        && all[i].retain by {
        if i < ms.len() {
            assert(all[i] == ms[i]);
            assert(packets.drop_last()[i] == packets[i]);
        }
    }
}

/// One more message in flight does not touch the others.
proof fn lemma_one_more_sent(
    first: PersistentModel,
    mid: PersistentModel,
    after: PersistentModel,
    ms: Seq<PublishModel>,
    m: PublishModel,
    timers: Seq<SessionActionModel>,
    now: u64,
    secs: u64,
    addr: SocketAddr,
)
    requires
        keeps_flights(first, mid),
        in_flight(mid, after, m),
        pkid_of(m) matches Some(k) ==> is_free(mid, k),
        are_sent(ms, mid, timers, now, secs, addr),
    ensures
        keeps_flights(first, after),
        are_sent(
            ms.push(m),
            after,
            timers + answer_to(m, now, secs, addr),
            now,
            secs,
            addr,
        ),
{
    let all = ms.push(m);
    let more = timers + answer_to(m, now, secs, addr);
    assert forall|i: int| 0 <= i < all.len() implies {
        &&& flies(after, #[trigger] all[i])
        &&& answer_to(all[i], now, secs, addr).len() > 0 ==> more.contains(
            answer_to(all[i], now, secs, addr)[0],
        )
    } by {
        let answer = answer_to(all[i], now, secs, addr);
        if i < ms.len() {
            assert(all[i] == ms[i]);
            assert(flies(mid, ms[i]));
            if answer.len() > 0 {
                assert(more[timers.index_of(answer[0])] == answer[0]);
            }
        } else if answer.len() > 0 {
            assert(more[timers.len() as int] == answer[0]);
        }
    }
    assert forall|k: u16| #[trigger]
        window::get(first.qos1_send, k) is Some implies window::get(after.qos1_send, k)
        == window::get(first.qos1_send, k) by {
        assert(window::get(mid.qos1_send, k) == window::get(first.qos1_send, k));
    }
    assert forall|k: u16| #[trigger]
        window::get(first.qos2_send, k) is Some implies window::get(after.qos2_send, k)
        == window::get(first.qos2_send, k) by {
        assert(window::get(mid.qos2_send, k) == window::get(first.qos2_send, k));
    }
}

/// What comes of retained messages: `ms` are sent for `packets`, or no identifier was left.
pub open spec fn retained_come_to(
    s: SessionModel,
    ps: PersistentModel,
    step: SessionStep,
    ms: Seq<PublishModel>,
    packets: Seq<PublishModel>,
    q: QualityOfService,
    now: u64,
) -> bool {
    let after = step.session.persistent->0;
    &&& step.session == (SessionModel { persistent: Some(after), ..s })
    &&& window::distinct(after.qos1_send)
    &&& window::distinct(after.qos2_send)
    &&& step.fault is Some ==> step.fault == Some(SessionFault::NoPacketIdentifier) && forall|
        k: u16,
    |
        !#[trigger] is_free(after, k)
    &&& step.fault is None ==> {
        &&& are_retained_copies(ms, packets, q)
        &&& over(step.actions, Channel::Clients) == all_to_client(s.addr, ms)
        &&& over(step.actions, Channel::Router).len() == 0
        &&& over(step.actions, Channel::Keeper).len() == 0
        &&& keeps_flights(ps, after)
        &&& are_sent(
            ms,
            after,
            over(step.actions, Channel::Timers),
            now,
            s.recv_packet_timeout,
            s.addr,
        )
    }
}

/// All messages to a client, and one more.
proof fn lemma_one_more_to_client(addr: SocketAddr, ms: Seq<PublishModel>, m: PublishModel)
    ensures
        all_to_client(addr, ms.push(m)) == all_to_client(addr, ms).push(
            message_to(addr, m),
        ),
{
    let f = |m: PublishModel| message_to(addr, m);
    assert(ms.push(m).map_values(f) =~= ms.map_values(f).push(f(m)));
}

/// What goes over each channel of two lists, of which the second holds `x` and then timers.
proof fn lemma_joined(
    before: Seq<SessionActionModel>,
    one: Seq<SessionActionModel>,
    x: SessionActionModel,
    timers: Seq<SessionActionModel>,
)
    requires
        over(one, Channel::Clients) == seq![x],
        over(one, Channel::Router).len() == 0,
        over(one, Channel::Keeper).len() == 0,
        over(one, Channel::Timers) == timers,
    ensures
        over(before + one, Channel::Clients) == over(before, Channel::Clients).push(x),
        over(before + one, Channel::Router) == over(before, Channel::Router),
        over(before + one, Channel::Keeper) == over(before, Channel::Keeper),
        over(before + one, Channel::Timers) == over(before, Channel::Timers) + timers,
{
    lemma_over_add(before, one, Channel::Clients);
    lemma_over_add(before, one, Channel::Router);
    lemma_over_add(before, one, Channel::Keeper);
    lemma_over_add(before, one, Channel::Timers);
    assert(over(before + one, Channel::Clients) =~= over(before, Channel::Clients).push(x));
    assert(over(before + one, Channel::Router) =~= over(before, Channel::Router));
    assert(over(before + one, Channel::Keeper) =~= over(before, Channel::Keeper));
}

/// One more retained message is sent.
proof fn lemma_one_more_retained(
    s: SessionModel,
    ps: PersistentModel,
    before: SessionStep,
    one: SessionStep,
    ms: Seq<PublishModel>,
    m: PublishModel,
    x: SessionActionModel,
    packets: Seq<PublishModel>,
    q: QualityOfService,
    now: u64,
)
    requires
        packets.len() > 0,
        retained_come_to(s, ps, before, ms, packets.drop_last(), q, now),
        before.fault is None,
        one.fault is None,
        one.session == (SessionModel { persistent: one.session.persistent, ..before.session }),
        one.session.persistent is Some,
        window::distinct(one.session.persistent->0.qos1_send),
        window::distinct(one.session.persistent->0.qos2_send),
        in_flight(before.session.persistent->0, one.session.persistent->0, m),
        pkid_of(m) matches Some(k) ==> is_free(before.session.persistent->0, k),
        all_to_client(s.addr, ms.push(m)) == all_to_client(s.addr, ms).push(x),
        over(one.actions, Channel::Clients) == seq![x],
        over(one.actions, Channel::Router).len() == 0,
        over(one.actions, Channel::Keeper).len() == 0,
        over(one.actions, Channel::Timers) == answer_to(m, now, s.recv_packet_timeout, s.addr),
        is_copy_for(m, packets.last(), q),
        m.retain,
    ensures
        retained_come_to(
            s,
            ps,
            SessionStep { actions: before.actions + one.actions, ..one },
            ms.push(m),
            packets,
            q,
            now,
        ),
{
    let secs = s.recv_packet_timeout;
    lemma_joined(before.actions, one.actions, x, answer_to(m, now, secs, s.addr));
    lemma_one_more_copy(ms, packets, q, m);
    lemma_one_more_sent(
        ps,
        before.session.persistent->0,
        one.session.persistent->0,
        ms,
        m,
        over(before.actions, Channel::Timers),
        now,
        secs,
        s.addr,
    );
}

/// The messages that are sent for retained ones.
proof fn lemma_retained_sent(
    s: SessionModel,
    ps: PersistentModel,
    packets: Seq<PublishModel>,
    q: QualityOfService,
    now: u64,
) -> (ms: Seq<PublishModel>)
    requires
        s.persistent == Some(ps),
        window::distinct(ps.qos1_send),
        window::distinct(ps.qos2_send),
    ensures
        retained_come_to(
            s,
            ps,
            client_session_spec::deliver_retained(s, packets, q, now),
            ms,
            packets,
            q,
            now,
        ),
    decreases packets.len(),
{
    if packets.len() == 0 {
        let none = Seq::<PublishModel>::empty();
        lemma_over_nothing(Channel::Clients);
        lemma_over_nothing(Channel::Router);
        lemma_over_nothing(Channel::Keeper);
        assert(all_to_client(s.addr, none) =~= Seq::empty());
        none
    } else {
        let before = client_session_spec::deliver_retained(s, packets.drop_last(), q, now);
        let ms = lemma_retained_sent(s, ps, packets.drop_last(), q, now);
        let mid = before.session.persistent->0;
        let p = packets.last();
        let plain = PublishModel { retain: true, dup: false, ..p };
        let level = p.qos.level().lower(q);
        if before.fault is Some {
            ms
        } else {
            law_identifiers_are_given_out_in_turn(mid);
            if session_spec::next_pkid(mid) is None {
                ms
            } else {
                let m = lemma_delivered_over(before.session, mid, plain, level, now);
                let one = client_session_spec::deliver(before.session, plain, level, now);
                assert(is_copy_for(m, p, q));
                let x = message_to(s.addr, m);
                lemma_one_more_to_client(s.addr, ms, m);
                lemma_one_more_retained(s, ps, before, one, ms, m, x, packets, q, now);
                ms.push(m)
            }
        }
    }
}

/// What goes over each channel for a message that is sent.
proof fn lemma_over_message(addr: SocketAddr, m: PublishModel, now: u64, secs: u64)
    ensures
        ({
            let actions = seq![to_client(addr, PacketModel::Publish(m))] + answer_to(
                m,
                now,
                secs,
                addr,
            );
            &&& over(actions, Channel::Clients) == seq![to_client(addr, PacketModel::Publish(m))]
            &&& over(actions, Channel::Router).len() == 0
            &&& over(actions, Channel::Keeper).len() == 0
            &&& over(actions, Channel::Timers) == answer_to(m, now, secs, addr)
        }),
{
    broadcast use {lemma_over_nothing, lemma_over_push, lemma_over_add};

    let first = seq![to_client(addr, PacketModel::Publish(m))];
    let answer = answer_to(m, now, secs, addr);
    assert(over(first + answer, Channel::Clients) =~= first);
    assert(over(first + answer, Channel::Timers) =~= answer);
}

/// Law: retained messages for a client are sent to it, each once, in order and to it alone: topic and
/// payload as they are, each at the lower of its own level and the subscription's, marked as retained
/// and no repetition. Above level zero each is in flight from then on and its answer awaited; what was
/// in flight stays so. It fails only where no identifier is free, or the client is not connected.
pub proof fn law_retained_messages_for_a_client(
    h: HubModel,
    user_id: UserId,
    addr: SocketAddr,
    packets: Seq<PublishModel>,
    q: QualityOfService,
    now: u64,
)
    requires
        client_session_spec::hub_wf(h),
        h.sessions.contains_key(addr) && h.sessions[addr].session.connected ==> {
            let ps = h.sessions[addr].session.persistent->0;
            window::distinct(ps.qos1_send) && window::distinct(ps.qos2_send)
        },
    ensures
        ({
            let step = client_session_spec::on_msg(
                h,
                ClientSessionMsgModel::RetainPackets(user_id, addr, packets, q),
                now,
            );
            let ps = h.sessions[addr].session.persistent->0;
            let after = step.hub.sessions[addr].session.persistent->0;
            if !h.sessions.contains_key(addr) {
                step.fault == Some(SessionFault::NoSession)
            } else if !h.sessions[addr].session.connected {
                packets.len() > 0 ==> step.fault is Some
            } else if step.fault is Some {
                &&& step.fault == Some(SessionFault::NoPacketIdentifier)
                &&& forall|k: u16| !#[trigger] is_free(after, k)
            } else {
                &&& step.hub.addrs == h.addrs
                &&& step.hub.persistents == h.persistents
                &&& keeps_flights(ps, after)
                &&& over(step.actions, Channel::Router).len() == 0
                &&& over(step.actions, Channel::Keeper).len() == 0
                &&& exists|ms: Seq<PublishModel>|
                    {
                        &&& #[trigger] are_retained_copies(ms, packets, q)
                        &&& over(step.actions, Channel::Clients) == all_to_client(addr, ms)
                        &&& are_sent(ms, after, over(step.actions, Channel::Timers), now, 20, addr)
                    }
            }
        }),
{
    if h.sessions.contains_key(addr) {
        let s = h.sessions[addr].session;
        if s.connected {
            let ms = lemma_retained_sent(s, s.persistent->0, packets, q, now);
            let step = client_session_spec::deliver_retained(s, packets, q, now);
            if step.fault is None {
                assert(are_retained_copies(ms, packets, q));
            }
        } else if packets.len() > 0 {
            lemma_not_connected(s, packets, q, now);
        }
    }
}

/// A client that is not connected cannot be sent anything.
proof fn lemma_not_connected(
    s: SessionModel,
    packets: Seq<PublishModel>,
    q: QualityOfService,
    now: u64,
)
    requires
        s.persistent is None,
        packets.len() > 0,
    ensures
        client_session_spec::deliver_retained(s, packets, q, now).fault is Some,
    decreases packets.len(),
{
    client_session_spec::lemma_deliver_retained_frame(s, packets.drop_last(), q, now);
    if packets.len() > 1 {
        lemma_not_connected(s, packets.drop_last(), q, now);
    }
}

/// Law: a client that was silent for too long is disconnected.
pub proof fn law_silent_client_is_disconnected(h: HubModel, addr: SocketAddr, now: u64)
    ensures
        ({
            let step = client_session_spec::on_msg(
                h,
                ClientSessionMsgModel::Timeout(SessionTimerPayload::KeepAliveTimer(addr)),
                now,
            );
            &&& step.fault is None
            &&& step.hub == h
            &&& step.actions == seq![closes(addr, "Keep-Alive timeout!"@)]
        }),
{
}

/// What is sent again to a client that owes the packet: the message, as a repetition, where it owes
/// PUBACK or PUBREC; PUBREL where it owes PUBCOMP; PUBREC where it owes PUBREL.
pub open spec fn reminder(ps: PersistentModel, kind: SessionTimerPacketType, k: u16) -> Option<
    PacketModel,
> {
    match kind {
        SessionTimerPacketType::RecvPubackTimeout => match window::get(ps.qos1_send, k) {
            Some(p) => Some(PacketModel::Publish(PublishModel { dup: true, ..p })),
            None => None,
        },
        SessionTimerPacketType::RecvPubrecTimeout => match window::get(ps.qos2_send, k) {
            Some(e) => Some(PacketModel::Publish(PublishModel { dup: true, ..e.0 })),
            None => None,
        },
        SessionTimerPacketType::RecvPubcompTimeout => match window::get(ps.qos2_send, k) {
            Some(_) => Some(PacketModel::Pubrel(k)),
            None => None,
        },
        SessionTimerPacketType::RecvPubrelTimeout => match window::get(ps.qos2_recv, k) {
            Some(_) => Some(PacketModel::Pubrec(k)),
            None => None,
        },
    }
}

/// Law: a client that owes a packet is reminded when its time is up, for as long as it owes the packet,
/// and has as much time again. One that no longer owes it is left alone. Nothing is lost of what is in
/// flight.
pub proof fn law_owed_packet_is_asked_for_again(
    h: HubModel,
    addr: SocketAddr,
    kind: SessionTimerPacketType,
    k: u16,
    now: u64,
)
    requires
        h.sessions.contains_key(addr) ==> h.sessions[addr].session.addr == addr && (
        h.sessions[addr].session.persistent matches Some(ps) ==> session_laws::sound(ps)),
    ensures
        ({
            let step = client_session_spec::on_msg(
                h,
                ClientSessionMsgModel::Timeout(
                    SessionTimerPayload::RecvPacketTimer(kind, addr, k),
                ),
                now,
            );
            let s = h.sessions[addr].session;
            let ps = s.persistent->0;
            let after = step.hub.sessions[addr].session.persistent->0;
            &&& step.fault is None
            &&& if h.sessions.contains_key(addr) && s.persistent is Some && reminder(ps, kind, k)
                is Some {
                &&& over(step.actions, Channel::Clients) == seq![
                    to_client(addr, reminder(ps, kind, k)->0),
                ]
                &&& over(step.actions, Channel::Router).len() == 0
                &&& over(step.actions, Channel::Keeper).len() == 0
                &&& over(step.actions, Channel::Timers).last() == awaits(now, 20, kind, addr, k)
                &&& step.hub.addrs == h.addrs
                &&& step.hub.persistents == h.persistents
                &&& after.pkid == ps.pkid
                &&& after.qos2_recv == ps.qos2_recv
                &&& forall|j: u16| #[trigger]
                    window::get(after.qos1_send, j) == (if j == k && kind
                        == SessionTimerPacketType::RecvPubackTimeout {
                        Some(PublishModel { dup: true, ..window::get(ps.qos1_send, j)->0 })
                    } else {
                        window::get(ps.qos1_send, j)
                    })
                &&& forall|j: u16| #[trigger]
                    window::get(after.qos2_send, j) == (if j == k && kind
                        == SessionTimerPacketType::RecvPubrecTimeout {
                        Some(
                            (
                                PublishModel { dup: true, ..(window::get(ps.qos2_send, j)->0).0 },
                                false,
                                false,
                            ),
                        )
                    } else {
                        window::get(ps.qos2_send, j)
                    })
            } else {
                step.hub == h && step.actions.len() == 0
            }
        }),
{
    broadcast use {lemma_over_nothing, lemma_over_push, lemma_over_add};

    if h.sessions.contains_key(addr) {
        let s = h.sessions[addr].session;
        if let Some(ps) = s.persistent {
            if let Some(p) = window::get(ps.qos1_send, k) {
                window::lemma_put(ps.qos1_send, k, PublishModel { dup: true, ..p });
            }
            if let Some(e) = window::get(ps.qos2_send, k) {
                window::lemma_put(
                    ps.qos2_send,
                    k,
                    (PublishModel { dup: true, ..e.0 }, false, false),
                );
            }
        }
    }
}

/// `true` iff the action sends nothing to a client but the one at `addr`.
pub open spec fn is_for(action: SessionActionModel, addr: SocketAddr) -> bool {
    match action {
        SessionActionModel::Connection(ClientConnectionMsgModel::Data(to, _)) => to == addr,
        SessionActionModel::Connection(
            ClientConnectionMsgModel::DisconnectClient(to, _),
        ) => to == addr,
        _ => true,
    }
}

/// `true` iff what is sent to clients is sent to the one at `addr`.
#[verifier::opaque]
pub open spec fn goes_to(actions: Seq<SessionActionModel>, addr: SocketAddr) -> bool {
    forall|i: int| 0 <= i < actions.len() ==> is_for(#[trigger] actions[i], addr)
}

broadcast proof fn lemma_nothing_goes_to(addr: SocketAddr)
    ensures
        #[trigger] goes_to(Seq::empty(), addr),
{
    reveal(goes_to);
}

broadcast proof fn lemma_push_goes_to(
    actions: Seq<SessionActionModel>,
    action: SessionActionModel,
    addr: SocketAddr,
)
    ensures
        #[trigger] goes_to(actions.push(action), addr) == (goes_to(actions, addr) && is_for(
            action,
            addr,
        )),
{
    reveal(goes_to);
    let all = actions.push(action);
    if goes_to(all, addr) {
        assert forall|i: int| 0 <= i < actions.len() implies is_for(#[trigger] actions[i], addr) by {
            assert(all[i] == actions[i]);
        }
        assert(all[actions.len() as int] == action);
    }
}

broadcast proof fn lemma_joined_goes_to(
    a: Seq<SessionActionModel>,
    b: Seq<SessionActionModel>,
    addr: SocketAddr,
)
    requires
        goes_to(a, addr),
        goes_to(b, addr),
    ensures
        #[trigger] goes_to(a + b, addr),
{
    reveal(goes_to);
    assert forall|i: int| 0 <= i < (a + b).len() implies is_for(#[trigger] (a + b)[i], addr) by {
        if i < a.len() {
            assert((a + b)[i] == a[i]);
        } else {
            assert((a + b)[i] == b[i - a.len()]);
        }
    }
}

proof fn lemma_taken_up_goes_to(
    addr: SocketAddr,
    timeout: u64,
    w: Seq<(u16, Handshake)>,
    now: u64,
)
    ensures
        goes_to(session_spec::redeliver_qos2_send(addr, timeout, w, now), addr),
        goes_to(session_spec::redeliver_qos2_recv(addr, timeout, w, now), addr),
    decreases w.len(),
{
    broadcast use {lemma_nothing_goes_to, lemma_push_goes_to};

    if w.len() > 0 {
        lemma_taken_up_goes_to(addr, timeout, w.drop_last(), now);
    }
}

proof fn lemma_let_in_goes_to(w: WorldModel, c: ConnectModel, now: u64)
    requires
        !w.session.connected,
        c.protocol_name == "MQTT"@,
    ensures
        goes_to(
            session_spec::on_packet(w, PacketModel::Connect(c), now).actions,
            w.session.addr,
        ),
{
    let addr = w.session.addr;
    let key = (UserId(0), c.client_identifier);
    let ps = if !c.clean_session && w.persistents.contains_key(key) {
        w.persistents[key]
    } else {
        session_spec::fresh_persistent(UserId(0), c.client_identifier)
    };
    let timeout = w.session.recv_packet_timeout;
    let connack = seq![to_client(addr, PacketModel::Connack(false, 0))];
    let first = session_spec::redeliver_qos1(addr, ps.qos1_send);
    let sent = session_spec::redeliver_qos2_send(addr, timeout, ps.qos2_send, now);
    let received = session_spec::redeliver_qos2_recv(addr, timeout, ps.qos2_recv, now);
    exchange_laws::lemma_let_in(w, c, ps, now);
    lemma_taken_up_goes_to(addr, timeout, ps.qos2_send, now);
    lemma_taken_up_goes_to(addr, timeout, ps.qos2_recv, now);
    assert(goes_to(connack, addr) && goes_to(first, addr)) by {
        reveal(goes_to);
    }
    lemma_joined_goes_to(first, sent, addr);
    lemma_joined_goes_to(first + sent, received, addr);
    lemma_joined_goes_to(connack, (first + sent) + received, addr);
}

/// Up to four actions, each for the client.
proof fn lemma_short_goes_to(s: Seq<SessionActionModel>, addr: SocketAddr)
    requires
        s.len() <= 4,
        s.len() > 0 ==> is_for(s[0], addr),
        s.len() > 1 ==> is_for(s[1], addr),
        s.len() > 2 ==> is_for(s[2], addr),
        s.len() > 3 ==> is_for(s[3], addr),
    ensures
        goes_to(s, addr),
{
    reveal(goes_to);
    assert forall|i: int| 0 <= i < s.len() implies is_for(#[trigger] s[i], addr) by {
        assert(i == 0 || i == 1 || i == 2 || i == 3);
    }
}

proof fn lemma_message_goes_to(s: SessionModel, ps: PersistentModel, p: PublishModel, now: u64)
    ensures
        goes_to(session_spec::on_publish(s, ps, p, now).actions, s.addr),
{
    lemma_short_goes_to(session_spec::on_publish(s, ps, p, now).actions, s.addr);
}

proof fn lemma_puback_goes_to(s: SessionModel, ps: PersistentModel, k: u16)
    ensures
        goes_to(session_spec::on_puback(s, ps, k).actions, s.addr),
{
    lemma_short_goes_to(session_spec::on_puback(s, ps, k).actions, s.addr);
}

/// One, two or three actions, each for the client.
proof fn lemma_few_go_to(
    a: SessionActionModel,
    b: SessionActionModel,
    c: SessionActionModel,
    addr: SocketAddr,
)
    requires
        is_for(a, addr),
        is_for(b, addr),
        is_for(c, addr),
    ensures
        goes_to(seq![a], addr),
        goes_to(seq![a, b], addr),
        goes_to(seq![a, b, c], addr),
{
    lemma_short_goes_to(seq![a], addr);
    lemma_short_goes_to(seq![a, b], addr);
    lemma_short_goes_to(seq![a, b, c], addr);
}

#[verifier::spinoff_prover]
proof fn lemma_pubrec_goes_to(s: SessionModel, ps: PersistentModel, k: u16, now: u64)
    ensures
        goes_to(session_spec::on_pubrec(s, ps, k, now).actions, s.addr),
{
    let cancel = session_spec::cancel_timer(
        session_spec::packet_timer(SessionTimerPacketType::RecvPubrecTimeout, s.addr, k),
    );
    let release = hub::send_action(s.addr, wire::pubrel_bytes(k));
    let timer = session_spec::set_timer(
        now,
        s.recv_packet_timeout,
        session_spec::packet_timer(SessionTimerPacketType::RecvPubcompTimeout, s.addr, k),
    );
    lemma_few_go_to(cancel, release, timer, s.addr);
    let actions = session_spec::on_pubrec(s, ps, k, now).actions;
    if window::get(ps.qos2_send, k) is Some {
        assert(actions == seq![cancel, release, timer]);
    } else {
        assert(actions == seq![cancel]);
    }
}

proof fn lemma_pubrel_goes_to(s: SessionModel, ps: PersistentModel, k: u16)
    ensures
        goes_to(session_spec::on_pubrel(s, ps, k).actions, s.addr),
{
    let cancel = session_spec::cancel_timer(
        session_spec::packet_timer(SessionTimerPacketType::RecvPubrelTimeout, s.addr, k),
    );
    let complete = hub::send_action(s.addr, wire::pubcomp_bytes(k));
    lemma_few_go_to(cancel, complete, complete, s.addr);
}

proof fn lemma_pubcomp_goes_to(s: SessionModel, ps: PersistentModel, k: u16)
    ensures
        goes_to(session_spec::on_pubcomp(s, ps, k).actions, s.addr),
{
    lemma_short_goes_to(session_spec::on_pubcomp(s, ps, k).actions, s.addr);
}

proof fn lemma_subscribing_goes_to(s: SessionModel, ps: PersistentModel, m: SubscribeModel)
    ensures
        goes_to(session_spec::on_subscribe(s, ps, m).actions, s.addr),
{
    lemma_short_goes_to(session_spec::on_subscribe(s, ps, m).actions, s.addr);
}

proof fn lemma_unsubscribing_goes_to(s: SessionModel, ps: PersistentModel, m: UnsubscribeModel)
    ensures
        goes_to(session_spec::on_unsubscribe(s, ps, m).actions, s.addr),
{
    lemma_short_goes_to(session_spec::on_unsubscribe(s, ps, m).actions, s.addr);
}

proof fn lemma_closing_goes_to(s: SessionModel, reason: Seq<char>)
    ensures
        goes_to(session_spec::refused(s, reason).actions, s.addr),
        goes_to(session_spec::on_disconnect(s).actions, s.addr),
        goes_to(seq![hub::send_action(s.addr, wire::pingresp_bytes())], s.addr),
{
    lemma_short_goes_to(session_spec::refused(s, reason).actions, s.addr);
    lemma_short_goes_to(session_spec::on_disconnect(s).actions, s.addr);
    lemma_short_goes_to(seq![hub::send_action(s.addr, wire::pingresp_bytes())], s.addr);
}

proof fn lemma_connected_goes_to(s: SessionModel, ps: PersistentModel, p: PacketModel, now: u64)
    ensures
        goes_to(session_spec::on_connected(s, ps, p, now).actions, s.addr),
{
    match p {
        PacketModel::Publish(m) => lemma_message_goes_to(s, ps, m, now),
        PacketModel::Puback(k) => lemma_puback_goes_to(s, ps, k),
        PacketModel::Pubrec(k) => lemma_pubrec_goes_to(s, ps, k, now),
        PacketModel::Pubrel(k) => lemma_pubrel_goes_to(s, ps, k),
        PacketModel::Pubcomp(k) => lemma_pubcomp_goes_to(s, ps, k),
        PacketModel::Subscribe(m) => lemma_subscribing_goes_to(s, ps, m),
        PacketModel::Unsubscribe(m) => lemma_unsubscribing_goes_to(s, ps, m),
        _ => lemma_closing_goes_to(s, "Can't send broker only packets!"@),
    }
}

proof fn lemma_packet_goes_to(w: WorldModel, p: PacketModel, now: u64)
    ensures
        goes_to(session_spec::on_packet(w, p, now).actions, w.session.addr),
{
    broadcast use {lemma_nothing_goes_to, lemma_push_goes_to};

    match p {
        PacketModel::Connect(c) => {
            if !w.session.connected && c.protocol_name == "MQTT"@ {
                lemma_let_in_goes_to(w, c, now);
            } else {
                reveal(session_spec::on_packet);
            }
        },
        _ => {
            if let Some(ps) = w.session.persistent {
                lemma_connected_goes_to(w.session, ps, p, now);
            }
            reveal(session_spec::on_packet);
        },
    }
}

proof fn lemma_packets_go_to(w: WorldModel, packets: Seq<(u8, Seq<u8>)>, now: u64)
    ensures
        goes_to(session_spec::on_packets(w, packets, now).actions, w.session.addr),
    decreases packets.len(),
{
    broadcast use {lemma_nothing_goes_to, lemma_joined_goes_to};

    if packets.len() > 0 {
        if let Some(p) = wire::decoded(packets[0].0, packets[0].1) {
            let step = session_spec::on_packet(w, p, now);
            session_spec::lemma_on_packet_frame(w, p, now);
            lemma_packets_go_to(step.world, packets.drop_first(), now);
            lemma_packet_goes_to(w, p, now);
        }
    }
}

/// Law: what a message to the sessions makes the hub send to clients goes to the client that it is
/// about, and to no other.
pub proof fn law_nobody_else_is_sent_anything(h: HubModel, msg: ClientSessionMsgModel, now: u64)
    requires
        client_session_spec::hub_wf(h),
    ensures
        ({
            let actions = client_session_spec::on_msg(h, msg, now).actions;
            match session_laws::concerns(h, msg) {
                Some(addr) => goes_to(actions, addr),
                None => actions.len() == 0,
            }
        }),
{
    broadcast use {lemma_nothing_goes_to, lemma_push_goes_to, lemma_joined_goes_to};

    match msg {
        ClientSessionMsgModel::Data(addr, data) => {
            let conn = session_laws::connection(h, addr);
            let f = wire::frames(conn.bytes + data, conn.header);
            lemma_packets_go_to(session_laws::world_at(h, addr), f.packets, now);
        },
        ClientSessionMsgModel::RetainPackets(_, addr, packets, q) => {
            if h.sessions.contains_key(addr) {
                lemma_retained_goes_to(h.sessions[addr].session, packets, q, now);
            }
        },
        _ => {},
    }
}

proof fn lemma_retained_goes_to(
    s: SessionModel,
    packets: Seq<PublishModel>,
    q: QualityOfService,
    now: u64,
)
    ensures
        goes_to(client_session_spec::deliver_retained(s, packets, q, now).actions, s.addr),
    decreases packets.len(),
{
    broadcast use {lemma_nothing_goes_to, lemma_push_goes_to, lemma_joined_goes_to};

    if packets.len() > 0 {
        client_session_spec::lemma_deliver_retained_frame(s, packets.drop_last(), q, now);
        lemma_retained_goes_to(s, packets.drop_last(), q, now);
    }
}

/// Law: bytes that make up no packet yet are kept, and nothing is done about them; only a client that
/// is new has its time from then on.
pub proof fn law_incomplete_packet_is_awaited(
    h: HubModel,
    addr: SocketAddr,
    data: Seq<u8>,
    now: u64,
)
    requires
        ({
            let conn = session_laws::connection(h, addr);
            let f = wire::frames(conn.bytes + data, conn.header);
            f.packets.len() == 0 && f.end is NeedMore
        }),
    ensures
        ({
            let step = client_session_spec::on_msg(
                h,
                ClientSessionMsgModel::Data(addr, data),
                now,
            );
            &&& step.fault is None
            &&& step.hub.addrs == h.addrs
            &&& step.hub.persistents == h.persistents
            &&& step.hub.sessions.contains_key(addr)
            &&& step.hub.sessions[addr].session == session_laws::connection(h, addr).session
            &&& step.actions == (if h.sessions.contains_key(addr) {
                Seq::empty()
            } else {
                seq![lives(now, 30, addr)]
            })
        }),
{
    let step = client_session_spec::on_msg(h, ClientSessionMsgModel::Data(addr, data), now);
    assert(step.actions =~= (if h.sessions.contains_key(addr) {
        Seq::empty()
    } else {
        seq![lives(now, 30, addr)]
    }));
}

/// Law: a client whose packet has a length of more than four bytes is disconnected, and nothing else
/// is done for it.
pub proof fn law_endless_length_is_refused(h: HubModel, addr: SocketAddr, data: Seq<u8>, now: u64)
    requires
        client_session_spec::hub_wf(h),
        h.sessions.contains_key(addr) ==> h.sessions[addr].bytes.len() == 0
            && h.sessions[addr].header is None,
        data.len() >= 6,
        forall|i: int| 1 <= i <= 4 ==> #[trigger] data[i] >= 128,
    ensures
        ({
            let step = client_session_spec::on_msg(
                h,
                ClientSessionMsgModel::Data(addr, data),
                now,
            );
            &&& step.fault is None
            &&& over(step.actions, Channel::Clients) == seq![closes(addr, "Invalid header length!"@)]
            &&& over(step.actions, Channel::Router).len() == 0
            &&& over(step.actions, Channel::Keeper).len() == 0
            &&& step.hub.addrs == h.addrs
            &&& step.hub.persistents == h.persistents
            &&& step.hub.sessions[addr].session == session_laws::connection(h, addr).session
        }),
{
    broadcast use {lemma_over_nothing, lemma_over_push, lemma_over_add};

    let conn = session_laws::connection(h, addr);
    assert(conn.bytes + data =~= data);
    assert(data[1] >= 128 && data[2] >= 128 && data[3] >= 128 && data[4] >= 128);
    assert(wire::frames(data, None) == (wire::Frames {
        packets: Seq::empty(),
        rest: data,
        header: None,
        end: wire::FramesEnd::BadLength,
    })) by {
        reveal(wire::frames);
    }
    let step = client_session_spec::on_msg(h, ClientSessionMsgModel::Data(addr, data), now);
    assert(over(step.actions, Channel::Clients) =~= seq![closes(addr, "Invalid header length!"@)]);
}

/// Law: a packet that cannot be read is a fault, and so is a first byte that no packet has. The packets
/// before it are handled.
pub proof fn law_unreadable_packet_is_a_fault(
    w: WorldModel,
    packets: Seq<(u8, Seq<u8>)>,
    first: u8,
    body: Seq<u8>,
    now: u64,
)
    requires
        session_spec::on_packets(w, packets, now).fault is None,
        wire::decoded(first, body) is None,
    ensures
        ({
            let before = session_spec::on_packets(w, packets, now);
            let step = session_spec::on_packets(w, packets.push((first, body)), now);
            &&& step.fault == Some(SessionFault::UndecodablePacket)
            &&& step.actions == before.actions
        }),
{
    let last = seq![(first, body)];
    session_laws::law_packets_in_pieces(w, packets, last, now);
    assert(packets + last =~= packets.push((first, body)));
    let before = session_spec::on_packets(w, packets, now);
    reveal_with_fuel(session_spec::on_packets, 2);
    assert(before.actions + Seq::empty() =~= before.actions);
}

/// Law: bytes whose first no packet can have are a fault.
pub proof fn law_impossible_first_byte_is_a_fault(
    h: HubModel,
    addr: SocketAddr,
    data: Seq<u8>,
    now: u64,
)
    requires
        h.sessions.contains_key(addr) ==> h.sessions[addr].bytes.len() == 0
            && h.sessions[addr].header is None,
        data.len() >= 2,
        data[1] < 128,
        !wire::valid_first(data[0]),
    ensures
        client_session_spec::on_msg(h, ClientSessionMsgModel::Data(addr, data), now).fault == Some(
            SessionFault::UndecodableHeader,
        ),
{
    let conn = session_laws::connection(h, addr);
    assert(conn.bytes + data =~= data);
    reveal(wire::frames);
}

/// Law: the packets in a client's bytes are handled one after the other. Two packets, one behind the
/// other, do what the first and then the second does.
pub proof fn law_packets_are_handled_in_order(
    w: WorldModel,
    p: PacketModel,
    q: PacketModel,
    now: u64,
)
    requires
        wire_laws::writable(p),
        wire_laws::writable(q),
    ensures
        ({
            let packets = wire::frames(wire::packet_bytes(p) + wire::packet_bytes(q), None).packets;
            let first = session_spec::on_packet(w, p, now);
            let second = session_spec::on_packet(first.world, q, now);
            let both = session_spec::on_packets(w, packets, now);
            if first.fault is Some {
                both.fault == first.fault && both.actions == first.actions
            } else {
                &&& both.fault == second.fault
                &&& both.actions == first.actions + second.actions
                &&& second.fault is None ==> both.world == second.world
            }
        }),
{
    let none = Seq::<u8>::empty();
    let bytes = wire::packet_bytes(q);
    wire_laws::law_written_packet_is_read_back(p, bytes);
    wire_laws::law_written_packet_is_read_back(q, none);
    assert(bytes + none =~= bytes);
    let packets = wire::frames(wire::packet_bytes(p) + bytes, None).packets;
    let rest = wire::frames(bytes, None).packets;
    assert(wire::frames(none, None).packets =~= Seq::empty()) by {
        reveal(wire::frames);
    }
    assert(packets.drop_first() == rest);
    assert(rest.len() == 1);
    assert(rest.drop_first() =~= Seq::empty());
    reveal_with_fuel(session_spec::on_packets, 3);
    let first = session_spec::on_packet(w, p, now);
    let second = session_spec::on_packet(first.world, q, now);
    assert(second.actions + Seq::empty() =~= second.actions);
}

/// The messages in flight of a session, and of the clients that left, are sound.
pub open spec fn world_sound(w: WorldModel) -> bool {
    &&& w.session.persistent matches Some(ps) ==> session_laws::sound(ps)
    &&& forall|k: (UserId, Seq<char>)| #[trigger]
        w.persistents.contains_key(k) ==> session_laws::sound(w.persistents[k])
}

/// The messages in flight of all clients are sound.
pub open spec fn all_sound(h: HubModel) -> bool {
    &&& forall|addr: SocketAddr| #[trigger]
        h.sessions.contains_key(addr) ==> (h.sessions[addr].session.persistent matches Some(ps)
            ==> session_laws::sound(ps))
    &&& forall|k: (UserId, Seq<char>)| #[trigger]
        h.persistents.contains_key(k) ==> session_laws::sound(h.persistents[k])
}

/// What is taken up of sound messages in flight is sound.
proof fn lemma_taken_up_is_sound(ps: PersistentModel)
    requires
        session_laws::sound(ps),
    ensures
        session_laws::sound(
            PersistentModel { qos2_recv: session_spec::unreleased(ps.qos2_recv), ..ps },
        ),
{
    let after = session_spec::unreleased(ps.qos2_recv);
    exchange_laws::lemma_unreleased(ps.qos2_recv, 0);
    assert forall|k: u16| (#[trigger] window::get(after, k)) is Some implies (window::get(
        after,
        k,
    )->0).0.qos == QoSWithPacketIdentifier::Level2(k) by {
        exchange_laws::lemma_unreleased(ps.qos2_recv, k);
        assert(window::get(ps.qos2_recv, k) is Some);
    }
}

proof fn lemma_packet_keeps_sound(w: WorldModel, p: PacketModel, now: u64)
    requires
        world_sound(w),
    ensures
        world_sound(session_spec::on_packet(w, p, now).world),
{
    reveal(session_spec::on_packet);
    match p {
        PacketModel::Connect(c) => {
            let key = (UserId(0), c.client_identifier);
            let fresh = session_spec::fresh_persistent(UserId(0), c.client_identifier);
            assert(session_laws::sound(fresh));
            lemma_taken_up_is_sound(fresh);
            if w.persistents.contains_key(key) {
                lemma_taken_up_is_sound(w.persistents[key]);
            }
        },
        _ => {
            if let Some(ps) = w.session.persistent {
                session_laws::law_packets_keep_flights_sound(w.session, ps, p, now);
            }
        },
    }
}

proof fn lemma_packets_keep_sound(w: WorldModel, packets: Seq<(u8, Seq<u8>)>, now: u64)
    requires
        world_sound(w),
    ensures
        world_sound(session_spec::on_packets(w, packets, now).world),
    decreases packets.len(),
{
    if packets.len() > 0 {
        if let Some(p) = wire::decoded(packets[0].0, packets[0].1) {
            lemma_packet_keeps_sound(w, p, now);
            let step = session_spec::on_packet(w, p, now);
            lemma_packets_keep_sound(step.world, packets.drop_first(), now);
        }
    }
}

proof fn lemma_delivery_keeps_sound(
    s: SessionModel,
    p: PublishModel,
    q: QualityOfService,
    now: u64,
)
    requires
        s.persistent matches Some(ps) ==> session_laws::sound(ps),
    ensures
        client_session_spec::deliver(s, p, q, now).session.persistent matches Some(ps)
            ==> session_laws::sound(ps),
{
    if let Some(ps) = s.persistent {
        if let Some(pkid) = session_spec::next_pkid(ps) {
            let with_pkid = PersistentModel { pkid, ..ps };
            assert(session_laws::sound(with_pkid));
            session_laws::law_sending_keeps_flights_sound(
                session_spec::with_persistent(s, with_pkid),
                PublishModel { qos: q.with(pkid), ..p },
                now,
            );
        }
    }
}

proof fn lemma_retained_keep_sound(
    s: SessionModel,
    packets: Seq<PublishModel>,
    q: QualityOfService,
    now: u64,
)
    requires
        s.persistent matches Some(ps) ==> session_laws::sound(ps),
    ensures
        client_session_spec::deliver_retained(s, packets, q, now).session.persistent matches Some(ps)
            ==> session_laws::sound(ps),
    decreases packets.len(),
{
    if packets.len() > 0 {
        lemma_retained_keep_sound(s, packets.drop_last(), q, now);
        let before = client_session_spec::deliver_retained(s, packets.drop_last(), q, now);
        let p = packets.last();
        lemma_delivery_keeps_sound(
            before.session,
            PublishModel { retain: true, dup: false, ..p },
            p.qos.level().lower(q),
            now,
        );
    }
}

/// Law: whatever message comes, no identifier of any client is in flight twice in one direction and at
/// one level, and each message in flight stands under its own identifier and at its level.
pub proof fn law_flights_of_all_clients_stay_sound(
    h: HubModel,
    msg: ClientSessionMsgModel,
    now: u64,
)
    requires
        client_session_spec::hub_wf(h),
        all_sound(h),
    ensures
        all_sound(client_session_spec::on_msg(h, msg, now).hub),
{
    match msg {
        ClientSessionMsgModel::Data(addr, data) => {
            let conn = session_laws::connection(h, addr);
            let f = wire::frames(conn.bytes + data, conn.header);
            lemma_packets_keep_sound(session_laws::world_at(h, addr), f.packets, now);
        },
        ClientSessionMsgModel::RetainPackets(_, addr, packets, q) => {
            if h.sessions.contains_key(addr) {
                lemma_retained_keep_sound(h.sessions[addr].session, packets, q, now);
            }
        },
        ClientSessionMsgModel::Publish(user_id, client, q, p) => {
            if h.addrs.contains_key((user_id, client)) {
                let s = h.sessions[h.addrs[(user_id, client)]].session;
                lemma_delivery_keeps_sound(
                    s,
                    PublishModel { retain: false, dup: false, ..p },
                    p.qos.level().lower(q),
                    now,
                );
            }
        },
        ClientSessionMsgModel::Timeout(SessionTimerPayload::RecvPacketTimer(kind, addr, k)) => {
            if h.sessions.contains_key(addr) {
                let s = h.sessions[addr].session;
                if let Some(ps) = s.persistent {
                    if let Some(p) = window::get(ps.qos1_send, k) {
                        session_laws::law_sending_keeps_flights_sound(
                            s,
                            PublishModel { dup: true, ..p },
                            now,
                        );
                    }
                    if let Some(e) = window::get(ps.qos2_send, k) {
                        session_laws::law_sending_keeps_flights_sound(
                            s,
                            PublishModel { dup: true, ..e.0 },
                            now,
                        );
                    }
                }
            }
        },
        _ => {},
    }
}

} // verus!
