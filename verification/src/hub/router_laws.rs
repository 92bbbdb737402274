//! What holds of the router: a message reaches those who subscribed, and nobody else.
use vstd::prelude::*;

use crate::common::{ClientIdentifier, SocketAddr, UserId};
use crate::hub::client_session_spec;
use crate::hub::client_session_spec::HubModel;
use crate::hub::exchange_laws;
use crate::hub::exchange_laws::{over, to_client, Channel};
use crate::hub::hub_laws;
use crate::hub::local_router;
use crate::hub::local_router::{Clients, ClientsModel, RouterActionModel};
use crate::hub::session_spec;
use crate::hub::session_spec::{PersistentModel, WorldModel};
use crate::hub::{ClientSessionMsgModel, LocalRouterMsgModel};
use crate::qos::QualityOfService;
use crate::route;
use crate::route::RouteKeyModel;
use crate::routes;
use crate::routes::Routes;
use crate::store::global_retain;
use crate::store::global_retain::GlobalRetains;
use crate::text;
use crate::topic;
use crate::topic::TopicModel;
use crate::window;
use crate::wire;
use crate::wire::{PacketModel, PublishModel, SubscribeModel, UnsubscribeModel};

verus! {

/// The subscriptions of all clients.
pub type Subscriptions = Routes<Clients, ClientIdentifier, QualityOfService>;

/// `true` iff the client is told of the message.
pub open spec fn tells(
    actions: Seq<RouterActionModel>,
    user_id: UserId,
    client: Seq<char>,
    p: PublishModel,
) -> bool {
    exists|i: int| 0 <= i < actions.len() && #[trigger] is_told(actions[i], user_id, client, p)
}

/// `true` iff the action tells the client of the message.
pub open spec fn is_told(
    action: RouterActionModel,
    user_id: UserId,
    client: Seq<char>,
    p: PublishModel,
) -> bool {
    match action {
        RouterActionModel::Session(
            ClientSessionMsgModel::Publish(u, c, _, m),
        ) => u == user_id && c == client && m == p,
        _ => false,
    }
}

/// Law: a published message is told exactly to the clients of its user that a search for its topic
/// finds.
pub proof fn law_the_found_are_told(
    a: Subscriptions,
    user_id: UserId,
    client: Seq<char>,
    p: PublishModel,
    actions: Seq<RouterActionModel>,
)
    requires
        local_router::routed(a, a, LocalRouterMsgModel::Publish(user_id, p), actions),
    ensures
        tells(actions, user_id, client, p) <==> a.search_result(user_id, p.topic).contains_key(
            client,
        ),
{
    let clients = a.search_result(user_id, p.topic);
    let order = choose|order: Seq<Seq<char>>|
        {
            &&& order.no_duplicates()
            &&& order.to_set() == clients.dom()
            &&& actions == #[trigger] local_router::deliveries(user_id, clients, p, order)
        };
    if clients.contains_key(client) {
        assert(order.to_set().contains(client));
        let i = order.index_of(client);
        assert(order[i] == client);
        assert(is_told(actions[i], user_id, client, p));
    }
    if tells(actions, user_id, client, p) {
        let i = choose|i: int|
            0 <= i < actions.len() && #[trigger] is_told(actions[i], user_id, client, p);
        assert(order[i] == client);
        assert(order.contains(client));
        assert(order.to_set().contains(client));
    }
}

/// A client that has subscribed to a topic is among its clients.
proof fn lemma_after_subscribe(
    clients: ClientsModel,
    client: Seq<char>,
    subscribes: Seq<(Seq<char>, QualityOfService)>,
    is_it: spec_fn(TopicModel) -> bool,
    i: int,
)
    requires
        0 <= i < subscribes.len(),
        is_it(topic::topic_of(subscribes[i].0)),
    ensures
        local_router::after_subscribe(clients, client, subscribes, is_it).contains_key(client),
    decreases subscribes.len(),
{
    if i < subscribes.len() - 1 {
        lemma_after_subscribe(clients, client, subscribes.drop_last(), is_it, i);
    }
}

/// Law: a client that subscribed to a filter is told of a message that is then published under a
/// topic which the filter matches.
pub proof fn law_subscriber_is_told(
    a: Subscriptions,
    b: Subscriptions,
    user_id: UserId,
    client: Seq<char>,
    addr: SocketAddr,
    m: SubscribeModel,
    i: int,
    asked: Seq<RouterActionModel>,
    p: PublishModel,
    told: Seq<RouterActionModel>,
)
    requires
        local_router::routed(
            a,
            b,
            LocalRouterMsgModel::Subscribe(user_id, client, addr, m),
            asked,
        ),
        0 <= i < m.subscribes.len(),
        routes::topic_matches(topic::topic_of(m.subscribes[i].0), p.topic),
        local_router::routed(b, b, LocalRouterMsgModel::Publish(user_id, p), told),
    ensures
        tells(told, user_id, client, p),
{
    let t = topic::topic_of(m.subscribes[i].0);
    match t {
        TopicModel::Filter(f) => {
            let path = route::filter_path(f);
            lemma_after_subscribe(
                a.filter_peers(user_id, path),
                client,
                m.subscribes,
                local_router::is_filter(path),
                i,
            );
            assert(b.filter_peers(user_id, path).contains_key(client));
        },
        TopicModel::Name(n) => {
            lemma_after_subscribe(
                a.name_peers(user_id, n),
                client,
                m.subscribes,
                local_router::is_name(n),
                i,
            );
            assert(b.name_peers(user_id, n).contains_key(client));
        },
    }
    b.law_search_finds_the_subscribed(user_id, p.topic, client);
    law_the_found_are_told(b, user_id, client, p, told);
}

/// Law: a client whose subscriptions ended with its session is told of nothing more.
pub proof fn law_client_that_left_is_not_told(
    a: Subscriptions,
    b: Subscriptions,
    user_id: UserId,
    client: Seq<char>,
    left: Seq<RouterActionModel>,
    p: PublishModel,
    told: Seq<RouterActionModel>,
)
    requires
        a.covered(),
        local_router::routed(a, b, LocalRouterMsgModel::ClientDisconnect(user_id, client), left),
        local_router::routed(b, b, LocalRouterMsgModel::Publish(user_id, p), told),
    ensures
        !tells(told, user_id, client, p),
{
    Subscriptions::law_cleared_is_not_found(a, b, user_id, client, p.topic);
    law_the_found_are_told(b, user_id, client, p, told);
}

/// Law: a message that a client published goes on to the router as it is, and changes nothing.
pub proof fn law_message_goes_on(
    a: Subscriptions,
    b: Subscriptions,
    user_id: UserId,
    p: PublishModel,
    actions: Seq<RouterActionModel>,
)
    requires
        local_router::routed(a, b, LocalRouterMsgModel::ForwardPublish(user_id, p), actions),
    ensures
        b == a,
        actions.len() == 1,
        actions[0] == RouterActionModel::Router(LocalRouterMsgModel::Publish(user_id, p)),
{
}

/// Law: each that is told of a message is told once, of the message as it is, and with the level that a
/// search for its topic finds.
pub proof fn law_each_is_told_once(
    a: Subscriptions,
    b: Subscriptions,
    user_id: UserId,
    p: PublishModel,
    actions: Seq<RouterActionModel>,
)
    requires
        local_router::routed(a, b, LocalRouterMsgModel::Publish(user_id, p), actions),
    ensures
        b == a,
        forall|i: int|
            0 <= i < actions.len() ==> ({
                &&& #[trigger] actions[i] is Session
                &&& actions[i]->Session_0 is Publish
                &&& actions[i]->Session_0->Publish_0 == user_id
                &&& actions[i]->Session_0->Publish_3 == p
                &&& a.search_result(user_id, p.topic).contains_pair(
                    actions[i]->Session_0->Publish_1,
                    actions[i]->Session_0->Publish_2,
                )
            }),
        forall|i: int, j: int|
            0 <= i < actions.len() && 0 <= j < actions.len() && i != j ==> (
            #[trigger] actions[i])->Session_0->Publish_1 != (
            #[trigger] actions[j])->Session_0->Publish_1,
{
    let clients = a.search_result(user_id, p.topic);
    let order = choose|order: Seq<Seq<char>>|
        {
            &&& order.no_duplicates()
            &&& order.to_set() == clients.dom()
            &&& actions == #[trigger] local_router::deliveries(user_id, clients, p, order)
        };
    assert forall|i: int| 0 <= i < actions.len() implies ({
        &&& #[trigger] actions[i] is Session
        &&& actions[i]->Session_0 is Publish
        &&& actions[i]->Session_0->Publish_0 == user_id
        &&& actions[i]->Session_0->Publish_3 == p
        &&& clients.contains_pair(
            actions[i]->Session_0->Publish_1,
            actions[i]->Session_0->Publish_2,
        )
    }) by {
        assert(order.contains(order[i]));
        assert(order.to_set().contains(order[i]));
    }
    assert forall|i: int, j: int|
        0 <= i < actions.len() && 0 <= j < actions.len() && i != j implies (
    #[trigger] actions[i])->Session_0->Publish_1 != (#[trigger] actions[j])->Session_0->Publish_1 by {
        assert(actions[i]->Session_0->Publish_1 == order[i]);
        assert(actions[j]->Session_0->Publish_1 == order[j]);
    }
}

/// Law: for each filter that a client subscribes to, the retained messages of that filter are asked
/// for: in its user's name, for its address, and at the level that it gave with that filter.
pub proof fn law_retained_messages_are_asked_for(
    a: Subscriptions,
    b: Subscriptions,
    user_id: UserId,
    client: Seq<char>,
    addr: SocketAddr,
    m: SubscribeModel,
    asked: Seq<RouterActionModel>,
)
    requires
        local_router::routed(
            a,
            b,
            LocalRouterMsgModel::Subscribe(user_id, client, addr, m),
            asked,
        ),
    ensures
        asked.len() == m.subscribes.len(),
        forall|i: int|
            0 <= i < asked.len() ==> ({
                &&& #[trigger] asked[i] is Retain
                &&& asked[i]->Retain_0 is MatchAll
                &&& asked[i]->Retain_0->MatchAll_0 == user_id
                &&& asked[i]->Retain_0->MatchAll_1 == addr
                &&& asked[i]->Retain_0->MatchAll_2.text() == m.subscribes[i].0
                &&& asked[i]->Retain_0->MatchAll_3 == m.subscribes[i].1
            }),
{
}

/// Law: a retained message reaches a client that subscribes to a filter which matches its topic: with
/// its topic and its payload, marked as retained, and at the lower of its own level and the level that
/// the client gave with that filter. Where nothing goes wrong in the session, nothing keeps it back.
pub proof fn law_retained_message_reaches_the_subscriber(
    w: WorldModel,
    ps: PersistentModel,
    m: SubscribeModel,
    i: int,
    a: Subscriptions,
    b: Subscriptions,
    asked: Seq<RouterActionModel>,
    r: GlobalRetains,
    s: GlobalRetains,
    answer: Option<ClientSessionMsgModel>,
    x: PublishModel,
    h: HubModel,
    now: u64,
    later: u64,
)
    requires
        w.session.persistent == Some(ps),
        0 <= i < m.subscribes.len(),
        wire::valid_topic_filter(m.subscribes[i].0),
        ({
            let step = session_spec::on_packet(w, PacketModel::Subscribe(m), now);
            let told = over(step.actions, Channel::Router);
            &&& told.len() > 0
            &&& told[0] is Router
            &&& local_router::routed(a, b, told[0]->Router_0, asked)
        }),
        asked[i] is Retain,
        r.wf(),
        r.at(ps.user_id, text::pieces(x.topic, '/')) == Some(x),
        route::path_matches(
            route::filter_path(m.subscribes[i].0),
            text::pieces(x.topic, '/'),
        ),
        global_retain::retained(r, s, asked[i]->Retain_0, answer),
        client_session_spec::hub_wf(h),
        h.sessions.contains_key(w.session.addr),
        h.sessions[w.session.addr].session.persistent matches Some(qs) && window::distinct(
            qs.qos1_send,
        ) && window::distinct(qs.qos2_send),
    ensures
        answer is Some,
        ({
            let step = client_session_spec::on_msg(h, answer->0, later);
            step.fault is None ==> exists|n: PublishModel|
                {
                    &&& #[trigger] hub_laws::is_copy_for(n, x, m.subscribes[i].1)
                    &&& n.retain
                    &&& step.actions.contains(to_client(w.session.addr, PacketModel::Publish(n)))
                    &&& hub_laws::flies(
                        step.hub.sessions[w.session.addr].session.persistent->0,
                        n,
                    )
                }
        }),
{
    let addr = w.session.addr;
    let filter = m.subscribes[i].0;
    let q = m.subscribes[i].1;
    exchange_laws::law_subscriptions_are_granted(w, ps, m, now);
    law_retained_messages_are_asked_for(
        a,
        b,
        ps.user_id,
        ps.client_identifier,
        addr,
        m,
        asked,
    );
    let topic = asked[i]->Retain_0->MatchAll_2;
    let levels = text::pieces(filter, '/');
    reveal_strlit("#");
    assert forall|j: int| 0 <= j < levels.len() - 1 implies #[trigger] levels[j] != "#"@ by {
        if levels[j] == "#"@ {
            assert("#"@[0] == '#');
            assert(levels[j].contains('#'));
            assert(levels[j][0] != '+');
            assert(levels[j] =~= seq!['#']);
            assert(seq!['+'][0] == '+');
        }
    }
    global_retain::law_query_is_answered(r, s, ps.user_id, addr, topic, q, answer);
    assert(r.at(ps.user_id, text::pieces(x.topic, '/')) is Some);
    let packets = answer->0->RetainPackets_2;
    assert(packets.contains(x));
    hub_laws::law_retained_messages_for_a_client(h, ps.user_id, addr, packets, q, later);
    let step = client_session_spec::on_msg(h, answer->0, later);
    if step.fault is None {
        let after = step.hub.sessions[addr].session.persistent->0;
        let ms = choose|ms: Seq<PublishModel>|
            {
                &&& #[trigger] hub_laws::are_retained_copies(ms, packets, q)
                &&& over(step.actions, Channel::Clients) == hub_laws::all_to_client(addr, ms)
                &&& hub_laws::are_sent(
                    ms,
                    after,
                    over(step.actions, Channel::Timers),
                    later,
                    20,
                    addr,
                )
            };
        let j = packets.index_of(x);
        let n = ms[j];
        let sent = over(step.actions, Channel::Clients);
        assert(hub_laws::is_copy_for(n, x, q));
        assert(hub_laws::flies(after, n));
        reveal(hub_laws::message_to);
        assert(sent[j] == to_client(addr, PacketModel::Publish(n)));
        exchange_laws::lemma_contains(step.actions, to_client(addr, PacketModel::Publish(n)));
    }
}

/// The last level that a client gives for a filter is the one that is kept.
proof fn lemma_last_level(
    clients: ClientsModel,
    client: Seq<char>,
    subscribes: Seq<(Seq<char>, QualityOfService)>,
    is_it: spec_fn(TopicModel) -> bool,
    i: int,
)
    requires
        0 <= i < subscribes.len(),
        is_it(topic::topic_of(subscribes[i].0)),
        forall|j: int|
            i < j < subscribes.len() ==> !is_it(topic::topic_of((#[trigger] subscribes[j]).0)),
    ensures
        local_router::after_subscribe(clients, client, subscribes, is_it).contains_pair(
            client,
            subscribes[i].1,
        ),
    decreases subscribes.len(),
{
    if i < subscribes.len() - 1 {
        let before = subscribes.drop_last();
        assert forall|j: int| i < j < before.len() implies !is_it(
            topic::topic_of((#[trigger] before[j]).0),
        ) by {
            assert(before[j] == subscribes[j]);
        }
        lemma_last_level(clients, client, before, is_it, i);
    }
}

/// Subscribing touches no other client, and no filter that is not named.
proof fn lemma_subscribe_frame(
    clients: ClientsModel,
    client: Seq<char>,
    subscribes: Seq<(Seq<char>, QualityOfService)>,
    is_it: spec_fn(TopicModel) -> bool,
    other: Seq<char>,
)
    ensures
        ({
            let after = local_router::after_subscribe(clients, client, subscribes, is_it);
            &&& other != client ==> after.contains_key(other) == clients.contains_key(other)
                && after[other] == clients[other]
            &&& (forall|i: int|
                0 <= i < subscribes.len() ==> !is_it(
                    topic::topic_of((#[trigger] subscribes[i]).0),
                )) ==> after == clients
        }),
    decreases subscribes.len(),
{
    if subscribes.len() > 0 {
        let before = subscribes.drop_last();
        lemma_subscribe_frame(clients, client, before, is_it, other);
        if forall|i: int|
            0 <= i < subscribes.len() ==> !is_it(topic::topic_of((#[trigger] subscribes[i]).0)) {
            assert forall|i: int| 0 <= i < before.len() implies !is_it(
                topic::topic_of((#[trigger] before[i]).0),
            ) by {
                assert(before[i] == subscribes[i]);
            }
            assert(!is_it(topic::topic_of(subscribes[subscribes.len() - 1].0)));
        }
    }
}

/// Who subscribed to a topic, as a question that can be asked of a filter or a name.
pub open spec fn asks_of(t: TopicModel) -> spec_fn(TopicModel) -> bool {
    match t {
        TopicModel::Filter(f) => local_router::is_filter(route::filter_path(f)),
        TopicModel::Name(n) => local_router::is_name(n),
    }
}

/// Different topics have different levels.
proof fn lemma_asks_of(t: TopicModel, u: TopicModel)
    ensures
        asks_of(t)(u) <==> t == u,
{
    if let TopicModel::Filter(f) = t {
        if let TopicModel::Filter(g) = u {
            if route::filter_path(f) == route::filter_path(g) {
                route::lemma_filter_path_injective(f, g);
            }
        }
    }
}

/// Law: a client that subscribes has each filter that it names, at the level that it gave last with
/// that filter. What it had elsewhere, and what others have, stays as it was.
pub proof fn law_subscriptions_are_kept(
    a: Subscriptions,
    b: Subscriptions,
    user_id: UserId,
    client: Seq<char>,
    addr: SocketAddr,
    m: SubscribeModel,
    asked: Seq<RouterActionModel>,
)
    requires
        local_router::routed(
            a,
            b,
            LocalRouterMsgModel::Subscribe(user_id, client, addr, m),
            asked,
        ),
    ensures
        forall|i: int|
            0 <= i < m.subscribes.len() && (forall|j: int|
                i < j < m.subscribes.len() ==> (#[trigger] m.subscribes[j]).0 != m.subscribes[i].0)
                ==> b.subscribed(user_id, topic::topic_of((#[trigger] m.subscribes[i]).0)).contains_pair(
                client,
                m.subscribes[i].1,
            ),
        forall|u: UserId, t: TopicModel, c: Seq<char>|
            u != user_id || c != client || (forall|i: int|
                0 <= i < m.subscribes.len() ==> topic::topic_of((#[trigger] m.subscribes[i]).0) != t)
                ==> #[trigger] b.subscribed(u, t).contains_key(c) == a.subscribed(
                u,
                t,
            ).contains_key(c) && (a.subscribed(u, t).contains_key(c) ==> b.subscribed(u, t)[c]
                == a.subscribed(u, t)[c]),
{
    assert forall|i: int|
        0 <= i < m.subscribes.len() && (forall|j: int|
            i < j < m.subscribes.len() ==> (#[trigger] m.subscribes[j]).0 != m.subscribes[i].0) implies b.subscribed(
        user_id,
        topic::topic_of((#[trigger] m.subscribes[i]).0),
    ).contains_pair(client, m.subscribes[i].1) by {
        let t = topic::topic_of(m.subscribes[i].0);
        assert forall|j: int| i < j < m.subscribes.len() implies !asks_of(t)(
            topic::topic_of((#[trigger] m.subscribes[j]).0),
        ) by {
            lemma_asks_of(t, topic::topic_of(m.subscribes[j].0));
        }
        lemma_asks_of(t, t);
        lemma_last_level(a.subscribed(user_id, t), client, m.subscribes, asks_of(t), i);
    }
    assert forall|u: UserId, t: TopicModel, c: Seq<char>|
        u != user_id || c != client || (forall|i: int|
            0 <= i < m.subscribes.len() ==> topic::topic_of((#[trigger] m.subscribes[i]).0) != t) implies #[trigger] b.subscribed(
        u,
        t,
    ).contains_key(c) == a.subscribed(u, t).contains_key(c) && (a.subscribed(u, t).contains_key(c)
        ==> b.subscribed(u, t)[c] == a.subscribed(u, t)[c]) by {
        lemma_subscribe_frame(a.subscribed(u, t), client, m.subscribes, asks_of(t), c);
        assert forall|i: int|
            0 <= i < m.subscribes.len() && topic::topic_of((#[trigger] m.subscribes[i]).0)
                != t implies !asks_of(t)(topic::topic_of(m.subscribes[i].0)) by {
            lemma_asks_of(t, topic::topic_of(m.subscribes[i].0));
        }
    }
}

/// Giving up filters touches no other client, and no filter that is not named.
proof fn lemma_after_unsubscribe(
    clients: ClientsModel,
    client: Seq<char>,
    filters: Seq<Seq<char>>,
    is_it: spec_fn(TopicModel) -> bool,
    other: Seq<char>,
)
    ensures
        ({
            let after = local_router::after_unsubscribe(clients, client, filters, is_it);
            let named = exists|i: int|
                0 <= i < filters.len() && is_it(topic::topic_of(#[trigger] filters[i]));
            &&& named ==> !after.contains_key(client)
            &&& !named ==> after == clients
            &&& other != client ==> after.contains_key(other) == clients.contains_key(other)
                && after[other] == clients[other]
            &&& after.contains_key(other) ==> clients.contains_key(other)
        }),
    decreases filters.len(),
{
    if filters.len() > 0 {
        let before = filters.drop_last();
        lemma_after_unsubscribe(clients, client, before, is_it, other);
        if exists|i: int| 0 <= i < filters.len() && is_it(topic::topic_of(#[trigger] filters[i])) {
            let i = choose|i: int|
                0 <= i < filters.len() && is_it(topic::topic_of(#[trigger] filters[i]));
            if i < before.len() {
                assert(is_it(topic::topic_of(before[i])));
            }
        } else {
            assert(!is_it(topic::topic_of(filters[filters.len() - 1])));
            if exists|i: int| 0 <= i < before.len() && is_it(topic::topic_of(#[trigger] before[i])) {
                let i = choose|i: int|
                    0 <= i < before.len() && is_it(topic::topic_of(#[trigger] before[i]));
                assert(is_it(topic::topic_of(filters[i])));
            }
        }
    }
}

/// Law: a client that gives up filters has none of those that it names, wherever in its list they
/// stand. What it has elsewhere, and what others have, stays as it was. Nobody is told.
pub proof fn law_subscriptions_are_given_up(
    a: Subscriptions,
    b: Subscriptions,
    user_id: UserId,
    client: Seq<char>,
    m: UnsubscribeModel,
    actions: Seq<RouterActionModel>,
)
    requires
        local_router::routed(
            a,
            b,
            LocalRouterMsgModel::Unsubscribe(user_id, client, m),
            actions,
        ),
    ensures
        actions.len() == 0,
        forall|i: int|
            0 <= i < m.filters.len() ==> !b.subscribed(
                user_id,
                topic::topic_of(#[trigger] m.filters[i]),
            ).contains_key(client),
        forall|u: UserId, t: TopicModel, c: Seq<char>|
            u != user_id || c != client || (forall|i: int|
                0 <= i < m.filters.len() ==> topic::topic_of(#[trigger] m.filters[i]) != t)
                ==> #[trigger] b.subscribed(u, t).contains_key(c) == a.subscribed(
                u,
                t,
            ).contains_key(c) && (a.subscribed(u, t).contains_key(c) ==> b.subscribed(u, t)[c]
                == a.subscribed(u, t)[c]),
{
    assert forall|i: int| 0 <= i < m.filters.len() implies !b.subscribed(
        user_id,
        topic::topic_of(#[trigger] m.filters[i]),
    ).contains_key(client) by {
        let t = topic::topic_of(m.filters[i]);
        lemma_asks_of(t, t);
        lemma_after_unsubscribe(
            a.subscribed(user_id, t),
            client,
            m.filters,
            asks_of(t),
            client,
        );
    }
    assert forall|u: UserId, t: TopicModel, c: Seq<char>|
        u != user_id || c != client || (forall|i: int|
            0 <= i < m.filters.len() ==> topic::topic_of(#[trigger] m.filters[i]) != t) implies #[trigger] b.subscribed(
        u,
        t,
    ).contains_key(c) == a.subscribed(u, t).contains_key(c) && (a.subscribed(u, t).contains_key(c)
        ==> b.subscribed(u, t)[c] == a.subscribed(u, t)[c]) by {
        lemma_after_unsubscribe(a.subscribed(u, t), client, m.filters, asks_of(t), c);
        assert forall|i: int|
            0 <= i < m.filters.len() && topic::topic_of(#[trigger] m.filters[i]) != t implies !asks_of(
            t,
        )(topic::topic_of(m.filters[i])) by {
            lemma_asks_of(t, topic::topic_of(m.filters[i]));
        }
    }
}

/// Law: a client that has given up every filter by which a message would reach it is not told of the
/// message.
pub proof fn law_given_up_is_not_told(
    a: Subscriptions,
    b: Subscriptions,
    user_id: UserId,
    client: Seq<char>,
    m: UnsubscribeModel,
    actions: Seq<RouterActionModel>,
    p: PublishModel,
    told: Seq<RouterActionModel>,
)
    requires
        local_router::routed(
            a,
            b,
            LocalRouterMsgModel::Unsubscribe(user_id, client, m),
            actions,
        ),
        local_router::routed(b, b, LocalRouterMsgModel::Publish(user_id, p), told),
        a.name_peers(user_id, p.topic).contains_key(client) ==> exists|i: int|
            0 <= i < m.filters.len() && topic::topic_of(#[trigger] m.filters[i])
                == TopicModel::Name(p.topic),
        forall|path: Seq<RouteKeyModel>|
            route::path_matches(path, text::pieces(p.topic, '/')) && (#[trigger] a.filter_peers(
                user_id,
                path,
            )).contains_key(client) ==> exists|i: int|
                0 <= i < m.filters.len() && routes::is_path_of(
                    topic::topic_of(#[trigger] m.filters[i]),
                    path,
                ),
    ensures
        !tells(told, user_id, client, p),
{
    b.law_search_finds_the_subscribed(user_id, p.topic, client);
    law_the_found_are_told(b, user_id, client, p, told);
    lemma_after_unsubscribe(
        a.name_peers(user_id, p.topic),
        client,
        m.filters,
        local_router::is_name(p.topic),
        client,
    );
    assert(b.name_peers(user_id, p.topic) == b.name_peers(user_id, p.topic));
    assert(!b.name_peers(user_id, p.topic).contains_key(client)) by {
        if a.name_peers(user_id, p.topic).contains_key(client) {
            let i = choose|i: int|
                0 <= i < m.filters.len() && topic::topic_of(#[trigger] m.filters[i])
                    == TopicModel::Name(p.topic);
            assert(local_router::is_name(p.topic)(topic::topic_of(m.filters[i])));
        }
    }
    assert forall|path: Seq<RouteKeyModel>|
        route::path_matches(path, text::pieces(p.topic, '/')) implies !(#[trigger] b.filter_peers(
        user_id,
        path,
    )).contains_key(client) by {
        lemma_after_unsubscribe(
            a.filter_peers(user_id, path),
            client,
            m.filters,
            local_router::is_filter(path),
            client,
        );
        if a.filter_peers(user_id, path).contains_key(client) {
            let i = choose|i: int|
                0 <= i < m.filters.len() && routes::is_path_of(
                    topic::topic_of(#[trigger] m.filters[i]),
                    path,
                );
            assert(local_router::is_filter(path)(topic::topic_of(m.filters[i])));
        }
    }
}

/// `true` iff the client is told of the message with the level.
pub open spec fn tells_at(
    actions: Seq<RouterActionModel>,
    user_id: UserId,
    client: Seq<char>,
    q: QualityOfService,
    p: PublishModel,
) -> bool {
    actions.contains(
        RouterActionModel::Session(ClientSessionMsgModel::Publish(user_id, client, q, p)),
    )
}

/// Law: a client that subscribed to a filter which matches is told of the message with the level of
/// that subscription; where several match, with that of the first of them.
pub proof fn law_told_with_the_level_of_the_filter(
    a: Subscriptions,
    user_id: UserId,
    client: Seq<char>,
    path: Seq<RouteKeyModel>,
    p: PublishModel,
    told: Seq<RouterActionModel>,
)
    requires
        local_router::routed(a, a, LocalRouterMsgModel::Publish(user_id, p), told),
        route::path_matches(path, text::pieces(p.topic, '/')),
        a.filter_peers(user_id, path).contains_key(client),
        forall|q: Seq<RouteKeyModel>|
            route::path_matches(q, text::pieces(p.topic, '/')) && q != path && (
            #[trigger] a.filter_peers(user_id, q)).contains_key(client) ==> route::goes_before(
                path,
                q,
            ),
    ensures
        tells_at(told, user_id, client, a.filter_peers(user_id, path)[client], p),
{
    let at = a.filter_table(user_id);
    let tokens = text::pieces(p.topic, '/');
    assert forall|q: Seq<RouteKeyModel>|
        route::path_matches(q, tokens) && q != path && (#[trigger] at(q)).contains_key(
            client,
        ) implies route::goes_before(path, q) by {
        assert(a.filter_peers(user_id, q).contains_key(client));
    }
    route::law_search_gives_what_the_first_keeps(at, tokens, client, path);
    lemma_told_as_found(a, user_id, client, p, told);
}

/// Law: a client that subscribed to the topic by its name, and to no filter which matches, is told of
/// the message with the level of that subscription.
pub proof fn law_told_with_the_level_of_the_name(
    a: Subscriptions,
    user_id: UserId,
    client: Seq<char>,
    p: PublishModel,
    told: Seq<RouterActionModel>,
)
    requires
        local_router::routed(a, a, LocalRouterMsgModel::Publish(user_id, p), told),
        a.name_peers(user_id, p.topic).contains_key(client),
        forall|q: Seq<RouteKeyModel>|
            route::path_matches(q, text::pieces(p.topic, '/')) ==> !(#[trigger] a.filter_peers(
                user_id,
                q,
            )).contains_key(client),
    ensures
        tells_at(told, user_id, client, a.name_peers(user_id, p.topic)[client], p),
{
    let at = a.filter_table(user_id);
    let tokens = text::pieces(p.topic, '/');
    route::law_search_finds_the_matching_filters(at, tokens, client);
    if route::found(at, Seq::empty(), tokens).contains_key(client) {
        let q = choose|q: Seq<RouteKeyModel>|
            route::path_matches(q, tokens) && (#[trigger] at(q)).contains_key(client);
        assert(a.filter_peers(user_id, q).contains_key(client));
    }
    lemma_told_as_found(a, user_id, client, p, told);
}

/// Who is found is told, with the level that is found.
proof fn lemma_told_as_found(
    a: Subscriptions,
    user_id: UserId,
    client: Seq<char>,
    p: PublishModel,
    told: Seq<RouterActionModel>,
)
    requires
        local_router::routed(a, a, LocalRouterMsgModel::Publish(user_id, p), told),
        a.search_result(user_id, p.topic).contains_key(client),
    ensures
        tells_at(told, user_id, client, a.search_result(user_id, p.topic)[client], p),
{
    law_the_found_are_told(a, user_id, client, p, told);
    law_each_is_told_once(a, a, user_id, p, told);
    let i = choose|i: int|
        0 <= i < told.len() && #[trigger] is_told(told[i], user_id, client, p);
    assert(told[i] == RouterActionModel::Session(
        ClientSessionMsgModel::Publish(
            user_id,
            client,
            a.search_result(user_id, p.topic)[client],
            p,
        ),
    ));
}

/// What is on record after subscribing is what was, and what was named.
proof fn lemma_recorded(
    topics: Set<TopicModel>,
    subscribes: Seq<(Seq<char>, QualityOfService)>,
    t: TopicModel,
)
    ensures
        local_router::record_after_subscribe(topics, subscribes).contains(t) <==> topics.contains(t)
            || exists|i: int|
            0 <= i < subscribes.len() && topic::topic_of((#[trigger] subscribes[i]).0) == t,
    decreases subscribes.len(),
{
    if subscribes.len() > 0 {
        let before = subscribes.drop_last();
        lemma_recorded(topics, before, t);
        if exists|i: int| 0 <= i < before.len() && topic::topic_of((#[trigger] before[i]).0) == t {
            let i = choose|i: int|
                0 <= i < before.len() && topic::topic_of((#[trigger] before[i]).0) == t;
            assert(topic::topic_of(subscribes[i].0) == t);
        }
        if exists|i: int|
            0 <= i < subscribes.len() && topic::topic_of((#[trigger] subscribes[i]).0) == t {
            let i = choose|i: int|
                0 <= i < subscribes.len() && topic::topic_of((#[trigger] subscribes[i]).0) == t;
            if i < before.len() {
                assert(topic::topic_of(before[i].0) == t);
            }
        }
        if topic::topic_of(subscribes.last().0) == t {
            assert(topic::topic_of(subscribes[subscribes.len() - 1].0) == t);
        }
    }
}

/// What is on record after giving up filters is what was, without what was named.
proof fn lemma_unrecorded(topics: Set<TopicModel>, filters: Seq<Seq<char>>, t: TopicModel)
    ensures
        local_router::record_after_unsubscribe(topics, filters).contains(t) <==> topics.contains(t)
            && forall|i: int|
            0 <= i < filters.len() ==> topic::topic_of(#[trigger] filters[i]) != t,
    decreases filters.len(),
{
    if filters.len() > 0 {
        let before = filters.drop_last();
        lemma_unrecorded(topics, before, t);
        if forall|i: int| 0 <= i < before.len() ==> topic::topic_of(#[trigger] before[i]) != t {
            if topic::topic_of(filters.last()) != t {
                assert forall|i: int| 0 <= i < filters.len() implies topic::topic_of(
                    #[trigger] filters[i],
                ) != t by {
                    if i < before.len() {
                        assert(topic::topic_of(before[i]) != t);
                    }
                }
            } else {
                assert(topic::topic_of(filters[filters.len() - 1]) == t);
            }
        } else {
            let i = choose|i: int|
                0 <= i < before.len() && topic::topic_of(#[trigger] before[i]) == t;
            assert(topic::topic_of(filters[i]) == t);
        }
    }
}

/// Who has a filter after subscribing had it or named it.
proof fn lemma_has_after_subscribe(
    clients: ClientsModel,
    client: Seq<char>,
    subscribes: Seq<(Seq<char>, QualityOfService)>,
    is_it: spec_fn(TopicModel) -> bool,
    c: Seq<char>,
)
    requires
        local_router::after_subscribe(clients, client, subscribes, is_it).contains_key(c),
    ensures
        clients.contains_key(c) || c == client && exists|i: int|
            0 <= i < subscribes.len() && is_it(topic::topic_of((#[trigger] subscribes[i]).0)),
    decreases subscribes.len(),
{
    if subscribes.len() > 0 {
        let before = subscribes.drop_last();
        if local_router::after_subscribe(clients, client, before, is_it).contains_key(c) {
            lemma_has_after_subscribe(clients, client, before, is_it, c);
            if !clients.contains_key(c) {
                let i = choose|i: int|
                    0 <= i < before.len() && is_it(topic::topic_of((#[trigger] before[i]).0));
                assert(is_it(topic::topic_of(subscribes[i].0)));
            }
        } else {
            assert(is_it(topic::topic_of(subscribes[subscribes.len() - 1].0)));
        }
    }
}

/// Law: whatever the router is told, every subscription is on its client's record, so that all of
/// them end when the client leaves.
pub proof fn law_subscriptions_are_on_record(
    a: Subscriptions,
    b: Subscriptions,
    msg: LocalRouterMsgModel,
    actions: Seq<RouterActionModel>,
)
    requires
        a.covered(),
        local_router::routed(a, b, msg, actions),
    ensures
        b.covered(),
{
    match msg {
        LocalRouterMsgModel::Subscribe(user_id, client, addr, m) => {
            assert forall|u: UserId, p: Seq<RouteKeyModel>, k: Seq<char>| #[trigger]
                b.filter_peers(u, p).contains_key(k) implies routes::has_path(
                b.topics_of(u, k),
                p,
            ) by {
                lemma_covered_subscribe(a, b, user_id, client, addr, m, actions, u, p, k);
            }
            assert forall|u: UserId, n: Seq<char>, k: Seq<char>| #[trigger]
                b.name_peers(u, n).contains_key(k) implies b.topics_of(u, k).contains(
                TopicModel::Name(n),
            ) by {
                let t = TopicModel::Name(n);
                lemma_recorded(a.topics_of(user_id, client), m.subscribes, t);
                if u == user_id {
                    lemma_has_after_subscribe(
                        a.name_peers(u, n),
                        client,
                        m.subscribes,
                        local_router::is_name(n),
                        k,
                    );
                    if !a.name_peers(u, n).contains_key(k) {
                        let i = choose|i: int|
                            0 <= i < m.subscribes.len() && local_router::is_name(n)(
                                topic::topic_of((#[trigger] m.subscribes[i]).0),
                            );
                        assert(topic::topic_of(m.subscribes[i].0) == t);
                    }
                }
            }
        },
        LocalRouterMsgModel::Unsubscribe(user_id, client, m) => {
            assert forall|u: UserId, p: Seq<RouteKeyModel>, k: Seq<char>| #[trigger]
                b.filter_peers(u, p).contains_key(k) implies routes::has_path(
                b.topics_of(u, k),
                p,
            ) by {
                lemma_covered_unsubscribe(a, b, user_id, client, m, actions, u, p, k);
            }
            assert forall|u: UserId, n: Seq<char>, k: Seq<char>| #[trigger]
                b.name_peers(u, n).contains_key(k) implies b.topics_of(u, k).contains(
                TopicModel::Name(n),
            ) by {
                let t = TopicModel::Name(n);
                lemma_unrecorded(a.topics_of(user_id, client), m.filters, t);
                if u == user_id {
                    lemma_after_unsubscribe(
                        a.name_peers(u, n),
                        client,
                        m.filters,
                        local_router::is_name(n),
                        k,
                    );
                    assert(a.name_peers(u, n).contains_key(k));
                    if k == client {
                        assert forall|i: int| 0 <= i < m.filters.len() implies topic::topic_of(
                            #[trigger] m.filters[i],
                        ) != t by {
                            assert(!local_router::is_name(n)(topic::topic_of(m.filters[i])));
                        }
                    }
                }
            }
        },
        LocalRouterMsgModel::ClientDisconnect(user_id, client) => {
            Subscriptions::law_cleared_is_not_found(a, b, user_id, client, Seq::empty());
        },
        _ => {},
    }
}

proof fn lemma_covered_subscribe(
    a: Subscriptions,
    b: Subscriptions,
    user_id: UserId,
    client: Seq<char>,
    addr: SocketAddr,
    m: SubscribeModel,
    actions: Seq<RouterActionModel>,
    u: UserId,
    p: Seq<RouteKeyModel>,
    k: Seq<char>,
)
    requires
        a.covered(),
        local_router::routed(
            a,
            b,
            LocalRouterMsgModel::Subscribe(user_id, client, addr, m),
            actions,
        ),
        b.filter_peers(u, p).contains_key(k),
    ensures
        routes::has_path(b.topics_of(u, k), p),
{
    if u == user_id {
        lemma_has_after_subscribe(
            a.filter_peers(u, p),
            client,
            m.subscribes,
            local_router::is_filter(p),
            k,
        );
    }
    if a.filter_peers(u, p).contains_key(k) {
        assert(routes::has_path(a.topics_of(u, k), p));
        let t = choose|t: TopicModel| #[trigger]
            a.topics_of(u, k).contains(t) && routes::is_path_of(t, p);
        lemma_recorded(a.topics_of(user_id, client), m.subscribes, t);
        assert(b.topics_of(u, k).contains(t));
    } else {
        let i = choose|i: int|
            0 <= i < m.subscribes.len() && local_router::is_filter(p)(
                topic::topic_of((#[trigger] m.subscribes[i]).0),
            );
        let t = topic::topic_of(m.subscribes[i].0);
        lemma_recorded(a.topics_of(user_id, client), m.subscribes, t);
        assert(b.topics_of(u, k).contains(t) && routes::is_path_of(t, p));
    }
}

proof fn lemma_covered_unsubscribe(
    a: Subscriptions,
    b: Subscriptions,
    user_id: UserId,
    client: Seq<char>,
    m: UnsubscribeModel,
    actions: Seq<RouterActionModel>,
    u: UserId,
    p: Seq<RouteKeyModel>,
    k: Seq<char>,
)
    requires
        a.covered(),
        local_router::routed(
            a,
            b,
            LocalRouterMsgModel::Unsubscribe(user_id, client, m),
            actions,
        ),
        b.filter_peers(u, p).contains_key(k),
    ensures
        routes::has_path(b.topics_of(u, k), p),
{
    if u == user_id {
        lemma_after_unsubscribe(
            a.filter_peers(u, p),
            client,
            m.filters,
            local_router::is_filter(p),
            k,
        );
    }
    assert(a.filter_peers(u, p).contains_key(k));
    assert(routes::has_path(a.topics_of(u, k), p));
    let t = choose|t: TopicModel| #[trigger]
        a.topics_of(u, k).contains(t) && routes::is_path_of(t, p);
    lemma_unrecorded(a.topics_of(user_id, client), m.filters, t);
    if u == user_id && k == client {
        assert forall|i: int| 0 <= i < m.filters.len() implies topic::topic_of(
            #[trigger] m.filters[i],
        ) != t by {
            assert(!local_router::is_filter(p)(topic::topic_of(m.filters[i])));
        }
    }
    assert(b.topics_of(u, k).contains(t));
}

/// Law: a client that leaves has no subscription left, and no other client loses one.
pub proof fn law_leaving_ends_its_own_subscriptions(
    a: Subscriptions,
    b: Subscriptions,
    user_id: UserId,
    client: Seq<char>,
    actions: Seq<RouterActionModel>,
)
    requires
        a.covered(),
        local_router::routed(
            a,
            b,
            LocalRouterMsgModel::ClientDisconnect(user_id, client),
            actions,
        ),
    ensures
        actions.len() == 0,
        forall|t: TopicModel| !#[trigger] b.subscribed(user_id, t).contains_key(client),
        forall|u: UserId, t: TopicModel, c: Seq<char>|
            u != user_id || c != client ==> #[trigger] b.subscribed(u, t).contains_key(c)
                == a.subscribed(u, t).contains_key(c) && (a.subscribed(u, t).contains_key(c)
                ==> b.subscribed(u, t)[c] == a.subscribed(u, t)[c]),
{
    assert forall|t: TopicModel| !#[trigger] b.subscribed(user_id, t).contains_key(client) by {
        match t {
            TopicModel::Filter(f) => {
                let path = route::filter_path(f);
                if a.filter_peers(user_id, path).contains_key(client) {
                    assert(routes::has_path(a.topics_of(user_id, client), path));
                }
            },
            TopicModel::Name(n) => {
                if a.name_peers(user_id, n).contains_key(client) {
                    assert(a.topics_of(user_id, client).contains(TopicModel::Name(n)));
                }
            },
        }
    }
}

} // verus!
