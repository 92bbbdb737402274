//! The hub's router: which of its clients get a message.
use vstd::prelude::*;

use crate::assoc::{AssocMap, Ident};
use crate::common::{ClientIdentifier, SocketAddr, UserId};
use crate::hub::{ClientSessionMsg, ClientSessionMsgModel, LocalRouterMsg, LocalRouterMsgModel};
use crate::packet::{PublishPacket, SubscribePacket, UnsubscribePacket};
use crate::peers::{PeerMap, Peers};
use crate::qos::QualityOfService;
use crate::route;
use crate::route::{RouteKeyModel, RouteNode};
use crate::routes;
use crate::routes::Routes;
use crate::store::{GlobalRetainMsg, GlobalRetainMsgModel};
use crate::text;
use crate::topic;
use crate::topic::{Topic, TopicFilter, TopicModel, TopicName};
use crate::wire::{PublishModel, SubscribeModel, UnsubscribeModel};

verus! {

/// Clients with the levels of their subscriptions.
pub type Clients = PeerMap<ClientIdentifier, QualityOfService>;

/// Clients with the levels of their subscriptions, as mathematics.
pub type ClientsModel = Map<Seq<char>, QualityOfService>;

/// A routing tree of clients.
pub struct LocalRouteNode {
    node: RouteNode<Clients, ClientIdentifier, QualityOfService>,
}

impl LocalRouteNode {
    pub closed spec fn wf(&self) -> bool {
        self.node.wf()
    }

    /// The clients of the filter with the levels `path`.
    pub closed spec fn at(&self, path: Seq<RouteKeyModel>) -> ClientsModel {
        self.node.at(path)
    }

    pub fn new() -> (r: LocalRouteNode)
        ensures
            r.wf(),
            forall|p: Seq<RouteKeyModel>| #[trigger] r.at(p) == ClientsModel::empty(),
    {
        LocalRouteNode { node: RouteNode::new() }
    }

    /// Subscribes a client to a filter; `true` iff it was not subscribed to it.
    pub fn insert(
        &mut self,
        tf: &TopicFilter,
        client_identifier: &ClientIdentifier,
        qos: QualityOfService,
    ) -> (r: bool)
        requires
            old(self).wf(),
        ensures
            final(self).wf(),
            forall|p: Seq<RouteKeyModel>| #[trigger]
                final(self).at(p) == (if p == route::filter_path(tf@) {
                    old(self).at(p).insert(client_identifier@, qos)
                } else {
                    old(self).at(p)
                }),
            r == !old(self).at(route::filter_path(tf@)).contains_key(client_identifier@),
    {
        let ghost before = *self;
        let replaced = self.node.insert(tf, (client_identifier.copy(), qos));
        assert(forall|p: Seq<RouteKeyModel>| #[trigger] self.at(p) == self.node.at(p));
        assert(forall|p: Seq<RouteKeyModel>| #[trigger] before.at(p) == before.node.at(p));
        !replaced
    }

    /// `true` iff no client is subscribed to any filter.
    pub fn is_empty(&self) -> (r: bool)
        requires
            self.wf(),
        ensures
            r <==> forall|p: Seq<RouteKeyModel>| #[trigger] self.at(p) == ClientsModel::empty(),
    {
        proof {
            self.node.law_empty_iff_no_peers();
            assert(forall|p: Seq<RouteKeyModel>| #[trigger] self.at(p) == self.node.at(p));
            assert(forall|p: Seq<RouteKeyModel>| #[trigger] self.node.at(p) == self.at(p));
        }
        self.node.is_empty()
    }

    /// Ends a client's subscription to a filter; `true` iff it was subscribed to it.
    pub fn remove(&mut self, tf: &TopicFilter, client_identifier: &ClientIdentifier) -> (r: bool)
        requires
            old(self).wf(),
        ensures
            final(self).wf(),
            forall|p: Seq<RouteKeyModel>| #[trigger]
                final(self).at(p) == (if p == route::filter_path(tf@) {
                    old(self).at(p).remove(client_identifier@)
                } else {
                    old(self).at(p)
                }),
            r == old(self).at(route::filter_path(tf@)).contains_key(client_identifier@),
    {
        let ghost before = *self;
        let removed = self.node.remove(tf, client_identifier);
        assert(forall|p: Seq<RouteKeyModel>| #[trigger] self.at(p) == self.node.at(p));
        assert(forall|p: Seq<RouteKeyModel>| #[trigger] before.at(p) == before.node.at(p));
        removed
    }

    /// What the node keeps, by filter.
    pub open spec fn table(&self) -> spec_fn(Seq<RouteKeyModel>) -> ClientsModel {
        |path: Seq<RouteKeyModel>| self.at(path)
    }

    /// The clients of all filters that match a topic name.
    pub fn search(&self, name: &TopicName) -> (r: AssocMap<ClientIdentifier, QualityOfService>)
        requires
            self.wf(),
        ensures
            r@ == route::found(self.table(), Seq::empty(), text::pieces(name@, '/')),
    {
        proof {
            let empty = Seq::<RouteKeyModel>::empty();
            assert forall|p: Seq<RouteKeyModel>|
                self.node.table()(#[trigger] (empty + p)) == self.table()(empty + p) by {
                assert(self.at(empty + p) == self.node.at(empty + p));
            }
            route::lemma_found_shift(
                self.node.table(),
                empty,
                self.table(),
                empty,
                text::pieces(name@, '/'),
            );
        }
        self.node.search(name).inner
    }
}

/// The subscriptions of all clients of the hub.
pub struct LocalRoutes {
    pub routes: Routes<Clients, ClientIdentifier, QualityOfService>,
}

impl LocalRoutes {
    /// The subscriptions are sound, and each is on its client's record.
    pub open spec fn wf(&self) -> bool {
        self.routes.wf() && self.routes.covered()
    }

    pub fn new() -> (r: LocalRoutes)
        ensures
            r.wf(),
            forall|u: UserId, p: Seq<RouteKeyModel>| #[trigger]
                r.routes.filter_peers(u, p) == ClientsModel::empty(),
            forall|u: UserId, n: Seq<char>| #[trigger]
                r.routes.name_peers(u, n) == ClientsModel::empty(),
            forall|u: UserId, k: Seq<char>| #[trigger]
                r.routes.topics_of(u, k) == Set::<TopicModel>::empty(),
    {
        LocalRoutes { routes: Routes::new() }
    }

    /// Subscribes a client to a topic; `true` iff it was not subscribed to it.
    pub fn insert_topic(
        &mut self,
        user_id: UserId,
        topic: &Topic,
        client_identifier: &ClientIdentifier,
        qos: QualityOfService,
    ) -> (r: bool)
        requires
            old(self).wf(),
        ensures
            final(self).wf(),
            Routes::peer_inserted(
                old(self).routes,
                final(self).routes,
                user_id,
                topic@,
                client_identifier@,
                qos,
            ),
            Routes::record_changed(
                old(self).routes,
                final(self).routes,
                user_id,
                client_identifier@,
                old(self).routes.topics_of(user_id, client_identifier@).insert(topic@),
            ),
            r == !old(self).routes.subscribed(user_id, topic@).contains_key(client_identifier@),
    {
        let ghost before = self.routes;
        let replaced = self.routes.insert_topic(
            user_id,
            topic,
            client_identifier,
            (client_identifier.copy(), qos),
        );
        proof {
            Routes::law_insert_keeps_covered(
                before,
                self.routes,
                user_id,
                topic@,
                client_identifier@,
                qos,
            );
        }
        !replaced
    }

    /// Ends a client's subscription to a topic.
    pub fn remove_topic(
        &mut self,
        user_id: UserId,
        topic: &Topic,
        client_identifier: &ClientIdentifier,
    )
        requires
            old(self).wf(),
        ensures
            final(self).wf(),
            Routes::peer_removed(
                old(self).routes,
                final(self).routes,
                user_id,
                topic@,
                client_identifier@,
            ),
            Routes::record_changed(
                old(self).routes,
                final(self).routes,
                user_id,
                client_identifier@,
                old(self).routes.topics_of(user_id, client_identifier@).remove(topic@),
            ),
    {
        let ghost before = self.routes;
        self.routes.remove_topic(user_id, topic, client_identifier);
        proof {
            Routes::law_remove_keeps_covered(
                before,
                self.routes,
                user_id,
                topic@,
                client_identifier@,
            );
        }
    }

    /// Ends all subscriptions of a client, and returns how many there were.
    pub fn remove_all_topics(
        &mut self,
        user_id: UserId,
        client_identifier: &ClientIdentifier,
    ) -> (r: usize)
        requires
            old(self).wf(),
        ensures
            final(self).wf(),
            Routes::peer_cleared(
                old(self).routes,
                final(self).routes,
                user_id,
                client_identifier@,
            ),
            Routes::record_changed(
                old(self).routes,
                final(self).routes,
                user_id,
                client_identifier@,
                Set::empty(),
            ),
            r == old(self).routes.topics_of(user_id, client_identifier@).filter(
                |t: TopicModel|
                    old(self).routes.subscribed(user_id, t).contains_key(client_identifier@),
            ).len(),
    {
        let ghost before = self.routes;
        let removed_count: usize = self.routes.remove_all_topics(user_id, client_identifier);
        proof {
            Routes::law_cleared_is_not_found(
                before,
                self.routes,
                user_id,
                client_identifier@,
                Seq::empty(),
            );
        }
        removed_count
    }

    /// The clients that subscribed to a topic, by its name or by a filter that matches it.
    pub fn search(&self, user_id: UserId, topic_name: &TopicName) -> (r: AssocMap<
        ClientIdentifier,
        QualityOfService,
    >)
        requires
            self.wf(),
        ensures
            r@ == self.routes.search_result(user_id, topic_name@),
    {
        self.routes.search(user_id, topic_name).inner
    }
}

/// A message that the router sends.
pub enum RouterAction {
    Router(LocalRouterMsg),
    Session(ClientSessionMsg),
    Retain(GlobalRetainMsg),
}

#[verifier::ext_equal]
pub enum RouterActionModel {
    Router(LocalRouterMsgModel),
    Session(ClientSessionMsgModel),
    Retain(GlobalRetainMsgModel),
}

impl View for RouterAction {
    type V = RouterActionModel;

    open spec fn view(&self) -> RouterActionModel {
        match self {
            RouterAction::Router(msg) => RouterActionModel::Router(msg@),
            RouterAction::Session(msg) => RouterActionModel::Session(msg@),
            RouterAction::Retain(msg) => RouterActionModel::Retain(msg@),
        }
    }
}

/// The views of a list of messages.
pub open spec fn action_views(s: Seq<RouterAction>) -> Seq<RouterActionModel> {
    s.map_values(|a: RouterAction| a@)
}

/// The message `p` for a client.
pub open spec fn delivery(
    user_id: UserId,
    clients: ClientsModel,
    p: PublishModel,
    client: Seq<char>,
) -> RouterActionModel {
    RouterActionModel::Session(
        ClientSessionMsgModel::Publish(user_id, client, clients[client], p),
    )
}

/// The message `p` for clients, in order.
pub open spec fn deliveries(
    user_id: UserId,
    clients: ClientsModel,
    p: PublishModel,
    order: Seq<Seq<char>>,
) -> Seq<RouterActionModel> {
    order.map_values(|c: Seq<char>| delivery(user_id, clients, p, c))
}

/// The message `p` goes once to each of the clients, in some order.
pub open spec fn delivers(
    actions: Seq<RouterActionModel>,
    user_id: UserId,
    clients: ClientsModel,
    p: PublishModel,
) -> bool {
    exists|order: Seq<Seq<char>>|
        {
            &&& order.no_duplicates()
            &&& order.to_set() == clients.dom()
            &&& actions == #[trigger] deliveries(user_id, clients, p, order)
        }
}

/// What the clients of one filter or name are after a client has subscribed to filters with
/// levels, one after the other. `is_it` says which filters count.
pub open spec fn after_subscribe(
    clients: ClientsModel,
    client: Seq<char>,
    subscribes: Seq<(Seq<char>, QualityOfService)>,
    is_it: spec_fn(TopicModel) -> bool,
) -> ClientsModel
    decreases subscribes.len(),
{
    if subscribes.len() == 0 {
        clients
    } else {
        let before = after_subscribe(clients, client, subscribes.drop_last(), is_it);
        if is_it(topic::topic_of(subscribes.last().0)) {
            before.insert(client, subscribes.last().1)
        } else {
            before
        }
    }
}

/// What the clients of one filter or name are after a client has left filters, one after the other.
pub open spec fn after_unsubscribe(
    clients: ClientsModel,
    client: Seq<char>,
    filters: Seq<Seq<char>>,
    is_it: spec_fn(TopicModel) -> bool,
) -> ClientsModel
    decreases filters.len(),
{
    if filters.len() == 0 {
        clients
    } else {
        let before = after_unsubscribe(clients, client, filters.drop_last(), is_it);
        if is_it(topic::topic_of(filters.last())) {
            before.remove(client)
        } else {
            before
        }
    }
}

/// What is on a client's record after it has subscribed to filters.
pub open spec fn record_after_subscribe(
    topics: Set<TopicModel>,
    subscribes: Seq<(Seq<char>, QualityOfService)>,
) -> Set<TopicModel>
    decreases subscribes.len(),
{
    if subscribes.len() == 0 {
        topics
    } else {
        record_after_subscribe(topics, subscribes.drop_last()).insert(
            topic::topic_of(subscribes.last().0),
        )
    }
}

/// What is on a client's record after it has left filters.
pub open spec fn record_after_unsubscribe(
    topics: Set<TopicModel>,
    filters: Seq<Seq<char>>,
) -> Set<TopicModel>
    decreases filters.len(),
{
    if filters.len() == 0 {
        topics
    } else {
        record_after_unsubscribe(topics, filters.drop_last()).remove(
            topic::topic_of(filters.last()),
        )
    }
}

/// The topics that are the filter with the levels `path`.
pub open spec fn is_filter(path: Seq<RouteKeyModel>) -> spec_fn(TopicModel) -> bool {
    |t: TopicModel| routes::is_path_of(t, path)
}

/// The topic that is the name.
pub open spec fn is_name(name: Seq<char>) -> spec_fn(TopicModel) -> bool {
    |t: TopicModel| t == TopicModel::Name(name)
}

/// The retained messages are asked for that match what a client subscribed to.
pub open spec fn retained_queries(
    user_id: UserId,
    addr: SocketAddr,
    subscribes: Seq<(Seq<char>, QualityOfService)>,
) -> Seq<RouterActionModel> {
    subscribes.map_values(
        |e: (Seq<char>, QualityOfService)|
            RouterActionModel::Retain(
                GlobalRetainMsgModel::MatchAll(user_id, addr, topic::topic_of(e.0), e.1),
            ),
    )
}

/// What a message to the router does to the subscriptions `a` and makes it send.
pub open spec fn routed(
    a: Routes<Clients, ClientIdentifier, QualityOfService>,
    b: Routes<Clients, ClientIdentifier, QualityOfService>,
    msg: LocalRouterMsgModel,
    actions: Seq<RouterActionModel>,
) -> bool {
    match msg {
        LocalRouterMsgModel::ForwardPublish(user_id, p) => {
            &&& b == a
            &&& actions == seq![RouterActionModel::Router(LocalRouterMsgModel::Publish(user_id, p))]
        },
        LocalRouterMsgModel::Publish(user_id, p) => {
            &&& b == a
            &&& delivers(actions, user_id, a.search_result(user_id, p.topic), p)
        },
        LocalRouterMsgModel::Subscribe(user_id, client, addr, m) => {
            &&& forall|u: UserId, p: Seq<RouteKeyModel>| #[trigger]
                b.filter_peers(u, p) == (if u == user_id {
                    after_subscribe(a.filter_peers(u, p), client, m.subscribes, is_filter(p))
                } else {
                    a.filter_peers(u, p)
                })
            &&& forall|u: UserId, n: Seq<char>| #[trigger]
                b.name_peers(u, n) == (if u == user_id {
                    after_subscribe(a.name_peers(u, n), client, m.subscribes, is_name(n))
                } else {
                    a.name_peers(u, n)
                })
            &&& Routes::record_changed(
                a,
                b,
                user_id,
                client,
                record_after_subscribe(a.topics_of(user_id, client), m.subscribes),
            )
            &&& actions == retained_queries(user_id, addr, m.subscribes)
        },
        LocalRouterMsgModel::Unsubscribe(user_id, client, m) => {
            &&& forall|u: UserId, p: Seq<RouteKeyModel>| #[trigger]
                b.filter_peers(u, p) == (if u == user_id {
                    after_unsubscribe(a.filter_peers(u, p), client, m.filters, is_filter(p))
                } else {
                    a.filter_peers(u, p)
                })
            &&& forall|u: UserId, n: Seq<char>| #[trigger]
                b.name_peers(u, n) == (if u == user_id {
                    after_unsubscribe(a.name_peers(u, n), client, m.filters, is_name(n))
                } else {
                    a.name_peers(u, n)
                })
            &&& Routes::record_changed(
                a,
                b,
                user_id,
                client,
                record_after_unsubscribe(a.topics_of(user_id, client), m.filters),
            )
            &&& actions == Seq::<RouterActionModel>::empty()
        },
        LocalRouterMsgModel::ClientDisconnect(user_id, client) => {
            &&& Routes::peer_cleared(a, b, user_id, client)
            &&& Routes::record_changed(a, b, user_id, client, Set::empty())
            &&& actions == Seq::<RouterActionModel>::empty()
        },
    }
}

impl LocalRoutes {
    /// The message for each client that subscribed to its topic.
    fn deliver(&self, user_id: UserId, packet: &PublishPacket) -> (r: Vec<RouterAction>)
        requires
            self.wf(),
        ensures
            delivers(
                action_views(r@),
                user_id,
                self.routes.search_result(user_id, packet@.topic),
                packet@,
            ),
    {
        let topic_name = TopicName::new_unchecked(packet.topic_name().to_owned());
        let clients = self.search(user_id, &topic_name);
        let mut actions: Vec<RouterAction> = Vec::new();
        let n: usize = clients.len();
        let mut i: usize = 0;
        assert(action_views(actions@) =~= deliveries(
            user_id,
            clients@,
            packet@,
            clients.keys().take(0),
        ));
        while i < n
            invariant
                i <= n == clients.keys().len(),
                action_views(actions@) == deliveries(
                    user_id,
                    clients@,
                    packet@,
                    clients.keys().take(i as int),
                ),
            decreases n - i,
        {
            let ghost before = actions@;
            actions.push(
                RouterAction::Session(
                    ClientSessionMsg::Publish(
                        user_id,
                        clients.key_at(i).copy(),
                        *clients.value_at(i),
                        packet.copy(),
                    ),
                ),
            );
            i = i + 1;
            assert(action_views(actions@) =~= action_views(before).push(actions@.last()@));
            assert(deliveries(user_id, clients@, packet@, clients.keys().take(i as int))
                =~= deliveries(user_id, clients@, packet@, clients.keys().take(i - 1)).push(
                delivery(user_id, clients@, packet@, clients.keys()[i - 1]),
            ));
        }
        proof {
            clients.lemma_keys();
            let order = clients.keys();
            assert(order.take(n as int) =~= order);
            assert(action_views(actions@) == deliveries(user_id, clients@, packet@, order));
        }
        actions
    }

    fn subscribe(
        &mut self,
        user_id: UserId,
        client_identifier: &ClientIdentifier,
        addr: SocketAddr,
        packet: &SubscribePacket,
    ) -> (r: Vec<RouterAction>)
        requires
            old(self).wf(),
        ensures
            final(self).wf(),
            routed(
                old(self).routes,
                final(self).routes,
                LocalRouterMsgModel::Subscribe(user_id, client_identifier@, addr, packet@),
                action_views(r@),
            ),
    {
        let mut actions: Vec<RouterAction> = Vec::new();
        let ghost a = self.routes;
        let ghost client = client_identifier@;
        let ghost subs = packet@.subscribes;
        let mut i: usize = 0;
        proof {
            assert(subs.take(0) =~= Seq::empty());
            assert(action_views(actions@) =~= retained_queries(user_id, addr, subs.take(0)));
        }
        while i < packet.subscribes.len()
            invariant
                i <= packet.subscribes@.len(),
                client == client_identifier@,
                subs == packet@.subscribes,
                self.wf(),
                routed(
                    a,
                    self.routes,
                    LocalRouterMsgModel::Subscribe(
                        user_id,
                        client,
                        addr,
                        SubscribeModel { pkid: packet@.pkid, subscribes: subs.take(i as int) },
                    ),
                    action_views(actions@),
                ),
            decreases packet.subscribes@.len() - i,
        {
            let ghost b = self.routes;
            let ghost before = actions@;
            let entry = &packet.subscribes[i];
            let topic = Topic::from_filter(&TopicFilter::new(entry.0.as_str()));
            let _ = self.insert_topic(user_id, &topic, client_identifier, entry.1);
            let ghost t = topic@;
            actions.push(
                RouterAction::Retain(GlobalRetainMsg::MatchAll(user_id, addr, topic, entry.1)),
            );
            proof {
                let next = subs.take(i + 1);
                assert(next.drop_last() =~= subs.take(i as int));
                assert(next.last() == subs[i as int]);
                assert(t == topic::topic_of(subs[i as int].0));
                assert(action_views(actions@) =~= action_views(before).push(actions@.last()@));
                assert(retained_queries(user_id, addr, next) =~= retained_queries(
                    user_id,
                    addr,
                    subs.take(i as int),
                ).push(actions@.last()@));
            }
            i = i + 1;
        }
        assert(subs.take(i as int) =~= subs);
        actions
    }

    fn unsubscribe(
        &mut self,
        user_id: UserId,
        client_identifier: &ClientIdentifier,
        packet: &UnsubscribePacket,
    )
        requires
            old(self).wf(),
        ensures
            final(self).wf(),
            routed(
                old(self).routes,
                final(self).routes,
                LocalRouterMsgModel::Unsubscribe(user_id, client_identifier@, packet@),
                Seq::empty(),
            ),
    {
        let ghost a = self.routes;
        let ghost client = client_identifier@;
        let ghost filters = packet@.filters;
        let mut i: usize = 0;
        assert(filters.take(0) =~= Seq::empty());
        while i < packet.filters.len()
            invariant
                i <= packet.filters@.len(),
                client == client_identifier@,
                filters == packet@.filters,
                self.wf(),
                routed(
                    a,
                    self.routes,
                    LocalRouterMsgModel::Unsubscribe(
                        user_id,
                        client,
                        UnsubscribeModel { pkid: packet@.pkid, filters: filters.take(i as int) },
                    ),
                    Seq::empty(),
                ),
            decreases packet.filters@.len() - i,
        {
            let topic = Topic::from_filter(&TopicFilter::new(packet.filters[i].as_str()));
            self.remove_topic(user_id, &topic, client_identifier);
            proof {
                let next = filters.take(i + 1);
                assert(next.drop_last() =~= filters.take(i as int));
                assert(next.last() == filters[i as int]);
                assert(topic@ == topic::topic_of(filters[i as int]));
            }
            i = i + 1;
        }
        assert(filters.take(i as int) =~= filters);
    }

    /// A message to the router.
    pub fn handle(&mut self, msg: LocalRouterMsg) -> (r: Vec<RouterAction>)
        requires
            old(self).wf(),
        ensures
            final(self).wf(),
            routed(old(self).routes, final(self).routes, msg@, action_views(r@)),
    {
        let mut actions: Vec<RouterAction> = Vec::new();
        assert(action_views(actions@) =~= Seq::<RouterActionModel>::empty());
        match msg {
            LocalRouterMsg::ForwardPublish(user_id, packet) => {
                actions.push(RouterAction::Router(LocalRouterMsg::Publish(user_id, packet)));
                assert(action_views(actions@) =~= seq![
                    RouterActionModel::Router(LocalRouterMsgModel::Publish(user_id, packet@)),
                ]);
                actions
            },
            LocalRouterMsg::Publish(user_id, packet) => self.deliver(user_id, &packet),
            LocalRouterMsg::Subscribe(user_id, client_identifier, addr, packet) => self.subscribe(
                user_id,
                &client_identifier,
                addr,
                &packet,
            ),
            LocalRouterMsg::Unsubscribe(user_id, client_identifier, packet) => {
                self.unsubscribe(user_id, &client_identifier, &packet);
                actions
            },
            LocalRouterMsg::ClientDisconnect(user_id, client_identifier) => {
                let _ = self.remove_all_topics(user_id, &client_identifier);
                actions
            },
        }
    }
}

} // verus!
