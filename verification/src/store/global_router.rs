//! The store's router: which hubs get a message.
use vstd::prelude::*;

use crate::assoc::Ident;
use crate::common::{SocketAddr, UserId};
use crate::packet::PublishPacket;
use crate::peers::{PeerSet, Peers};
use crate::route;
use crate::route::RouteKeyModel;
use crate::routes;
use crate::routes::Routes;
use crate::store;
use crate::store::{
    GlobalRouterMsg, GlobalRouterMsgModel, HubNode, StoreSessionMsg, StoreSessionMsgModel,
};
use crate::text;
use crate::topic::{Topic, TopicModel, TopicName};
use crate::wire::PublishModel;

verus! {

/// Which hubs subscribed to what.
pub type GlobalRoutes = Routes<PeerSet<HubNode>, HubNode, ()>;

/// Hubs, as mathematics.
pub type NodesModel = Map<HubNode, ()>;

/// The views of a list of messages.
pub open spec fn session_views(s: Seq<StoreSessionMsg>) -> Seq<StoreSessionMsgModel> {
    s.map_values(|m: StoreSessionMsg| m@)
}

/// The message `p` for hubs, in order.
pub open spec fn deliveries(
    user_id: UserId,
    p: PublishModel,
    order: Seq<HubNode>,
) -> Seq<StoreSessionMsgModel> {
    order.map_values(|n: HubNode| StoreSessionMsgModel::Publish(n.0, user_id, p))
}

/// The message `p` goes once to each of the hubs, in some order.
pub open spec fn delivers(
    msgs: Seq<StoreSessionMsgModel>,
    user_id: UserId,
    nodes: NodesModel,
    p: PublishModel,
) -> bool {
    exists|order: Seq<HubNode>|
        {
            &&& order.no_duplicates()
            &&& order.to_set() == nodes.dom()
            &&& msgs == #[trigger] deliveries(user_id, p, order)
        }
}

/// `true` iff one of the topics is the filter with the levels `path`.
pub open spec fn some_path(topics: Seq<TopicModel>, path: Seq<RouteKeyModel>) -> bool {
    exists|i: int| 0 <= i < topics.len() && routes::is_path_of(#[trigger] topics[i], path)
}

/// What a message to the router does to the subscriptions `a` and makes it send.
pub open spec fn routed(
    a: GlobalRoutes,
    b: GlobalRoutes,
    msg: GlobalRouterMsgModel,
    msgs: Seq<StoreSessionMsgModel>,
) -> bool {
    match msg {
        GlobalRouterMsgModel::Publish(_, user_id, p) => {
            &&& b == a
            &&& delivers(msgs, user_id, a.search_result(user_id, p.topic), p)
        },
        GlobalRouterMsgModel::Subscribe(addr, user_id, topics) => {
            &&& msgs.len() == 0
            &&& forall|u: UserId, p: Seq<RouteKeyModel>| #[trigger]
                b.filter_peers(u, p) == (if u == user_id && some_path(topics, p) {
                    a.filter_peers(u, p).insert(HubNode(addr), ())
                } else {
                    a.filter_peers(u, p)
                })
            &&& forall|u: UserId, n: Seq<char>| #[trigger]
                b.name_peers(u, n) == (if u == user_id && topics.contains(TopicModel::Name(n)) {
                    a.name_peers(u, n).insert(HubNode(addr), ())
                } else {
                    a.name_peers(u, n)
                })
            &&& Routes::record_changed(
                a,
                b,
                user_id,
                HubNode(addr),
                a.topics_of(user_id, HubNode(addr)).union(topics.to_set()),
            )
        },
        GlobalRouterMsgModel::Unsubscribe(addr, user_id, topics) => {
            &&& msgs.len() == 0
            &&& forall|u: UserId, p: Seq<RouteKeyModel>| #[trigger]
                b.filter_peers(u, p) == (if u == user_id && some_path(topics, p) {
                    a.filter_peers(u, p).remove(HubNode(addr))
                } else {
                    a.filter_peers(u, p)
                })
            &&& forall|u: UserId, n: Seq<char>| #[trigger]
                b.name_peers(u, n) == (if u == user_id && topics.contains(TopicModel::Name(n)) {
                    a.name_peers(u, n).remove(HubNode(addr))
                } else {
                    a.name_peers(u, n)
                })
            &&& Routes::record_changed(
                a,
                b,
                user_id,
                HubNode(addr),
                a.topics_of(user_id, HubNode(addr)).difference(topics.to_set()),
            )
        },
        GlobalRouterMsgModel::NodeDisconnect(_) => b == a && msgs.len() == 0,
    }
}

/// One topic more.
proof fn lemma_one_more(topics: Seq<TopicModel>, i: int)
    requires
        0 <= i < topics.len(),
    ensures
        topics.take(i + 1).to_set() == topics.take(i).to_set().insert(topics[i]),
        forall|p: Seq<RouteKeyModel>| #[trigger]
            some_path(topics.take(i + 1), p) == (some_path(topics.take(i), p)
                || routes::is_path_of(topics[i], p)),
        forall|t: TopicModel| #[trigger]
            topics.take(i + 1).contains(t) == (topics.take(i).contains(t) || t == topics[i]),
{
    let before = topics.take(i);
    let after = topics.take(i + 1);
    assert forall|p: Seq<RouteKeyModel>| #[trigger] some_path(after, p) == (some_path(before, p)
        || routes::is_path_of(topics[i], p)) by {
        if some_path(after, p) {
            let j = choose|j: int| 0 <= j < after.len() && routes::is_path_of(#[trigger] after[j], p);
            if j < i {
                assert(before[j] == after[j]);
            }
        }
        if some_path(before, p) {
            let j = choose|j: int|
                0 <= j < before.len() && routes::is_path_of(#[trigger] before[j], p);
            assert(after[j] == before[j]);
        }
        if routes::is_path_of(topics[i], p) {
            assert(after[i] == topics[i]);
        }
    }
    assert forall|t: TopicModel| #[trigger] after.contains(t) == (before.contains(t) || t
        == topics[i]) by {
        if after.contains(t) {
            let j = choose|j: int| 0 <= j < after.len() && after[j] == t;
            if j < i {
                assert(before[j] == t);
            }
        }
        if before.contains(t) {
            let j = choose|j: int| 0 <= j < before.len() && before[j] == t;
            assert(after[j] == t);
        }
        if t == topics[i] {
            assert(after[i] == t);
        }
    }
    assert(after.to_set() =~= before.to_set().insert(topics[i]));
}

/// The store's router.
pub struct GlobalRouter {
    pub routes: GlobalRoutes,
}

impl GlobalRouter {
    pub fn new() -> (r: GlobalRouter)
        ensures
            r.routes.wf(),
            forall|u: UserId, p: Seq<RouteKeyModel>| #[trigger]
                r.routes.filter_peers(u, p) == NodesModel::empty(),
            forall|u: UserId, n: Seq<char>| #[trigger]
                r.routes.name_peers(u, n) == NodesModel::empty(),
    {
        GlobalRouter { routes: Routes::new() }
    }

    fn deliver(&self, user_id: UserId, packet: &PublishPacket) -> (r: Vec<StoreSessionMsg>)
        requires
            self.routes.wf(),
        ensures
            delivers(
                session_views(r@),
                user_id,
                self.routes.search_result(user_id, packet@.topic),
                packet@,
            ),
    {
        let topic_name = TopicName::new_unchecked(packet.topic_name().to_owned());
        let nodes = self.routes.search(user_id, &topic_name).inner;
        let mut msgs: Vec<StoreSessionMsg> = Vec::new();
        let n: usize = nodes.len();
        let mut i: usize = 0;
        assert(session_views(msgs@) =~= deliveries(user_id, packet@, nodes.keys().take(0)));
        while i < n
            invariant
                i <= n == nodes.keys().len(),
                session_views(msgs@) == deliveries(user_id, packet@, nodes.keys().take(i as int)),
            decreases n - i,
        {
            let ghost before = msgs@;
            let node = nodes.key_at(i);
            msgs.push(StoreSessionMsg::Publish(node.0, user_id, packet.copy()));
            i = i + 1;
            assert(session_views(msgs@) =~= session_views(before).push(msgs@.last()@));
            assert(deliveries(user_id, packet@, nodes.keys().take(i as int)) =~= deliveries(
                user_id,
                packet@,
                nodes.keys().take(i - 1),
            ).push(StoreSessionMsgModel::Publish(nodes.keys()[i - 1].0, user_id, packet@)));
        }
        proof {
            nodes.lemma_keys();
            let order = nodes.keys();
            assert(order.take(n as int) =~= order);
            assert(session_views(msgs@) == deliveries(user_id, packet@, order));
        }
        msgs
    }

    fn subscribe(&mut self, addr: SocketAddr, user_id: UserId, topics: &Vec<Topic>)
        requires
            old(self).routes.wf(),
        ensures
            final(self).routes.wf(),
            routed(
                old(self).routes,
                final(self).routes,
                GlobalRouterMsgModel::Subscribe(addr, user_id, store::topic_views(topics@)),
                Seq::empty(),
            ),
    {
        let node = HubNode(addr);
        let ghost a = self.routes;
        let ghost views = store::topic_views(topics@);
        let mut i: usize = 0;
        proof {
            assert(views.take(0) =~= Seq::empty());
            assert(a.topics_of(user_id, node).union(views.take(0).to_set()) =~= a.topics_of(
                user_id,
                node,
            ));
        }
        while i < topics.len()
            invariant
                i <= topics@.len(),
                node == HubNode(addr),
                views == store::topic_views(topics@),
                self.routes.wf(),
                routed(
                    a,
                    self.routes,
                    GlobalRouterMsgModel::Subscribe(addr, user_id, views.take(i as int)),
                    Seq::empty(),
                ),
            decreases topics@.len() - i,
        {
            let ghost b = self.routes;
            let _ = self.routes.insert_topic(user_id, &topics[i], &node, node);
            proof {
                lemma_one_more(views, i as int);
                assert(views[i as int] == topics@[i as int]@);
                let own = a.topics_of(user_id, node);
                assert(own.union(views.take(i + 1).to_set()) =~= own.union(
                    views.take(i as int).to_set(),
                ).insert(views[i as int]));
                assert(forall|m: NodesModel| #[trigger]
                    m.insert(node, ()).insert(node, ()) =~= m.insert(node, ()));
            }
            i = i + 1;
        }
        assert(views.take(i as int) =~= views);
    }

    fn unsubscribe(&mut self, addr: SocketAddr, user_id: UserId, topics: &Vec<Topic>)
        requires
            old(self).routes.wf(),
        ensures
            final(self).routes.wf(),
            routed(
                old(self).routes,
                final(self).routes,
                GlobalRouterMsgModel::Unsubscribe(addr, user_id, store::topic_views(topics@)),
                Seq::empty(),
            ),
    {
        let node = HubNode(addr);
        let ghost a = self.routes;
        let ghost views = store::topic_views(topics@);
        let mut i: usize = 0;
        proof {
            assert(views.take(0) =~= Seq::empty());
            assert(a.topics_of(user_id, node).difference(views.take(0).to_set()) =~= a.topics_of(
                user_id,
                node,
            ));
        }
        while i < topics.len()
            invariant
                i <= topics@.len(),
                node == HubNode(addr),
                views == store::topic_views(topics@),
                self.routes.wf(),
                routed(
                    a,
                    self.routes,
                    GlobalRouterMsgModel::Unsubscribe(addr, user_id, views.take(i as int)),
                    Seq::empty(),
                ),
            decreases topics@.len() - i,
        {
            self.routes.remove_topic(user_id, &topics[i], &node);
            proof {
                lemma_one_more(views, i as int);
                assert(views[i as int] == topics@[i as int]@);
                let own = a.topics_of(user_id, node);
                assert(own.difference(views.take(i + 1).to_set()) =~= own.difference(
                    views.take(i as int).to_set(),
                ).remove(views[i as int]));
                assert(forall|m: NodesModel| #[trigger]
                    m.remove(node).remove(node) =~= m.remove(node));
            }
            i = i + 1;
        }
        assert(views.take(i as int) =~= views);
    }

    /// A message to the router. The messages returned go to the sessions of the hubs.
    pub fn handle(&mut self, msg: GlobalRouterMsg) -> (r: Vec<StoreSessionMsg>)
        requires
            old(self).routes.wf(),
        ensures
            final(self).routes.wf(),
            routed(old(self).routes, final(self).routes, msg@, session_views(r@)),
    {
        match msg {
            GlobalRouterMsg::Publish(_, user_id, packet) => self.deliver(user_id, &packet),
            GlobalRouterMsg::Subscribe(addr, user_id, topics) => {
                self.subscribe(addr, user_id, &topics);
                Vec::new()
            },
            GlobalRouterMsg::Unsubscribe(addr, user_id, topics) => {
                self.unsubscribe(addr, user_id, &topics);
                Vec::new()
            },
            GlobalRouterMsg::NodeDisconnect(_) => Vec::new(),
        }
    }
}

/// `true` iff the hub is told of the message.
pub open spec fn tells(
    msgs: Seq<StoreSessionMsgModel>,
    addr: SocketAddr,
    user_id: UserId,
    p: PublishModel,
) -> bool {
    msgs.contains(StoreSessionMsgModel::Publish(addr, user_id, p))
}

/// `true` iff the hub subscribed to the topic's name, or to a filter that matches it.
pub open spec fn subscribed_to(
    a: GlobalRoutes,
    user_id: UserId,
    addr: SocketAddr,
    name: Seq<char>,
) -> bool {
    a.name_peers(user_id, name).contains_key(HubNode(addr)) || exists|path: Seq<RouteKeyModel>|
        route::path_matches(path, text::pieces(name, '/')) && (#[trigger] a.filter_peers(
            user_id,
            path,
        )).contains_key(HubNode(addr))
}

/// Law: a message is told, as it is and once, to exactly the hubs that subscribed to its topic, and
/// changes nothing.
pub proof fn law_subscribed_hubs_are_told(
    a: GlobalRoutes,
    b: GlobalRoutes,
    from: SocketAddr,
    user_id: UserId,
    p: PublishModel,
    msgs: Seq<StoreSessionMsgModel>,
)
    requires
        routed(a, b, GlobalRouterMsgModel::Publish(from, user_id, p), msgs),
    ensures
        b == a,
        msgs.no_duplicates(),
        forall|addr: SocketAddr| #[trigger]
            tells(msgs, addr, user_id, p) <==> subscribed_to(a, user_id, addr, p.topic),
        forall|i: int|
            0 <= i < msgs.len() ==> #[trigger] msgs[i] is Publish && msgs[i]->Publish_1 == user_id
                && msgs[i]->Publish_2 == p,
{
    let nodes = a.search_result(user_id, p.topic);
    let order = choose|order: Seq<HubNode>|
        {
            &&& order.no_duplicates()
            &&& order.to_set() == nodes.dom()
            &&& msgs == #[trigger] deliveries(user_id, p, order)
        };
    assert forall|addr: SocketAddr| #[trigger] tells(msgs, addr, user_id, p) <==> subscribed_to(
        a,
        user_id,
        addr,
        p.topic,
    ) by {
        let node = HubNode(addr);
        a.law_search_finds_the_subscribed(user_id, p.topic, node);
        if nodes.contains_key(node) {
            assert(order.to_set().contains(node));
            let i = order.index_of(node);
            assert(msgs[i] == StoreSessionMsgModel::Publish(addr, user_id, p));
        }
        if tells(msgs, addr, user_id, p) {
            let i = msgs.index_of(StoreSessionMsgModel::Publish(addr, user_id, p));
            assert(order[i].0 == addr);
            assert(order[i] == node);
            assert(order.contains(order[i]));
            assert(order.to_set().contains(node));
        }
    }
    assert forall|i: int, j: int|
        0 <= i < msgs.len() && 0 <= j < msgs.len() && i != j implies msgs[i] != msgs[j] by {
        assert(order[i] != order[j]);
        assert(order[i].0 != order[j].0);
    }
}

/// Law: a hub that subscribes to topics has each of them; one that gives topics up has none of them.
/// What it has elsewhere, and what other hubs and users have, stays as it was.
pub proof fn law_hub_has_what_it_asked_for(
    a: GlobalRoutes,
    b: GlobalRoutes,
    addr: SocketAddr,
    user_id: UserId,
    topics: Seq<TopicModel>,
    subscribes: bool,
    msgs: Seq<StoreSessionMsgModel>,
)
    requires
        routed(
            a,
            b,
            if subscribes {
                GlobalRouterMsgModel::Subscribe(addr, user_id, topics)
            } else {
                GlobalRouterMsgModel::Unsubscribe(addr, user_id, topics)
            },
            msgs,
        ),
    ensures
        msgs.len() == 0,
        forall|i: int|
            0 <= i < topics.len() ==> b.subscribed(user_id, #[trigger] topics[i]).contains_key(
                HubNode(addr),
            ) == subscribes,
        forall|u: UserId, t: TopicModel, other: SocketAddr|
            u != user_id || other != addr || !topics.contains(t) ==> (#[trigger] b.subscribed(
                u,
                t,
            ).contains_key(HubNode(other))) == a.subscribed(u, t).contains_key(HubNode(other)),
{
    assert forall|i: int| 0 <= i < topics.len() implies b.subscribed(
        user_id,
        #[trigger] topics[i],
    ).contains_key(HubNode(addr)) == subscribes by {
        match topics[i] {
            TopicModel::Filter(f) => {
                assert(routes::is_path_of(topics[i], route::filter_path(f)));
                assert(some_path(topics, route::filter_path(f)));
            },
            TopicModel::Name(n) => {
                assert(topics.contains(TopicModel::Name(n)));
            },
        }
    }
    assert forall|u: UserId, t: TopicModel, other: SocketAddr|
        u != user_id || other != addr || !topics.contains(t) implies (#[trigger] b.subscribed(
        u,
        t,
    ).contains_key(HubNode(other))) == a.subscribed(u, t).contains_key(HubNode(other)) by {
        assert(HubNode(other).0 == other && HubNode(addr).0 == addr);
        if let TopicModel::Filter(f) = t {
            if some_path(topics, route::filter_path(f)) {
                let i = choose|i: int|
                    0 <= i < topics.len() && routes::is_path_of(
                        #[trigger] topics[i],
                        route::filter_path(f),
                    );
                if let TopicModel::Filter(g) = topics[i] {
                    route::lemma_filter_path_injective(f, g);
                }
                assert(topics.contains(t));
            }
        }
    }
}

/// Law: a hub that goes keeps its subscriptions, and nobody is told.
pub proof fn law_hub_that_goes_changes_nothing(
    a: GlobalRoutes,
    b: GlobalRoutes,
    addr: SocketAddr,
    msgs: Seq<StoreSessionMsgModel>,
)
    requires
        routed(a, b, GlobalRouterMsgModel::NodeDisconnect(addr), msgs),
    ensures
        b == a,
        msgs.len() == 0,
{
}

} // verus!
