//! The subscriptions of all users.
use vstd::prelude::*;

use crate::assoc::{AssocMap, Ident};
use crate::common::UserId;
use crate::peers::Peers;
use crate::route;
use crate::route::{RouteKeyModel, RouteNode};
use crate::text;
use crate::topic::{Topic, TopicModel, TopicName};

verus! {

/// Who of which user subscribed to what.
pub struct Routes<P, Key: Ident, Value> {
    filter_routes: AssocMap<UserId, RouteNode<P, Key, Value>>,
    name_routes: AssocMap<UserId, AssocMap<TopicName, P>>,
    topics: AssocMap<UserId, AssocMap<Key, AssocMap<Topic, ()>>>,
}

impl<P: Peers<Key, Value>, Key: Ident, Value> Routes<P, Key, Value> {
    pub closed spec fn wf(&self) -> bool {
        forall|u: UserId| #[trigger]
            self.filter_routes@.contains_key(u) ==> self.filter_routes@[u].wf()
    }

    /// The peers that subscribed to the filter with the levels `path`.
    pub closed spec fn filter_peers(&self, user_id: UserId, path: Seq<RouteKeyModel>) -> Map<
        Key::V,
        P::Kept,
    > {
        if self.filter_routes@.contains_key(user_id) {
            self.filter_routes@[user_id].at(path)
        } else {
            Map::empty()
        }
    }

    /// The peers that subscribed to one topic by its name.
    pub closed spec fn name_peers(&self, user_id: UserId, name: Seq<char>) -> Map<Key::V, P::Kept> {
        if self.name_routes@.contains_key(user_id) && self.name_routes@[user_id]@.contains_key(
            name,
        ) {
            self.name_routes@[user_id]@[name].kept()
        } else {
            Map::empty()
        }
    }

    /// The peers that subscribed to the topic.
    pub open spec fn subscribed(&self, user_id: UserId, topic: TopicModel) -> Map<Key::V, P::Kept> {
        match topic {
            TopicModel::Filter(f) => self.filter_peers(user_id, route::filter_path(f)),
            TopicModel::Name(n) => self.name_peers(user_id, n),
        }
    }

    /// The topics that are on record for a peer.
    pub closed spec fn topics_of(&self, user_id: UserId, key: Key::V) -> Set<TopicModel> {
        if self.topics@.contains_key(user_id) && self.topics@[user_id]@.contains_key(key) {
            self.topics@[user_id]@[key]@.dom()
        } else {
            Set::empty()
        }
    }

    /// What the users subscribed to by filter, as a table.
    pub open spec fn filter_table(&self, user_id: UserId) -> spec_fn(Seq<RouteKeyModel>) -> Map<
        Key::V,
        P::Kept,
    > {
        |path: Seq<RouteKeyModel>| self.filter_peers(user_id, path)
    }

    /// `b` is `a` with a peer for the topic.
    pub open spec fn peer_inserted(
        a: Self,
        b: Self,
        user_id: UserId,
        topic: TopicModel,
        key: Key::V,
        kept: P::Kept,
    ) -> bool {
        &&& forall|u: UserId, p: Seq<RouteKeyModel>| #[trigger]
            b.filter_peers(u, p) == (if u == user_id && is_path_of(topic, p) {
                a.filter_peers(u, p).insert(key, kept)
            } else {
                a.filter_peers(u, p)
            })
        &&& forall|u: UserId, n: Seq<char>| #[trigger]
            b.name_peers(u, n) == (if u == user_id && topic == TopicModel::Name(n) {
                a.name_peers(u, n).insert(key, kept)
            } else {
                a.name_peers(u, n)
            })
    }

    /// `b` is `a` without a peer for the topic.
    pub open spec fn peer_removed(
        a: Self,
        b: Self,
        user_id: UserId,
        topic: TopicModel,
        key: Key::V,
    ) -> bool {
        &&& forall|u: UserId, p: Seq<RouteKeyModel>| #[trigger]
            b.filter_peers(u, p) == (if u == user_id && is_path_of(topic, p) {
                a.filter_peers(u, p).remove(key)
            } else {
                a.filter_peers(u, p)
            })
        &&& forall|u: UserId, n: Seq<char>| #[trigger]
            b.name_peers(u, n) == (if u == user_id && topic == TopicModel::Name(n) {
                a.name_peers(u, n).remove(key)
            } else {
                a.name_peers(u, n)
            })
    }

    /// `b` is `a` without a peer for all topics that are on its record.
    pub open spec fn peer_cleared(a: Self, b: Self, user_id: UserId, key: Key::V) -> bool {
        &&& forall|u: UserId, p: Seq<RouteKeyModel>| #[trigger]
            b.filter_peers(u, p) == (if u == user_id && has_path(a.topics_of(user_id, key), p) {
                a.filter_peers(u, p).remove(key)
            } else {
                a.filter_peers(u, p)
            })
        &&& forall|u: UserId, n: Seq<char>| #[trigger]
            b.name_peers(u, n) == (if u == user_id && a.topics_of(user_id, key).contains(
                TopicModel::Name(n),
            ) {
                a.name_peers(u, n).remove(key)
            } else {
                a.name_peers(u, n)
            })
    }

    /// The record of one peer of `b` is `topics`; the others are those of `a`.
    pub open spec fn record_changed(
        a: Self,
        b: Self,
        user_id: UserId,
        key: Key::V,
        topics: Set<TopicModel>,
    ) -> bool {
        forall|u: UserId, k: Key::V| #[trigger]
            b.topics_of(u, k) == (if u == user_id && k == key {
                topics
            } else {
                a.topics_of(u, k)
            })
    }

    /// What a search for a topic name finds.
    pub open spec fn search_result(&self, user_id: UserId, name: Seq<char>) -> Map<
        Key::V,
        P::Kept,
    > {
        self.name_peers(user_id, name).union_prefer_right(
            route::found(self.filter_table(user_id), Seq::empty(), text::pieces(name, '/')),
        )
    }

    /// Every subscription is on its peer's record.
    pub open spec fn covered(&self) -> bool {
        &&& forall|u: UserId, p: Seq<RouteKeyModel>, k: Key::V| #[trigger]
            self.filter_peers(u, p).contains_key(k) ==> has_path(self.topics_of(u, k), p)
        &&& forall|u: UserId, n: Seq<char>, k: Key::V| #[trigger]
            self.name_peers(u, n).contains_key(k) ==> self.topics_of(u, k).contains(
                TopicModel::Name(n),
            )
    }

    pub fn new() -> (r: Routes<P, Key, Value>)
        ensures
            r.wf(),
            forall|u: UserId, p: Seq<RouteKeyModel>| #[trigger]
                r.filter_peers(u, p) == Map::<Key::V, P::Kept>::empty(),
            forall|u: UserId, n: Seq<char>| #[trigger]
                r.name_peers(u, n) == Map::<Key::V, P::Kept>::empty(),
            forall|u: UserId, k: Key::V| #[trigger]
                r.topics_of(u, k) == Set::<TopicModel>::empty(),
    {
        Routes {
            filter_routes: AssocMap::new(),
            name_routes: AssocMap::new(),
            topics: AssocMap::new(),
        }
    }

    /// Puts a topic on a peer's record.
    fn record(&mut self, user_id: UserId, topic: &Topic, key: &Key)
        ensures
            final(self).filter_routes == old(self).filter_routes,
            final(self).name_routes == old(self).name_routes,
            Self::record_changed(
                *old(self),
                *final(self),
                user_id,
                key@,
                old(self).topics_of(user_id, key@).insert(topic@),
            ),
    {
        let mut of_user = match self.topics.remove(&user_id) {
            Some(m) => m,
            None => AssocMap::new(),
        };
        let mut of_key = match of_user.remove(key) {
            Some(m) => m,
            None => AssocMap::new(),
        };
        let ghost recorded = of_key@;
        of_key.insert(topic.copy(), ());
        assert(of_key@.dom() =~= recorded.dom().insert(topic@));
        of_user.insert(key.copy(), of_key);
        self.topics.insert(user_id, of_user);
        assert forall|u: UserId, k: Key::V| #[trigger] self.topics_of(u, k) == (if u == user_id && k
            == key@ {
            old(self).topics_of(u, k).insert(topic@)
        } else {
            old(self).topics_of(u, k)
        }) by {
            if u == user_id && k == key@ {
                assert(old(self).topics_of(u, k) =~= recorded.dom());
            }
        }
    }

    /// Takes a topic off a peer's record.
    fn unrecord(&mut self, user_id: UserId, topic: &Topic, key: &Key)
        ensures
            final(self).filter_routes == old(self).filter_routes,
            final(self).name_routes == old(self).name_routes,
            Self::record_changed(
                *old(self),
                *final(self),
                user_id,
                key@,
                old(self).topics_of(user_id, key@).remove(topic@),
            ),
    {
        let ghost before = *self;
        if let Some(of_user) = self.topics.remove(&user_id) {
            let mut of_user = of_user;
            if let Some(of_key) = of_user.remove(key) {
                let mut of_key = of_key;
                let ghost recorded = of_key@;
                of_key.remove(topic);
                assert(of_key@.dom() =~= recorded.dom().remove(topic@));
                of_user.insert(key.copy(), of_key);
            }
            self.topics.insert(user_id, of_user);
        }
        assert forall|u: UserId, k: Key::V| #[trigger] self.topics_of(u, k) == (if u == user_id && k
            == key@ {
            before.topics_of(u, k).remove(topic@)
        } else {
            before.topics_of(u, k)
        }) by {
            assert(self.topics_of(u, k) =~= (if u == user_id && k == key@ {
                before.topics_of(u, k).remove(topic@)
            } else {
                before.topics_of(u, k)
            }));
        }
    }

    /// Subscribes a peer to a topic.
    pub fn insert_topic(&mut self, user_id: UserId, topic: &Topic, key: &Key, item: P::Item) -> (r:
        bool)
        requires
            old(self).wf(),
        ensures
            final(self).wf(),
            Self::peer_inserted(
                *old(self),
                *final(self),
                user_id,
                topic@,
                P::item_key(item),
                P::item_kept(item),
            ),
            Self::record_changed(
                *old(self),
                *final(self),
                user_id,
                key@,
                old(self).topics_of(user_id, key@).insert(topic@),
            ),
            r == (old(self).subscribed(user_id, topic@).contains_key(P::item_key(item))
                != P::reports_new()),
    {
        self.record(user_id, topic, key);
        let ghost middle = *self;
        let r = self.insert_peer(user_id, topic, item);
        assert(forall|u: UserId, k: Key::V| #[trigger]
            self.topics_of(u, k) == middle.topics_of(u, k));
        r
    }

    fn insert_peer(&mut self, user_id: UserId, topic: &Topic, item: P::Item) -> (r: bool)
        requires
            old(self).wf(),
        ensures
            final(self).wf(),
            final(self).topics == old(self).topics,
            Self::peer_inserted(
                *old(self),
                *final(self),
                user_id,
                topic@,
                P::item_key(item),
                P::item_kept(item),
            ),
            r == (old(self).subscribed(user_id, topic@).contains_key(P::item_key(item))
                != P::reports_new()),
    {
        match topic {
            Topic::Filter(filter) => {
                let mut routes = match self.filter_routes.remove(&user_id) {
                    Some(routes) => routes,
                    None => RouteNode::new(),
                };
                let r = routes.insert(filter, item);
                self.filter_routes.insert(user_id, routes);
                r
            },
            Topic::Name(name) => {
                let mut names = match self.name_routes.remove(&user_id) {
                    Some(names) => names,
                    None => AssocMap::new(),
                };
                let mut peers = match names.remove(name) {
                    Some(peers) => peers,
                    None => P::new(),
                };
                let r = peers.insert(item);
                names.insert(name.copy(), peers);
                self.name_routes.insert(user_id, names);
                r
            },
        }
    }

    fn remove_peer(&mut self, user_id: UserId, topic: &Topic, key: &Key) -> (r: bool)
        requires
            old(self).wf(),
        ensures
            final(self).wf(),
            final(self).topics == old(self).topics,
            Self::peer_removed(*old(self), *final(self), user_id, topic@, key@),
            r == old(self).subscribed(user_id, topic@).contains_key(key@),
    {
        let ghost none = Map::<Key::V, P::Kept>::empty();
        assert(none.remove(key@) =~= none);
        match topic {
            Topic::Filter(filter) => {
                match self.filter_routes.remove(&user_id) {
                    Some(routes) => {
                        let mut routes = routes;
                        let r = routes.remove(filter, key);
                        self.filter_routes.insert(user_id, routes);
                        r
                    },
                    None => false,
                }
            },
            Topic::Name(name) => {
                match self.name_routes.remove(&user_id) {
                    Some(names) => {
                        let mut names = names;
                        let r = match names.remove(name) {
                            Some(peers) => {
                                let mut peers = peers;
                                let r = peers.remove(key);
                                names.insert(name.copy(), peers);
                                r
                            },
                            None => false,
                        };
                        self.name_routes.insert(user_id, names);
                        r
                    },
                    None => false,
                }
            },
        }
    }

    /// Ends a peer's subscription to a topic.
    pub fn remove_topic(&mut self, user_id: UserId, topic: &Topic, key: &Key)
        requires
            old(self).wf(),
        ensures
            final(self).wf(),
            Self::peer_removed(*old(self), *final(self), user_id, topic@, key@),
            Self::record_changed(
                *old(self),
                *final(self),
                user_id,
                key@,
                old(self).topics_of(user_id, key@).remove(topic@),
            ),
    {
        self.unrecord(user_id, topic, key);
        let ghost middle = *self;
        self.remove_peer(user_id, topic, key);
        assert(forall|u: UserId, k: Key::V| #[trigger]
            self.topics_of(u, k) == middle.topics_of(u, k));
    }

    /// Ends all subscriptions that are on a peer's record, and returns how many there were.
    pub fn remove_all_topics(&mut self, user_id: UserId, key: &Key) -> (r: usize)
        requires
            old(self).wf(),
        ensures
            final(self).wf(),
            Self::peer_cleared(*old(self), *final(self), user_id, key@),
            Self::record_changed(
                *old(self),
                *final(self),
                user_id,
                key@,
                Set::empty(),
            ),
            r == old(self).topics_of(user_id, key@).filter(
                |t: TopicModel| old(self).subscribed(user_id, t).contains_key(key@),
            ).len(),
    {
        let ghost before = *self;
        let ghost live = |t: TopicModel| before.subscribed(user_id, t).contains_key(key@);
        let recorded = match self.topics.remove(&user_id) {
            Some(of_user) => {
                let mut of_user = of_user;
                let recorded = match of_user.remove(key) {
                    Some(recorded) => recorded,
                    None => AssocMap::new(),
                };
                self.topics.insert(user_id, of_user);
                recorded
            },
            None => AssocMap::new(),
        };
        proof {
            recorded.lemma_keys();
            assert(recorded@.dom() =~= before.topics_of(user_id, key@));
            assert forall|u: UserId, k: Key::V| #[trigger] self.topics_of(u, k) == (if u == user_id
                && k == key@ {
                Set::<TopicModel>::empty()
            } else {
                before.topics_of(u, k)
            }) by {
                assert(self.topics_of(u, k) =~= (if u == user_id && k == key@ {
                    Set::<TopicModel>::empty()
                } else {
                    before.topics_of(u, k)
                }));
            }
        }
        let ghost middle = *self;
        let mut removed_count: usize = 0;
        let n: usize = recorded.len();
        let mut i: usize = 0;
        proof {
            assert(recorded.keys().take(0).to_set() =~= Set::<TopicModel>::empty());
            assert(Set::<TopicModel>::empty().filter(live) =~= Set::<TopicModel>::empty());
        }
        while i < n
            invariant
                i <= n == recorded.keys().len(),
                recorded.keys().no_duplicates(),
                self.wf(),
                self.topics == middle.topics,
                live == (|t: TopicModel| before.subscribed(user_id, t).contains_key(key@)),
                removed_count <= i,
                removed_count == recorded.keys().take(i as int).to_set().filter(live).len(),
                forall|u: UserId, p: Seq<RouteKeyModel>| #[trigger]
                    self.filter_peers(u, p) == (if u == user_id && has_path(
                        recorded.keys().take(i as int).to_set(),
                        p,
                    ) {
                        before.filter_peers(u, p).remove(key@)
                    } else {
                        before.filter_peers(u, p)
                    }),
                forall|u: UserId, m: Seq<char>| #[trigger]
                    self.name_peers(u, m) == (if u == user_id && recorded.keys().take(
                        i as int,
                    ).to_set().contains(TopicModel::Name(m)) {
                        before.name_peers(u, m).remove(key@)
                    } else {
                        before.name_peers(u, m)
                    }),
            decreases n - i,
        {
            let topic = recorded.key_at(i);
            let ghost done = recorded.keys().take(i as int).to_set();
            let ghost next = recorded.keys().take(i + 1).to_set();
            let ghost t = topic@;
            let ghost was = *self;
            proof {
                lemma_take_one_more(recorded.keys(), i as int);
                lemma_new_topic(done, t);
                assert(was.subscribed(user_id, t) == before.subscribed(user_id, t));
                if live(t) {
                    assert(next.filter(live) =~= done.filter(live).insert(t));
                } else {
                    assert(next.filter(live) =~= done.filter(live));
                }
                vstd::seq_lib::seq_to_set_is_finite(recorded.keys().take(i as int));
            }
            if self.remove_peer(user_id, topic, key) {
                removed_count = removed_count + 1;
            }
            proof {
                assert forall|u: UserId, p: Seq<RouteKeyModel>| #[trigger] self.filter_peers(u, p)
                    == (if u == user_id && has_path(next, p) {
                    before.filter_peers(u, p).remove(key@)
                } else {
                    before.filter_peers(u, p)
                }) by {
                    lemma_has_path_insert(done, t, p);
                    assert(before.filter_peers(u, p).remove(key@).remove(key@)
                        =~= before.filter_peers(u, p).remove(key@));
                }
            }
            i = i + 1;
        }
        proof {
            assert(recorded.keys().take(n as int) =~= recorded.keys());
            assert(recorded.keys().to_set() =~= before.topics_of(user_id, key@));
            assert(forall|u: UserId, k: Key::V| #[trigger]
                self.topics_of(u, k) == middle.topics_of(u, k));
        }
        removed_count
    }

    /// The peers that subscribed to a topic, by its name or by a filter that matches it.
    pub fn search(&self, user_id: UserId, topic_name: &TopicName) -> (r: P)
        requires
            self.wf(),
        ensures
            r.kept() == self.search_result(user_id, topic_name@),
    {
        let mut peers = P::new();
        if let Some(names) = self.name_routes.get(&user_id) {
            if let Some(of_name) = names.get(topic_name) {
                peers.extend(of_name.copy());
            }
        }
        assert(peers.kept() =~= self.name_peers(user_id, topic_name@));
        let ghost tokens = text::pieces(topic_name@, '/');
        match self.filter_routes.get(&user_id) {
            Some(routes) => {
                proof {
                    route::lemma_found_shift(
                        routes.table(),
                        Seq::empty(),
                        self.filter_table(user_id),
                        Seq::empty(),
                        tokens,
                    );
                }
                peers.extend(routes.search(topic_name));
            },
            None => {
                proof {
                    route::lemma_found_nothing(
                        self.filter_table(user_id),
                        Seq::empty(),
                        tokens,
                    );
                    assert(peers.kept().union_prefer_right(Map::<Key::V, P::Kept>::empty())
                        =~= peers.kept());
                }
            },
        }
        peers
    }
}

/// `true` iff a subscription to the topic is one to the topic name.
pub open spec fn topic_matches(topic: TopicModel, name: Seq<char>) -> bool {
    match topic {
        TopicModel::Filter(f) => route::path_matches(
            route::filter_path(f),
            text::pieces(name, '/'),
        ),
        TopicModel::Name(n) => n == name,
    }
}

impl<P: Peers<Key, Value>, Key: Ident, Value> Routes<P, Key, Value> {
    /// Law: a search finds a peer iff it subscribed to the name, or to a filter that matches it.
    pub proof fn law_search_finds_the_subscribed(&self, user_id: UserId, name: Seq<char>, key: Key::V)
        ensures
            self.search_result(user_id, name).contains_key(key) <==> (self.name_peers(
                user_id,
                name,
            ).contains_key(key) || exists|p: Seq<RouteKeyModel>|
                route::path_matches(p, text::pieces(name, '/')) && (#[trigger] self.filter_peers(
                    user_id,
                    p,
                )).contains_key(key)),
    {
        let at = self.filter_table(user_id);
        let tokens = text::pieces(name, '/');
        route::law_search_finds_the_matching_filters(at, tokens, key);
        if route::found(at, Seq::empty(), tokens).contains_key(key) {
            let p = choose|p: Seq<RouteKeyModel>|
                route::path_matches(p, tokens) && (#[trigger] at(p)).contains_key(key);
            assert(self.filter_peers(user_id, p) == at(p));
        }
        if exists|p: Seq<RouteKeyModel>|
            route::path_matches(p, tokens) && (#[trigger] self.filter_peers(user_id, p)).contains_key(
                key,
            ) {
            let p = choose|p: Seq<RouteKeyModel>|
                route::path_matches(p, tokens) && (#[trigger] self.filter_peers(
                    user_id,
                    p,
                )).contains_key(key);
            assert(self.filter_peers(user_id, p) == at(p));
        }
    }

    /// Law: after a peer subscribes to a topic, a search for each name that the topic matches finds
    /// the peer.
    pub proof fn law_subscribed_is_found(
        a: Self,
        b: Self,
        user_id: UserId,
        topic: TopicModel,
        key: Key::V,
        kept: P::Kept,
        name: Seq<char>,
    )
        requires
            Self::peer_inserted(a, b, user_id, topic, key, kept),
            topic_matches(topic, name),
        ensures
            b.search_result(user_id, name).contains_key(key),
    {
        b.law_search_finds_the_subscribed(user_id, name, key);
        match topic {
            TopicModel::Filter(f) => {
                assert(b.filter_peers(user_id, route::filter_path(f)).contains_key(key));
            },
            TopicModel::Name(n) => {},
        }
    }

    /// Law: what happens to the subscriptions of one user changes no search of another.
    pub proof fn law_users_are_apart(
        a: Self,
        b: Self,
        user_id: UserId,
        topic: TopicModel,
        key: Key::V,
        kept: P::Kept,
        other: UserId,
        name: Seq<char>,
    )
        requires
            Self::peer_inserted(a, b, user_id, topic, key, kept) || Self::peer_removed(
                a,
                b,
                user_id,
                topic,
                key,
            ) || Self::peer_cleared(a, b, user_id, key),
            other != user_id,
        ensures
            b.search_result(other, name) == a.search_result(other, name),
    {
        let empty = Seq::<RouteKeyModel>::empty();
        assert forall|p: Seq<RouteKeyModel>|
            a.filter_table(other)(#[trigger] (empty + p)) == b.filter_table(other)(empty + p) by {
            assert(b.filter_peers(other, empty + p) == a.filter_peers(other, empty + p));
        }
        route::lemma_found_shift(
            a.filter_table(other),
            empty,
            b.filter_table(other),
            empty,
            text::pieces(name, '/'),
        );
        assert(b.name_peers(other, name) == a.name_peers(other, name));
    }

    /// Law: ending a subscription undoes it.
    pub proof fn law_remove_undoes_insert(
        a: Self,
        b: Self,
        c: Self,
        user_id: UserId,
        topic: TopicModel,
        key: Key::V,
        kept: P::Kept,
    )
        requires
            !a.subscribed(user_id, topic).contains_key(key),
            Self::peer_inserted(a, b, user_id, topic, key, kept),
            Self::peer_removed(b, c, user_id, topic, key),
        ensures
            forall|u: UserId, p: Seq<RouteKeyModel>| #[trigger]
                c.filter_peers(u, p) == a.filter_peers(u, p),
            forall|u: UserId, n: Seq<char>| #[trigger] c.name_peers(u, n) == a.name_peers(u, n),
    {
        assert forall|u: UserId, p: Seq<RouteKeyModel>| #[trigger]
            c.filter_peers(u, p) == a.filter_peers(u, p) by {
            assert(b.filter_peers(u, p) == b.filter_peers(u, p));
            assert(c.filter_peers(u, p) =~= a.filter_peers(u, p));
        }
        assert forall|u: UserId, n: Seq<char>| #[trigger]
            c.name_peers(u, n) == a.name_peers(u, n) by {
            assert(b.name_peers(u, n) == b.name_peers(u, n));
            assert(c.name_peers(u, n) =~= a.name_peers(u, n));
        }
    }

    /// Law: subscribing under one's own key keeps every subscription on record.
    pub proof fn law_insert_keeps_covered(
        a: Self,
        b: Self,
        user_id: UserId,
        topic: TopicModel,
        key: Key::V,
        kept: P::Kept,
    )
        requires
            a.covered(),
            Self::peer_inserted(a, b, user_id, topic, key, kept),
            Self::record_changed(a, b, user_id, key, a.topics_of(user_id, key).insert(topic)),
        ensures
            b.covered(),
    {
        assert forall|u: UserId, p: Seq<RouteKeyModel>, k: Key::V| #[trigger]
            b.filter_peers(u, p).contains_key(k) implies has_path(b.topics_of(u, k), p) by {
            assert(a.filter_peers(u, p).contains_key(k) || (u == user_id && k == key && is_path_of(
                topic,
                p,
            )));
            lemma_has_path_insert(a.topics_of(u, k), topic, p);
        }
        assert forall|u: UserId, n: Seq<char>, k: Key::V| #[trigger]
            b.name_peers(u, n).contains_key(k) implies b.topics_of(u, k).contains(
            TopicModel::Name(n),
        ) by {
            assert(a.name_peers(u, n).contains_key(k) || (u == user_id && k == key && topic
                == TopicModel::Name(n)));
        }
    }

    /// Law: ending a subscription keeps every other on record.
    pub proof fn law_remove_keeps_covered(
        a: Self,
        b: Self,
        user_id: UserId,
        topic: TopicModel,
        key: Key::V,
    )
        requires
            a.covered(),
            Self::peer_removed(a, b, user_id, topic, key),
            Self::record_changed(a, b, user_id, key, a.topics_of(user_id, key).remove(topic)),
        ensures
            b.covered(),
    {
        assert forall|u: UserId, p: Seq<RouteKeyModel>, k: Key::V| #[trigger]
            b.filter_peers(u, p).contains_key(k) implies has_path(b.topics_of(u, k), p) by {
            assert(a.filter_peers(u, p).contains_key(k));
            let t = choose|t: TopicModel| #[trigger]
                a.topics_of(u, k).contains(t) && is_path_of(t, p);
            assert(b.topics_of(u, k).contains(t));
        }
        assert forall|u: UserId, n: Seq<char>, k: Key::V| #[trigger]
            b.name_peers(u, n).contains_key(k) implies b.topics_of(u, k).contains(
            TopicModel::Name(n),
        ) by {
            assert(a.name_peers(u, n).contains_key(k));
        }
    }

    /// Law: after a peer has left, no search finds it, and every subscription of the others stays on
    /// record.
    pub proof fn law_cleared_is_not_found(
        a: Self,
        b: Self,
        user_id: UserId,
        key: Key::V,
        name: Seq<char>,
    )
        requires
            a.covered(),
            Self::peer_cleared(a, b, user_id, key),
            Self::record_changed(a, b, user_id, key, Set::empty()),
        ensures
            !b.search_result(user_id, name).contains_key(key),
            b.covered(),
    {
        b.law_search_finds_the_subscribed(user_id, name, key);
        assert forall|p: Seq<RouteKeyModel>| !(#[trigger] b.filter_peers(user_id, p)).contains_key(
            key,
        ) by {
            if b.filter_peers(user_id, p).contains_key(key) {
                assert(a.filter_peers(user_id, p).contains_key(key));
            }
        }
        assert forall|n: Seq<char>| !(#[trigger] b.name_peers(user_id, n)).contains_key(key) by {
            if b.name_peers(user_id, n).contains_key(key) {
                assert(a.name_peers(user_id, n).contains_key(key));
            }
        }
        assert forall|u: UserId, p: Seq<RouteKeyModel>, k: Key::V| #[trigger]
            b.filter_peers(u, p).contains_key(k) implies has_path(b.topics_of(u, k), p) by {
            assert(a.filter_peers(u, p).contains_key(k));
        }
        assert forall|u: UserId, n: Seq<char>, k: Key::V| #[trigger]
            b.name_peers(u, n).contains_key(k) implies b.topics_of(u, k).contains(
            TopicModel::Name(n),
        ) by {
            assert(a.name_peers(u, n).contains_key(k));
        }
    }
}

/// `true` iff the topic is the filter with the levels `path`.
pub open spec fn is_path_of(topic: TopicModel, path: Seq<RouteKeyModel>) -> bool {
    match topic {
        TopicModel::Filter(f) => path == route::filter_path(f),
        TopicModel::Name(_) => false,
    }
}

/// `true` iff one of the topics is the filter with the levels `path`.
pub open spec fn has_path(topics: Set<TopicModel>, path: Seq<RouteKeyModel>) -> bool {
    exists|t: TopicModel| #[trigger] topics.contains(t) && is_path_of(t, path)
}

proof fn lemma_has_path_insert(topics: Set<TopicModel>, t: TopicModel, path: Seq<RouteKeyModel>)
    ensures
        has_path(topics.insert(t), path) == (has_path(topics, path) || is_path_of(t, path)),
{
    if has_path(topics, path) {
        let x = choose|x: TopicModel| #[trigger] topics.contains(x) && is_path_of(x, path);
        assert(topics.insert(t).contains(x));
    }
    if is_path_of(t, path) {
        assert(topics.insert(t).contains(t));
    }
}

/// The set of one key more.
proof fn lemma_take_one_more<A>(s: Seq<A>, i: int)
    requires
        s.no_duplicates(),
        0 <= i < s.len(),
    ensures
        s.take(i + 1).to_set() == s.take(i).to_set().insert(s[i]),
        !s.take(i).to_set().contains(s[i]),
{
    let before = s.take(i);
    let after = s.take(i + 1);
    assert(after =~= before.push(s[i]));
    assert forall|x: A| after.to_set().contains(x) <==> before.to_set().insert(s[i]).contains(x) by {
        if after.contains(x) {
            let j = choose|j: int| 0 <= j < after.len() && after[j] == x;
            if j < i {
                assert(before[j] == x);
            }
        }
        if before.contains(x) {
            let j = choose|j: int| 0 <= j < before.len() && before[j] == x;
            assert(after[j] == x);
        }
        if x == s[i] {
            assert(after[i] == x);
        }
    }
    assert(after.to_set() =~= before.to_set().insert(s[i]));
}

/// A filter that is not among the topics has levels that none of them has.
proof fn lemma_new_topic(topics: Set<TopicModel>, t: TopicModel)
    requires
        !topics.contains(t),
    ensures
        t matches TopicModel::Filter(f) ==> !has_path(topics, route::filter_path(f)),
{
    if let TopicModel::Filter(f) = t {
        if has_path(topics, route::filter_path(f)) {
            let x = choose|x: TopicModel| #[trigger]
                topics.contains(x) && is_path_of(x, route::filter_path(f));
            if let TopicModel::Filter(g) = x {
                route::lemma_filter_path_injective(f, g);
            }
        }
    }
}

} // verus!
