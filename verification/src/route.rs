//! Routing by topic filters: a tree with one level of nodes for each level of a filter.
use std::marker::PhantomData;
use vstd::prelude::*;

use crate::assoc::Ident;
use crate::peers::Peers;
use crate::text;
use crate::topic::{TopicFilter, TopicName};

verus! {

/// A level of a topic filter.
#[derive(Debug)]
pub enum RouteKey {
    Normal(String),
    /// `+`: any one level.
    OneLevel,
    /// `#`: this level and all below it.
    RestLevels,
}

pub enum RouteKeyModel {
    Normal(Seq<char>),
    OneLevel,
    RestLevels,
}

impl View for RouteKey {
    type V = RouteKeyModel;

    open spec fn view(&self) -> RouteKeyModel {
        match self {
            RouteKey::Normal(s) => RouteKeyModel::Normal(s@),
            RouteKey::OneLevel => RouteKeyModel::OneLevel,
            RouteKey::RestLevels => RouteKeyModel::RestLevels,
        }
    }
}

/// A filter's level as a key.
pub open spec fn key_of(token: Seq<char>) -> RouteKeyModel {
    if token == "+"@ {
        RouteKeyModel::OneLevel
    } else if token == "#"@ {
        RouteKeyModel::RestLevels
    } else {
        RouteKeyModel::Normal(token)
    }
}

/// The levels of a filter as keys.
pub open spec fn filter_path(filter: Seq<char>) -> Seq<RouteKeyModel> {
    text::pieces(filter, '/').map_values(|t: Seq<char>| key_of(t))
}

impl RouteKey {
    pub fn from(token: &str) -> (r: RouteKey)
        ensures
            r@ == key_of(token@),
    {
        if text::same_text(token, "+") {
            RouteKey::OneLevel
        } else if text::same_text(token, "#") {
            RouteKey::RestLevels
        } else {
            RouteKey::Normal(token.to_owned())
        }
    }
}

impl Ident for RouteKey {
    fn same(&self, other: &Self) -> (r: bool) {
        match (self, other) {
            (RouteKey::Normal(a), RouteKey::Normal(b)) => *a == *b,
            (RouteKey::OneLevel, RouteKey::OneLevel) => true,
            (RouteKey::RestLevels, RouteKey::RestLevels) => true,
            _ => false,
        }
    }

    fn copy(&self) -> (r: Self) {
        match self {
            RouteKey::Normal(s) => RouteKey::Normal(s.clone()),
            RouteKey::OneLevel => RouteKey::OneLevel,
            RouteKey::RestLevels => RouteKey::RestLevels,
        }
    }
}

/// `true` iff the filter with the levels `path` matches the topic name with the levels `tokens`:
/// level by level, where `+` takes any level and `#`, at the end, one level or more.
pub open spec fn path_matches(path: Seq<RouteKeyModel>, tokens: Seq<Seq<char>>) -> bool
    decreases path.len(),
{
    if path.len() == 0 {
        tokens.len() == 0
    } else if tokens.len() == 0 {
        false
    } else {
        match path[0] {
            RouteKeyModel::RestLevels => path.len() == 1,
            RouteKeyModel::OneLevel => path_matches(path.drop_first(), tokens.drop_first()),
            RouteKeyModel::Normal(s) => s == tokens[0] && path_matches(
                path.drop_first(),
                tokens.drop_first(),
            ),
        }
    }
}

/// What is found for a topic name with the levels `tokens` below the filter levels `prefix`, where
/// `at` says what is kept for each filter. Where a key is found more than once, `#` goes before
/// `+`, and `+` before the level's own name, at the first level at which they differ.
pub open spec fn found<K, V>(
    at: spec_fn(Seq<RouteKeyModel>) -> Map<K, V>,
    prefix: Seq<RouteKeyModel>,
    tokens: Seq<Seq<char>>,
) -> Map<K, V>
    decreases tokens.len(),
{
    if tokens.len() == 0 {
        at(prefix)
    } else {
        let rest = tokens.drop_first();
        found(at, prefix.push(RouteKeyModel::Normal(tokens[0])), rest).union_prefer_right(
            found(at, prefix.push(RouteKeyModel::OneLevel), rest),
        ).union_prefer_right(at(prefix.push(RouteKeyModel::RestLevels)))
    }
}

/// A node of the tree: the peers of the filter that ends here, and the nodes below.
pub struct RouteNode<P, Key, Value> {
    children: Option<Vec<(RouteKey, RouteNode<P, Key, Value>)>>,
    peers: P,
    _marker: PhantomData<(Key, Value)>,
}

impl<P: Peers<Key, Value>, Key: Ident, Value> RouteNode<P, Key, Value> {
    /// The nodes below.
    spec fn below(&self) -> Seq<(RouteKey, RouteNode<P, Key, Value>)> {
        match self.children {
            Some(v) => v@,
            None => Seq::empty(),
        }
    }

    /// No key leads to two nodes, and no node below is empty.
    pub closed spec fn wf(&self) -> bool
        decreases self,
    {
        match self.children {
            None => true,
            Some(v) => {
                &&& forall|i: int, j: int|
                    0 <= i < v@.len() && 0 <= j < v@.len() && i != j ==> (#[trigger] v@[i]).0@ != (
                    #[trigger] v@[j]).0@
                &&& forall|i: int|
                    0 <= i < v@.len() ==> (#[trigger] v@[i]).1.wf() && !v@[i].1.no_peers()
            },
        }
    }

    /// Neither peers nor nodes below.
    pub closed spec fn no_peers(&self) -> bool {
        self.peers.kept() == Map::<Key::V, P::Kept>::empty() && self.below().len() == 0
    }

    spec fn child(&self, key: RouteKeyModel) -> Option<RouteNode<P, Key, Value>> {
        if exists|i: int| 0 <= i < self.below().len() && (#[trigger] self.below()[i]).0@ == key {
            let i = choose|i: int|
                0 <= i < self.below().len() && (#[trigger] self.below()[i]).0@ == key;
            Some(self.below()[i].1)
        } else {
            None
        }
    }

    /// The peers of the filter with the levels `path`.
    pub closed spec fn at(&self, path: Seq<RouteKeyModel>) -> Map<Key::V, P::Kept>
        decreases path.len(),
    {
        if path.len() == 0 {
            self.peers.kept()
        } else {
            match self.child(path[0]) {
                Some(node) => node.at(path.drop_first()),
                None => Map::empty(),
            }
        }
    }

    pub fn new() -> (r: RouteNode<P, Key, Value>)
        ensures
            r.wf(),
            r.no_peers(),
            forall|path: Seq<RouteKeyModel>| #[trigger] r.at(path) == Map::<Key::V, P::Kept>::empty(),
    {
        RouteNode { children: None, peers: P::new(), _marker: PhantomData }
    }

    pub fn is_empty(&self) -> (r: bool)
        ensures
            r == self.no_peers(),
    {
        self.peers.is_empty() && (match &self.children {
            Some(map) => map.is_empty(),
            None => true,
        })
    }

    /// In a sound node, a key leads to the node that stands under it.
    proof fn lemma_child(&self, i: int)
        requires
            self.wf(),
            0 <= i < self.below().len(),
        ensures
            self.child(self.below()[i].0@) == Some(self.below()[i].1),
            self.below()[i].1.wf(),
            !self.below()[i].1.no_peers(),
    {
    }

    /// A node without peers has none for any filter.
    proof fn lemma_no_peers(&self, path: Seq<RouteKeyModel>)
        requires
            self.no_peers(),
        ensures
            self.at(path) == Map::<Key::V, P::Kept>::empty(),
    {
    }

    /// A sound node that is not empty has peers for some filter.
    proof fn lemma_some_peers(&self) -> (path: Seq<RouteKeyModel>)
        requires
            self.wf(),
            !self.no_peers(),
        ensures
            self.at(path) != Map::<Key::V, P::Kept>::empty(),
        decreases self,
    {
        if self.peers.kept() != Map::<Key::V, P::Kept>::empty() {
            Seq::empty()
        } else {
            self.lemma_child(0);
            let (key, node) = self.below()[0];
            let rest = node.lemma_some_peers();
            let path = seq![key@] + rest;
            assert(path.drop_first() =~= rest);
            path
        }
    }

    /// Law: a sound node is empty iff it has no peers for any filter.
    pub proof fn law_empty_iff_no_peers(&self)
        requires
            self.wf(),
        ensures
            self.no_peers() <==> forall|path: Seq<RouteKeyModel>| #[trigger]
                self.at(path) == Map::<Key::V, P::Kept>::empty(),
    {
        if self.no_peers() {
            assert forall|path: Seq<RouteKeyModel>| #[trigger] self.at(path) == Map::<
                Key::V,
                P::Kept,
            >::empty() by {
                self.lemma_no_peers(path);
            }
        } else {
            let path = self.lemma_some_peers();
            assert(self.at(path) != Map::<Key::V, P::Kept>::empty());
        }
    }

    fn position(&self, key: &RouteKey) -> (r: Option<usize>)
        ensures
            match r {
                Some(i) => i < self.below().len() && self.below()[i as int].0@ == key@,
                None => forall|i: int|
                    0 <= i < self.below().len() ==> (#[trigger] self.below()[i]).0@ != key@,
            },
    {
        match &self.children {
            None => None,
            Some(map) => {
                let mut i: usize = 0;
                while i < map.len()
                    invariant
                        i <= map@.len(),
                        map@ == self.below(),
                        forall|j: int| 0 <= j < i ==> (#[trigger] map@[j]).0@ != key@,
                    decreases map@.len() - i,
                {
                    if map[i].0.same(key) {
                        return Some(i);
                    }
                    i = i + 1;
                }
                None
            },
        }
    }

    /// Inserts a peer for a filter.
    pub fn insert(&mut self, tf: &TopicFilter, item: P::Item) -> (r: bool)
        requires
            old(self).wf(),
        ensures
            final(self).wf(),
            forall|p: Seq<RouteKeyModel>| #[trigger]
                final(self).at(p) == (if p == filter_path(tf@) {
                    old(self).at(p).insert(P::item_key(item), P::item_kept(item))
                } else {
                    old(self).at(p)
                }),
            r == (old(self).at(filter_path(tf@)).contains_key(P::item_key(item))
                != P::reports_new()),
    {
        let tokens = text::split(tf.0.as_str(), '/');
        proof {
            lemma_keys_from(tokens@, tf@);
        }
        self.insert_at(&tokens, 0, item)
    }

    fn insert_at(&mut self, tokens: &Vec<String>, index: usize, item: P::Item) -> (r: bool)
        requires
            old(self).wf(),
            index <= tokens@.len(),
        ensures
            final(self).wf(),
            ({
                let path = keys_from(tokens@, index as int);
                &&& forall|p: Seq<RouteKeyModel>| #[trigger]
                    final(self).at(p) == (if p == path {
                        old(self).at(p).insert(P::item_key(item), P::item_kept(item))
                    } else {
                        old(self).at(p)
                    })
                &&& r == (old(self).at(path).contains_key(P::item_key(item)) != P::reports_new())
            }),
        decreases tokens@.len() - index,
    {
        let ghost before = *self;
        let ghost path = keys_from(tokens@, index as int);
        if index == tokens.len() {
            let r = self.peers.insert(item);
            assert forall|p: Seq<RouteKeyModel>| #[trigger] self.at(p) == (if p == path {
                before.at(p).insert(P::item_key(item), P::item_kept(item))
            } else {
                before.at(p)
            }) by {
                assert(path =~= Seq::empty());
                if p.len() == 0 {
                    assert(p =~= path);
                } else {
                    assert(self.below() == before.below());
                    assert(self.child(p[0]) == before.child(p[0]));
                }
            }
            return r;
        }
        let key = RouteKey::from(tokens[index].as_str());
        let ghost k = key@;
        proof {
            assert(path[0] == k);
            assert(path.drop_first() =~= keys_from(tokens@, index + 1));
        }
        if self.children.is_none() {
            self.children = Some(Vec::new());
        }
        assert(self.below() =~= before.below());
        assert(self.wf());
        let found = self.position(&key);
        let ghost mut place: int = 0;
        let r = match &mut self.children {
            Some(map) => {
                let i: usize = match found {
                    Some(i) => i,
                    None => {
                        map.push((key, RouteNode::new()));
                        map.len() - 1
                    },
                };
                proof {
                    place = i as int;
                }
                let r = map[i].1.insert_at(tokens, index + 1, item);
                proof {
                    if found is Some {
                        before.lemma_child(i as int);
                    }
                    let now = map@[i as int].1;
                    assert(now.at(path.drop_first()).contains_key(P::item_key(item)));
                    if now.no_peers() {
                        now.lemma_no_peers(path.drop_first());
                    }
                }
                r
            },
            None => false,
        };
        proof {
            let after = *self;
            assert(after.below()[place].0@ == k);
            assert(forall|j: int|
                0 <= j < before.below().len() && j != place ==> after.below()[j]
                    == #[trigger] before.below()[j]);
            assert(forall|j: int|
                0 <= j < after.below().len() && j != place ==> #[trigger] after.below()[j]
                    == before.below()[j] && j < before.below().len());
            Self::lemma_other_children(before, after, place);
            after.lemma_child(place);
            assert forall|p: Seq<RouteKeyModel>| #[trigger] after.at(p) == (if p == path {
                before.at(p).insert(P::item_key(item), P::item_kept(item))
            } else {
                before.at(p)
            }) by {
                if p.len() > 0 && p[0] == k {
                    assert(after.at(p) == after.below()[place].1.at(p.drop_first()));
                    if p.drop_first() == path.drop_first() {
                        assert(p =~= seq![k] + p.drop_first());
                        assert(path =~= seq![k] + path.drop_first());
                    }
                } else if p.len() > 0 {
                    assert(after.child(p[0]) == before.child(p[0]));
                }
            }
        }
        r
    }

    /// Two nodes that differ at one place lead to the same nodes under all other keys.
    proof fn lemma_other_children(before: Self, after: Self, place: int)
        requires
            before.wf(),
            after.wf(),
            0 <= place < after.below().len(),
            place <= before.below().len(),
            place < before.below().len() ==> before.below()[place].0@ == after.below()[place].0@,
            forall|j: int|
                0 <= j < before.below().len() && j != place ==> j < after.below().len()
                    && after.below()[j] == #[trigger] before.below()[j],
            forall|j: int|
                0 <= j < after.below().len() && j != place ==> #[trigger] after.below()[j]
                    == before.below()[j] && j < before.below().len(),
        ensures
            forall|key: RouteKeyModel|
                key != after.below()[place].0@ ==> #[trigger] after.child(key) == before.child(key),
    {
        assert forall|key: RouteKeyModel| key != after.below()[place].0@ implies #[trigger] after.child(
            key,
        ) == before.child(key) by {
            if before.child(key) is Some {
                let j = choose|j: int|
                    0 <= j < before.below().len() && (#[trigger] before.below()[j]).0@ == key;
                before.lemma_child(j);
                after.lemma_child(j);
            }
            if after.child(key) is Some {
                let j = choose|j: int|
                    0 <= j < after.below().len() && (#[trigger] after.below()[j]).0@ == key;
                after.lemma_child(j);
                before.lemma_child(j);
            }
        }
    }

    /// Taking the node under one key out changes nothing under the others.
    proof fn lemma_removed_child(before: Self, after: Self, place: int)
        requires
            before.wf(),
            0 <= place < before.below().len(),
            after.below() == before.below().remove(place),
            after.peers == before.peers,
        ensures
            after.wf(),
            after.child(before.below()[place].0@) is None,
            forall|key: RouteKeyModel|
                key != before.below()[place].0@ ==> #[trigger] after.child(key) == before.child(key),
    {
        assert forall|j: int| 0 <= j < after.below().len() implies #[trigger] after.below()[j] == (
        if j < place {
            before.below()[j]
        } else {
            before.below()[j + 1]
        }) by {}
        assert(after.wf()) by {
            assert forall|i: int, j: int|
                0 <= i < after.below().len() && 0 <= j < after.below().len() && i != j implies (
            #[trigger] after.below()[i]).0@ != (#[trigger] after.below()[j]).0@ by {}
        }
        assert forall|key: RouteKeyModel| key != before.below()[place].0@ implies #[trigger] after.child(
            key,
        ) == before.child(key) by {
            if before.child(key) is Some {
                let j = choose|j: int|
                    0 <= j < before.below().len() && (#[trigger] before.below()[j]).0@ == key;
                before.lemma_child(j);
                let l = if j < place {
                    j
                } else {
                    j - 1
                };
                assert(after.below()[l] == before.below()[j]);
                after.lemma_child(l);
            }
            if after.child(key) is Some {
                let l = choose|l: int|
                    0 <= l < after.below().len() && (#[trigger] after.below()[l]).0@ == key;
                after.lemma_child(l);
                let j = if l < place {
                    l
                } else {
                    l + 1
                };
                before.lemma_child(j);
            }
        }
    }

    /// Removes a peer from the filter with the levels from the `index`-th on, and the nodes that are
    /// empty without it.
    pub fn _remove(&mut self, tokens: &Vec<String>, index: usize, key: &Key) -> (r: bool)
        requires
            old(self).wf(),
            index <= tokens@.len(),
        ensures
            final(self).wf(),
            ({
                let path = keys_from(tokens@, index as int);
                &&& forall|p: Seq<RouteKeyModel>| #[trigger]
                    final(self).at(p) == (if p == path {
                        old(self).at(p).remove(key@)
                    } else {
                        old(self).at(p)
                    })
                &&& r == old(self).at(path).contains_key(key@)
            }),
        decreases tokens@.len() - index,
    {
        let ghost before = *self;
        let ghost path = keys_from(tokens@, index as int);
        if index == tokens.len() {
            let r = self.peers.remove(key);
            assert forall|p: Seq<RouteKeyModel>| #[trigger] self.at(p) == (if p == path {
                before.at(p).remove(key@)
            } else {
                before.at(p)
            }) by {
                assert(path =~= Seq::empty());
                if p.len() == 0 {
                    assert(p =~= path);
                } else {
                    assert(self.below() == before.below());
                    assert(self.child(p[0]) == before.child(p[0]));
                }
            }
            return r;
        }
        let route_key = RouteKey::from(tokens[index].as_str());
        let ghost k = route_key@;
        proof {
            assert(path[0] == k);
            assert(path.drop_first() =~= keys_from(tokens@, index + 1));
            assert(path =~= seq![k] + path.drop_first());
        }
        let i: usize = match self.position(&route_key) {
            Some(i) => i,
            None => {
                assert(self.child(k) is None);
                assert(self.at(path).remove(key@) =~= self.at(path));
                return false;
            },
        };
        let mut child_empty = false;
        let r = match &mut self.children {
            Some(map) => {
                proof {
                    before.lemma_child(i as int);
                }
                let r = map[i].1._remove(tokens, index + 1, key);
                child_empty = map[i].1.is_empty();
                r
            },
            None => false,
        };
        let ghost middle = *self;
        let ghost node = middle.below()[i as int].1;
        if child_empty {
            match &mut self.children {
                Some(map) => {
                    map.remove(i);
                },
                None => {},
            }
        }
        proof {
            let after = *self;
            assert(forall|j: int|
                0 <= j < before.below().len() && j != i ==> middle.below()[j]
                    == #[trigger] before.below()[j]);
            assert(before.child(k) == Some(before.below()[i as int].1));
            if child_empty {
                Self::lemma_removed_child_of(before, middle, after, i as int);
            } else {
                Self::lemma_other_children(before, after, i as int);
                after.lemma_child(i as int);
            }
            assert forall|p: Seq<RouteKeyModel>| #[trigger] after.at(p) == (if p == path {
                before.at(p).remove(key@)
            } else {
                before.at(p)
            }) by {
                if p.len() > 0 && p[0] == k {
                    if child_empty {
                        node.lemma_no_peers(p.drop_first());
                    }
                    assert(after.at(p) == node.at(p.drop_first()));
                    assert(p =~= seq![k] + p.drop_first());
                } else if p.len() > 0 {
                    assert(after.child(p[0]) == before.child(p[0]));
                }
            }
        }
        r
    }

    /// Changing the node under one key and taking it out is taking it out.
    proof fn lemma_removed_child_of(before: Self, middle: Self, after: Self, place: int)
        requires
            before.wf(),
            0 <= place < before.below().len(),
            middle.below().len() == before.below().len(),
            forall|j: int|
                0 <= j < before.below().len() && j != place ==> middle.below()[j]
                    == #[trigger] before.below()[j],
            after.below() == middle.below().remove(place),
            after.peers == before.peers,
        ensures
            after.wf(),
            after.child(before.below()[place].0@) is None,
            forall|key: RouteKeyModel|
                key != before.below()[place].0@ ==> #[trigger] after.child(key) == before.child(key),
    {
        assert(after.below() =~= before.below().remove(place));
        Self::lemma_removed_child(before, after, place);
    }

    /// Removes a peer from a filter, and the nodes that are empty without it.
    pub fn remove(&mut self, tf: &TopicFilter, key: &Key) -> (r: bool)
        requires
            old(self).wf(),
        ensures
            final(self).wf(),
            forall|p: Seq<RouteKeyModel>| #[trigger]
                final(self).at(p) == (if p == filter_path(tf@) {
                    old(self).at(p).remove(key@)
                } else {
                    old(self).at(p)
                }),
            r == old(self).at(filter_path(tf@)).contains_key(key@),
    {
        let tokens = text::split(tf.0.as_str(), '/');
        proof {
            lemma_keys_from(tokens@, tf@);
        }
        self._remove(&tokens, 0, key)
    }

    /// What the node keeps, by filter.
    pub open spec fn table(&self) -> spec_fn(Seq<RouteKeyModel>) -> Map<Key::V, P::Kept> {
        |path: Seq<RouteKeyModel>| self.at(path)
    }

    /// The peers of all filters that match the levels from the `index`-th on.
    pub fn _search(&self, tokens: &Vec<String>, index: usize) -> (r: P)
        requires
            self.wf(),
            index <= tokens@.len(),
        ensures
            r.kept() == found(self.table(), Seq::empty(), text::views(tokens@).skip(index as int)),
        decreases tokens@.len() - index,
    {
        let mut peers = P::new();
        let ghost left = text::views(tokens@).skip(index as int);
        if index == tokens.len() {
            peers.extend(self.peers.copy());
            assert(peers.kept() =~= self.peers.kept());
            return peers;
        }
        let ghost rest = text::views(tokens@).skip(index + 1);
        let ghost none = Map::<Key::V, P::Kept>::empty();
        let ghost token = tokens@[index as int]@;
        let ghost normal = found(self.table(), seq![RouteKeyModel::Normal(token)], rest);
        let ghost one = found(self.table(), seq![RouteKeyModel::OneLevel], rest);
        let ghost below = self.at(seq![RouteKeyModel::RestLevels]);
        proof {
            assert(left.drop_first() =~= rest);
            assert(Seq::<RouteKeyModel>::empty().push(RouteKeyModel::Normal(token)) =~= seq![
                RouteKeyModel::Normal(token),
            ]);
            assert(Seq::<RouteKeyModel>::empty().push(RouteKeyModel::OneLevel) =~= seq![
                RouteKeyModel::OneLevel,
            ]);
            assert(Seq::<RouteKeyModel>::empty().push(RouteKeyModel::RestLevels) =~= seq![
                RouteKeyModel::RestLevels,
            ]);
            self.lemma_found_below(RouteKeyModel::Normal(token), rest);
            self.lemma_found_below(RouteKeyModel::OneLevel, rest);
            self.lemma_found_below(RouteKeyModel::RestLevels, Seq::empty());
        }
        match &self.children {
            Some(map) => {
                if let Some(i) = self.position(&RouteKey::Normal(tokens[index].clone())) {
                    proof {
                        self.lemma_child(i as int);
                    }
                    peers.extend(map[i].1._search(tokens, index + 1));
                }
                assert(peers.kept() =~= normal);
                if let Some(i) = self.position(&RouteKey::OneLevel) {
                    proof {
                        self.lemma_child(i as int);
                    }
                    peers.extend(map[i].1._search(tokens, index + 1));
                }
                assert(peers.kept() =~= normal.union_prefer_right(one));
                if let Some(i) = self.position(&RouteKey::RestLevels) {
                    proof {
                        self.lemma_child(i as int);
                    }
                    peers.extend(map[i].1.peers.copy());
                }
                assert(peers.kept() =~= normal.union_prefer_right(one).union_prefer_right(below));
            },
            None => {
                assert(peers.kept() =~= normal.union_prefer_right(one).union_prefer_right(below));
            },
        }
        peers
    }

    /// Below a key, what is found is what the node under it finds.
    proof fn lemma_found_below(&self, key: RouteKeyModel, tokens: Seq<Seq<char>>)
        ensures
            found(self.table(), seq![key], tokens) == (match self.child(key) {
                Some(node) => found(node.table(), Seq::empty(), tokens),
                None => Map::empty(),
            }),
    {
        match self.child(key) {
            Some(node) => {
                assert forall|p: Seq<RouteKeyModel>|
                    self.table()(#[trigger] (seq![key] + p)) == node.table()(
                        Seq::<RouteKeyModel>::empty() + p,
                    ) by {
                    assert((seq![key] + p).drop_first() =~= p);
                    assert(Seq::<RouteKeyModel>::empty() + p =~= p);
                }
                lemma_found_shift(self.table(), seq![key], node.table(), Seq::empty(), tokens);
            },
            None => {
                assert forall|p: Seq<RouteKeyModel>|
                    self.table()(#[trigger] (seq![key] + p)) == Map::<
                        Key::V,
                        P::Kept,
                    >::empty() by {
                    assert((seq![key] + p)[0] == key);
                }
                lemma_found_nothing(self.table(), seq![key], tokens);
            },
        }
    }

    /// The peers of all filters that match a topic name.
    pub fn search(&self, name: &TopicName) -> (r: P)
        requires
            self.wf(),
        ensures
            r.kept() == found(self.table(), Seq::empty(), text::pieces(name@, '/')),
    {
        let tokens = text::split(name.0.as_str(), '/');
        assert(text::views(tokens@).skip(0) =~= text::pieces(name@, '/'));
        self._search(&tokens, 0)
    }
}

/// What is found depends only on what is kept below the prefix.
pub proof fn lemma_found_shift<K, V>(
    f: spec_fn(Seq<RouteKeyModel>) -> Map<K, V>,
    a: Seq<RouteKeyModel>,
    g: spec_fn(Seq<RouteKeyModel>) -> Map<K, V>,
    b: Seq<RouteKeyModel>,
    tokens: Seq<Seq<char>>,
)
    requires
        forall|p: Seq<RouteKeyModel>| f(#[trigger] (a + p)) == g(b + p),
    ensures
        found(f, a, tokens) == found(g, b, tokens),
    decreases tokens.len(),
{
    let empty = Seq::<RouteKeyModel>::empty();
    if tokens.len() == 0 {
        assert(a + empty =~= a);
        assert(b + empty =~= b);
    } else {
        assert forall|key: RouteKeyModel, p: Seq<RouteKeyModel>|
            f(#[trigger] (a.push(key) + p)) == g(b.push(key) + p) by {
            assert(a.push(key) + p =~= a + (seq![key] + p));
            assert(b.push(key) + p =~= b + (seq![key] + p));
        }
        let rest = tokens.drop_first();
        let n = RouteKeyModel::Normal(tokens[0]);
        lemma_found_shift(f, a.push(n), g, b.push(n), rest);
        let o = RouteKeyModel::OneLevel;
        lemma_found_shift(f, a.push(o), g, b.push(o), rest);
        let r = RouteKeyModel::RestLevels;
        assert(a.push(r) + empty =~= a.push(r));
        assert(b.push(r) + empty =~= b.push(r));
    }
}

/// Where nothing is kept below the prefix, nothing is found.
pub proof fn lemma_found_nothing<K, V>(
    f: spec_fn(Seq<RouteKeyModel>) -> Map<K, V>,
    a: Seq<RouteKeyModel>,
    tokens: Seq<Seq<char>>,
)
    requires
        forall|p: Seq<RouteKeyModel>| f(#[trigger] (a + p)) == Map::<K, V>::empty(),
    ensures
        found(f, a, tokens) == Map::<K, V>::empty(),
    decreases tokens.len(),
{
    let empty = Seq::<RouteKeyModel>::empty();
    if tokens.len() == 0 {
        assert(a + empty =~= a);
    } else {
        assert forall|key: RouteKeyModel, p: Seq<RouteKeyModel>|
            f(#[trigger] (a.push(key) + p)) == Map::<K, V>::empty() by {
            assert(a.push(key) + p =~= a + (seq![key] + p));
        }
        let rest = tokens.drop_first();
        lemma_found_nothing(f, a.push(RouteKeyModel::Normal(tokens[0])), rest);
        lemma_found_nothing(f, a.push(RouteKeyModel::OneLevel), rest);
        let r = RouteKeyModel::RestLevels;
        assert(a.push(r) + empty =~= a.push(r));
        assert(found(f, a, tokens) =~= Map::<K, V>::empty());
    }
}

/// What is found under a key is kept under it for a filter that matches.
proof fn lemma_found_is_kept<K, V>(
    at: spec_fn(Seq<RouteKeyModel>) -> Map<K, V>,
    prefix: Seq<RouteKeyModel>,
    tokens: Seq<Seq<char>>,
    k: K,
) -> (path: Seq<RouteKeyModel>)
    requires
        found(at, prefix, tokens).contains_key(k),
    ensures
        path_matches(path, tokens),
        at(prefix + path).contains_key(k),
        at(prefix + path)[k] == found(at, prefix, tokens)[k],
    decreases tokens.len(),
{
    if tokens.len() == 0 {
        let path = Seq::<RouteKeyModel>::empty();
        assert(prefix + path =~= prefix);
        path
    } else {
        let rest = tokens.drop_first();
        let last = RouteKeyModel::RestLevels;
        let one = RouteKeyModel::OneLevel;
        if at(prefix.push(last)).contains_key(k) {
            assert(prefix + seq![last] =~= prefix.push(last));
            seq![last]
        } else {
            let key = if found(at, prefix.push(one), rest).contains_key(k) {
                one
            } else {
                RouteKeyModel::Normal(tokens[0])
            };
            let below = lemma_found_is_kept(at, prefix.push(key), rest, k);
            let path = seq![key] + below;
            assert(path.drop_first() =~= below);
            assert(prefix + path =~= prefix.push(key) + below);
            path
        }
    }
}

/// What is kept for a filter that matches is found.
proof fn lemma_kept_is_found<K, V>(
    at: spec_fn(Seq<RouteKeyModel>) -> Map<K, V>,
    prefix: Seq<RouteKeyModel>,
    path: Seq<RouteKeyModel>,
    tokens: Seq<Seq<char>>,
    k: K,
)
    requires
        path_matches(path, tokens),
        at(prefix + path).contains_key(k),
    ensures
        found(at, prefix, tokens).contains_key(k),
    decreases tokens.len(),
{
    if path.len() == 0 {
        assert(prefix + path =~= prefix);
    } else {
        let rest = tokens.drop_first();
        match path[0] {
            RouteKeyModel::RestLevels => {
                assert(prefix + path =~= prefix.push(path[0]));
            },
            _ => {
                assert(prefix + path =~= prefix.push(path[0]) + path.drop_first());
                lemma_kept_is_found(at, prefix.push(path[0]), path.drop_first(), rest, k);
            },
        }
    }
}

/// Law: a search finds a key iff the key is kept for a filter that matches the name, and finds it
/// with a value that is kept for such a filter.
pub proof fn law_search_finds_the_matching_filters<K, V>(
    at: spec_fn(Seq<RouteKeyModel>) -> Map<K, V>,
    tokens: Seq<Seq<char>>,
    k: K,
)
    ensures
        found(at, Seq::empty(), tokens).contains_key(k) <==> exists|path: Seq<RouteKeyModel>|
            path_matches(path, tokens) && (#[trigger] at(path)).contains_key(k),
        found(at, Seq::empty(), tokens).contains_key(k) ==> exists|path: Seq<RouteKeyModel>|
            path_matches(path, tokens) && (#[trigger] at(path)).contains_key(k) && at(path)[k]
                == found(at, Seq::empty(), tokens)[k],
{
    let empty = Seq::<RouteKeyModel>::empty();
    if found(at, empty, tokens).contains_key(k) {
        let path = lemma_found_is_kept(at, empty, tokens, k);
        assert(empty + path =~= path);
        assert(at(path).contains_key(k));
    }
    if exists|path: Seq<RouteKeyModel>|
        path_matches(path, tokens) && (#[trigger] at(path)).contains_key(k) {
        let path = choose|path: Seq<RouteKeyModel>|
            path_matches(path, tokens) && (#[trigger] at(path)).contains_key(k);
        assert(empty + path =~= path);
        lemma_kept_is_found(at, empty, path, tokens, k);
    }
}

/// How early a level counts where several filters match: `#` first, then `+`, then the level's name.
pub open spec fn rank(key: RouteKeyModel) -> int {
    match key {
        RouteKeyModel::RestLevels => 2,
        RouteKeyModel::OneLevel => 1,
        RouteKeyModel::Normal(_) => 0,
    }
}

/// `true` iff one filter goes before the other: its level counts earlier where they first differ.
pub open spec fn goes_before(p: Seq<RouteKeyModel>, q: Seq<RouteKeyModel>) -> bool {
    exists|i: int|
        {
            &&& 0 <= i < p.len()
            &&& i < q.len()
            &&& p.take(i) == q.take(i)
            &&& rank(#[trigger] p[i]) > rank(q[i])
        }
}

/// `path` is the first of the filters that match and keep the key.
pub open spec fn is_first<K, V>(
    at: spec_fn(Seq<RouteKeyModel>) -> Map<K, V>,
    prefix: Seq<RouteKeyModel>,
    tokens: Seq<Seq<char>>,
    k: K,
    path: Seq<RouteKeyModel>,
) -> bool {
    &&& path_matches(path, tokens)
    &&& at(prefix + path).contains_key(k)
    &&& forall|q: Seq<RouteKeyModel>|
        path_matches(q, tokens) && q != path && (#[trigger] at(prefix + q)).contains_key(k)
            ==> goes_before(path, q)
}

/// One level more at the front changes nothing.
proof fn lemma_goes_before_below(
    key: RouteKeyModel,
    p: Seq<RouteKeyModel>,
    q: Seq<RouteKeyModel>,
)
    requires
        goes_before(p, q),
    ensures
        goes_before(seq![key] + p, seq![key] + q),
{
    let i = choose|i: int|
        {
            &&& 0 <= i < p.len()
            &&& i < q.len()
            &&& p.take(i) == q.take(i)
            &&& rank(#[trigger] p[i]) > rank(q[i])
        };
    let a = seq![key] + p;
    let b = seq![key] + q;
    assert(a[i + 1] == p[i]);
    assert(b[i + 1] == q[i]);
    assert(a.take(i + 1) =~= seq![key] + p.take(i));
    assert(b.take(i + 1) =~= seq![key] + q.take(i));
}

/// What is found is what the first filter keeps.
proof fn lemma_found_is_first<K, V>(
    at: spec_fn(Seq<RouteKeyModel>) -> Map<K, V>,
    prefix: Seq<RouteKeyModel>,
    tokens: Seq<Seq<char>>,
    k: K,
) -> (path: Seq<RouteKeyModel>)
    requires
        found(at, prefix, tokens).contains_key(k),
    ensures
        is_first(at, prefix, tokens, k, path),
        at(prefix + path)[k] == found(at, prefix, tokens)[k],
    decreases tokens.len(),
{
    let empty = Seq::<RouteKeyModel>::empty();
    if tokens.len() == 0 {
        assert(prefix + empty =~= prefix);
        assert forall|q: Seq<RouteKeyModel>|
            path_matches(q, tokens) && q != empty && (#[trigger] at(prefix + q)).contains_key(
                k,
            ) implies goes_before(empty, q) by {
            assert(q =~= empty);
        }
        empty
    } else {
        let rest = tokens.drop_first();
        let one = RouteKeyModel::OneLevel;
        let normal = RouteKeyModel::Normal(tokens[0]);
        let all = seq![RouteKeyModel::RestLevels];
        assert(prefix + all =~= prefix.push(RouteKeyModel::RestLevels));
        if at(prefix + all).contains_key(k) {
            assert forall|q: Seq<RouteKeyModel>|
                path_matches(q, tokens) && q != all && (#[trigger] at(prefix + q)).contains_key(
                    k,
                ) implies goes_before(all, q) by {
                if q[0] is RestLevels {
                    assert(q =~= all);
                }
                assert(all.take(0) =~= q.take(0));
                assert(rank(all[0]) > rank(q[0]));
            }
            all
        } else {
            let key = if found(at, prefix.push(one), rest).contains_key(k) {
                one
            } else {
                normal
            };
            let below = lemma_found_is_first(at, prefix.push(key), rest, k);
            let path = seq![key] + below;
            assert(path.drop_first() =~= below);
            assert(prefix + path =~= prefix.push(key) + below);
            assert forall|q: Seq<RouteKeyModel>|
                path_matches(q, tokens) && q != path && (#[trigger] at(prefix + q)).contains_key(
                    k,
                ) implies goes_before(path, q) by {
                let tail = q.drop_first();
                assert(q =~= seq![q[0]] + tail);
                assert(prefix + q =~= prefix.push(q[0]) + tail);
                if q[0] is RestLevels {
                    assert(q =~= all);
                } else if q[0] == key {
                    assert(at(prefix.push(key) + tail).contains_key(k));
                    assert(tail != below);
                    lemma_goes_before_below(key, below, tail);
                } else if q[0] is OneLevel {
                    lemma_kept_is_found(at, prefix.push(one), tail, rest, k);
                } else {
                    assert(path.take(0) =~= q.take(0));
                    assert(rank(path[0]) > rank(q[0]));
                }
            }
            path
        }
    }
}

/// Law: where several filters that match a name keep a key, a search gives what the first of them
/// keeps: the one with `#`, or else with `+`, at the first level at which it differs from another.
pub proof fn law_search_gives_what_the_first_keeps<K, V>(
    at: spec_fn(Seq<RouteKeyModel>) -> Map<K, V>,
    tokens: Seq<Seq<char>>,
    k: K,
    path: Seq<RouteKeyModel>,
)
    requires
        path_matches(path, tokens),
        at(path).contains_key(k),
        forall|q: Seq<RouteKeyModel>|
            path_matches(q, tokens) && q != path && (#[trigger] at(q)).contains_key(k)
                ==> goes_before(path, q),
    ensures
        found(at, Seq::empty(), tokens).contains_key(k),
        found(at, Seq::empty(), tokens)[k] == at(path)[k],
{
    let empty = Seq::<RouteKeyModel>::empty();
    assert(empty + path =~= path);
    lemma_kept_is_found(at, empty, path, tokens, k);
    let first = lemma_found_is_first(at, empty, tokens, k);
    assert(empty + first =~= first);
    if first != path {
        assert(at(first).contains_key(k));
        assert(goes_before(path, first));
        assert(at(empty + path).contains_key(k));
        assert(goes_before(first, path));
        let i = choose|i: int|
            {
                &&& 0 <= i < path.len()
                &&& i < first.len()
                &&& path.take(i) == first.take(i)
                &&& rank(#[trigger] path[i]) > rank(first[i])
            };
        let j = choose|j: int|
            {
                &&& 0 <= j < first.len()
                &&& j < path.len()
                &&& first.take(j) == path.take(j)
                &&& rank(#[trigger] first[j]) > rank(path[j])
            };
        if i < j {
            assert(first.take(j)[i] == path.take(j)[i]);
        } else if j < i {
            assert(first.take(i)[j] == path.take(i)[j]);
        }
    }
}

/// Law: levels before the one at which a search begins do not matter, and where no level is left the
/// search finds what is kept for the filter that ends there, and nothing below it.
pub proof fn law_search_from_a_level<K, V>(
    at: spec_fn(Seq<RouteKeyModel>) -> Map<K, V>,
    tokens: Seq<String>,
    index: int,
)
    requires
        0 <= index <= tokens.len(),
    ensures
        found(at, Seq::empty(), text::views(tokens).skip(index)) == found(
            at,
            Seq::empty(),
            text::views(tokens.skip(index)).skip(0),
        ),
        index == tokens.len() ==> found(at, Seq::empty(), text::views(tokens).skip(index)) == at(
            Seq::empty(),
        ),
{
    assert(text::views(tokens).skip(index) =~= text::views(tokens.skip(index)).skip(0));
}

/// Two filters with the same levels are the same filter.
pub proof fn lemma_filter_path_injective(f: Seq<char>, g: Seq<char>)
    requires
        filter_path(f) == filter_path(g),
    ensures
        f == g,
{
    let a = text::pieces(f, '/');
    let b = text::pieces(g, '/');
    assert(filter_path(f).len() == a.len());
    assert(filter_path(g).len() == b.len());
    assert forall|i: int| 0 <= i < a.len() implies a[i] == #[trigger] b[i] by {
        assert(filter_path(f)[i] == key_of(a[i]));
        assert(filter_path(g)[i] == key_of(b[i]));
    }
    assert(a =~= b);
    text::lemma_pieces_injective(f, g, '/');
}

/// The keys of all levels of a split filter are its path.
proof fn lemma_keys_from(tokens: Seq<String>, filter: Seq<char>)
    requires
        text::views(tokens) == text::pieces(filter, '/'),
    ensures
        keys_from(tokens, 0) == filter_path(filter),
{
    assert(tokens.skip(0) =~= tokens);
    assert forall|i: int| 0 <= i < tokens.len() implies #[trigger] keys_from(tokens, 0)[i]
        == filter_path(filter)[i] by {
        assert(text::views(tokens)[i] == tokens[i]@);
    }
    assert(keys_from(tokens, 0) =~= filter_path(filter));
}

/// The levels of a filter from the `index`-th on, as keys.
pub open spec fn keys_from(tokens: Seq<String>, index: int) -> Seq<RouteKeyModel> {
    tokens.skip(index).map_values(|t: String| key_of(t@))
}

} // verus!
