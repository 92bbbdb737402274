//! Who subscribed to a topic.
use vstd::prelude::*;

use crate::assoc::{AssocMap, Ident};

verus! {

/// A collection of peers by key, as a routing node keeps it.
pub trait Peers<Key: Ident, Value>: Sized {
    type Item;

    /// What is kept with each key.
    type Kept;

    /// What is kept, by key.
    spec fn kept(&self) -> Map<Key::V, Self::Kept>;

    spec fn item_key(item: Self::Item) -> Key::V;

    spec fn item_kept(item: Self::Item) -> Self::Kept;

    /// What `insert` returns for a key that was not there.
    spec fn reports_new() -> bool;

    fn new() -> (r: Self)
        ensures
            r.kept() == Map::<Key::V, Self::Kept>::empty(),
    ;

    fn insert(&mut self, item: Self::Item) -> (r: bool)
        ensures
            final(self).kept() == old(self).kept().insert(
                Self::item_key(item),
                Self::item_kept(item),
            ),
            r == (old(self).kept().contains_key(Self::item_key(item)) != Self::reports_new()),
    ;

    fn remove(&mut self, key: &Key) -> (r: bool)
        ensures
            final(self).kept() == old(self).kept().remove(key@),
            r == old(self).kept().contains_key(key@),
    ;

    fn contains(&self, key: &Key) -> (r: bool)
        ensures
            r == self.kept().contains_key(key@),
    ;

    fn is_empty(&self) -> (r: bool)
        ensures
            r == (self.kept() == Map::<Key::V, Self::Kept>::empty()),
    ;

    /// Takes the other peers in; where a key is in both, theirs is kept.
    fn extend(&mut self, other: Self)
        ensures
            final(self).kept() == old(self).kept().union_prefer_right(other.kept()),
    ;

    fn copy(&self) -> (r: Self)
        ensures
            r.kept() == self.kept(),
    ;
}

/// Peers with a value each.
pub struct PeerMap<Key: Ident, Value> {
    pub inner: AssocMap<Key, Value>,
}

/// Peers without values.
pub struct PeerSet<Key: Ident> {
    pub inner: AssocMap<Key, ()>,
}

/// Copies a map whose values are plain.
pub fn copy_map<Key: Ident, Value: Copy>(m: &AssocMap<Key, Value>) -> (r: AssocMap<Key, Value>)
    ensures
        r@ == m@,
        r.keys() == m.keys(),
{
    let mut r: AssocMap<Key, Value> = AssocMap::new();
    let n: usize = m.len();
    let mut i: usize = 0;
    while i < n
        invariant
            i <= n == m.keys().len(),
            m.keys().no_duplicates(),
            r.keys() == m.keys().take(i as int),
            r@ == m@.restrict(m.keys().take(i as int).to_set()),
        decreases n - i,
    {
        let key = m.key_at(i).copy();
        let value = *m.value_at(i);
        proof {
            r.lemma_keys();
            let k = m.keys()[i as int];
            assert(!m.keys().take(i as int).contains(k));
            assert(!r@.contains_key(k));
            let before = m.keys().take(i as int);
            let after = m.keys().take(i + 1);
            assert(after =~= before.push(k));
            assert(after.to_set() =~= before.to_set().insert(k)) by {
                assert forall|x: Key::V| after.contains(x) <==> before.contains(x) || x == k by {
                    if after.contains(x) {
                        let j = choose|j: int| 0 <= j < after.len() && after[j] == x;
                        if j < i {
                            assert(before[j] == x);
                        }
                    }
                    if before.contains(x) {
                        let j = choose|j: int| 0 <= j < before.len() && before[j] == x;
                        assert(after[j] == x);
                    }
                    if x == k {
                        assert(after[i as int] == x);
                    }
                }
            }
            assert(m@.restrict(after.to_set()) =~= m@.restrict(before.to_set()).insert(k, value));
        }
        r.insert(key, value);
        i = i + 1;
    }
    proof {
        m.lemma_keys();
        assert(m.keys().take(n as int) =~= m.keys());
        assert(m@.restrict(m.keys().to_set()) =~= m@);
    }
    r
}

/// Takes all entries of the other map in.
pub fn extend_map<Key: Ident, Value>(m: &mut AssocMap<Key, Value>, other: AssocMap<Key, Value>)
    ensures
        final(m)@ == old(m)@.union_prefer_right(other@),
{
    let mut other = other;
    let ghost all = other@;
    let ghost mut moved = Map::<Key::V, Value>::empty();
    assert(m@ =~= old(m)@.union_prefer_right(moved));
    loop
        invariant
            m@ == old(m)@.union_prefer_right(moved),
            all == other@.union_prefer_right(moved),
            forall|k: Key::V| moved.contains_key(k) ==> !(#[trigger] other@.contains_key(k)),
        ensures
            m@ == old(m)@.union_prefer_right(all),
        decreases other.keys().len(),
    {
        let ghost left = other@;
        match other.pop() {
            Some((key, value)) => {
                let ghost k = key@;
                m.insert(key, value);
                proof {
                    let after = moved.insert(k, value);
                    assert(m@ =~= old(m)@.union_prefer_right(after));
                    assert(all =~= other@.union_prefer_right(after));
                    moved = after;
                }
            },
            None => {
                proof {
                    other.lemma_keys();
                    assert(other@ =~= Map::<Key::V, Value>::empty());
                    assert(all =~= moved);
                }
                break;
            },
        }
    }
}

impl<Key: Ident, Value: Copy> Peers<Key, Value> for PeerMap<Key, Value> {
    type Item = (Key, Value);

    type Kept = Value;

    open spec fn kept(&self) -> Map<Key::V, Value> {
        self.inner@
    }

    open spec fn item_key(item: (Key, Value)) -> Key::V {
        item.0@
    }

    open spec fn item_kept(item: (Key, Value)) -> Value {
        item.1
    }

    open spec fn reports_new() -> bool {
        false
    }

    fn new() -> (r: Self) {
        PeerMap { inner: AssocMap::new() }
    }

    fn insert(&mut self, item: (Key, Value)) -> (r: bool) {
        self.inner.insert(item.0, item.1).is_some()
    }

    fn remove(&mut self, key: &Key) -> (r: bool) {
        self.inner.remove(key).is_some()
    }

    fn contains(&self, key: &Key) -> (r: bool) {
        self.inner.contains_key(key)
    }

    fn is_empty(&self) -> (r: bool) {
        self.inner.is_empty()
    }

    fn extend(&mut self, other: Self) {
        extend_map(&mut self.inner, other.inner)
    }

    fn copy(&self) -> (r: Self) {
        PeerMap { inner: copy_map(&self.inner) }
    }
}

impl<Key: Ident, Value> Peers<Key, Value> for PeerSet<Key> {
    type Item = Key;

    type Kept = ();

    open spec fn kept(&self) -> Map<Key::V, ()> {
        self.inner@
    }

    open spec fn item_key(item: Key) -> Key::V {
        item@
    }

    open spec fn item_kept(item: Key) -> () {
        ()
    }

    open spec fn reports_new() -> bool {
        true
    }

    fn new() -> (r: Self) {
        PeerSet { inner: AssocMap::new() }
    }

    fn insert(&mut self, item: Key) -> (r: bool) {
        self.inner.insert(item, ()).is_none()
    }

    fn remove(&mut self, key: &Key) -> (r: bool) {
        self.inner.remove(key).is_some()
    }

    fn contains(&self, key: &Key) -> (r: bool) {
        self.inner.contains_key(key)
    }

    fn is_empty(&self) -> (r: bool) {
        self.inner.is_empty()
    }

    fn extend(&mut self, other: Self) {
        extend_map(&mut self.inner, other.inner)
    }

    fn copy(&self) -> (r: Self) {
        PeerSet { inner: copy_map(&self.inner) }
    }
}

} // verus!
