//! An insertion-ordered map over keys that are compared by their view.
use vstd::prelude::*;

verus! {

/// A key: a value that can be compared and copied, both up to its view.
pub trait Ident: View + Sized {
    fn same(&self, other: &Self) -> (r: bool)
        ensures
            r == (self@ == other@),
    ;

    fn copy(&self) -> (r: Self)
        ensures
            r@ == self@,
    ;
}

/// The keys of a sequence of entries, in order.
pub open spec fn keys_of<K: View, V>(entries: Seq<(K, V)>) -> Seq<K::V> {
    entries.map_values(|e: (K, V)| e.0@)
}

/// The map that a sequence of entries with distinct keys stands for.
pub open spec fn map_of<K: View, V>(entries: Seq<(K, V)>) -> Map<K::V, V> {
    Map::new(
        |k: K::V| keys_of(entries).contains(k),
        |k: K::V| entries[keys_of(entries).index_of(k)].1,
    )
}

/// Replacing the value of an entry replaces the value of its key.
proof fn lemma_update<K: View, V>(entries: Seq<(K, V)>, i: int, key: K, value: V)
    requires
        keys_of(entries).no_duplicates(),
        0 <= i < entries.len(),
        entries[i].0@ == key@,
    ensures
        keys_of(entries.update(i, (entries[i].0, value))) == keys_of(entries),
        map_of(entries.update(i, (entries[i].0, value))) == map_of(entries).insert(key@, value),
        map_of(entries).contains_key(key@),
        map_of(entries)[key@] == entries[i].1,
{
    let after = entries.update(i, (entries[i].0, value));
    assert(keys_of(after) =~= keys_of(entries));
    assert(keys_of(entries)[i] == key@);
    assert(keys_of(entries).index_of(key@) == i);
    assert(map_of(after) =~= map_of(entries).insert(key@, value)) by {
        assert forall|k: K::V| map_of(after).contains_key(k) && k != key@ implies map_of(after)[k]
            == map_of(entries)[k] by {
            let j = keys_of(entries).index_of(k);
            assert(keys_of(entries)[j] == k);
        }
    }
}

/// Appending an entry with a new key inserts that key.
proof fn lemma_push<K: View, V>(entries: Seq<(K, V)>, key: K, value: V)
    requires
        keys_of(entries).no_duplicates(),
        !keys_of(entries).contains(key@),
    ensures
        keys_of(entries.push((key, value))) == keys_of(entries).push(key@),
        keys_of(entries).push(key@).no_duplicates(),
        map_of(entries.push((key, value))) == map_of(entries).insert(key@, value),
{
    let after = entries.push((key, value));
    assert(keys_of(after) =~= keys_of(entries).push(key@));
    assert(keys_of(after)[entries.len() as int] == key@);
    assert(keys_of(after).index_of(key@) == entries.len());
    assert forall|k: K::V| keys_of(entries).contains(k) implies keys_of(after).contains(k)
        && keys_of(after).index_of(k) == keys_of(entries).index_of(k) by {
        let j = keys_of(entries).index_of(k);
        assert(keys_of(after)[j] == k);
    }
    assert(map_of(after) =~= map_of(entries).insert(key@, value));
}

/// Removing an entry removes its key.
proof fn lemma_remove<K: View, V>(entries: Seq<(K, V)>, i: int)
    requires
        keys_of(entries).no_duplicates(),
        0 <= i < entries.len(),
    ensures
        keys_of(entries.remove(i)) == keys_of(entries).remove(i),
        keys_of(entries.remove(i)).no_duplicates(),
        map_of(entries.remove(i)) == map_of(entries).remove(entries[i].0@),
        map_of(entries).contains_key(entries[i].0@),
        map_of(entries)[entries[i].0@] == entries[i].1,
        keys_of(entries).index_of(entries[i].0@) == i,
{
    let after = entries.remove(i);
    let before_keys = keys_of(entries);
    let after_keys = keys_of(after);
    assert(after_keys =~= before_keys.remove(i));
    assert(before_keys[i] == entries[i].0@);
    assert(before_keys.index_of(entries[i].0@) == i);
    assert forall|k: K::V| after_keys.contains(k) implies before_keys.contains(k) && k
        != entries[i].0@ && after[after_keys.index_of(k)].1 == entries[before_keys.index_of(k)].1 by {
        let j = after_keys.index_of(k);
        let l = if j < i { j } else { j + 1 };
        assert(before_keys[l] == k);
    }
    assert forall|k: K::V| before_keys.contains(k) && k != entries[i].0@ implies after_keys.contains(k) by {
        let l = before_keys.index_of(k);
        let j = if l < i { l } else { l - 1 };
        assert(after_keys[j] == k);
    }
    assert(map_of(after) =~= map_of(entries).remove(entries[i].0@));
}

/// Entries `(key, value)` with pairwise distinct keys, in the order in which the keys came in.
pub struct AssocMap<K: Ident, V> {
    entries: Vec<(K, V)>,
}

impl<K: Ident, V> AssocMap<K, V> {
    /// The keys, oldest first.
    pub closed spec fn keys(&self) -> Seq<K::V> {
        keys_of(self.entries@)
    }

    #[verifier::type_invariant]
    closed spec fn distinct(&self) -> bool {
        keys_of(self.entries@).no_duplicates()
    }
}

impl<K: Ident, V> View for AssocMap<K, V> {
    type V = Map<K::V, V>;

    closed spec fn view(&self) -> Map<K::V, V> {
        map_of(self.entries@)
    }
}

impl<K: Ident, V> AssocMap<K, V> {
    pub fn new() -> (r: Self)
        ensures
            r@ == Map::<K::V, V>::empty(),
            r.keys() == Seq::<K::V>::empty(),
    {
        let r = AssocMap { entries: Vec::new() };
        assert(r@ =~= Map::<K::V, V>::empty());
        assert(r.keys() =~= Seq::<K::V>::empty());
        r
    }

    fn position(&self, key: &K) -> (r: Option<usize>)
        ensures
            match r {
                Some(i) => i < self.entries@.len() && self.entries@[i as int].0@ == key@,
                None => !self.keys().contains(key@),
            },
    {
        let mut i: usize = 0;
        while i < self.entries.len()
            invariant
                i <= self.entries@.len(),
                forall|j: int| 0 <= j < i ==> (#[trigger] self.entries@[j]).0@ != key@,
            decreases self.entries@.len() - i,
        {
            if self.entries[i].0.same(key) {
                return Some(i);
            }
            i = i + 1;
        }
        None
    }

    pub fn len(&self) -> (r: usize)
        ensures
            r == self.keys().len(),
            self.keys().no_duplicates(),
    {
        proof {
            use_type_invariant(self);
        }
        self.entries.len()
    }

    pub fn get(&self, key: &K) -> (r: Option<&V>)
        ensures
            r == (if self@.contains_key(key@) { Some(&self@[key@]) } else { None }),
    {
        proof {
            use_type_invariant(self);
        }
        match self.position(key) {
            Some(i) => {
                assert(self.keys()[i as int] == key@);
                assert(self.keys().index_of(key@) == i);
                Some(&self.entries[i].1)
            },
            None => None,
        }
    }

    pub fn insert(&mut self, key: K, value: V) -> (r: Option<V>)
        ensures
            final(self)@ == old(self)@.insert(key@, value),
            r == (if old(self)@.contains_key(key@) { Some(old(self)@[key@]) } else { None }),
            final(self).keys() == (if old(self)@.contains_key(key@) {
                old(self).keys()
            } else {
                old(self).keys().push(key@)
            }),
    {
        proof {
            use_type_invariant(&*self);
        }
        let found = self.position(&key);
        let mut entries: Vec<(K, V)> = Vec::new();
        std::mem::swap(&mut entries, &mut self.entries);
        let ghost before = entries@;
        match found {
            Some(i) => {
                proof {
                    lemma_update(before, i as int, key, value);
                }
                let mut value = value;
                std::mem::swap(&mut entries[i].1, &mut value);
                assert(entries@ =~= before.update(i as int, entries@[i as int]));
                self.entries = entries;
                Some(value)
            },
            None => {
                proof {
                    lemma_push(before, key, value);
                }
                entries.push((key, value));
                self.entries = entries;
                None
            },
        }
    }

    pub fn remove(&mut self, key: &K) -> (r: Option<V>)
        ensures
            final(self)@ == old(self)@.remove(key@),
            r == (if old(self)@.contains_key(key@) { Some(old(self)@[key@]) } else { None }),
            final(self).keys() == (if old(self)@.contains_key(key@) {
                old(self).keys().remove(old(self).keys().index_of(key@))
            } else {
                old(self).keys()
            }),
    {
        proof {
            use_type_invariant(&*self);
        }
        match self.position(key) {
            Some(i) => {
                let mut entries: Vec<(K, V)> = Vec::new();
                std::mem::swap(&mut entries, &mut self.entries);
                proof {
                    lemma_remove(entries@, i as int);
                }
                let (_, value) = entries.remove(i);
                self.entries = entries;
                Some(value)
            },
            None => {
                assert(self@.remove(key@) =~= self@);
                None
            },
        }
    }

    pub fn contains_key(&self, key: &K) -> (r: bool)
        ensures
            r == self@.contains_key(key@),
    {
        match self.position(key) {
            Some(i) => {
                assert(self.keys()[i as int] == key@);
                true
            },
            None => false,
        }
    }

    pub fn is_empty(&self) -> (r: bool)
        ensures
            r == (self.keys().len() == 0),
            r == (self@ == Map::<K::V, V>::empty()),
    {
        proof {
            self.lemma_keys();
            assert(self.keys().len() == 0 ==> self@ =~= Map::<K::V, V>::empty());
            if self.keys().len() > 0 {
                assert(self.keys().contains(self.keys()[0]));
                assert(self@.contains_key(self.keys()[0]));
            }
        }
        self.entries.len() == 0
    }

    /// The key of the `i`-th entry.
    pub fn key_at(&self, i: usize) -> (r: &K)
        requires
            i < self.keys().len(),
        ensures
            r@ == self.keys()[i as int],
    {
        &self.entries[i].0
    }

    /// The value of the `i`-th entry.
    pub fn value_at(&self, i: usize) -> (r: &V)
        requires
            i < self.keys().len(),
        ensures
            self@.contains_key(self.keys()[i as int]),
            *r == self@[self.keys()[i as int]],
    {
        proof {
            use_type_invariant(self);
            assert(self.keys().contains(self.keys()[i as int]));
        }
        &self.entries[i].1
    }

    /// Takes the last entry out.
    pub fn pop(&mut self) -> (r: Option<(K, V)>)
        ensures
            match r {
                Some((k, v)) => {
                    &&& old(self).keys().len() > 0
                    &&& k@ == old(self).keys().last()
                    &&& old(self)@.contains_key(k@)
                    &&& v == old(self)@[k@]
                    &&& final(self)@ == old(self)@.remove(k@)
                    &&& final(self).keys() == old(self).keys().drop_last()
                },
                None => old(self).keys().len() == 0 && *final(self) == *old(self),
            },
    {
        proof {
            use_type_invariant(&*self);
        }
        if self.entries.len() == 0 {
            return None;
        }
        let mut entries: Vec<(K, V)> = Vec::new();
        std::mem::swap(&mut entries, &mut self.entries);
        proof {
            lemma_remove(entries@, entries@.len() - 1);
            assert(entries@.remove(entries@.len() - 1) =~= entries@.drop_last());
            assert(keys_of(entries@).remove(entries@.len() - 1) =~= keys_of(entries@).drop_last());
            assert(entries@.subrange(0, entries@.len() - 1) =~= entries@.drop_last());
        }
        let last = entries.pop();
        self.entries = entries;
        last
    }

    /// The keys are exactly the map's domain, and none stands there twice.
    pub proof fn lemma_keys(&self)
        ensures
            forall|k: K::V| #[trigger] self.keys().contains(k) <==> self@.contains_key(k),
            self@.dom() == self.keys().to_set(),
    {
        assert(self@.dom() =~= self.keys().to_set());
    }
}

} // verus!
