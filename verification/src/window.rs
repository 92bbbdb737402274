//! Messages in flight, by packet identifier and in the order in which they were first sent.
use vstd::prelude::*;

verus! {

/// `true` iff an entry has the identifier.
pub open spec fn holds<T>(w: Seq<(u16, T)>, pkid: u16) -> bool {
    exists|i: int| 0 <= i < w.len() && (#[trigger] w[i]).0 == pkid
}

/// The place of the entry with the identifier, where there is one.
pub open spec fn place<T>(w: Seq<(u16, T)>, pkid: u16) -> int {
    choose|i: int| 0 <= i < w.len() && (#[trigger] w[i]).0 == pkid
}

/// What stands under the identifier.
pub open spec fn get<T>(w: Seq<(u16, T)>, pkid: u16) -> Option<T> {
    if holds(w, pkid) {
        Some(w[place(w, pkid)].1)
    } else {
        None
    }
}

/// Replaces what stands under the identifier, or appends it.
pub open spec fn put<T>(w: Seq<(u16, T)>, pkid: u16, value: T) -> Seq<(u16, T)> {
    if holds(w, pkid) {
        w.update(place(w, pkid), (pkid, value))
    } else {
        w.push((pkid, value))
    }
}

/// Takes out what stands under the identifier.
pub open spec fn erase<T>(w: Seq<(u16, T)>, pkid: u16) -> Seq<(u16, T)> {
    if holds(w, pkid) {
        w.remove(place(w, pkid))
    } else {
        w
    }
}

/// No identifier stands in the window twice.
pub open spec fn distinct<T>(w: Seq<(u16, T)>) -> bool {
    forall|i: int, j: int|
        0 <= i < w.len() && 0 <= j < w.len() && i != j ==> (#[trigger] w[i]).0 != (#[trigger] w[j]).0
}

/// Reading after `put`: the new value under its identifier, the old values under the others.
pub proof fn lemma_put<T>(w: Seq<(u16, T)>, pkid: u16, value: T)
    requires
        distinct(w),
    ensures
        distinct(put(w, pkid, value)),
        get(put(w, pkid, value), pkid) == Some(value),
        forall|k: u16| k != pkid ==> #[trigger] get(put(w, pkid, value), k) == get(w, k),
{
    let after = put(w, pkid, value);
    if holds(w, pkid) {
        let p = place(w, pkid);
        assert(after[p].0 == pkid);
    } else {
        assert(after[w.len() as int] == (pkid, value));
    }
    assert(holds(after, pkid));
    assert forall|k: u16| k != pkid implies #[trigger] get(after, k) == get(w, k) by {
        if holds(w, k) {
            let i = place(w, k);
            assert(after[i] == w[i]);
            assert(holds(after, k));
        }
        if holds(after, k) {
            let j = place(after, k);
            assert(after[j].0 == k);
            assert(w[j] == after[j]);
            assert(holds(w, k));
        }
    }
}

/// Reading after `erase`: nothing under the identifier, the old values under the others.
pub proof fn lemma_erase<T>(w: Seq<(u16, T)>, pkid: u16)
    requires
        distinct(w),
    ensures
        distinct(erase(w, pkid)),
        !holds(erase(w, pkid), pkid),
        forall|k: u16| k != pkid ==> #[trigger] get(erase(w, pkid), k) == get(w, k),
{
    let after = erase(w, pkid);
    if holds(w, pkid) {
        let p = place(w, pkid);
        assert forall|i: int| 0 <= i < after.len() implies #[trigger] after[i] == (if i < p {
            w[i]
        } else {
            w[i + 1]
        }) by {}
        assert forall|k: u16| k != pkid implies #[trigger] get(after, k) == get(w, k) by {
            if holds(w, k) {
                let i = place(w, k);
                let j = if i < p {
                    i
                } else {
                    i - 1
                };
                assert(after[j].0 == k);
                assert(holds(after, k));
            }
            if holds(after, k) {
                let j = place(after, k);
                let i = if j < p {
                    j
                } else {
                    j + 1
                };
                assert(w[i].0 == k);
                assert(holds(w, k));
            }
        }
    }
}

/// Entries under distinct packet identifiers.
pub struct Window<T: View> {
    entries: Vec<(u16, T)>,
}

/// The entries by the views of their values.
pub open spec fn entry_views<T: View>(s: Seq<(u16, T)>) -> Seq<(u16, T::V)> {
    s.map_values(|e: (u16, T)| (e.0, e.1@))
}

impl<T: View> View for Window<T> {
    type V = Seq<(u16, T::V)>;

    closed spec fn view(&self) -> Seq<(u16, T::V)> {
        entry_views(self.entries@)
    }
}

impl<T: View> Window<T> {
    #[verifier::type_invariant]
    closed spec fn sound(&self) -> bool {
        distinct(entry_views(self.entries@))
    }

    pub fn new() -> (r: Self)
        ensures
            r@ == Seq::<(u16, T::V)>::empty(),
    {
        let r = Window { entries: Vec::new() };
        assert(r@ =~= Seq::<(u16, T::V)>::empty());
        r
    }

    fn position(&self, pkid: u16) -> (r: Option<usize>)
        ensures
            match r {
                Some(i) => i < self@.len() && self@[i as int].0 == pkid && holds(self@, pkid) && place(
                    self@,
                    pkid,
                ) == i,
                None => !holds(self@, pkid),
            },
    {
        proof {
            use_type_invariant(self);
        }
        let mut i: usize = 0;
        while i < self.entries.len()
            invariant
                i <= self.entries@.len(),
                distinct(self@),
                forall|j: int| 0 <= j < i ==> (#[trigger] self.entries@[j]).0 != pkid,
            decreases self.entries@.len() - i,
        {
            if self.entries[i].0 == pkid {
                assert(self@[i as int].0 == pkid);
                return Some(i);
            }
            i = i + 1;
        }
        assert forall|j: int| 0 <= j < self@.len() implies (#[trigger] self@[j]).0 != pkid by {
            assert(self.entries@[j].0 != pkid);
        }
        None
    }

    pub fn len(&self) -> (r: usize)
        ensures
            r == self@.len(),
            distinct(self@),
    {
        proof {
            use_type_invariant(self);
        }
        self.entries.len()
    }

    /// The identifier of the `i`-th entry.
    pub fn pkid_at(&self, i: usize) -> (r: u16)
        requires
            i < self@.len(),
        ensures
            r == self@[i as int].0,
    {
        self.entries[i].0
    }

    /// The value of the `i`-th entry.
    pub fn value_at(&self, i: usize) -> (r: &T)
        requires
            i < self@.len(),
        ensures
            r@ == self@[i as int].1,
    {
        &self.entries[i].1
    }

    pub fn contains(&self, pkid: u16) -> (r: bool)
        ensures
            r == holds(self@, pkid),
    {
        self.position(pkid).is_some()
    }

    pub fn get(&self, pkid: u16) -> (r: Option<&T>)
        ensures
            get(self@, pkid) == (match r {
                Some(v) => Some(v@),
                None => None,
            }),
    {
        match self.position(pkid) {
            Some(i) => Some(&self.entries[i].1),
            None => None,
        }
    }

    pub fn insert(&mut self, pkid: u16, value: T)
        ensures
            final(self)@ == put(old(self)@, pkid, value@),
    {
        proof {
            use_type_invariant(&*self);
            lemma_put(self@, pkid, value@);
        }
        let found = self.position(pkid);
        let ghost before = self.entries@;
        let mut entries: Vec<(u16, T)> = Vec::new();
        std::mem::swap(&mut entries, &mut self.entries);
        match found {
            Some(i) => {
                let ghost view = value@;
                entries[i] = (pkid, value);
                assert(entry_views(entries@) =~= entry_views(before).update(i as int, (pkid, view)));
            },
            None => {
                let ghost view = value@;
                entries.push((pkid, value));
                assert(entry_views(entries@) =~= entry_views(before).push((pkid, view)));
            },
        }
        self.entries = entries;
    }

    pub fn remove(&mut self, pkid: u16) -> (r: Option<T>)
        ensures
            final(self)@ == erase(old(self)@, pkid),
            get(old(self)@, pkid) == (match r {
                Some(v) => Some(v@),
                None => None,
            }),
    {
        proof {
            use_type_invariant(&*self);
            lemma_erase(self@, pkid);
        }
        let ghost before = self.entries@;
        match self.position(pkid) {
            Some(i) => {
                let mut entries: Vec<(u16, T)> = Vec::new();
                std::mem::swap(&mut entries, &mut self.entries);
                let (_, value) = entries.remove(i);
                assert(entry_views(entries@) =~= entry_views(before).remove(i as int));
                self.entries = entries;
                Some(value)
            },
            None => None,
        }
    }
}

} // verus!
