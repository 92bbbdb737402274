//! Retained messages: the last message that was published to each topic with the retain flag.
use vstd::prelude::*;

use crate::assoc::{AssocMap, Ident};
use crate::common::{SocketAddr, UserId};
use crate::hub::{ClientSessionMsg, ClientSessionMsgModel};
use crate::packet::PublishPacket;
use crate::qos::QualityOfService;
use crate::route;
use crate::store;
use crate::store::{GlobalRetainMsg, GlobalRetainMsgModel};
use crate::text;
use crate::topic::{Topic, TopicModel};
use crate::wire::PublishModel;

verus! {

/// The levels of a topic.
pub type Levels = Seq<Seq<char>>;

/// `true` iff the filter with the levels `tokens` asks for the topic with the levels `path`: level
/// by level, where `+` takes any level and `#` one level or more.
pub open spec fn asks_for(tokens: Levels, path: Levels) -> bool
    decreases tokens.len(),
{
    if tokens.len() == 0 {
        path.len() == 0
    } else if path.len() == 0 {
        false
    } else if tokens[0] == "#"@ {
        true
    } else if tokens[0] == "+"@ {
        asks_for(tokens.drop_first(), path.drop_first())
    } else {
        tokens[0] == path[0] && asks_for(tokens.drop_first(), path.drop_first())
    }
}

/// `messages` are the messages of the topics that `want` holds of, each once; `paths` are their
/// topics.
pub open spec fn lists(
    messages: Seq<PublishModel>,
    paths: Seq<Levels>,
    at: spec_fn(Levels) -> Option<PublishModel>,
    want: spec_fn(Levels) -> bool,
) -> bool {
    &&& paths.no_duplicates()
    &&& forall|p: Levels| #[trigger] paths.contains(p) <==> at(p) is Some && want(p)
    &&& messages == paths.map_values(|p: Levels| at(p)->0)
}

/// The topics that a filter asks for.
pub open spec fn asked_by(tokens: Levels) -> spec_fn(Levels) -> bool {
    |p: Levels| asks_for(tokens, p)
}

/// `messages` are the messages of the topics that a filter asks for, each once, in some order.
pub open spec fn answers(
    messages: Seq<PublishModel>,
    at: spec_fn(Levels) -> Option<PublishModel>,
    tokens: Levels,
) -> bool {
    exists|paths: Seq<Levels>| #[trigger] lists(messages, paths, at, asked_by(tokens))
}

/// A node of the tree: the message of the topic that ends here, and the nodes below.
pub struct RetainNode {
    children: Option<Vec<(String, RetainNode)>>,
    packet: Option<PublishPacket>,
}

impl RetainNode {
    spec fn below(&self) -> Seq<(String, RetainNode)> {
        match self.children {
            Some(v) => v@,
            None => Seq::empty(),
        }
    }

    /// No level leads to two nodes, and no node below is empty.
    pub closed spec fn wf(&self) -> bool
        decreases self,
    {
        match self.children {
            None => true,
            Some(v) => {
                &&& forall|i: int, j: int|
                    0 <= i < v@.len() && 0 <= j < v@.len() && i != j ==> (#[trigger] v@[i]).0@ != (
                    #[trigger] v@[j]).0@
                &&& forall|i: int|
                    0 <= i < v@.len() ==> (#[trigger] v@[i]).1.wf() && !v@[i].1.no_messages()
            },
        }
    }

    /// Neither a message nor nodes below.
    pub closed spec fn no_messages(&self) -> bool {
        self.packet is None && self.below().len() == 0
    }

    spec fn child(&self, level: Seq<char>) -> Option<RetainNode> {
        if exists|i: int| 0 <= i < self.below().len() && (#[trigger] self.below()[i]).0@ == level {
            let i = choose|i: int|
                0 <= i < self.below().len() && (#[trigger] self.below()[i]).0@ == level;
            Some(self.below()[i].1)
        } else {
            None
        }
    }

    spec fn message(&self) -> Option<PublishModel> {
        match self.packet {
            Some(p) => Some(p@),
            None => None,
        }
    }

    /// The message that is retained for the topic with the levels `path`.
    pub closed spec fn at(&self, path: Levels) -> Option<PublishModel>
        decreases path.len(),
    {
        if path.len() == 0 {
            self.message()
        } else {
            match self.child(path[0]) {
                Some(node) => node.at(path.drop_first()),
                None => None,
            }
        }
    }

    /// The retained messages by topic.
    pub open spec fn table(&self) -> spec_fn(Levels) -> Option<PublishModel> {
        |path: Levels| self.at(path)
    }

    /// Each message stands under its own topic.
    pub open spec fn filed(&self) -> bool {
        forall|path: Levels| #[trigger]
            self.at(path) is Some ==> text::pieces(self.at(path)->0.topic, '/') == path
    }

    proof fn lemma_child(&self, i: int)
        requires
            self.wf(),
            0 <= i < self.below().len(),
        ensures
            self.child(self.below()[i].0@) == Some(self.below()[i].1),
            self.below()[i].1.wf(),
            !self.below()[i].1.no_messages(),
    {
    }

    proof fn lemma_no_messages(&self, path: Levels)
        requires
            self.no_messages(),
        ensures
            self.at(path) is None,
    {
    }

    proof fn lemma_some_message(&self) -> (path: Levels)
        requires
            self.wf(),
            !self.no_messages(),
        ensures
            self.at(path) is Some,
        decreases self,
    {
        if self.packet is Some {
            Seq::empty()
        } else {
            self.lemma_child(0);
            let (level, node) = self.below()[0];
            let rest = node.lemma_some_message();
            let path = seq![level@] + rest;
            assert(path.drop_first() =~= rest);
            path
        }
    }

    /// Law: a sound node is empty iff no message is retained for any topic.
    pub proof fn law_empty_iff_no_messages(&self)
        requires
            self.wf(),
        ensures
            self.no_messages() <==> forall|path: Levels| #[trigger] self.at(path) is None,
    {
        if self.no_messages() {
            assert forall|path: Levels| #[trigger] self.at(path) is None by {
                self.lemma_no_messages(path);
            }
        } else {
            let path = self.lemma_some_message();
            assert(self.at(path) is Some);
        }
    }

    proof fn lemma_other_children(before: Self, after: Self, place: int)
        requires
            before.wf(),
            after.wf(),
            0 <= place < after.below().len(),
            place <= before.below().len(),
            place < before.below().len() ==> before.below()[place].0@ == after.below()[place].0@,
            forall|j: int|
                0 <= j < before.below().len() && j != place ==> j < after.below().len()
                    && after.below()[j] == #[trigger] before.below()[j],
            forall|j: int|
                0 <= j < after.below().len() && j != place ==> #[trigger] after.below()[j]
                    == before.below()[j] && j < before.below().len(),
        ensures
            forall|level: Seq<char>|
                level != after.below()[place].0@ ==> #[trigger] after.child(level) == before.child(
                    level,
                ),
    {
        assert forall|level: Seq<char>| level != after.below()[place].0@ implies #[trigger] after.child(
            level,
        ) == before.child(level) by {
            if before.child(level) is Some {
                let j = choose|j: int|
                    0 <= j < before.below().len() && (#[trigger] before.below()[j]).0@ == level;
                before.lemma_child(j);
                after.lemma_child(j);
            }
            if after.child(level) is Some {
                let j = choose|j: int|
                    0 <= j < after.below().len() && (#[trigger] after.below()[j]).0@ == level;
                after.lemma_child(j);
                before.lemma_child(j);
            }
        }
    }

    proof fn lemma_removed_child(before: Self, middle: Self, after: Self, place: int)
        requires
            before.wf(),
            0 <= place < before.below().len(),
            middle.below().len() == before.below().len(),
            forall|j: int|
                0 <= j < before.below().len() && j != place ==> middle.below()[j]
                    == #[trigger] before.below()[j],
            after.below() == middle.below().remove(place),
        ensures
            after.wf(),
            after.child(before.below()[place].0@) is None,
            forall|level: Seq<char>|
                level != before.below()[place].0@ ==> #[trigger] after.child(level)
                    == before.child(level),
    {
        assert(after.below() =~= before.below().remove(place));
        assert forall|j: int| 0 <= j < after.below().len() implies #[trigger] after.below()[j] == (
        if j < place {
            before.below()[j]
        } else {
            before.below()[j + 1]
        }) by {}
        assert(after.wf()) by {
            assert forall|i: int, j: int|
                0 <= i < after.below().len() && 0 <= j < after.below().len() && i != j implies (
            #[trigger] after.below()[i]).0@ != (#[trigger] after.below()[j]).0@ by {}
        }
        assert forall|level: Seq<char>| level != before.below()[place].0@ implies #[trigger] after.child(
            level,
        ) == before.child(level) by {
            if before.child(level) is Some {
                let j = choose|j: int|
                    0 <= j < before.below().len() && (#[trigger] before.below()[j]).0@ == level;
                before.lemma_child(j);
                let l = if j < place {
                    j
                } else {
                    j - 1
                };
                assert(after.below()[l] == before.below()[j]);
                after.lemma_child(l);
            }
            if after.child(level) is Some {
                let l = choose|l: int|
                    0 <= l < after.below().len() && (#[trigger] after.below()[l]).0@ == level;
                after.lemma_child(l);
                let j = if l < place {
                    l
                } else {
                    l + 1
                };
                before.lemma_child(j);
            }
        }
    }

    pub fn new() -> (r: RetainNode)
        ensures
            r.wf(),
            r.filed(),
            forall|path: Levels| #[trigger] r.at(path) is None,
    {
        RetainNode { children: None, packet: None }
    }

    /// `true` iff no message is retained for any topic.
    pub fn is_empty(&self) -> (r: bool)
        ensures
            r == self.no_messages(),
            self.wf() ==> (r <==> forall|path: Levels| #[trigger] self.at(path) is None),
    {
        proof {
            if self.wf() {
                self.law_empty_iff_no_messages();
            }
        }
        (match &self.children {
            Some(map) => map.is_empty(),
            None => true,
        }) && self.packet.is_none()
    }

    fn position(&self, level: &String) -> (r: Option<usize>)
        ensures
            match r {
                Some(i) => i < self.below().len() && self.below()[i as int].0@ == level@,
                None => forall|i: int|
                    0 <= i < self.below().len() ==> (#[trigger] self.below()[i]).0@ != level@,
            },
    {
        match &self.children {
            None => None,
            Some(map) => {
                let mut i: usize = 0;
                while i < map.len()
                    invariant
                        i <= map@.len(),
                        map@ == self.below(),
                        forall|j: int| 0 <= j < i ==> (#[trigger] map@[j]).0@ != level@,
                    decreases map@.len() - i,
                {
                    if map[i].0 == *level {
                        return Some(i);
                    }
                    i = i + 1;
                }
                None
            },
        }
    }

    fn insert_at(&mut self, tokens: &Vec<String>, index: usize, packet: &PublishPacket)
        requires
            old(self).wf(),
            index <= tokens@.len(),
        ensures
            final(self).wf(),
            forall|p: Levels| #[trigger]
                final(self).at(p) == (if p == text::views(tokens@).skip(index as int) {
                    Some(packet@)
                } else {
                    old(self).at(p)
                }),
        decreases tokens@.len() - index,
    {
        let ghost before = *self;
        let ghost path = text::views(tokens@).skip(index as int);
        if index == tokens.len() {
            self.packet = Some(packet.copy());
            assert forall|p: Levels| #[trigger] self.at(p) == (if p == path {
                Some(packet@)
            } else {
                before.at(p)
            }) by {
                assert(path =~= Seq::empty());
                if p.len() == 0 {
                    assert(p =~= path);
                } else {
                    assert(self.below() == before.below());
                    assert(self.child(p[0]) == before.child(p[0]));
                }
            }
            return;
        }
        let token = tokens[index].clone();
        let ghost k = token@;
        proof {
            assert(path[0] == k);
            assert(path.drop_first() =~= text::views(tokens@).skip(index + 1));
            assert(path =~= seq![k] + path.drop_first());
        }
        if self.children.is_none() {
            self.children = Some(Vec::new());
        }
        assert(self.below() =~= before.below());
        assert(self.wf());
        let found = self.position(&token);
        let ghost mut place: int = 0;
        match &mut self.children {
            Some(map) => {
                let i: usize = match found {
                    Some(i) => i,
                    None => {
                        map.push((token, RetainNode::new()));
                        map.len() - 1
                    },
                };
                proof {
                    place = i as int;
                }
                map[i].1.insert_at(tokens, index + 1, packet);
                proof {
                    if found is Some {
                        before.lemma_child(i as int);
                    }
                    let now = map@[i as int].1;
                    assert(now.at(path.drop_first()) is Some);
                    if now.no_messages() {
                        now.lemma_no_messages(path.drop_first());
                    }
                }
            },
            None => {},
        }
        proof {
            let after = *self;
            assert(after.below()[place].0@ == k);
            assert(forall|j: int|
                0 <= j < before.below().len() && j != place ==> after.below()[j]
                    == #[trigger] before.below()[j]);
            assert(forall|j: int|
                0 <= j < after.below().len() && j != place ==> #[trigger] after.below()[j]
                    == before.below()[j] && j < before.below().len());
            Self::lemma_other_children(before, after, place);
            after.lemma_child(place);
            assert forall|p: Levels| #[trigger] after.at(p) == (if p == path {
                Some(packet@)
            } else {
                before.at(p)
            }) by {
                if p.len() > 0 && p[0] == k {
                    assert(after.at(p) == after.below()[place].1.at(p.drop_first()));
                    assert(p =~= seq![k] + p.drop_first());
                } else if p.len() > 0 {
                    assert(after.child(p[0]) == before.child(p[0]));
                }
            }
        }
    }

    /// Retains a message for its topic, in the place of an earlier one.
    pub fn insert(&mut self, packet: &PublishPacket)
        requires
            old(self).wf(),
        ensures
            final(self).wf(),
            forall|p: Levels| #[trigger]
                final(self).at(p) == (if p == text::pieces(packet@.topic, '/') {
                    Some(packet@)
                } else {
                    old(self).at(p)
                }),
            old(self).filed() ==> final(self).filed(),
    {
        let tokens = text::split(packet.topic_name(), '/');
        assert(text::views(tokens@).skip(0) =~= text::pieces(packet@.topic, '/'));
        self.insert_at(&tokens, 0, packet);
    }

    fn _remove(&mut self, tokens: &Vec<String>, index: usize) -> (r: bool)
        requires
            old(self).wf(),
            index <= tokens@.len(),
        ensures
            final(self).wf(),
            forall|p: Levels| #[trigger]
                final(self).at(p) == (if p == text::views(tokens@).skip(index as int) {
                    None
                } else {
                    old(self).at(p)
                }),
            r == old(self).at(text::views(tokens@).skip(index as int)) is Some,
        decreases tokens@.len() - index,
    {
        let ghost before = *self;
        let ghost path = text::views(tokens@).skip(index as int);
        if index == tokens.len() {
            let is_removed = self.packet.is_some();
            self.packet = None;
            assert(path =~= Seq::empty());
            assert forall|p: Levels| #[trigger] self.at(p) == (if p == path {
                None
            } else {
                before.at(p)
            }) by {
                if p.len() == 0 {
                    assert(p =~= path);
                } else {
                    assert(self.below() == before.below());
                    assert(self.child(p[0]) == before.child(p[0]));
                }
            }
            return is_removed;
        }
        let ghost k = tokens@[index as int]@;
        proof {
            assert(path[0] == k);
            assert(path.drop_first() =~= text::views(tokens@).skip(index + 1));
            assert(path =~= seq![k] + path.drop_first());
        }
        let i: usize = match self.position(&tokens[index]) {
            Some(i) => i,
            None => {
                assert(self.child(k) is None);
                return false;
            },
        };
        let mut child_empty = false;
        let r = match &mut self.children {
            Some(map) => {
                proof {
                    before.lemma_child(i as int);
                }
                let r = map[i].1._remove(tokens, index + 1);
                child_empty = map[i].1.is_empty();
                r
            },
            None => false,
        };
        let ghost middle = *self;
        let ghost node = middle.below()[i as int].1;
        if child_empty {
            match &mut self.children {
                Some(map) => {
                    map.remove(i);
                },
                None => {},
            }
        }
        proof {
            let after = *self;
            assert(forall|j: int|
                0 <= j < before.below().len() && j != i ==> middle.below()[j]
                    == #[trigger] before.below()[j]);
            assert(before.child(k) == Some(before.below()[i as int].1));
            if child_empty {
                Self::lemma_removed_child(before, middle, after, i as int);
            } else {
                Self::lemma_other_children(before, after, i as int);
                after.lemma_child(i as int);
            }
            assert forall|p: Levels| #[trigger] after.at(p) == (if p == path {
                None
            } else {
                before.at(p)
            }) by {
                if p.len() > 0 && p[0] == k {
                    if child_empty {
                        node.lemma_no_messages(p.drop_first());
                    }
                    assert(after.at(p) == node.at(p.drop_first()));
                    assert(p =~= seq![k] + p.drop_first());
                } else if p.len() > 0 {
                    assert(after.child(p[0]) == before.child(p[0]));
                }
            }
        }
        r
    }

    /// Forgets the message of a topic, and the nodes that are empty without it; `true` iff there was
    /// one.
    pub fn remove(&mut self, topic_name: &str) -> (r: bool)
        requires
            old(self).wf(),
        ensures
            final(self).wf(),
            forall|p: Levels| #[trigger]
                final(self).at(p) == (if p == text::pieces(topic_name@, '/') {
                    None
                } else {
                    old(self).at(p)
                }),
            r == old(self).at(text::pieces(topic_name@, '/')) is Some,
            old(self).filed() ==> final(self).filed(),
    {
        let tokens = text::split(topic_name, '/');
        assert(text::views(tokens@).skip(0) =~= text::pieces(topic_name@, '/'));
        self._remove(&tokens, 0)
    }

    /// `messages` are the messages of the wanted topics that begin with one of the first `n` levels
    /// below.
    spec fn lists_up_to(
        &self,
        n: int,
        messages: Seq<PublishModel>,
        paths: Seq<Levels>,
        want: spec_fn(Levels) -> bool,
    ) -> bool {
        &&& paths.no_duplicates()
        &&& forall|p: Levels| #[trigger]
            paths.contains(p) <==> self.at(p) is Some && want(p) && self.begins_up_to(n, p)
        &&& messages == paths.map_values(|p: Levels| self.at(p)->0)
    }

    spec fn begins_up_to(&self, n: int, p: Levels) -> bool {
        p.len() > 0 && exists|j: int|
            0 <= j < n && j < self.below().len() && (#[trigger] self.below()[j]).0@ == p[0]
    }

    /// What the node under the next level lists is added.
    proof fn lemma_lists_one_more(
        &self,
        n: int,
        messages: Seq<PublishModel>,
        paths: Seq<Levels>,
        want: spec_fn(Levels) -> bool,
        child_messages: Seq<PublishModel>,
        child_paths: Seq<Levels>,
        child_want: spec_fn(Levels) -> bool,
    )
        requires
            self.wf(),
            0 <= n < self.below().len(),
            self.lists_up_to(n, messages, paths, want),
            lists(child_messages, child_paths, self.below()[n].1.table(), child_want),
            forall|q: Levels| #[trigger]
                child_want(q) <==> want(seq![self.below()[n].0@] + q),
        ensures
            self.lists_up_to(
                n + 1,
                messages + child_messages,
                paths + child_paths.map_values(|q: Levels| seq![self.below()[n].0@] + q),
                want,
            ),
    {
        let k = self.below()[n].0@;
        let node = self.below()[n].1;
        let moved = child_paths.map_values(|q: Levels| seq![k] + q);
        let all = paths + moved;
        self.lemma_child(n);
        assert forall|i: int| 0 <= i < moved.len() implies {
            &&& (#[trigger] moved[i]).len() > 0
            &&& moved[i][0] == k
            &&& moved[i].drop_first() == child_paths[i]
            &&& self.at(moved[i]) == node.at(child_paths[i])
        } by {
            assert(moved[i].drop_first() =~= child_paths[i]);
        }
        assert forall|i: int| 0 <= i < paths.len() implies (#[trigger] paths[i]).len() > 0
            && paths[i][0] != k by {
            assert(paths.contains(paths[i]));
            let j = choose|j: int|
                0 <= j < n && j < self.below().len() && (#[trigger] self.below()[j]).0@
                    == paths[i][0];
            assert(self.below()[j].0@ != self.below()[n].0@);
        }
        assert(all.no_duplicates()) by {
            assert forall|i: int, j: int|
                0 <= i < all.len() && 0 <= j < all.len() && i != j implies all[i] != all[j] by {
                let m = paths.len() as int;
                if i < m && j < m {
                    assert(paths[i] != paths[j]);
                } else if i >= m && j >= m {
                    assert(child_paths[i - m] != child_paths[j - m]);
                    assert(moved[i - m].drop_first() != moved[j - m].drop_first());
                } else if i < m {
                    assert(paths[i][0] != moved[j - m][0]);
                } else {
                    assert(paths[j][0] != moved[i - m][0]);
                }
            }
        }
        assert forall|p: Levels| #[trigger] all.contains(p) <==> self.at(p) is Some && want(p)
            && self.begins_up_to(n + 1, p) by {
            if all.contains(p) {
                let i = choose|i: int| 0 <= i < all.len() && all[i] == p;
                if i < paths.len() {
                    assert(paths.contains(p));
                    let j = choose|j: int|
                        0 <= j < n && j < self.below().len() && (#[trigger] self.below()[j]).0@
                            == p[0];
                    assert(self.begins_up_to(n + 1, p));
                } else {
                    let l = i - paths.len();
                    assert(child_paths.contains(child_paths[l]));
                    assert(p =~= seq![k] + child_paths[l]);
                    assert(self.below()[n].0@ == p[0]);
                    assert(node.table()(child_paths[l]) == node.at(child_paths[l]));
                }
            }
            if self.at(p) is Some && want(p) && self.begins_up_to(n + 1, p) {
                let j = choose|j: int|
                    0 <= j < n + 1 && j < self.below().len() && (#[trigger] self.below()[j]).0@
                        == p[0];
                if j < n {
                    assert(self.begins_up_to(n, p));
                    assert(paths.contains(p));
                    let i = choose|i: int| 0 <= i < paths.len() && paths[i] == p;
                    assert(all[i] == p);
                } else {
                    let q = p.drop_first();
                    assert(p =~= seq![k] + q);
                    assert(child_want(q));
                    assert(node.table()(q) == node.at(q));
                    assert(child_paths.contains(q));
                    let i = choose|i: int| 0 <= i < child_paths.len() && child_paths[i] == q;
                    assert(all[paths.len() + i] == moved[i]);
                }
            }
        }
        assert(messages + child_messages =~= all.map_values(|p: Levels| self.at(p)->0));
    }

    /// When all nodes below have been asked, all wanted topics below have been listed.
    proof fn lemma_lists_all(
        &self,
        messages: Seq<PublishModel>,
        paths: Seq<Levels>,
        want: spec_fn(Levels) -> bool,
    )
        requires
            self.lists_up_to(self.below().len() as int, messages, paths, want),
            !want(Seq::empty()),
        ensures
            lists(messages, paths, self.table(), want),
    {
        assert forall|p: Levels| #[trigger] paths.contains(p) <==> self.table()(p) is Some && want(
            p,
        ) by {
            if self.at(p) is Some && want(p) {
                if p.len() == 0 {
                    assert(p =~= Seq::empty());
                } else {
                    assert(self.child(p[0]) is Some);
                    let j = choose|j: int|
                        0 <= j < self.below().len() && (#[trigger] self.below()[j]).0@ == p[0];
                    assert(self.begins_up_to(self.below().len() as int, p));
                }
            }
        }
        assert(messages =~= paths.map_values(|p: Levels| self.table()(p)->0));
    }

    proof fn lemma_lists_none(&self, want: spec_fn(Levels) -> bool)
        ensures
            self.lists_up_to(0, Seq::empty(), Seq::empty(), want),
    {
        assert(Seq::<PublishModel>::empty() =~= Seq::<Levels>::empty().map_values(
            |p: Levels| self.at(p)->0,
        ));
    }

    /// Appends one list of messages to another.
    fn append(packets: &mut Vec<PublishPacket>, more: Vec<PublishPacket>)
        ensures
            store::publish_views(final(packets)@) == store::publish_views(old(packets)@)
                + store::publish_views(more@),
    {
        let ghost added = more@;
        let mut more = more;
        packets.append(&mut more);
        assert(store::publish_views(packets@) =~= store::publish_views(old(packets)@)
            + store::publish_views(added));
    }

    /// All messages below this node.
    fn all_below(&self) -> (r: (Vec<PublishPacket>, Ghost<Seq<Levels>>))
        requires
            self.wf(),
        ensures
            lists(
                store::publish_views(r.0@),
                r.1@,
                self.table(),
                |p: Levels| p.len() > 0,
            ),
        decreases self,
    {
        let mut packets: Vec<PublishPacket> = Vec::new();
        let ghost mut paths = Seq::<Levels>::empty();
        let ghost want = |p: Levels| p.len() > 0;
        let ghost any = |p: Levels| true;
        proof {
            self.lemma_lists_none(want);
            assert(store::publish_views(packets@) =~= Seq::<PublishModel>::empty());
        }
        if let Some(map) = &self.children {
            let mut i: usize = 0;
            while i < map.len()
                invariant
                    i <= map@.len(),
                    self.wf(),
                    map@ == self.below(),
                    self.children == Some(*map),
                    want == (|p: Levels| p.len() > 0),
                    any == (|p: Levels| true),
                    self.lists_up_to(i as int, store::publish_views(packets@), paths, want),
                decreases map@.len() - i,
            {
                let node = &map[i].1;
                proof {
                    self.lemma_child(i as int);
                }
                let (mut found, Ghost(mut child_paths)) = node.all_below();
                if let Some(packet) = &node.packet {
                    let ghost before = store::publish_views(found@);
                    found.push(packet.copy());
                    proof {
                        assert(store::publish_views(found@) =~= before.push(packet@));
                        node.lemma_and_own(before, child_paths);
                        child_paths = child_paths.push(Seq::empty());
                    }
                } else {
                    proof {
                        node.lemma_and_none(store::publish_views(found@), child_paths);
                    }
                }
                let ghost before = store::publish_views(packets@);
                let ghost more = store::publish_views(found@);
                Self::append(&mut packets, found);
                proof {
                    self.lemma_lists_one_more(
                        i as int,
                        before,
                        paths,
                        want,
                        more,
                        child_paths,
                        any,
                    );
                    paths = paths + child_paths.map_values(
                        |q: Levels| seq![self.below()[i as int].0@] + q,
                    );
                }
                i = i + 1;
            }
        }
        proof {
            self.lemma_lists_all(store::publish_views(packets@), paths, want);
        }
        (packets, Ghost(paths))
    }

    proof fn lemma_and_own(&self, messages: Seq<PublishModel>, paths: Seq<Levels>)
        requires
            self.packet is Some,
            lists(messages, paths, self.table(), |p: Levels| p.len() > 0),
        ensures
            lists(
                messages.push(self.packet->0@),
                paths.push(Seq::empty()),
                self.table(),
                |p: Levels| true,
            ),
    {
        let all = paths.push(Seq::<Seq<char>>::empty());
        let at = self.table();
        assert(!paths.contains(Seq::<Seq<char>>::empty()));
        assert forall|p: Levels| #[trigger] all.contains(p) <==> at(p) is Some by {
            if all.contains(p) {
                let i = choose|i: int| 0 <= i < all.len() && all[i] == p;
                if i < paths.len() {
                    assert(paths.contains(p));
                }
            }
            if at(p) is Some {
                if p.len() == 0 {
                    assert(p =~= Seq::empty());
                    assert(all[paths.len() as int] == p);
                } else {
                    assert(paths.contains(p));
                    let i = choose|i: int| 0 <= i < paths.len() && paths[i] == p;
                    assert(all[i] == p);
                }
            }
        }
        assert(messages.push(self.packet->0@) =~= all.map_values(|p: Levels| at(p)->0));
    }

    proof fn lemma_and_none(&self, messages: Seq<PublishModel>, paths: Seq<Levels>)
        requires
            self.packet is None,
            lists(messages, paths, self.table(), |p: Levels| p.len() > 0),
        ensures
            lists(messages, paths, self.table(), |p: Levels| true),
    {
        let at = self.table();
        assert forall|p: Levels| #[trigger] paths.contains(p) <==> at(p) is Some by {
            if at(p) is Some && p.len() == 0 {
                assert(p =~= Seq::empty());
            }
        }
    }

    fn _match_all(&self, tokens: &Vec<String>, index: usize) -> (r: (
        Vec<PublishPacket>,
        Ghost<Seq<Levels>>,
    ))
        requires
            self.wf(),
            index <= tokens@.len(),
        ensures
            lists(
                store::publish_views(r.0@),
                r.1@,
                self.table(),
                asked_by(text::views(tokens@).skip(index as int)),
            ),
        decreases tokens@.len() - index,
    {
        let ghost left = text::views(tokens@).skip(index as int);
        let ghost want = asked_by(left);
        let mut packets: Vec<PublishPacket> = Vec::new();
        let ghost mut paths = Seq::<Levels>::empty();
        assert(store::publish_views(packets@) =~= Seq::<PublishModel>::empty());
        if index == tokens.len() {
            if let Some(packet) = &self.packet {
                packets.push(packet.copy());
                proof {
                    paths = paths.push(Seq::empty());
                }
            }
            proof {
                let at = self.table();
                assert(left =~= Seq::empty());
                assert forall|p: Levels| #[trigger] paths.contains(p) <==> at(p) is Some && want(
                    p,
                ) by {
                    if p.len() == 0 {
                        assert(p =~= Seq::empty());
                        if self.packet is Some {
                            assert(paths[0] == p);
                        }
                    }
                }
                assert(store::publish_views(packets@) =~= paths.map_values(
                    |p: Levels| at(p)->0,
                ));
            }
            return (packets, Ghost(paths));
        }
        let ghost rest = text::views(tokens@).skip(index + 1);
        proof {
            assert(left.drop_first() =~= rest);
        }
        let token = &tokens[index];
        assert(left[0] == token@);
        if text::same_text(token.as_str(), "#") {
            let r = self.all_below();
            proof {
                assert(forall|p: Levels| #[trigger] asks_for(left, p) <==> p.len() > 0);
                assert(want =~= |p: Levels| p.len() > 0);
            }
            return r;
        }
        proof {
            self.lemma_lists_none(want);
        }
        let ghost below = asked_by(rest);
        if text::same_text(token.as_str(), "+") {
            if let Some(map) = &self.children {
                let mut i: usize = 0;
                while i < map.len()
                    invariant
                        i <= map@.len(),
                        index < tokens.len(),
                        self.wf(),
                        map@ == self.below(),
                        left == text::views(tokens@).skip(index as int),
                        rest == text::views(tokens@).skip(index + 1),
                        left.len() > 0,
                        left[0] == "+"@,
                        left[0] != "#"@,
                        left.drop_first() == rest,
                        want == asked_by(left),
                        below == asked_by(rest),
                        self.lists_up_to(i as int, store::publish_views(packets@), paths, want),
                    decreases map@.len() - i,
                {
                    proof {
                        self.lemma_child(i as int);
                    }
                    let (found, Ghost(child_paths)) = map[i].1._match_all(tokens, index + 1);
                    let ghost before = store::publish_views(packets@);
                    let ghost more = store::publish_views(found@);
                    Self::append(&mut packets, found);
                    proof {
                        let k = self.below()[i as int].0@;
                        assert forall|q: Levels| #[trigger] below(q) <==> want(seq![k] + q) by {
                            assert((seq![k] + q).drop_first() =~= q);
                        }
                        self.lemma_lists_one_more(
                            i as int,
                            before,
                            paths,
                            want,
                            more,
                            child_paths,
                            below,
                        );
                        paths = paths + child_paths.map_values(|q: Levels| seq![k] + q);
                    }
                    i = i + 1;
                }
            }
            proof {
                self.lemma_lists_all(store::publish_views(packets@), paths, want);
            }
            return (packets, Ghost(paths));
        }
        let ghost at = self.table();
        match (&self.children, self.position(token)) {
            (Some(map), Some(i)) => {
                let (found, Ghost(child_paths)) = {
                    proof {
                        self.lemma_child(i as int);
                    }
                    map[i].1._match_all(tokens, index + 1)
                };
                proof {
                    let node = map@[i as int].1;
                    let k = token@;
                    paths = child_paths.map_values(|q: Levels| seq![k] + q);
                    assert forall|l: int| 0 <= l < paths.len() implies (#[trigger] paths[l]).len()
                        > 0 && paths[l][0] == k && paths[l].drop_first() == child_paths[l] && at(
                        paths[l],
                    ) == node.at(child_paths[l]) by {
                        assert(paths[l].drop_first() =~= child_paths[l]);
                    }
                    assert(paths.no_duplicates()) by {
                        assert forall|a: int, b: int|
                            0 <= a < paths.len() && 0 <= b < paths.len() && a != b implies paths[a]
                            != paths[b] by {
                            assert(paths[a].drop_first() != paths[b].drop_first());
                        }
                    }
                    assert forall|p: Levels| #[trigger] paths.contains(p) <==> at(p) is Some
                        && want(p) by {
                        if paths.contains(p) {
                            let l = choose|l: int| 0 <= l < paths.len() && paths[l] == p;
                            assert(child_paths.contains(child_paths[l]));
                            assert(node.table()(child_paths[l]) == node.at(child_paths[l]));
                        }
                        if at(p) is Some && want(p) {
                            let q = p.drop_first();
                            assert(node.table()(q) == node.at(q));
                            assert(child_paths.contains(q));
                            let l = choose|l: int| 0 <= l < child_paths.len() && child_paths[l] == q;
                            assert(p =~= seq![k] + q);
                            assert(paths[l] == p);
                        }
                    }
                    assert(store::publish_views(found@) =~= paths.map_values(
                        |p: Levels| at(p)->0,
                    ));
                }
                (found, Ghost(paths))
            },
            _ => {
                proof {
                    assert(self.child(token@) is None);
                    assert forall|p: Levels| #[trigger] paths.contains(p) <==> at(p) is Some
                        && want(p) by {}
                    assert(store::publish_views(packets@) =~= paths.map_values(
                        |p: Levels| at(p)->0,
                    ));
                }
                (packets, Ghost(paths))
            },
        }
    }

    /// The retained messages of the topics that a filter or a name asks for, each once.
    pub fn match_all(&self, topic: &Topic) -> (r: Vec<PublishPacket>)
        requires
            self.wf(),
        ensures
            answers(
                store::publish_views(r@),
                self.table(),
                text::pieces(topic@.text(), '/'),
            ),
    {
        let tokens = match topic {
            Topic::Filter(filter) => text::split(filter.0.as_str(), '/'),
            Topic::Name(name) => text::split(name.0.as_str(), '/'),
        };
        assert(text::views(tokens@).skip(0) =~= text::pieces(topic@.text(), '/'));
        let (packets, Ghost(paths)) = self._match_all(&tokens, 0);
        packets
    }
}

/// The retained messages of all users.
pub struct GlobalRetains {
    retains: AssocMap<UserId, RetainNode>,
}

impl GlobalRetains {
    pub closed spec fn wf(&self) -> bool {
        forall|u: UserId| #[trigger]
            self.retains@.contains_key(u) ==> self.retains@[u].wf() && self.retains@[u].filed()
    }

    /// `true` iff a message has been retained for the user before.
    pub closed spec fn known(&self, user_id: UserId) -> bool {
        self.retains@.contains_key(user_id)
    }

    /// The message that is retained for a user's topic.
    pub closed spec fn at(&self, user_id: UserId, path: Levels) -> Option<PublishModel> {
        if self.retains@.contains_key(user_id) {
            self.retains@[user_id].at(path)
        } else {
            None
        }
    }

    /// The messages that are retained for a user, by topic.
    pub open spec fn table(&self, user_id: UserId) -> spec_fn(Levels) -> Option<PublishModel> {
        |path: Levels| self.at(user_id, path)
    }

    pub fn new() -> (r: GlobalRetains)
        ensures
            r.wf(),
            forall|u: UserId| !(#[trigger] r.known(u)),
            forall|u: UserId, p: Levels| #[trigger] r.at(u, p) is None,
    {
        GlobalRetains { retains: AssocMap::new() }
    }

    /// Each message stands under its own topic.
    pub proof fn law_filed(&self, user_id: UserId, path: Levels)
        requires
            self.wf(),
            self.at(user_id, path) is Some,
        ensures
            text::pieces(self.at(user_id, path)->0.topic, '/') == path,
    {
    }

    /// A message to the keeper of retained messages. The answer goes to the sessions.
    pub fn handle(&mut self, msg: GlobalRetainMsg) -> (r: Option<ClientSessionMsg>)
        requires
            old(self).wf(),
        ensures
            final(self).wf(),
            retained(
                *old(self),
                *final(self),
                msg@,
                match r {
                    Some(m) => Some(m@),
                    None => None,
                },
            ),
    {
        match msg {
            GlobalRetainMsg::Insert(user_id, packet) => {
                let mut node = match self.retains.remove(&user_id) {
                    Some(node) => node,
                    None => RetainNode::new(),
                };
                node.insert(&packet);
                self.retains.insert(user_id, node);
                None
            },
            GlobalRetainMsg::Remove(user_id, topic_name) => {
                if let Some(node) = self.retains.remove(&user_id) {
                    let mut node = node;
                    let _ = node.remove(topic_name.as_str());
                    self.retains.insert(user_id, node);
                }
                None
            },
            GlobalRetainMsg::MatchAll(user_id, addr, topic, qos) => {
                match self.retains.get(&user_id) {
                    Some(node) => {
                        let packets = node.match_all(&topic);
                        assert(node.table() =~= self.table(user_id));
                        Some(ClientSessionMsg::RetainPackets(user_id, addr, packets, qos))
                    },
                    None => None,
                }
            },
        }
    }
}

/// What a message to the keeper of retained messages does, and what is answered.
pub open spec fn retained(
    a: GlobalRetains,
    b: GlobalRetains,
    msg: GlobalRetainMsgModel,
    answer: Option<ClientSessionMsgModel>,
) -> bool {
    match msg {
        GlobalRetainMsgModel::Insert(user_id, packet) => {
            &&& answer is None
            &&& forall|u: UserId| #[trigger] b.known(u) == (u == user_id || a.known(u))
            &&& forall|u: UserId, p: Levels| #[trigger]
                b.at(u, p) == (if u == user_id && p == text::pieces(packet.topic, '/') {
                    Some(packet)
                } else {
                    a.at(u, p)
                })
        },
        GlobalRetainMsgModel::Remove(user_id, topic_name) => {
            &&& answer is None
            &&& forall|u: UserId| #[trigger] b.known(u) == a.known(u)
            &&& forall|u: UserId, p: Levels| #[trigger]
                b.at(u, p) == (if u == user_id && p == text::pieces(topic_name, '/') {
                    None
                } else {
                    a.at(u, p)
                })
        },
        GlobalRetainMsgModel::MatchAll(user_id, addr, topic, qos) => {
            &&& b == a
            &&& if a.known(user_id) {
                &&& answer matches Some(ClientSessionMsgModel::RetainPackets(u, to, packets, level))
                &&& u == user_id
                &&& to == addr
                &&& level == qos
                &&& answers(packets, a.table(user_id), text::pieces(topic.text(), '/'))
            } else {
                answer is None
            }
        },
    }
}

/// Law: a message that was retained is among the answers to every filter that asks for its topic,
/// until its topic is retained anew or forgotten.
pub proof fn law_retained_is_answered(
    r: GlobalRetains,
    user_id: UserId,
    path: Levels,
    tokens: Levels,
    answer: Seq<PublishModel>,
)
    requires
        r.at(user_id, path) is Some,
        asks_for(tokens, path),
        answers(answer, r.table(user_id), tokens),
    ensures
        answer.contains(r.at(user_id, path)->0),
{
    let paths = choose|paths: Seq<Levels>| #[trigger]
        lists(answer, paths, r.table(user_id), asked_by(tokens));
    assert(asked_by(tokens)(path));
    assert(r.table(user_id)(path) is Some);
    assert(paths.contains(path));
    let i = choose|i: int| 0 <= i < paths.len() && paths[i] == path;
    assert(answer[i] == r.at(user_id, path)->0);
}

/// Law: what is answered to a filter is retained, and the filter asks for its topic.
pub proof fn law_answered_is_retained(
    r: GlobalRetains,
    user_id: UserId,
    tokens: Levels,
    answer: Seq<PublishModel>,
    message: PublishModel,
)
    requires
        r.wf(),
        answers(answer, r.table(user_id), tokens),
        answer.contains(message),
    ensures
        asks_for(tokens, text::pieces(message.topic, '/')),
        r.at(user_id, text::pieces(message.topic, '/')) == Some(message),
{
    let paths = choose|paths: Seq<Levels>| #[trigger]
        lists(answer, paths, r.table(user_id), asked_by(tokens));
    let i = choose|i: int| 0 <= i < answer.len() && answer[i] == message;
    assert(paths.contains(paths[i]));
    assert(r.table(user_id)(paths[i]) is Some);
    r.law_filed(user_id, paths[i]);
}

/// Law: a filter whose `#` is its last level asks for the retained message of a topic iff a
/// subscription to the filter gets the messages that are published to the topic.
pub proof fn law_filters_mean_the_same(filter: Levels, name: Levels)
    requires
        forall|i: int| 0 <= i < filter.len() - 1 ==> #[trigger] filter[i] != "#"@,
    ensures
        asks_for(filter, name) <==> route::path_matches(
            filter.map_values(|t: Seq<char>| route::key_of(t)),
            name,
        ),
    decreases filter.len(),
{
    let path = filter.map_values(|t: Seq<char>| route::key_of(t));
    reveal_strlit("#");
    reveal_strlit("+");
    if filter.len() > 0 && name.len() > 0 {
        assert(path.drop_first() =~= filter.drop_first().map_values(
            |t: Seq<char>| route::key_of(t),
        ));
        assert("#"@[0] == '#');
        assert("+"@[0] == '+');
        assert forall|i: int| 0 <= i < filter.drop_first().len() - 1 implies #[trigger] filter.drop_first()[i]
            != "#"@ by {
            assert(filter[i + 1] != "#"@);
        }
        law_filters_mean_the_same(filter.drop_first(), name.drop_first());
        assert(path[0] == route::key_of(filter[0]));
        if filter[0] == "#"@ {
            if filter.len() > 1 {
                assert(filter[0] != "#"@);
            }
        }
    }
}

/// Law: a message that is to be retained takes the place of its topic's, and no other's.
pub proof fn law_retained_takes_its_place(
    a: GlobalRetains,
    b: GlobalRetains,
    user_id: UserId,
    p: PublishModel,
    answer: Option<ClientSessionMsgModel>,
    other: UserId,
    path: Levels,
)
    requires
        retained(a, b, GlobalRetainMsgModel::Insert(user_id, p), answer),
    ensures
        answer is None,
        b.at(user_id, text::pieces(p.topic, '/')) == Some(p),
        other != user_id || path != text::pieces(p.topic, '/') ==> b.at(other, path) == a.at(
            other,
            path,
        ),
{
}

/// Law: a topic that is to be forgotten has no message from then on, and every other has what it had.
pub proof fn law_forgotten_is_gone(
    a: GlobalRetains,
    b: GlobalRetains,
    user_id: UserId,
    topic: Seq<char>,
    answer: Option<ClientSessionMsgModel>,
    other: UserId,
    path: Levels,
)
    requires
        retained(a, b, GlobalRetainMsgModel::Remove(user_id, topic), answer),
    ensures
        answer is None,
        b.at(user_id, text::pieces(topic, '/')) is None,
        other != user_id || path != text::pieces(topic, '/') ==> b.at(other, path) == a.at(
            other,
            path,
        ),
{
}

/// Law: who asks for the messages of a topic gets, at the address and the level that were given, those
/// that are retained for a topic which the levels asked for match, each once, and no other.
pub proof fn law_query_is_answered(
    a: GlobalRetains,
    b: GlobalRetains,
    user_id: UserId,
    addr: SocketAddr,
    topic: TopicModel,
    q: QualityOfService,
    answer: Option<ClientSessionMsgModel>,
)
    requires
        a.wf(),
        retained(a, b, GlobalRetainMsgModel::MatchAll(user_id, addr, topic, q), answer),
        forall|i: int|
            0 <= i < text::pieces(topic.text(), '/').len() - 1 ==> #[trigger] text::pieces(
                topic.text(),
                '/',
            )[i] != "#"@,
    ensures
        b == a,
        answer is None ==> forall|path: Levels| #[trigger] a.at(user_id, path) is None,
        answer is Some ==> {
            &&& answer->0 is RetainPackets
            &&& answer->0->RetainPackets_0 == user_id
            &&& answer->0->RetainPackets_1 == addr
            &&& answer->0->RetainPackets_3 == q
            &&& answer->0->RetainPackets_2.no_duplicates()
            &&& forall|x: PublishModel| #[trigger]
                answer->0->RetainPackets_2.contains(x) <==> {
                    &&& a.at(user_id, text::pieces(x.topic, '/')) == Some(x)
                    &&& route::path_matches(
                        route::filter_path(topic.text()),
                        text::pieces(x.topic, '/'),
                    )
                }
        },
{
    let tokens = text::pieces(topic.text(), '/');
    if answer is Some {
        let packets = answer->0->RetainPackets_2;
        assert(answers(packets, a.table(user_id), tokens));
        assert(route::filter_path(topic.text()) =~= tokens.map_values(
            |t: Seq<char>| route::key_of(t),
        ));
        assert forall|x: PublishModel| #[trigger] packets.contains(x) <==> {
            &&& a.at(user_id, text::pieces(x.topic, '/')) == Some(x)
            &&& route::path_matches(
                route::filter_path(topic.text()),
                text::pieces(x.topic, '/'),
            )
        } by {
            let path = text::pieces(x.topic, '/');
            law_filters_mean_the_same(tokens, path);
            if packets.contains(x) {
                law_answered_is_retained(a, user_id, tokens, packets, x);
            }
            if a.at(user_id, path) == Some(x) && asks_for(tokens, path) {
                law_retained_is_answered(a, user_id, path, tokens, packets);
            }
        }
        lemma_answered_once(a, user_id, tokens, packets);
    }
}

/// No message is answered twice.
proof fn lemma_answered_once(
    r: GlobalRetains,
    user_id: UserId,
    tokens: Levels,
    answer: Seq<PublishModel>,
)
    requires
        r.wf(),
        answers(answer, r.table(user_id), tokens),
    ensures
        answer.no_duplicates(),
{
    let paths = choose|paths: Seq<Levels>| #[trigger]
        lists(answer, paths, r.table(user_id), asked_by(tokens));
    assert forall|i: int, j: int|
        0 <= i < answer.len() && 0 <= j < answer.len() && i != j implies answer[i] != answer[j] by {
        assert(paths.contains(paths[i]));
        assert(paths.contains(paths[j]));
        assert(r.table(user_id)(paths[i]) is Some);
        assert(r.table(user_id)(paths[j]) is Some);
        r.law_filed(user_id, paths[i]);
        r.law_filed(user_id, paths[j]);
    }
}

} // verus!
