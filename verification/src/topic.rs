//! Topic names and topic filters.
use vstd::prelude::*;

use crate::assoc::Ident;
use crate::codec;
use crate::text;
use crate::wire;

verus! {

/// The name that a message is published under.
#[derive(Debug)]
pub struct TopicName(pub String);

/// A string that was refused as a topic name.
#[derive(Debug)]
pub struct TopicNameError(pub String);

/// The pattern of names that a client subscribes to.
#[derive(Debug)]
pub struct TopicFilter(pub String);

/// A string that was refused as a topic filter.
#[derive(Debug)]
pub struct TopicFilterError(pub String);

impl View for TopicName {
    type V = Seq<char>;

    open spec fn view(&self) -> Seq<char> {
        self.0@
    }
}

impl View for TopicFilter {
    type V = Seq<char>;

    open spec fn view(&self) -> Seq<char> {
        self.0@
    }
}

impl TopicName {
    pub fn new(name: &str) -> (r: Result<TopicName, TopicNameError>)
        ensures
            match r {
                Ok(n) => wire::valid_topic_name(name@) && n@ == name@,
                Err(e) => !wire::valid_topic_name(name@) && e.0@ == name@,
            },
    {
        if codec::is_topic_name(name) {
            Ok(TopicName(name.to_owned()))
        } else {
            Err(TopicNameError(name.to_owned()))
        }
    }

    /// A name that is not looked at.
    pub fn new_unchecked(name: String) -> (r: TopicName)
        ensures
            r@ == name@,
    {
        TopicName(name)
    }
}

impl TopicFilter {
    /// A filter that is not looked at.
    pub fn new(filter: &str) -> (r: TopicFilter)
        ensures
            r@ == filter@,
    {
        TopicFilter(filter.to_owned())
    }

    pub fn new_checked(filter: &str) -> (r: Result<TopicFilter, TopicFilterError>)
        ensures
            match r {
                Ok(f) => wire::valid_topic_filter(filter@) && f@ == filter@,
                Err(e) => !wire::valid_topic_filter(filter@) && e.0@ == filter@,
            },
    {
        if codec::is_topic_filter(filter) {
            Ok(TopicFilter(filter.to_owned()))
        } else {
            Err(TopicFilterError(filter.to_owned()))
        }
    }
}

impl Ident for TopicName {
    fn same(&self, other: &Self) -> (r: bool) {
        self.0 == other.0
    }

    fn copy(&self) -> (r: Self) {
        TopicName(self.0.clone())
    }
}

impl Ident for TopicFilter {
    fn same(&self, other: &Self) -> (r: bool) {
        self.0 == other.0
    }

    fn copy(&self) -> (r: Self) {
        TopicFilter(self.0.clone())
    }
}

/// What a client subscribes to: names by a filter with wildcards, or one name.
#[derive(Debug)]
pub enum Topic {
    Filter(TopicFilter),
    Name(TopicName),
}

/// A filter or a name, as characters.
pub enum TopicModel {
    Filter(Seq<char>),
    Name(Seq<char>),
}

impl View for Topic {
    type V = TopicModel;

    open spec fn view(&self) -> TopicModel {
        match self {
            Topic::Filter(f) => TopicModel::Filter(f@),
            Topic::Name(n) => TopicModel::Name(n@),
        }
    }
}

impl TopicModel {
    /// The text of the topic.
    pub open spec fn text(self) -> Seq<char> {
        match self {
            TopicModel::Filter(s) => s,
            TopicModel::Name(s) => s,
        }
    }
}

/// A filter with a wildcard character stays a filter; any other string names one topic.
pub open spec fn topic_of(s: Seq<char>) -> TopicModel {
    if s.contains('+') || s.contains('#') {
        TopicModel::Filter(s)
    } else {
        TopicModel::Name(s)
    }
}

impl Topic {
    pub fn from_filter(filter: &TopicFilter) -> (r: Topic)
        ensures
            r@ == topic_of(filter@),
    {
        if text::has_char(filter.0.as_str(), '+') || text::has_char(filter.0.as_str(), '#') {
            Topic::Filter(filter.copy())
        } else {
            Topic::Name(TopicName::new_unchecked(filter.0.clone()))
        }
    }

    pub fn from_name(name: &TopicName) -> (r: Topic)
        ensures
            r@ == TopicModel::Name(name@),
    {
        Topic::Name(name.copy())
    }

    pub fn from_str(topic: &str) -> (r: Topic)
        requires
            topic_of(topic@) is Name ==> wire::valid_topic_name(topic@),
        ensures
            r@ == topic_of(topic@),
    {
        if text::has_char(topic, '+') || text::has_char(topic, '#') {
            Topic::Filter(TopicFilter::new(topic))
        } else {
            Topic::Name(TopicName::new_unchecked(topic.to_owned()))
        }
    }
}

impl Ident for Topic {
    fn same(&self, other: &Self) -> (r: bool) {
        match (self, other) {
            (Topic::Filter(a), Topic::Filter(b)) => a.same(b),
            (Topic::Name(a), Topic::Name(b)) => a.same(b),
            _ => false,
        }
    }

    fn copy(&self) -> (r: Self) {
        match self {
            Topic::Filter(f) => Topic::Filter(f.copy()),
            Topic::Name(n) => Topic::Name(n.copy()),
        }
    }
}

} // verus!
