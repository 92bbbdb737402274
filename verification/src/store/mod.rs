//! The store: what all hubs share.
use vstd::prelude::*;

pub mod global_retain;
pub mod global_router;
pub mod store_session;

use crate::assoc::Ident;
use crate::common::{ClientIdentifier, SocketAddr, UserId};
use crate::packet::PublishPacket;
use crate::qos::QualityOfService;
use crate::topic::{Topic, TopicModel};
use crate::wire::PublishModel;

verus! {

/// A hub, by the address of its connection to the store.
#[derive(Debug, PartialEq, Eq, Structural, Clone, Copy, Hash)]
pub struct HubNode(pub SocketAddr);

impl View for HubNode {
    type V = HubNode;

    open spec fn view(&self) -> HubNode {
        *self
    }
}

impl Ident for HubNode {
    fn same(&self, other: &Self) -> (r: bool) {
        *self == *other
    }

    fn copy(&self) -> (r: Self) {
        *self
    }
}

/// Messages to the sessions of the hubs.
pub enum StoreSessionMsg {
    Data(SocketAddr, Vec<u8>),
    Disconnect(SocketAddr, String),
    Publish(SocketAddr, UserId, PublishPacket),
    /// The level is that of the subscription.
    Retains(SocketAddr, UserId, ClientIdentifier, Vec<PublishPacket>, QualityOfService),
}

/// Messages from the sessions to the router.
pub enum GlobalRouterMsg {
    Publish(SocketAddr, UserId, PublishPacket),
    Subscribe(SocketAddr, UserId, Vec<Topic>),
    Unsubscribe(SocketAddr, UserId, Vec<Topic>),
    NodeDisconnect(SocketAddr),
}

/// Messages to the keeper of retained messages.
pub enum GlobalRetainMsg {
    Insert(UserId, PublishPacket),
    Remove(UserId, String),
    MatchAll(UserId, SocketAddr, Topic, QualityOfService),
}

#[verifier::ext_equal]
pub enum StoreSessionMsgModel {
    Data(SocketAddr, Seq<u8>),
    Disconnect(SocketAddr, Seq<char>),
    Publish(SocketAddr, UserId, PublishModel),
    Retains(SocketAddr, UserId, Seq<char>, Seq<PublishModel>, QualityOfService),
}

#[verifier::ext_equal]
pub enum GlobalRouterMsgModel {
    Publish(SocketAddr, UserId, PublishModel),
    Subscribe(SocketAddr, UserId, Seq<TopicModel>),
    Unsubscribe(SocketAddr, UserId, Seq<TopicModel>),
    NodeDisconnect(SocketAddr),
}

#[verifier::ext_equal]
pub enum GlobalRetainMsgModel {
    Insert(UserId, PublishModel),
    Remove(UserId, Seq<char>),
    MatchAll(UserId, SocketAddr, TopicModel, QualityOfService),
}

/// The views of a list of messages.
pub open spec fn publish_views(s: Seq<PublishPacket>) -> Seq<PublishModel> {
    s.map_values(|p: PublishPacket| p@)
}

/// The views of a list of topics.
pub open spec fn topic_views(s: Seq<Topic>) -> Seq<TopicModel> {
    s.map_values(|t: Topic| t@)
}

impl View for StoreSessionMsg {
    type V = StoreSessionMsgModel;

    open spec fn view(&self) -> StoreSessionMsgModel {
        match self {
            StoreSessionMsg::Data(addr, data) => StoreSessionMsgModel::Data(*addr, data@),
            StoreSessionMsg::Disconnect(addr, reason) => StoreSessionMsgModel::Disconnect(
                *addr,
                reason@,
            ),
            StoreSessionMsg::Publish(addr, user, packet) => StoreSessionMsgModel::Publish(
                *addr,
                *user,
                packet@,
            ),
            StoreSessionMsg::Retains(addr, user, client, packets, qos) => StoreSessionMsgModel::Retains(
                *addr,
                *user,
                client@,
                publish_views(packets@),
                *qos,
            ),
        }
    }
}

impl View for GlobalRouterMsg {
    type V = GlobalRouterMsgModel;

    open spec fn view(&self) -> GlobalRouterMsgModel {
        match self {
            GlobalRouterMsg::Publish(addr, user, packet) => GlobalRouterMsgModel::Publish(
                *addr,
                *user,
                packet@,
            ),
            GlobalRouterMsg::Subscribe(addr, user, topics) => GlobalRouterMsgModel::Subscribe(
                *addr,
                *user,
                topic_views(topics@),
            ),
            GlobalRouterMsg::Unsubscribe(addr, user, topics) => GlobalRouterMsgModel::Unsubscribe(
                *addr,
                *user,
                topic_views(topics@),
            ),
            GlobalRouterMsg::NodeDisconnect(addr) => GlobalRouterMsgModel::NodeDisconnect(*addr),
        }
    }
}

impl View for GlobalRetainMsg {
    type V = GlobalRetainMsgModel;

    open spec fn view(&self) -> GlobalRetainMsgModel {
        match self {
            GlobalRetainMsg::Insert(user, packet) => GlobalRetainMsgModel::Insert(*user, packet@),
            GlobalRetainMsg::Remove(user, topic) => GlobalRetainMsgModel::Remove(*user, topic@),
            GlobalRetainMsg::MatchAll(user, addr, topic, qos) => GlobalRetainMsgModel::MatchAll(
                *user,
                *addr,
                topic@,
                *qos,
            ),
        }
    }
}

} // verus!
