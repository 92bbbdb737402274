//! The hub: the part of the broker that clients connect to.
use vstd::prelude::*;

pub mod client_connection;
pub mod client_session;
pub mod client_session_spec;
pub mod exchange_laws;
pub mod hub_laws;
pub mod local_router;
pub mod router_laws;
pub mod session;
pub mod session_laws;
pub mod session_spec;
#[allow(deprecated)]
pub mod session_timer;
pub mod store_client;

use crate::common::{ClientIdentifier, SocketAddr, UserId};
use crate::packet::{PublishPacket, SubscribePacket, UnsubscribePacket};
use crate::qos::QualityOfService;
use crate::store;
use crate::store::{GlobalRetainMsg, GlobalRetainMsgModel};
use crate::wire::{PublishModel, SubscribeModel, UnsubscribeModel};

verus! {

/// Messages to the connections of the clients.
pub enum ClientConnectionMsg {
    Data(SocketAddr, Vec<u8>),
    DisconnectClient(SocketAddr, String),
}

/// Messages to the sessions of the clients.
pub enum ClientSessionMsg {
    Data(SocketAddr, Vec<u8>),
    /// The level is that of the subscription.
    Publish(UserId, ClientIdentifier, QualityOfService, PublishPacket),
    ClientDisconnect(SocketAddr, String),
    /// The level is that of the subscription.
    RetainPackets(UserId, SocketAddr, Vec<PublishPacket>, QualityOfService),
    Timeout(SessionTimerPayload),
}

/// Messages to the hub's router.
pub enum LocalRouterMsg {
    /// A message on its way to all hubs.
    ForwardPublish(UserId, PublishPacket),
    /// A message for the clients of this hub.
    Publish(UserId, PublishPacket),
    Subscribe(UserId, ClientIdentifier, SocketAddr, SubscribePacket),
    Unsubscribe(UserId, ClientIdentifier, UnsubscribePacket),
    ClientDisconnect(UserId, ClientIdentifier),
}

/// Messages to a following router.
#[derive(Debug, PartialEq, Eq, Structural, Clone, Copy)]
pub enum RouterFollowerMsg {
    _Shutdown,
}

/// Messages to the leading router.
#[derive(Debug, PartialEq, Eq, Structural, Clone, Copy)]
pub enum RouterLeaderMsg {
    _Shutdown,
}

/// What to do with a timer. Instants are nanoseconds of the hub's clock.
#[derive(Debug, PartialEq, Eq, Structural, Clone, Copy)]
pub enum SessionTimerAction {
    SetAt(u64),
    Cancel,
}

/// The packet that a timer waits for.
#[derive(Debug, PartialEq, Eq, Structural, Clone, Copy, Hash)]
pub enum SessionTimerPacketType {
    /// The answer to a message sent at level one.
    RecvPubackTimeout,
    /// The first answer to a message sent at level two.
    RecvPubrecTimeout,
    /// The second answer to a message sent at level two.
    RecvPubcompTimeout,
    /// The release of a message received at level two.
    RecvPubrelTimeout,
}

/// What a timer is for.
#[derive(Debug, PartialEq, Eq, Structural, Clone, Copy, Hash)]
pub enum SessionTimerPayload {
    /// A packet from the client at the address, for the packet identifier.
    RecvPacketTimer(SessionTimerPacketType, SocketAddr, u16),
    /// Any packet from the client at the address.
    KeepAliveTimer(SocketAddr),
}

#[verifier::ext_equal]
pub enum ClientConnectionMsgModel {
    Data(SocketAddr, Seq<u8>),
    DisconnectClient(SocketAddr, Seq<char>),
}

#[verifier::ext_equal]
pub enum ClientSessionMsgModel {
    Data(SocketAddr, Seq<u8>),
    Publish(UserId, Seq<char>, QualityOfService, PublishModel),
    ClientDisconnect(SocketAddr, Seq<char>),
    RetainPackets(UserId, SocketAddr, Seq<PublishModel>, QualityOfService),
    Timeout(SessionTimerPayload),
}

#[verifier::ext_equal]
pub enum LocalRouterMsgModel {
    ForwardPublish(UserId, PublishModel),
    Publish(UserId, PublishModel),
    Subscribe(UserId, Seq<char>, SocketAddr, SubscribeModel),
    Unsubscribe(UserId, Seq<char>, UnsubscribeModel),
    ClientDisconnect(UserId, Seq<char>),
}

impl View for ClientConnectionMsg {
    type V = ClientConnectionMsgModel;

    open spec fn view(&self) -> ClientConnectionMsgModel {
        match self {
            ClientConnectionMsg::Data(addr, data) => ClientConnectionMsgModel::Data(*addr, data@),
            ClientConnectionMsg::DisconnectClient(addr, reason) =>
                ClientConnectionMsgModel::DisconnectClient(*addr, reason@),
        }
    }
}

impl View for ClientSessionMsg {
    type V = ClientSessionMsgModel;

    open spec fn view(&self) -> ClientSessionMsgModel {
        match self {
            ClientSessionMsg::Data(addr, data) => ClientSessionMsgModel::Data(*addr, data@),
            ClientSessionMsg::Publish(user, client, qos, packet) => ClientSessionMsgModel::Publish(
                *user,
                client@,
                *qos,
                packet@,
            ),
            ClientSessionMsg::ClientDisconnect(addr, reason) =>
                ClientSessionMsgModel::ClientDisconnect(*addr, reason@),
            ClientSessionMsg::RetainPackets(user, addr, packets, qos) =>
                ClientSessionMsgModel::RetainPackets(
                *user,
                *addr,
                store::publish_views(packets@),
                *qos,
            ),
            ClientSessionMsg::Timeout(payload) => ClientSessionMsgModel::Timeout(*payload),
        }
    }
}

impl View for LocalRouterMsg {
    type V = LocalRouterMsgModel;

    open spec fn view(&self) -> LocalRouterMsgModel {
        match self {
            LocalRouterMsg::ForwardPublish(user, packet) => LocalRouterMsgModel::ForwardPublish(
                *user,
                packet@,
            ),
            LocalRouterMsg::Publish(user, packet) => LocalRouterMsgModel::Publish(*user, packet@),
            LocalRouterMsg::Subscribe(user, client, addr, packet) => LocalRouterMsgModel::Subscribe(
                *user,
                client@,
                *addr,
                packet@,
            ),
            LocalRouterMsg::Unsubscribe(user, client, packet) => LocalRouterMsgModel::Unsubscribe(
                *user,
                client@,
                packet@,
            ),
            LocalRouterMsg::ClientDisconnect(user, client) => LocalRouterMsgModel::ClientDisconnect(
                *user,
                client@,
            ),
        }
    }
}

/// A message that a session sends.
pub enum SessionAction {
    Connection(ClientConnectionMsg),
    Timer(SessionTimerAction, SessionTimerPayload),
    Router(LocalRouterMsg),
    Retain(GlobalRetainMsg),
}

#[verifier::ext_equal]
pub enum SessionActionModel {
    Connection(ClientConnectionMsgModel),
    Timer(SessionTimerAction, SessionTimerPayload),
    Router(LocalRouterMsgModel),
    Retain(GlobalRetainMsgModel),
}

impl View for SessionAction {
    type V = SessionActionModel;

    open spec fn view(&self) -> SessionActionModel {
        match self {
            SessionAction::Connection(msg) => SessionActionModel::Connection(msg@),
            SessionAction::Timer(action, payload) => SessionActionModel::Timer(*action, *payload),
            SessionAction::Router(msg) => SessionActionModel::Router(msg@),
            SessionAction::Retain(msg) => SessionActionModel::Retain(msg@),
        }
    }
}

/// Messages to be sent, oldest first.
pub struct Outbox {
    pub actions: Vec<SessionAction>,
}

impl View for Outbox {
    type V = Seq<SessionActionModel>;

    open spec fn view(&self) -> Seq<SessionActionModel> {
        self.actions@.map_values(|a: SessionAction| a@)
    }
}

impl Outbox {
    pub fn new() -> (r: Self)
        ensures
            r@ == Seq::<SessionActionModel>::empty(),
    {
        let r = Outbox { actions: Vec::new() };
        assert(r@ =~= Seq::<SessionActionModel>::empty());
        r
    }

    pub fn push(&mut self, action: SessionAction)
        ensures
            final(self)@ == old(self)@.push(action@),
    {
        self.actions.push(action);
        assert(self@ =~= old(self)@.push(action@));
    }

    /// Sends bytes to a client.
    pub fn send(&mut self, addr: SocketAddr, data: Vec<u8>)
        ensures
            final(self)@ == old(self)@.push(send_action(addr, data@)),
    {
        self.push(SessionAction::Connection(ClientConnectionMsg::Data(addr, data)));
    }

    /// Closes the connection to a client.
    pub fn disconnect(&mut self, addr: SocketAddr, reason: String)
        ensures
            final(self)@ == old(self)@.push(disconnect_action(addr, reason@)),
    {
        self.push(SessionAction::Connection(ClientConnectionMsg::DisconnectClient(addr, reason)));
    }

    pub fn timer(&mut self, action: SessionTimerAction, payload: SessionTimerPayload)
        ensures
            final(self)@ == old(self)@.push(SessionActionModel::Timer(action, payload)),
    {
        self.push(SessionAction::Timer(action, payload));
    }
}

pub open spec fn send_action(addr: SocketAddr, data: Seq<u8>) -> SessionActionModel {
    SessionActionModel::Connection(ClientConnectionMsgModel::Data(addr, data))
}

pub open spec fn disconnect_action(addr: SocketAddr, reason: Seq<char>) -> SessionActionModel {
    SessionActionModel::Connection(ClientConnectionMsgModel::DisconnectClient(addr, reason))
}

} // verus!
