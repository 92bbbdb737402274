//! Identifiers and the requests between a hub and the store.
use vstd::prelude::*;

use crate::assoc::Ident;
use crate::packet::PublishPacket;
use crate::qos::QualityOfService;
use crate::topic::Topic;

verus! {

/// The user that a client belongs to. Users never see each other's messages.
#[derive(Debug, PartialEq, Eq, Structural, Clone, Copy, Hash)]
pub struct UserId(pub u32);

/// The name that a client gave itself.
#[derive(Debug)]
pub struct ClientIdentifier(pub String);

/// A peer's network address.
#[derive(Debug, PartialEq, Eq, Structural, Clone, Copy, Hash)]
pub enum SocketAddr {
    V4 { ip: u32, port: u16 },
    V6 { ip6: u128, port: u16, flowinfo: u32, scope_id: u32 },
}

/// A client among all clients of all users.
#[derive(Debug)]
pub struct ClientKey {
    pub user_id: UserId,
    pub client_identifier: ClientIdentifier,
}

impl View for UserId {
    type V = UserId;

    open spec fn view(&self) -> UserId {
        *self
    }
}

impl View for ClientIdentifier {
    type V = Seq<char>;

    open spec fn view(&self) -> Seq<char> {
        self.0@
    }
}

impl View for SocketAddr {
    type V = SocketAddr;

    open spec fn view(&self) -> SocketAddr {
        *self
    }
}

impl View for ClientKey {
    type V = (UserId, Seq<char>);

    open spec fn view(&self) -> (UserId, Seq<char>) {
        (self.user_id, self.client_identifier@)
    }
}

impl Ident for UserId {
    fn same(&self, other: &Self) -> (r: bool) {
        *self == *other
    }

    fn copy(&self) -> (r: Self) {
        *self
    }
}

impl Ident for ClientIdentifier {
    fn same(&self, other: &Self) -> (r: bool) {
        self.0 == other.0
    }

    fn copy(&self) -> (r: Self) {
        ClientIdentifier(self.0.clone())
    }
}

impl Ident for SocketAddr {
    fn same(&self, other: &Self) -> (r: bool) {
        *self == *other
    }

    fn copy(&self) -> (r: Self) {
        *self
    }
}

impl Ident for ClientKey {
    fn same(&self, other: &Self) -> (r: bool) {
        self.user_id == other.user_id && self.client_identifier.same(&other.client_identifier)
    }

    fn copy(&self) -> (r: Self) {
        ClientKey { user_id: self.user_id, client_identifier: self.client_identifier.copy() }
    }
}

/// What a framed connection waits for: a length, or a payload of a known length.
#[derive(Debug, PartialEq, Eq, Structural, Clone, Copy)]
pub enum CodecState {
    Len,
    Payload { len: u64 },
}

/// What a hub asks the store.
pub enum StoreRequest {
    Publish(UserId, PublishPacket),
    Subscribe(UserId, Vec<Topic>),
    Unsubscribe(UserId, Vec<Topic>),
    GetRetains(UserId, ClientIdentifier, Topic, QualityOfService),
}

/// What the store tells a hub.
pub enum StoreResponse {
    Publish(UserId, PublishPacket),
    Retains(UserId, ClientIdentifier, Vec<PublishPacket>, QualityOfService),
}

} // verus!
