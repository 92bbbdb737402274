//! The connections of the clients.
use vstd::prelude::*;

use crate::common::SocketAddr;
use crate::hub::{ClientConnectionMsg, ClientSessionMsg, ClientSessionMsgModel};
use crate::net::{Connections, MsgFromNet, NetAction, ToNetMsg};

verus! {

impl MsgFromNet for ClientSessionMsg {
    open spec fn is_data(&self, addr: SocketAddr, buf: Seq<u8>) -> bool {
        self@ == ClientSessionMsgModel::Data(addr, buf)
    }

    open spec fn is_disconnect(&self, addr: SocketAddr, msg: Seq<char>) -> bool {
        self@ == ClientSessionMsgModel::ClientDisconnect(addr, msg)
    }

    fn data(addr: SocketAddr, buf: Vec<u8>) -> (r: Self) {
        ClientSessionMsg::Data(addr, buf)
    }

    fn disconnect(addr: SocketAddr, msg: String) -> (r: Self) {
        ClientSessionMsg::ClientDisconnect(addr, msg)
    }
}

/// A message to a client's connection: bytes are written where it is open, else the session is told
/// that it is gone; a connection to be closed is sent nothing.
pub fn on_message(connections: &Connections, msg: ClientConnectionMsg) -> (r: NetAction<
    ClientSessionMsg,
>)
    ensures
        match msg {
            ClientConnectionMsg::Data(addr, data) => if connections@.contains(addr) {
                r == NetAction::<ClientSessionMsg>::Write(addr, data)
            } else {
                r matches NetAction::Session(m) && m@ == ClientSessionMsgModel::ClientDisconnect(
                    addr,
                    "Connection closed unexpected!"@,
                )
            },
            ClientConnectionMsg::DisconnectClient(addr, _) => if connections@.contains(addr) {
                r matches NetAction::Write(a, data) && a == addr && data@.len() == 0
            } else {
                r is Nothing
            },
        },
{
    match msg {
        ClientConnectionMsg::Data(addr, data) => connections.handle(ToNetMsg::Data(addr, data)),
        ClientConnectionMsg::DisconnectClient(addr, reason) => connections.handle(
            ToNetMsg::Disconnect(addr, reason),
        ),
    }
}

} // verus!
