//! A client of the broker.
use vstd::prelude::*;
use vstd::string::*;
use vstd::utf8::*;

use crate::codec;
use crate::codec::ConnectFields;
use crate::framing::{NextPacket, PacketReader};
use crate::net;
use crate::packet;
use crate::packet::{
    ConnectPacket, PublishPacket, SubscribePacket, UnsubscribePacket, VariablePacket,
};
use crate::qos::{QoSWithPacketIdentifier, QualityOfService};
use crate::text;
use crate::topic::TopicName;
use crate::wire;
use crate::wire::{
    ConnectModel, FixedHeader, NextFrame, PacketModel, PublishModel, SubscribeModel,
    UnsubscribeModel,
};

verus! {

/// Messages to a client's inbox.
pub enum ClientInboxMsg {
    Received(VariablePacket),
    Shutdown,
}

/// Messages to a client's receiver.
pub enum ClientMsg {
    Data(Vec<u8>),
    Shutdown,
}

/// A client.
#[verifier::ext_equal]
pub struct ClientModel {
    pub server_port: Seq<char>,
    pub keep_alive: u32,
    pub client_identifier: Seq<char>,
    pub clean_session: bool,
    pub ignore_pingresp: bool,
    pub will: Option<(Seq<char>, Seq<u8>)>,
    pub will_qos: Option<u8>,
    pub will_retain: Option<bool>,
    pub pkid: u16,
    pub started: bool,
}

/// What a client says of itself when it connects. A keep alive of more than sixteen bits is cut to
/// its lower sixteen; the level and the flag of a will only count where there is one.
pub open spec fn connect_model(c: ClientModel) -> ConnectModel {
    ConnectModel {
        protocol_name: "MQTT"@,
        client_identifier: c.client_identifier,
        clean_session: c.clean_session,
        keep_alive: (c.keep_alive % 0x10000) as u16,
        will: c.will,
        will_qos: if c.will is None || c.will_qos is None {
            0
        } else {
            c.will_qos->0
        },
        will_retain: c.will is Some && c.will_retain == Some(true),
    }
}

/// The identifier after `pkid`: one to 65535, and round again.
pub open spec fn next_pkid(pkid: u16) -> u16 {
    if pkid == 65535 {
        1
    } else {
        (pkid + 1) as u16
    }
}

/// What a client sends: nothing before it has connected.
pub open spec fn sent(c: ClientModel, bytes: Seq<u8>) -> Option<Seq<u8>> {
    if c.started {
        Some(bytes)
    } else {
        None
    }
}

pub open spec fn bytes_view(v: Option<Vec<u8>>) -> Option<Seq<u8>> {
    match v {
        Some(b) => Some(b@),
        None => None,
    }
}

/// Filters with the numbers of their levels, as filters with levels.
pub open spec fn requested(s: Seq<(&str, u32)>) -> Seq<(Seq<char>, QualityOfService)> {
    s.map_values(|e: (&str, u32)| (e.0@, wire::level_of(e.1 as u8)))
}

pub open spec fn str_views(s: Seq<&str>) -> Seq<Seq<char>> {
    s.map_values(|e: &str| e@)
}

/// A message at the level with the given number; levels above zero take the identifier.
pub open spec fn message(
    topic: Seq<char>,
    payload: Seq<u8>,
    qos: u32,
    pkid: u16,
    retain: bool,
    dup: bool,
) -> PublishModel {
    PublishModel {
        topic,
        qos: if qos == 0 {
            QoSWithPacketIdentifier::Level0
        } else if qos == 1 {
            QoSWithPacketIdentifier::Level1(pkid)
        } else {
            QoSWithPacketIdentifier::Level2(pkid)
        },
        payload,
        retain,
        dup,
    }
}

/// The level with the given number.
fn level(n: u32) -> (r: QualityOfService)
    requires
        n <= 2,
    ensures
        r == wire::level_of(n as u8),
{
    if n == 0 {
        QualityOfService::Level0
    } else if n == 1 {
        QualityOfService::Level1
    } else {
        QualityOfService::Level2
    }
}

/// A client.
pub struct Client {
    server_port: String,
    keep_alive: u32,
    client_identifier: String,
    clean_session: bool,
    ignore_pingresp: bool,
    will: Option<(TopicName, Vec<u8>)>,
    will_qos: Option<u8>,
    will_retain: Option<bool>,
    pkid: u16,
    started: bool,
}

impl View for Client {
    type V = ClientModel;

    closed spec fn view(&self) -> ClientModel {
        ClientModel {
            server_port: self.server_port@,
            keep_alive: self.keep_alive,
            client_identifier: self.client_identifier@,
            clean_session: self.clean_session,
            ignore_pingresp: self.ignore_pingresp,
            will: match self.will {
                Some((topic, message)) => Some((topic@, message@)),
                None => None,
            },
            will_qos: self.will_qos,
            will_retain: self.will_retain,
            pkid: self.pkid,
            started: self.started,
        }
    }
}

impl Client {
    /// A client of the server in `url`, which has not connected yet.
    pub fn new(
        url: &str,
        keep_alive: u32,
        client_identifier: &str,
        clean_session: bool,
        ignore_pingresp: bool,
        will: Option<(&str, Vec<u8>)>,
        will_qos: Option<u8>,
        will_retain: Option<bool>,
    ) -> (r: Client)
        requires
            net::after_scheme(url@) is Some,
            will matches Some((topic, _)) ==> wire::valid_topic_name(topic@),
        ensures
            r@ == (ClientModel {
                server_port: net::after_scheme(url@)->0,
                keep_alive,
                client_identifier: client_identifier@,
                clean_session,
                ignore_pingresp,
                will: match will {
                    Some((topic, message)) => Some((topic@, message@)),
                    None => None,
                },
                will_qos,
                will_retain,
                pkid: 0,
                started: false,
            }),
    {
        let server_port = match net::server_port(url) {
            Some(server_port) => server_port,
            None => String::new(),
        };
        let will = match will {
            Some((topic, message)) => Some((TopicName::new_unchecked(topic.to_owned()), message)),
            None => None,
        };
        Client {
            server_port,
            keep_alive,
            client_identifier: client_identifier.to_owned(),
            clean_session,
            ignore_pingresp,
            will,
            will_qos,
            will_retain,
            pkid: 0,
            started: false,
        }
    }

    /// The server and port to connect to.
    pub fn server_port(&self) -> (r: &str)
        ensures
            r@ == self@.server_port,
    {
        self.server_port.as_str()
    }

    /// Connects: gives the first bytes to send.
    pub fn connect(&mut self) -> (r: Vec<u8>)
        requires
            wire::connect_encodable(connect_model(old(self)@)),
        ensures
            final(self)@ == (ClientModel { started: true, ..old(self)@ }),
            r@ == wire::connect_bytes(connect_model(old(self)@)),
    {
        self.started = true;
        let keep_alive: u32 = self.keep_alive;
        assert(keep_alive as u16 == keep_alive % 0x10000) by (bit_vector);
        let mut will_qos: u8 = 0;
        let mut will_retain = false;
        let will = match &self.will {
            Some((topic, message)) => {
                will_qos = match self.will_qos {
                    Some(qos) => qos,
                    None => 0,
                };
                will_retain = match self.will_retain {
                    Some(retain) => retain,
                    None => false,
                };
                Some((topic.0.clone(), packet::copy_bytes(message)))
            },
            None => None,
        };
        let fields = ConnectFields {
            protocol_name: "MQTT".to_owned(),
            client_identifier: self.client_identifier.clone(),
            clean_session: self.clean_session,
            keep_alive: keep_alive as u16,
            will,
            will_qos,
            will_retain,
        };
        assert(fields@ =~= connect_model(old(self)@));
        ConnectPacket::new(fields).encode()
    }

    /// Ends the connection, where there is one, by sending nothing.
    pub fn shutdown(&self) -> (r: Option<Vec<u8>>)
        ensures
            bytes_view(r) == sent(self@, Seq::<u8>::empty()),
    {
        if self.started {
            Some(Vec::new())
        } else {
            None
        }
    }

    /// Gives out the next packet identifier.
    pub fn pkid(&mut self) -> (r: u16)
        ensures
            r == next_pkid(old(self)@.pkid),
            final(self)@ == (ClientModel { pkid: r, ..old(self)@ }),
    {
        if self.pkid == 65535 {
            self.pkid = 0;
        }
        self.pkid = self.pkid + 1;
        self.pkid
    }

    /// Subscribes to filters at the levels with the given numbers.
    pub fn subscribe(&mut self, subscriptions: Vec<(&str, u32)>) -> (r: Option<Vec<u8>>)
        requires
            forall|i: int| 0 <= i < subscriptions@.len() ==> (#[trigger] subscriptions@[i]).1 <= 2,
            wire::subscribe_encodable(
                SubscribeModel {
                    pkid: next_pkid(old(self)@.pkid),
                    subscribes: requested(subscriptions@),
                },
            ),
        ensures
            final(self)@ == (ClientModel { pkid: next_pkid(old(self)@.pkid), ..old(self)@ }),
            bytes_view(r) == sent(
                old(self)@,
                wire::subscribe_bytes(
                    SubscribeModel {
                        pkid: next_pkid(old(self)@.pkid),
                        subscribes: requested(subscriptions@),
                    },
                ),
            ),
    {
        let mut subscribes: Vec<(String, QualityOfService)> = Vec::new();
        let mut i: usize = 0;
        while i < subscriptions.len()
            invariant
                i <= subscriptions@.len(),
                forall|j: int|
                    0 <= j < subscriptions@.len() ==> (#[trigger] subscriptions@[j]).1 <= 2,
                codec::subscription_views(subscribes@) == requested(subscriptions@.take(i as int)),
            decreases subscriptions@.len() - i,
        {
            let (topic, qos) = subscriptions[i];
            let filter: String = topic.to_owned();
            subscribes.push((filter, level(qos)));
            proof {
                let before = subscriptions@.take(i as int);
                assert(subscriptions@.take(i + 1) =~= before.push(subscriptions@[i as int]));
                assert(codec::subscription_views(subscribes@) =~= requested(before).push(
                    (filter@, wire::level_of(qos as u8)),
                ));
                assert(requested(before.push(subscriptions@[i as int])) =~= requested(before).push(
                    (filter@, wire::level_of(qos as u8)),
                ));
            }
            i = i + 1;
        }
        assert(subscriptions@.take(i as int) =~= subscriptions@);
        let pkid: u16 = self.pkid();
        self.send(&VariablePacket::SubscribePacket(SubscribePacket { pkid, subscribes }))
    }

    /// Unsubscribes from filters.
    pub fn unsubscribe(&mut self, subscriptions: Vec<&str>) -> (r: Option<Vec<u8>>)
        requires
            wire::unsubscribe_encodable(
                UnsubscribeModel {
                    pkid: next_pkid(old(self)@.pkid),
                    filters: str_views(subscriptions@),
                },
            ),
        ensures
            final(self)@ == (ClientModel { pkid: next_pkid(old(self)@.pkid), ..old(self)@ }),
            bytes_view(r) == sent(
                old(self)@,
                wire::unsubscribe_bytes(
                    UnsubscribeModel {
                        pkid: next_pkid(old(self)@.pkid),
                        filters: str_views(subscriptions@),
                    },
                ),
            ),
    {
        let mut filters: Vec<String> = Vec::new();
        let mut i: usize = 0;
        while i < subscriptions.len()
            invariant
                i <= subscriptions@.len(),
                text::views(filters@) == str_views(subscriptions@.take(i as int)),
            decreases subscriptions@.len() - i,
        {
            let filter: String = subscriptions[i].to_owned();
            filters.push(filter);
            proof {
                let before = subscriptions@.take(i as int);
                assert(subscriptions@.take(i + 1) =~= before.push(subscriptions@[i as int]));
                assert(text::views(filters@) =~= str_views(before).push(filter@));
                assert(str_views(before.push(subscriptions@[i as int])) =~= str_views(before).push(
                    filter@,
                ));
            }
            i = i + 1;
        }
        assert(subscriptions@.take(i as int) =~= subscriptions@);
        let pkid: u16 = self.pkid();
        self.send(&VariablePacket::UnsubscribePacket(UnsubscribePacket { pkid, filters }))
    }

    /// Publishes a message at the level with the given number. An identifier is used up at level
    /// zero too.
    pub fn publish(
        &mut self,
        topic_name: &str,
        payload: Vec<u8>,
        qos: u32,
        retain: bool,
        dup: bool,
    ) -> (r: Option<Vec<u8>>)
        requires
            wire::valid_topic_name(topic_name@),
            packet::publish_fits(topic_name@, payload@),
            qos <= 2,
        ensures
            final(self)@ == (ClientModel { pkid: next_pkid(old(self)@.pkid), ..old(self)@ }),
            bytes_view(r) == sent(
                old(self)@,
                wire::publish_bytes(
                    message(
                        topic_name@,
                        payload@,
                        qos,
                        next_pkid(old(self)@.pkid),
                        retain,
                        dup,
                    ),
                ),
            ),
    {
        let pkid: u16 = self.pkid();
        let qos = if qos == 0 {
            QoSWithPacketIdentifier::Level0
        } else if qos == 1 {
            QoSWithPacketIdentifier::Level1(pkid)
        } else {
            QoSWithPacketIdentifier::Level2(pkid)
        };
        let topic_name = TopicName::new_unchecked(topic_name.to_owned());
        let mut packet = PublishPacket::new(topic_name, qos, payload);
        packet.set_retain(retain);
        packet.set_dup(dup);
        self.send(&VariablePacket::PublishPacket(packet))
    }

    /// Sends a packet; nothing before the client has connected.
    pub fn send(&self, packet: &VariablePacket) -> (r: Option<Vec<u8>>)
        requires
            self@.started ==> wire::encodable(packet@),
        ensures
            bytes_view(r) == sent(self@, wire::packet_bytes(packet@)),
    {
        if self.started {
            Some(packet.encode())
        } else {
            None
        }
    }

    /// The receiver of what the server sends.
    pub fn receiver(&self) -> (r: ClientReceiver)
        ensures
            r.wf(),
            r.bytes() == Seq::<u8>::empty(),
            r.header() is None,
            r.ignore_pingresp() == self@.ignore_pingresp,
    {
        ClientReceiver { reader: PacketReader::new(), ignore_pingresp: self.ignore_pingresp }
    }
}

/// What the user gets of a packet from the server, which is `None` where it cannot be read: not the
/// answers to pings, where these are to be ignored.
pub open spec fn passed(packet: Option<PacketModel>, ignore_pingresp: bool) -> Option<PacketModel> {
    if packet == Some(PacketModel::Pingresp) && ignore_pingresp {
        None
    } else {
        packet
    }
}

/// The packet that the user gets.
pub fn pass_on(packet: Option<VariablePacket>, ignore_pingresp: bool) -> (r: Option<VariablePacket>)
    ensures
        packet_view(r) == passed(packet_view(packet), ignore_pingresp),
{
    match packet {
        Some(VariablePacket::PingrespPacket) => if ignore_pingresp {
            None
        } else {
            Some(VariablePacket::PingrespPacket)
        },
        other => other,
    }
}

pub open spec fn packet_view(packet: Option<VariablePacket>) -> Option<PacketModel> {
    match packet {
        Some(p) => Some(p@),
        None => None,
    }
}

/// What comes of a message to a client's receiver.
pub enum Received {
    /// A packet for the user.
    Packet(VariablePacket),
    Nothing,
    /// The receiver is to stop.
    Stop,
    /// Bytes that begin no packet: there is no going on.
    Fault,
}

/// Makes packets of what the server sends.
pub struct ClientReceiver {
    reader: PacketReader,
    ignore_pingresp: bool,
}

impl ClientReceiver {
    /// The bytes that have come and belong to no whole packet yet.
    pub closed spec fn bytes(&self) -> Seq<u8> {
        self.reader.bytes()
    }

    /// The header of the packet whose body has not come yet.
    pub closed spec fn header(&self) -> Option<FixedHeader> {
        self.reader.header()
    }

    pub closed spec fn ignore_pingresp(&self) -> bool {
        self.ignore_pingresp
    }

    pub closed spec fn wf(&self) -> bool {
        self.reader.wf()
    }

    /// A message. Of the packets that the bytes hold at most one is read: the others are left for
    /// when more bytes come. A packet that cannot be read is dropped.
    pub fn handle(&mut self, msg: ClientMsg) -> (r: Received)
        requires
            old(self).wf(),
        ensures
            final(self).wf(),
            final(self).ignore_pingresp() == old(self).ignore_pingresp(),
            match msg {
                ClientMsg::Data(data) => {
                    let (frame, rest, header) = wire::next_frame(
                        old(self).bytes() + data@,
                        old(self).header(),
                    );
                    &&& final(self).bytes() == rest
                    &&& final(self).header() == header
                    &&& match frame {
                        NextFrame::Packet(first, body) => match passed(
                            wire::decoded(first, body),
                            old(self).ignore_pingresp(),
                        ) {
                            Some(packet) => r matches Received::Packet(p) && p@ == packet,
                            None => r is Nothing,
                        },
                        NextFrame::NeedMore => r is Nothing,
                        NextFrame::BadLength => r is Fault,
                        NextFrame::BadHeader => r is Fault,
                    }
                },
                ClientMsg::Shutdown => r is Stop && final(self).bytes() == old(self).bytes()
                    && final(self).header() == old(self).header(),
            },
    {
        let data = match msg {
            ClientMsg::Data(data) => data,
            ClientMsg::Shutdown => return Received::Stop,
        };
        self.reader.append(data.as_slice());
        match self.reader.next_packet() {
            NextPacket::Packet(first, body) => {
                let packet = VariablePacket::decode(first, body.as_slice());
                match pass_on(packet, self.ignore_pingresp) {
                    Some(packet) => Received::Packet(packet),
                    None => Received::Nothing,
                }
            },
            NextPacket::NeedMore => Received::Nothing,
            NextPacket::BadLength => Received::Fault,
            NextPacket::BadHeader => Received::Fault,
        }
    }
}

/// The `n`-th identifier after `pkid`.
pub open spec fn nth_pkid(pkid: u16, n: nat) -> u16
    decreases n,
{
    if n == 0 {
        pkid
    } else {
        next_pkid(nth_pkid(pkid, (n - 1) as nat))
    }
}

proof fn lemma_nth_pkid(pkid: u16, n: nat)
    requires
        0 < n,
    ensures
        nth_pkid(pkid, n) == (pkid + n - 1) % 65535 + 1,
    decreases n,
{
    reveal_with_fuel(nth_pkid, 2);
    if n > 1 {
        lemma_nth_pkid(pkid, (n - 1) as nat);
    }
}

/// Law: identifiers go round from one to 65535, so that none is zero and any 65535 in a row differ.
pub proof fn law_identifiers_go_round(pkid: u16, i: nat, j: nat)
    requires
        0 < i,
    ensures
        nth_pkid(pkid, i) == (pkid + i - 1) % 65535 + 1,
        nth_pkid(pkid, i) != 0,
        i < j < i + 65535 ==> nth_pkid(pkid, i) != nth_pkid(pkid, j),
{
    lemma_nth_pkid(pkid, i);
    if i < j < i + 65535 {
        lemma_nth_pkid(pkid, j);
        let a = pkid + i - 1;
        let b = pkid + j - 1;
        assert(a == 65535 * (a / 65535) + a % 65535);
        assert(b == 65535 * (b / 65535) + b % 65535);
    }
}

} // verus!
