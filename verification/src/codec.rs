//! Calls into the `mqtt` crate, which reads and writes packets.
use mqtt::{Decodable, Encodable};
use vstd::prelude::*;
use vstd::utf8::*;

use crate::qos::{QoSWithPacketIdentifier, QualityOfService, SubscribeReturnCode};
use crate::wire;
use crate::wire::{ConnectModel, FixedHeader, PublishModel, SubscribeModel, UnsubscribeModel};

verus! {

/// What a CONNECT packet says.
pub struct ConnectFields {
    pub protocol_name: String,
    pub client_identifier: String,
    pub clean_session: bool,
    pub keep_alive: u16,
    pub will: Option<(String, Vec<u8>)>,
    pub will_qos: u8,
    pub will_retain: bool,
}

impl View for ConnectFields {
    type V = ConnectModel;

    open spec fn view(&self) -> ConnectModel {
        ConnectModel {
            protocol_name: self.protocol_name@,
            client_identifier: self.client_identifier@,
            clean_session: self.clean_session,
            keep_alive: self.keep_alive,
            will: match self.will {
                Some((topic, message)) => Some((topic@, message@)),
                None => None,
            },
            will_qos: self.will_qos,
            will_retain: self.will_retain,
        }
    }
}

/// The views of filters with their levels.
pub open spec fn subscription_views(s: Seq<(String, QualityOfService)>) -> Seq<
    (Seq<char>, QualityOfService),
> {
    s.map_values(|e: (String, QualityOfService)| (e.0@, e.1))
}

/// `mqtt::TopicName::new`: refuses an empty name, one of more than 65535 bytes and one with a
/// wildcard, and nothing else.
#[verifier::external_body]
pub(crate) fn is_topic_name(name: &str) -> (r: bool)
    ensures
        r == wire::valid_topic_name(name@),
{
    mqtt::TopicName::new(name).is_ok()
}

/// `mqtt::TopicFilter::new`: refuses an empty filter, one of more than 65535 bytes, one where `#`
/// is not the last level and one where a wildcard shares a level with another character, and
/// nothing else.
#[verifier::external_body]
pub(crate) fn is_topic_filter(filter: &str) -> (r: bool)
    ensures
        r == wire::valid_topic_filter(filter@),
{
    mqtt::TopicFilter::new(filter).is_ok()
}

/// `mqtt::control::FixedHeader::decode_with`, on bytes that are one header with a length of one to
/// four bytes: fails iff no packet has that first byte; else gives the first byte and the length.
#[verifier::external_body]
pub(crate) fn decode_fixed_header(bytes: &[u8]) -> (r: Option<FixedHeader>)
    requires
        2 <= bytes@.len() <= 5,
        forall|i: int| 1 <= i < bytes@.len() - 1 ==> bytes@[i] >= 128,
        bytes@.last() < 128,
    ensures
        r == (if wire::valid_first(bytes@[0]) {
            Some(wire::header_of(bytes@))
        } else {
            None
        }),
{
    let mut reader: &[u8] = bytes;
    let header = mqtt::control::FixedHeader::decode_with(&mut reader, ()).ok()?;
    Some(
        FixedHeader {
            packet_type: header.packet_type.to_u8(),
            remaining_length: header.remaining_length,
        },
    )
}

/// `mqtt::packet::ConnectPacket::decode_with`, on a whole body: gives the fields that the body
/// holds, and fails on any other body. The user name and the password are read and dropped.
#[verifier::external_body]
pub(crate) fn decode_connect(body: &[u8]) -> (r: Option<ConnectFields>)
    requires
        body@.len() <= wire::MAX_REMAINING_LENGTH,
    ensures
        match r {
            Some(c) => wire::decoded_connect(body@) == Some(c@),
            None => wire::decoded_connect(body@) is None,
        },
{
    let packet_type = mqtt::control::PacketType::with_default(mqtt::control::ControlType::Connect);
    let header = mqtt::control::FixedHeader::new(packet_type, body.len() as u32);
    let mut reader: &[u8] = body;
    let p = mqtt::packet::ConnectPacket::decode_with(&mut reader, Some(header)).ok()?;
    Some(ConnectFields {
        protocol_name: p.protocol_name().to_string(),
        client_identifier: p.client_identifier().to_string(),
        clean_session: p.clean_session(),
        keep_alive: p.keep_alive(),
        will: p.will().map(|(topic, message)| (topic.to_string(), message.to_vec())),
        will_qos: p.will_qos(),
        will_retain: p.will_retain(),
    })
}

/// `mqtt::packet::PublishPacket::decode_with`, on a whole body: gives the topic, the level with
/// the identifier, the payload and the retain flag that the first byte and the body hold, and
/// fails on any other body.
#[verifier::external_body]
pub(crate) fn decode_publish(first: u8, body: &[u8]) -> (r: Option<
    (String, QoSWithPacketIdentifier, Vec<u8>, bool),
>)
    requires
        first / 16 == 3,
        wire::valid_first(first),
        body@.len() <= wire::MAX_REMAINING_LENGTH,
    ensures
        match r {
            Some((topic, qos, payload, retain)) => wire::decoded_publish(first, body@) == Some(
                PublishModel {
                    topic: topic@,
                    qos,
                    payload: payload@,
                    retain,
                    dup: (first / 8) % 2 == 1,
                },
            ),
            None => wire::decoded_publish(first, body@) is None,
        },
{
    let packet_type = mqtt::control::PacketType::from_u8(first).ok()?;
    let header = mqtt::control::FixedHeader::new(packet_type, body.len() as u32);
    let mut reader: &[u8] = body;
    let p = mqtt::packet::PublishPacket::decode_with(&mut reader, Some(header)).ok()?;
    let qos = match p.qos() {
        mqtt::packet::QoSWithPacketIdentifier::Level0 => QoSWithPacketIdentifier::Level0,
        mqtt::packet::QoSWithPacketIdentifier::Level1(id) => QoSWithPacketIdentifier::Level1(id),
        mqtt::packet::QoSWithPacketIdentifier::Level2(id) => QoSWithPacketIdentifier::Level2(id),
    };
    Some((p.topic_name().to_string(), qos, p.payload().to_vec(), p.retain()))
}

/// `mqtt::packet::SubscribePacket::decode_with`, on a whole body: gives the identifier and the
/// filters with their levels, and fails on any other body.
#[verifier::external_body]
pub(crate) fn decode_subscribe(body: &[u8]) -> (r: Option<(u16, Vec<(String, QualityOfService)>)>)
    requires
        body@.len() <= wire::MAX_REMAINING_LENGTH,
    ensures
        match r {
            Some((pkid, subscribes)) => wire::decoded_subscribe(body@) == Some(
                SubscribeModel { pkid, subscribes: subscription_views(subscribes@) },
            ),
            None => wire::decoded_subscribe(body@) is None,
        },
{
    let packet_type = mqtt::control::PacketType::with_default(mqtt::control::ControlType::Subscribe);
    let header = mqtt::control::FixedHeader::new(packet_type, body.len() as u32);
    let mut reader: &[u8] = body;
    let p = mqtt::packet::SubscribePacket::decode_with(&mut reader, Some(header)).ok()?;
    let level = |q: mqtt::QualityOfService| match q {
        mqtt::QualityOfService::Level0 => QualityOfService::Level0,
        mqtt::QualityOfService::Level1 => QualityOfService::Level1,
        mqtt::QualityOfService::Level2 => QualityOfService::Level2,
    };
    let subscribes = p.subscribes().iter().map(|(f, q)| (f.to_string(), level(*q))).collect();
    Some((p.packet_identifier(), subscribes))
}

/// `mqtt::packet::UnsubscribePacket::decode_with`, on a whole body: gives the identifier and the
/// filters, and fails on any other body.
#[verifier::external_body]
pub(crate) fn decode_unsubscribe(body: &[u8]) -> (r: Option<(u16, Vec<String>)>)
    requires
        body@.len() <= wire::MAX_REMAINING_LENGTH,
    ensures
        match r {
            Some((pkid, filters)) => wire::decoded_unsubscribe(body@) == Some(
                UnsubscribeModel { pkid, filters: crate::text::views(filters@) },
            ),
            None => wire::decoded_unsubscribe(body@) is None,
        },
{
    let packet_type = mqtt::control::PacketType::with_default(
        mqtt::control::ControlType::Unsubscribe,
    );
    let header = mqtt::control::FixedHeader::new(packet_type, body.len() as u32);
    let mut reader: &[u8] = body;
    let p = mqtt::packet::UnsubscribePacket::decode_with(&mut reader, Some(header)).ok()?;
    Some((p.packet_identifier(), p.subscribes().iter().map(|f| f.to_string()).collect()))
}

/// `encode` of an `mqtt::packet::PublishPacket` with the given fields.
#[verifier::external_body]
pub(crate) fn encode_publish(
    topic: &str,
    qos: QoSWithPacketIdentifier,
    payload: &Vec<u8>,
    retain: bool,
    dup: bool,
) -> (r: Vec<u8>)
    requires
        wire::valid_topic_name(topic@),
        wire::publish_body(PublishModel { topic: topic@, qos, payload: payload@, retain, dup }).len()
            <= u32::MAX,
    ensures
        r@ == wire::publish_bytes(PublishModel { topic: topic@, qos, payload: payload@, retain, dup }),
{
    let name = mqtt::TopicName::new(topic).unwrap();
    let level = match qos {
        QoSWithPacketIdentifier::Level0 => mqtt::packet::QoSWithPacketIdentifier::Level0,
        QoSWithPacketIdentifier::Level1(id) => mqtt::packet::QoSWithPacketIdentifier::Level1(id),
        QoSWithPacketIdentifier::Level2(id) => mqtt::packet::QoSWithPacketIdentifier::Level2(id),
    };
    let mut packet = mqtt::packet::PublishPacket::new(name, level, payload.clone());
    packet.set_retain(retain);
    packet.set_dup(dup);
    let mut buf = Vec::new();
    packet.encode(&mut buf).unwrap();
    buf
}

/// `encode` of an `mqtt::packet::PubackPacket`.
#[verifier::external_body]
pub(crate) fn encode_puback(pkid: u16) -> (r: Vec<u8>)
    ensures
        r@ == wire::puback_bytes(pkid),
{
    let mut buf = Vec::new();
    mqtt::packet::PubackPacket::new(pkid).encode(&mut buf).unwrap();
    buf
}

/// `encode` of an `mqtt::packet::PubrecPacket`.
#[verifier::external_body]
pub(crate) fn encode_pubrec(pkid: u16) -> (r: Vec<u8>)
    ensures
        r@ == wire::pubrec_bytes(pkid),
{
    let mut buf = Vec::new();
    mqtt::packet::PubrecPacket::new(pkid).encode(&mut buf).unwrap();
    buf
}

/// `encode` of an `mqtt::packet::PubrelPacket`.
#[verifier::external_body]
pub(crate) fn encode_pubrel(pkid: u16) -> (r: Vec<u8>)
    ensures
        r@ == wire::pubrel_bytes(pkid),
{
    let mut buf = Vec::new();
    mqtt::packet::PubrelPacket::new(pkid).encode(&mut buf).unwrap();
    buf
}

/// `encode` of an `mqtt::packet::PubcompPacket`.
#[verifier::external_body]
pub(crate) fn encode_pubcomp(pkid: u16) -> (r: Vec<u8>)
    ensures
        r@ == wire::pubcomp_bytes(pkid),
{
    let mut buf = Vec::new();
    mqtt::packet::PubcompPacket::new(pkid).encode(&mut buf).unwrap();
    buf
}

/// `encode` of an `mqtt::packet::UnsubackPacket`.
#[verifier::external_body]
pub(crate) fn encode_unsuback(pkid: u16) -> (r: Vec<u8>)
    ensures
        r@ == wire::unsuback_bytes(pkid),
{
    let mut buf = Vec::new();
    mqtt::packet::UnsubackPacket::new(pkid).encode(&mut buf).unwrap();
    buf
}

/// `encode` of an `mqtt::packet::ConnackPacket` with the given flag and return code.
#[verifier::external_body]
pub(crate) fn encode_connack(session_present: bool, code: u8) -> (r: Vec<u8>)
    ensures
        r@ == wire::connack_bytes(session_present, code),
{
    let code = mqtt::control::ConnectReturnCode::from_u8(code);
    let mut buf = Vec::new();
    mqtt::packet::ConnackPacket::new(session_present, code).encode(&mut buf).unwrap();
    buf
}

/// `encode` of an `mqtt::packet::PingrespPacket`.
#[verifier::external_body]
pub(crate) fn encode_pingresp() -> (r: Vec<u8>)
    ensures
        r@ == wire::pingresp_bytes(),
{
    let mut buf = Vec::new();
    mqtt::packet::PingrespPacket::new().encode(&mut buf).unwrap();
    buf
}

/// `encode` of an `mqtt::packet::PingreqPacket`.
#[verifier::external_body]
pub(crate) fn encode_pingreq() -> (r: Vec<u8>)
    ensures
        r@ == wire::pingreq_bytes(),
{
    let mut buf = Vec::new();
    mqtt::packet::PingreqPacket::new().encode(&mut buf).unwrap();
    buf
}

/// `encode` of an `mqtt::packet::DisconnectPacket`.
#[verifier::external_body]
pub(crate) fn encode_disconnect() -> (r: Vec<u8>)
    ensures
        r@ == wire::disconnect_bytes(),
{
    let mut buf = Vec::new();
    mqtt::packet::DisconnectPacket::new().encode(&mut buf).unwrap();
    buf
}

/// `encode` of an `mqtt::packet::SubackPacket` with the given return codes.
#[verifier::external_body]
pub(crate) fn encode_suback(pkid: u16, codes: &Vec<SubscribeReturnCode>) -> (r: Vec<u8>)
    requires
        codes@.len() + 2 <= u32::MAX,
    ensures
        r@ == wire::suback_bytes(pkid, codes@.map_values(|c: SubscribeReturnCode| c.number())),
{
    let code = |c: &SubscribeReturnCode| match c {
        SubscribeReturnCode::MaximumQoSLevel0 => mqtt::packet::suback::SubscribeReturnCode::MaximumQoSLevel0,
        SubscribeReturnCode::MaximumQoSLevel1 => mqtt::packet::suback::SubscribeReturnCode::MaximumQoSLevel1,
        SubscribeReturnCode::MaximumQoSLevel2 => mqtt::packet::suback::SubscribeReturnCode::MaximumQoSLevel2,
        SubscribeReturnCode::Failure => mqtt::packet::suback::SubscribeReturnCode::Failure,
    };
    let codes = codes.iter().map(code).collect();
    let mut buf = Vec::new();
    mqtt::packet::SubackPacket::new(pkid, codes).encode(&mut buf).unwrap();
    buf
}

/// `encode` of an `mqtt::packet::ConnectPacket` of protocol level four with the given fields.
#[verifier::external_body]
pub(crate) fn encode_connect(c: &ConnectFields) -> (r: Vec<u8>)
    requires
        wire::connect_encodable(c@),
    ensures
        r@ == wire::connect_bytes(c@),
{
    let mut packet = mqtt::packet::ConnectPacket::with_level(
        c.protocol_name.as_str(),
        c.client_identifier.as_str(),
        4,
    ).unwrap();
    packet.set_clean_session(c.clean_session);
    packet.set_keep_alive(c.keep_alive);
    let name = |t: &String| mqtt::TopicName::new(t.as_str()).unwrap();
    packet.set_will(c.will.as_ref().map(|(topic, message)| (name(topic), message.clone())));
    packet.set_will_qos(c.will_qos);
    packet.set_will_retain(c.will_retain);
    let mut buf = Vec::new();
    packet.encode(&mut buf).unwrap();
    buf
}

/// `encode` of an `mqtt::packet::SubscribePacket` with the given filters and levels.
#[verifier::external_body]
pub(crate) fn encode_subscribe(pkid: u16, subscribes: &Vec<(String, QualityOfService)>) -> (r: Vec<
    u8,
>)
    requires
        wire::subscribe_encodable(
            SubscribeModel { pkid, subscribes: subscription_views(subscribes@) },
        ),
    ensures
        r@ == wire::subscribe_bytes(
            SubscribeModel { pkid, subscribes: subscription_views(subscribes@) },
        ),
{
    let level = |q: QualityOfService| match q {
        QualityOfService::Level0 => mqtt::QualityOfService::Level0,
        QualityOfService::Level1 => mqtt::QualityOfService::Level1,
        QualityOfService::Level2 => mqtt::QualityOfService::Level2,
    };
    let filter = |f: &String| mqtt::TopicFilter::new(f.as_str()).unwrap();
    let filters = subscribes.iter().map(|(f, q)| (filter(f), level(*q))).collect();
    let mut buf = Vec::new();
    mqtt::packet::SubscribePacket::new(pkid, filters).encode(&mut buf).unwrap();
    buf
}

/// `encode` of an `mqtt::packet::UnsubscribePacket` with the given filters.
#[verifier::external_body]
pub(crate) fn encode_unsubscribe(pkid: u16, filters: &Vec<String>) -> (r: Vec<u8>)
    requires
        wire::unsubscribe_encodable(
            UnsubscribeModel { pkid, filters: crate::text::views(filters@) },
        ),
    ensures
        r@ == wire::unsubscribe_bytes(
            UnsubscribeModel { pkid, filters: crate::text::views(filters@) },
        ),
{
    let filter = |f: &String| mqtt::TopicFilter::new(f.as_str()).unwrap();
    let filters = filters.iter().map(filter).collect();
    let mut buf = Vec::new();
    mqtt::packet::UnsubscribePacket::new(pkid, filters).encode(&mut buf).unwrap();
    buf
}

/// `encode` of the `mqtt::control::FixedHeader` of an UNSUBSCRIBE packet: its first byte and the
/// length of its body.
#[verifier::external_body]
pub(crate) fn encode_unsubscribe_header(remaining_length: u32) -> (r: Vec<u8>)
    requires
        remaining_length <= wire::MAX_REMAINING_LENGTH,
    ensures
        r@ == seq![0xA2u8] + wire::varint(remaining_length as nat),
{
    let packet_type = mqtt::control::PacketType::with_default(
        mqtt::control::ControlType::Unsubscribe,
    );
    let mut buf = Vec::new();
    mqtt::control::FixedHeader::new(packet_type, remaining_length).encode(&mut buf).unwrap();
    buf
}

/// `encode` of an `mqtt::control::variable_header::PacketIdentifier`: two bytes, most significant
/// first.
#[verifier::external_body]
pub(crate) fn encode_identifier(pkid: u16) -> (r: Vec<u8>)
    ensures
        r@ == wire::be16(pkid as int),
{
    let mut buf = Vec::new();
    mqtt::control::variable_header::PacketIdentifier(pkid).encode(&mut buf).unwrap();
    buf
}

/// `mqtt::Encodable::encode` of a string: its length in two bytes and its bytes. It panics on one of
/// more than 65535 bytes.
#[verifier::external_body]
pub(crate) fn encode_text(text: &str) -> (r: Vec<u8>)
    requires
        encode_utf8(text@).len() <= 65535,
    ensures
        r@ == wire::string_bytes(text@),
{
    let mut buf = Vec::new();
    text.encode(&mut buf).unwrap();
    buf
}

} // verus!
