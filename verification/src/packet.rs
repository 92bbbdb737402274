//! Control packets.
use vstd::prelude::*;
use vstd::utf8::*;

use crate::codec;
use crate::codec::ConnectFields;
use crate::qos::{QoSWithPacketIdentifier, QualityOfService, SubscribeReturnCode};
use crate::text;
use crate::topic::TopicName;
use crate::wire;
use crate::wire::{
    ConnectModel, PacketModel, PublishModel, SubackModel, SubscribeModel, UnsubscribeModel,
};

verus! {

/// Copies bytes.
pub fn copy_bytes(v: &Vec<u8>) -> (r: Vec<u8>)
    ensures
        r@ == v@,
{
    let r = v.clone();
    assert(r@ =~= v@);
    r
}

/// A PUBLISH packet. Its topic is valid and its length fits a header.
pub struct PublishPacket {
    topic_name: String,
    qos: QoSWithPacketIdentifier,
    payload: Vec<u8>,
    retain: bool,
    dup: bool,
}

/// The length of a PUBLISH packet's body, with an identifier, fits in 32 bits.
pub open spec fn publish_fits(topic: Seq<char>, payload: Seq<u8>) -> bool {
    4 + encode_utf8(topic).len() + payload.len() <= u32::MAX
}

impl View for PublishPacket {
    type V = PublishModel;

    closed spec fn view(&self) -> PublishModel {
        PublishModel {
            topic: self.topic_name@,
            qos: self.qos,
            payload: self.payload@,
            retain: self.retain,
            dup: self.dup,
        }
    }
}

impl PublishPacket {
    #[verifier::type_invariant]
    closed spec fn sound(&self) -> bool {
        wire::valid_topic_name(self.topic_name@) && publish_fits(self.topic_name@, self.payload@)
    }

    pub fn new(topic_name: TopicName, qos: QoSWithPacketIdentifier, payload: Vec<u8>) -> (r: Self)
        requires
            wire::valid_topic_name(topic_name@),
            publish_fits(topic_name@, payload@),
        ensures
            r@ == (PublishModel {
                topic: topic_name@,
                qos,
                payload: payload@,
                retain: false,
                dup: false,
            }),
    {
        PublishPacket { topic_name: topic_name.0, qos, payload, retain: false, dup: false }
    }

    pub fn topic_name(&self) -> (r: &str)
        ensures
            r@ == self@.topic,
    {
        self.topic_name.as_str()
    }

    pub fn qos(&self) -> (r: QoSWithPacketIdentifier)
        ensures
            r == self@.qos,
    {
        self.qos
    }

    pub fn payload(&self) -> (r: &Vec<u8>)
        ensures
            r@ == self@.payload,
    {
        &self.payload
    }

    pub fn retain(&self) -> (r: bool)
        ensures
            r == self@.retain,
    {
        self.retain
    }

    pub fn dup(&self) -> (r: bool)
        ensures
            r == self@.dup,
    {
        self.dup
    }

    pub fn set_retain(&mut self, retain: bool)
        ensures
            final(self)@ == (PublishModel { retain, ..old(self)@ }),
    {
        proof {
            use_type_invariant(&*self);
        }
        self.retain = retain;
    }

    pub fn set_dup(&mut self, dup: bool)
        ensures
            final(self)@ == (PublishModel { dup, ..old(self)@ }),
    {
        proof {
            use_type_invariant(&*self);
        }
        self.dup = dup;
    }

    pub fn set_qos(&mut self, qos: QoSWithPacketIdentifier)
        ensures
            final(self)@ == (PublishModel { qos, ..old(self)@ }),
    {
        proof {
            use_type_invariant(&*self);
        }
        self.qos = qos;
    }

    pub fn copy(&self) -> (r: Self)
        ensures
            r@ == self@,
    {
        proof {
            use_type_invariant(self);
        }
        PublishPacket {
            topic_name: self.topic_name.clone(),
            qos: self.qos,
            payload: copy_bytes(&self.payload),
            retain: self.retain,
            dup: self.dup,
        }
    }

    /// The packet's bytes.
    pub fn encode(&self) -> (r: Vec<u8>)
        ensures
            r@ == wire::publish_bytes(self@),
    {
        proof {
            use_type_invariant(self);
        }
        codec::encode_publish(
            self.topic_name.as_str(),
            self.qos,
            &self.payload,
            self.retain,
            self.dup,
        )
    }
}

/// A CONNECT packet. Its last will can be published.
pub struct ConnectPacket {
    fields: ConnectFields,
}

/// A will whose topic is valid and whose message has at most 65535 bytes.
pub open spec fn will_is_sound(will: Option<(Seq<char>, Seq<u8>)>) -> bool {
    match will {
        Some((topic, message)) => wire::valid_topic_name(topic) && message.len() <= 65535,
        None => true,
    }
}

impl View for ConnectPacket {
    type V = ConnectModel;

    closed spec fn view(&self) -> ConnectModel {
        self.fields@
    }
}

impl ConnectPacket {
    #[verifier::type_invariant]
    closed spec fn sound(&self) -> bool {
        will_is_sound(self.fields@.will)
    }

    /// A packet with the given fields.
    pub fn new(fields: ConnectFields) -> (r: ConnectPacket)
        requires
            will_is_sound(fields@.will),
        ensures
            r@ == fields@,
    {
        ConnectPacket { fields }
    }

    pub fn protocol_name(&self) -> (r: &str)
        ensures
            r@ == self@.protocol_name,
    {
        self.fields.protocol_name.as_str()
    }

    pub fn client_identifier(&self) -> (r: &str)
        ensures
            r@ == self@.client_identifier,
    {
        self.fields.client_identifier.as_str()
    }

    pub fn clean_session(&self) -> (r: bool)
        ensures
            r == self@.clean_session,
    {
        self.fields.clean_session
    }

    pub fn keep_alive(&self) -> (r: u16)
        ensures
            r == self@.keep_alive,
    {
        self.fields.keep_alive
    }

    pub fn will_qos(&self) -> (r: u8)
        ensures
            r == self@.will_qos,
    {
        self.fields.will_qos
    }

    pub fn will_retain(&self) -> (r: bool)
        ensures
            r == self@.will_retain,
    {
        self.fields.will_retain
    }

    /// A copy of the will's topic and message.
    pub fn will(&self) -> (r: Option<(TopicName, Vec<u8>)>)
        ensures
            self@.will == (match r {
                Some((topic, message)) => Some((topic@, message@)),
                None => None,
            }),
            will_is_sound(self@.will),
    {
        proof {
            use_type_invariant(self);
        }
        match &self.fields.will {
            Some((topic, message)) => Some(
                (TopicName::new_unchecked(topic.clone()), copy_bytes(message)),
            ),
            None => None,
        }
    }

    /// The packet's bytes.
    pub fn encode(&self) -> (r: Vec<u8>)
        requires
            wire::connect_encodable(self@),
        ensures
            r@ == wire::connect_bytes(self@),
    {
        codec::encode_connect(&self.fields)
    }

    /// Drops the will.
    pub fn clear_will(&mut self)
        ensures
            final(self)@ == (ConnectModel { will: None, ..old(self)@ }),
    {
        self.fields.will = None;
    }
}

/// A SUBSCRIBE packet.
pub struct SubscribePacket {
    pub pkid: u16,
    pub subscribes: Vec<(String, QualityOfService)>,
}

impl View for SubscribePacket {
    type V = SubscribeModel;

    open spec fn view(&self) -> SubscribeModel {
        SubscribeModel {
            pkid: self.pkid,
            subscribes: codec::subscription_views(self.subscribes@),
        }
    }
}

/// An UNSUBSCRIBE packet.
pub struct UnsubscribePacket {
    pub pkid: u16,
    pub filters: Vec<String>,
}

impl View for UnsubscribePacket {
    type V = UnsubscribeModel;

    open spec fn view(&self) -> UnsubscribeModel {
        UnsubscribeModel { pkid: self.pkid, filters: text::views(self.filters@) }
    }
}

/// A SUBACK packet.
pub struct SubackPacket {
    pub pkid: u16,
    pub codes: Vec<SubscribeReturnCode>,
}

impl View for SubackPacket {
    type V = SubackModel;

    open spec fn view(&self) -> SubackModel {
        SubackModel {
            pkid: self.pkid,
            codes: self.codes@.map_values(|c: SubscribeReturnCode| c.number()),
        }
    }
}

/// Any control packet.
pub enum VariablePacket {
    ConnectPacket(ConnectPacket),
    ConnackPacket(bool, u8),
    PublishPacket(PublishPacket),
    PubackPacket(u16),
    PubrecPacket(u16),
    PubrelPacket(u16),
    PubcompPacket(u16),
    SubscribePacket(SubscribePacket),
    SubackPacket(SubackPacket),
    UnsubscribePacket(UnsubscribePacket),
    UnsubackPacket(u16),
    PingreqPacket,
    PingrespPacket,
    DisconnectPacket,
}

impl View for VariablePacket {
    type V = PacketModel;

    open spec fn view(&self) -> PacketModel {
        match self {
            VariablePacket::ConnectPacket(p) => PacketModel::Connect(p@),
            VariablePacket::ConnackPacket(present, code) => PacketModel::Connack(*present, *code),
            VariablePacket::PublishPacket(p) => PacketModel::Publish(p@),
            VariablePacket::PubackPacket(pkid) => PacketModel::Puback(*pkid),
            VariablePacket::PubrecPacket(pkid) => PacketModel::Pubrec(*pkid),
            VariablePacket::PubrelPacket(pkid) => PacketModel::Pubrel(*pkid),
            VariablePacket::PubcompPacket(pkid) => PacketModel::Pubcomp(*pkid),
            VariablePacket::SubscribePacket(p) => PacketModel::Subscribe(p@),
            VariablePacket::SubackPacket(p) => PacketModel::Suback(p@),
            VariablePacket::UnsubscribePacket(p) => PacketModel::Unsubscribe(p@),
            VariablePacket::UnsubackPacket(pkid) => PacketModel::Unsuback(*pkid),
            VariablePacket::PingreqPacket => PacketModel::Pingreq,
            VariablePacket::PingrespPacket => PacketModel::Pingresp,
            VariablePacket::DisconnectPacket => PacketModel::Disconnect,
        }
    }
}

/// A decoded PUBLISH packet meets the invariant of the type.
proof fn lemma_decoded_publish_sound(first: u8, body: Seq<u8>)
    requires
        body.len() <= wire::MAX_REMAINING_LENGTH,
        wire::decoded_publish(first, body) is Some,
    ensures
        wire::valid_topic_name(wire::decoded_publish(first, body)->0.topic),
        publish_fits(
            wire::decoded_publish(first, body)->0.topic,
            wire::decoded_publish(first, body)->0.payload,
        ),
{
    let (b, _) = wire::take_bytes(body, 0)->0;
    decode_utf8_encode_utf8(b);
}

/// A decoded CONNECT packet meets the invariant of the type.
proof fn lemma_decoded_connect_sound(body: Seq<u8>)
    requires
        wire::decoded_connect(body) is Some,
    ensures
        will_is_sound(wire::decoded_connect(body)->0.will),
{
}

/// A SUBSCRIBE packet has fewer filters than bytes.
pub proof fn lemma_subscriptions_len(s: Seq<u8>, i: int)
    requires
        0 <= i <= s.len(),
        wire::decoded_subscriptions(s, i) is Some,
    ensures
        wire::decoded_subscriptions(s, i)->0.len() <= s.len() - i,
    decreases s.len() - i,
{
    if i < s.len() {
        let (_, j) = wire::take_string(s, i)->0;
        lemma_subscriptions_len(s, j + 1);
    }
}

fn read_u16(body: &[u8]) -> (r: u16)
    requires
        body@.len() >= 2,
    ensures
        r == wire::read16(body@, 0),
{
    (body[0] as u16) * 256 + body[1] as u16
}

fn decode_suback(body: &[u8]) -> (r: Option<SubackPacket>)
    ensures
        match r {
            Some(p) => wire::decoded_suback(body@) == Some(p@),
            None => wire::decoded_suback(body@) is None,
        },
{
    if body.len() < 2 {
        return None;
    }
    let mut codes: Vec<SubscribeReturnCode> = Vec::new();
    let mut i: usize = 2;
    while i < body.len()
        invariant
            2 <= i <= body@.len(),
            codes@.len() == i - 2,
            forall|j: int| 0 <= j < codes@.len() ==> (#[trigger] codes@[j]).number() == body@[j + 2],
            forall|j: int| 2 <= j < i ==> wire::valid_return_code(#[trigger] body@[j]),
        decreases body@.len() - i,
    {
        match SubscribeReturnCode::from_u8(body[i]) {
            Some(code) => codes.push(code),
            None => {
                assert(!wire::valid_return_code(body@[i as int]));
                return None;
            },
        }
        i = i + 1;
    }
    assert(body@.skip(2) =~= codes@.map_values(|c: SubscribeReturnCode| c.number()));
    Some(SubackPacket { pkid: read_u16(body), codes })
}

impl VariablePacket {
    /// Reads the packet with the first byte `first` from its whole body.
    pub fn decode(first: u8, body: &[u8]) -> (r: Option<VariablePacket>)
        requires
            wire::valid_first(first),
            body@.len() <= wire::MAX_REMAINING_LENGTH,
        ensures
            match r {
                Some(p) => wire::decoded(first, body@) == Some(p@),
                None => wire::decoded(first, body@) is None,
            },
            r matches Some(VariablePacket::SubscribePacket(p)) ==> p.subscribes@.len() + 2
                <= u32::MAX,
    {
        proof {
            reveal(wire::decoded);
        }
        let kind: u8 = first / 16;
        if kind == 1 {
            let fields = match codec::decode_connect(body) {
                Some(fields) => fields,
                None => return None,
            };
            proof {
                lemma_decoded_connect_sound(body@);
            }
            return Some(VariablePacket::ConnectPacket(ConnectPacket { fields }));
        }
        if kind == 2 {
            if body.len() < 2 || body[0] > 1 {
                return None;
            }
            return Some(VariablePacket::ConnackPacket(body[0] == 1, body[1]));
        }
        if kind == 3 {
            let (topic_name, qos, payload, retain) = match codec::decode_publish(first, body) {
                Some(parts) => parts,
                None => return None,
            };
            proof {
                lemma_decoded_publish_sound(first, body@);
            }
            let dup = (first / 8) % 2 == 1;
            return Some(
                VariablePacket::PublishPacket(
                    PublishPacket { topic_name, qos, payload, retain, dup },
                ),
            );
        }
        if kind == 8 {
            let (pkid, subscribes) = match codec::decode_subscribe(body) {
                Some(parts) => parts,
                None => return None,
            };
            proof {
                lemma_subscriptions_len(body@, 2);
            }
            return Some(VariablePacket::SubscribePacket(SubscribePacket { pkid, subscribes }));
        }
        if kind == 9 {
            return match decode_suback(body) {
                Some(p) => Some(VariablePacket::SubackPacket(p)),
                None => None,
            };
        }
        if kind == 10 {
            let (pkid, filters) = match codec::decode_unsubscribe(body) {
                Some(parts) => parts,
                None => return None,
            };
            return Some(VariablePacket::UnsubscribePacket(UnsubscribePacket { pkid, filters }));
        }
        if kind == 12 {
            return Some(VariablePacket::PingreqPacket);
        }
        if kind == 13 {
            return Some(VariablePacket::PingrespPacket);
        }
        if kind == 14 {
            return Some(VariablePacket::DisconnectPacket);
        }
        if body.len() < 2 {
            return None;
        }
        let pkid: u16 = read_u16(body);
        if kind == 4 {
            Some(VariablePacket::PubackPacket(pkid))
        } else if kind == 5 {
            Some(VariablePacket::PubrecPacket(pkid))
        } else if kind == 6 {
            Some(VariablePacket::PubrelPacket(pkid))
        } else if kind == 7 {
            Some(VariablePacket::PubcompPacket(pkid))
        } else {
            Some(VariablePacket::UnsubackPacket(pkid))
        }
    }

    /// The packet's bytes.
    pub fn encode(&self) -> (r: Vec<u8>)
        requires
            wire::encodable(self@),
        ensures
            r@ == wire::packet_bytes(self@),
    {
        match self {
            VariablePacket::ConnectPacket(p) => p.encode(),
            VariablePacket::ConnackPacket(present, code) => codec::encode_connack(*present, *code),
            VariablePacket::PublishPacket(p) => p.encode(),
            VariablePacket::PubackPacket(pkid) => codec::encode_puback(*pkid),
            VariablePacket::PubrecPacket(pkid) => codec::encode_pubrec(*pkid),
            VariablePacket::PubrelPacket(pkid) => codec::encode_pubrel(*pkid),
            VariablePacket::PubcompPacket(pkid) => codec::encode_pubcomp(*pkid),
            VariablePacket::SubscribePacket(p) => codec::encode_subscribe(p.pkid, &p.subscribes),
            VariablePacket::SubackPacket(p) => codec::encode_suback(p.pkid, &p.codes),
            VariablePacket::UnsubscribePacket(p) => codec::encode_unsubscribe(p.pkid, &p.filters),
            VariablePacket::UnsubackPacket(pkid) => codec::encode_unsuback(*pkid),
            VariablePacket::PingreqPacket => codec::encode_pingreq(),
            VariablePacket::PingrespPacket => codec::encode_pingresp(),
            VariablePacket::DisconnectPacket => codec::encode_disconnect(),
        }
    }
}

/// The bytes of an UNSUBSCRIBE packet with one text, which need not be a filter. `mqtt` makes a
/// packet of filters only, so the bytes are put together from its parts.
pub fn encode_unsubscribe_text(pkid: u16, text: &str) -> (r: Vec<u8>)
    requires
        encode_utf8(text@).len() <= 65535,
    ensures
        r@ == wire::unsubscribe_bytes(UnsubscribeModel { pkid, filters: seq![text@] }),
{
    let mut body = codec::encode_identifier(pkid);
    let mut filter = codec::encode_text(text);
    body.append(&mut filter);
    let mut bytes = codec::encode_unsubscribe_header(body.len() as u32);
    proof {
        reveal_with_fuel(wire::filters_bytes, 2);
        assert(seq![text@].drop_last() =~= Seq::empty());
        assert(Seq::empty() + wire::string_bytes(text@) =~= wire::string_bytes(text@));
        assert(body@ =~= wire::be16(pkid as int) + wire::filters_bytes(seq![text@]));
    }
    bytes.append(&mut body);
    bytes
}

} // verus!
