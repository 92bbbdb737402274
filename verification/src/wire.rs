//! The byte format of MQTT 3.1.1 packets, as mathematics.
use vstd::prelude::*;
use vstd::utf8::*;

use crate::qos::{QoSWithPacketIdentifier, QualityOfService};
use crate::text;

verus! {

/// The largest length that a fixed header can announce: four groups of seven bits.
pub const MAX_REMAINING_LENGTH: u32 = 0x0FFF_FFFF;

/// A message to be published.
#[verifier::ext_equal]
pub struct PublishModel {
    pub topic: Seq<char>,
    pub qos: QoSWithPacketIdentifier,
    pub payload: Seq<u8>,
    pub retain: bool,
    pub dup: bool,
}

/// A client's request to open a session. `will` is the topic and the message of its last will.
#[verifier::ext_equal]
pub struct ConnectModel {
    pub protocol_name: Seq<char>,
    pub client_identifier: Seq<char>,
    pub clean_session: bool,
    pub keep_alive: u16,
    pub will: Option<(Seq<char>, Seq<u8>)>,
    pub will_qos: u8,
    pub will_retain: bool,
}

#[verifier::ext_equal]
pub struct SubscribeModel {
    pub pkid: u16,
    pub subscribes: Seq<(Seq<char>, QualityOfService)>,
}

#[verifier::ext_equal]
pub struct UnsubscribeModel {
    pub pkid: u16,
    pub filters: Seq<Seq<char>>,
}

#[verifier::ext_equal]
pub struct SubackModel {
    pub pkid: u16,
    pub codes: Seq<u8>,
}

/// A control packet.
#[verifier::ext_equal]
pub enum PacketModel {
    Connect(ConnectModel),
    Connack(bool, u8),
    Publish(PublishModel),
    Puback(u16),
    Pubrec(u16),
    Pubrel(u16),
    Pubcomp(u16),
    Subscribe(SubscribeModel),
    Suback(SubackModel),
    Unsubscribe(UnsubscribeModel),
    Unsuback(u16),
    Pingreq,
    Pingresp,
    Disconnect,
}

/// A topic that a message can be published to.
pub open spec fn valid_topic_name(s: Seq<char>) -> bool {
    &&& s.len() > 0
    &&& encode_utf8(s).len() <= 65535
    &&& !s.contains('#')
    &&& !s.contains('+')
}

/// A filter that a client can subscribe to: `+` and `#` only as whole levels, `#` only as the last.
pub open spec fn valid_topic_filter(s: Seq<char>) -> bool {
    let levels = text::pieces(s, '/');
    &&& s.len() > 0
    &&& encode_utf8(s).len() <= 65535
    &&& forall|i: int|
        0 <= i < levels.len() ==> {
            ||| #[trigger] levels[i] == seq!['+']
            ||| levels[i] == seq!['#'] && i == levels.len() - 1
            ||| !levels[i].contains('+') && !levels[i].contains('#')
        }
}

/// Two bytes, most significant first.
pub open spec fn be16(n: int) -> Seq<u8> {
    seq![(n / 256) as u8, (n % 256) as u8]
}

/// The number that the two bytes at `i` stand for.
pub open spec fn read16(s: Seq<u8>, i: int) -> u16 {
    (s[i] * 256 + s[i + 1]) as u16
}

/// A length in groups of seven bits, least significant first; all but the last with the top bit set.
pub open spec fn varint(n: nat) -> Seq<u8>
    decreases n,
{
    if n < 128 {
        seq![n as u8]
    } else {
        seq![(128 + n % 128) as u8] + varint(n / 128)
    }
}

/// The number that the low seven bits of each byte stand for, least significant first.
pub open spec fn varint_value(s: Seq<u8>) -> nat
    decreases s.len(),
{
    if s.len() == 0 {
        0
    } else {
        (s[0] % 128) as nat + 128 * varint_value(s.drop_first())
    }
}

/// A packet: its first byte, the length of its body, its body.
pub open spec fn framed(first: u8, body: Seq<u8>) -> Seq<u8> {
    seq![first] + varint(body.len()) + body
}

/// Bytes after their length.
pub open spec fn prefixed(s: Seq<u8>) -> Seq<u8> {
    be16(s.len() as int) + s
}

/// A string after its length in bytes.
pub open spec fn string_bytes(s: Seq<char>) -> Seq<u8> {
    prefixed(encode_utf8(s))
}

pub open spec fn bit(b: bool) -> int {
    if b {
        1
    } else {
        0
    }
}

pub open spec fn publish_first(p: PublishModel) -> u8 {
    (48 + 8 * bit(p.dup) + 2 * p.qos.level().number() + bit(p.retain)) as u8
}

pub open spec fn publish_body(p: PublishModel) -> Seq<u8> {
    string_bytes(p.topic) + (match p.qos {
        QoSWithPacketIdentifier::Level0 => Seq::<u8>::empty(),
        QoSWithPacketIdentifier::Level1(pkid) => be16(pkid as int),
        QoSWithPacketIdentifier::Level2(pkid) => be16(pkid as int),
    }) + p.payload
}

/// PUBLISH.
pub open spec fn publish_bytes(p: PublishModel) -> Seq<u8> {
    framed(publish_first(p), publish_body(p))
}

/// The packets that hold nothing but an identifier: PUBACK, PUBREC, PUBREL, PUBCOMP, UNSUBACK.
pub open spec fn ack_bytes(first: u8, pkid: u16) -> Seq<u8> {
    seq![first, 2] + be16(pkid as int)
}

pub open spec fn puback_bytes(pkid: u16) -> Seq<u8> {
    ack_bytes(0x40, pkid)
}

pub open spec fn pubrec_bytes(pkid: u16) -> Seq<u8> {
    ack_bytes(0x50, pkid)
}

pub open spec fn pubrel_bytes(pkid: u16) -> Seq<u8> {
    ack_bytes(0x62, pkid)
}

pub open spec fn pubcomp_bytes(pkid: u16) -> Seq<u8> {
    ack_bytes(0x70, pkid)
}

pub open spec fn unsuback_bytes(pkid: u16) -> Seq<u8> {
    ack_bytes(0xB0, pkid)
}

/// CONNACK.
pub open spec fn connack_bytes(session_present: bool, code: u8) -> Seq<u8> {
    seq![0x20u8, 2, bit(session_present) as u8, code]
}

/// The return code of a CONNACK that accepts the connection.
pub const CONNECTION_ACCEPTED: u8 = 0;

pub open spec fn pingresp_bytes() -> Seq<u8> {
    seq![0xD0u8, 0]
}

pub open spec fn pingreq_bytes() -> Seq<u8> {
    seq![0xC0u8, 0]
}

pub open spec fn disconnect_bytes() -> Seq<u8> {
    seq![0xE0u8, 0]
}

/// SUBACK.
pub open spec fn suback_bytes(pkid: u16, codes: Seq<u8>) -> Seq<u8> {
    framed(0x90, be16(pkid as int) + codes)
}

pub open spec fn connect_flags(c: ConnectModel) -> u8 {
    (2 * bit(c.clean_session) + 4 * bit(c.will is Some) + 8 * c.will_qos + 32 * bit(
        c.will_retain,
    )) as u8
}

pub open spec fn connect_body(c: ConnectModel) -> Seq<u8> {
    string_bytes(c.protocol_name) + seq![4u8, connect_flags(c)] + be16(c.keep_alive as int)
        + string_bytes(c.client_identifier) + (match c.will {
        Some((topic, message)) => string_bytes(topic) + prefixed(message),
        None => Seq::<u8>::empty(),
    })
}

/// CONNECT of protocol level four, without a user name or a password.
pub open spec fn connect_bytes(c: ConnectModel) -> Seq<u8> {
    framed(0x10, connect_body(c))
}

/// A CONNECT packet whose strings and will fit behind their lengths and whose will is at a level.
pub open spec fn connect_encodable(c: ConnectModel) -> bool {
    &&& encode_utf8(c.protocol_name).len() <= 65535
    &&& encode_utf8(c.client_identifier).len() <= 65535
    &&& c.will matches Some((topic, message)) ==> valid_topic_name(topic) && message.len() <= 65535
    &&& c.will_qos <= 2
}

pub open spec fn subscriptions_bytes(s: Seq<(Seq<char>, QualityOfService)>) -> Seq<u8>
    decreases s.len(),
{
    if s.len() == 0 {
        Seq::<u8>::empty()
    } else {
        subscriptions_bytes(s.drop_last()) + string_bytes(s.last().0).push(s.last().1.number())
    }
}

/// SUBSCRIBE.
pub open spec fn subscribe_bytes(s: SubscribeModel) -> Seq<u8> {
    framed(0x82, be16(s.pkid as int) + subscriptions_bytes(s.subscribes))
}

/// A SUBSCRIBE packet with valid filters whose length fits in 32 bits.
pub open spec fn subscribe_encodable(s: SubscribeModel) -> bool {
    &&& forall|i: int|
        0 <= i < s.subscribes.len() ==> valid_topic_filter((#[trigger] s.subscribes[i]).0)
    &&& 2 + subscriptions_bytes(s.subscribes).len() <= u32::MAX
}

pub open spec fn filters_bytes(s: Seq<Seq<char>>) -> Seq<u8>
    decreases s.len(),
{
    if s.len() == 0 {
        Seq::<u8>::empty()
    } else {
        filters_bytes(s.drop_last()) + string_bytes(s.last())
    }
}

/// UNSUBSCRIBE.
pub open spec fn unsubscribe_bytes(s: UnsubscribeModel) -> Seq<u8> {
    framed(0xA2, be16(s.pkid as int) + filters_bytes(s.filters))
}

/// An UNSUBSCRIBE packet with valid filters whose length fits in 32 bits.
pub open spec fn unsubscribe_encodable(s: UnsubscribeModel) -> bool {
    &&& forall|i: int| 0 <= i < s.filters.len() ==> valid_topic_filter(#[trigger] s.filters[i])
    &&& 2 + filters_bytes(s.filters).len() <= u32::MAX
}

/// The bytes of a packet.
pub open spec fn packet_bytes(p: PacketModel) -> Seq<u8> {
    match p {
        PacketModel::Connect(c) => connect_bytes(c),
        PacketModel::Connack(present, code) => connack_bytes(present, code),
        PacketModel::Publish(p) => publish_bytes(p),
        PacketModel::Puback(pkid) => puback_bytes(pkid),
        PacketModel::Pubrec(pkid) => pubrec_bytes(pkid),
        PacketModel::Pubrel(pkid) => pubrel_bytes(pkid),
        PacketModel::Pubcomp(pkid) => pubcomp_bytes(pkid),
        PacketModel::Subscribe(s) => subscribe_bytes(s),
        PacketModel::Suback(s) => suback_bytes(s.pkid, s.codes),
        PacketModel::Unsubscribe(s) => unsubscribe_bytes(s),
        PacketModel::Unsuback(pkid) => unsuback_bytes(pkid),
        PacketModel::Pingreq => pingreq_bytes(),
        PacketModel::Pingresp => pingresp_bytes(),
        PacketModel::Disconnect => disconnect_bytes(),
    }
}

/// The first byte of a packet.
pub open spec fn packet_first(p: PacketModel) -> u8 {
    match p {
        PacketModel::Connect(_) => 0x10,
        PacketModel::Connack(..) => 0x20,
        PacketModel::Publish(m) => publish_first(m),
        PacketModel::Puback(_) => 0x40,
        PacketModel::Pubrec(_) => 0x50,
        PacketModel::Pubrel(_) => 0x62,
        PacketModel::Pubcomp(_) => 0x70,
        PacketModel::Subscribe(_) => 0x82,
        PacketModel::Suback(_) => 0x90,
        PacketModel::Unsubscribe(_) => 0xA2,
        PacketModel::Unsuback(_) => 0xB0,
        PacketModel::Pingreq => 0xC0,
        PacketModel::Pingresp => 0xD0,
        PacketModel::Disconnect => 0xE0,
    }
}

/// What stands behind a packet's header.
pub open spec fn packet_body(p: PacketModel) -> Seq<u8> {
    match p {
        PacketModel::Connect(c) => connect_body(c),
        PacketModel::Connack(present, code) => seq![bit(present) as u8, code],
        PacketModel::Publish(m) => publish_body(m),
        PacketModel::Puback(pkid) => be16(pkid as int),
        PacketModel::Pubrec(pkid) => be16(pkid as int),
        PacketModel::Pubrel(pkid) => be16(pkid as int),
        PacketModel::Pubcomp(pkid) => be16(pkid as int),
        PacketModel::Subscribe(s) => be16(s.pkid as int) + subscriptions_bytes(s.subscribes),
        PacketModel::Suback(s) => be16(s.pkid as int) + s.codes,
        PacketModel::Unsubscribe(s) => be16(s.pkid as int) + filters_bytes(s.filters),
        PacketModel::Unsuback(pkid) => be16(pkid as int),
        PacketModel::Pingreq => Seq::empty(),
        PacketModel::Pingresp => Seq::empty(),
        PacketModel::Disconnect => Seq::empty(),
    }
}

/// A packet whose parts fit behind their lengths.
pub open spec fn encodable(p: PacketModel) -> bool {
    match p {
        PacketModel::Connect(c) => connect_encodable(c),
        PacketModel::Subscribe(s) => subscribe_encodable(s),
        PacketModel::Suback(s) => s.codes.len() + 2 <= u32::MAX,
        PacketModel::Unsubscribe(s) => unsubscribe_encodable(s),
        _ => true,
    }
}

/// The bytes at `i` after their length, and where they end. A length that reaches beyond the end
/// gives the bytes that are there.
pub open spec fn take_bytes(s: Seq<u8>, i: int) -> Option<(Seq<u8>, int)> {
    if i + 2 > s.len() {
        None
    } else {
        let announced = i + 2 + read16(s, i);
        let end = if announced <= s.len() {
            announced
        } else {
            s.len() as int
        };
        Some((s.subrange(i + 2, end), end))
    }
}

/// The string at `i` after its length, and where it ends.
pub open spec fn take_string(s: Seq<u8>, i: int) -> Option<(Seq<char>, int)> {
    match take_bytes(s, i) {
        Some((b, j)) => if valid_utf8(b) {
            Some((decode_utf8(b), j))
        } else {
            None
        },
        None => None,
    }
}

/// The first bytes that a packet can have: a packet type with the flags that go with it.
pub open spec fn valid_first(first: u8) -> bool {
    let kind = first / 16;
    let flags = first % 16;
    if kind == 3 {
        (flags / 2) % 4 != 3
    } else if kind == 6 || kind == 8 || kind == 10 {
        flags == 2
    } else {
        1 <= kind <= 14 && flags == 0
    }
}

/// The body of a PUBLISH packet whose first byte is `first`.
pub open spec fn decoded_publish(first: u8, body: Seq<u8>) -> Option<PublishModel> {
    match take_string(body, 0) {
        None => None,
        Some((topic, i)) => {
            let level = (first / 2) % 4;
            if !valid_topic_name(topic) || (level != 0 && i + 2 > body.len()) {
                None
            } else {
                Some(
                    PublishModel {
                        topic,
                        qos: if level == 0 {
                            QoSWithPacketIdentifier::Level0
                        } else if level == 1 {
                            QoSWithPacketIdentifier::Level1(read16(body, i))
                        } else {
                            QoSWithPacketIdentifier::Level2(read16(body, i))
                        },
                        payload: body.skip(
                            if level == 0 {
                                i
                            } else {
                                i + 2
                            },
                        ),
                        retain: first % 2 == 1,
                        dup: (first / 8) % 2 == 1,
                    },
                )
            }
        },
    }
}

/// The last will at `i`, where `flag` says that there is one, and where it ends.
pub open spec fn take_will(flag: bool, s: Seq<u8>, i: int) -> Option<
    (Option<(Seq<char>, Seq<u8>)>, int),
> {
    if !flag {
        Some((None, i))
    } else {
        match take_string(s, i) {
            None => None,
            Some((topic, j)) => if !valid_topic_name(topic) {
                None
            } else {
                match take_bytes(s, j) {
                    None => None,
                    Some((message, k)) => Some((Some((topic, message)), k)),
                }
            },
        }
    }
}

/// Where the string at `i` ends, where `flag` says that there is one.
pub open spec fn skip_string(flag: bool, s: Seq<u8>, i: int) -> Option<int> {
    if !flag {
        Some(i)
    } else {
        match take_string(s, i) {
            None => None,
            Some((_, j)) => Some(j),
        }
    }
}

/// The body of a CONNECT packet: protocol name, protocol level (three to five), flags, keep alive,
/// client identifier, and as the flags say the will, a user name and a password.
pub open spec fn decoded_connect(body: Seq<u8>) -> Option<ConnectModel> {
    match take_string(body, 0) {
        None => None,
        Some((protocol_name, i)) => if i + 4 > body.len() || !(3 <= body[i] <= 5) || body[i + 1] % 2
            == 1 {
            None
        } else {
            let flags = body[i + 1];
            match take_string(body, i + 4) {
                None => None,
                Some((client_identifier, j)) => match take_will((flags / 4) % 2 == 1, body, j) {
                    None => None,
                    Some((will, k)) => match skip_string(flags / 128 == 1, body, k) {
                        None => None,
                        Some(l) => match skip_string((flags / 64) % 2 == 1, body, l) {
                            None => None,
                            Some(_) => Some(
                                ConnectModel {
                                    protocol_name,
                                    client_identifier,
                                    clean_session: (flags / 2) % 2 == 1,
                                    keep_alive: read16(body, i + 2),
                                    will,
                                    will_qos: (flags / 8) % 4,
                                    will_retain: (flags / 32) % 2 == 1,
                                },
                            ),
                        },
                    },
                },
            }
        },
    }
}

pub open spec fn level_of(n: u8) -> QualityOfService {
    if n == 0 {
        QualityOfService::Level0
    } else if n == 1 {
        QualityOfService::Level1
    } else {
        QualityOfService::Level2
    }
}

/// The filters with their levels from `i` to the end.
pub open spec fn decoded_subscriptions(s: Seq<u8>, i: int) -> Option<
    Seq<(Seq<char>, QualityOfService)>,
>
    decreases s.len() - i,
{
    if i >= s.len() {
        Some(Seq::empty())
    } else {
        match take_string(s, i) {
            None => None,
            Some((filter, j)) => if !valid_topic_filter(filter) || j >= s.len() || s[j] > 2 {
                None
            } else {
                match decoded_subscriptions(s, j + 1) {
                    None => None,
                    Some(rest) => Some(seq![(filter, level_of(s[j]))] + rest),
                }
            },
        }
    }
}

/// The body of a SUBSCRIBE packet.
pub open spec fn decoded_subscribe(body: Seq<u8>) -> Option<SubscribeModel> {
    if body.len() < 2 {
        None
    } else {
        match decoded_subscriptions(body, 2) {
            None => None,
            Some(subscribes) => Some(SubscribeModel { pkid: read16(body, 0), subscribes }),
        }
    }
}

/// The filters from `i` to the end.
pub open spec fn decoded_filters(s: Seq<u8>, i: int) -> Option<Seq<Seq<char>>>
    decreases s.len() - i,
{
    if i >= s.len() {
        Some(Seq::empty())
    } else {
        match take_string(s, i) {
            None => None,
            Some((filter, j)) => if !valid_topic_filter(filter) {
                None
            } else {
                match decoded_filters(s, j) {
                    None => None,
                    Some(rest) => Some(seq![filter] + rest),
                }
            },
        }
    }
}

/// The body of an UNSUBSCRIBE packet.
pub open spec fn decoded_unsubscribe(body: Seq<u8>) -> Option<UnsubscribeModel> {
    if body.len() < 2 {
        None
    } else {
        match decoded_filters(body, 2) {
            None => None,
            Some(filters) => Some(UnsubscribeModel { pkid: read16(body, 0), filters }),
        }
    }
}

/// The return codes of a SUBACK packet: a granted level, or a refusal.
pub open spec fn valid_return_code(code: u8) -> bool {
    code <= 2 || code == 0x80
}

/// The body of a SUBACK packet.
pub open spec fn decoded_suback(body: Seq<u8>) -> Option<SubackModel> {
    if body.len() < 2 || exists|i: int| 2 <= i < body.len() && !valid_return_code(#[trigger] body[i]) {
        None
    } else {
        Some(SubackModel { pkid: read16(body, 0), codes: body.skip(2) })
    }
}

/// The packet with the first byte `first` and the given body.
#[verifier::opaque]
pub open spec fn decoded(first: u8, body: Seq<u8>) -> Option<PacketModel> {
    let kind = first / 16;
    if kind == 1 {
        match decoded_connect(body) {
            Some(c) => Some(PacketModel::Connect(c)),
            None => None,
        }
    } else if kind == 2 {
        if body.len() < 2 || body[0] > 1 {
            None
        } else {
            Some(PacketModel::Connack(body[0] == 1, body[1]))
        }
    } else if kind == 3 {
        match decoded_publish(first, body) {
            Some(p) => Some(PacketModel::Publish(p)),
            None => None,
        }
    } else if kind == 8 {
        match decoded_subscribe(body) {
            Some(p) => Some(PacketModel::Subscribe(p)),
            None => None,
        }
    } else if kind == 9 {
        match decoded_suback(body) {
            Some(p) => Some(PacketModel::Suback(p)),
            None => None,
        }
    } else if kind == 10 {
        match decoded_unsubscribe(body) {
            Some(p) => Some(PacketModel::Unsubscribe(p)),
            None => None,
        }
    } else if kind == 12 {
        Some(PacketModel::Pingreq)
    } else if kind == 13 {
        Some(PacketModel::Pingresp)
    } else if kind == 14 {
        Some(PacketModel::Disconnect)
    } else if body.len() < 2 {
        None
    } else if kind == 4 {
        Some(PacketModel::Puback(read16(body, 0)))
    } else if kind == 5 {
        Some(PacketModel::Pubrec(read16(body, 0)))
    } else if kind == 6 {
        Some(PacketModel::Pubrel(read16(body, 0)))
    } else if kind == 7 {
        Some(PacketModel::Pubcomp(read16(body, 0)))
    } else if kind == 11 {
        Some(PacketModel::Unsuback(read16(body, 0)))
    } else {
        None
    }
}

/// Where a fixed header ends that begins the buffer: after the first of the second to fifth byte
/// whose top bit is clear. `None` where bytes are missing. Six where each of the four announces one
/// more length byte and that byte has come: no header is as long as that.
pub open spec fn header_end(buf: Seq<u8>) -> Option<int> {
    if buf.len() >= 2 && buf[1] < 128 {
        Some(2)
    } else if buf.len() >= 3 && buf[2] < 128 {
        Some(3)
    } else if buf.len() >= 4 && buf[3] < 128 {
        Some(4)
    } else if buf.len() >= 5 && buf[4] < 128 {
        Some(5)
    } else if buf.len() >= 6 {
        Some(6)
    } else {
        None
    }
}

/// A packet's first byte and the length of its body.
#[derive(Debug, PartialEq, Eq, Structural, Clone, Copy)]
pub struct FixedHeader {
    pub packet_type: u8,
    pub remaining_length: u32,
}

/// The header in the bytes `h`.
pub open spec fn header_of(h: Seq<u8>) -> FixedHeader {
    FixedHeader { packet_type: h[0], remaining_length: varint_value(h.drop_first()) as u32 }
}

/// What a byte stream holds at its front.
pub enum NextFrame {
    /// A packet: its first byte and its body.
    Packet(u8, Seq<u8>),
    NeedMore,
    /// A length of more than four bytes.
    BadLength,
    /// A first byte that no packet can have.
    BadHeader,
}

/// What `buf` holds at its front, what is left of it, and the header that then waits for its body.
/// `header` is the header of the packet whose body comes first, where that header is no longer in
/// the buffer.
pub open spec fn next_frame(buf: Seq<u8>, header: Option<FixedHeader>) -> (
    NextFrame,
    Seq<u8>,
    Option<FixedHeader>,
) {
    match header {
        None => match header_end(buf) {
            None => (NextFrame::NeedMore, buf, None),
            Some(n) => if n >= 6 {
                (NextFrame::BadLength, buf, None)
            } else if !valid_first(buf[0]) {
                (NextFrame::BadHeader, buf.skip(n), None)
            } else {
                next_body(header_of(buf.take(n)), buf.skip(n))
            },
        },
        Some(h) => next_body(h, buf),
    }
}

/// What `buf` holds at its front, after the header `h`.
pub open spec fn next_body(h: FixedHeader, buf: Seq<u8>) -> (
    NextFrame,
    Seq<u8>,
    Option<FixedHeader>,
) {
    let n = h.remaining_length as int;
    if n <= buf.len() {
        (NextFrame::Packet(h.packet_type, buf.take(n)), buf.skip(n), None)
    } else {
        (NextFrame::NeedMore, buf, Some(h))
    }
}

/// How the cutting of a byte stream into packets ended.
pub enum FramesEnd {
    /// More bytes are needed.
    NeedMore,
    /// A length of more than four bytes.
    BadLength,
    /// A first byte that no packet can have.
    BadHeader,
}

/// The packets, as first bytes and bodies, that a byte stream holds, and what is left of it.
#[verifier::ext_equal]
pub struct Frames {
    pub packets: Seq<(u8, Seq<u8>)>,
    pub rest: Seq<u8>,
    pub header: Option<FixedHeader>,
    pub end: FramesEnd,
}

/// Cuts `buf` into packets. `header` is the header of the packet whose body comes first, where that
/// header is no longer in the buffer.
#[verifier::opaque]
pub open spec fn frames(buf: Seq<u8>, header: Option<FixedHeader>) -> Frames
    decreases
            buf.len(),
            (if header is Some {
                1nat
            } else {
                0nat
            }),
{
    match header {
        None => match header_end(buf) {
            None => Frames { packets: Seq::empty(), rest: buf, header: None, end: FramesEnd::NeedMore },
            Some(n) => if n >= 6 {
                Frames { packets: Seq::empty(), rest: buf, header: None, end: FramesEnd::BadLength }
            } else if !valid_first(buf[0]) {
                Frames {
                    packets: Seq::empty(),
                    rest: buf.skip(n),
                    header: None,
                    end: FramesEnd::BadHeader,
                }
            } else {
                frames(buf.skip(n), Some(header_of(buf.take(n))))
            },
        },
        Some(h) => if h.remaining_length <= buf.len() {
            let after = frames(buf.skip(h.remaining_length as int), None);
            Frames {
                packets: seq![(h.packet_type, buf.take(h.remaining_length as int))] + after.packets,
                rest: after.rest,
                header: after.header,
                end: after.end,
            }
        } else {
            Frames { packets: Seq::empty(), rest: buf, header, end: FramesEnd::NeedMore }
        },
    }
}

/// A length of at most four bytes is at most `MAX_REMAINING_LENGTH`.
pub proof fn lemma_header_length(h: Seq<u8>)
    requires
        2 <= h.len() <= 5,
    ensures
        varint_value(h.drop_first()) <= MAX_REMAINING_LENGTH,
        header_of(h).remaining_length == varint_value(h.drop_first()),
{
    reveal_with_fuel(varint_value, 5);
}

} // verus!
