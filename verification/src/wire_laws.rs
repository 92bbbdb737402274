//! What holds of the byte format: what is written is read back, and it does not matter how the
//! bytes are cut on their way.
use vstd::prelude::*;
use vstd::utf8::*;

use crate::qos::{QoSWithPacketIdentifier, QualityOfService};
use crate::wire;
use crate::wire::{
    ConnectModel, FixedHeader, Frames, NextFrame, PacketModel, PublishModel, SubackModel,
    SubscribeModel, UnsubscribeModel,
};

verus! {

/// The end of a header does not move when more bytes come.
pub proof fn lemma_header_end_stays(a: Seq<u8>, b: Seq<u8>)
    requires
        wire::header_end(a) is Some,
    ensures
        wire::header_end(a + b) == wire::header_end(a),
        2 <= wire::header_end(a)->0 <= a.len(),
{
    let c = a + b;
    assert(forall|i: int| 0 <= i < a.len() ==> c[i] == a[i]);
}

/// Law: what is cut off a byte stream is the same whether its bytes come at once or in two pieces. Where
/// the first piece is already wrong, it stays wrong.
pub proof fn law_frames_in_pieces(a: Seq<u8>, b: Seq<u8>, header: Option<FixedHeader>)
    ensures
        ({
            let first = wire::frames(a, header);
            let whole = wire::frames(a + b, header);
            if first.end is NeedMore {
                let second = wire::frames(first.rest + b, first.header);
                whole == (Frames { packets: first.packets + second.packets, ..second })
            } else {
                whole == (Frames { rest: first.rest + b, ..first })
            }
        }),
    decreases
            a.len(),
            (if header is Some {
                1nat
            } else {
                0nat
            }),
{
    reveal(wire::frames);
    match header {
        None => match wire::header_end(a) {
            None => {
                assert(Seq::empty() + wire::frames(a + b, None).packets =~= wire::frames(
                    a + b,
                    None,
                ).packets);
            },
            Some(n) => {
                lemma_header_end_stays(a, b);
                assert((a + b).skip(n) =~= a.skip(n) + b);
                assert((a + b).take(n) =~= a.take(n));
                if n < 6 && wire::valid_first(a[0]) {
                    law_frames_in_pieces(a.skip(n), b, Some(wire::header_of(a.take(n))));
                }
            },
        },
        Some(h) => {
            let n = h.remaining_length as int;
            if n <= a.len() {
                assert((a + b).skip(n) =~= a.skip(n) + b);
                assert((a + b).take(n) =~= a.take(n));
                law_frames_in_pieces(a.skip(n), b, None);
                let one = seq![(h.packet_type, a.take(n))];
                let rest = wire::frames(a.skip(n), None);
                let second = wire::frames(rest.rest + b, rest.header);
                assert(one + (rest.packets + second.packets) =~= (one + rest.packets)
                    + second.packets);
            } else {
                assert(Seq::empty() + wire::frames(a + b, header).packets =~= wire::frames(
                    a + b,
                    header,
                ).packets);
            }
        },
    }
}

/// Bytes that were left because of a length of more than four bytes begin with it.
pub proof fn lemma_bad_length(a: Seq<u8>, header: Option<FixedHeader>)
    requires
        wire::frames(a, header).end is BadLength,
    ensures
        wire::frames(a, header).header is None,
        wire::header_end(wire::frames(a, header).rest) matches Some(n) && n >= 6,
    decreases
            a.len(),
            (if header is Some {
                1nat
            } else {
                0nat
            }),
{
    reveal_with_fuel(wire::frames, 2);
    match header {
        None => {
            if let Some(n) = wire::header_end(a) {
                if n < 6 && wire::valid_first(a[0]) {
                    lemma_bad_length(a.skip(n), Some(wire::header_of(a.take(n))));
                }
            }
        },
        Some(h) => {
            if h.remaining_length <= a.len() {
                lemma_bad_length(a.skip(h.remaining_length as int), None);
            }
        },
    }
}

/// A length is read back; all of its bytes but the last have the top bit set.
proof fn lemma_varint(n: nat)
    ensures
        wire::varint(n).len() >= 1,
        wire::varint(n).last() < 128,
        forall|i: int| 0 <= i < wire::varint(n).len() - 1 ==> wire::varint(n)[i] >= 128,
        wire::varint_value(wire::varint(n)) == n,
    decreases n,
{
    let v = wire::varint(n);
    reveal_with_fuel(wire::varint_value, 2);
    if n >= 128 {
        lemma_varint(n / 128);
        assert(v.drop_first() =~= wire::varint(n / 128));
        assert(v.last() == wire::varint(n / 128).last());
        assert forall|i: int| 0 <= i < v.len() - 1 implies v[i] >= 128 by {
            if i > 0 {
                assert(v[i] == wire::varint(n / 128)[i - 1]);
            }
        }
    }
}

/// A length of four groups of seven bits takes at most four bytes.
proof fn lemma_varint_len(n: nat)
    requires
        n <= wire::MAX_REMAINING_LENGTH,
    ensures
        wire::varint(n).len() <= 4,
{
    reveal_with_fuel(wire::varint, 4);
}

/// Where the header of a framed packet ends, and what it says.
proof fn lemma_framed_header(first: u8, body: Seq<u8>, rest: Seq<u8>)
    requires
        body.len() <= wire::MAX_REMAINING_LENGTH,
    ensures
        ({
            let buf = wire::framed(first, body) + rest;
            let n = 1 + wire::varint(body.len()).len() as int;
            &&& wire::header_end(buf) == Some(n)
            &&& n < 6
            &&& buf[0] == first
            &&& wire::header_of(buf.take(n)) == (FixedHeader {
                packet_type: first,
                remaining_length: body.len() as u32,
            })
            &&& buf.skip(n) == body + rest
        }),
{
    let v = wire::varint(body.len());
    let buf = wire::framed(first, body) + rest;
    let n = 1 + v.len() as int;
    lemma_varint(body.len());
    lemma_varint_len(body.len());
    assert forall|i: int| 0 <= i < v.len() implies buf[i + 1] == v[i] by {}
    assert(buf[n - 1] == v.last());
    assert(wire::header_end(buf) == Some(n)) by {
        assert(v.len() >= 2 ==> buf[1] == v[0]);
        assert(v.len() >= 3 ==> buf[2] == v[1]);
        assert(v.len() >= 4 ==> buf[3] == v[2]);
    }
    assert(buf.take(n).drop_first() =~= v);
    assert(buf.skip(n) =~= body + rest);
}

/// Law: a framed packet at the front of a byte stream is cut off as it is, whatever follows.
pub proof fn law_framed_packet_is_cut_off(first: u8, body: Seq<u8>, rest: Seq<u8>)
    requires
        wire::valid_first(first),
        body.len() <= wire::MAX_REMAINING_LENGTH,
    ensures
        ({
            let after = wire::frames(rest, None);
            wire::frames(wire::framed(first, body) + rest, None) == (Frames {
                packets: seq![(first, body)] + after.packets,
                ..after
            })
        }),
        wire::next_frame(wire::framed(first, body) + rest, None) == (
            NextFrame::Packet(first, body),
            rest,
            None::<FixedHeader>,
        ),
{
    reveal_with_fuel(wire::frames, 3);
    lemma_framed_header(first, body, rest);
    assert((body + rest).take(body.len() as int) =~= body);
    assert((body + rest).skip(body.len() as int) =~= rest);
}

/// Two bytes are read back.
proof fn lemma_be16(n: int)
    requires
        0 <= n <= 65535,
    ensures
        wire::be16(n).len() == 2,
        wire::be16(n)[0] * 256 + wire::be16(n)[1] == n,
{
}

/// Bytes that stand behind their length at `i` are read back.
proof fn lemma_take_bytes(s: Seq<u8>, i: int, b: Seq<u8>)
    requires
        0 <= i,
        b.len() <= 65535,
        i + 2 + b.len() <= s.len(),
        s.subrange(i, i + 2 + b.len()) == wire::prefixed(b),
    ensures
        wire::take_bytes(s, i) == Some((b, i + 2 + b.len())),
{
    let p = wire::prefixed(b);
    lemma_be16(b.len() as int);
    assert(s[i] == p[0]);
    assert(s[i + 1] == p[1]);
    assert(wire::read16(s, i) == b.len());
    assert(s.subrange(i + 2, i + 2 + b.len()) =~= b) by {
        assert forall|j: int| 0 <= j < b.len() implies s[i + 2 + j] == b[j] by {
            assert(s.subrange(i, i + 2 + b.len())[j + 2] == p[j + 2]);
        }
    }
}

/// A string that stands at `i` is read back.
proof fn lemma_take_string(s: Seq<u8>, i: int, t: Seq<char>)
    requires
        0 <= i,
        encode_utf8(t).len() <= 65535,
        i + wire::string_bytes(t).len() <= s.len(),
        s.subrange(i, i + wire::string_bytes(t).len()) == wire::string_bytes(t),
    ensures
        wire::take_string(s, i) == Some((t, i + wire::string_bytes(t).len())),
        wire::string_bytes(t).len() == 2 + encode_utf8(t).len(),
{
    lemma_take_bytes(s, i, encode_utf8(t));
    encode_utf8_valid_utf8(t);
    encode_utf8_decode_utf8(t);
}

/// A message is read back from the first byte and the body of its PUBLISH packet.
proof fn lemma_publish_read_back(p: PublishModel)
    requires
        wire::valid_topic_name(p.topic),
    ensures
        wire::valid_first(wire::publish_first(p)),
        wire::publish_first(p) / 16 == 3,
        wire::decoded_publish(wire::publish_first(p), wire::publish_body(p)) == Some(p),
{
    let first = wire::publish_first(p);
    let body = wire::publish_body(p);
    let topic = wire::string_bytes(p.topic);
    let n = topic.len() as int;
    assert(body.subrange(0, n) =~= topic);
    lemma_take_string(body, 0, p.topic);
    match p.qos {
        QoSWithPacketIdentifier::Level0 => {
            assert(body.skip(n) =~= p.payload);
        },
        QoSWithPacketIdentifier::Level1(pkid) => {
            lemma_be16(pkid as int);
            assert(body[n] == wire::be16(pkid as int)[0]);
            assert(body[n + 1] == wire::be16(pkid as int)[1]);
            assert(body.skip(n + 2) =~= p.payload);
        },
        QoSWithPacketIdentifier::Level2(pkid) => {
            lemma_be16(pkid as int);
            assert(body[n] == wire::be16(pkid as int)[0]);
            assert(body[n + 1] == wire::be16(pkid as int)[1]);
            assert(body.skip(n + 2) =~= p.payload);
        },
    }
}

/// The flags of a CONNECT packet are read back.
proof fn lemma_connect_flags(c: ConnectModel)
    requires
        c.will_qos <= 2,
    ensures
        ({
            let flags = wire::connect_flags(c);
            &&& flags % 2 == 0
            &&& c.clean_session == ((flags / 2) % 2 == 1)
            &&& c.will is Some == ((flags / 4) % 2 == 1)
            &&& c.will_qos == (flags / 8) % 4
            &&& c.will_retain == ((flags / 32) % 2 == 1)
            &&& flags / 64 == 0
            &&& flags / 128 == 0
        }),
{
}

/// Where the fields of a CONNECT packet stand, up to the client identifier.
proof fn lemma_connect_fields(c: ConnectModel)
    requires
        wire::connect_encodable(c),
    ensures
        ({
            let body = wire::connect_body(c);
            let i = wire::string_bytes(c.protocol_name).len() as int;
            let k = i + 4 + wire::string_bytes(c.client_identifier).len();
            &&& wire::take_string(body, 0) == Some((c.protocol_name, i))
            &&& i + 4 <= body.len()
            &&& body[i] == 4
            &&& body[i + 1] == wire::connect_flags(c)
            &&& wire::read16(body, i + 2) == c.keep_alive
            &&& wire::take_string(body, i + 4) == Some((c.client_identifier, k))
        }),
{
    let name = wire::string_bytes(c.protocol_name);
    let two = seq![4u8, wire::connect_flags(c)];
    let keep_alive = wire::be16(c.keep_alive as int);
    let id = wire::string_bytes(c.client_identifier);
    let will = match c.will {
        Some((topic, message)) => wire::string_bytes(topic) + wire::prefixed(message),
        None => Seq::<u8>::empty(),
    };
    let body = wire::connect_body(c);
    assert(body == name + two + keep_alive + id + will);
    let i = name.len() as int;
    lemma_be16(c.keep_alive as int);
    assert(body.subrange(0, i) =~= name);
    lemma_take_string(body, 0, c.protocol_name);
    assert(body[i] == two[0]);
    assert(body[i + 1] == two[1]);
    assert(body[i + 2] == keep_alive[0]);
    assert(body[i + 3] == keep_alive[1]);
    assert(body.subrange(i + 4, i + 4 + id.len()) =~= id);
    lemma_take_string(body, i + 4, c.client_identifier);
}

/// Where the last will of a CONNECT packet stands.
proof fn lemma_connect_will(c: ConnectModel)
    requires
        wire::connect_encodable(c),
    ensures
        ({
            let k = wire::string_bytes(c.protocol_name).len() + 4 + wire::string_bytes(
                c.client_identifier,
            ).len();
            let body = wire::connect_body(c);
            wire::take_will(c.will is Some, body, k as int) == Some((c.will, body.len() as int))
        }),
{
    let front = wire::string_bytes(c.protocol_name) + seq![4u8, wire::connect_flags(c)]
        + wire::be16(c.keep_alive as int) + wire::string_bytes(c.client_identifier);
    let body = wire::connect_body(c);
    let k = front.len() as int;
    match c.will {
        Some((topic, message)) => {
            let t = wire::string_bytes(topic);
            let m = wire::prefixed(message);
            assert(body == front + (t + m));
            assert(body.subrange(k, k + t.len()) =~= t);
            lemma_take_string(body, k, topic);
            assert(body.subrange(k + t.len(), k + t.len() + m.len()) =~= m);
            lemma_take_bytes(body, k + t.len(), message);
        },
        None => {
            assert(body =~= front);
        },
    }
}

/// What a client says of itself is read back from the body of its CONNECT packet.
proof fn lemma_connect_read_back(c: ConnectModel)
    requires
        wire::connect_encodable(c),
    ensures
        wire::decoded_connect(wire::connect_body(c)) == Some(c),
{
    lemma_connect_flags(c);
    lemma_connect_fields(c);
    lemma_connect_will(c);
}

/// The bytes of filters with their levels, seen from the front.
proof fn lemma_subscriptions_front(s: Seq<(Seq<char>, QualityOfService)>)
    requires
        s.len() > 0,
    ensures
        wire::subscriptions_bytes(s) == wire::string_bytes(s[0].0).push(s[0].1.number())
            + wire::subscriptions_bytes(s.drop_first()),
    decreases s.len(),
{
    reveal_with_fuel(wire::subscriptions_bytes, 2);
    if s.len() == 1 {
        assert(s.drop_last() =~= Seq::empty());
        assert(s.drop_first() =~= Seq::empty());
        let one = wire::string_bytes(s[0].0).push(s[0].1.number());
        assert(Seq::<u8>::empty() + one =~= one + Seq::<u8>::empty());
    } else {
        lemma_subscriptions_front(s.drop_last());
        assert(s.drop_last().drop_first() =~= s.drop_first().drop_last());
        let one = wire::string_bytes(s[0].0).push(s[0].1.number());
        let last = wire::string_bytes(s.last().0).push(s.last().1.number());
        let between = wire::subscriptions_bytes(s.drop_first().drop_last());
        assert((one + between) + last =~= one + (between + last));
    }
}

/// Filters with their levels are read back from where they begin.
proof fn lemma_subscriptions_read_back(
    body: Seq<u8>,
    i: int,
    s: Seq<(Seq<char>, QualityOfService)>,
)
    requires
        0 <= i <= body.len(),
        body.skip(i) == wire::subscriptions_bytes(s),
        forall|n: int| 0 <= n < s.len() ==> wire::valid_topic_filter((#[trigger] s[n]).0),
    ensures
        wire::decoded_subscriptions(body, i) == Some(s),
    decreases s.len(),
{
    if s.len() == 0 {
        assert(body.skip(i).len() == 0);
        assert(s =~= Seq::empty());
    } else {
        lemma_subscriptions_front(s);
        let (filter, level) = s[0];
        let t = wire::string_bytes(filter);
        let rest = wire::subscriptions_bytes(s.drop_first());
        let j = i + t.len();
        assert(body.skip(i).len() == t.len() + 1 + rest.len());
        let here = body.skip(i);
        let one = t.push(level.number());
        assert(here == one + rest);
        assert(body.subrange(i, j) =~= here.take(t.len() as int));
        assert((one + rest).take(t.len() as int) =~= t);
        lemma_take_string(body, i, filter);
        assert(body[j] == here[t.len() as int]);
        assert(body.skip(j + 1) =~= here.skip((t.len() + 1) as int));
        assert((one + rest).skip((t.len() + 1) as int) =~= rest);
        lemma_subscriptions_read_back(body, j + 1, s.drop_first());
        assert(seq![(filter, level)] + s.drop_first() =~= s);
    }
}

/// The bytes of filters, seen from the front.
proof fn lemma_filters_front(s: Seq<Seq<char>>)
    requires
        s.len() > 0,
    ensures
        wire::filters_bytes(s) == wire::string_bytes(s[0]) + wire::filters_bytes(s.drop_first()),
    decreases s.len(),
{
    reveal_with_fuel(wire::filters_bytes, 2);
    if s.len() == 1 {
        assert(s.drop_last() =~= Seq::empty());
        assert(s.drop_first() =~= Seq::empty());
        let one = wire::string_bytes(s[0]);
        assert(Seq::<u8>::empty() + one =~= one + Seq::<u8>::empty());
    } else {
        lemma_filters_front(s.drop_last());
        assert(s.drop_last().drop_first() =~= s.drop_first().drop_last());
        let one = wire::string_bytes(s[0]);
        let last = wire::string_bytes(s.last());
        let between = wire::filters_bytes(s.drop_first().drop_last());
        assert((one + between) + last =~= one + (between + last));
    }
}

/// Filters are read back from where they begin.
proof fn lemma_filters_read_back(body: Seq<u8>, i: int, s: Seq<Seq<char>>)
    requires
        0 <= i <= body.len(),
        body.skip(i) == wire::filters_bytes(s),
        forall|n: int| 0 <= n < s.len() ==> wire::valid_topic_filter(#[trigger] s[n]),
    ensures
        wire::decoded_filters(body, i) == Some(s),
    decreases s.len(),
{
    if s.len() == 0 {
        assert(body.skip(i).len() == 0);
        assert(s =~= Seq::empty());
    } else {
        lemma_filters_front(s);
        let filter = s[0];
        let t = wire::string_bytes(filter);
        let rest = wire::filters_bytes(s.drop_first());
        let j = i + t.len();
        assert(body.skip(i).len() == t.len() + rest.len());
        let here = body.skip(i);
        assert(here == t + rest);
        assert(body.subrange(i, j) =~= here.take(t.len() as int));
        assert((t + rest).take(t.len() as int) =~= t);
        lemma_take_string(body, i, filter);
        assert(body.skip(j) =~= here.skip(t.len() as int));
        assert((t + rest).skip(t.len() as int) =~= rest);
        lemma_filters_read_back(body, j, s.drop_first());
        assert(seq![filter] + s.drop_first() =~= s);
    }
}

/// A packet that can be written: its topics, filters and codes are valid and its length fits a
/// header.
pub open spec fn writable(p: PacketModel) -> bool {
    &&& wire::encodable(p)
    &&& wire::packet_body(p).len() <= wire::MAX_REMAINING_LENGTH
    &&& p matches PacketModel::Publish(m) ==> wire::valid_topic_name(m.topic)
    &&& p matches PacketModel::Suback(m) ==> forall|i: int|
        0 <= i < m.codes.len() ==> wire::valid_return_code(#[trigger] m.codes[i])
}

/// A packet's bytes are its first byte and its body, framed.
proof fn lemma_packet_is_framed(p: PacketModel)
    ensures
        wire::packet_bytes(p) == wire::framed(wire::packet_first(p), wire::packet_body(p)),
{
    assert(wire::varint(0) =~= seq![0u8]);
    assert(wire::varint(2) =~= seq![2u8]);
    assert(wire::packet_bytes(p) =~= wire::framed(wire::packet_first(p), wire::packet_body(p)));
}

/// An identifier is read back.
proof fn lemma_pkid_read_back(pkid: u16, rest: Seq<u8>)
    ensures
        wire::read16(wire::be16(pkid as int) + rest, 0) == pkid,
        (wire::be16(pkid as int) + rest).skip(2) == rest,
{
    lemma_be16(pkid as int);
    assert((wire::be16(pkid as int) + rest).skip(2) =~= rest);
}

/// The return codes of a SUBACK packet are read back.
proof fn lemma_suback_read_back(m: SubackModel)
    requires
        forall|i: int| 0 <= i < m.codes.len() ==> wire::valid_return_code(#[trigger] m.codes[i]),
    ensures
        wire::decoded_suback(wire::be16(m.pkid as int) + m.codes) == Some(m),
{
    let body = wire::be16(m.pkid as int) + m.codes;
    lemma_pkid_read_back(m.pkid, m.codes);
    assert forall|i: int| 2 <= i < body.len() implies wire::valid_return_code(
        #[trigger] body[i],
    ) by {
        assert(body[i] == m.codes[i - 2]);
    }
}

/// The filters of a SUBSCRIBE packet are read back.
proof fn lemma_subscribe_read_back(m: SubscribeModel)
    requires
        wire::subscribe_encodable(m),
    ensures
        wire::decoded_subscribe(wire::be16(m.pkid as int) + wire::subscriptions_bytes(m.subscribes))
            == Some(m),
{
    let body = wire::be16(m.pkid as int) + wire::subscriptions_bytes(m.subscribes);
    lemma_pkid_read_back(m.pkid, wire::subscriptions_bytes(m.subscribes));
    lemma_subscriptions_read_back(body, 2, m.subscribes);
}

/// The filters of an UNSUBSCRIBE packet are read back.
proof fn lemma_unsubscribe_read_back(m: UnsubscribeModel)
    requires
        wire::unsubscribe_encodable(m),
    ensures
        wire::decoded_unsubscribe(wire::be16(m.pkid as int) + wire::filters_bytes(m.filters))
            == Some(m),
{
    let body = wire::be16(m.pkid as int) + wire::filters_bytes(m.filters);
    lemma_pkid_read_back(m.pkid, wire::filters_bytes(m.filters));
    lemma_filters_read_back(body, 2, m.filters);
}

/// How a packet is read that is not an acknowledgement.
proof fn lemma_decoded(first: u8, body: Seq<u8>)
    ensures
        first / 16 == 1 && wire::decoded_connect(body) is Some ==> wire::decoded(first, body)
            == Some(PacketModel::Connect(wire::decoded_connect(body)->0)),
        first / 16 == 3 && wire::decoded_publish(first, body) is Some ==> wire::decoded(first, body)
            == Some(PacketModel::Publish(wire::decoded_publish(first, body)->0)),
        first / 16 == 8 && wire::decoded_subscribe(body) is Some ==> wire::decoded(first, body)
            == Some(PacketModel::Subscribe(wire::decoded_subscribe(body)->0)),
        first / 16 == 9 && wire::decoded_suback(body) is Some ==> wire::decoded(first, body)
            == Some(PacketModel::Suback(wire::decoded_suback(body)->0)),
        first / 16 == 10 && wire::decoded_unsubscribe(body) is Some ==> wire::decoded(first, body)
            == Some(PacketModel::Unsubscribe(wire::decoded_unsubscribe(body)->0)),
{
    reveal(wire::decoded);
}

/// The packets other than acknowledgements are read back.
proof fn lemma_large_read_back(p: PacketModel)
    requires
        writable(p),
        p is Connect || p is Publish || p is Subscribe || p is Unsubscribe || p is Suback,
    ensures
        wire::valid_first(wire::packet_first(p)),
        wire::decoded(wire::packet_first(p), wire::packet_body(p)) == Some(p),
{
    lemma_decoded(wire::packet_first(p), wire::packet_body(p));
    match p {
        PacketModel::Connect(c) => lemma_connect_read_back(c),
        PacketModel::Publish(m) => lemma_publish_read_back(m),
        PacketModel::Subscribe(m) => lemma_subscribe_read_back(m),
        PacketModel::Unsubscribe(m) => lemma_unsubscribe_read_back(m),
        PacketModel::Suback(m) => lemma_suback_read_back(m),
        _ => {},
    }
}

/// The packets that hold at most two bytes are read back.
proof fn lemma_small_read_back(p: PacketModel)
    requires
        !(p is Connect || p is Publish || p is Subscribe || p is Unsubscribe || p is Suback),
    ensures
        wire::valid_first(wire::packet_first(p)),
        wire::decoded(wire::packet_first(p), wire::packet_body(p)) == Some(p),
{
    reveal(wire::decoded);
    match p {
        PacketModel::Puback(pkid) => lemma_be16(pkid as int),
        PacketModel::Pubrec(pkid) => lemma_be16(pkid as int),
        PacketModel::Pubrel(pkid) => lemma_be16(pkid as int),
        PacketModel::Pubcomp(pkid) => lemma_be16(pkid as int),
        PacketModel::Unsuback(pkid) => lemma_be16(pkid as int),
        _ => {},
    }
}

/// Law: what was written is read back. A packet's bytes at the front of a byte stream are cut off as
/// one packet, which is read as the packet that was written, whatever follows.
pub proof fn law_written_packet_is_read_back(p: PacketModel, rest: Seq<u8>)
    requires
        writable(p),
    ensures
        ({
            let whole = wire::frames(wire::packet_bytes(p) + rest, None);
            let after = wire::frames(rest, None);
            &&& whole.packets.len() == 1 + after.packets.len()
            &&& wire::decoded(whole.packets[0].0, whole.packets[0].1) == Some(p)
            &&& whole.packets.drop_first() == after.packets
            &&& whole.rest == after.rest
            &&& whole.header == after.header
            &&& whole.end == after.end
        }),
        wire::next_frame(wire::packet_bytes(p) + rest, None).0 matches NextFrame::Packet(
            first,
            body,
        ) && wire::decoded(first, body) == Some(p),
        wire::next_frame(wire::packet_bytes(p) + rest, None).1 == rest,
        wire::next_frame(wire::packet_bytes(p) + rest, None).2 is None,
{
    lemma_packet_is_framed(p);
    if p is Connect || p is Publish || p is Subscribe || p is Unsubscribe || p is Suback {
        lemma_large_read_back(p);
    } else {
        lemma_small_read_back(p);
    }
    let first = wire::packet_first(p);
    let body = wire::packet_body(p);
    law_framed_packet_is_cut_off(first, body, rest);
    let after = wire::frames(rest, None);
    assert((seq![(first, body)] + after.packets).drop_first() =~= after.packets);
}

/// Law: the bytes of two different packets differ.
pub proof fn law_different_packets_differ(p: PacketModel, q: PacketModel)
    requires
        writable(p),
        writable(q),
        p != q,
    ensures
        wire::packet_bytes(p) != wire::packet_bytes(q),
{
    law_written_packet_is_read_back(p, Seq::empty());
    law_written_packet_is_read_back(q, Seq::empty());
}

/// Packets with different first bytes differ.
pub proof fn lemma_first_bytes_differ(p: PacketModel, q: PacketModel)
    requires
        wire::packet_first(p) != wire::packet_first(q),
    ensures
        wire::packet_bytes(p) != wire::packet_bytes(q),
{
    lemma_packet_is_framed(p);
    lemma_packet_is_framed(q);
    assert(wire::packet_bytes(p)[0] == wire::packet_first(p));
    assert(wire::packet_bytes(q)[0] == wire::packet_first(q));
}

} // verus!
