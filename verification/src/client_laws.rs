//! What holds of the clients, of what they are told on the command line, and of the texts involved.
use vstd::prelude::*;
use vstd::utf8::*;

use crate::client;
use crate::client::ClientModel;
use crate::mqttc;
use crate::mqttc::{CommandModel, Mailbox, Refusal};
use crate::net;
use crate::qos::{QoSWithPacketIdentifier, QualityOfService};
use crate::text;
use crate::wire;
use crate::wire::{NextFrame, PacketModel, PublishModel};
use crate::wire_laws;

verus! {

/// `true` iff `sep` stands at `i` in `s`.
pub open spec fn stands_at(s: Seq<char>, sep: Seq<char>, i: int) -> bool {
    0 <= i && i + sep.len() <= s.len() && s.subrange(i, i + sep.len()) == sep
}

/// Law: a text is split where the separator first stands in it, and only there: what is before it,
/// the separator and what is behind it make up the text.
pub proof fn law_text_is_split_at_the_first(s: Seq<char>, sep: Seq<char>)
    ensures
        match text::split_once(s, sep) {
            Some((before, after)) => {
                &&& s == before + sep + after
                &&& stands_at(s, sep, before.len() as int)
                &&& forall|i: int| 0 <= i < before.len() ==> !#[trigger] stands_at(s, sep, i)
            },
            None => forall|i: int| !#[trigger] stands_at(s, sep, i),
        },
    decreases s.len(),
{
    if text::begins_with(s, sep) {
        assert(s.subrange(0, sep.len() as int) =~= s.take(sep.len() as int));
        assert(s =~= Seq::<char>::empty() + sep + s.skip(sep.len() as int));
        assert(stands_at(s, sep, 0));
    } else {
        assert(!stands_at(s, sep, 0)) by {
            if stands_at(s, sep, 0) {
                assert(s.take(sep.len() as int) =~= s.subrange(0, sep.len() as int));
            }
        }
        if s.len() == 0 {
            assert forall|i: int| !#[trigger] stands_at(s, sep, i) by {
                if stands_at(s, sep, i) {
                    assert(i == 0);
                }
            }
        } else {
            let rest = s.drop_first();
            law_text_is_split_at_the_first(rest, sep);
            assert forall|i: int| i >= 1 implies #[trigger] stands_at(s, sep, i) == stands_at(
                rest,
                sep,
                i - 1,
            ) by {
                if i + sep.len() <= s.len() {
                    assert(s.subrange(i, i + sep.len()) =~= rest.subrange(
                        i - 1,
                        i - 1 + sep.len(),
                    ));
                }
            }
            match text::split_once(rest, sep) {
                Some((before, after)) => {
                    let longer = seq![s[0]] + before;
                    assert(s =~= longer + sep + after) by {
                        assert(s =~= seq![s[0]] + rest);
                    }
                    assert(stands_at(s, sep, longer.len() as int));
                    assert forall|i: int| 0 <= i < longer.len() implies !#[trigger] stands_at(
                        s,
                        sep,
                        i,
                    ) by {
                        if i >= 1 {
                            assert(!stands_at(rest, sep, i - 1));
                        }
                    }
                },
                None => {
                    assert forall|i: int| !#[trigger] stands_at(s, sep, i) by {
                        if i >= 1 {
                            assert(!stands_at(rest, sep, i - 1));
                        }
                    }
                },
            }
        }
    }
}

/// `true` iff the server stands in the URL behind the scheme, with no `://` before it but the one
/// behind the scheme, and nothing or another `://` behind it.
pub open spec fn is_server(
    url: Seq<char>,
    scheme: Seq<char>,
    server: Seq<char>,
    more: Seq<char>,
) -> bool {
    &&& url == scheme + "://"@ + server + more
    &&& forall|i: int| 0 <= i < scheme.len() ==> !#[trigger] stands_at(url, "://"@, i)
    &&& forall|i: int|
        0 <= i < server.len() ==> !#[trigger] stands_at(server + more, "://"@, i)
    &&& more.len() == 0 || stands_at(more, "://"@, 0)
}

/// What stands around the server.
proof fn lemma_server(url: Seq<char>) -> (around: (Seq<char>, Seq<char>))
    requires
        net::after_scheme(url) is Some,
    ensures
        is_server(url, around.0, net::after_scheme(url)->0, around.1),
{
    let sep = "://"@;
    law_text_is_split_at_the_first(url, sep);
    let (scheme, rest) = text::split_once(url, sep)->0;
    law_text_is_split_at_the_first(rest, sep);
    match text::split_once(rest, sep) {
        Some((server, tail)) => {
            let more = sep + tail;
            assert(more.subrange(0, sep.len() as int) =~= sep);
            assert(rest =~= server + more);
            assert(url =~= scheme + sep + server + more);
            (scheme, more)
        },
        None => {
            let more = Seq::<char>::empty();
            assert(rest =~= rest + more);
            assert(url =~= scheme + sep + rest + more);
            (scheme, more)
        },
    }
}

/// Law: a client connects to what stands in a URL behind the first `://`, up to the next or to the
/// end; without any there is no server.
pub proof fn law_server_stands_behind_the_scheme(url: Seq<char>)
    ensures
        net::after_scheme(url) is Some ==> exists|scheme: Seq<char>, more: Seq<char>| #[trigger]
            is_server(url, scheme, net::after_scheme(url)->0, more),
        net::after_scheme(url) is None ==> forall|i: int| !#[trigger] stands_at(url, "://"@, i),
{
    law_text_is_split_at_the_first(url, "://"@);
    if net::after_scheme(url) is Some {
        let (scheme, more) = lemma_server(url);
        assert(is_server(url, scheme, net::after_scheme(url)->0, more));
    }
}

/// Law: what is left of a text without the white space around it stands in the text with nothing but
/// white space on both sides, and neither begins nor ends with any.
pub proof fn law_white_space_is_taken_away(s: Seq<char>)
    ensures
        ({
            let t = text::trimmed(s);
            &&& t.len() > 0 ==> !text::is_white(t[0]) && !text::is_white(t.last())
            &&& exists|i: int, j: int|
                {
                    &&& 0 <= i <= j <= s.len()
                    &&& t == #[trigger] s.subrange(i, j)
                    &&& forall|k: int| 0 <= k < i ==> text::is_white(#[trigger] s[k])
                    &&& forall|k: int| j <= k < s.len() ==> text::is_white(#[trigger] s[k])
                }
        }),
{
    let i = lemma_trimmed_start(s);
    let start = text::trimmed_start(s);
    let j = lemma_trimmed_end(start);
    let t = text::trimmed(s);
    assert(t =~= s.subrange(i, i + j));
    assert forall|k: int| i + j <= k < s.len() implies text::is_white(#[trigger] s[k]) by {
        assert(start[k - i] == s[k]);
    }
    if t.len() > 0 {
        assert(t[0] == start[0]);
    }
}

proof fn lemma_trimmed_start(s: Seq<char>) -> (i: int)
    ensures
        0 <= i <= s.len(),
        text::trimmed_start(s) == s.skip(i),
        forall|k: int| 0 <= k < i ==> text::is_white(#[trigger] s[k]),
        i < s.len() ==> !text::is_white(s[i]),
    decreases s.len(),
{
    if s.len() > 0 && text::is_white(s[0]) {
        let i = lemma_trimmed_start(s.drop_first());
        assert(s.drop_first().skip(i) =~= s.skip(i + 1));
        assert forall|k: int| 0 <= k < i + 1 implies text::is_white(#[trigger] s[k]) by {
            if k > 0 {
                assert(s.drop_first()[k - 1] == s[k]);
            }
        }
        i + 1
    } else {
        assert(s.skip(0) =~= s);
        0
    }
}

proof fn lemma_trimmed_end(s: Seq<char>) -> (j: int)
    ensures
        0 <= j <= s.len(),
        text::trimmed_end(s) == s.take(j),
        forall|k: int| j <= k < s.len() ==> text::is_white(#[trigger] s[k]),
        j > 0 ==> !text::is_white(s[j - 1]),
    decreases s.len(),
{
    if s.len() > 0 && text::is_white(s.last()) {
        let j = lemma_trimmed_end(s.drop_last());
        assert(s.drop_last().take(j) =~= s.take(j));
        assert forall|k: int| j <= k < s.len() implies text::is_white(#[trigger] s[k]) by {
            if k < s.len() - 1 {
                assert(s.drop_last()[k] == s[k]);
            }
        }
        j
    } else {
        assert(s.take(s.len() as int) =~= s);
        s.len() as int
    }
}

/// Law: a client says of itself, when it connects, what it was made with: its identifier, whether its
/// session is to be clean, the lower sixteen bits of its time, and its last will with level and flag;
/// the level is zero and the flag off where nothing was given, or there is no will. The server reads
/// just that.
pub proof fn law_client_says_what_it_was_made_with(c: ClientModel, rest: Seq<u8>)
    ensures
        ({
            let m = client::connect_model(c);
            &&& m.protocol_name == "MQTT"@
            &&& m.client_identifier == c.client_identifier
            &&& m.clean_session == c.clean_session
            &&& m.keep_alive == c.keep_alive % 65536
            &&& m.will == c.will
            &&& c.will is None ==> m.will_qos == 0 && !m.will_retain
            &&& c.will is Some ==> Some(m.will_qos) == (if c.will_qos is Some {
                c.will_qos
            } else {
                Some(0u8)
            })
            &&& c.will is Some ==> m.will_retain == (c.will_retain is Some && c.will_retain->0)
            &&& wire_laws::writable(PacketModel::Connect(m)) ==> {
                &&& wire::next_frame(wire::connect_bytes(m) + rest, None).0
                    matches NextFrame::Packet(first, body)
                &&& wire::decoded(first, body) == Some(PacketModel::Connect(m))
            }
        }),
{
    let m = client::connect_model(c);
    if wire_laws::writable(PacketModel::Connect(m)) {
        wire_laws::law_written_packet_is_read_back(PacketModel::Connect(m), rest);
    }
}

/// Law: a client publishes what it is asked to: topic and payload, at the level with the given number
/// and, above level zero, under the identifier, with the given flags.
pub proof fn law_client_publishes_what_it_is_asked_to(
    topic: Seq<char>,
    payload: Seq<u8>,
    qos: u32,
    pkid: u16,
    retain: bool,
    dup: bool,
)
    requires
        qos <= 2,
    ensures
        ({
            let m = client::message(topic, payload, qos, pkid, retain, dup);
            &&& m.topic == topic
            &&& m.payload == payload
            &&& m.retain == retain
            &&& m.dup == dup
            &&& match m.qos {
                QoSWithPacketIdentifier::Level0 => qos == 0,
                QoSWithPacketIdentifier::Level1(k) => qos == 1 && k == pkid,
                QoSWithPacketIdentifier::Level2(k) => qos == 2 && k == pkid,
            }
        }),
{
}

/// Law: a client subscribes to the filters that it is given, in order, each at the level with the
/// number that it is given with it.
pub proof fn law_client_subscribes_as_it_is_asked_to(s: Seq<(&str, u32)>, i: int)
    requires
        0 <= i < s.len(),
        s[i].1 <= 2,
    ensures
        client::requested(s).len() == s.len(),
        client::requested(s)[i].0 == s[i].0@,
        match client::requested(s)[i].1 {
            QualityOfService::Level0 => s[i].1 == 0,
            QualityOfService::Level1 => s[i].1 == 1,
            QualityOfService::Level2 => s[i].1 == 2,
        },
{
}

/// Law: a client sends nothing before it has connected, and from then on all that it is given.
pub proof fn law_client_sends_once_it_has_connected(c: ClientModel, bytes: Seq<u8>)
    ensures
        !c.started ==> client::sent(c, bytes) is None,
        c.started ==> client::sent(c, bytes) == Some(bytes),
{
}

/// Law: the user gets every packet that can be read, but for the answers to pings where these are to
/// be ignored.
pub proof fn law_user_gets_every_packet(packet: PacketModel, ignore_pingresp: bool)
    ensures
        client::passed(Some(packet), ignore_pingresp) == (if packet is Pingresp && ignore_pingresp {
            None
        } else {
            Some(packet)
        }),
        client::passed(None, ignore_pingresp) is None,
{
}

/// Law: a message goes behind those that wait under its topic, and under no other.
pub proof fn law_messages_wait_in_order(mailbox: Mailbox, p: PublishModel, topic: Seq<char>)
    ensures
        ({
            let after = mqttc::posted(mailbox, p);
            let before = if mailbox.contains_key(p.topic) {
                mailbox[p.topic]
            } else {
                Seq::empty()
            };
            &&& after.contains_key(p.topic)
            &&& after[p.topic] == before.push(p)
            &&& topic != p.topic ==> after.contains_key(topic) == mailbox.contains_key(topic)
                && after[topic] == mailbox[topic]
        }),
{
    assert(Seq::<PublishModel>::empty().push(p) =~= seq![p]);
}

/// Law: a text is published as its bytes, at level zero, under the topic and with the flag that are
/// given; but for one word, which stands for no bytes at all.
pub proof fn law_text_is_published_as_its_bytes(topic: Seq<char>, message: Seq<char>, retain: bool)
    ensures
        ({
            let m = mqttc::text_message(topic, message, retain);
            &&& m.topic == topic
            &&& m.retain == retain
            &&& !m.dup
            &&& m.qos is Level0
            &&& message == "EMPTY"@ ==> m.payload.len() == 0
            &&& message != "EMPTY"@ ==> m.payload == encode_utf8(message)
        }),
{
}

/// Law: a command is completed to those that begin with what was typed, and to no others.
pub proof fn law_commands_are_completed(commands: Seq<&'static str>, line: Seq<char>, c: Seq<char>)
    ensures
        mqttc::completions(commands, line).contains(c) <==> line.len() <= c.len() && c.take(
            line.len() as int,
        ) == line && exists|i: int| 0 <= i < commands.len() && (#[trigger] commands[i])@ == c,
    decreases commands.len(),
{
    let all = mqttc::completions(commands, line);
    if commands.len() > 0 {
        let before = commands.drop_last();
        let front = mqttc::completions(before, line);
        law_commands_are_completed(before, line, c);
        if all.contains(c) {
            let n = all.index_of(c);
            if n < front.len() {
                assert(front[n] == c);
                let i = choose|i: int| 0 <= i < before.len() && (#[trigger] before[i])@ == c;
                assert(commands[i]@ == c);
            } else {
                assert(commands[commands.len() - 1]@ == c);
            }
        }
        if line.len() <= c.len() && c.take(line.len() as int) == line && exists|i: int|
            0 <= i < commands.len() && (#[trigger] commands[i])@ == c {
            let i = choose|i: int| 0 <= i < commands.len() && (#[trigger] commands[i])@ == c;
            if i < before.len() {
                assert(before[i]@ == c);
                assert(all[front.index_of(c)] == c);
            } else {
                assert(all[all.len() - 1] == c);
            }
        }
    }
}

/// A piece more.
proof fn lemma_one_more_piece(s: Seq<char>, t: Seq<char>, sep: char)
    requires
        !t.contains(sep),
    ensures
        text::pieces(s.push(sep) + t, sep) == text::pieces(s, sep).push(t),
    decreases t.len(),
{
    let whole = s.push(sep) + t;
    if t.len() == 0 {
        assert(whole =~= s.push(sep));
        assert(whole.drop_last() =~= s);
        assert(t =~= Seq::empty());
    } else {
        let front = t.drop_last();
        assert(t[t.len() - 1] != sep);
        assert(!front.contains(sep)) by {
            if front.contains(sep) {
                assert(t[front.index_of(sep)] == sep);
            }
        }
        lemma_one_more_piece(s, front, sep);
        assert(whole.drop_last() =~= s.push(sep) + front);
        assert(whole.last() == t.last());
        assert(front.push(t.last()) =~= t);
        let before = text::pieces(s, sep).push(front);
        assert(before.drop_last() =~= text::pieces(s, sep));
    }
}

proof fn lemma_one_piece(t: Seq<char>, sep: char)
    requires
        !t.contains(sep),
    ensures
        text::pieces(t, sep) == seq![t],
    decreases t.len(),
{
    if t.len() == 0 {
        assert(t =~= Seq::empty());
    } else {
        let front = t.drop_last();
        assert(t[t.len() - 1] != sep);
        assert(!front.contains(sep)) by {
            if front.contains(sep) {
                assert(t[front.index_of(sep)] == sep);
            }
        }
        lemma_one_piece(front, sep);
        assert(front.push(t.last()) =~= t);
        assert(seq![front].drop_last().push(t) =~= seq![t]);
    }
}

/// Law: `publish` takes a topic, a message of one word and, if one is given, a word that says whether
/// the message is to be retained: `1`, `true` or `yes` do.
pub proof fn law_publish_takes_topic_message_and_flag(
    args: Seq<char>,
    topic: Seq<char>,
    message: Seq<char>,
    flag: Option<Seq<char>>,
)
    requires
        !topic.contains(' '),
        !message.contains(' '),
        flag matches Some(word) ==> !word.contains(' '),
        wire::valid_topic_name(topic),
        text::trimmed(args) == (match flag {
            Some(word) => topic.push(' ') + message.push(' ') + word,
            None => topic.push(' ') + message,
        }),
    ensures
        mqttc::command("publish"@, Some(args)) == CommandModel::Publish(
            topic,
            message,
            match flag {
                Some(word) => word == "1"@ || word == "true"@ || word == "yes"@,
                None => false,
            },
        ),
{
    lemma_command_names();
    lemma_one_piece(topic, ' ');
    lemma_one_more_piece(topic, message, ' ');
    if let Some(word) = flag {
        lemma_one_more_piece(topic.push(' ') + message, word, ' ');
        assert(topic.push(' ') + message.push(' ') + word =~= (topic.push(' ') + message).push(' ')
            + word);
    }
}

/// Law: `get` takes a topic and, if one is given, how many messages; one where that is no number.
pub proof fn law_get_takes_topic_and_count(
    args: Seq<char>,
    topic: Seq<char>,
    count: Option<Seq<char>>,
)
    requires
        !topic.contains(' '),
        count matches Some(word) ==> !word.contains(' '),
        wire::valid_topic_name(topic),
        args == (match count {
            Some(word) => topic.push(' ') + word,
            None => topic,
        }),
    ensures
        mqttc::command("get"@, Some(args)) == CommandModel::Get(
            topic,
            match count {
                Some(word) => match text::usize_of(word) {
                    Some(n) => n,
                    None => 1,
                },
                None => 1,
            },
        ),
{
    lemma_command_names();
    lemma_one_piece(topic, ' ');
    if let Some(word) = count {
        lemma_one_more_piece(topic, word, ' ');
    }
}

/// Law: `subscribe` takes what is given, without the white space around it, if it is a filter;
/// `unsubscribe` takes it whatever it is, and `all` for everything.
pub proof fn law_subscribe_and_unsubscribe_take_a_topic(args: Seq<char>)
    ensures
        ({
            let topic = text::trimmed(args);
            &&& mqttc::command("subscribe"@, Some(args)) == (if wire::valid_topic_filter(topic) {
                CommandModel::Subscribe(topic)
            } else {
                CommandModel::Refused(Refusal::BadFilter)
            })
            &&& topic == "all"@ ==> mqttc::command("unsubscribe"@, Some(args))
                == CommandModel::UnsubscribeAll
            &&& topic != "all"@ ==> mqttc::command("unsubscribe"@, Some(args))
                == CommandModel::Unsubscribe(topic)
        }),
{
    lemma_command_names();
}

/// Law: a line is a command's name and, behind the first space, what the command is given. White space
/// around the line does not count.
pub proof fn law_line_is_name_and_arguments(line: Seq<char>, name: Seq<char>, args: Seq<char>)
    requires
        !name.contains(' '),
        text::trimmed(line) == name.push(' ') + args || text::trimmed(line) == name,
    ensures
        mqttc::line_command(line) == (if text::trimmed(line) == name {
            mqttc::command(name, None)
        } else {
            mqttc::command(name, Some(args))
        }),
{
    let t = text::trimmed(line);
    let space = " "@;
    reveal_strlit(" ");
    assert(space =~= seq![' ']);
    law_text_is_split_at_the_first(t, space);
    match text::split_once(t, space) {
        Some((before, after)) => {
            let n = before.len() as int;
            assert(t[n] == space[0]) by {
                assert(t.subrange(n, n + 1)[0] == t[n]);
            }
            if t == name {
                assert(name[n] == ' ');
                assert(name.contains(' '));
            } else {
                if n < name.len() {
                    assert(name[n] == t[n]);
                    assert(name.contains(' '));
                }
                if n > name.len() {
                    assert(t[name.len() as int] == ' ');
                    assert(t.subrange(name.len() as int, name.len() as int + 1) =~= space);
                    assert(stands_at(t, space, name.len() as int));
                }
                assert(before =~= name) by {
                    assert(forall|i: int| 0 <= i < n ==> before[i] == t[i]);
                    assert(forall|i: int| 0 <= i < n ==> name[i] == t[i]);
                }
                assert(after =~= args) by {
                    assert(forall|i: int| 0 <= i < after.len() ==> after[i] == t[n + 1 + i]);
                    assert(forall|i: int| 0 <= i < args.len() ==> args[i] == t[n + 1 + i]);
                }
            }
        },
        None => {
            if t != name {
                assert(t.subrange(name.len() as int, name.len() as int + 1) =~= space);
                assert(stands_at(t, space, name.len() as int));
            }
        },
    }
}

/// The names of the commands are different.
proof fn lemma_command_names()
    ensures
        mqttc::CMD_STATUS@ == "status"@,
        mqttc::CMD_GET@ == "get"@,
        mqttc::CMD_SUBSCRIBE@ == "subscribe"@,
        mqttc::CMD_UNSUBSCRIBE@ == "unsubscribe"@,
        mqttc::CMD_PUBLISH@ == "publish"@,
        "get"@ != "status"@,
        "subscribe"@ != "status"@ && "subscribe"@ != "get"@,
        "unsubscribe"@ != "status"@ && "unsubscribe"@ != "get"@ && "unsubscribe"@ != "subscribe"@,
        "publish"@ != "status"@ && "publish"@ != "get"@ && "publish"@ != "subscribe"@ && "publish"@
            != "unsubscribe"@,
{
    reveal_strlit("status");
    reveal_strlit("get");
    reveal_strlit("subscribe");
    reveal_strlit("unsubscribe");
    reveal_strlit("publish");
    assert("get"@.len() == 3 && "status"@.len() == 6 && "subscribe"@.len() == 9 && "unsubscribe"@.len()
        == 11 && "publish"@.len() == 7);
}

} // verus!
