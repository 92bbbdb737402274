//! The command line client.
use vstd::prelude::*;
use vstd::string::*;
use vstd::utf8::*;

use crate::assoc::{AssocMap, Ident};
use crate::codec;
use crate::codec::ConnectFields;
use crate::packet;
use crate::packet::{
    ConnectPacket, PublishPacket, SubscribePacket, UnsubscribePacket, VariablePacket,
};
use crate::qos::{QoSWithPacketIdentifier, QualityOfService};
use crate::store;
use crate::text;
use crate::topic::{TopicFilter, TopicName};
use crate::wire;
use crate::wire::{ConnectModel, PacketModel, PublishModel, SubscribeModel, UnsubscribeModel};

verus! {

pub const CMD_STATUS: &'static str = "status";

pub const CMD_GET: &'static str = "get";

pub const CMD_SUBSCRIBE: &'static str = "subscribe";

pub const CMD_UNSUBSCRIBE: &'static str = "unsubscribe";

pub const CMD_PUBLISH: &'static str = "publish";

pub const CMD_HELP: &'static str = "help";

pub const CMD_EXIT: &'static str = "exit";

/// The commands that begin with `line`, in order.
pub open spec fn completions(commands: Seq<&'static str>, line: Seq<char>) -> Seq<Seq<char>>
    decreases commands.len(),
{
    if commands.len() == 0 {
        Seq::empty()
    } else {
        let front = completions(commands.drop_last(), line);
        if text::begins_with(commands.last()@, line) {
            front.push(commands.last()@)
        } else {
            front
        }
    }
}

/// Completes commands.
pub struct MyCompleter<'a> {
    pub commands: &'a Vec<&'static str>,
}

impl<'a> MyCompleter<'a> {
    pub fn new(commands: &'a Vec<&'static str>) -> (r: MyCompleter<'a>)
        ensures
            r.commands == commands,
    {
        MyCompleter { commands }
    }

    /// The commands that `line` can become, and where in the line they are to stand.
    pub fn complete(&self, line: &str) -> (r: (usize, Vec<String>))
        ensures
            r.0 == 0,
            text::views(r.1@) == completions(self.commands@, line@),
    {
        let mut results: Vec<String> = Vec::new();
        let mut i: usize = 0;
        assert(text::views(results@) =~= completions(self.commands@.take(0), line@));
        while i < self.commands.len()
            invariant
                i <= self.commands@.len(),
                text::views(results@) == completions(self.commands@.take(i as int), line@),
            decreases self.commands@.len() - i,
        {
            let command = self.commands[i];
            let ghost before = results@;
            assert(self.commands@.take(i + 1).drop_last() =~= self.commands@.take(i as int));
            if text::has_prefix(command, line) {
                results.push(command.to_owned());
                assert(text::views(results@) =~= text::views(before).push(command@));
            }
            i = i + 1;
        }
        assert(self.commands@.take(i as int) =~= self.commands@);
        (0, results)
    }
}

/// What to unsubscribe from.
pub enum UnsubscribeTopic {
    Normal(String),
    All,
}

/// Why a command is refused.
#[derive(Debug, PartialEq, Eq, Structural, Clone, Copy)]
pub enum Refusal {
    TopicMissing,
    FilterRequired,
    /// What is to be subscribed to is no filter.
    BadFilter,
    NotEnoughArguments,
    MessageMissing,
    /// What messages are asked for or published under is no name of a topic.
    BadTopic,
    UnknownCommand,
}

/// A command.
pub enum Command {
    Status,
    Get(TopicName, usize),
    Subscribe(TopicFilter),
    Unsubscribe(UnsubscribeTopic),
    /// The topic, the message and whether it is to be retained.
    Publish(TopicName, String, bool),
    Help,
    Exit,
    Refused(Refusal),
}

#[verifier::ext_equal]
pub enum CommandModel {
    Status,
    Get(Seq<char>, usize),
    Subscribe(Seq<char>),
    Unsubscribe(Seq<char>),
    UnsubscribeAll,
    Publish(Seq<char>, Seq<char>, bool),
    Help,
    Exit,
    Refused(Refusal),
}

impl View for Command {
    type V = CommandModel;

    open spec fn view(&self) -> CommandModel {
        match self {
            Command::Status => CommandModel::Status,
            Command::Get(topic, count) => CommandModel::Get(topic@, *count),
            Command::Subscribe(filter) => CommandModel::Subscribe(filter@),
            Command::Unsubscribe(UnsubscribeTopic::Normal(topic)) => CommandModel::Unsubscribe(
                topic@,
            ),
            Command::Unsubscribe(UnsubscribeTopic::All) => CommandModel::UnsubscribeAll,
            Command::Publish(topic, message, retain) => CommandModel::Publish(
                topic@,
                message@,
                *retain,
            ),
            Command::Help => CommandModel::Help,
            Command::Exit => CommandModel::Exit,
            Command::Refused(refusal) => CommandModel::Refused(*refusal),
        }
    }
}

/// `get`: a topic and how many messages, one where that is no number.
pub open spec fn get_command(args: Seq<char>) -> CommandModel {
    let parts = text::pieces(args, ' ');
    if !wire::valid_topic_name(parts[0]) {
        CommandModel::Refused(Refusal::BadTopic)
    } else {
        CommandModel::Get(
            parts[0],
            if parts.len() > 1 && text::usize_of(parts[1]) is Some {
                text::usize_of(parts[1])->0
            } else {
                1
            },
        )
    }
}

/// `subscribe`: a filter.
pub open spec fn subscribe_command(args: Seq<char>) -> CommandModel {
    let filter = text::trimmed(args);
    if wire::valid_topic_filter(filter) {
        CommandModel::Subscribe(filter)
    } else {
        CommandModel::Refused(Refusal::BadFilter)
    }
}

/// `unsubscribe`: a filter, or `all`.
pub open spec fn unsubscribe_command(args: Seq<char>) -> CommandModel {
    let topic = text::trimmed(args);
    if topic == "all"@ {
        CommandModel::UnsubscribeAll
    } else {
        CommandModel::Unsubscribe(topic)
    }
}

/// The words that say that a message is to be retained.
pub open spec fn says_retain(word: Seq<char>) -> bool {
    word == "1"@ || word == "true"@ || word == "yes"@
}

/// `publish`: a topic, a message of one word, and whether it is to be retained.
pub open spec fn publish_command(args: Seq<char>) -> CommandModel {
    let parts = text::pieces(text::trimmed(args), ' ');
    if parts.len() < 2 {
        CommandModel::Refused(Refusal::MessageMissing)
    } else if !wire::valid_topic_name(parts[0]) {
        CommandModel::Refused(Refusal::BadTopic)
    } else {
        CommandModel::Publish(parts[0], parts[1], parts.len() >= 3 && says_retain(parts[2]))
    }
}

/// The command with the given name and arguments, which are `None` where the name stands alone.
pub open spec fn command(name: Seq<char>, args: Option<Seq<char>>) -> CommandModel {
    if name == CMD_STATUS@ {
        CommandModel::Status
    } else if name == CMD_GET@ {
        match args {
            Some(args) => get_command(args),
            None => CommandModel::Refused(Refusal::TopicMissing),
        }
    } else if name == CMD_SUBSCRIBE@ {
        match args {
            Some(args) => subscribe_command(args),
            None => CommandModel::Refused(Refusal::FilterRequired),
        }
    } else if name == CMD_UNSUBSCRIBE@ {
        match args {
            Some(args) => unsubscribe_command(args),
            None => CommandModel::Refused(Refusal::FilterRequired),
        }
    } else if name == CMD_PUBLISH@ {
        match args {
            Some(args) => publish_command(args),
            None => CommandModel::Refused(Refusal::NotEnoughArguments),
        }
    } else if name == CMD_HELP@ {
        CommandModel::Help
    } else if name == CMD_EXIT@ {
        CommandModel::Exit
    } else {
        CommandModel::Refused(Refusal::UnknownCommand)
    }
}

/// The command in a line: its name up to the first space, its arguments behind it.
pub open spec fn line_command(line: Seq<char>) -> CommandModel {
    let line = text::trimmed(line);
    match text::split_once(line, " "@) {
        Some((name, args)) => command(name, Some(args)),
        None => command(line, None),
    }
}

fn parse_get(args: &str) -> (r: Command)
    ensures
        r@ == get_command(args@),
{
    let parts = text::split(args, ' ');
    assert(text::views(parts@)[0] == parts@[0]@);
    let topic = match TopicName::new(parts[0].as_str()) {
        Ok(topic) => topic,
        Err(_) => return Command::Refused(Refusal::BadTopic),
    };
    let mut count: usize = 1;
    if parts.len() > 1 {
        assert(text::views(parts@)[1] == parts@[1]@);
        if let Some(n) = text::parse_usize(parts[1].as_str()) {
            count = n;
        }
    }
    Command::Get(topic, count)
}

fn parse_subscribe(args: &str) -> (r: Command)
    ensures
        r@ == subscribe_command(args@),
{
    let args = text::trim(args);
    match TopicFilter::new_checked(args.as_str()) {
        Ok(filter) => Command::Subscribe(filter),
        Err(_) => Command::Refused(Refusal::BadFilter),
    }
}

fn parse_unsubscribe(args: &str) -> (r: Command)
    ensures
        r@ == unsubscribe_command(args@),
{
    let topic = text::trim(args);
    if text::same_text(topic.as_str(), "all") {
        Command::Unsubscribe(UnsubscribeTopic::All)
    } else {
        Command::Unsubscribe(UnsubscribeTopic::Normal(topic))
    }
}

fn parse_publish(args: &str) -> (r: Command)
    ensures
        r@ == publish_command(args@),
{
    let args = text::trim(args);
    let parts = text::split(args.as_str(), ' ');
    assert(text::views(parts@)[0] == parts@[0]@);
    if parts.len() < 2 {
        return Command::Refused(Refusal::MessageMissing);
    }
    assert(text::views(parts@)[1] == parts@[1]@);
    let topic = match TopicName::new(parts[0].as_str()) {
        Ok(topic) => topic,
        Err(_) => return Command::Refused(Refusal::BadTopic),
    };
    let mut retain = false;
    if parts.len() >= 3 {
        assert(text::views(parts@)[2] == parts@[2]@);
        let word = parts[2].as_str();
        retain = text::same_text(word, "1") || text::same_text(word, "true") || text::same_text(
            word,
            "yes",
        );
    }
    Command::Publish(topic, parts[1].clone(), retain)
}

fn parse_command(name: &str, args: Option<&str>) -> (r: Command)
    ensures
        r@ == command(
            name@,
            match args {
                Some(args) => Some(args@),
                None => None,
            },
        ),
{
    if text::same_text(name, CMD_STATUS) {
        return Command::Status;
    }
    if text::same_text(name, CMD_GET) {
        return match args {
            Some(args) => parse_get(args),
            None => Command::Refused(Refusal::TopicMissing),
        };
    }
    if text::same_text(name, CMD_SUBSCRIBE) {
        return match args {
            Some(args) => parse_subscribe(args),
            None => Command::Refused(Refusal::FilterRequired),
        };
    }
    if text::same_text(name, CMD_UNSUBSCRIBE) {
        return match args {
            Some(args) => parse_unsubscribe(args),
            None => Command::Refused(Refusal::FilterRequired),
        };
    }
    if text::same_text(name, CMD_PUBLISH) {
        return match args {
            Some(args) => parse_publish(args),
            None => Command::Refused(Refusal::NotEnoughArguments),
        };
    }
    if text::same_text(name, CMD_HELP) {
        Command::Help
    } else if text::same_text(name, CMD_EXIT) {
        Command::Exit
    } else {
        Command::Refused(Refusal::UnknownCommand)
    }
}

/// Reads the command in a line.
pub fn parse_line(line: &str) -> (r: Command)
    ensures
        r@ == line_command(line@),
{
    let line = text::trim(line);
    match text::split_at_first(line.as_str(), " ") {
        Some((name, args)) => parse_command(name.as_str(), Some(args.as_str())),
        None => parse_command(line.as_str(), None),
    }
}

/// `true` iff the character is a digit of a number in base sixteen, letters in lower case.
pub open spec fn is_hex(c: char) -> bool {
    '0' <= c <= '9' || 'a' <= c <= 'f'
}

/// `uuid::Uuid::new_v4` and its `simple` form: thirty-two digits in base sixteen. Which ones is up
/// to chance.
#[verifier::external_body]
fn new_uuid() -> (r: String)
    ensures
        r@.len() == 32,
        forall|i: int| 0 <= i < r@.len() ==> is_hex(#[trigger] r@[i]),
{
    uuid::Uuid::new_v4().simple().to_string()
}

/// The client identifier with the given ending.
pub fn client_id(ending: &str) -> (r: String)
    ensures
        r@ == "/MQTT/rust/"@ + ending@,
{
    "/MQTT/rust/".to_owned().concat(ending)
}

/// A new client identifier.
pub fn generate_client_id() -> (r: String)
    ensures
        exists|ending: Seq<char>|
            #![trigger "/MQTT/rust/"@ + ending]
            r@ == "/MQTT/rust/"@ + ending && ending.len() == 32 && forall|i: int|
                0 <= i < 32 ==> is_hex(#[trigger] ending[i]),
{
    let ending = new_uuid();
    client_id(ending.as_str())
}

/// How many seconds the broker is to wait for a sign of life.
pub const KEEP_ALIVE: u16 = 10;

/// The bytes that open the connection.
pub fn connect(client_id: &str) -> (r: Vec<u8>)
    requires
        encode_utf8(client_id@).len() <= 65535,
    ensures
        r@ == wire::connect_bytes(
            ConnectModel {
                protocol_name: "MQTT"@,
                client_identifier: client_id@,
                clean_session: true,
                keep_alive: KEEP_ALIVE,
                will: None,
                will_qos: 0,
                will_retain: false,
            },
        ),
{
    let fields = ConnectFields {
        protocol_name: "MQTT".to_owned(),
        client_identifier: client_id.to_owned(),
        clean_session: true,
        keep_alive: KEEP_ALIVE,
        will: None,
        will_qos: 0,
        will_retain: false,
    };
    proof {
        reveal_strlit("MQTT");
        assert(is_ascii_chars("MQTT"@));
        is_ascii_chars_encode_utf8("MQTT"@);
    }
    ConnectPacket::new(fields).encode()
}

/// The messages by topic.
pub type Mailbox = Map<Seq<char>, Seq<PublishModel>>;

/// What the client knows.
#[verifier::ext_equal]
pub struct LocalModel {
    pub pkid: u16,
    pub last_pingresp: Option<u64>,
    pub subscribes: Seq<(Seq<char>, QualityOfService)>,
    pub mailbox: Mailbox,
}

pub open spec fn subscribe_views(s: Seq<(TopicFilter, QualityOfService)>) -> Seq<
    (Seq<char>, QualityOfService),
> {
    s.map_values(|e: (TopicFilter, QualityOfService)| (e.0@, e.1))
}

/// What the client tells of itself: when the last ping was answered, what was subscribed to, how
/// many messages wait under each topic.
pub struct LocalStatus {
    pub last_pingresp: Option<u64>,
    pub subscribes: Vec<(TopicFilter, QualityOfService)>,
    pub counts: AssocMap<TopicName, usize>,
}

/// What the client does about a packet from the broker.
pub enum Reply {
    Nothing,
    Send(Vec<u8>),
    Stop,
}

/// What the client knows.
pub struct Local {
    pkid: u16,
    last_pingresp: Option<u64>,
    subscribes: Vec<(TopicFilter, QualityOfService)>,
    mailbox: AssocMap<TopicName, Vec<PublishPacket>>,
}

impl View for Local {
    type V = LocalModel;

    closed spec fn view(&self) -> LocalModel {
        LocalModel {
            pkid: self.pkid,
            last_pingresp: self.last_pingresp,
            subscribes: subscribe_views(self.subscribes@),
            mailbox: self.mailbox@.map_values(|v: Vec<PublishPacket>| store::publish_views(v@)),
        }
    }
}

/// The mailbox with one more message.
pub open spec fn posted(mailbox: Mailbox, p: PublishModel) -> Mailbox {
    mailbox.insert(
        p.topic,
        if mailbox.contains_key(p.topic) {
            mailbox[p.topic].push(p)
        } else {
            seq![p]
        },
    )
}

/// A message: `EMPTY` stands for none.
pub open spec fn text_message(topic: Seq<char>, message: Seq<char>, retain: bool) -> PublishModel {
    PublishModel {
        topic,
        qos: QoSWithPacketIdentifier::Level0,
        payload: if message == "EMPTY"@ {
            Seq::empty()
        } else {
            encode_utf8(message)
        },
        retain,
        dup: false,
    }
}

impl Local {
    pub fn new() -> (r: Local)
        ensures
            r@ == (LocalModel {
                pkid: 0,
                last_pingresp: None,
                subscribes: Seq::empty(),
                mailbox: Map::empty(),
            }),
    {
        let r = Local {
            pkid: 0,
            last_pingresp: None,
            subscribes: Vec::new(),
            mailbox: AssocMap::new(),
        };
        assert(r@.subscribes =~= Seq::empty());
        assert(r@.mailbox =~= Map::empty());
        r
    }

    /// The bytes that publish a message.
    pub fn publish(&self, topic_name: TopicName, msg: &str, retain: bool) -> (r: Vec<u8>)
        requires
            wire::valid_topic_name(topic_name@),
            packet::publish_fits(topic_name@, encode_utf8(msg@)),
        ensures
            r@ == wire::publish_bytes(text_message(topic_name@, msg@, retain)),
    {
        let payload = if text::same_text(msg, "EMPTY") {
            Vec::new()
        } else {
            msg.as_bytes_vec()
        };
        let mut packet = PublishPacket::new(topic_name, QoSWithPacketIdentifier::Level0, payload);
        packet.set_retain(retain);
        assert(packet@ =~= text_message(topic_name@, msg@, retain));
        packet.encode()
    }

    /// Subscribes: gives the bytes to send.
    pub fn subscribe(&mut self, topic_filter: TopicFilter, qos: QualityOfService) -> (r: Vec<u8>)
        requires
            old(self)@.pkid < 65535,
            wire::valid_topic_filter(topic_filter@),
        ensures
            final(self)@ == (LocalModel {
                pkid: (old(self)@.pkid + 1) as u16,
                subscribes: old(self)@.subscribes.push((topic_filter@, qos)),
                ..old(self)@
            }),
            r@ == wire::subscribe_bytes(
                SubscribeModel {
                    pkid: (old(self)@.pkid + 1) as u16,
                    subscribes: seq![(topic_filter@, qos)],
                },
            ),
    {
        self.pkid = self.pkid + 1;
        let packet = SubscribePacket {
            pkid: self.pkid,
            subscribes: vec![(topic_filter.0.clone(), qos)],
        };
        proof {
            reveal_with_fuel(wire::subscriptions_bytes, 2);
            assert(packet@.subscribes =~= seq![(topic_filter@, qos)]);
            assert(packet@.subscribes.drop_last() =~= Seq::empty());
        }
        let bytes = VariablePacket::SubscribePacket(packet).encode();
        self.subscribes.push((topic_filter, qos));
        assert(self@.subscribes =~= old(self)@.subscribes.push((topic_filter@, qos)));
        bytes
    }

    /// Unsubscribes: gives the bytes to send. A topic is sent as it stands, filter or not. `All` names
    /// no filter at all.
    pub fn unsubscribe(&mut self, topic: UnsubscribeTopic) -> (r: Vec<u8>)
        requires
            old(self)@.pkid < 65535,
            topic matches UnsubscribeTopic::Normal(t) ==> encode_utf8(t@).len() <= 65535,
        ensures
            final(self)@ == (LocalModel { pkid: (old(self)@.pkid + 1) as u16, ..old(self)@ }),
            r@ == wire::unsubscribe_bytes(
                UnsubscribeModel {
                    pkid: final(self)@.pkid,
                    filters: match topic {
                        UnsubscribeTopic::Normal(t) => seq![t@],
                        UnsubscribeTopic::All => Seq::empty(),
                    },
                },
            ),
    {
        self.pkid = self.pkid + 1;
        let filters: Vec<String> = match topic {
            UnsubscribeTopic::Normal(t) => {
                if !codec::is_topic_filter(t.as_str()) {
                    return packet::encode_unsubscribe_text(self.pkid, t.as_str());
                }
                let filters = vec![t];
                proof {
                    reveal_with_fuel(wire::filters_bytes, 2);
                    assert(text::views(filters@) =~= seq![t@]);
                    assert(text::views(filters@).drop_last() =~= Seq::empty());
                }
                filters
            },
            UnsubscribeTopic::All => {
                let filters = Vec::new();
                assert(text::views(filters@) =~= Seq::empty());
                filters
            },
        };
        let packet = UnsubscribePacket { pkid: self.pkid, filters };
        VariablePacket::UnsubscribePacket(packet).encode()
    }

    /// A packet from the broker: a message goes into the mailbox, a ping is answered, the time of an
    /// answer to a ping is kept, and at a DISCONNECT the client stops.
    pub fn receive(&mut self, packet: VariablePacket, now: u64) -> (r: Reply)
        ensures
            match packet@ {
                PacketModel::Publish(p) => r is Nothing && final(self)@ == (LocalModel {
                    mailbox: posted(old(self)@.mailbox, p),
                    ..old(self)@
                }),
                PacketModel::Pingreq => *final(self) == *old(self) && (r matches Reply::Send(bytes)
                    && bytes@ == wire::pingresp_bytes()),
                PacketModel::Pingresp => r is Nothing && final(self)@ == (LocalModel {
                    last_pingresp: Some(now),
                    ..old(self)@
                }),
                PacketModel::Disconnect => *final(self) == *old(self) && r is Stop,
                _ => *final(self) == *old(self) && r is Nothing,
            },
    {
        match packet {
            VariablePacket::PublishPacket(p) => {
                let topic = TopicName::new_unchecked(p.topic_name().to_owned());
                let mut messages = match self.mailbox.remove(&topic) {
                    Some(messages) => messages,
                    None => Vec::new(),
                };
                let ghost before = messages@;
                messages.push(p);
                assert(store::publish_views(messages@) =~= store::publish_views(before).push(p@));
                self.mailbox.insert(topic, messages);
                assert(Seq::empty().push(p@) =~= seq![p@]);
                assert(before.len() == 0 ==> store::publish_views(before) =~= Seq::empty());
                assert(self@.mailbox =~= posted(old(self)@.mailbox, p@));
                Reply::Nothing
            },
            VariablePacket::PingreqPacket => Reply::Send(codec::encode_pingresp()),
            VariablePacket::PingrespPacket => {
                self.last_pingresp = Some(now);
                Reply::Nothing
            },
            VariablePacket::DisconnectPacket => Reply::Stop,
            _ => Reply::Nothing,
        }
    }

    /// What the client tells of itself.
    pub fn status(&self) -> (r: LocalStatus)
        ensures
            r.last_pingresp == self@.last_pingresp,
            subscribe_views(r.subscribes@) == self@.subscribes,
            r.counts@.dom() == self@.mailbox.dom(),
            forall|topic: Seq<char>| #[trigger]
                r.counts@.contains_key(topic) ==> r.counts@[topic] == self@.mailbox[topic].len(),
    {
        let mut subscribes: Vec<(TopicFilter, QualityOfService)> = Vec::new();
        let mut i: usize = 0;
        while i < self.subscribes.len()
            invariant
                i <= self.subscribes@.len(),
                subscribe_views(subscribes@) == subscribe_views(self.subscribes@.take(i as int)),
            decreases self.subscribes@.len() - i,
        {
            let filter = self.subscribes[i].0.copy();
            let qos = self.subscribes[i].1;
            let ghost before = self.subscribes@.take(i as int);
            subscribes.push((filter, qos));
            assert(self.subscribes@.take(i + 1) =~= before.push(self.subscribes@[i as int]));
            assert(subscribe_views(subscribes@) =~= subscribe_views(before).push((filter@, qos)));
            assert(subscribe_views(before.push(self.subscribes@[i as int])) =~= subscribe_views(
                before,
            ).push((filter@, qos)));
            i = i + 1;
        }
        assert(self.subscribes@.take(i as int) =~= self.subscribes@);
        let mut counts: AssocMap<TopicName, usize> = AssocMap::new();
        let n: usize = self.mailbox.len();
        let ghost keys = self.mailbox.keys();
        i = 0;
        assert(counts@.dom() =~= keys.take(0).to_set());
        while i < n
            invariant
                i <= n == keys.len(),
                keys == self.mailbox.keys(),
                counts@.dom() == keys.take(i as int).to_set(),
                forall|topic: Seq<char>| #[trigger]
                    counts@.contains_key(topic) ==> counts@[topic] == self@.mailbox[topic].len(),
            decreases n - i,
        {
            let topic = self.mailbox.key_at(i);
            let messages = self.mailbox.value_at(i);
            counts.insert(topic.copy(), messages.len());
            proof {
                let before = keys.take(i as int);
                assert(keys.take(i + 1) =~= before.push(keys[i as int]));
                assert(before.push(keys[i as int]).to_set() =~= before.to_set().insert(
                    keys[i as int],
                )) by {
                    assert forall|k: Seq<char>|
                        before.push(keys[i as int]).contains(k) <==> before.contains(k) || k
                            == keys[i as int] by {
                        if before.contains(k) {
                            let j = before.index_of(k);
                            assert(before.push(keys[i as int])[j] == k);
                        }
                        assert(before.push(keys[i as int])[i as int] == keys[i as int]);
                    }
                }
            }
            i = i + 1;
        }
        proof {
            assert(keys.take(n as int) =~= keys);
            self.mailbox.lemma_keys();
            assert(counts@.dom() =~= self@.mailbox.dom());
        }
        LocalStatus { last_pingresp: self.last_pingresp, subscribes, counts }
    }

    /// Takes the oldest messages under a topic out of the mailbox, `count` of them or all there are.
    /// `None` where no message has ever come under it.
    pub fn get(&mut self, topic_name: &TopicName, count: usize) -> (r: Option<Vec<PublishPacket>>)
        ensures
            ({
                let mailbox = old(self)@.mailbox;
                let topic = topic_name@;
                if !mailbox.contains_key(topic) {
                    r is None && final(self)@ == old(self)@
                } else {
                    let messages = mailbox[topic];
                    let n = if messages.len() > count {
                        count as int
                    } else {
                        messages.len() as int
                    };
                    &&& r matches Some(taken)
                    &&& store::publish_views(taken@) == messages.take(n)
                    &&& final(self)@ == (LocalModel {
                        mailbox: mailbox.insert(topic, messages.skip(n)),
                        ..old(self)@
                    })
                }
            }),
    {
        match self.mailbox.remove(topic_name) {
            Some(messages) => {
                let mut messages = messages;
                let ghost all = messages@;
                let n: usize = if messages.len() > count {
                    count
                } else {
                    messages.len()
                };
                let rest = messages.split_off(n);
                self.mailbox.insert(topic_name.copy(), rest);
                proof {
                    assert(store::publish_views(messages@) =~= store::publish_views(all).take(
                        n as int,
                    ));
                    assert(store::publish_views(rest@) =~= store::publish_views(all).skip(n as int));
                    assert(self@.mailbox =~= old(self)@.mailbox.insert(
                        topic_name@,
                        store::publish_views(all).skip(n as int),
                    ));
                }
                Some(messages)
            },
            None => {
                assert(self@.mailbox =~= old(self)@.mailbox);
                None
            },
        }
    }
}

} // verus!
