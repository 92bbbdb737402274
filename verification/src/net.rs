//! Connections between hubs and the store, and between clients and hubs.
use bytes::BytesMut;
use vstd::prelude::*;
use vstd::string::*;

use crate::assoc::AssocMap;
use crate::buffer;
use crate::common::{CodecState, SocketAddr};
use crate::text;

verus! {

/// A message that comes from a connection.
pub trait MsgFromNet: Sized {
    /// `true` iff this is the message for bytes from a peer.
    spec fn is_data(&self, addr: SocketAddr, buf: Seq<u8>) -> bool;

    /// `true` iff this is the message for a peer that is gone.
    spec fn is_disconnect(&self, addr: SocketAddr, msg: Seq<char>) -> bool;

    fn data(addr: SocketAddr, buf: Vec<u8>) -> (r: Self)
        ensures
            r.is_data(addr, buf@),
    ;

    fn disconnect(addr: SocketAddr, msg: String) -> (r: Self)
        ensures
            r.is_disconnect(addr, msg@),
    ;
}

/// A message to a connection.
#[derive(Debug)]
pub enum ToNetMsg {
    Data(SocketAddr, Vec<u8>),
    Disconnect(SocketAddr, String),
}

/// What to do for a message to a connection.
pub enum NetAction<M> {
    /// Write to a peer's connection. Writing nothing closes it.
    Write(SocketAddr, Vec<u8>),
    /// Tell the session.
    Session(M),
    Nothing,
}

/// The peers with an open connection.
pub struct Connections {
    open: AssocMap<SocketAddr, ()>,
}

impl View for Connections {
    type V = Set<SocketAddr>;

    closed spec fn view(&self) -> Set<SocketAddr> {
        self.open@.dom()
    }
}

impl Connections {
    pub fn new() -> (r: Connections)
        ensures
            r@ == Set::<SocketAddr>::empty(),
    {
        let r = Connections { open: AssocMap::new() };
        assert(r@ =~= Set::<SocketAddr>::empty());
        r
    }

    /// A peer has connected.
    pub fn connected(&mut self, addr: SocketAddr)
        ensures
            final(self)@ == old(self)@.insert(addr),
    {
        self.open.insert(addr, ());
        assert(self@ =~= old(self)@.insert(addr));
    }

    /// A connection has ended: the session is told.
    pub fn closed<M: MsgFromNet>(&mut self, addr: SocketAddr) -> (r: M)
        ensures
            final(self)@ == old(self)@.remove(addr),
            r.is_disconnect(addr, "Normal disconnect!"@),
    {
        self.open.remove(&addr);
        assert(self@ =~= old(self)@.remove(addr));
        M::disconnect(addr, "Normal disconnect!".to_owned())
    }

    /// A message to a connection: bytes are written where it is open, else the session is told; a
    /// connection to be closed is sent nothing.
    pub fn handle<M: MsgFromNet>(&self, msg: ToNetMsg) -> (r: NetAction<M>)
        ensures
            match msg {
                ToNetMsg::Data(addr, data) => if self@.contains(addr) {
                    r == NetAction::<M>::Write(addr, data)
                } else {
                    r matches NetAction::Session(m) && m.is_disconnect(
                        addr,
                        "Connection closed unexpected!"@,
                    )
                },
                ToNetMsg::Disconnect(addr, _) => if self@.contains(addr) {
                    r matches NetAction::Write(a, data) && a == addr && data@.len() == 0
                } else {
                    r is Nothing
                },
            },
    {
        match msg {
            ToNetMsg::Data(addr, data) => {
                if self.open.contains_key(&addr) {
                    NetAction::Write(addr, data)
                } else {
                    NetAction::Session(
                        M::disconnect(addr, "Connection closed unexpected!".to_owned()),
                    )
                }
            },
            ToNetMsg::Disconnect(addr, _) => {
                if self.open.contains_key(&addr) {
                    NetAction::Write(addr, Vec::new())
                } else {
                    NetAction::Nothing
                }
            },
        }
    }
}

/// A read of `n` bytes into `buf` has ended: the session gets them; `None` where the peer is gone.
pub fn received<M: MsgFromNet>(addr: SocketAddr, buf: &[u8], n: usize) -> (r: Option<M>)
    requires
        n <= buf@.len(),
    ensures
        match r {
            Some(m) => n > 0 && m.is_data(addr, buf@.take(n as int)),
            None => n == 0,
        },
{
    if n == 0 {
        return None;
    }
    let mut data: Vec<u8> = Vec::new();
    let mut i: usize = 0;
    while i < n
        invariant
            i <= n <= buf@.len(),
            data@ == buf@.take(i as int),
        decreases n - i,
    {
        data.push(buf[i]);
        i = i + 1;
        assert(data@ =~= buf@.take(i as int));
    }
    Some(M::data(addr, data))
}

/// `true` iff a connection stays open after `data` has been written to it.
pub fn stays_open(data: &[u8]) -> (r: bool)
    ensures
        r == (data@.len() > 0),
{
    data.len() > 0
}

/// What follows an attempt to connect.
#[derive(Debug, PartialEq, Eq, Structural, Clone, Copy)]
pub enum Attempt {
    /// It went well.
    Done,
    /// It is made again.
    Again,
    /// It was the last.
    GiveUp,
}

/// What follows the `n`-th attempt, from zero, of `retry`.
pub fn after_attempt(n: usize, retry: usize, ok: bool) -> (r: Attempt)
    ensures
        r == (if ok {
            Attempt::Done
        } else if n + 1 < retry {
            Attempt::Again
        } else {
            Attempt::GiveUp
        }),
{
    if ok {
        Attempt::Done
    } else if retry > 0 && n < retry - 1 {
        Attempt::Again
    } else {
        Attempt::GiveUp
    }
}

/// What is left of a URL after its scheme: the text between the first and the second `://`.
/// `None` where there is no `://`.
pub open spec fn after_scheme(url: Seq<char>) -> Option<Seq<char>> {
    match text::split_once(url, "://"@) {
        None => None,
        Some((_, rest)) => match text::split_once(rest, "://"@) {
            None => Some(rest),
            Some((server, _)) => Some(server),
        },
    }
}

/// The server and port in a URL.
pub fn server_port(url: &str) -> (r: Option<String>)
    ensures
        after_scheme(url@) == (match r {
            Some(s) => Some(s@),
            None => None,
        }),
{
    match text::split_at_first(url, "://") {
        None => None,
        Some((_, rest)) => match text::split_at_first(rest.as_str(), "://") {
            None => Some(rest),
            Some((server, _)) => Some(server),
        },
    }
}

/// Cuts a stream of payloads, each after its length in eight bytes.
pub struct ClientCodec {
    pub state: CodecState,
}

/// What comes of looking for a payload: the next state, what is left of the buffer, the payload.
pub open spec fn next_payload(state: CodecState, buf: Seq<u8>) -> (
    CodecState,
    Seq<u8>,
    Option<Seq<u8>>,
) {
    match state {
        CodecState::Len => if buf.len() < 8 {
            (state, buf, None)
        } else {
            payload_of(buffer::be64(buf.take(8)), buf.skip(8))
        },
        CodecState::Payload { len } => payload_of(len, buf),
    }
}

pub open spec fn payload_of(len: u64, buf: Seq<u8>) -> (CodecState, Seq<u8>, Option<Seq<u8>>) {
    if buf.len() < len as usize {
        (CodecState::Payload { len }, buf, None)
    } else {
        (CodecState::Len, buf.skip((len as usize) as int), Some(buf.take((len as usize) as int)))
    }
}

impl ClientCodec {
    pub fn new() -> (r: ClientCodec)
        ensures
            r.state == CodecState::Len,
    {
        ClientCodec { state: CodecState::Len }
    }

    /// Appends a serialized request to what is to be sent.
    pub fn encode(&mut self, data: &[u8], buf: &mut BytesMut)
        ensures
            *final(self) == *old(self),
            buffer::bytes_mut_bytes(*final(buf)) == buffer::bytes_mut_bytes(*old(buf)) + data@,
    {
        buffer::bytes_mut_extend(buf, data);
    }

    /// Cuts the next payload, a serialized response, off the buffer.
    pub fn decode(&mut self, buf: &mut BytesMut) -> (r: Option<Vec<u8>>)
        ensures
            ({
                let (state, rest, payload) = next_payload(
                    old(self).state,
                    buffer::bytes_mut_bytes(*old(buf)),
                );
                &&& final(self).state == state
                &&& buffer::bytes_mut_bytes(*final(buf)) == rest
                &&& payload == (match r {
                    Some(v) => Some(v@),
                    None => None,
                })
            }),
    {
        if let CodecState::Len = self.state {
            if buffer::bytes_mut_len(buf) < 8 {
                return None;
            }
            let len_buf = buffer::bytes_mut_split_to(buf, 8);
            let len: u64 = buffer::read_u64(len_buf.as_slice());
            self.state = CodecState::Payload { len };
        }
        match self.state {
            CodecState::Len => None,
            CodecState::Payload { len } => {
                let n: usize = len as usize;
                if buffer::bytes_mut_len(buf) < n {
                    return None;
                }
                let payload = buffer::bytes_mut_split_to(buf, n);
                self.state = CodecState::Len;
                Some(payload)
            },
        }
    }
}

/// Law: a payload after its length is read back, whatever follows it, and the codec then waits for
/// the next length.
pub proof fn law_codec_reads_a_frame(length: Seq<u8>, payload: Seq<u8>, rest: Seq<u8>)
    requires
        length.len() == 8,
        buffer::be64(length) as usize == payload.len(),
    ensures
        next_payload(CodecState::Len, length + payload + rest) == (
            CodecState::Len,
            rest,
            Some(payload),
        ),
{
    let buf = length + payload + rest;
    assert(buf.take(8) =~= length);
    assert(buf.skip(8) =~= payload + rest);
    assert((payload + rest).take(payload.len() as int) =~= payload);
    assert((payload + rest).skip(payload.len() as int) =~= rest);
}

/// Law: bytes that hold no whole payload are kept, and reading goes on when more have come, as if
/// they had come together.
pub proof fn law_codec_waits_for_more(state: CodecState, first: Seq<u8>, second: Seq<u8>)
    requires
        next_payload(state, first).2 is None,
    ensures
        ({
            let (waiting, kept, _) = next_payload(state, first);
            next_payload(waiting, kept + second) == next_payload(state, first + second)
        }),
{
    if state is Len && first.len() >= 8 {
        assert((first + second).take(8) =~= first.take(8));
        assert((first + second).skip(8) =~= first.skip(8) + second);
    }
}

} // verus!
