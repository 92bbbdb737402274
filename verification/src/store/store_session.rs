//! The sessions of the hubs with the store.
use bytes::BytesMut;
use vstd::prelude::*;

use crate::assoc::AssocMap;
use crate::buffer;
use crate::common::{SocketAddr, StoreRequest, StoreResponse, UserId};
use crate::net::MsgFromNet;
use crate::qos::QualityOfService;
use crate::store;
use crate::store::{GlobalRouterMsg, GlobalRouterMsgModel, StoreSessionMsg};
use crate::topic::TopicModel;
use crate::wire::PublishModel;

verus! {

/// The bytes that a session starts with room for.
pub const INITIAL_CAPACITY: usize = 2048;

/// A hub's session.
pub struct StoreSession {
    addr: SocketAddr,
    header: Option<u64>,
    buf: BytesMut,
}

/// What comes of cutting a stream into payloads.
#[verifier::ext_equal]
pub struct PayloadsModel {
    pub payloads: Seq<Seq<u8>>,
    pub rest: Seq<u8>,
    pub header: Option<u64>,
    /// A length of zero stops the session thread.
    pub zero_length: bool,
}

/// Cuts `buf` into payloads. The first eight bytes of a stream are the length of all its payloads;
/// `header` is that length, once it has come.
pub open spec fn payloads(buf: Seq<u8>, header: Option<u64>) -> PayloadsModel
    decreases
            (if header is None {
                1nat
            } else {
                0nat
            }),
            buf.len(),
{
    match header {
        None => if buf.len() >= 8 {
            payloads(buf.skip(8), Some(buffer::be64(buf.take(8))))
        } else {
            PayloadsModel { payloads: Seq::empty(), rest: buf, header, zero_length: false }
        },
        Some(len) => {
            let n = len as usize;
            if n == 0 {
                PayloadsModel { payloads: Seq::empty(), rest: buf, header, zero_length: true }
            } else if buf.len() >= n {
                let after = payloads(buf.skip(n as int), header);
                PayloadsModel { payloads: seq![buf.take(n as int)] + after.payloads, ..after }
            } else {
                PayloadsModel { payloads: Seq::empty(), rest: buf, header, zero_length: false }
            }
        },
    }
}

/// The views of a list of payloads.
pub open spec fn payload_views(s: Seq<Vec<u8>>) -> Seq<Seq<u8>> {
    s.map_values(|v: Vec<u8>| v@)
}

#[verifier::ext_equal]
pub enum StoreRequestModel {
    Publish(UserId, PublishModel),
    Subscribe(UserId, Seq<TopicModel>),
    Unsubscribe(UserId, Seq<TopicModel>),
    GetRetains(UserId, Seq<char>, TopicModel, QualityOfService),
}

impl View for StoreRequest {
    type V = StoreRequestModel;

    open spec fn view(&self) -> StoreRequestModel {
        match self {
            StoreRequest::Publish(user_id, packet) => StoreRequestModel::Publish(*user_id, packet@),
            StoreRequest::Subscribe(user_id, topics) => StoreRequestModel::Subscribe(
                *user_id,
                store::topic_views(topics@),
            ),
            StoreRequest::Unsubscribe(user_id, topics) => StoreRequestModel::Unsubscribe(
                *user_id,
                store::topic_views(topics@),
            ),
            StoreRequest::GetRetains(user_id, client, topic, qos) => StoreRequestModel::GetRetains(
                *user_id,
                client@,
                topic@,
                *qos,
            ),
        }
    }
}

/// What a hub's request tells the router.
pub open spec fn router_msg(addr: SocketAddr, request: StoreRequestModel) -> Option<
    GlobalRouterMsgModel,
> {
    match request {
        StoreRequestModel::Publish(user_id, p) => Some(
            GlobalRouterMsgModel::Publish(addr, user_id, p),
        ),
        StoreRequestModel::Subscribe(user_id, topics) => Some(
            GlobalRouterMsgModel::Subscribe(addr, user_id, topics),
        ),
        StoreRequestModel::Unsubscribe(user_id, topics) => Some(
            GlobalRouterMsgModel::Unsubscribe(addr, user_id, topics),
        ),
        StoreRequestModel::GetRetains(_, _, _, _) => None,
    }
}

impl StoreSession {
    pub closed spec fn spec_addr(&self) -> SocketAddr {
        self.addr
    }

    /// The bytes that have come and belong to no whole payload yet.
    pub closed spec fn bytes(&self) -> Seq<u8> {
        buffer::bytes_mut_bytes(self.buf)
    }

    /// The length of the payloads, once it has come.
    pub closed spec fn length(&self) -> Option<u64> {
        self.header
    }

    pub fn new(addr: SocketAddr) -> (r: StoreSession)
        ensures
            r.spec_addr() == addr,
            r.bytes() == Seq::<u8>::empty(),
            r.length() is None,
    {
        StoreSession { addr, header: None, buf: buffer::bytes_mut_with_capacity(INITIAL_CAPACITY) }
    }

    /// Takes bytes in and returns the whole payloads, serialized requests, with `true` iff a length
    /// of zero was met.
    pub fn decode(&mut self, data: &[u8]) -> (r: (Vec<Vec<u8>>, bool))
        ensures
            final(self).spec_addr() == old(self).spec_addr(),
            payloads(old(self).bytes() + data@, old(self).length()) == (PayloadsModel {
                payloads: payload_views(r.0@),
                rest: final(self).bytes(),
                header: final(self).length(),
                zero_length: r.1,
            }),
    {
        buffer::bytes_mut_extend(&mut self.buf, data);
        let mut cut: Vec<Vec<u8>> = Vec::new();
        let ghost whole = payloads(self.bytes(), self.length());
        let ghost left = whole;
        proof {
            assert(payload_views(cut@) =~= Seq::<Seq<u8>>::empty());
            assert(whole.payloads =~= payload_views(cut@) + left.payloads);
        }
        loop
            invariant
                self.addr == old(self).addr,
                whole == payloads(old(self).bytes() + data@, old(self).length()),
                ({
                    let left = payloads(self.bytes(), self.length());
                    whole == (PayloadsModel {
                        payloads: payload_views(cut@) + left.payloads,
                        ..left
                    })
                }),
            decreases
                    (if self.length() is None {
                        1nat
                    } else {
                        0nat
                    }),
                    self.bytes().len(),
        {
            let ghost left = payloads(self.bytes(), self.length());
            match self.header {
                None => {
                    if buffer::bytes_mut_len(&self.buf) < 8 {
                        assert(payload_views(cut@) + left.payloads =~= payload_views(cut@));
                        return (cut, false);
                    }
                    let len_buf = buffer::bytes_mut_split_to(&mut self.buf, 8);
                    let len: u64 = buffer::read_u64(len_buf.as_slice());
                    self.header = Some(len);
                },
                Some(len) => {
                    let n: usize = len as usize;
                    if n == 0 {
                        assert(payload_views(cut@) + left.payloads =~= payload_views(cut@));
                        return (cut, true);
                    }
                    if buffer::bytes_mut_len(&self.buf) < n {
                        assert(payload_views(cut@) + left.payloads =~= payload_views(cut@));
                        return (cut, false);
                    }
                    let payload = buffer::bytes_mut_split_to(&mut self.buf, n);
                    let ghost before = payload_views(cut@);
                    let ghost view = payload@;
                    cut.push(payload);
                    proof {
                        let now_left = payloads(self.bytes(), self.length());
                        assert(payload_views(cut@) =~= before.push(view));
                        assert(before + left.payloads =~= payload_views(cut@)
                            + now_left.payloads);
                    }
                },
            }
        }
    }

    /// What a request of the hub tells the router.
    pub fn handle_request(&self, request: StoreRequest) -> (r: Option<GlobalRouterMsg>)
        ensures
            router_msg(self.spec_addr(), request@) == (match r {
                Some(m) => Some(m@),
                None => None,
            }),
    {
        match request {
            StoreRequest::Publish(user_id, packet) => Some(
                GlobalRouterMsg::Publish(self.addr, user_id, packet),
            ),
            StoreRequest::Subscribe(user_id, topics) => Some(
                GlobalRouterMsg::Subscribe(self.addr, user_id, topics),
            ),
            StoreRequest::Unsubscribe(user_id, topics) => Some(
                GlobalRouterMsg::Unsubscribe(self.addr, user_id, topics),
            ),
            StoreRequest::GetRetains(_, _, _, _) => None,
        }
    }
}

impl MsgFromNet for StoreSessionMsg {
    open spec fn is_data(&self, addr: SocketAddr, buf: Seq<u8>) -> bool {
        self@ == store::StoreSessionMsgModel::Data(addr, buf)
    }

    open spec fn is_disconnect(&self, addr: SocketAddr, msg: Seq<char>) -> bool {
        self@ == store::StoreSessionMsgModel::Disconnect(addr, msg)
    }

    fn data(addr: SocketAddr, buf: Vec<u8>) -> (r: Self) {
        StoreSessionMsg::Data(addr, buf)
    }

    fn disconnect(addr: SocketAddr, msg: String) -> (r: Self) {
        StoreSessionMsg::Disconnect(addr, msg)
    }
}

#[verifier::ext_equal]
pub enum StoreResponseModel {
    Publish(UserId, PublishModel),
    Retains(UserId, Seq<char>, Seq<PublishModel>, QualityOfService),
}

impl View for StoreResponse {
    type V = StoreResponseModel;

    open spec fn view(&self) -> StoreResponseModel {
        match self {
            StoreResponse::Publish(user_id, packet) => StoreResponseModel::Publish(
                *user_id,
                packet@,
            ),
            StoreResponse::Retains(user_id, client, packets, qos) => StoreResponseModel::Retains(
                *user_id,
                client@,
                store::publish_views(packets@),
                *qos,
            ),
        }
    }
}

/// What a message to the sessions asks for.
pub enum StoreAction {
    /// Read requests out of payloads from a hub. `zero_length` is a length of zero behind them.
    Requests { addr: SocketAddr, payloads: Vec<Vec<u8>>, zero_length: bool },
    /// Send a response to a hub.
    Respond(SocketAddr, StoreResponse),
    Nothing,
}

/// The sessions of the hubs.
pub struct StoreSessions {
    sessions: AssocMap<SocketAddr, StoreSession>,
}

impl View for StoreSessions {
    type V = Map<SocketAddr, (Seq<u8>, Option<u64>)>;

    closed spec fn view(&self) -> Map<SocketAddr, (Seq<u8>, Option<u64>)> {
        self.sessions@.map_values(|s: StoreSession| (s.bytes(), s.length()))
    }
}

/// What a message does to the sessions `a`, and what it asks for.
pub open spec fn stored(
    a: Map<SocketAddr, (Seq<u8>, Option<u64>)>,
    b: Map<SocketAddr, (Seq<u8>, Option<u64>)>,
    msg: store::StoreSessionMsgModel,
    action: StoreAction,
) -> bool {
    match msg {
        store::StoreSessionMsgModel::Data(addr, data) => {
            let (bytes, length) = if a.contains_key(addr) {
                a[addr]
            } else {
                (Seq::empty(), None)
            };
            let cut = payloads(bytes + data, length);
            &&& b == a.insert(addr, (cut.rest, cut.header))
            &&& action matches StoreAction::Requests { addr: from, payloads, zero_length }
            &&& from == addr
            &&& payload_views(payloads@) == cut.payloads
            &&& zero_length == cut.zero_length
        },
        store::StoreSessionMsgModel::Disconnect(_, _) => b == a && action is Nothing,
        store::StoreSessionMsgModel::Publish(addr, user_id, p) => {
            &&& b == a
            &&& responds(a, addr, action, StoreResponseModel::Publish(user_id, p))
        },
        store::StoreSessionMsgModel::Retains(addr, user_id, client, packets, qos) => {
            &&& b == a
            &&& responds(
                a,
                addr,
                action,
                StoreResponseModel::Retains(user_id, client, packets, qos),
            )
        },
    }
}

/// A response goes to a hub with a session, and to no other.
pub open spec fn responds(
    a: Map<SocketAddr, (Seq<u8>, Option<u64>)>,
    addr: SocketAddr,
    action: StoreAction,
    response: StoreResponseModel,
) -> bool {
    if a.contains_key(addr) {
        action matches StoreAction::Respond(to, r) && to == addr && r@ == response
    } else {
        action is Nothing
    }
}

impl StoreSessions {
    /// Each session knows its hub.
    pub closed spec fn wf(&self) -> bool {
        forall|addr: SocketAddr| #[trigger]
            self.sessions@.contains_key(addr) ==> self.sessions@[addr].spec_addr() == addr
    }

    pub fn new() -> (r: StoreSessions)
        ensures
            r.wf(),
            r@ == Map::<SocketAddr, (Seq<u8>, Option<u64>)>::empty(),
    {
        let r = StoreSessions { sessions: AssocMap::new() };
        assert(r@ =~= Map::<SocketAddr, (Seq<u8>, Option<u64>)>::empty());
        r
    }

    /// A message to the sessions.
    pub fn handle(&mut self, msg: StoreSessionMsg) -> (r: StoreAction)
        requires
            old(self).wf(),
        ensures
            final(self).wf(),
            stored(old(self)@, final(self)@, msg@, r),
    {
        match msg {
            StoreSessionMsg::Data(addr, data) => {
                let mut session = match self.sessions.remove(&addr) {
                    Some(session) => session,
                    None => StoreSession::new(addr),
                };
                let (payloads, zero_length) = session.decode(data.as_slice());
                let ghost after = (session.bytes(), session.length());
                self.sessions.insert(addr, session);
                assert(self@ =~= old(self)@.insert(addr, after));
                StoreAction::Requests { addr, payloads, zero_length }
            },
            StoreSessionMsg::Disconnect(_, _) => StoreAction::Nothing,
            StoreSessionMsg::Publish(addr, user_id, packet) => {
                if self.sessions.contains_key(&addr) {
                    StoreAction::Respond(addr, StoreResponse::Publish(user_id, packet))
                } else {
                    StoreAction::Nothing
                }
            },
            StoreSessionMsg::Retains(addr, user_id, client_identifier, packets, qos) => {
                if self.sessions.contains_key(&addr) {
                    StoreAction::Respond(
                        addr,
                        StoreResponse::Retains(user_id, client_identifier, packets, qos),
                    )
                } else {
                    StoreAction::Nothing
                }
            },
        }
    }

    /// What a request that was read out of a hub's payload tells the router.
    pub fn request(&self, addr: SocketAddr, request: StoreRequest) -> (r: Option<GlobalRouterMsg>)
        requires
            self.wf(),
            self@.contains_key(addr),
        ensures
            router_msg(addr, request@) == (match r {
                Some(m) => Some(m@),
                None => None,
            }),
    {
        match self.sessions.get(&addr) {
            Some(session) => session.handle_request(request),
            None => None,
        }
    }
}

/// Law: what is cut off a hub's byte stream is the same whether its bytes come at once or in two
/// pieces.
pub proof fn law_payloads_in_pieces(a: Seq<u8>, b: Seq<u8>, header: Option<u64>)
    ensures
        ({
            let first = payloads(a, header);
            let second = payloads(first.rest + b, first.header);
            let whole = payloads(a + b, header);
            whole == (PayloadsModel { payloads: first.payloads + second.payloads, ..second })
        }),
    decreases
            (if header is None {
                1nat
            } else {
                0nat
            }),
            a.len(),
{
    let whole = payloads(a + b, header);
    match header {
        None => {
            if a.len() >= 8 {
                assert((a + b).take(8) =~= a.take(8));
                assert((a + b).skip(8) =~= a.skip(8) + b);
                law_payloads_in_pieces(a.skip(8), b, Some(buffer::be64(a.take(8))));
            } else {
                assert(Seq::empty() + whole.payloads =~= whole.payloads);
            }
        },
        Some(len) => {
            let n = (len as usize) as int;
            if n != 0 && a.len() >= n {
                assert((a + b).take(n) =~= a.take(n));
                assert((a + b).skip(n) =~= a.skip(n) + b);
                law_payloads_in_pieces(a.skip(n), b, header);
                let one = seq![a.take(n)];
                let first = payloads(a.skip(n), header);
                let second = payloads(first.rest + b, first.header);
                assert(one + (first.payloads + second.payloads) =~= (one + first.payloads)
                    + second.payloads);
            } else {
                assert(Seq::empty() + whole.payloads =~= whole.payloads);
            }
        },
    }
}

/// Law: the first eight bytes of a hub's stream are the length of its payloads. From then on each so
/// many bytes are one payload, as they are and in order, and fewer wait for more.
pub proof fn law_payloads_have_the_announced_length(
    buf: Seq<u8>,
    length: Seq<u8>,
    payload: Seq<u8>,
    rest: Seq<u8>,
)
    requires
        length.len() == 8,
        payload.len() > 0,
        buffer::be64(length) as usize == payload.len(),
    ensures
        payloads(length + rest, None) == payloads(rest, Some(buffer::be64(length))),
        ({
            let n = buffer::be64(length);
            let after = payloads(rest, Some(n));
            payloads(payload + rest, Some(n)) == (PayloadsModel {
                payloads: seq![payload] + after.payloads,
                ..after
            })
        }),
        buf.len() < payload.len() ==> payloads(buf, Some(buffer::be64(length))) == (PayloadsModel {
            payloads: Seq::empty(),
            rest: buf,
            header: Some(buffer::be64(length)),
            zero_length: false,
        }),
        buf.len() < 8 ==> payloads(buf, None) == (PayloadsModel {
            payloads: Seq::empty(),
            rest: buf,
            header: None,
            zero_length: false,
        }),
        payloads(buf, Some(0)).zero_length && payloads(buf, Some(0)).payloads.len() == 0,
{
    assert((length + rest).take(8) =~= length);
    assert((length + rest).skip(8) =~= rest);
    let n = payload.len() as int;
    assert((payload + rest).take(n) =~= payload);
    assert((payload + rest).skip(n) =~= rest);
}

/// Law: what a hub asks for goes to the router in the hub's name, with all that it holds; what it asks
/// of retained messages goes nowhere.
pub proof fn law_requests_go_on(
    addr: SocketAddr,
    user_id: UserId,
    p: PublishModel,
    topics: Seq<TopicModel>,
    request: StoreRequestModel,
)
    ensures
        router_msg(addr, StoreRequestModel::Publish(user_id, p)) == Some(
            GlobalRouterMsgModel::Publish(addr, user_id, p),
        ),
        router_msg(addr, StoreRequestModel::Subscribe(user_id, topics)) == Some(
            GlobalRouterMsgModel::Subscribe(addr, user_id, topics),
        ),
        router_msg(addr, StoreRequestModel::Unsubscribe(user_id, topics)) == Some(
            GlobalRouterMsgModel::Unsubscribe(addr, user_id, topics),
        ),
        request is GetRetains ==> router_msg(addr, request) is None,
{
}

/// Law: a message or retained messages for a hub are sent to it, as they are, iff it has a session,
/// and change no session.
pub proof fn law_responses_are_sent(
    a: Map<SocketAddr, (Seq<u8>, Option<u64>)>,
    b: Map<SocketAddr, (Seq<u8>, Option<u64>)>,
    addr: SocketAddr,
    user_id: UserId,
    p: PublishModel,
    client: Seq<char>,
    packets: Seq<PublishModel>,
    q: QualityOfService,
    action: StoreAction,
)
    ensures
        stored(a, b, store::StoreSessionMsgModel::Publish(addr, user_id, p), action) ==> {
            &&& b == a
            &&& a.contains_key(addr) ==> action is Respond && action->Respond_0 == addr
                && action->Respond_1@ == StoreResponseModel::Publish(user_id, p)
            &&& !a.contains_key(addr) ==> action is Nothing
        },
        stored(
            a,
            b,
            store::StoreSessionMsgModel::Retains(addr, user_id, client, packets, q),
            action,
        ) ==> {
            &&& b == a
            &&& a.contains_key(addr) ==> action is Respond && action->Respond_0 == addr
                && action->Respond_1@ == StoreResponseModel::Retains(user_id, client, packets, q)
            &&& !a.contains_key(addr) ==> action is Nothing
        },
{
}

/// Law: the bytes of one hub are read as its own. The payloads in them are handed on in its name, and
/// no other hub's session changes.
pub proof fn law_hubs_are_apart(
    a: Map<SocketAddr, (Seq<u8>, Option<u64>)>,
    b: Map<SocketAddr, (Seq<u8>, Option<u64>)>,
    addr: SocketAddr,
    data: Seq<u8>,
    other: SocketAddr,
    action: StoreAction,
)
    requires
        stored(a, b, store::StoreSessionMsgModel::Data(addr, data), action),
    ensures
        b.contains_key(addr),
        action is Requests,
        action->Requests_addr == addr,
        !a.contains_key(addr) ==> payload_views(action->Requests_payloads@) == payloads(
            data,
            None,
        ).payloads,
        a.contains_key(addr) ==> payload_views(action->Requests_payloads@) == payloads(
            a[addr].0 + data,
            a[addr].1,
        ).payloads,
        other != addr ==> b.contains_key(other) == a.contains_key(other) && b[other] == a[other],
{
    assert(Seq::<u8>::empty() + data =~= data);
}

} // verus!
