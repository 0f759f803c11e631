//! An established connection: the session key schedule and the framed
//! transport over it.

use vstd::prelude::*;
use std::collections::BTreeMap;
use crate::bytes::wipe;
use crate::consts::FR_PAYLOAD_L_MAX;
use crate::cshake::{keyed, CShakeCustom, Sponge, SpongeState};
use crate::cshake_customs::REQ_KEY_DERIVE;
use crate::error::Error;
use crate::frame::{
    each_view, frame_count, lemma_frame_count, lemma_frames_round_trip,
    lemma_tampered_frames_are_refused, mac_byte_replaced, max_message_len, open_frames,
    seal_frames, HeaderState, HeaderView, RequestState, RequestView,
};
use crate::curve25519::ExchangedSecret;

verus! {

/// Which side of the connection this is.
#[derive(Clone, Copy, Debug, PartialEq, Eq, Structural)]
pub enum ConnectionPeer {
    Client,
    Server,
}

/// The id of a request: a 16-bit number that is not zero.
#[derive(Clone, Copy, Debug)]
pub struct RequestId {
    id: u16,
}

impl View for RequestId {
    type V = u16;

    closed spec fn view(&self) -> u16 {
        self.id
    }
}

impl RequestId {
    #[verifier::type_invariant]
    spec fn nonzero(&self) -> bool {
        self.id != 0
    }

    /// The request id `id`, unless it is zero.
    pub fn new(id: u16) -> (req_id: Option<RequestId>)
        ensures
            req_id is Some == (id != 0),
            req_id matches Some(r) ==> r@ == id,
    {
        if id == 0 {
            None
        } else {
            Some(RequestId { id })
        }
    }

    /// The number.
    pub fn get(&self) -> (id: u16)
        ensures
            id == self@,
            id != 0,
    {
        proof {
            use_type_invariant(self);
        }
        self.id
    }
}

/// A connection after the handshake.
pub struct ConnectionState {
    peer: ConnectionPeer,
    uid: u64,
    conn_key: ExchangedSecret,
    req_key_deriver: Sponge<REQ_KEY_DERIVE>,
    header: HeaderState,
    request: BTreeMap<u16, RequestState>,
}

/// A `ConnectionState` as a value.
pub struct ConnectionView {
    pub peer: ConnectionPeer,
    pub uid: u64,
    pub conn_key: Seq<u8>,
    /// The sponge that the header key and the requests' keys come from, in
    /// the order in which the requests were first met.
    pub deriver: SpongeState,
    pub header: HeaderView,
    /// The requests met so far, by their ids.
    pub requests: Map<u16, RequestView>,
}

impl ConnectionView {
    /// The connection that the shared secret `conn_key` opens: the deriver has
    /// absorbed the secret and given the header key, and no request is known.
    pub open spec fn initial(peer: ConnectionPeer, uid: u64, conn_key: Seq<u8>) -> ConnectionView {
        let deriver = keyed(REQ_KEY_DERIVE::label(), conn_key);
        ConnectionView {
            peer,
            uid,
            conn_key,
            deriver: deriver.squeeze(32),
            header: HeaderView::initial(deriver.output(32)),
            requests: Map::empty(),
        }
    }
}

/// A connection after a message was sent, and the frames to put on the wire.
pub struct Sent {
    pub conn: ConnectionView,
    pub frames: Result<Seq<Seq<u8>>, Error>,
}

/// A connection after the frames of a message were read, and the message.
pub struct Received {
    pub conn: ConnectionView,
    pub msg: Result<Seq<u8>, Error>,
}

impl ConnectionView {
    /// No request has the id zero. This holds of every connection from `init`
    /// on.
    pub open spec fn wf(self) -> bool {
        !self.requests.contains_key(0)
    }

    /// Whether two connections hold the same keys in the same state: all but
    /// the side and the user id.
    pub open spec fn same_keys(self, other: ConnectionView) -> bool {
        &&& self.deriver == other.deriver
        &&& self.header == other.header
        &&& self.requests == other.requests
    }

    /// The connection once the request `req_id` is known: as it is, or with
    /// a new request whose key is the deriver's next 32 bytes.
    pub open spec fn with_request(self, req_id: u16) -> ConnectionView {
        if self.requests.contains_key(req_id) {
            self
        } else {
            ConnectionView {
                deriver: self.deriver.squeeze(32),
                requests: self.requests.insert(
                    req_id,
                    RequestView::initial(self.deriver.output(32)),
                ),
                ..self
            }
        }
    }

    /// Sending `msg` on the request `req_id`.
    ///
    /// A message longer than 65536 full frames is `MalformedInput`, and
    /// nothing moves. Else the request is looked up, or made. A request whose
    /// next message id is 65535 has none left: `MessageIdExhausted`. Else the
    /// message takes the next id, and its frames are made in order.
    pub open spec fn send(self, req_id: u16, msg: Seq<u8>) -> Sent {
        if msg.len() > max_message_len() {
            Sent { conn: self, frames: Err(Error::MalformedInput) }
        } else {
            let conn = self.with_request(req_id);
            let request = conn.requests[req_id];
            if request.next_msg_id == u16::MAX {
                Sent { conn, frames: Err(Error::MessageIdExhausted) }
            } else {
                let started = RequestView {
                    next_msg_id: (request.next_msg_id + 1) as u16,
                    ..request
                };
                let sealed = seal_frames(
                    conn.header,
                    started,
                    req_id,
                    request.next_msg_id,
                    0,
                    msg,
                );
                Sent {
                    conn: ConnectionView {
                        header: sealed.header,
                        requests: conn.requests.insert(req_id, sealed.request),
                        ..conn
                    },
                    frames: Ok(sealed.frames),
                }
            }
        }
    }

    /// Reading `frames` as the next message on the request `req_id`.
    ///
    /// More than 65536 frames are `MalformedInput`, and nothing moves. Else
    /// the request is looked up, or made. A request whose next message id is
    /// 65535 has none left: `MessageIdExhausted`. Else the message is expected
    /// under the next id, and its frames are read in order, up to the first
    /// that is refused.
    pub open spec fn recv(self, req_id: u16, frames: Seq<Seq<u8>>) -> Received {
        if frames.len() > 0x10000 {
            Received { conn: self, msg: Err(Error::MalformedInput) }
        } else {
            let conn = self.with_request(req_id);
            let request = conn.requests[req_id];
            if request.next_msg_id == u16::MAX {
                Received { conn, msg: Err(Error::MessageIdExhausted) }
            } else {
                let started = RequestView {
                    next_msg_id: (request.next_msg_id + 1) as u16,
                    ..request
                };
                let opened = open_frames(
                    conn.header,
                    started,
                    req_id,
                    request.next_msg_id,
                    0,
                    frames,
                );
                Received {
                    conn: ConnectionView {
                        header: opened.header,
                        requests: conn.requests.insert(req_id, opened.request),
                        ..conn
                    },
                    msg: opened.payload,
                }
            }
        }
    }
}

/// What is sent is received: where a sender and a receiver hold the same keys
/// in the same state, the frames that the sender makes of a message give the
/// receiver that message, and the two hold the same keys in the same state
/// again.
pub proof fn lemma_message_round_trip(
    sender: ConnectionView,
    receiver: ConnectionView,
    req_id: u16,
    msg: Seq<u8>,
)
    requires
        sender.same_keys(receiver),
        sender.send(req_id, msg).frames is Ok,
    ensures
        ({
            let sent = sender.send(req_id, msg);
            let received = receiver.recv(req_id, sent.frames->Ok_0);
            &&& received.msg == Ok::<Seq<u8>, Error>(msg)
            &&& sent.conn.same_keys(received.conn)
        }),
{
    let conn = sender.with_request(req_id);
    let request = conn.requests[req_id];
    let started = RequestView { next_msg_id: (request.next_msg_id + 1) as u16, ..request };
    lemma_frame_count(conn.header, started, req_id, request.next_msg_id, 0, msg);
    lemma_frames_round_trip(conn.header, started, req_id, request.next_msg_id, 0, msg);
    assert(FR_PAYLOAD_L_MAX == 65464);
    let len = msg.len() as int;
    assert(len <= 0x10000 * 65464);
    assert((len + 65464 - 1) / 65464 <= 0x10000) by (nonlinear_arith)
        requires
            0 <= len <= 0x10000 * 65464,
    ;
}

/// A message in which one byte of a MAC was replaced on the way is refused
/// with `MacInvalid`: where a sender and a receiver hold the same keys in the
/// same state, and `tampered` is what the sender made of a message but for one
/// byte of the MAC of either header of one frame.
pub proof fn lemma_tampered_message_is_refused(
    sender: ConnectionView,
    receiver: ConnectionView,
    req_id: u16,
    msg: Seq<u8>,
    tampered: Seq<Seq<u8>>,
    k: int,
    at: int,
)
    requires
        sender.same_keys(receiver),
        sender.send(req_id, msg).frames is Ok,
        mac_byte_replaced(sender.send(req_id, msg).frames->Ok_0, tampered, k, at),
    ensures
        receiver.recv(req_id, tampered).msg == Err::<Seq<u8>, Error>(Error::MacInvalid),
{
    let conn = sender.with_request(req_id);
    let request = conn.requests[req_id];
    let started = RequestView { next_msg_id: (request.next_msg_id + 1) as u16, ..request };
    lemma_frame_count(conn.header, started, req_id, request.next_msg_id, 0, msg);
    lemma_tampered_frames_are_refused(
        conn.header,
        started,
        req_id,
        request.next_msg_id,
        0,
        msg,
        tampered,
        k,
        at,
    );
    assert(FR_PAYLOAD_L_MAX == 65464);
    let len = msg.len() as int;
    assert(len <= 0x10000 * 65464);
    assert((len + 65464 - 1) / 65464 <= 0x10000) by (nonlinear_arith)
        requires
            0 <= len <= 0x10000 * 65464,
    ;
}

/// Sending and receiving on a request whose id is not zero leave no request
/// with the id zero.
pub proof fn lemma_request_ids_stay_nonzero(
    conn: ConnectionView,
    req_id: u16,
    msg: Seq<u8>,
    frames: Seq<Seq<u8>>,
)
    requires
        conn.wf(),
        req_id != 0,
    ensures
        conn.send(req_id, msg).conn.wf(),
        conn.recv(req_id, frames).conn.wf(),
{
}

/// The empty message takes no frame, and uses up a message id all the same.
pub proof fn lemma_empty_message(conn: ConnectionView, req_id: u16)
    requires
        conn.with_request(req_id).requests[req_id].next_msg_id < u16::MAX,
    ensures
        conn.send(req_id, Seq::empty()).frames == Ok::<Seq<Seq<u8>>, Error>(Seq::empty()),
        conn.send(req_id, Seq::empty()).conn.requests[req_id].next_msg_id == conn.with_request(
            req_id,
        ).requests[req_id].next_msg_id + 1,
        conn.send(req_id, Seq::empty()).conn.header == conn.header,
{
}

/// A message takes the least number of frames that hold it: its length over
/// `FR_PAYLOAD_L_MAX`, rounded up.
pub proof fn lemma_sent_frame_count(conn: ConnectionView, req_id: u16, msg: Seq<u8>)
    requires
        conn.send(req_id, msg).frames is Ok,
    ensures
        conn.send(req_id, msg).frames->Ok_0.len() == frame_count(msg.len()),
{
    let with = conn.with_request(req_id);
    let request = with.requests[req_id];
    let started = RequestView { next_msg_id: (request.next_msg_id + 1) as u16, ..request };
    lemma_frame_count(with.header, started, req_id, request.next_msg_id, 0, msg);
}

impl View for ConnectionState {
    type V = ConnectionView;

    closed spec fn view(&self) -> ConnectionView {
        ConnectionView {
            peer: self.peer,
            uid: self.uid,
            conn_key: self.conn_key@,
            deriver: self.req_key_deriver@,
            header: self.header@,
            requests: self.request@.map_values(|r: RequestState| r@),
        }
    }
}

impl ConnectionState {
    /// Opens the connection that a handshake ended in.
    pub fn init(peer: ConnectionPeer, uid: u64, conn_key: ExchangedSecret) -> (conn:
        ConnectionState)
        ensures
            conn@ == ConnectionView::initial(peer, uid, conn_key@),
            conn@.wf(),
    {
        let mut req_key_deriver = REQ_KEY_DERIVE.create().chain_absorb(conn_key.as_bytes());
        let mut header_key: [u8; 32] = req_key_deriver.squeeze_to_array::<32>();
        let header = HeaderState::init(&header_key);
        wipe(&mut header_key);
        let request: BTreeMap<u16, RequestState> = BTreeMap::new();
        let conn = ConnectionState { peer, uid, conn_key, req_key_deriver, header, request };
        assert(conn@.requests =~= Map::empty());
        conn
    }

    /// Which side this is.
    pub fn peer(&self) -> (peer: ConnectionPeer)
        ensures
            peer == self@.peer,
    {
        self.peer
    }

    /// The user id that the server found for the client.
    pub fn uid(&self) -> (uid: u64)
        ensures
            uid == self@.uid,
    {
        self.uid
    }

    /// The secret that the handshake left both sides with.
    pub fn conn_key(&self) -> (key: &ExchangedSecret)
        ensures
            key@ == self@.conn_key,
    {
        &self.conn_key
    }

    /// Takes the state of the request `req_id` out of the connection, making
    /// it first where the request is new.
    fn take_request(&mut self, req_id: u16) -> (request: RequestState)
        ensures
            request@ == old(self)@.with_request(req_id).requests[req_id],
            final(self)@.requests == old(self)@.requests.remove(req_id),
            final(self)@.deriver == old(self)@.with_request(req_id).deriver,
            final(self)@.header == old(self)@.header,
            final(self)@.peer == old(self)@.peer,
            final(self)@.uid == old(self)@.uid,
            final(self)@.conn_key == old(self)@.conn_key,
    {
        broadcast use vstd::std_specs::btree::group_btree_axioms;

        let found = self.request.remove(&req_id);
        assert(self@.requests =~= old(self)@.requests.remove(req_id));
        match found {
            Some(request) => request,
            None => {
                let mut req_key: [u8; 32] = self.req_key_deriver.squeeze_to_array::<32>();
                let request = RequestState::init(&req_key);
                wipe(&mut req_key);
                request
            },
        }
    }

    /// Puts the state of the request `req_id` back.
    fn put_request(&mut self, req_id: u16, request: RequestState)
        ensures
            final(self)@ == (ConnectionView {
                requests: old(self)@.requests.insert(req_id, request@),
                ..old(self)@
            }),
    {
        broadcast use vstd::std_specs::btree::group_btree_axioms;

        self.request.insert(req_id, request);
        assert(self@.requests =~= old(self)@.requests.insert(req_id, request@));
    }

    /// Sends `msg` on the request `req_id`: gives the frames to put on the
    /// wire, in order. The empty message takes no frame.
    pub fn send_message(&mut self, req_id: RequestId, msg: &[u8]) -> (res: Result<
        Vec<Vec<u8>>,
        Error,
    >)
        ensures
            final(self)@ == old(self)@.send(req_id@, msg@).conn,
            old(self)@.wf() ==> final(self)@.wf(),
            res matches Ok(frames) ==> old(self)@.send(req_id@, msg@).frames == Ok::<
                Seq<Seq<u8>>,
                Error,
            >(each_view(frames@)),
            res matches Err(e) ==> old(self)@.send(req_id@, msg@).frames == Err::<
                Seq<Seq<u8>>,
                Error,
            >(e),
    {
        let id = req_id.get();
        proof {
            if old(self)@.wf() {
                lemma_request_ids_stay_nonzero(old(self)@, id, msg@, Seq::empty());
            }
        }
        if msg.len() > 0x10000 * FR_PAYLOAD_L_MAX {
            return Err(Error::MalformedInput);
        }
        let mut request = self.take_request(id);
        match request.begin_message() {
            None => {
                self.put_request(id, request);
                proof {
                    let conn = old(self)@.with_request(id);
                    assert(conn.requests.remove(id).insert(id, conn.requests[id])
                        =~= conn.requests);
                    assert(old(self)@.requests.remove(id).insert(id, conn.requests[id])
                        =~= conn.requests);
                }
                Err(Error::MessageIdExhausted)
            },
            Some(msg_id) => {
                let frames = request.seal_message(&mut self.header, id, msg_id, msg);
                self.put_request(id, request);
                proof {
                    let conn = old(self)@.with_request(id);
                    assert(old(self)@.requests.remove(id).insert(id, request@)
                        =~= conn.requests.insert(id, request@));
                }
                Ok(frames)
            },
        }
    }

    /// Reads `frames` as the next message on the request `req_id`, in order,
    /// and gives the message. The message is given only where every frame
    /// passed every check. After an error the connection is to be dropped:
    /// its sponges have moved on.
    pub fn recv_message(&mut self, req_id: RequestId, frames: &[Vec<u8>]) -> (res: Result<
        Vec<u8>,
        Error,
    >)
        ensures
            final(self)@ == old(self)@.recv(req_id@, each_view(frames@)).conn,
            old(self)@.wf() ==> final(self)@.wf(),
            res matches Ok(msg) ==> old(self)@.recv(req_id@, each_view(frames@)).msg == Ok::<
                Seq<u8>,
                Error,
            >(msg@),
            res matches Err(e) ==> old(self)@.recv(req_id@, each_view(frames@)).msg == Err::<
                Seq<u8>,
                Error,
            >(e),
    {
        let id = req_id.get();
        proof {
            if old(self)@.wf() {
                lemma_request_ids_stay_nonzero(old(self)@, id, Seq::empty(), each_view(frames@));
            }
        }
        if frames.len() > 0x10000 {
            return Err(Error::MalformedInput);
        }
        let mut request = self.take_request(id);
        match request.begin_message() {
            None => {
                self.put_request(id, request);
                proof {
                    let conn = old(self)@.with_request(id);
                    assert(old(self)@.requests.remove(id).insert(id, conn.requests[id])
                        =~= conn.requests);
                }
                Err(Error::MessageIdExhausted)
            },
            Some(msg_id) => {
                let res = request.open_message(&mut self.header, id, msg_id, frames);
                self.put_request(id, request);
                proof {
                    let conn = old(self)@.with_request(id);
                    assert(old(self)@.requests.remove(id).insert(id, request@)
                        =~= conn.requests.insert(id, request@));
                }
                res
            },
        }
    }
}

} // verus!
