//! Frames: one chunk of a message between two encrypted, authenticated
//! headers.
//!
//! On the wire a frame is the header ahead (36 bytes: request id, frame
//! length, header MAC), the payload (at most `FR_PAYLOAD_L_MAX` bytes) and the
//! header behind (36 bytes: payload MAC, message id, frame id). The header
//! ahead is encrypted with the header cipher that all requests share, the
//! payload and the header behind with the request's own cipher. The payload
//! MAC covers the encrypted payload, the header MAC the request id and the
//! frame length.
//!
//! The frame length counts the whole frame. It is a 16-bit field, and a full
//! frame takes 65536 bytes: the field holds the length modulo 65536, so a
//! full frame is written as 0. No frame is shorter than its 72 header bytes,
//! so nothing else is written as 0.

use vstd::prelude::*;
use vstd::slice::{slice_subrange, slice_to_vec};
use crate::bytes::{
    ct_eq, le_bytes, le_nat, lemma_le_bytes_len, lemma_le_nat_of_le_bytes, lemma_xor_twice, pow256,
    put, take, u16_to_bytes, wipe, xor_seq,
};
use crate::consts::FR_PAYLOAD_L_MAX;
use crate::cshake::{keyed, CShakeCustom, Sponge, SpongeState};
use crate::cshake_customs::{
    FRAME_HEADER_CIPHER, FRAME_HEADER_MAC, FRAME_PAYLOAD_CIPHER, FRAME_PAYLOAD_MAC,
};
use crate::error::Error;
use crate::message::{ahead_bytes, behind_bytes, FrameAheadHeader, FrameBehindHeader};

verus! {

/// The cipher and the MAC of the headers that go ahead of frames; all requests
/// of a connection share them.
pub struct HeaderState {
    cipher: Sponge<FRAME_HEADER_CIPHER>,
    mac: Sponge<FRAME_HEADER_MAC>,
}

/// One request's next message id, and the cipher and the MAC of its payloads.
pub struct RequestState {
    next_msg_id: u16,
    cipher: Sponge<FRAME_PAYLOAD_CIPHER>,
    mac: Sponge<FRAME_PAYLOAD_MAC>,
}

/// A `HeaderState` as a value.
pub struct HeaderView {
    pub cipher: SpongeState,
    pub mac: SpongeState,
}

/// A `RequestState` as a value.
pub struct RequestView {
    pub next_msg_id: u16,
    pub cipher: SpongeState,
    pub mac: SpongeState,
}

impl HeaderView {
    /// The header state for the key `header_key`.
    pub open spec fn initial(header_key: Seq<u8>) -> HeaderView {
        HeaderView {
            cipher: keyed(FRAME_HEADER_CIPHER::label(), header_key),
            mac: keyed(FRAME_HEADER_MAC::label(), header_key),
        }
    }
}

impl RequestView {
    /// The state of a new request with the key `req_key`.
    pub open spec fn initial(req_key: Seq<u8>) -> RequestView {
        RequestView {
            next_msg_id: 0,
            cipher: keyed(FRAME_PAYLOAD_CIPHER::label(), req_key),
            mac: keyed(FRAME_PAYLOAD_MAC::label(), req_key),
        }
    }
}

impl View for HeaderState {
    type V = HeaderView;

    closed spec fn view(&self) -> HeaderView {
        HeaderView { cipher: self.cipher@, mac: self.mac@ }
    }
}

impl View for RequestState {
    type V = RequestView;

    closed spec fn view(&self) -> RequestView {
        RequestView { next_msg_id: self.next_msg_id, cipher: self.cipher@, mac: self.mac@ }
    }
}

/// What the frame length field holds for a payload of `payload_len` bytes.
pub open spec fn frame_len_field(payload_len: nat) -> u16 {
    ((payload_len + 72) % 0x10000) as u16
}

/// What one frame leaves behind and what it is on the wire.
pub struct Sealed {
    pub header: HeaderView,
    pub request: RequestView,
    pub frame: Seq<u8>,
}

/// What reading one frame leaves behind and what it gives.
pub struct Opened {
    pub header: HeaderView,
    pub request: RequestView,
    pub payload: Result<Seq<u8>, Error>,
}

/// The frame that carries `payload` as the frame `frame_id` of the message
/// `msg_id` on the request `req_id`, and the two states after it.
pub open spec fn seal_frame(
    header: HeaderView,
    request: RequestView,
    req_id: u16,
    msg_id: u16,
    frame_id: u16,
    payload: Seq<u8>,
) -> Sealed {
    let encrypted = xor_seq(payload, request.cipher.output(payload.len()));
    let cipher = request.cipher.squeeze(payload.len());
    let mac = request.mac.absorb(encrypted);
    let behind = behind_bytes(mac.output(32), msg_id, frame_id);
    let frame_len = frame_len_field(payload.len());
    let header_mac = header.mac.absorb(
        le_bytes(req_id as nat, 2) + le_bytes(frame_len as nat, 2),
    );
    let ahead = ahead_bytes(req_id, frame_len, header_mac.output(32));
    Sealed {
        header: HeaderView { cipher: header.cipher.squeeze(36), mac: header_mac.squeeze(32) },
        request: RequestView {
            next_msg_id: request.next_msg_id,
            cipher: cipher.squeeze(36),
            mac: mac.squeeze(32),
        },
        frame: xor_seq(ahead, header.cipher.output(36)) + encrypted + xor_seq(
            behind,
            cipher.output(36),
        ),
    }
}

/// What reading `frame` gives where the frame `frame_id` of the message
/// `msg_id` on the request `req_id` is expected, and the two states after it.
///
/// The checks come in this order: the frame is between 72 and 65536 bytes
/// long (`MalformedInput`, and nothing has moved); the header MAC matches
/// (`MacInvalid`); the header names this request and the length of this frame
/// (`MalformedInput`); the payload MAC matches (`MacInvalid`); the header
/// behind names this message and this frame (`MalformedInput`). The payload is
/// given only where all of them hold.
pub open spec fn open_frame(
    header: HeaderView,
    request: RequestView,
    req_id: u16,
    msg_id: u16,
    frame_id: u16,
    frame: Seq<u8>,
) -> Opened {
    if frame.len() < 72 || frame.len() > 0x10000 {
        Opened { header, request, payload: Err(Error::MalformedInput) }
    } else {
        let len = frame.len() - 72;
        let ahead = xor_seq(frame.subrange(0, 36), header.cipher.output(36));
        let header_mac = header.mac.absorb(ahead.subrange(0, 4));
        let header_after = HeaderView {
            cipher: header.cipher.squeeze(36),
            mac: header_mac.squeeze(32),
        };
        if ahead.subrange(4, 36) != header_mac.output(32) {
            Opened { header: header_after, request, payload: Err(Error::MacInvalid) }
        } else if le_nat(ahead.subrange(0, 2)) != req_id || le_nat(ahead.subrange(2, 4))
            != frame_len_field(len as nat) {
            Opened { header: header_after, request, payload: Err(Error::MalformedInput) }
        } else {
            let encrypted = frame.subrange(36, 36 + len);
            let mac = request.mac.absorb(encrypted);
            let payload = xor_seq(encrypted, request.cipher.output(len as nat));
            let cipher = request.cipher.squeeze(len as nat);
            let behind = xor_seq(frame.subrange(36 + len, 72 + len), cipher.output(36));
            let request_after = RequestView {
                next_msg_id: request.next_msg_id,
                cipher: cipher.squeeze(36),
                mac: mac.squeeze(32),
            };
            if behind.subrange(0, 32) != mac.output(32) {
                Opened {
                    header: header_after,
                    request: request_after,
                    payload: Err(Error::MacInvalid),
                }
            } else if le_nat(behind.subrange(32, 34)) != msg_id || le_nat(behind.subrange(34, 36))
                != frame_id {
                Opened {
                    header: header_after,
                    request: request_after,
                    payload: Err(Error::MalformedInput),
                }
            } else {
                Opened { header: header_after, request: request_after, payload: Ok(payload) }
            }
        }
    }
}

/// Appends `src` to `dest`.
pub fn append(dest: &mut Vec<u8>, src: &[u8])
    ensures
        final(dest)@ == old(dest)@ + src@,
{
    let n = src.len();
    let mut i: usize = 0;
    while i < n
        invariant
            i <= n,
            n == src@.len(),
            dest@ == old(dest)@ + src@.subrange(0, i as int),
        decreases n - i,
    {
        dest.push(src[i]);
        assert(src@.subrange(0, i + 1) =~= src@.subrange(0, i as int).push(src@[i as int]));
        i += 1;
    }
    assert(src@.subrange(0, n as int) =~= src@);
}

impl HeaderState {
    /// The header cipher and MAC, each a fresh sponge that has absorbed the
    /// header key.
    pub fn init(header_key: &[u8; 32]) -> (header: HeaderState)
        ensures
            header@ == HeaderView::initial(header_key@),
    {
        HeaderState {
            cipher: FRAME_HEADER_CIPHER.create().chain_absorb(header_key),
            mac: FRAME_HEADER_MAC.create().chain_absorb(header_key),
        }
    }
}

impl RequestState {
    /// A new request: message id 0, and the payload cipher and MAC, each a
    /// fresh sponge that has absorbed the request's key.
    pub fn init(req_key: &[u8; 32]) -> (request: RequestState)
        ensures
            request@ == RequestView::initial(req_key@),
    {
        RequestState {
            next_msg_id: 0,
            cipher: FRAME_PAYLOAD_CIPHER.create().chain_absorb(req_key),
            mac: FRAME_PAYLOAD_MAC.create().chain_absorb(req_key),
        }
    }

    /// The id of the request's next message.
    pub fn next_msg_id(&self) -> (id: u16)
        ensures
            id == self@.next_msg_id,
    {
        self.next_msg_id
    }

    /// Starts a message: gives its id and moves the counter on. The last id,
    /// 65535, is never given: a counter that has reached it stays there.
    pub fn begin_message(&mut self) -> (id: Option<u16>)
        ensures
            final(self)@.cipher == old(self)@.cipher,
            final(self)@.mac == old(self)@.mac,
            id == if old(self)@.next_msg_id < u16::MAX {
                Some(old(self)@.next_msg_id)
            } else {
                None
            },
            final(self)@.next_msg_id == if old(self)@.next_msg_id < u16::MAX {
                old(self)@.next_msg_id + 1
            } else {
                u16::MAX as int
            },
    {
        if self.next_msg_id == u16::MAX {
            None
        } else {
            let id = self.next_msg_id;
            self.next_msg_id = id + 1;
            Some(id)
        }
    }

    /// Makes the frame that carries `payload`.
    pub fn seal_frame(
        &mut self,
        header: &mut HeaderState,
        req_id: u16,
        msg_id: u16,
        frame_id: u16,
        payload: &[u8],
    ) -> (frame: Vec<u8>)
        requires
            payload@.len() <= FR_PAYLOAD_L_MAX,
        ensures
            ({
                let sealed = seal_frame(
                    old(header)@,
                    old(self)@,
                    req_id,
                    msg_id,
                    frame_id,
                    payload@,
                );
                &&& frame@ == sealed.frame
                &&& final(header)@ == sealed.header
                &&& final(self)@ == sealed.request
            }),
    {
        let len = payload.len();
        let mut encrypted = slice_to_vec(payload);
        self.cipher.squeeze_xor_slice(encrypted.as_mut_slice());
        self.mac.absorb(encrypted.as_slice());
        let behind = FrameBehindHeader {
            mac: self.mac.squeeze_to_array::<32>(),
            msg_id,
            frame_id,
        };
        let frame_len: u16 = ((len + 72) % 0x10000) as u16;
        let mut covered = [0u8; 4];
        put(&mut covered, 0, &u16_to_bytes(req_id));
        put(&mut covered, 2, &u16_to_bytes(frame_len));
        proof {
            lemma_le_bytes_len(req_id as nat, 2);
            lemma_le_bytes_len(frame_len as nat, 2);
            assert(covered@ =~= le_bytes(req_id as nat, 2) + le_bytes(frame_len as nat, 2));
        }
        header.mac.absorb(&covered);
        let ahead = FrameAheadHeader {
            req_id,
            frame_len,
            mac: header.mac.squeeze_to_array::<32>(),
        };
        let mut ahead_bytes = ahead.to_bytes();
        header.cipher.squeeze_xor_array::<36>(&mut ahead_bytes);
        let mut behind_bytes = behind.to_bytes();
        self.cipher.squeeze_xor_array::<36>(&mut behind_bytes);
        let mut frame: Vec<u8> = Vec::new();
        append(&mut frame, &ahead_bytes);
        append(&mut frame, encrypted.as_slice());
        append(&mut frame, &behind_bytes);
        assert(frame@ =~= ahead_bytes@ + encrypted@ + behind_bytes@);
        frame
    }

    /// Reads a frame: checks both MACs and what the headers name, and gives
    /// the payload where all of it holds.
    pub fn open_frame(
        &mut self,
        header: &mut HeaderState,
        req_id: u16,
        msg_id: u16,
        frame_id: u16,
        frame: &[u8],
    ) -> (payload: Result<Vec<u8>, Error>)
        ensures
            ({
                let opened = open_frame(old(header)@, old(self)@, req_id, msg_id, frame_id, frame@);
                &&& final(header)@ == opened.header
                &&& final(self)@ == opened.request
                &&& payload matches Ok(bytes) ==> opened.payload == Ok::<Seq<u8>, Error>(bytes@)
                &&& payload matches Err(e) ==> opened.payload == Err::<Seq<u8>, Error>(e)
            }),
    {
        if frame.len() < 72 || frame.len() > 0x10000 {
            return Err(Error::MalformedInput);
        }
        let len = frame.len() - 72;
        let mut ahead_bytes = take::<36>(frame, 0);
        header.cipher.squeeze_xor_array::<36>(&mut ahead_bytes);
        let ahead = FrameAheadHeader::from_bytes(ahead_bytes);
        let covered = take::<4>(&ahead_bytes, 0);
        header.mac.absorb(&covered);
        let header_mac = header.mac.squeeze_to_array::<32>();
        if !ct_eq(&header_mac, &ahead.mac) {
            return Err(Error::MacInvalid);
        }
        let frame_len: u16 = ((len + 72) % 0x10000) as u16;
        if ahead.req_id != req_id || ahead.frame_len != frame_len {
            return Err(Error::MalformedInput);
        }
        let encrypted = slice_subrange(frame, 36, 36 + len);
        self.mac.absorb(encrypted);
        let payload_mac = self.mac.squeeze_to_array::<32>();
        let mut payload = slice_to_vec(encrypted);
        self.cipher.squeeze_xor_slice(payload.as_mut_slice());
        let mut behind_bytes = take::<36>(frame, 36 + len);
        self.cipher.squeeze_xor_array::<36>(&mut behind_bytes);
        let behind = FrameBehindHeader::from_bytes(behind_bytes);
        if !ct_eq(&payload_mac, &behind.mac) {
            wipe(payload.as_mut_slice());
            return Err(Error::MacInvalid);
        }
        if behind.msg_id != msg_id || behind.frame_id != frame_id {
            wipe(payload.as_mut_slice());
            return Err(Error::MalformedInput);
        }
        Ok(payload)
    }
}

/// The parts of a sealed frame: where they lie and how long they are.
pub proof fn lemma_sealed_parts(
    header: HeaderView,
    request: RequestView,
    req_id: u16,
    msg_id: u16,
    frame_id: u16,
    payload: Seq<u8>,
)
    ensures
        ({
            let frame = seal_frame(header, request, req_id, msg_id, frame_id, payload).frame;
            let len = payload.len() as int;
            let encrypted = xor_seq(payload, request.cipher.output(payload.len()));
            let mac = request.mac.absorb(encrypted);
            let frame_len = frame_len_field(payload.len());
            let header_mac = header.mac.absorb(
                le_bytes(req_id as nat, 2) + le_bytes(frame_len as nat, 2),
            );
            let ahead = ahead_bytes(req_id, frame_len, header_mac.output(32));
            let behind = behind_bytes(mac.output(32), msg_id, frame_id);
            &&& frame.len() == len + 72
            &&& ahead.len() == 36
            &&& behind.len() == 36
            &&& frame.subrange(0, 36) == xor_seq(ahead, header.cipher.output(36))
            &&& frame.subrange(36, 36 + len) == encrypted
            &&& frame.subrange(36 + len, 72 + len) == xor_seq(
                behind,
                request.cipher.squeeze(payload.len()).output(36),
            )
        }),
{
    let frame = seal_frame(header, request, req_id, msg_id, frame_id, payload).frame;
    let len = payload.len() as int;
    let encrypted = xor_seq(payload, request.cipher.output(payload.len()));
    let mac = request.mac.absorb(encrypted);
    let frame_len = frame_len_field(payload.len());
    let header_mac = header.mac.absorb(le_bytes(req_id as nat, 2) + le_bytes(frame_len as nat, 2));
    let ahead = ahead_bytes(req_id, frame_len, header_mac.output(32));
    let behind = behind_bytes(mac.output(32), msg_id, frame_id);
    lemma_le_bytes_len(req_id as nat, 2);
    lemma_le_bytes_len(frame_len as nat, 2);
    lemma_le_bytes_len(msg_id as nat, 2);
    lemma_le_bytes_len(frame_id as nat, 2);
    let a = xor_seq(ahead, header.cipher.output(36));
    let b = xor_seq(behind, request.cipher.squeeze(payload.len()).output(36));
    assert(frame == a + encrypted + b);
    assert(frame.subrange(0, 36) =~= a);
    assert(frame.subrange(36, 36 + len) =~= encrypted);
    assert(frame.subrange(36 + len, 72 + len) =~= b);
}

/// A 16-bit number is read back from its two bytes.
pub proof fn lemma_u16_round_trip(x: u16)
    ensures
        le_nat(le_bytes(x as nat, 2)) == x,
        le_bytes(x as nat, 2).len() == 2,
{
    reveal_with_fuel(pow256, 3);
    lemma_le_nat_of_le_bytes(x as nat, 2);
    lemma_le_bytes_len(x as nat, 2);
}

/// Reading a frame with the states it was made with gives the payload back
/// and leaves the states that making it left.
pub proof fn lemma_frame_round_trip(
    header: HeaderView,
    request: RequestView,
    req_id: u16,
    msg_id: u16,
    frame_id: u16,
    payload: Seq<u8>,
)
    requires
        payload.len() <= FR_PAYLOAD_L_MAX,
    ensures
        ({
            let sealed = seal_frame(header, request, req_id, msg_id, frame_id, payload);
            let opened = open_frame(header, request, req_id, msg_id, frame_id, sealed.frame);
            &&& opened.payload == Ok::<Seq<u8>, Error>(payload)
            &&& opened.header == sealed.header
            &&& opened.request == sealed.request
            &&& sealed.frame.len() == payload.len() + 72
        }),
{
    let sealed = seal_frame(header, request, req_id, msg_id, frame_id, payload);
    let frame = sealed.frame;
    let len = payload.len() as int;
    let encrypted = xor_seq(payload, request.cipher.output(payload.len()));
    let cipher = request.cipher.squeeze(payload.len());
    let mac = request.mac.absorb(encrypted);
    let frame_len = frame_len_field(payload.len());
    let covered = le_bytes(req_id as nat, 2) + le_bytes(frame_len as nat, 2);
    let header_mac = header.mac.absorb(covered);
    let ahead = ahead_bytes(req_id, frame_len, header_mac.output(32));
    let behind = behind_bytes(mac.output(32), msg_id, frame_id);
    lemma_sealed_parts(header, request, req_id, msg_id, frame_id, payload);
    lemma_u16_round_trip(req_id);
    lemma_u16_round_trip(frame_len);
    lemma_u16_round_trip(msg_id);
    lemma_u16_round_trip(frame_id);
    lemma_xor_twice(ahead, header.cipher.output(36));
    lemma_xor_twice(behind, cipher.output(36));
    lemma_xor_twice(payload, request.cipher.output(payload.len()));
    assert(ahead.subrange(0, 4) =~= covered);
    assert(ahead.subrange(0, 2) =~= le_bytes(req_id as nat, 2));
    assert(ahead.subrange(2, 4) =~= le_bytes(frame_len as nat, 2));
    assert(ahead.subrange(4, 36) =~= header_mac.output(32));
    assert(behind.subrange(0, 32) =~= mac.output(32));
    assert(behind.subrange(32, 34) =~= le_bytes(msg_id as nat, 2));
    assert(behind.subrange(34, 36) =~= le_bytes(frame_id as nat, 2));
}

/// XOR with one mask keeps two different bytes different.
pub proof fn lemma_xor_keeps_difference(a: u8, b: u8, m: u8)
    requires
        a != b,
    ensures
        a ^ m != b ^ m,
{
    assert(a != b ==> a ^ m != b ^ m) by (bit_vector);
}

/// A frame in which one byte of either MAC was replaced is refused with
/// `MacInvalid`: `tampered` is the frame that carries `payload`, but for the
/// byte at the place `at`, which lies in the MAC of the header ahead or in
/// the MAC of the header behind.
pub proof fn lemma_tampered_mac_is_refused(
    header: HeaderView,
    request: RequestView,
    req_id: u16,
    msg_id: u16,
    frame_id: u16,
    payload: Seq<u8>,
    tampered: Seq<u8>,
    at: int,
)
    requires
        payload.len() <= FR_PAYLOAD_L_MAX,
        tampered.len() == payload.len() + 72,
        4 <= at < 36 || 36 + payload.len() <= at < 68 + payload.len(),
        tampered[at] != seal_frame(header, request, req_id, msg_id, frame_id, payload).frame[at],
        forall|i: int|
            0 <= i < tampered.len() && i != at ==> tampered[i] == seal_frame(
                header,
                request,
                req_id,
                msg_id,
                frame_id,
                payload,
            ).frame[i],
    ensures
        open_frame(header, request, req_id, msg_id, frame_id, tampered).payload == Err::<
            Seq<u8>,
            Error,
        >(Error::MacInvalid),
{
    let sealed = seal_frame(header, request, req_id, msg_id, frame_id, payload);
    let frame = sealed.frame;
    let len = payload.len() as int;
    let encrypted = xor_seq(payload, request.cipher.output(payload.len()));
    let cipher = request.cipher.squeeze(payload.len());
    let mac = request.mac.absorb(encrypted);
    let frame_len = frame_len_field(payload.len());
    let covered = le_bytes(req_id as nat, 2) + le_bytes(frame_len as nat, 2);
    let header_mac = header.mac.absorb(covered);
    let ahead = ahead_bytes(req_id, frame_len, header_mac.output(32));
    let behind = behind_bytes(mac.output(32), msg_id, frame_id);
    lemma_sealed_parts(header, request, req_id, msg_id, frame_id, payload);
    lemma_frame_round_trip(header, request, req_id, msg_id, frame_id, payload);
    lemma_u16_round_trip(req_id);
    lemma_u16_round_trip(frame_len);
    lemma_xor_twice(ahead, header.cipher.output(36));
    lemma_xor_twice(behind, cipher.output(36));
    let ahead_mask = header.cipher.output(36);
    let behind_mask = cipher.output(36);
    let got_ahead = xor_seq(tampered.subrange(0, 36), ahead_mask);
    assert(ahead.subrange(0, 4) =~= covered);
    assert(ahead.subrange(0, 2) =~= le_bytes(req_id as nat, 2));
    assert(ahead.subrange(2, 4) =~= le_bytes(frame_len as nat, 2));
    assert(ahead.subrange(4, 36) =~= header_mac.output(32));
    assert(got_ahead.subrange(0, 4) =~= ahead.subrange(0, 4)) by {
        assert forall|i: int| 0 <= i < 4 implies got_ahead.subrange(0, 4)[i] == ahead.subrange(
            0,
            4,
        )[i] by {
            assert(tampered.subrange(0, 36)[i] == frame.subrange(0, 36)[i]);
        }
    }
    if at < 36 {
        let i = at - 4;
        assert(tampered.subrange(0, 36)[at] == tampered[at]);
        assert(frame.subrange(0, 36)[at] == frame[at]);
        assert(frame.subrange(0, 36)[at] == ahead[at] ^ ahead_mask[at]);
        lemma_xor_keeps_difference(tampered[at], frame[at], ahead_mask[at]);
        let x: u8 = ahead[at];
        let m: u8 = ahead_mask[at];
        assert((x ^ m) ^ m == x) by (bit_vector);
        assert(got_ahead[at] != ahead[at]);
        assert(got_ahead.subrange(4, 36)[i] != header_mac.output(32)[i]);
    } else {
        assert(got_ahead =~= ahead) by {
            assert forall|i: int| 0 <= i < 36 implies got_ahead[i] == ahead[i] by {
                assert(tampered.subrange(0, 36)[i] == frame.subrange(0, 36)[i]);
                let x: u8 = ahead[i];
                let m: u8 = ahead_mask[i];
                assert((x ^ m) ^ m == x) by (bit_vector);
            }
        }
        assert(tampered.subrange(36, 36 + len) =~= encrypted) by {
            assert forall|i: int| 0 <= i < len implies tampered.subrange(36, 36 + len)[i]
                == encrypted[i] by {
                assert(frame.subrange(36, 36 + len)[i] == frame[36 + i]);
            }
        }
        let got_behind = xor_seq(tampered.subrange(36 + len, 72 + len), behind_mask);
        let j = at - 36 - len;
        assert(tampered.subrange(36 + len, 72 + len)[j] == tampered[at]);
        assert(frame.subrange(36 + len, 72 + len)[j] == frame[at]);
        assert(frame.subrange(36 + len, 72 + len)[j] == behind[j] ^ behind_mask[j]);
        lemma_xor_keeps_difference(tampered[at], frame[at], behind_mask[j]);
        let x: u8 = behind[j];
        let m: u8 = behind_mask[j];
        assert((x ^ m) ^ m == x) by (bit_vector);
        assert(got_behind[j] != behind[j]);
        assert(behind.subrange(0, 32) =~= mac.output(32));
        assert(got_behind.subrange(0, 32)[j] != mac.output(32)[j]);
    }
}

/// What the frames of one message leave behind and what they are on the wire.
pub struct SealedFrames {
    pub header: HeaderView,
    pub request: RequestView,
    pub frames: Seq<Seq<u8>>,
}

/// The longest message that can be framed: 65536 frames, each full.
pub open spec fn max_message_len() -> nat {
    0x10000 * FR_PAYLOAD_L_MAX as nat
}

/// The length of the first chunk of a message.
pub open spec fn first_chunk_len(msg: Seq<u8>) -> int {
    if msg.len() < FR_PAYLOAD_L_MAX {
        msg.len() as int
    } else {
        FR_PAYLOAD_L_MAX as int
    }
}

/// The frames that carry `msg` as the message `msg_id` on the request
/// `req_id`, numbered from `frame_id`, and the two states after them. The
/// message is cut into chunks of `FR_PAYLOAD_L_MAX` bytes, the last one
/// possibly shorter; the empty message has no chunk and no frame.
pub open spec fn seal_frames(
    header: HeaderView,
    request: RequestView,
    req_id: u16,
    msg_id: u16,
    frame_id: nat,
    msg: Seq<u8>,
) -> SealedFrames
    decreases msg.len(),
{
    if msg.len() == 0 {
        SealedFrames { header, request, frames: Seq::empty() }
    } else {
        let len = first_chunk_len(msg);
        let first = seal_frame(header, request, req_id, msg_id, frame_id as u16, msg.subrange(0, len));
        let rest = seal_frames(
            first.header,
            first.request,
            req_id,
            msg_id,
            frame_id + 1,
            msg.subrange(len, msg.len() as int),
        );
        SealedFrames {
            header: rest.header,
            request: rest.request,
            frames: seq![first.frame] + rest.frames,
        }
    }
}

/// What reading `frames` gives where they are expected to be the frames of the
/// message `msg_id` on the request `req_id`, numbered from `frame_id`: the
/// payloads joined, or the error of the first frame that is refused; and the
/// two states after the last frame read.
pub open spec fn open_frames(
    header: HeaderView,
    request: RequestView,
    req_id: u16,
    msg_id: u16,
    frame_id: nat,
    frames: Seq<Seq<u8>>,
) -> Opened
    decreases frames.len(),
{
    if frames.len() == 0 {
        Opened { header, request, payload: Ok(Seq::empty()) }
    } else {
        let first = open_frame(header, request, req_id, msg_id, frame_id as u16, frames[0]);
        match first.payload {
            Err(e) => first,
            Ok(payload) => {
                let rest = open_frames(
                    first.header,
                    first.request,
                    req_id,
                    msg_id,
                    frame_id + 1,
                    frames.subrange(1, frames.len() as int),
                );
                match rest.payload {
                    Err(e) => rest,
                    Ok(tail) => Opened {
                        header: rest.header,
                        request: rest.request,
                        payload: Ok(payload + tail),
                    },
                }
            },
        }
    }
}

/// The bytes of each of some frames.
pub open spec fn each_view(frames: Seq<Vec<u8>>) -> Seq<Seq<u8>> {
    frames.map_values(|frame: Vec<u8>| frame@)
}

/// The number of frames that a message of `len` bytes takes.
pub open spec fn frame_count(len: nat) -> nat {
    ((len + FR_PAYLOAD_L_MAX - 1) / FR_PAYLOAD_L_MAX as int) as nat
}

/// A message takes as many frames as it has chunks, and none where it is
/// empty.
pub proof fn lemma_frame_count(
    header: HeaderView,
    request: RequestView,
    req_id: u16,
    msg_id: u16,
    frame_id: nat,
    msg: Seq<u8>,
)
    ensures
        seal_frames(header, request, req_id, msg_id, frame_id, msg).frames.len() == frame_count(
            msg.len(),
        ),
        msg.len() == 0 ==> seal_frames(header, request, req_id, msg_id, frame_id, msg).frames
            == Seq::<Seq<u8>>::empty(),
    decreases msg.len(),
{
    if msg.len() > 0 {
        let len = first_chunk_len(msg);
        let first = seal_frame(header, request, req_id, msg_id, frame_id as u16, msg.subrange(0, len));
        let tail = msg.subrange(len, msg.len() as int);
        lemma_frame_count(first.header, first.request, req_id, msg_id, frame_id + 1, tail);
        let max = FR_PAYLOAD_L_MAX as int;
        assert(max == 65464);
        if msg.len() < FR_PAYLOAD_L_MAX {
            assert(tail.len() == 0);
            assert((msg.len() + max - 1) / max == 1);
            assert((0 + max - 1) / max == 0);
        } else {
            assert(tail.len() == msg.len() - max);
            assert((msg.len() + max - 1) / max == (tail.len() + max - 1) / max + 1) by {
                vstd::arithmetic::div_mod::lemma_div_plus_one(tail.len() + max - 1, max);
            }
        }
    } else {
        assert(FR_PAYLOAD_L_MAX == 65464);
    }
}

/// Reading the frames of a message with the states they were made with gives
/// the message back and leaves the states that making them left.
pub proof fn lemma_frames_round_trip(
    header: HeaderView,
    request: RequestView,
    req_id: u16,
    msg_id: u16,
    frame_id: nat,
    msg: Seq<u8>,
)
    ensures
        ({
            let sealed = seal_frames(header, request, req_id, msg_id, frame_id, msg);
            let opened = open_frames(header, request, req_id, msg_id, frame_id, sealed.frames);
            &&& opened.payload == Ok::<Seq<u8>, Error>(msg)
            &&& opened.header == sealed.header
            &&& opened.request == sealed.request
        }),
    decreases msg.len(),
{
    let sealed = seal_frames(header, request, req_id, msg_id, frame_id, msg);
    if msg.len() > 0 {
        let len = first_chunk_len(msg);
        let chunk = msg.subrange(0, len);
        let tail = msg.subrange(len, msg.len() as int);
        let first = seal_frame(header, request, req_id, msg_id, frame_id as u16, chunk);
        let rest = seal_frames(first.header, first.request, req_id, msg_id, frame_id + 1, tail);
        lemma_frame_round_trip(header, request, req_id, msg_id, frame_id as u16, chunk);
        lemma_frames_round_trip(first.header, first.request, req_id, msg_id, frame_id + 1, tail);
        assert(sealed.frames[0] == first.frame);
        assert(sealed.frames.subrange(1, sealed.frames.len() as int) =~= rest.frames);
        assert(chunk + tail =~= msg);
    } else {
        assert(msg =~= Seq::<u8>::empty());
    }
}

/// Whether `tampered` is `frames` but for one byte: the byte at the place `at`
/// of the frame `k`, which lies in the MAC of that frame's header ahead or in
/// the MAC of its header behind.
pub open spec fn mac_byte_replaced(
    frames: Seq<Seq<u8>>,
    tampered: Seq<Seq<u8>>,
    k: int,
    at: int,
) -> bool {
    &&& tampered.len() == frames.len()
    &&& 0 <= k < frames.len()
    &&& forall|j: int| 0 <= j < frames.len() && j != k ==> tampered[j] == frames[j]
    &&& tampered[k].len() == frames[k].len()
    &&& 4 <= at < 36 || frames[k].len() - 36 <= at < frames[k].len() - 4
    &&& tampered[k][at] != frames[k][at]
    &&& forall|i: int| 0 <= i < frames[k].len() && i != at ==> tampered[k][i] == frames[k][i]
}

/// The frames of a message in which one byte of a MAC was replaced are
/// refused with `MacInvalid`, whichever frame and whichever byte it was.
pub proof fn lemma_tampered_frames_are_refused(
    header: HeaderView,
    request: RequestView,
    req_id: u16,
    msg_id: u16,
    frame_id: nat,
    msg: Seq<u8>,
    tampered: Seq<Seq<u8>>,
    k: int,
    at: int,
)
    requires
        mac_byte_replaced(
            seal_frames(header, request, req_id, msg_id, frame_id, msg).frames,
            tampered,
            k,
            at,
        ),
    ensures
        open_frames(header, request, req_id, msg_id, frame_id, tampered).payload == Err::<
            Seq<u8>,
            Error,
        >(Error::MacInvalid),
    decreases msg.len(),
{
    let sealed = seal_frames(header, request, req_id, msg_id, frame_id, msg);
    if msg.len() > 0 {
        let len = first_chunk_len(msg);
        let chunk = msg.subrange(0, len);
        let tail = msg.subrange(len, msg.len() as int);
        let first = seal_frame(header, request, req_id, msg_id, frame_id as u16, chunk);
        let rest = seal_frames(first.header, first.request, req_id, msg_id, frame_id + 1, tail);
        assert(sealed.frames[0] == first.frame);
        assert(sealed.frames.subrange(1, sealed.frames.len() as int) =~= rest.frames);
        lemma_frame_round_trip(header, request, req_id, msg_id, frame_id as u16, chunk);
        if k == 0 {
            lemma_tampered_mac_is_refused(
                header,
                request,
                req_id,
                msg_id,
                frame_id as u16,
                chunk,
                tampered[0],
                at,
            );
        } else {
            let later = tampered.subrange(1, tampered.len() as int);
            assert(tampered[0] == sealed.frames[0]);
            assert(mac_byte_replaced(rest.frames, later, k - 1, at)) by {
                assert(later[k - 1] == tampered[k]);
                assert(rest.frames[k - 1] == sealed.frames[k]);
                assert forall|j: int| 0 <= j < rest.frames.len() && j != k - 1 implies later[j]
                    == rest.frames[j] by {
                    assert(later[j] == tampered[j + 1]);
                    assert(rest.frames[j] == sealed.frames[j + 1]);
                }
            }
            lemma_tampered_frames_are_refused(
                first.header,
                first.request,
                req_id,
                msg_id,
                frame_id + 1,
                tail,
                later,
                k - 1,
                at,
            );
        }
    }
}

impl RequestState {
    /// Makes the frames that carry `msg` as the message `msg_id`, in order.
    pub fn seal_message(&mut self, header: &mut HeaderState, req_id: u16, msg_id: u16, msg: &[u8]) -> (frames:
        Vec<Vec<u8>>)
        requires
            msg@.len() <= max_message_len(),
        ensures
            ({
                let sealed = seal_frames(old(header)@, old(self)@, req_id, msg_id, 0, msg@);
                &&& each_view(frames@) == sealed.frames
                &&& final(header)@ == sealed.header
                &&& final(self)@ == sealed.request
            }),
    {
        let len = msg.len();
        let mut frames: Vec<Vec<u8>> = Vec::new();
        let mut offset: usize = 0;
        let mut frame_id: usize = 0;
        let ghost total = seal_frames(old(header)@, old(self)@, req_id, msg_id, 0, msg@);
        assert(msg@.subrange(0, len as int) =~= msg@);
        assert(each_view(frames@) =~= Seq::<Seq<u8>>::empty());
        while offset < len
            invariant
                len == msg@.len(),
                len <= max_message_len(),
                offset <= len,
                offset < len ==> offset == frame_id * FR_PAYLOAD_L_MAX,
                total == seal_frames(old(header)@, old(self)@, req_id, msg_id, 0, msg@),
                ({
                    let rest = seal_frames(
                        header@,
                        self@,
                        req_id,
                        msg_id,
                        frame_id as nat,
                        msg@.subrange(offset as int, len as int),
                    );
                    &&& total.header == rest.header
                    &&& total.request == rest.request
                    &&& total.frames == each_view(frames@) + rest.frames
                }),
            decreases len - offset,
        {
            let end: usize = if len - offset > FR_PAYLOAD_L_MAX {
                offset + FR_PAYLOAD_L_MAX
            } else {
                len
            };
            let chunk = slice_subrange(msg, offset, end);
            let ghost remaining = msg@.subrange(offset as int, len as int);
            let ghost before = each_view(frames@);
            let ghost rest_before = seal_frames(
                header@,
                self@,
                req_id,
                msg_id,
                frame_id as nat,
                remaining,
            );
            proof {
                assert(frame_id < 0x10000) by (nonlinear_arith)
                    requires
                        offset == frame_id * FR_PAYLOAD_L_MAX,
                        offset < len,
                        len <= 0x10000 * FR_PAYLOAD_L_MAX,
                        FR_PAYLOAD_L_MAX == 65464,
                ;
                assert(remaining.subrange(0, first_chunk_len(remaining)) =~= chunk@);
                assert(remaining.subrange(first_chunk_len(remaining), remaining.len() as int)
                    =~= msg@.subrange(end as int, len as int));
            }
            let frame = self.seal_frame(header, req_id, msg_id, frame_id as u16, chunk);
            let ghost sealed = frame@;
            frames.push(frame);
            proof {
                assert(each_view(frames@) =~= before.push(sealed));
                let rest = seal_frames(
                    header@,
                    self@,
                    req_id,
                    msg_id,
                    (frame_id + 1) as nat,
                    msg@.subrange(end as int, len as int),
                );
                assert(rest_before.frames == seq![sealed] + rest.frames);
                assert(before + (seq![sealed] + rest.frames) =~= before.push(sealed) + rest.frames);
                assert(end < len ==> end == (frame_id + 1) * FR_PAYLOAD_L_MAX) by (nonlinear_arith)
                    requires
                        offset == frame_id * FR_PAYLOAD_L_MAX,
                        end < len ==> end == offset + FR_PAYLOAD_L_MAX,
                ;
            }
            offset = end;
            frame_id = frame_id + 1;
        }
        assert(msg@.subrange(len as int, len as int) =~= Seq::<u8>::empty());
        assert(each_view(frames@) + Seq::<Seq<u8>>::empty() =~= each_view(frames@));
        frames
    }

    /// Reads the frames of the message `msg_id`, in order, and gives the
    /// message; stops at the first frame that is refused.
    pub fn open_message(
        &mut self,
        header: &mut HeaderState,
        req_id: u16,
        msg_id: u16,
        frames: &[Vec<u8>],
    ) -> (msg: Result<Vec<u8>, Error>)
        requires
            frames@.len() <= 0x10000,
        ensures
            ({
                let opened = open_frames(
                    old(header)@,
                    old(self)@,
                    req_id,
                    msg_id,
                    0,
                    each_view(frames@),
                );
                &&& final(header)@ == opened.header
                &&& final(self)@ == opened.request
                &&& msg matches Ok(bytes) ==> opened.payload == Ok::<Seq<u8>, Error>(bytes@)
                &&& msg matches Err(e) ==> opened.payload == Err::<Seq<u8>, Error>(e)
            }),
    {
        let count = frames.len();
        let mut msg: Vec<u8> = Vec::new();
        let mut i: usize = 0;
        let ghost all = each_view(frames@);
        let ghost total = open_frames(old(header)@, old(self)@, req_id, msg_id, 0, all);
        assert(all.subrange(0, count as int) =~= all);
        while i < count
            invariant
                count == frames@.len(),
                count <= 0x10000,
                i <= count,
                all == each_view(frames@),
                all.len() == count,
                total == open_frames(old(header)@, old(self)@, req_id, msg_id, 0, all),
                ({
                    let rest = open_frames(
                        header@,
                        self@,
                        req_id,
                        msg_id,
                        i as nat,
                        all.subrange(i as int, count as int),
                    );
                    &&& total.header == rest.header
                    &&& total.request == rest.request
                    &&& total.payload == match rest.payload {
                        Ok(tail) => Ok::<Seq<u8>, Error>(msg@ + tail),
                        Err(e) => Err::<Seq<u8>, Error>(e),
                    }
                }),
            decreases count - i,
        {
            let ghost remaining = all.subrange(i as int, count as int);
            let ghost before = msg@;
            proof {
                assert(remaining[0] == frames@[i as int]@);
                assert(remaining.subrange(1, remaining.len() as int) =~= all.subrange(
                    i + 1,
                    count as int,
                ));
            }
            match self.open_frame(header, req_id, msg_id, i as u16, frames[i].as_slice()) {
                Err(e) => {
                    return Err(e);
                },
                Ok(mut payload) => {
                    let ghost opened = payload@;
                    append(&mut msg, payload.as_slice());
                    wipe(payload.as_mut_slice());
                    proof {
                        let rest = open_frames(
                            header@,
                            self@,
                            req_id,
                            msg_id,
                            (i + 1) as nat,
                            all.subrange(i + 1, count as int),
                        );
                        if let Ok(tail) = rest.payload {
                            assert(before + (opened + tail) =~= (before + opened) + tail);
                        }
                    }
                },
            }
            i = i + 1;
        }
        assert(all.subrange(count as int, count as int) =~= Seq::<Seq<u8>>::empty());
        assert(msg@ + Seq::<u8>::empty() =~= msg@);
        Ok(msg)
    }
}

} // verus!
