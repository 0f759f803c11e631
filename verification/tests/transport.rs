use bcsp_core::connection::{ConnectionPeer, ConnectionState, RequestId};
use bcsp_core::consts::{FR_L_MAX, FR_PAYLOAD_L_MAX};
use bcsp_core::cshake::CShakeCustom;
use bcsp_core::cshake_customs::{
    DH_SK_GEN_PRNG, FRAME_HEADER_CIPHER, FRAME_HEADER_MAC, FRAME_PAYLOAD_CIPHER,
    FRAME_PAYLOAD_MAC, REQ_KEY_DERIVE,
};
use bcsp_core::curve25519::{ExchangedSecret, XSK};
use bcsp_core::error::Error;

fn secret() -> ExchangedSecret {
    let mut rng = DH_SK_GEN_PRNG.create().chain_absorb(&[3u8; 64]);
    let a = XSK::generate(&mut rng);
    let b = XSK::generate(&mut rng);
    a.exchange(b.pk())
}

fn pair() -> (ConnectionState, ConnectionState) {
    (
        ConnectionState::init(ConnectionPeer::Client, 5, secret()),
        ConnectionState::init(ConnectionPeer::Server, 5, secret()),
    )
}

fn id(n: u16) -> RequestId {
    RequestId::new(n).unwrap()
}

fn message(len: usize) -> Vec<u8> {
    (0..len).map(|i| (i * 31 % 251) as u8).collect()
}

#[test]
fn request_id_is_not_zero() {
    assert!(RequestId::new(0).is_none());
    assert_eq!(RequestId::new(1).unwrap().get(), 1);
    assert_eq!(RequestId::new(65535).unwrap().get(), 65535);
}

#[test]
fn round_trip_of_a_short_message() {
    let (mut sender, mut receiver) = pair();
    let msg = message(100);
    let frames = sender.send_message(id(1), &msg).unwrap();
    assert_eq!(frames.len(), 1);
    assert_eq!(frames[0].len(), 172);
    assert_ne!(&frames[0][36..136], &msg[..]);
    assert_eq!(receiver.recv_message(id(1), &frames), Ok(msg));
}

#[test]
fn round_trip_keeps_both_sides_in_step() {
    let (mut client, mut server) = pair();
    for round in 0..4usize {
        let msg = message(10 + round);
        let frames = client.send_message(id(1), &msg).unwrap();
        assert_eq!(server.recv_message(id(1), &frames), Ok(msg));
        let answer = message(1000 * round);
        let frames = server.send_message(id(2), &answer).unwrap();
        assert_eq!(client.recv_message(id(2), &frames), Ok(answer));
    }
    // after the same traffic the two make the same frames
    let a = client.send_message(id(1), b"x").unwrap();
    let b = server.send_message(id(1), b"x").unwrap();
    assert_eq!(a, b);
}

#[test]
fn empty_message_takes_no_frame() {
    let (mut sender, mut receiver) = pair();
    let frames = sender.send_message(id(1), &[]).unwrap();
    assert!(frames.is_empty());
    assert_eq!(receiver.recv_message(id(1), &frames), Ok(Vec::new()));
    // the empty message used up a message id on both sides
    let frames = sender.send_message(id(1), b"next").unwrap();
    assert_eq!(receiver.recv_message(id(1), &frames), Ok(b"next".to_vec()));
}

#[test]
fn empty_message_uses_a_message_id() {
    let (mut sender, mut receiver) = pair();
    sender.send_message(id(1), &[]).unwrap();
    let frames = sender.send_message(id(1), b"second").unwrap();
    // the receiver has not seen the empty message and expects message 0
    assert_eq!(receiver.recv_message(id(1), &frames), Err(Error::MalformedInput));
}

#[test]
fn full_frame_round_trip() {
    let (mut sender, mut receiver) = pair();
    let msg = message(FR_PAYLOAD_L_MAX);
    let frames = sender.send_message(id(7), &msg).unwrap();
    assert_eq!(frames.len(), 1);
    assert_eq!(frames[0].len(), FR_L_MAX);
    assert_eq!(receiver.recv_message(id(7), &frames), Ok(msg));
}

#[test]
fn message_is_split_into_frames() {
    let (mut sender, mut receiver) = pair();
    let msg = message(2 * FR_PAYLOAD_L_MAX + 1);
    let frames = sender.send_message(id(7), &msg).unwrap();
    assert_eq!(frames.len(), 3);
    assert_eq!(frames[0].len(), FR_L_MAX);
    assert_eq!(frames[1].len(), FR_L_MAX);
    assert_eq!(frames[2].len(), 73);
    assert_eq!(receiver.recv_message(id(7), &frames), Ok(msg));
}

#[test]
fn frame_tamper() {
    let (mut sender, mut receiver) = pair();
    let mut frames = sender.send_message(id(1), &message(100)).unwrap();
    // a bit of the MAC in the header ahead
    frames[0][4] ^= 1;
    assert_eq!(receiver.recv_message(id(1), &frames), Err(Error::MacInvalid));
}

#[test]
fn every_mac_byte_is_checked() {
    for at in (4..36).chain(136..168) {
        let (mut sender, mut receiver) = pair();
        let mut frames = sender.send_message(id(1), &message(100)).unwrap();
        frames[0][at] ^= 0x80;
        assert_eq!(receiver.recv_message(id(1), &frames), Err(Error::MacInvalid));
    }
}

#[test]
fn every_ciphertext_byte_is_checked() {
    for at in 36..136 {
        let (mut sender, mut receiver) = pair();
        let mut frames = sender.send_message(id(1), &message(100)).unwrap();
        frames[0][at] ^= 1;
        assert_eq!(receiver.recv_message(id(1), &frames), Err(Error::MacInvalid));
    }
}

#[test]
fn tampered_header_fields_are_refused() {
    for at in 0..4 {
        let (mut sender, mut receiver) = pair();
        let mut frames = sender.send_message(id(1), &message(100)).unwrap();
        frames[0][at] ^= 1;
        assert_eq!(receiver.recv_message(id(1), &frames), Err(Error::MacInvalid));
    }
    for at in 168..172 {
        let (mut sender, mut receiver) = pair();
        let mut frames = sender.send_message(id(1), &message(100)).unwrap();
        frames[0][at] ^= 1;
        assert_eq!(receiver.recv_message(id(1), &frames), Err(Error::MalformedInput));
    }
}

#[test]
fn tamper_in_a_later_frame() {
    let (mut sender, mut receiver) = pair();
    let mut frames = sender.send_message(id(1), &message(FR_PAYLOAD_L_MAX + 10)).unwrap();
    frames[1][40] ^= 1;
    assert_eq!(receiver.recv_message(id(1), &frames), Err(Error::MacInvalid));
}

#[test]
fn frames_of_the_wrong_length_are_malformed() {
    let (mut sender, mut receiver) = pair();
    let mut frames = sender.send_message(id(1), &message(100)).unwrap();
    frames[0].truncate(71);
    assert_eq!(receiver.recv_message(id(1), &frames), Err(Error::MalformedInput));

    let (_, mut receiver) = pair();
    assert_eq!(
        receiver.recv_message(id(1), &[vec![0u8; FR_L_MAX + 1]]),
        Err(Error::MalformedInput)
    );
}

#[test]
fn truncated_frame_is_refused() {
    let (mut sender, mut receiver) = pair();
    let mut frames = sender.send_message(id(1), &message(100)).unwrap();
    frames[0].pop();
    // the length that the header names is authenticated and no longer fits
    assert_eq!(receiver.recv_message(id(1), &frames), Err(Error::MalformedInput));
}

#[test]
fn frame_for_another_request_is_refused() {
    let (mut sender, mut receiver) = pair();
    let frames = sender.send_message(id(1), &message(100)).unwrap();
    assert_eq!(receiver.recv_message(id(2), &frames), Err(Error::MalformedInput));
}

#[test]
fn request_keys_follow_the_order_of_first_use() {
    let (mut sender, mut receiver) = pair();
    // the sender meets request 1 first, the receiver request 2
    let one = sender.send_message(id(1), b"one").unwrap();
    let two = sender.send_message(id(2), b"two").unwrap();
    assert_eq!(receiver.recv_message(id(2), &two), Err(Error::MacInvalid));
    drop(one);
}

#[test]
fn requests_are_independent_streams() {
    let (mut sender, mut receiver) = pair();
    let a1 = sender.send_message(id(1), b"a1").unwrap();
    let b1 = sender.send_message(id(2), b"b1").unwrap();
    let a2 = sender.send_message(id(1), b"a2").unwrap();
    assert_eq!(receiver.recv_message(id(1), &a1), Ok(b"a1".to_vec()));
    assert_eq!(receiver.recv_message(id(2), &b1), Ok(b"b1".to_vec()));
    assert_eq!(receiver.recv_message(id(1), &a2), Ok(b"a2".to_vec()));
}

#[test]
fn message_ids_run_out() {
    let (mut sender, _) = pair();
    for _ in 0..65535u32 {
        assert_eq!(sender.send_message(id(9), &[]), Ok(Vec::new()));
    }
    assert_eq!(sender.send_message(id(9), &[]), Err(Error::MessageIdExhausted));
    assert_eq!(sender.send_message(id(9), b"x"), Err(Error::MessageIdExhausted));
    // other requests go on
    assert!(sender.send_message(id(10), b"x").is_ok());
}

#[test]
fn too_many_frames_are_malformed() {
    let (_, mut receiver) = pair();
    let frames = vec![Vec::new(); 0x10001];
    assert_eq!(receiver.recv_message(id(1), &frames), Err(Error::MalformedInput));
}

fn xor(a: &mut [u8], b: &[u8]) {
    for (x, y) in a.iter_mut().zip(b) {
        *x ^= *y;
    }
}

#[test]
fn frame_on_the_wire() {
    let key = secret();
    let mut conn = ConnectionState::init(ConnectionPeer::Client, 5, secret());
    let payload = b"payload of the first message";
    // one earlier message, so that the message id is 1
    assert!(conn.send_message(id(0x0102), &[]).unwrap().is_empty());
    let frames = conn.send_message(id(0x0102), payload).unwrap();

    // the key schedule, by hand
    let mut deriver = REQ_KEY_DERIVE.create().chain_absorb(key.as_bytes());
    let header_key: [u8; 32] = deriver.squeeze_to_array();
    let request_key: [u8; 32] = deriver.squeeze_to_array();
    let mut header_cipher = FRAME_HEADER_CIPHER.create().chain_absorb(&header_key);
    let mut header_mac = FRAME_HEADER_MAC.create().chain_absorb(&header_key);
    let mut cipher = FRAME_PAYLOAD_CIPHER.create().chain_absorb(&request_key);
    let mut mac = FRAME_PAYLOAD_MAC.create().chain_absorb(&request_key);

    // the frame, by hand
    let mut encrypted = payload.to_vec();
    xor(&mut encrypted, &cipher.squeeze_to_vec(payload.len()));
    mac.absorb(&encrypted);
    let payload_mac: [u8; 32] = mac.squeeze_to_array();
    let frame_len = (payload.len() + 72) as u16;
    let mut ahead = vec![0x02, 0x01];
    ahead.extend_from_slice(&frame_len.to_le_bytes());
    header_mac.absorb(&ahead);
    ahead.extend_from_slice(&header_mac.squeeze_to_array::<32>());
    xor(&mut ahead, &header_cipher.squeeze_to_array::<36>());
    let mut behind = payload_mac.to_vec();
    behind.extend_from_slice(&[1, 0, 0, 0]);
    xor(&mut behind, &cipher.squeeze_to_array::<36>());

    let mut expected = ahead;
    expected.extend_from_slice(&encrypted);
    expected.extend_from_slice(&behind);
    assert_eq!(frames, vec![expected]);
}
