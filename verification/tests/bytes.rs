use bcsp_core::bytes::{
    ct_eq, i64_from_bytes, i64_to_bytes, put, take, u16_from_bytes, u16_to_bytes, u64_from_bytes,
    u64_to_bytes, xor, xor_array,
};
use bcsp_core::consts::{
    CLOGIN_L, FR_AHEAD_HEADER_L, FR_BEHIND_HEADER_L, FR_PAYLOAD_L_MAX, SHELLO_L, SIGNED_PKINFO_L,
    SLOGINV_L,
};
use bcsp_core::curve25519::{PK, SK};
use bcsp_core::error::Error;
use bcsp_core::message::{
    FrameAheadHeader, FrameBehindHeader, LoginVerify, PKInfo, PKInfoInner,
};

#[test]
fn message_len() {
    let sk = SK::from_key([0u8; 32]);
    let inner = PKInfoInner { ts: 1, keytype: 2, pk: sk.pk() };
    let sig = sk.edlike_sign(&inner.to_bytes());
    let info = PKInfo { inner, sig };
    assert!(SIGNED_PKINFO_L == info.to_bytes().len());
    let verify = LoginVerify { uid: 3, sig: sk.edlike_sign(&3u64.to_le_bytes()) };
    assert!(SLOGINV_L == verify.to_bytes().len());
}

#[test]
fn serialized_sizes() {
    assert_eq!(SIGNED_PKINFO_L, 106);
    assert_eq!(SLOGINV_L, 72);
    assert_eq!(CLOGIN_L, 106);
    assert_eq!(SHELLO_L, 138);
    assert_eq!(FR_AHEAD_HEADER_L, 36);
    assert_eq!(FR_BEHIND_HEADER_L, 36);
    assert_eq!(FR_PAYLOAD_L_MAX, 65464);
    let ahead = FrameAheadHeader { req_id: 1, frame_len: 2, mac: [0; 32] };
    assert_eq!(ahead.to_bytes().len(), 36);
    let behind = FrameBehindHeader { mac: [0; 32], msg_id: 1, frame_id: 2 };
    assert_eq!(behind.to_bytes().len(), 36);
}

#[test]
fn pkinfo_layout() {
    let sk = SK::from_key([5u8; 32]);
    let inner = PKInfoInner { ts: 0x0102030405060708, keytype: 0x0a0b, pk: sk.pk() };
    let inner_bytes = inner.to_bytes();
    assert_eq!(&inner_bytes[..8], &[8, 7, 6, 5, 4, 3, 2, 1]);
    assert_eq!(&inner_bytes[8..10], &[0x0b, 0x0a]);
    assert_eq!(&inner_bytes[10..], &sk.pk().to_bytes());
    let sig = sk.edlike_sign(&inner_bytes);
    let sig_bytes = sig.to_bytes();
    let bytes = PKInfo { inner, sig }.to_bytes();
    assert_eq!(&bytes[..42], &inner_bytes);
    assert_eq!(&bytes[42..], &sig_bytes);

    let back = PKInfo::from_bytes(bytes).ok().unwrap();
    assert_eq!(back.inner.ts, 0x0102030405060708);
    assert_eq!(back.inner.keytype, 0x0a0b);
    assert!(back.inner.pk == sk.pk());
    assert_eq!(back.to_bytes(), bytes);
    assert_eq!(PKInfoInner::from_bytes(inner_bytes).to_bytes(), inner_bytes);
}

#[test]
fn pkinfo_with_a_negative_timestamp() {
    let inner = PKInfoInner { ts: -2, keytype: 0, pk: PK::from_bytes([0; 32]) };
    let bytes = inner.to_bytes();
    assert_eq!(&bytes[..8], &[0xfe, 0xff, 0xff, 0xff, 0xff, 0xff, 0xff, 0xff]);
    assert_eq!(PKInfoInner::from_bytes(bytes).ts, -2);
}

#[test]
fn pkinfo_scalar_has_to_be_canonical() {
    let mut bytes = [0u8; 106];
    assert!(PKInfo::from_bytes(bytes).is_ok());
    // 2^252 + 255 * 2^128 is above the order, 2^252 + 255 is below it
    bytes[105] = 0x10;
    bytes[74] = 0xff;
    assert!(PKInfo::from_bytes(bytes).is_ok());
    bytes[90] = 0xff;
    assert_eq!(PKInfo::from_bytes(bytes).err(), Some(Error::MalformedInput));
}

#[test]
fn login_verify_layout() {
    let sk = SK::from_key([5u8; 32]);
    let uid = 0x1122334455667788u64;
    let sig = sk.edlike_sign(&uid.to_le_bytes());
    let sig_bytes = sig.to_bytes();
    let bytes = LoginVerify { uid, sig }.to_bytes();
    assert_eq!(&bytes[..8], &[0x88, 0x77, 0x66, 0x55, 0x44, 0x33, 0x22, 0x11]);
    assert_eq!(&bytes[8..], &sig_bytes);
    let back = LoginVerify::from_bytes(bytes).ok().unwrap();
    assert_eq!(back.uid, uid);
    assert_eq!(back.to_bytes(), bytes);

    let mut bad = bytes;
    bad[71] |= 0x80;
    assert_eq!(LoginVerify::from_bytes(bad).err(), Some(Error::MalformedInput));
}

#[test]
fn frame_header_layout() {
    let mut mac = [0u8; 32];
    for (i, b) in mac.iter_mut().enumerate() {
        *b = i as u8;
    }
    let ahead = FrameAheadHeader { req_id: 0x0102, frame_len: 0x0304, mac };
    let bytes = ahead.to_bytes();
    assert_eq!(&bytes[..4], &[2, 1, 4, 3]);
    assert_eq!(&bytes[4..], &mac);
    let back = FrameAheadHeader::from_bytes(bytes);
    assert_eq!((back.req_id, back.frame_len, back.mac), (0x0102, 0x0304, mac));

    let behind = FrameBehindHeader { mac, msg_id: 0x0506, frame_id: 0x0708 };
    let bytes = behind.to_bytes();
    assert_eq!(&bytes[..32], &mac);
    assert_eq!(&bytes[32..], &[6, 5, 8, 7]);
    let back = FrameBehindHeader::from_bytes(bytes);
    assert_eq!((back.mac, back.msg_id, back.frame_id), (mac, 0x0506, 0x0708));
}

#[test]
fn integers_are_little_endian() {
    assert_eq!(u16_to_bytes(0x1234), 0x1234u16.to_le_bytes());
    assert_eq!(u16_to_bytes(0xffff), [0xff, 0xff]);
    assert_eq!(u16_from_bytes(&[0x34, 0x12]), 0x1234);
    assert_eq!(u64_to_bytes(0x0102030405060708), 0x0102030405060708u64.to_le_bytes());
    assert_eq!(u64_to_bytes(u64::MAX), [0xff; 8]);
    assert_eq!(u64_from_bytes(&[1, 0, 0, 0, 0, 0, 0, 0x80]), 0x8000000000000001);
    for x in [0i64, 1, -1, i64::MAX, i64::MIN, 1_700_000_000, -1_700_000_000] {
        assert_eq!(i64_to_bytes(x), x.to_le_bytes());
        assert_eq!(i64_from_bytes(&x.to_le_bytes()), x);
    }
}

#[test]
fn xor_of_buffers() {
    let mut a = [0b1100u8, 0xff, 0x00];
    xor_array(&mut a, &[0b1010, 0x0f, 0x55]);
    assert_eq!(a, [0b0110, 0xf0, 0x55]);
    let mut v = vec![1u8, 2, 3];
    xor(&mut v, &[1, 2, 3]);
    assert_eq!(v, vec![0, 0, 0]);
    let mut empty: [u8; 0] = [];
    xor_array(&mut empty, &[]);
}

#[test]
fn copying_between_buffers() {
    let mut dest = [9u8; 6];
    put(&mut dest, 2, &[1, 2, 3]);
    assert_eq!(dest, [9, 9, 1, 2, 3, 9]);
    put(&mut dest, 6, &[]);
    assert_eq!(dest, [9, 9, 1, 2, 3, 9]);
    assert_eq!(take::<2>(&dest, 3), [2, 3]);
    assert_eq!(take::<0>(&dest, 6), []);
}

#[test]
fn comparison_of_buffers() {
    assert!(ct_eq(&[1u8, 2, 3], &[1, 2, 3]));
    assert!(!ct_eq(&[1u8, 2, 3], &[1, 2, 2]));
    assert!(!ct_eq(&[0u8, 2, 3], &[1, 2, 3]));
    assert!(!ct_eq(&[0x80u8], &[0x00]));
    let empty: [u8; 0] = [];
    assert!(ct_eq(&empty, &empty));
}

#[test]
fn buffers_of_the_wrong_length_are_malformed() {
    assert_eq!(bcsp_core::bytes::exact::<3>(&[1, 2, 3]), Ok([1, 2, 3]));
    assert_eq!(bcsp_core::bytes::exact::<3>(&[1, 2]), Err(Error::MalformedInput));
    assert_eq!(bcsp_core::bytes::exact::<3>(&[1, 2, 3, 4]), Err(Error::MalformedInput));
    assert_eq!(bcsp_core::bytes::exact::<0>(&[]), Ok([]));
}

#[test]
fn wiping_leaves_zeros() {
    let mut key = [0xa7u8; 32];
    bcsp_core::bytes::wipe_array(&mut key);
    assert_eq!(key, [0u8; 32]);
    let mut empty: [u8; 0] = [];
    bcsp_core::bytes::wipe_array(&mut empty);
}
