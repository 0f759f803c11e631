use bcsp_core::cshake::CShakeCustom;
use bcsp_core::cshake_customs::{
    DH_SK_GEN_PRNG, DSA_EDSIGN_K_HASH, DSA_EDSIGN_R_HASH, DSA_SK_DERIVE,
};
use bcsp_core::curve25519::{EdLikeSignature, ExchangeSignature, PK, SK, XPK, XSK};
use bcsp_core::error::Error;
use curve25519_dalek::edwards::EdwardsPoint;
use curve25519_dalek::montgomery::MontgomeryPoint;
use curve25519_dalek::scalar::Scalar;

// the order of the base point, lowest byte first
const ORDER: [u8; 32] = [
    0xed, 0xd3, 0xf5, 0x5c, 0x1a, 0x63, 0x12, 0x58, 0xd6, 0x9c, 0xf7, 0xa2, 0xde, 0xf9, 0xde, 0x14,
    0x00, 0x00, 0x00, 0x00, 0x00, 0x00, 0x00, 0x00, 0x00, 0x00, 0x00, 0x00, 0x00, 0x00, 0x00, 0x10,
];

#[test]
fn sign_then_verify() {
    for seed in 0..8u8 {
        let sk = SK::from_key([seed; 32]);
        let pk = sk.pk();
        for len in [0usize, 1, 42, 200] {
            let msg = vec![seed ^ 0x55; len];
            let sig = sk.edlike_sign(&msg);
            assert!(pk.edlike_verify(&msg, &sig));
        }
    }
}

#[test]
fn signing_is_deterministic() {
    let sk = SK::from_key([1u8; 32]);
    let a = sk.edlike_sign(b"message").to_bytes();
    let b = sk.edlike_sign(b"message").to_bytes();
    let c = sk.edlike_sign(b"another").to_bytes();
    assert_eq!(a, b);
    assert_ne!(a, c);
    assert_ne!(a[..32], c[..32]);
}

#[test]
fn tampered_message_does_not_verify() {
    let sk = SK::from_key([1u8; 32]);
    let pk = sk.pk();
    let sig = sk.edlike_sign(b"message");
    assert!(!pk.edlike_verify(b"messagf", &sig));
    assert!(!pk.edlike_verify(b"message ", &sig));
    assert!(!pk.edlike_verify(b"", &sig));
}

#[test]
fn signature_of_another_key_does_not_verify() {
    let sig = SK::from_key([1u8; 32]).edlike_sign(b"message");
    assert!(!SK::from_key([2u8; 32]).pk().edlike_verify(b"message", &sig));
}

#[test]
fn tampered_signature_does_not_verify() {
    let sk = SK::from_key([1u8; 32]);
    let pk = sk.pk();
    let bytes = sk.edlike_sign(b"message").to_bytes();
    for at in [0usize, 31, 32, 40] {
        let mut tampered = bytes;
        tampered[at] ^= 1;
        match EdLikeSignature::from_bytes(tampered) {
            Ok(sig) => assert!(!pk.edlike_verify(b"message", &sig)),
            Err(e) => assert_eq!(e, Error::MalformedInput),
        }
    }
}

#[test]
fn key_that_is_no_point_verifies_nothing() {
    // y = 2 is on no point of the curve
    let mut bytes = [0u8; 32];
    bytes[0] = 2;
    let pk = PK::from_bytes(bytes);
    assert!(!pk.is_valid());
    let sig = SK::from_key([1u8; 32]).edlike_sign(b"message");
    assert!(!pk.edlike_verify(b"message", &sig));
    assert!(SK::from_key([1u8; 32]).pk().is_valid());
}

#[test]
fn signature_bytes_round_trip() {
    let sig = SK::from_key([4u8; 32]).edlike_sign(b"message");
    let bytes = sig.to_bytes();
    assert_eq!(bytes.len(), 64);
    assert_eq!(EdLikeSignature::from_bytes(bytes).ok().unwrap().to_bytes(), bytes);
}

#[test]
fn signature_scalar_has_to_be_canonical() {
    let mut bytes = [0u8; 64];
    // s = order - 1 is the largest canonical scalar
    bytes[32..].copy_from_slice(&ORDER);
    bytes[32] -= 1;
    assert!(EdLikeSignature::from_bytes(bytes).is_ok());
    // s = order
    bytes[32..].copy_from_slice(&ORDER);
    assert_eq!(EdLikeSignature::from_bytes(bytes).err(), Some(Error::MalformedInput));
    // s = 2^255
    let mut high = [0u8; 64];
    high[63] = 0x80;
    assert_eq!(EdLikeSignature::from_bytes(high).err(), Some(Error::MalformedInput));
    // s = 0
    assert!(EdLikeSignature::from_bytes([0u8; 64]).is_ok());
}

#[test]
fn public_key_is_derived_from_the_raw_bytes() {
    // scalar: the first 32 bytes of the derivation sponge, clamped
    let mut ctx = DSA_SK_DERIVE.create().chain_absorb(&[1u8; 32]);
    let mut scalar: [u8; 32] = ctx.squeeze_to_array();
    scalar[0] &= 248;
    scalar[31] &= 127;
    scalar[31] |= 64;
    let expected = EdwardsPoint::mul_base_clamped(scalar).compress();
    assert_eq!(SK::from_key([1u8; 32]).pk().to_bytes(), expected.to_bytes());
}

#[test]
fn public_keys_compare_by_bytes() {
    let a = SK::from_key([1u8; 32]).pk();
    let b = PK::from_bytes(a.to_bytes());
    let c = SK::from_key([2u8; 32]).pk();
    assert!(a == b);
    assert!(a != c);
    assert!(a.clone() == a);
}

#[test]
fn exchange_agrees() {
    let mut rng_a = DH_SK_GEN_PRNG.create().chain_absorb(&[1u8; 64]);
    let mut rng_b = DH_SK_GEN_PRNG.create().chain_absorb(&[2u8; 64]);
    for _ in 0..4 {
        let a = XSK::generate(&mut rng_a);
        let b = XSK::generate(&mut rng_b);
        let (a_pk, b_pk) = (a.pk(), b.pk());
        assert_ne!(a_pk.to_bytes(), b_pk.to_bytes());
        let ab = a.exchange(b_pk);
        let ba = b.exchange(a_pk);
        assert_eq!(ab.as_bytes(), ba.as_bytes());
        assert_ne!(ab.as_bytes(), &[0u8; 32]);
    }
}

#[test]
fn exchange_key_is_the_clamped_prng_output() {
    let mut rng = DH_SK_GEN_PRNG.create().chain_absorb(&[1u8; 64]);
    let mut twin = DH_SK_GEN_PRNG.create().chain_absorb(&[1u8; 64]);
    let raw: [u8; 32] = twin.squeeze_to_array();
    let xsk = XSK::generate(&mut rng);
    let expected = MontgomeryPoint::mul_base_clamped(raw);
    assert_eq!(xsk.pk().to_bytes(), expected.to_bytes());
    // the X25519 function on the base point 9
    let mut nine = [0u8; 32];
    nine[0] = 9;
    let shared = xsk.exchange(XPK::from_bytes(nine));
    assert_eq!(shared.as_bytes(), &expected.to_bytes());
}

#[test]
fn xpk_bytes_round_trip() {
    let bytes = [0xa5u8; 32];
    assert_eq!(XPK::from_bytes(bytes).to_bytes(), bytes);
    assert_eq!(PK::from_bytes(bytes).to_bytes(), bytes);
}

#[test]
fn exchange_sign_then_verify() {
    let sk = SK::from_key([3u8; 32]);
    let pk = sk.pk();
    let hash = [0x11u8; 32];
    let sig = sk.exchange_sign(hash);
    assert_eq!(sig.hash, hash);
    let bytes = sig.to_bytes();
    assert_eq!(&bytes[..32], &hash);
    assert!(pk.exchange_verify(ExchangeSignature::from_bytes(bytes)));
    assert!(pk.exchange_verify(sig));

    let mut other = ExchangeSignature::from_bytes(bytes);
    other.hash[0] ^= 8;
    assert!(!pk.exchange_verify(other));
    let mut other = ExchangeSignature::from_bytes(bytes);
    other.exchanged[0] ^= 1;
    assert!(!pk.exchange_verify(other));
    assert!(!SK::from_key([4u8; 32]).pk().exchange_verify(ExchangeSignature::from_bytes(bytes)));
}

fn clamp(mut bytes: [u8; 32]) -> [u8; 32] {
    bytes[0] &= 248;
    bytes[31] &= 127;
    bytes[31] |= 64;
    bytes
}

#[test]
fn signature_by_hand() {
    let key = [6u8; 32];
    let msg = b"a message to sign";
    let mut derive = DSA_SK_DERIVE.create().chain_absorb(&key);
    let scalar = clamp(derive.squeeze_to_array());
    let nonce: [u8; 32] = derive.squeeze_to_array();
    let pk = EdwardsPoint::mul_base_clamped(scalar).compress().to_bytes();

    let r_scalar =
        clamp(DSA_EDSIGN_R_HASH.create().chain_absorb(&nonce).chain_absorb(msg).once_to_array(&[]));
    let r = EdwardsPoint::mul_base_clamped(r_scalar).compress().to_bytes();
    let k = clamp(
        DSA_EDSIGN_K_HASH
            .create()
            .chain_absorb(&r)
            .chain_absorb(&pk)
            .chain_absorb(msg)
            .once_to_array(&[]),
    );
    let s = Scalar::from_bytes_mod_order(scalar) * Scalar::from_bytes_mod_order(k)
        + Scalar::from_bytes_mod_order(r_scalar);

    let sig = SK::from_key(key).edlike_sign(msg).to_bytes();
    assert_eq!(&sig[..32], &r);
    assert_eq!(&sig[32..], &s.to_bytes());
    assert_eq!(SK::from_key(key).pk().to_bytes(), pk);
}
