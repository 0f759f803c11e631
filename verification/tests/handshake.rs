use bcsp_core::connection::ConnectionPeer;
use bcsp_core::error::Error;
use bcsp_core::handshake::{is_fresh, xpk_from_masked, xpk_to_masked, ClientConnector, ServerConnector};
use bcsp_core::consts::HANDSHAKE_PRE_MASK_BYTES;
use bcsp_core::cshake::CShakeCustom;
use bcsp_core::cshake_customs::{DH_SK_GEN_PRNG, HANDSHAKE_CIPHER};
use bcsp_core::curve25519::{EdLikeSignature, PK, SK, XPK, XSK};

const NOW: i64 = 1_700_000_000;

fn server_pk(ssk: [u8; 32]) -> [u8; 32] {
    SK::from_key(ssk).pk().to_bytes()
}

#[test]
fn successful_handshake() {
    let csk = [0u8; 32];
    let ssk = [0u8; 32];
    let seed = [0u8; 64];
    let mut client = ClientConnector::init(1, csk, &seed);
    let mut server = ServerConnector::init(1, ssk, &seed);

    let (builder_a, chello) = client.connect(server_pk(ssk));
    let (server_builder, shello) = server.accept(chello, NOW);
    let (builder_b, clogin) = builder_a.login(shello, NOW).ok().unwrap();
    let mut seen = None;
    let (server_conn, sloginv) = server_builder
        .login(clogin, NOW, |pk| {
            seen = Some(pk.to_bytes());
            4711
        })
        .ok()
        .unwrap();
    let client_conn = builder_b.finish_login(sloginv).ok().unwrap();

    assert_eq!(seen, Some(SK::from_key(csk).pk().to_bytes()));
    assert_eq!(client_conn.conn_key().as_bytes(), server_conn.conn_key().as_bytes());
    assert_eq!(client_conn.uid(), 4711);
    assert_eq!(server_conn.uid(), 4711);
    assert_eq!(client_conn.peer(), ConnectionPeer::Client);
    assert_eq!(server_conn.peer(), ConnectionPeer::Server);
}

#[test]
fn handshake_with_distinct_keys_and_seeds() {
    let csk = [7u8; 32];
    let ssk = [9u8; 32];
    let mut client = ClientConnector::init(2, csk, &[1u8; 64]);
    let mut server = ServerConnector::init(3, ssk, &[2u8; 64]);

    let (builder_a, chello) = client.connect(server_pk(ssk));
    let (server_builder, shello) = server.accept(chello, NOW);
    let (builder_b, clogin) = builder_a.login(shello, NOW + 3).ok().unwrap();
    let (server_conn, sloginv) = server_builder.login(clogin, NOW + 6, |_| 0).ok().unwrap();
    let client_conn = builder_b.finish_login(sloginv).ok().unwrap();

    assert_eq!(client_conn.conn_key().as_bytes(), server_conn.conn_key().as_bytes());
    assert_ne!(client_conn.conn_key().as_bytes(), &[0u8; 32]);
    assert_eq!(client_conn.uid(), 0);
}

#[test]
fn connectors_advance_their_prng() {
    let ssk = [9u8; 32];
    let mut client = ClientConnector::init(1, [7u8; 32], &[1u8; 64]);
    let (_, first) = client.connect(server_pk(ssk));
    let (_, second) = client.connect(server_pk(ssk));
    assert_ne!(first, second);

    let mut again = ClientConnector::init(1, [7u8; 32], &[1u8; 64]);
    let (_, repeated) = again.connect(server_pk(ssk));
    assert_eq!(first, repeated);
}

#[test]
fn identity_mismatch() {
    let ssk = [9u8; 32];
    let mut client = ClientConnector::init(1, [7u8; 32], &[1u8; 64]);
    let mut server = ServerConnector::init(1, ssk, &[2u8; 64]);

    let (builder_a, chello) = client.connect(server_pk([8u8; 32]));
    let (_, shello) = server.accept(chello, NOW);
    assert_eq!(builder_a.login(shello, NOW).err(), Some(Error::IdentityMismatch));
}

#[test]
fn stale_server_hello() {
    let ssk = [9u8; 32];
    let mut client = ClientConnector::init(1, [7u8; 32], &[1u8; 64]);
    let mut server = ServerConnector::init(1, ssk, &[2u8; 64]);

    let (builder_a, chello) = client.connect(server_pk(ssk));
    let (_, shello) = server.accept(chello, NOW - 10);
    assert_eq!(builder_a.login(shello, NOW).err(), Some(Error::Stale));
}

#[test]
fn server_hello_from_the_future_is_stale() {
    let ssk = [9u8; 32];
    let mut client = ClientConnector::init(1, [7u8; 32], &[1u8; 64]);
    let mut server = ServerConnector::init(1, ssk, &[2u8; 64]);

    let (builder_a, chello) = client.connect(server_pk(ssk));
    let (_, shello) = server.accept(chello, NOW + 4);
    assert_eq!(builder_a.login(shello, NOW).err(), Some(Error::Stale));
}

#[test]
fn stale_client_login() {
    let ssk = [9u8; 32];
    let mut client = ClientConnector::init(1, [7u8; 32], &[1u8; 64]);
    let mut server = ServerConnector::init(1, ssk, &[2u8; 64]);

    let (builder_a, chello) = client.connect(server_pk(ssk));
    let (server_builder, shello) = server.accept(chello, NOW);
    let (_, clogin) = builder_a.login(shello, NOW).ok().unwrap();
    let mut asked = false;
    let res = server_builder.login(clogin, NOW + 4, |_| {
        asked = true;
        1
    });
    assert_eq!(res.err(), Some(Error::Stale));
    assert!(!asked);
}

#[test]
fn tampered_server_hello_is_refused() {
    let ssk = [9u8; 32];
    let mut client = ClientConnector::init(1, [7u8; 32], &[1u8; 64]);
    let mut server = ServerConnector::init(1, ssk, &[2u8; 64]);

    let (builder_a, chello) = client.connect(server_pk(ssk));
    let (_, mut shello) = server.accept(chello, NOW);
    // the first byte of the encrypted timestamp
    shello[32] ^= 1;
    assert_eq!(builder_a.login(shello, NOW).err(), Some(Error::SignatureInvalid));
}

#[test]
fn tampered_client_login_is_refused() {
    let ssk = [9u8; 32];
    let mut client = ClientConnector::init(1, [7u8; 32], &[1u8; 64]);
    let mut server = ServerConnector::init(1, ssk, &[2u8; 64]);

    let (builder_a, chello) = client.connect(server_pk(ssk));
    let (server_builder, shello) = server.accept(chello, NOW);
    let (_, mut clogin) = builder_a.login(shello, NOW).ok().unwrap();
    // a byte of the encrypted key type
    clogin[8] ^= 0x40;
    assert_eq!(server_builder.login(clogin, NOW, |_| 1).err(), Some(Error::SignatureInvalid));
}

#[test]
fn non_canonical_signature_is_malformed() {
    let ssk = [9u8; 32];
    let mut client = ClientConnector::init(1, [7u8; 32], &[1u8; 64]);
    let mut server = ServerConnector::init(1, ssk, &[2u8; 64]);

    let (builder_a, chello) = client.connect(server_pk(ssk));
    let (server_builder, shello) = server.accept(chello, NOW);
    let (_, mut clogin) = builder_a.login(shello, NOW).ok().unwrap();
    // a canonical scalar has the top four bits of its last byte clear or its
    // highest set bit at 2^252: setting the top bit puts it above the order
    clogin[105] ^= 0x80;
    assert_eq!(server_builder.login(clogin, NOW, |_| 1).err(), Some(Error::MalformedInput));
}

#[test]
fn tampered_login_verify_is_refused() {
    let ssk = [9u8; 32];
    let mut client = ClientConnector::init(1, [7u8; 32], &[1u8; 64]);
    let mut server = ServerConnector::init(1, ssk, &[2u8; 64]);

    let (builder_a, chello) = client.connect(server_pk(ssk));
    let (server_builder, shello) = server.accept(chello, NOW);
    let (builder_b, clogin) = builder_a.login(shello, NOW).ok().unwrap();
    let (_, mut sloginv) = server_builder.login(clogin, NOW, |_| 77).ok().unwrap();
    // the lowest byte of the encrypted user id
    sloginv[0] ^= 1;
    assert_eq!(builder_b.finish_login(sloginv).err().unwrap(), Error::SignatureInvalid);
}

#[test]
fn mask_is_its_own_inverse() {
    let xpk = XPK::from_bytes([0x5au8; 32]);
    let masked = xpk_to_masked(&xpk);
    let mut expected = [0x5au8; 32];
    for i in 0..32 {
        expected[i] ^= HANDSHAKE_PRE_MASK_BYTES[i];
    }
    assert_eq!(masked, expected);
    assert_eq!(xpk_from_masked(masked).to_bytes(), [0x5au8; 32]);
}

#[test]
fn freshness_window() {
    assert!(is_fresh(NOW, NOW));
    assert!(is_fresh(NOW, NOW - 3));
    assert!(is_fresh(NOW, NOW + 3));
    assert!(!is_fresh(NOW, NOW - 4));
    assert!(!is_fresh(NOW, NOW + 4));
    assert!(!is_fresh(i64::MAX, i64::MIN));
    assert!(!is_fresh(i64::MIN, i64::MAX));
}

#[test]
fn pre_mask_literal_is_the_derived_value() {
    assert!(bcsp_core::handshake::pre_mask_is_derived());
}

#[test]
fn hellos_on_the_wire() {
    let ssk = [9u8; 32];
    let mut client = ClientConnector::init(1, [7u8; 32], &[1u8; 64]);
    let mut server = ServerConnector::init(0x0203, ssk, &[2u8; 64]);
    let (_, chello) = client.connect(server_pk(ssk));
    let (_, shello) = server.accept(chello, NOW);

    // the client's hello: the public key of its first ephemeral key, masked
    let mut client_rng = DH_SK_GEN_PRNG.create().chain_absorb(&[1u8; 64]);
    let cxsk = XSK::generate(&mut client_rng);
    let mut expected = cxsk.pk().to_bytes();
    for i in 0..32 {
        expected[i] ^= HANDSHAKE_PRE_MASK_BYTES[i];
    }
    assert_eq!(chello, expected);

    // the head of the server's hello: the public key of its first ephemeral key, masked
    let mut server_rng = DH_SK_GEN_PRNG.create().chain_absorb(&[2u8; 64]);
    let sxsk = XSK::generate(&mut server_rng);
    let mut sxpk = sxsk.pk().to_bytes();
    for i in 0..32 {
        sxpk[i] ^= HANDSHAKE_PRE_MASK_BYTES[i];
    }
    assert_eq!(&shello[..32], &sxpk);

    // the rest: the server's identity under the handshake cipher
    let secret = cxsk.exchange(sxsk.pk());
    let mut cipher = HANDSHAKE_CIPHER.create().chain_absorb(secret.as_bytes());
    let mut plain = [0u8; 106];
    plain.copy_from_slice(&shello[32..]);
    cipher.squeeze_xor_array(&mut plain);
    assert_eq!(&plain[..8], &NOW.to_le_bytes());
    assert_eq!(&plain[8..10], &[0x03, 0x02]);
    assert_eq!(&plain[10..42], &server_pk(ssk));
    let mut sig = [0u8; 64];
    sig.copy_from_slice(&plain[42..]);
    let sig = EdLikeSignature::from_bytes(sig).ok().unwrap();
    assert!(PK::from_bytes(server_pk(ssk)).edlike_verify(&plain[..42], &sig));
    assert_eq!(sig.to_bytes(), SK::from_key(ssk).edlike_sign(&plain[..42]).to_bytes());
}

#[test]
fn login_on_the_wire() {
    let csk = [7u8; 32];
    let ssk = [9u8; 32];
    let mut client = ClientConnector::init(4, csk, &[1u8; 64]);
    let mut server = ServerConnector::init(1, ssk, &[2u8; 64]);
    let (builder_a, chello) = client.connect(server_pk(ssk));
    let (server_builder, shello) = server.accept(chello, NOW);
    let (_, clogin) = builder_a.login(shello, NOW + 1).ok().unwrap();
    let (_, sloginv) = server_builder.login(clogin, NOW + 2, |_| 0x0807060504030201).ok().unwrap();

    let mut client_rng = DH_SK_GEN_PRNG.create().chain_absorb(&[1u8; 64]);
    let mut server_rng = DH_SK_GEN_PRNG.create().chain_absorb(&[2u8; 64]);
    let secret = XSK::generate(&mut client_rng).exchange(XSK::generate(&mut server_rng).pk());
    let mut cipher = HANDSHAKE_CIPHER.create().chain_absorb(secret.as_bytes());
    cipher.skip::<106>();

    // the client's identity comes second under the cipher
    let mut plain = clogin;
    cipher.squeeze_xor_array(&mut plain);
    assert_eq!(&plain[..8], &(NOW + 1).to_le_bytes());
    assert_eq!(&plain[8..10], &[4, 0]);
    assert_eq!(&plain[10..42], &SK::from_key(csk).pk().to_bytes());
    assert_eq!(&plain[42..], &SK::from_key(csk).edlike_sign(&plain[..42]).to_bytes());

    // the confirmation comes third
    let mut plain = sloginv;
    cipher.squeeze_xor_array(&mut plain);
    assert_eq!(&plain[..8], &[1, 2, 3, 4, 5, 6, 7, 8]);
    assert_eq!(&plain[8..], &SK::from_key(ssk).edlike_sign(&plain[..8]).to_bytes());
}
