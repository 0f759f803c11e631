//! The four-flight handshake: an exchange of masked ephemeral keys, then each
//! side's identity, signed and encrypted under the shared secret. Each step
//! takes the state of the step before by value, so that none is used twice.

use vstd::prelude::*;
use std::sync::Arc;
use crate::bytes::{
    ct_eq, i64_bytes, i64_of_bytes, le_bytes, le_nat, lemma_le_bytes_len,
    lemma_le_bytes_of_le_nat, lemma_le_nat_of_le_bytes, lemma_xor_twice, pow256, put, take,
    u64_to_bytes, xor_array, xor_seq,
};
use crate::connection::{ConnectionPeer, ConnectionState, ConnectionView};
use crate::consts::{HANDSHAKE_PRE_MASK_BYTES, MAX_LATENCY};
use crate::cshake::{keyed, CShakeCustom, Sponge, SpongeState};
use crate::cshake_customs::{DH_SK_GEN_PRNG, HANDSHAKE_CIPHER, HANDSHAKE_PRE_MASK};
use crate::curve25519::{
    accepts, agrees, clamp, ed25519_is_point, group_order, lemma_signature_response, public_key,
    signature, x25519_base_mul, x25519_mul, ExchangedSecret, PK, SK, XPK, XSK,
};
use crate::error::Error;
use crate::message::{lemma_i64_bytes_len, pkinfo_inner_bytes, LoginVerify, PKInfo, PKInfoInner};

verus! {

/// An ephemeral public key as it goes on the wire, or back: XORed with the
/// mask.
pub open spec fn mask(bytes: Seq<u8>) -> Seq<u8> {
    xor_seq(bytes, HANDSHAKE_PRE_MASK_BYTES@)
}

/// Whether a peer's timestamp is within `MAX_LATENCY` seconds of the local
/// clock, on either side.
pub open spec fn fresh(now: i64, peer: i64) -> bool {
    -MAX_LATENCY <= now - peer <= MAX_LATENCY
}

/// The handshake cipher for a shared secret: a fresh sponge that has absorbed
/// it.
pub open spec fn handshake_cipher(conn_key: Seq<u8>) -> SpongeState {
    keyed(HANDSHAKE_CIPHER::label(), conn_key)
}

/// The 106 bytes by which the owner of the long-term key `key` proves its
/// identity at the time `ts`: timestamp, key type and public key, then the
/// signature over those 42 bytes.
pub open spec fn signed_pkinfo(key: Seq<u8>, keytype: u16, ts: i64) -> Seq<u8> {
    let inner = pkinfo_inner_bytes(ts, keytype, public_key(key));
    inner + signature(key, inner)
}

/// The 72 bytes by which the server with the long-term key `key` confirms a
/// login: the user id, then the signature over its 8 bytes.
pub open spec fn signed_login_verify(key: Seq<u8>, uid: u64) -> Seq<u8> {
    le_bytes(uid as nat, 8) + signature(key, le_bytes(uid as nat, 8))
}

/// Why the decrypted 106 bytes of a peer's signed `PKInfo` are refused at the
/// local time `now`, or `None` where they are accepted. The checks come in
/// this order: the signature's scalar is canonical; the key is the expected
/// one, where one is expected; the key is a point; the signature verifies
/// over the first 42 bytes; the timestamp is fresh.
pub open spec fn pkinfo_refusal(plain: Seq<u8>, expected: Option<Seq<u8>>, now: i64) -> Option<
    Error,
> {
    let pk = plain.subrange(10, 42);
    if le_nat(plain.subrange(74, 106)) >= group_order() {
        Some(Error::MalformedInput)
    } else if expected is Some && expected->0 != pk {
        Some(Error::IdentityMismatch)
    } else if !ed25519_is_point(pk) {
        Some(Error::MalformedInput)
    } else if !accepts(pk, plain.subrange(0, 42), plain.subrange(42, 106)) {
        Some(Error::SignatureInvalid)
    } else if !fresh(now, i64_of_bytes(plain.subrange(0, 8))) {
        Some(Error::Stale)
    } else {
        None
    }
}

/// Why the decrypted 72 bytes of a server's `LoginVerify` are refused by a
/// client that knows the server's key `spk`, or `None` where they are
/// accepted.
pub open spec fn login_verify_refusal(plain: Seq<u8>, spk: Seq<u8>) -> Option<Error> {
    if le_nat(plain.subrange(40, 72)) >= group_order() {
        Some(Error::MalformedInput)
    } else if !accepts(spk, plain.subrange(0, 8), plain.subrange(8, 72)) {
        Some(Error::SignatureInvalid)
    } else {
        None
    }
}

/// Where a signed identity is 106 bytes long and its key 32, its parts lie
/// where a reader looks for them, its timestamp reads back, and its
/// signature's scalar is canonical.
pub proof fn lemma_signed_pkinfo_parts(key: Seq<u8>, keytype: u16, ts: i64)
    requires
        public_key(key).len() == 32,
        signed_pkinfo(key, keytype, ts).len() == 106,
    ensures
        ({
            let plain = signed_pkinfo(key, keytype, ts);
            let inner = pkinfo_inner_bytes(ts, keytype, public_key(key));
            &&& plain.subrange(0, 42) == inner
            &&& plain.subrange(42, 106) == signature(key, inner)
            &&& plain.subrange(10, 42) == public_key(key)
            &&& i64_of_bytes(plain.subrange(0, 8)) == ts
            &&& le_nat(plain.subrange(74, 106)) < group_order()
        }),
{
    let plain = signed_pkinfo(key, keytype, ts);
    let inner = pkinfo_inner_bytes(ts, keytype, public_key(key));
    let sig = signature(key, inner);
    lemma_i64_bytes_len(ts);
    lemma_le_bytes_len(keytype as nat, 2);
    assert(inner.len() == 42);
    assert(sig.len() == 64);
    lemma_signature_response(key, inner);
    assert(plain.subrange(0, 42) =~= inner);
    assert(plain.subrange(42, 106) =~= sig);
    assert(plain.subrange(10, 42) =~= public_key(key));
    assert(plain.subrange(0, 8) =~= i64_bytes(ts));
    assert(plain.subrange(74, 106) =~= sig.subrange(32, 64));
    reveal_with_fuel(pow256, 9);
    let unsigned: nat = if ts >= 0 {
        ts as nat
    } else {
        (ts + 0x1_0000_0000_0000_0000) as nat
    };
    lemma_le_nat_of_le_bytes(unsigned, 8);
}

/// Where a signed confirmation is 72 bytes long, its parts lie where a reader
/// looks for them, its user id reads back, and its signature's scalar is
/// canonical.
pub proof fn lemma_signed_login_verify_parts(key: Seq<u8>, uid: u64)
    requires
        signed_login_verify(key, uid).len() == 72,
    ensures
        ({
            let plain = signed_login_verify(key, uid);
            &&& plain.subrange(0, 8) == le_bytes(uid as nat, 8)
            &&& plain.subrange(8, 72) == signature(key, le_bytes(uid as nat, 8))
            &&& le_nat(plain.subrange(0, 8)) == uid
            &&& le_nat(plain.subrange(40, 72)) < group_order()
        }),
{
    let plain = signed_login_verify(key, uid);
    let id = le_bytes(uid as nat, 8);
    let sig = signature(key, id);
    lemma_le_bytes_len(uid as nat, 8);
    lemma_signature_response(key, id);
    assert(plain.subrange(0, 8) =~= id);
    assert(plain.subrange(8, 72) =~= sig);
    assert(plain.subrange(40, 72) =~= sig.subrange(32, 64));
    reveal_with_fuel(pow256, 9);
    lemma_le_nat_of_le_bytes(uid as nat, 8);
}

/// Derives the mask, the first 32 bytes that a `HANDSHAKE_PRE_MASK` sponge
/// gives on empty input, and says whether `HANDSHAKE_PRE_MASK_BYTES` holds it.
pub fn pre_mask_is_derived() -> (ok: bool)
    ensures
        ok == (HANDSHAKE_PRE_MASK_BYTES@ == keyed(
            HANDSHAKE_PRE_MASK::label(),
            Seq::empty(),
        ).output(32)),
{
    let empty: [u8; 0] = [];
    assert(empty@ =~= Seq::<u8>::empty());
    let derived: [u8; 32] = HANDSHAKE_PRE_MASK.create().once_to_array::<32>(&empty);
    ct_eq(&HANDSHAKE_PRE_MASK_BYTES, &derived)
}

/// Takes the mask off an ephemeral public key from the wire.
pub fn xpk_from_masked(bytes: [u8; 32]) -> (xpk: XPK)
    ensures
        xpk@ == mask(bytes@),
{
    let mut bytes = bytes;
    xor_array(&mut bytes, &HANDSHAKE_PRE_MASK_BYTES);
    XPK::from_bytes(bytes)
}

/// An ephemeral public key as it goes on the wire.
pub fn xpk_to_masked(xpk: &XPK) -> (bytes: [u8; 32])
    ensures
        bytes@ == mask(xpk@),
{
    let mut bytes = xpk.to_bytes();
    xor_array(&mut bytes, &HANDSHAKE_PRE_MASK_BYTES);
    bytes
}

/// Whether a peer's timestamp is fresh at the local time `now`.
pub fn is_fresh(now: i64, peer: i64) -> (ok: bool)
    ensures
        ok == fresh(now, peer),
{
    let diff: i128 = now as i128 - peer as i128;
    -(MAX_LATENCY as i128) <= diff && diff <= MAX_LATENCY as i128
}

/// Checks a peer's identity, read from its 106 decrypted bytes, at the local
/// time `now`: the key is the expected one, where one is expected; it is a
/// point; the signature verifies; the timestamp is fresh. The identity that
/// the owner of a long-term key has signed passes, where the key is the
/// expected one and the timestamp fresh.
fn check_pkinfo(info: &PKInfo, expected: Option<&PK>, now: i64) -> (refusal: Option<Error>)
    requires
        info.bytes().len() == 106,
        info.inner.bytes() == info.bytes().subrange(0, 42),
        info.sig@ == info.bytes().subrange(42, 106),
        info.inner.ts == i64_of_bytes(info.bytes().subrange(0, 8)),
        info.inner.pk@ == info.bytes().subrange(10, 42),
        le_nat(info.bytes().subrange(74, 106)) < group_order(),
    ensures
        refusal == pkinfo_refusal(
            info.bytes(),
            match expected {
                Some(pk) => Some(pk@),
                None => None,
            },
            now,
        ),
        forall|key: Seq<u8>, keytype: u16, ts: i64|
            #![trigger signed_pkinfo(key, keytype, ts)]
            info.bytes() == signed_pkinfo(key, keytype, ts) && public_key(key).len() == 32 && (
            expected matches Some(pk) ==> pk@ == public_key(key)) && fresh(now, ts)
                ==> refusal is None,
{
    let known = match expected {
        Some(pk) => *pk == info.inner.pk,
        None => true,
    };
    let refusal = if !known {
        Some(Error::IdentityMismatch)
    } else if !info.inner.pk.is_valid() {
        Some(Error::MalformedInput)
    } else if !info.inner.pk.edlike_verify(&info.inner.to_bytes(), &info.sig) {
        Some(Error::SignatureInvalid)
    } else if !is_fresh(now, info.inner.ts) {
        Some(Error::Stale)
    } else {
        None
    };
    proof {
        assert forall|key: Seq<u8>, keytype: u16, ts: i64|
            #![trigger signed_pkinfo(key, keytype, ts)]
            info.bytes() == signed_pkinfo(key, keytype, ts) && public_key(key).len() == 32 && (
            expected matches Some(pk) ==> pk@ == public_key(key)) && fresh(
                now,
                ts,
            ) implies refusal is None by {
            lemma_signed_pkinfo_parts(key, keytype, ts);
        }
    }
    refusal
}

/// A long-term key with the kind of key it is.
struct SKInfo {
    keytype: u16,
    sk: SK,
}

impl SKInfo {
    #[verifier::type_invariant]
    spec fn inv(&self) -> bool {
        self.sk.wf()
    }

    /// This key's identity at the time `ts`, signed.
    fn create_pkinfo(&self, ts: i64) -> (info: PKInfo)
        ensures
            info.bytes() == signed_pkinfo(self.sk@, self.keytype, ts),
    {
        proof {
            use_type_invariant(self);
        }
        let inner = PKInfoInner { ts, keytype: self.keytype, pk: self.sk.pk() };
        let sig = self.sk.edlike_sign(&inner.to_bytes());
        PKInfo { inner, sig }
    }

    /// The confirmation of a login as the user `uid`, signed.
    fn create_login_verify(&self, uid: u64) -> (verify: LoginVerify)
        ensures
            verify.bytes() == signed_login_verify(self.sk@, uid),
    {
        proof {
            use_type_invariant(self);
        }
        let sig = self.sk.edlike_sign(&u64_to_bytes(uid));
        LoginVerify { uid, sig }
    }
}

/// Another handle on a shared long-term key.
///
/// Trusted: calls `Arc::clone`, which hands out a pointer to the same value.
#[verifier::external_body]
fn share(info: &Arc<SKInfo>) -> (shared: Arc<SKInfo>)
    ensures
        shared == info,
{
    Arc::clone(info)
}

/// A client before any handshake: its identity and the PRNG for ephemeral
/// keys.
pub struct ClientConnector {
    csk: Arc<SKInfo>,
    dh_rng: Sponge<DH_SK_GEN_PRNG>,
}

/// A server before any handshake: its identity and the PRNG for ephemeral
/// keys.
pub struct ServerConnector {
    ssk: Arc<SKInfo>,
    dh_rng: Sponge<DH_SK_GEN_PRNG>,
}

/// A client that has sent its hello and waits for the server's.
pub struct ClientBuilderA {
    csk: Arc<SKInfo>,
    spk: PK,
    cxsk: XSK,
}

/// A client that has logged in and waits for the server's confirmation.
pub struct ClientBuilderB {
    spk: PK,
    conn_key: ExchangedSecret,
    handshake_cipher: Sponge<HANDSHAKE_CIPHER>,
}

/// A server that has answered a hello and waits for the client's login.
pub struct ServerBuilder {
    ssk: Arc<SKInfo>,
    conn_key: ExchangedSecret,
    handshake_cipher: Sponge<HANDSHAKE_CIPHER>,
}

impl ClientConnector {
    /// The raw bytes of the client's long-term key.
    pub closed spec fn key(&self) -> Seq<u8> {
        self.csk.sk@
    }

    /// The kind of the long-term key.
    pub closed spec fn keytype(&self) -> u16 {
        self.csk.keytype
    }

    /// The PRNG that the next ephemeral key comes from.
    pub closed spec fn rng(&self) -> SpongeState {
        self.dh_rng@
    }

    /// A client with the long-term key `csk`, whose PRNG starts from `seed`.
    pub fn init(keytype: u16, csk: [u8; 32], seed: &[u8; 64]) -> (connector: ClientConnector)
        ensures
            connector.key() == csk@,
            connector.keytype() == keytype,
            connector.rng() == keyed(DH_SK_GEN_PRNG::label(), seed@),
    {
        ClientConnector {
            csk: Arc::new(SKInfo { keytype, sk: SK::from_key(csk) }),
            dh_rng: DH_SK_GEN_PRNG.create().chain_absorb(seed),
        }
    }

    /// First flight. Draws an ephemeral key and gives the hello to send: its
    /// public key, masked. `spk` is the key that the server is expected to
    /// show.
    pub fn connect(&mut self, spk: [u8; 32]) -> (res: (ClientBuilderA, [u8; 32]))
        ensures
            res.0.secret() == clamp(old(self).rng().output(32)),
            res.0.expected() == spk@,
            res.0.key() == old(self).key(),
            res.0.keytype() == old(self).keytype(),
            res.1@ == res.0.hello(),
            final(self).rng() == old(self).rng().squeeze(32),
            final(self).key() == old(self).key(),
            final(self).keytype() == old(self).keytype(),
    {
        let csk = share(&self.csk);
        let spk = PK::from_bytes(spk);
        let cxsk = XSK::generate(&mut self.dh_rng);
        let cxpk = cxsk.pk();
        let output = xpk_to_masked(&cxpk);
        (ClientBuilderA { csk, spk, cxsk }, output)
    }
}

impl ServerConnector {
    /// The raw bytes of the server's long-term key.
    pub closed spec fn key(&self) -> Seq<u8> {
        self.ssk.sk@
    }

    /// The kind of the long-term key.
    pub closed spec fn keytype(&self) -> u16 {
        self.ssk.keytype
    }

    /// The PRNG that the next ephemeral key comes from.
    pub closed spec fn rng(&self) -> SpongeState {
        self.dh_rng@
    }

    /// A server with the long-term key `ssk`, whose PRNG starts from `seed`.
    pub fn init(keytype: u16, ssk: [u8; 32], seed: &[u8; 64]) -> (connector: ServerConnector)
        ensures
            connector.key() == ssk@,
            connector.keytype() == keytype,
            connector.rng() == keyed(DH_SK_GEN_PRNG::label(), seed@),
    {
        ServerConnector {
            ssk: Arc::new(SKInfo { keytype, sk: SK::from_key(ssk) }),
            dh_rng: DH_SK_GEN_PRNG.create().chain_absorb(seed),
        }
    }

    /// Second flight. Answers the client's hello `input` at the local time
    /// `ts`: draws an ephemeral key, makes the shared secret, and gives the
    /// hello to send back: the server's ephemeral public key, masked, then
    /// its signed identity under the handshake cipher.
    pub fn accept(&mut self, input: [u8; 32], ts: i64) -> (res: (ServerBuilder, [u8; 138]))
        ensures
            res.0.accepted(clamp(old(self).rng().output(32)), input@, res.1@),
            res.0.key() == old(self).key(),
            res.0.cipher() == handshake_cipher(res.0.secret()).squeeze(106),
            res.1@.subrange(32, 138) == xor_seq(
                signed_pkinfo(old(self).key(), old(self).keytype(), ts),
                handshake_cipher(res.0.secret()).output(106),
            ),
            final(self).rng() == old(self).rng().squeeze(32),
            final(self).key() == old(self).key(),
            final(self).keytype() == old(self).keytype(),
    {
        let ssk = share(&self.ssk);
        let cxpk = xpk_from_masked(input);
        let sxsk = XSK::generate(&mut self.dh_rng);
        let sxpk = xpk_to_masked(&sxsk.pk());
        let conn_key = sxsk.exchange(cxpk);
        let mut handshake_cipher = HANDSHAKE_CIPHER.create().chain_absorb(
            conn_key.as_bytes(),
        );
        let spki = ssk.create_pkinfo(ts).encrypt(&mut handshake_cipher);
        let mut output = [0u8; 138];
        put(&mut output, 0, &sxpk);
        put(&mut output, 32, &spki);
        assert(output@.subrange(0, 32) =~= sxpk@);
        assert(output@.subrange(32, 138) =~= spki@);
        (ServerBuilder { ssk, conn_key, handshake_cipher }, output)
    }
}

impl ClientBuilderA {
    /// The raw bytes of the client's long-term key.
    pub closed spec fn key(&self) -> Seq<u8> {
        self.csk.sk@
    }

    /// The kind of the long-term key.
    pub closed spec fn keytype(&self) -> u16 {
        self.csk.keytype
    }

    /// The key that the server is expected to show.
    pub closed spec fn expected(&self) -> Seq<u8> {
        self.spk@
    }

    /// The client's ephemeral scalar.
    pub closed spec fn secret(&self) -> Seq<u8> {
        self.cxsk@
    }

    /// The hello that this client has sent.
    pub open spec fn hello(&self) -> Seq<u8> {
        mask(x25519_base_mul(self.secret()))
    }

    /// Third flight. Reads the server's hello `input` at the local time `ts`:
    /// makes the shared secret, decrypts the server's identity and checks it,
    /// and gives the login to send: the client's signed identity under the
    /// handshake cipher. Any failed check ends the handshake. The hello of
    /// the expected server passes, where its timestamp is fresh.
    pub fn login(self, input: [u8; 138], ts: i64) -> (res: Result<(ClientBuilderB, [u8; 106]), Error>)
        ensures
            ({
                let secret = x25519_mul(self.secret(), mask(input@.subrange(0, 32)));
                let cipher = handshake_cipher(secret);
                let plain = xor_seq(input@.subrange(32, 138), cipher.output(106));
                let refusal = pkinfo_refusal(plain, Some(self.expected()), ts);
                &&& res matches Err(e) ==> refusal == Some(e)
                &&& res matches Ok((builder, output)) ==> {
                    &&& refusal is None
                    &&& builder.logged_in(self, input@)
                    &&& builder.expected() == self.expected()
                    &&& builder.cipher() == cipher.squeeze(106).squeeze(106)
                    &&& output@ == xor_seq(
                        signed_pkinfo(self.key(), self.keytype(), ts),
                        cipher.squeeze(106).output(106),
                    )
                }
                &&& !fresh(ts, i64_of_bytes(plain.subrange(0, 8))) ==> res is Err
                &&& agrees(secret, self.secret(), mask(input@.subrange(0, 32)))
                &&& forall|key: Seq<u8>, keytype: u16, peer_ts: i64|
                    #![trigger signed_pkinfo(key, keytype, peer_ts)]
                    plain == signed_pkinfo(key, keytype, peer_ts) && self.expected() == public_key(
                        key,
                    ) && fresh(ts, peer_ts) ==> res is Ok
            }),
    {
        let ClientBuilderA { csk, spk, cxsk } = self;
        proof {
            spk.lemma_len();
        }
        let sxpk = xpk_from_masked(take::<32>(&input, 0));
        let conn_key = cxsk.exchange(sxpk);
        let mut handshake_cipher = HANDSHAKE_CIPHER.create().chain_absorb(
            conn_key.as_bytes(),
        );
        let ghost plain = xor_seq(input@.subrange(32, 138), handshake_cipher@.output(106));
        let spki_bytes = take::<106>(&input, 32);
        let res = match PKInfo::decrypt(spki_bytes, &mut handshake_cipher) {
            Err(e) => Err(e),
            Ok(spki) => match check_pkinfo(&spki, Some(&spk), ts) {
                Some(e) => Err(e),
                None => {
                    let output = csk.create_pkinfo(ts).encrypt(&mut handshake_cipher);
                    Ok((ClientBuilderB { spk, conn_key, handshake_cipher }, output))
                },
            },
        };
        proof {
            assert forall|key: Seq<u8>, keytype: u16, peer_ts: i64|
                #![trigger signed_pkinfo(key, keytype, peer_ts)]
                plain == signed_pkinfo(key, keytype, peer_ts) && self.expected() == public_key(key)
                    && fresh(ts, peer_ts) implies res is Ok by {
                lemma_signed_pkinfo_parts(key, keytype, peer_ts);
            }
        }
        res
    }
}

impl ServerBuilder {
    /// The raw bytes of the server's long-term key.
    pub closed spec fn key(&self) -> Seq<u8> {
        self.ssk.sk@
    }

    /// The secret shared with the client.
    pub closed spec fn secret(&self) -> Seq<u8> {
        self.conn_key@
    }

    /// The handshake cipher as it stands.
    pub closed spec fn cipher(&self) -> SpongeState {
        self.handshake_cipher@
    }

    /// What `accept` leaves: the server drew the ephemeral scalar `scalar`,
    /// made the secret from it and the unmasked hello `chello`, and put its
    /// own ephemeral public key, masked, at the head of `shello`.
    pub open spec fn accepted(&self, scalar: Seq<u8>, chello: Seq<u8>, shello: Seq<u8>) -> bool {
        &&& scalar.len() == 32
        &&& self.secret() == x25519_mul(scalar, mask(chello))
        &&& shello.subrange(0, 32) == mask(x25519_base_mul(scalar))
    }

    /// Fourth flight. Reads the client's login `input` at the local time
    /// `ts`: decrypts the client's identity and checks it, asks `find_uid` for
    /// the user id of the client's key, and gives the confirmation to send:
    /// the user id, signed, under the handshake cipher. Any failed check ends
    /// the handshake, and `find_uid` is then not asked. The login of the owner
    /// of any long-term key passes, where its timestamp is fresh.
    pub fn login<F: FnOnce(PK) -> u64>(self, input: [u8; 106], ts: i64, find_uid: F) -> (res:
        Result<(ConnectionState, [u8; 72]), Error>)
        requires
            forall|pk: PK| find_uid.requires((pk,)),
        ensures
            ({
                let plain = xor_seq(input@, self.cipher().output(106));
                let refusal = pkinfo_refusal(plain, None, ts);
                &&& res matches Err(e) ==> refusal == Some(e)
                &&& res matches Ok((conn, output)) ==> {
                    &&& refusal is None
                    &&& exists|pk: PK|
                        pk@ == plain.subrange(10, 42) && #[trigger] find_uid.ensures(
                            (pk,),
                            conn@.uid,
                        )
                    &&& conn@ == ConnectionView::initial(
                        ConnectionPeer::Server,
                        conn@.uid,
                        self.secret(),
                    )
                    &&& output@ == xor_seq(
                        signed_login_verify(self.key(), conn@.uid),
                        self.cipher().squeeze(106).output(72),
                    )
                }
                &&& !fresh(ts, i64_of_bytes(plain.subrange(0, 8))) ==> res is Err
                &&& forall|key: Seq<u8>, keytype: u16, peer_ts: i64|
                    #![trigger signed_pkinfo(key, keytype, peer_ts)]
                    plain == signed_pkinfo(key, keytype, peer_ts) && public_key(key).len() == 32
                        && fresh(ts, peer_ts) ==> res is Ok
            }),
    {
        let ServerBuilder { ssk, conn_key, mut handshake_cipher } = self;
        let ghost plain = xor_seq(input@, handshake_cipher@.output(106));
        let res = match PKInfo::decrypt(input, &mut handshake_cipher) {
            Err(e) => Err(e),
            Ok(cpki) => match check_pkinfo(&cpki, None, ts) {
                Some(e) => Err(e),
                None => {
                    let uid = find_uid(cpki.inner.pk.clone());
                    let output = ssk.create_login_verify(uid).encrypt(&mut handshake_cipher);
                    Ok((ConnectionState::init(ConnectionPeer::Server, uid, conn_key), output))
                },
            },
        };
        proof {
            assert forall|key: Seq<u8>, keytype: u16, peer_ts: i64|
                #![trigger signed_pkinfo(key, keytype, peer_ts)]
                plain == signed_pkinfo(key, keytype, peer_ts) && public_key(key).len() == 32
                    && fresh(ts, peer_ts) implies res is Ok by {
                lemma_signed_pkinfo_parts(key, keytype, peer_ts);
            }
        }
        res
    }
}

impl ClientBuilderB {
    /// The key that the server has shown.
    pub closed spec fn expected(&self) -> Seq<u8> {
        self.spk@
    }

    /// The secret shared with the server.
    pub closed spec fn secret(&self) -> Seq<u8> {
        self.conn_key@
    }

    /// The handshake cipher as it stands.
    pub closed spec fn cipher(&self) -> SpongeState {
        self.handshake_cipher@
    }

    /// What `login` leaves: the secret made from the ephemeral scalar of
    /// `before` and the unmasked head of the server's hello, with its
    /// Diffie-Hellman property.
    pub open spec fn logged_in(&self, before: ClientBuilderA, shello: Seq<u8>) -> bool {
        &&& self.secret() == x25519_mul(before.secret(), mask(shello.subrange(0, 32)))
        &&& agrees(self.secret(), before.secret(), mask(shello.subrange(0, 32)))
    }

    /// The end of the handshake on the client's side. Reads the server's
    /// confirmation `input`: decrypts it, checks the server's signature and
    /// takes the user id. The confirmation of the expected server passes, and
    /// gives the user id that the server signed.
    pub fn finish_login(self, input: [u8; 72]) -> (res: Result<ConnectionState, Error>)
        ensures
            ({
                let plain = xor_seq(input@, self.cipher().output(72));
                let refusal = login_verify_refusal(plain, self.expected());
                &&& res matches Err(e) ==> refusal == Some(e)
                &&& res matches Ok(conn) ==> {
                    &&& refusal is None
                    &&& conn@ == ConnectionView::initial(
                        ConnectionPeer::Client,
                        le_nat(plain.subrange(0, 8)) as u64,
                        self.secret(),
                    )
                }
                &&& forall|key: Seq<u8>, uid: u64|
                    #![trigger signed_login_verify(key, uid)]
                    plain == signed_login_verify(key, uid) && self.expected() == public_key(key)
                        ==> res is Ok && res->Ok_0@.uid == uid
            }),
    {
        let ClientBuilderB { spk, conn_key, mut handshake_cipher } = self;
        let ghost plain = xor_seq(input@, handshake_cipher@.output(72));
        let res = match LoginVerify::decrypt(input, &mut handshake_cipher) {
            Err(e) => Err(e),
            Ok(verify) => {
                proof {
                    lemma_le_bytes_of_le_nat(plain.subrange(0, 8));
                }
                if spk.edlike_verify(&u64_to_bytes(verify.uid), &verify.sig) {
                    Ok(ConnectionState::init(ConnectionPeer::Client, verify.uid, conn_key))
                } else {
                    Err(Error::SignatureInvalid)
                }
            },
        };
        proof {
            assert forall|key: Seq<u8>, uid: u64|
                #![trigger signed_login_verify(key, uid)]
                plain == signed_login_verify(key, uid) && self.expected() == public_key(
                    key,
                ) implies res is Ok && res->Ok_0@.uid == uid by {
                lemma_signed_login_verify_parts(key, uid);
            }
        }
        res
    }
}

/// The secret that a client makes of a server's hello is the server's: where
/// the server answered this client's hello with `shello`, and `secret` is
/// what the client's exchange with the head of `shello` gives.
pub proof fn lemma_exchange_agrees(
    client: ClientBuilderA,
    chello: Seq<u8>,
    server: ServerBuilder,
    server_scalar: Seq<u8>,
    shello: Seq<u8>,
    secret: Seq<u8>,
)
    requires
        chello.len() == 32,
        chello == client.hello(),
        server.accepted(server_scalar, chello, shello),
        shello.len() == 138,
        agrees(secret, client.secret(), mask(shello.subrange(0, 32))),
    ensures
        secret == server.secret(),
{
    let cxpk = x25519_base_mul(client.secret());
    let sxpk = x25519_base_mul(server_scalar);
    assert(cxpk.len() == 32);
    assert(shello.subrange(0, 32).len() == 32);
    assert(sxpk.len() == 32);
    lemma_xor_twice(cxpk, HANDSHAKE_PRE_MASK_BYTES@);
    lemma_xor_twice(sxpk, HANDSHAKE_PRE_MASK_BYTES@);
    assert(mask(chello) == cxpk);
    assert(mask(shello.subrange(0, 32)) == sxpk);
}

/// Both sides of a handshake end with the same secret: the server that
/// answered this client's hello, and the client that logged in on that
/// server's hello.
pub proof fn lemma_handshake_secrets_agree(
    client: ClientBuilderA,
    chello: Seq<u8>,
    server: ServerBuilder,
    server_scalar: Seq<u8>,
    shello: Seq<u8>,
    logged_in: ClientBuilderB,
)
    requires
        chello.len() == 32,
        chello == client.hello(),
        server.accepted(server_scalar, chello, shello),
        shello.len() == 138,
        logged_in.logged_in(client, shello),
    ensures
        logged_in.secret() == server.secret(),
{
    lemma_exchange_agrees(client, chello, server, server_scalar, shello, logged_in.secret());
}

} // verus!
