//! Keys over Curve25519: ephemeral exchange keys, long-term identity keys and
//! the Ed25519-shaped signature built on the sponge.

use vstd::prelude::*;
use vstd::std_specs::cmp::PartialEqSpecImpl;
use curve25519_dalek::edwards::CompressedEdwardsY;
use curve25519_dalek::edwards::EdwardsPoint;
use curve25519_dalek::montgomery::MontgomeryPoint;
use curve25519_dalek::scalar::Scalar;
use crate::bytes::{
    ct_eq, le_bytes, le_nat, lemma_le_bytes_len, lemma_le_nat_of_le_bytes, pow256, put, take, wipe,
};
use crate::cshake::{keyed, lemma_absorb_joins, CShakeCustom, Sponge};
use crate::cshake_customs::{DH_SK_GEN_PRNG, DSA_EDSIGN_K_HASH, DSA_EDSIGN_R_HASH, DSA_SK_DERIVE};
use crate::error::Error;

verus! {

/// The order of the base point: 2^252 + 27742317777372353535851937790883648493.
pub open spec fn group_order() -> nat {
    0x1000000000000000000000000000000014def9dea2f79cd65812631a5cf5d3ednat
}

/// Clamping of a 32-byte number: the three lowest bits and the highest bit
/// are cleared, the second-highest is set.
pub open spec fn clamp(bytes: Seq<u8>) -> Seq<u8> {
    bytes.update(0, bytes[0] & 248).update(31, (bytes[31] & 127) | 64)
}

/// Clamping a clamped number changes nothing.
pub proof fn lemma_clamp_idempotent(bytes: Seq<u8>)
    requires
        bytes.len() == 32,
    ensures
        clamp(clamp(bytes)) == clamp(bytes),
        clamp(bytes).len() == 32,
        clamp(bytes)[31] < 128,
{
    let lo: u8 = bytes[0];
    let hi: u8 = bytes[31];
    assert((lo & 248) & 248 == lo & 248) by (bit_vector);
    assert((((hi & 127) | 64) & 127) | 64 == (hi & 127) | 64) by (bit_vector);
    assert((hi & 127) | 64 < 128) by (bit_vector);
    assert(clamp(clamp(bytes)) =~= clamp(bytes));
}

/// The compressed Edwards point that is the base point times the clamped
/// `scalar`.
pub uninterp spec fn ed25519_base_mul(scalar: Seq<u8>) -> Seq<u8>;

/// Whether 32 bytes are the compressed form of a point of the Edwards curve.
pub uninterp spec fn ed25519_is_point(bytes: Seq<u8>) -> bool;

/// The compressed Edwards point `s`·B − `k`·A, where B is the base point and
/// A the point that `point` holds.
pub uninterp spec fn ed25519_double_mul(k: Seq<u8>, point: Seq<u8>, s: Seq<u8>) -> Seq<u8>;

/// The compressed Edwards point that is the point held by `point` times the
/// clamped `scalar`.
pub uninterp spec fn ed25519_mul(scalar: Seq<u8>, point: Seq<u8>) -> Seq<u8>;

/// The Montgomery u-coordinate of the base point times the clamped `scalar`.
pub uninterp spec fn x25519_base_mul(scalar: Seq<u8>) -> Seq<u8>;

/// The Montgomery u-coordinate of the point with u-coordinate `point`, times
/// the clamped `scalar`.
pub uninterp spec fn x25519_mul(scalar: Seq<u8>, point: Seq<u8>) -> Seq<u8>;

/// The Diffie-Hellman property of `secret`, made from the scalar `own` and the
/// public key `peer_pk`: whoever holds a scalar whose public key is `peer_pk`
/// gets the same secret from the public key of `own`.
pub open spec fn agrees(secret: Seq<u8>, own: Seq<u8>, peer_pk: Seq<u8>) -> bool {
    forall|other: Seq<u8>|
        other.len() == 32 && peer_pk == #[trigger] x25519_base_mul(other) ==> secret == x25519_mul(
            other,
            x25519_base_mul(own),
        )
}

/// Trusted: `curve25519_dalek::scalar::clamp_integer`, which masks the first
/// and the last byte as [`clamp`] says.
pub assume_specification[ curve25519_dalek::scalar::clamp_integer ](bytes: [u8; 32]) -> (clamped:
    [u8; 32])
    ensures
        clamped@ == clamp(bytes@),
;

/// Trusted: calls `MontgomeryPoint::mul_base_clamped`, which clamps the
/// scalar, multiplies the Ed25519 base point by it and converts the result to
/// its Montgomery u-coordinate. The result depends on the scalar alone and is
/// named.
#[verifier::external_body]
fn montgomery_mul_base(scalar: &[u8; 32]) -> (point: [u8; 32])
    ensures
        point@ == x25519_base_mul(scalar@),
{
    MontgomeryPoint::mul_base_clamped(*scalar).to_bytes()
}

/// Trusted: calls `MontgomeryPoint::mul_clamped`, which clamps the scalar and
/// multiplies the point with the given u-coordinate by it on the Montgomery
/// ladder. The result depends on the two arguments alone and is named. The
/// second clause is the Diffie-Hellman property of that multiplication: where
/// the point is the base point times another scalar, the result is what the
/// holder of that scalar gets from this scalar's multiple of the base point,
/// since both are the u-coordinate of the base point times the product.
#[verifier::external_body]
fn montgomery_mul(scalar: &[u8; 32], point: &[u8; 32]) -> (shared: [u8; 32])
    ensures
        shared@ == x25519_mul(scalar@, point@),
        forall|other: Seq<u8>|
            other.len() == 32 && point@ == #[trigger] x25519_base_mul(other) ==> shared@
                == x25519_mul(other, x25519_base_mul(scalar@)),
{
    MontgomeryPoint(*point).mul_clamped(*scalar).to_bytes()
}

/// Trusted: calls `EdwardsPoint::mul_base_clamped` and compresses the result.
/// The outside function clamps the scalar and multiplies the Ed25519 base
/// point by it; the result depends on the scalar alone and is named. What it
/// returns is a point of the curve.
#[verifier::external_body]
fn edwards_mul_base(scalar: &[u8; 32]) -> (point: [u8; 32])
    ensures
        point@ == ed25519_base_mul(scalar@),
        ed25519_is_point(point@),
{
    EdwardsPoint::mul_base_clamped(*scalar).compress().to_bytes()
}

/// Trusted: calls `CompressedEdwardsY::decompress` and says whether it found a
/// point. Every multiple of the base point, compressed, is found.
#[verifier::external_body]
fn edwards_is_point(bytes: &[u8; 32]) -> (ok: bool)
    ensures
        ok == ed25519_is_point(bytes@),
        forall|scalar: Seq<u8>|
            scalar.len() == 32 && bytes@ == #[trigger] ed25519_base_mul(scalar) ==> ok,
{
    CompressedEdwardsY(*bytes).decompress().is_some()
}

/// Trusted: calls `EdwardsPoint::vartime_double_scalar_mul_basepoint` on `k`,
/// the negated point that `point` holds and `s` (reduced modulo the group
/// order), and compresses the result. The outside function computes
/// `k`·(−A) + `s`·B for the base point B; the result depends on the three
/// arguments alone and is named. The last clause is that sum where A is a
/// multiple a·B of the base point: then the result is `(s − k·a)`·B, so where
/// `s` is `k·a + r` modulo the group order it is r·B.
#[verifier::external_body]
#[allow(deprecated)]
fn edwards_double_mul(k: &[u8; 32], point: &[u8; 32], s: &[u8; 32]) -> (r: [u8; 32])
    requires
        ed25519_is_point(point@),
        k@[31] < 128,
    ensures
        r@ == ed25519_double_mul(k@, point@, s@),
        forall|a: Seq<u8>, n: Seq<u8>|
            #![trigger ed25519_base_mul(a), ed25519_base_mul(n)]
            a.len() == 32 && n.len() == 32 && point@ == ed25519_base_mul(a) && le_nat(s@)
                % group_order() == (le_nat(clamp(a)) * le_nat(k@) + le_nat(clamp(n)))
                % group_order() ==> r@ == ed25519_base_mul(n),
{
    let a = CompressedEdwardsY(*point).decompress().unwrap();
    let k = Scalar::from_bits(*k);
    let s = Scalar::from_bytes_mod_order(*s);
    EdwardsPoint::vartime_double_scalar_mul_basepoint(&k, &-a, &s).compress().to_bytes()
}

/// Trusted: calls `EdwardsPoint::mul_clamped` on the point that `point` holds
/// and compresses the result. The outside function clamps the scalar and
/// multiplies the point by it; the result depends on the two arguments alone
/// and is named.
#[verifier::external_body]
fn edwards_mul(scalar: &[u8; 32], point: &[u8; 32]) -> (product: [u8; 32])
    requires
        ed25519_is_point(point@),
    ensures
        product@ == ed25519_mul(scalar@, point@),
{
    CompressedEdwardsY(*point).decompress().unwrap().mul_clamped(*scalar).compress().to_bytes()
}

/// Trusted: multiplies two numbers modulo the group order with
/// `curve25519_dalek`'s `Scalar`, each read by `Scalar::from_bytes_mod_order`;
/// the result is the canonical representative.
#[verifier::external_body]
fn scalar_mul(a: &[u8; 32], b: &[u8; 32]) -> (product: [u8; 32])
    ensures
        product@ == le_bytes((le_nat(a@) * le_nat(b@)) % group_order(), 32),
{
    (Scalar::from_bytes_mod_order(*a) * Scalar::from_bytes_mod_order(*b)).to_bytes()
}

/// Trusted: adds two numbers modulo the group order with `curve25519_dalek`'s
/// `Scalar`, each read by `Scalar::from_bytes_mod_order`; the result is the
/// canonical representative.
#[verifier::external_body]
fn scalar_add(a: &[u8; 32], b: &[u8; 32]) -> (sum: [u8; 32])
    ensures
        sum@ == le_bytes((le_nat(a@) + le_nat(b@)) % group_order(), 32),
{
    (Scalar::from_bytes_mod_order(*a) + Scalar::from_bytes_mod_order(*b)).to_bytes()
}

/// Trusted: calls `Scalar::from_canonical_bytes`, which accepts 32 bytes if
/// and only if the number they write is below the group order.
#[verifier::external_body]
fn scalar_is_canonical(bytes: &[u8; 32]) -> (ok: bool)
    ensures
        ok == (le_nat(bytes@) < group_order()),
{
    Scalar::from_canonical_bytes(*bytes).is_some().into()
}

/// An ephemeral secret key for one exchange: a clamped scalar.
pub struct XSK {
    scalar: [u8; 32],
}

/// An ephemeral public key: a Montgomery u-coordinate.
pub struct XPK {
    montgomery: [u8; 32],
}

/// What an exchange leaves both sides with.
pub struct ExchangedSecret {
    montgomery: [u8; 32],
}

impl View for XSK {
    type V = Seq<u8>;

    closed spec fn view(&self) -> Seq<u8> {
        self.scalar@
    }
}

impl View for XPK {
    type V = Seq<u8>;

    closed spec fn view(&self) -> Seq<u8> {
        self.montgomery@
    }
}

impl View for ExchangedSecret {
    type V = Seq<u8>;

    closed spec fn view(&self) -> Seq<u8> {
        self.montgomery@
    }
}

impl XPK {
    /// Reads the value from its bytes.
    pub fn from_bytes(bytes: [u8; 32]) -> (xpk: XPK)
        ensures
            xpk@ == bytes@,
    {
        XPK { montgomery: bytes }
    }

    /// The bytes of this value.
    pub fn to_bytes(&self) -> (bytes: [u8; 32])
        ensures
            bytes@ == self@,
    {
        self.montgomery
    }
}

impl XSK {
    /// Draws a secret key from the PRNG: its next 32 bytes, clamped.
    pub fn generate(ctx: &mut Sponge<DH_SK_GEN_PRNG>) -> (xsk: XSK)
        ensures
            xsk@ == clamp(old(ctx)@.output(32)),
            final(ctx)@ == old(ctx)@.squeeze(32),
    {
        let mut raw: [u8; 32] = ctx.squeeze_to_array::<32>();
        let scalar = curve25519_dalek::scalar::clamp_integer(raw);
        wipe(&mut raw);
        XSK { scalar }
    }

    /// The public key of this secret key.
    pub fn pk(&self) -> (xpk: XPK)
        ensures
            xpk@ == x25519_base_mul(self@),
    {
        XPK { montgomery: montgomery_mul_base(&self.scalar) }
    }

    /// The secret shared with the holder of `peer_pk`. Where `peer_pk` is the
    /// public key of another secret key, the holder of that key gets the same
    /// secret from this key's public key.
    pub fn exchange(self, peer_pk: XPK) -> (secret: ExchangedSecret)
        ensures
            secret@ == x25519_mul(self@, peer_pk@),
            agrees(secret@, self@, peer_pk@),
    {
        ExchangedSecret { montgomery: montgomery_mul(&self.scalar, &peer_pk.montgomery) }
    }
}

impl ExchangedSecret {
    /// The 32 bytes of the secret.
    pub fn as_bytes(&self) -> (bytes: &[u8; 32])
        ensures
            bytes@ == self@,
    {
        &self.montgomery
    }
}

/// The group order is below 2^256, so every residue fits in 32 bytes.
pub proof fn lemma_group_order_fits()
    ensures
        0 < group_order() < pow256(32),
{
    reveal_with_fuel(pow256, 33);
}

/// The clamped scalar of the long-term key with the raw bytes `key`.
pub open spec fn derived_scalar(key: Seq<u8>) -> Seq<u8> {
    clamp(keyed(DSA_SK_DERIVE::label(), key).output(32))
}

/// The signing nonce of the long-term key with the raw bytes `key`.
pub open spec fn derived_nonce(key: Seq<u8>) -> Seq<u8> {
    keyed(DSA_SK_DERIVE::label(), key).squeeze(32).output(32)
}

/// The public key of the long-term key with the raw bytes `key`.
pub open spec fn public_key(key: Seq<u8>) -> Seq<u8> {
    ed25519_base_mul(derived_scalar(key))
}

/// The secret scalar r of the signature on `msg`.
pub open spec fn sign_r_scalar(nonce: Seq<u8>, msg: Seq<u8>) -> Seq<u8> {
    clamp(keyed(DSA_EDSIGN_R_HASH::label(), nonce + msg).output(32))
}

/// The challenge k that binds the commitment `r`, the public key and `msg`.
pub open spec fn sign_challenge(r: Seq<u8>, pk: Seq<u8>, msg: Seq<u8>) -> Seq<u8> {
    clamp(keyed(DSA_EDSIGN_K_HASH::label(), r + pk + msg).output(32))
}

/// The response s: scalar times k plus r, modulo the group order, in 32 bytes.
pub open spec fn sign_response(scalar: Seq<u8>, k: Seq<u8>, r_scalar: Seq<u8>) -> Seq<u8> {
    le_bytes((le_nat(scalar) * le_nat(k) + le_nat(r_scalar)) % group_order(), 32)
}

/// The 64 bytes of the signature that the key with the raw bytes `key` makes
/// on `msg`: the commitment R, then the response s.
pub open spec fn signature(key: Seq<u8>, msg: Seq<u8>) -> Seq<u8> {
    let r_scalar = sign_r_scalar(derived_nonce(key), msg);
    let r = ed25519_base_mul(r_scalar);
    let k = sign_challenge(r, public_key(key), msg);
    r + sign_response(derived_scalar(key), k, r_scalar)
}

/// Whether the 64 bytes `sig` are accepted as a signature on `msg` under the
/// public key `pk`: the key is a point, and s·B − k·A compresses to R.
pub open spec fn accepts(pk: Seq<u8>, msg: Seq<u8>, sig: Seq<u8>) -> bool {
    let r = sig.subrange(0, 32);
    let s = sig.subrange(32, 64);
    ed25519_is_point(pk) && ed25519_double_mul(sign_challenge(r, pk, msg), pk, s) == r
}

/// A long-term secret key: the raw bytes, and the scalar and the nonce derived
/// from them.
pub struct SK {
    key: [u8; 32],
    scalar: [u8; 32],
    nonce: [u8; 32],
}

/// A long-term public key: a compressed Edwards point. Two are equal when
/// their bytes are.
pub struct PK {
    edwards: [u8; 32],
}

/// An exchange signature: a hash, and the point that the signer's scalar
/// makes of the hash's multiple of the base point.
pub struct ExchangeSignature {
    pub hash: [u8; 32],
    pub exchanged: [u8; 32],
}

/// A signature (R, s): a compressed Edwards point and a canonical scalar.
pub struct EdLikeSignature {
    r: [u8; 32],
    s: [u8; 32],
}

impl View for SK {
    type V = Seq<u8>;

    /// The raw bytes.
    closed spec fn view(&self) -> Seq<u8> {
        self.key@
    }
}

impl View for PK {
    type V = Seq<u8>;

    closed spec fn view(&self) -> Seq<u8> {
        self.edwards@
    }
}

impl View for EdLikeSignature {
    type V = Seq<u8>;

    /// The 64 bytes: R, then s.
    closed spec fn view(&self) -> Seq<u8> {
        self.r@ + self.s@
    }
}

impl Clone for PK {
    fn clone(&self) -> (pk: PK)
        ensures
            pk@ == self@,
    {
        PK { edwards: self.edwards }
    }
}

impl PartialEq for PK {
    fn eq(&self, other: &PK) -> (same: bool) {
        ct_eq(&self.edwards, &other.edwards)
    }
}

impl PartialEqSpecImpl for PK {
    open spec fn obeys_eq_spec() -> bool {
        true
    }

    open spec fn eq_spec(&self, other: &PK) -> bool {
        self@ == other@
    }
}

impl PK {
    /// Reads the value from its bytes.
    pub fn from_bytes(bytes: [u8; 32]) -> (pk: PK)
        ensures
            pk@ == bytes@,
    {
        PK { edwards: bytes }
    }

    /// The bytes of this value.
    pub fn to_bytes(&self) -> (bytes: [u8; 32])
        ensures
            bytes@ == self@,
    {
        self.edwards
    }

    /// A key is 32 bytes long.
    pub proof fn lemma_len(&self)
        ensures
            self@.len() == 32,
    {
    }

    /// Whether the bytes of this key are a point of the curve. Every public
    /// key of a long-term key is one.
    pub fn is_valid(&self) -> (ok: bool)
        ensures
            ok == ed25519_is_point(self@),
            forall|key: Seq<u8>| self@ == #[trigger] public_key(key) ==> ok,
    {
        let ok = edwards_is_point(&self.edwards);
        assert forall|key: Seq<u8>| self@ == #[trigger] public_key(key) implies ok by {
            assert(self@ == ed25519_base_mul(derived_scalar(key)));
        }
        ok
    }
}

impl EdLikeSignature {
    #[verifier::type_invariant]
    spec fn canonical(&self) -> bool {
        le_nat(self.s@) < group_order()
    }

    /// Reads a signature. The scalar has to be canonical.
    pub fn from_bytes(bytes: [u8; 64]) -> (res: Result<EdLikeSignature, Error>)
        ensures
            res is Ok == (le_nat(bytes@.subrange(32, 64)) < group_order()),
            res matches Ok(sig) ==> sig@ == bytes@,
            res matches Err(e) ==> e == Error::MalformedInput,
    {
        let r: [u8; 32] = take::<32>(&bytes, 0);
        let s: [u8; 32] = take::<32>(&bytes, 32);
        if scalar_is_canonical(&s) {
            assert(r@ + s@ =~= bytes@);
            Ok(EdLikeSignature { r, s })
        } else {
            Err(Error::MalformedInput)
        }
    }

    /// The bytes of this value.
    pub fn to_bytes(&self) -> (bytes: [u8; 64])
        ensures
            bytes@ == self@,
            le_nat(bytes@.subrange(32, 64)) < group_order(),
    {
        proof {
            use_type_invariant(self);
        }
        let mut bytes = [0u8; 64];
        put(&mut bytes, 0, &self.r);
        put(&mut bytes, 32, &self.s);
        assert(bytes@ =~= self.r@ + self.s@);
        assert(bytes@.subrange(32, 64) =~= self.s@);
        bytes
    }
}

impl SK {
    /// The scalar and the nonce are those derived from the raw bytes. This
    /// holds of every key from `from_key` until it is dropped.
    pub closed spec fn wf(&self) -> bool {
        &&& self.scalar@ == derived_scalar(self.key@)
        &&& self.nonce@ == derived_nonce(self.key@)
    }

    /// The long-term key with the raw bytes `key`.
    pub fn from_key(key: [u8; 32]) -> (sk: SK)
        ensures
            sk.wf(),
            sk@ == key@,
    {
        let mut ctx = DSA_SK_DERIVE.create().chain_absorb(&key);
        let mut raw: [u8; 32] = ctx.squeeze_to_array::<32>();
        let scalar = curve25519_dalek::scalar::clamp_integer(raw);
        wipe(&mut raw);
        let nonce: [u8; 32] = ctx.squeeze_to_array::<32>();
        SK { key, scalar, nonce }
    }

    /// The public key of this key.
    pub fn pk(&self) -> (pk: PK)
        requires
            self.wf(),
        ensures
            pk@ == public_key(self@),
    {
        PK { edwards: edwards_mul_base(&self.scalar) }
    }
}

/// The challenge of a signature with the commitment `r` on `msg` under `pk`.
fn calc_k(r: &[u8; 32], pk: &PK, msg: &[u8]) -> (k: [u8; 32])
    ensures
        k@ == sign_challenge(r@, pk@, msg@),
{
    let mut k_ctx = DSA_EDSIGN_K_HASH.create();
    let ghost fresh = k_ctx@;
    k_ctx.absorb(r);
    k_ctx.absorb(&pk.edwards);
    k_ctx.absorb(msg);
    proof {
        lemma_absorb_joins(fresh, r@, pk@);
        lemma_absorb_joins(fresh, r@ + pk@, msg@);
    }
    let mut raw: [u8; 32] = k_ctx.squeeze_to_array::<32>();
    let k = curve25519_dalek::scalar::clamp_integer(raw);
    wipe(&mut raw);
    k
}

/// The secret scalar r of a signature on `msg`, and the commitment R.
fn calc_r(nonce: &[u8; 32], msg: &[u8]) -> (res: ([u8; 32], [u8; 32]))
    ensures
        res.0@ == sign_r_scalar(nonce@, msg@),
        res.1@ == ed25519_base_mul(res.0@),
{
    let mut r_ctx = DSA_EDSIGN_R_HASH.create();
    let ghost fresh = r_ctx@;
    r_ctx.absorb(nonce);
    r_ctx.absorb(msg);
    proof {
        lemma_absorb_joins(fresh, nonce@, msg@);
    }
    let mut raw: [u8; 32] = r_ctx.squeeze_to_array::<32>();
    let r_scalar = curve25519_dalek::scalar::clamp_integer(raw);
    wipe(&mut raw);
    let r = edwards_mul_base(&r_scalar);
    (r_scalar, r)
}

/// The response of a signature: scalar times `k` plus `r_scalar`.
fn calc_s(sk: &SK, k: &[u8; 32], r_scalar: &[u8; 32]) -> (s: [u8; 32])
    requires
        sk.wf(),
    ensures
        s@ == sign_response(derived_scalar(sk@), k@, r_scalar@),
        le_nat(s@) < group_order(),
{
    let mut product = scalar_mul(&sk.scalar, k);
    let s = scalar_add(&product, r_scalar);
    proof {
        let l = group_order() as int;
        let ak = (le_nat(sk.scalar@) * le_nat(k@)) as int;
        let r = le_nat(r_scalar@) as int;
        lemma_group_order_fits();
        vstd::arithmetic::div_mod::lemma_mod_bound(ak, l);
        lemma_le_nat_of_le_bytes((ak % l) as nat, 32);
        vstd::arithmetic::div_mod::lemma_add_mod_noop(ak, r, l);
        vstd::arithmetic::div_mod::lemma_add_mod_noop(ak % l, r, l);
        vstd::arithmetic::div_mod::lemma_mod_twice(ak, l);
        assert((ak % l + r) % l == (ak + r) % l);
        vstd::arithmetic::div_mod::lemma_mod_bound(ak + r, l);
        lemma_le_nat_of_le_bytes(((ak + r) % l) as nat, 32);
    }
    wipe(&mut product);
    s
}

/// The point that a signature's commitment is held against: `s`·B − `k`·A for
/// the point A of `pk`, or nothing where `pk` holds no point.
fn calc2_r(k: &[u8; 32], pk: &PK, s: &[u8; 32]) -> (r: Option<[u8; 32]>)
    requires
        k@[31] < 128,
    ensures
        r is Some == ed25519_is_point(pk@),
        r matches Some(point) ==> point@ == ed25519_double_mul(k@, pk@, s@),
        forall|a: Seq<u8>|
            a.len() == 32 && pk@ == #[trigger] ed25519_base_mul(a) ==> r is Some,
        forall|a: Seq<u8>, n: Seq<u8>|
            #![trigger ed25519_base_mul(a), ed25519_base_mul(n)]
            a.len() == 32 && n.len() == 32 && pk@ == ed25519_base_mul(a) && le_nat(s@)
                % group_order() == (le_nat(clamp(a)) * le_nat(k@) + le_nat(clamp(n)))
                % group_order() ==> r is Some && r->0@ == ed25519_base_mul(n),
{
    if edwards_is_point(&pk.edwards) {
        Some(edwards_double_mul(k, &pk.edwards, s))
    } else {
        None
    }
}

impl SK {
    /// Signs `msg`. The signature depends on the key and the message alone.
    pub fn edlike_sign(&self, msg: &[u8]) -> (sig: EdLikeSignature)
        requires
            self.wf(),
        ensures
            sig@ == signature(self@, msg@),
    {
        let (mut r_scalar, r) = calc_r(&self.nonce, msg);
        let k = calc_k(&r, &self.pk(), msg);
        let s = calc_s(self, &k, &r_scalar);
        wipe(&mut r_scalar);
        EdLikeSignature { r, s }
    }
}

impl PK {
    /// Whether `sig` is a signature on `msg` under this key. Every signature
    /// that the owner of this key makes on `msg` is one.
    pub fn edlike_verify(&self, msg: &[u8], sig: &EdLikeSignature) -> (ok: bool)
        ensures
            ok == accepts(self@, msg@, sig@),
            forall|key: Seq<u8>|
                self@ == #[trigger] public_key(key) && sig@ == signature(
                    key,
                    msg@,
                ) ==> ok,
    {
        let k2 = calc_k(&sig.r, self, msg);
        proof {
            lemma_clamp_idempotent(
                keyed(DSA_EDSIGN_K_HASH::label(), sig.r@ + self@ + msg@).output(32),
            );
            assert(sig@.subrange(0, 32) =~= sig.r@);
            assert(sig@.subrange(32, 64) =~= sig.s@);
        }
        let r2 = calc2_r(&k2, self, &sig.s);
        let ok = match r2 {
            Some(point) => ct_eq(&point, &sig.r),
            None => false,
        };
        proof {
            assert forall|key: Seq<u8>|
                self@ == #[trigger] public_key(key) && sig@ == signature(
                    key,
                    msg@,
                ) implies ok by {
                lemma_signature_verifies(key, msg@);
                let a = derived_scalar(key);
                let n = sign_r_scalar(derived_nonce(key), msg@);
                let full = signature(key, msg@);
                assert(full.subrange(0, 32) =~= ed25519_base_mul(n)) by {
                    lemma_signature_parts(key, msg@);
                }
                assert(full.subrange(32, 64) =~= sign_response(a, k2@, n)) by {
                    lemma_signature_parts(key, msg@);
                }
                assert(self@ == ed25519_base_mul(a));
                assert(sig.r@ == ed25519_base_mul(n));
            }
        }
        ok
    }
}

impl ExchangeSignature {
    /// The 64 bytes: the hash, then the point.
    pub open spec fn bytes(&self) -> Seq<u8> {
        self.hash@ + self.exchanged@
    }

    /// Reads the value from its bytes.
    pub fn from_bytes(bytes: [u8; 64]) -> (sig: ExchangeSignature)
        ensures
            sig.bytes() == bytes@,
    {
        let sig = ExchangeSignature {
            hash: take::<32>(&bytes, 0),
            exchanged: take::<32>(&bytes, 32),
        };
        assert(sig.bytes() =~= bytes@);
        sig
    }

    /// The bytes of this value.
    pub fn to_bytes(&self) -> (bytes: [u8; 64])
        ensures
            bytes@ == self.bytes(),
    {
        let mut bytes = [0u8; 64];
        put(&mut bytes, 0, &self.hash);
        put(&mut bytes, 32, &self.exchanged);
        assert(bytes@ =~= self.bytes());
        bytes
    }
}

impl SK {
    /// Signs a hash by exchange: this key's scalar times the hash's multiple
    /// of the base point.
    pub fn exchange_sign(&self, hash: [u8; 32]) -> (sig: ExchangeSignature)
        requires
            self.wf(),
        ensures
            sig.hash@ == hash@,
            sig.exchanged@ == ed25519_mul(derived_scalar(self@), ed25519_base_mul(hash@)),
    {
        let point = edwards_mul_base(&hash);
        ExchangeSignature { hash, exchanged: edwards_mul(&self.scalar, &point) }
    }
}

impl PK {
    /// Whether `sig` is an exchange signature under this key: the key is a
    /// point, and the hash times it is the signature's point.
    pub fn exchange_verify(&self, sig: ExchangeSignature) -> (ok: bool)
        ensures
            ok == (ed25519_is_point(self@) && ed25519_mul(sig.hash@, self@) == sig.exchanged@),
    {
        if edwards_is_point(&self.edwards) {
            let point = edwards_mul(&sig.hash, &self.edwards);
            ct_eq(&point, &sig.exchanged)
        } else {
            false
        }
    }
}

/// The response of a signature takes 32 bytes and is canonical.
pub proof fn lemma_signature_response(key: Seq<u8>, msg: Seq<u8>)
    ensures
        ({
            let sig = signature(key, msg);
            let n = sig.len() as int;
            &&& n >= 32
            &&& le_nat(sig.subrange(n - 32, n)) < group_order()
        }),
{
    let r_scalar = sign_r_scalar(derived_nonce(key), msg);
    let r = ed25519_base_mul(r_scalar);
    let k = sign_challenge(r, public_key(key), msg);
    let s = sign_response(derived_scalar(key), k, r_scalar);
    let x = ((le_nat(derived_scalar(key)) * le_nat(k) + le_nat(r_scalar)) % group_order()) as nat;
    lemma_group_order_fits();
    vstd::arithmetic::div_mod::lemma_mod_bound(
        (le_nat(derived_scalar(key)) * le_nat(k) + le_nat(r_scalar)) as int,
        group_order() as int,
    );
    lemma_le_bytes_len(x, 32);
    lemma_le_nat_of_le_bytes(x, 32);
    let sig = r + s;
    assert(sig.subrange(sig.len() - 32, sig.len() as int) =~= s);
}

/// The two halves of a signature are its commitment and its response, 32
/// bytes each.
proof fn lemma_signature_parts(key: Seq<u8>, msg: Seq<u8>)
    requires
        signature(key, msg).len() == 64,
    ensures
        ({
            let r_scalar = sign_r_scalar(derived_nonce(key), msg);
            let r = ed25519_base_mul(r_scalar);
            let k = sign_challenge(r, public_key(key), msg);
            &&& r.len() == 32
            &&& signature(key, msg).subrange(0, 32) == r
            &&& signature(key, msg).subrange(32, 64) == sign_response(
                derived_scalar(key),
                k,
                r_scalar,
            )
        }),
{
    let r_scalar = sign_r_scalar(derived_nonce(key), msg);
    let r = ed25519_base_mul(r_scalar);
    let k = sign_challenge(r, public_key(key), msg);
    let s = sign_response(derived_scalar(key), k, r_scalar);
    lemma_le_bytes_len(
        ((le_nat(derived_scalar(key)) * le_nat(k) + le_nat(r_scalar)) % group_order()) as nat,
        32,
    );
    assert((r + s).subrange(0, 32) =~= r);
    assert((r + s).subrange(32, 64) =~= s);
}

/// What the response of a signature satisfies: the relation that the
/// verification equation rests on, over clamped scalars.
proof fn lemma_signature_verifies(key: Seq<u8>, msg: Seq<u8>)
    ensures
        ({
            let a = derived_scalar(key);
            let n = sign_r_scalar(derived_nonce(key), msg);
            let k = sign_challenge(ed25519_base_mul(n), public_key(key), msg);
            &&& a.len() == 32
            &&& n.len() == 32
            &&& clamp(a) == a
            &&& clamp(n) == n
            &&& le_nat(sign_response(a, k, n)) % group_order() == (le_nat(a) * le_nat(k) + le_nat(
                n,
            )) % group_order()
        }),
{
    let a = derived_scalar(key);
    let n = sign_r_scalar(derived_nonce(key), msg);
    let k = sign_challenge(ed25519_base_mul(n), public_key(key), msg);
    lemma_clamp_idempotent(keyed(DSA_SK_DERIVE::label(), key).output(32));
    lemma_clamp_idempotent(keyed(DSA_EDSIGN_R_HASH::label(), derived_nonce(key) + msg).output(32));
    let l = group_order() as int;
    let x = (le_nat(a) * le_nat(k) + le_nat(n)) as int;
    lemma_group_order_fits();
    vstd::arithmetic::div_mod::lemma_mod_bound(x, l);
    lemma_le_nat_of_le_bytes((x % l) as nat, 32);
    vstd::arithmetic::div_mod::lemma_mod_twice(x, l);
}

impl Drop for XSK {
    /// Wipes the scalar.
    fn drop(&mut self)
        opens_invariants none
        no_unwind
    {
        wipe(&mut self.scalar);
    }
}

impl Drop for ExchangedSecret {
    /// Wipes the secret.
    fn drop(&mut self)
        opens_invariants none
        no_unwind
    {
        wipe(&mut self.montgomery);
    }
}

impl Drop for SK {
    /// Wipes the raw bytes, the scalar and the nonce.
    fn drop(&mut self)
        opens_invariants none
        no_unwind
    {
        wipe(&mut self.key);
        wipe(&mut self.scalar);
        wipe(&mut self.nonce);
    }
}

} // verus!
