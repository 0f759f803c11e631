//! The sponge: cSHAKE at the 256-bit security level, with a typed
//! customization string, used as cipher, MAC, key derivation and PRNG.

use vstd::prelude::*;
use tiny_keccak::Hasher;
use tiny_keccak::Xof;
use crate::bytes::{wipe, xor, xor_array, xor_seq};

verus! {

/// tiny-keccak's cSHAKE state. Verus sees nothing inside it.
#[verifier::external_type_specification]
#[verifier::external_body]
pub struct ExKeccak(tiny_keccak::CShake);

/// The function-name string that a cSHAKE state was made with.
pub uninterp spec fn keccak_name(ctx: tiny_keccak::CShake) -> Seq<u8>;

/// The customization string that a cSHAKE state was made with.
pub uninterp spec fn keccak_custom(ctx: tiny_keccak::CShake) -> Seq<u8>;

/// What has passed through a cSHAKE state since it was made: see
/// [`SpongeState::history`].
pub uninterp spec fn keccak_history(ctx: tiny_keccak::CShake) -> Seq<Seq<u8>>;

/// The next `len` bytes that a cSHAKE state gives, made with the two strings
/// and with `history` behind it.
pub uninterp spec fn keccak_output(
    name: Seq<u8>,
    custom: Seq<u8>,
    history: Seq<Seq<u8>>,
    len: nat,
) -> Seq<u8>;

/// A sponge as a value: the strings it was made with and what has passed
/// through it.
pub struct SpongeState {
    pub name: Seq<u8>,
    pub custom: Seq<u8>,
    /// The phases so far, oldest first. Phases alternate: those at even
    /// places hold the bytes absorbed, those at odd places the bytes squeezed.
    /// A fresh sponge is in its first absorbing phase, which is empty.
    pub history: Seq<Seq<u8>>,
}

impl SpongeState {
    /// The sponge as `init` leaves it.
    pub open spec fn fresh(name: Seq<u8>, custom: Seq<u8>) -> SpongeState {
        SpongeState { name, custom, history: seq![Seq::<u8>::empty()] }
    }

    /// Whether the last thing the sponge did was to absorb (or nothing yet).
    pub open spec fn absorbing(self) -> bool {
        self.history.len() % 2 == 1
    }

    /// The sponge after it has absorbed `data`: the bytes join the current
    /// phase, or open a new one if the sponge was squeezing.
    pub open spec fn absorb(self, data: Seq<u8>) -> SpongeState {
        SpongeState {
            history: if self.absorbing() {
                self.history.update(self.history.len() - 1, self.history.last() + data)
            } else {
                self.history.push(data)
            },
            ..self
        }
    }

    /// The next `len` bytes that the sponge gives.
    pub open spec fn output(self, len: nat) -> Seq<u8> {
        let bytes = keccak_output(self.name, self.custom, self.history, len);
        Seq::new(len, |i: int| bytes[i])
    }

    /// The sponge after it has given `len` bytes: they join the current phase,
    /// or open a new one if the sponge was absorbing.
    pub open spec fn squeeze(self, len: nat) -> SpongeState {
        SpongeState {
            history: if self.absorbing() || self.history.len() == 0 {
                self.history.push(self.output(len))
            } else {
                self.history.update(
                    self.history.len() - 1,
                    self.history.last() + self.output(len),
                )
            },
            ..self
        }
    }
}

/// A cSHAKE state as a value.
pub open spec fn keccak_state(ctx: tiny_keccak::CShake) -> SpongeState {
    SpongeState {
        name: keccak_name(ctx),
        custom: keccak_custom(ctx),
        history: keccak_history(ctx),
    }
}

/// A cSHAKE state at the 256-bit security level (rate 136 bytes) for the
/// function name `name` and the customization string `custom_string`; with
/// both empty it is plain SHAKE.
///
/// Trusted: calls `tiny_keccak::CShake::v256`, which builds the state and
/// absorbs the encoded strings. The contract only says that the state is
/// fresh and which strings it was made with. The outside function multiplies
/// each length by eight, hence the bounds.
#[verifier::external_body]
pub fn init(name: &[u8], custom_string: &[u8]) -> (ctx: tiny_keccak::CShake)
    requires
        name@.len() * 8 <= usize::MAX,
        custom_string@.len() * 8 <= usize::MAX,
    ensures
        keccak_name(ctx) == name@,
        keccak_custom(ctx) == custom_string@,
        keccak_history(ctx) == seq![Seq::<u8>::empty()],
{
    tiny_keccak::CShake::v256(name, custom_string)
}

/// Trusted: calls `tiny_keccak::Hasher::update` on the cSHAKE state. The
/// outside function XORs the input into the state block by block; if the
/// state was squeezing it first permutes and starts a new absorbing phase,
/// also for an empty input. The contract says that the state afterwards is
/// the one before with `input` absorbed.
#[verifier::external_body]
fn keccak_absorb(ctx: &mut tiny_keccak::CShake, input: &[u8])
    ensures
        keccak_name(*final(ctx)) == keccak_name(*old(ctx)),
        keccak_custom(*final(ctx)) == keccak_custom(*old(ctx)),
        keccak_history(*final(ctx)) == keccak_state(*old(ctx)).absorb(input@).history,
{
    ctx.update(input)
}

/// Trusted: calls `tiny_keccak::Xof::squeeze` on the cSHAKE state. The
/// outside function pads and permutes if the state was absorbing, then fills
/// `output` from the state, permuting at each block's end. What it writes
/// depends on the state alone, so the contract names it: the next bytes of
/// the state before the call, as many as `output` is long.
#[verifier::external_body]
fn keccak_squeeze(ctx: &mut tiny_keccak::CShake, output: &mut [u8])
    ensures
        final(output)@.len() == old(output)@.len(),
        final(output)@ == keccak_output(
            keccak_name(*old(ctx)),
            keccak_custom(*old(ctx)),
            keccak_history(*old(ctx)),
            old(output)@.len(),
        ),
        keccak_name(*final(ctx)) == keccak_name(*old(ctx)),
        keccak_custom(*final(ctx)) == keccak_custom(*old(ctx)),
        keccak_history(*final(ctx)) == keccak_state(*old(ctx)).squeeze(
            old(output)@.len(),
        ).history,
{
    ctx.squeeze(output)
}

/// A sponge whose customization string is that of the tag `C`.
pub struct Sponge<C> {
    ctx: tiny_keccak::CShake,
    custom: C,
}

/// A domain tag: the customization string that sets one use of the sponge
/// apart from every other.
pub trait CShakeCustom: Sized {
    /// The customization string, as bytes.
    spec fn label() -> Seq<u8>;

    /// The customization string.
    fn custom_string(&self) -> (s: &'static [u8])
        ensures
            s@ == Self::label(),
            s@.len() * 8 <= usize::MAX,
    ;

    /// A fresh sponge for this tag.
    fn create(self) -> (sponge: Sponge<Self>)
        ensures
            sponge@ == SpongeState::fresh(Seq::empty(), Self::label()),
    {
        let name: [u8; 0] = [];
        let ctx = init(&name, self.custom_string());
        assert(keccak_name(ctx) =~= Seq::<u8>::empty());
        Sponge { ctx, custom: self }
    }
}

impl<C> View for Sponge<C> {
    type V = SpongeState;

    closed spec fn view(&self) -> SpongeState {
        keccak_state(self.ctx)
    }
}

/// A fresh sponge that has absorbed `input`.
pub open spec fn keyed(custom: Seq<u8>, input: Seq<u8>) -> SpongeState {
    SpongeState::fresh(Seq::empty(), custom).absorb(input)
}

/// Absorbing in two steps is absorbing the two inputs joined.
pub proof fn lemma_absorb_joins(state: SpongeState, a: Seq<u8>, b: Seq<u8>)
    requires
        state.absorbing(),
    ensures
        state.absorb(a).absorb(b) == state.absorb(a + b),
        state.absorb(a).absorbing(),
{
    let last = state.history.len() - 1;
    assert((state.history[last] + a) + b =~= state.history[last] + (a + b));
    assert(state.absorb(a).absorb(b).history =~= state.absorb(a + b).history);
}

impl<C: CShakeCustom> Sponge<C> {
    /// The tag.
    pub closed spec fn tag(&self) -> C {
        self.custom
    }

    /// The tag.
    pub fn custom(&self) -> (c: &C)
        ensures
            *c == self.tag(),
    {
        &self.custom
    }

    /// Absorbs `input`.
    pub fn absorb(&mut self, input: &[u8])
        ensures
            final(self)@ == old(self)@.absorb(input@),
    {
        keccak_absorb(&mut self.ctx, input);
    }

    /// Absorbs `input` and hands the sponge back.
    pub fn chain_absorb(self, input: &[u8]) -> (sponge: Sponge<C>)
        ensures
            sponge@ == self@.absorb(input@),
    {
        let mut sponge = self;
        keccak_absorb(&mut sponge.ctx, input);
        sponge
    }

    /// Fills `output` with the sponge's next bytes.
    pub fn squeeze(&mut self, output: &mut [u8])
        ensures
            final(output)@ == old(self)@.output(old(output)@.len()),
            final(output)@.len() == old(output)@.len(),
            final(self)@ == old(self)@.squeeze(old(output)@.len()),
    {
        keccak_squeeze(&mut self.ctx, output);
        assert(output@ =~= old(self)@.output(old(output)@.len()));
    }

    /// The sponge's next `N` bytes.
    pub fn squeeze_to_array<const N: usize>(&mut self) -> (buf: [u8; N])
        ensures
            buf@ == old(self)@.output(N as nat),
            final(self)@ == old(self)@.squeeze(N as nat),
    {
        let mut buf = [0u8; N];
        keccak_squeeze(&mut self.ctx, &mut buf);
        assert(buf@ =~= old(self)@.output(N as nat));
        buf
    }

    /// The sponge's next `len` bytes.
    pub fn squeeze_to_vec(&mut self, len: usize) -> (buf: Vec<u8>)
        ensures
            buf@ == old(self)@.output(len as nat),
            buf@.len() == len,
            final(self)@ == old(self)@.squeeze(len as nat),
    {
        let mut buf = vec![0u8; len];
        keccak_squeeze(&mut self.ctx, buf.as_mut_slice());
        assert(buf@ =~= old(self)@.output(len as nat));
        buf
    }

    /// Squeezes `N` bytes and throws them away, wiped.
    pub fn skip<const N: usize>(&mut self)
        ensures
            final(self)@ == old(self)@.squeeze(N as nat),
    {
        let mut buf = self.squeeze_to_array::<N>();
        wipe(&mut buf);
    }

    /// XORs the sponge's next `N` bytes into `dest`.
    pub fn squeeze_xor_array<const N: usize>(&mut self, dest: &mut [u8; N])
        ensures
            final(dest)@ == xor_seq(old(dest)@, old(self)@.output(N as nat)),
            final(self)@ == old(self)@.squeeze(N as nat),
    {
        let mut mask = self.squeeze_to_array::<N>();
        xor_array(dest, &mask);
        wipe(&mut mask);
    }

    /// XORs the sponge's next bytes into `dest`, as many as it is long.
    pub fn squeeze_xor_slice(&mut self, dest: &mut [u8])
        ensures
            final(dest)@ == xor_seq(old(dest)@, old(self)@.output(old(dest)@.len())),
            final(self)@ == old(self)@.squeeze(old(dest)@.len()),
    {
        let mut mask = self.squeeze_to_vec(dest.len());
        xor(dest, mask.as_slice());
        wipe(mask.as_mut_slice());
    }

    /// Absorbs `input`, then fills `output`; the sponge is used up.
    pub fn once(self, input: &[u8], output: &mut [u8])
        ensures
            final(output)@ == self@.absorb(input@).output(old(output)@.len()),
            final(output)@.len() == old(output)@.len(),
    {
        let mut sponge = self;
        keccak_absorb(&mut sponge.ctx, input);
        keccak_squeeze(&mut sponge.ctx, output);
        assert(output@ =~= self@.absorb(input@).output(old(output)@.len()));
    }

    /// Absorbs `input`, then gives `N` bytes; the sponge is used up.
    pub fn once_to_array<const N: usize>(self, input: &[u8]) -> (buf: [u8; N])
        ensures
            buf@ == self@.absorb(input@).output(N as nat),
    {
        let mut sponge = self;
        keccak_absorb(&mut sponge.ctx, input);
        sponge.squeeze_to_array::<N>()
    }

    /// A fresh sponge for the tag `custom` that has absorbed this sponge's
    /// next `N` bytes.
    pub fn squeeze_to_ctx<const N: usize, C2: CShakeCustom>(&mut self, custom: C2) -> (sponge:
        Sponge<C2>)
        ensures
            sponge@ == SpongeState::fresh(Seq::empty(), C2::label()).absorb(
                old(self)@.output(N as nat),
            ),
            final(self)@ == old(self)@.squeeze(N as nat),
    {
        let mut buf = self.squeeze_to_array::<N>();
        let sponge = custom.create().chain_absorb(&buf);
        wipe(&mut buf);
        sponge
    }
}

} // verus!
