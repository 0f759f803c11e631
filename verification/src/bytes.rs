//! Byte strings: XOR, little-endian integers, copying between buffers and
//! comparison without early exit.

use vstd::prelude::*;
use zeroize::Zeroize;
use crate::error::Error;

verus! {

/// Bytewise XOR of `a` with the bytes of `b` at the same places.
pub open spec fn xor_seq(a: Seq<u8>, b: Seq<u8>) -> Seq<u8> {
    Seq::new(a.len(), |i: int| a[i] ^ b[i])
}

/// XOR with the same mask twice gives the first value back.
pub proof fn lemma_xor_twice(a: Seq<u8>, m: Seq<u8>)
    requires
        a.len() == m.len(),
    ensures
        xor_seq(xor_seq(a, m), m) == a,
{
    assert forall|i: int| 0 <= i < a.len() implies #[trigger] xor_seq(xor_seq(a, m), m)[i]
        == a[i] by {
        let x: u8 = a[i];
        let y: u8 = m[i];
        assert((x ^ y) ^ y == x) by (bit_vector);
    }
    assert(xor_seq(xor_seq(a, m), m) =~= a);
}

/// XORs `mask` into `dest`, byte by byte.
pub fn xor_array<const N: usize>(dest: &mut [u8; N], mask: &[u8; N])
    ensures
        final(dest)@ == xor_seq(old(dest)@, mask@),
{
    let mut i: usize = 0;
    while i < N
        invariant
            i <= N,
            forall|j: int| 0 <= j < i ==> dest@[j] == old(dest)@[j] ^ mask@[j],
            forall|j: int| i <= j < N ==> dest@[j] == old(dest)@[j],
        decreases N - i,
    {
        dest[i] = dest[i] ^ mask[i];
        i += 1;
    }
    assert(dest@ =~= xor_seq(old(dest)@, mask@));
}

/// XORs `mask` into `dest`, byte by byte; the two have the same length.
pub fn xor(dest: &mut [u8], mask: &[u8])
    requires
        old(dest)@.len() == mask@.len(),
    ensures
        final(dest)@ == xor_seq(old(dest)@, mask@),
{
    let n = dest.len();
    let mut i: usize = 0;
    while i < n
        invariant
            i <= n,
            n == dest@.len(),
            n == mask@.len(),
            n == old(dest)@.len(),
            forall|j: int| 0 <= j < i ==> dest@[j] == old(dest)@[j] ^ mask@[j],
            forall|j: int| i <= j < n ==> dest@[j] == old(dest)@[j],
        decreases n - i,
    {
        dest[i] = dest[i] ^ mask[i];
        i += 1;
    }
    assert(dest@ =~= xor_seq(old(dest)@, mask@));
}

/// The number that `s` writes in base 256, lowest digit first.
pub open spec fn le_nat(s: Seq<u8>) -> nat
    decreases s.len(),
{
    if s.len() == 0 {
        0
    } else {
        s[0] as nat + 256 * le_nat(s.subrange(1, s.len() as int))
    }
}

/// The `len` lowest base-256 digits of `x`, lowest first.
pub open spec fn le_bytes(x: nat, len: nat) -> Seq<u8>
    decreases len,
{
    if len == 0 {
        Seq::empty()
    } else {
        seq![(x % 256) as u8] + le_bytes(x / 256, (len - 1) as nat)
    }
}

/// 256 to the power `n`.
pub open spec fn pow256(n: nat) -> nat
    decreases n,
{
    if n == 0 {
        1
    } else {
        256 * pow256((n - 1) as nat)
    }
}

/// Writing `len` digits gives `len` bytes.
pub proof fn lemma_le_bytes_len(x: nat, len: nat)
    ensures
        le_bytes(x, len).len() == len,
    decreases len,
{
    if len > 0 {
        lemma_le_bytes_len(x / 256, (len - 1) as nat);
    }
}

/// A byte string is below 256 to the power of its length.
pub proof fn lemma_le_nat_bound(s: Seq<u8>)
    ensures
        le_nat(s) < pow256(s.len()),
    decreases s.len(),
{
    if s.len() > 0 {
        lemma_le_nat_bound(s.subrange(1, s.len() as int));
    }
}

/// Reading what was written gives the number back, as far as it fits.
pub proof fn lemma_le_nat_of_le_bytes(x: nat, len: nat)
    requires
        x < pow256(len),
    ensures
        le_nat(le_bytes(x, len)) == x,
    decreases len,
{
    if len > 0 {
        let rest = le_bytes(x / 256, (len - 1) as nat);
        let s = le_bytes(x, len);
        lemma_le_bytes_len(x / 256, (len - 1) as nat);
        assert(s.subrange(1, s.len() as int) =~= rest);
        lemma_le_nat_of_le_bytes(x / 256, (len - 1) as nat);
    }
}

/// Writing what was read gives the bytes back.
pub proof fn lemma_le_bytes_of_le_nat(s: Seq<u8>)
    ensures
        le_bytes(le_nat(s), s.len()) == s,
    decreases s.len(),
{
    if s.len() > 0 {
        let tail = s.subrange(1, s.len() as int);
        lemma_le_bytes_of_le_nat(tail);
        let x = le_nat(s);
        assert(x % 256 == s[0] as nat);
        assert(x / 256 == le_nat(tail));
        assert(le_bytes(x, s.len()) =~= s);
    } else {
        assert(le_bytes(le_nat(s), 0) =~= s);
    }
}

/// The eight bytes of a signed 64-bit number: two's complement, lowest byte
/// first.
pub open spec fn i64_bytes(x: i64) -> Seq<u8> {
    le_bytes(
        if x >= 0 {
            x as nat
        } else {
            (x + 0x1_0000_0000_0000_0000) as nat
        },
        8,
    )
}

/// The signed 64-bit number that eight bytes hold.
pub open spec fn i64_of_bytes(s: Seq<u8>) -> i64 {
    if le_nat(s) < 0x8000_0000_0000_0000 {
        le_nat(s) as i64
    } else {
        (le_nat(s) - 0x1_0000_0000_0000_0000) as i64
    }
}

/// The two bytes of `x`, lowest first.
pub fn u16_to_bytes(x: u16) -> (r: [u8; 2])
    ensures
        r@ == le_bytes(x as nat, 2),
{
    let r: [u8; 2] = [(x % 256) as u8, (x / 256) as u8];
    proof {
        reveal_with_fuel(le_bytes, 3);
        assert(r@ =~= le_bytes(x as nat, 2));
    }
    r
}

/// The number that two bytes hold, lowest first.
pub fn u16_from_bytes(b: &[u8; 2]) -> (x: u16)
    ensures
        x == le_nat(b@),
        b@ == le_bytes(x as nat, 2),
{
    proof {
        reveal_with_fuel(le_nat, 3);
        lemma_le_bytes_of_le_nat(b@);
    }
    b[0] as u16 + 256 * (b[1] as u16)
}

/// The eight bytes of `x`, lowest first.
pub fn u64_to_bytes(x: u64) -> (r: [u8; 8])
    ensures
        r@ == le_bytes(x as nat, 8),
{
    let mut r: [u8; 8] = [0u8; 8];
    let mut rest: u64 = x;
    let mut i: usize = 0;
    while i < 8
        invariant
            i <= 8,
            r@.subrange(0, i as int) + le_bytes(rest as nat, (8 - i) as nat) == le_bytes(
                x as nat,
                8,
            ),
        decreases 8 - i,
    {
        let ghost before = r@;
        r[i] = (rest % 256) as u8;
        proof {
            let tail = le_bytes((rest / 256) as nat, (8 - i - 1) as nat);
            assert(le_bytes(rest as nat, (8 - i) as nat) == seq![(rest % 256) as u8] + tail);
            assert(r@.subrange(0, i + 1) =~= before.subrange(0, i as int) + seq![
                (rest % 256) as u8,
            ]);
            assert(r@.subrange(0, i + 1) + tail =~= before.subrange(0, i as int) + (seq![
                (rest % 256) as u8,
            ] + tail));
        }
        rest = rest / 256;
        i += 1;
    }
    assert(r@ =~= r@.subrange(0, 8) + le_bytes(rest as nat, 0));
    r
}

/// The number that eight bytes hold, lowest first.
pub fn u64_from_bytes(b: &[u8; 8]) -> (x: u64)
    ensures
        x == le_nat(b@),
        b@ == le_bytes(x as nat, 8),
{
    let mut x: u64 = 0;
    let mut i: usize = 8;
    proof {
        lemma_le_bytes_of_le_nat(b@);
        lemma_le_nat_bound(b@);
        reveal_with_fuel(pow256, 9);
        assert(b@.subrange(8, 8) =~= Seq::<u8>::empty());
    }
    while i > 0
        invariant
            i <= 8,
            x == le_nat(b@.subrange(i as int, 8)),
            x < pow256((8 - i) as nat),
        decreases i,
    {
        i -= 1;
        proof {
            let cur = b@.subrange(i as int, 8);
            assert(cur.subrange(1, cur.len() as int) =~= b@.subrange(i + 1, 8));
            reveal_with_fuel(pow256, 9);
            assert(pow256((8 - i) as nat) == 256 * pow256((8 - i - 1) as nat));
            assert(pow256((8 - i) as nat) <= pow256(8)) by {
                lemma_pow256_monotonic((8 - i) as nat, 8);
            }
            assert(x * 256 + 255 < pow256((8 - i) as nat)) by (nonlinear_arith)
                requires
                    x < pow256((8 - i - 1) as nat),
                    pow256((8 - i) as nat) == 256 * pow256((8 - i - 1) as nat),
            ;
        }
        x = x * 256 + b[i] as u64;
    }
    assert(b@.subrange(0, 8) =~= b@);
    x
}

/// Powers of 256 grow with the exponent, and none is zero.
pub proof fn lemma_pow256_monotonic(a: nat, b: nat)
    requires
        a <= b,
    ensures
        pow256(a) <= pow256(b),
        pow256(a) > 0,
    decreases b,
{
    if a < b {
        lemma_pow256_monotonic(a, (b - 1) as nat);
    } else if b > 0 {
        lemma_pow256_monotonic((a - 1) as nat, (b - 1) as nat);
    }
}

/// The eight bytes of a signed number.
pub fn i64_to_bytes(x: i64) -> (r: [u8; 8])
    ensures
        r@ == i64_bytes(x),
{
    let u: u64 = if x >= 0 {
        x as u64
    } else {
        (x as i128 + 0x1_0000_0000_0000_0000i128) as u64
    };
    u64_to_bytes(u)
}

/// The signed number that eight bytes hold.
pub fn i64_from_bytes(b: &[u8; 8]) -> (x: i64)
    ensures
        x == i64_of_bytes(b@),
        b@ == i64_bytes(x),
{
    let u = u64_from_bytes(b);
    if u < 0x8000_0000_0000_0000 {
        u as i64
    } else {
        (u as i128 - 0x1_0000_0000_0000_0000i128) as i64
    }
}

/// Copies `src` into `dest`, starting at `offset`.
pub fn put<const N: usize>(dest: &mut [u8; N], offset: usize, src: &[u8])
    requires
        offset + src@.len() <= N,
    ensures
        final(dest)@ == old(dest)@.subrange(0, offset as int) + src@ + old(dest)@.subrange(
            offset + src@.len(),
            N as int,
        ),
{
    let n = src.len();
    let mut i: usize = 0;
    while i < n
        invariant
            i <= n,
            n == src@.len(),
            offset + n <= N,
            forall|j: int| 0 <= j < offset ==> dest@[j] == old(dest)@[j],
            forall|j: int| offset <= j < offset + i ==> dest@[j] == src@[j - offset],
            forall|j: int| offset + i <= j < N ==> dest@[j] == old(dest)@[j],
        decreases n - i,
    {
        dest[offset + i] = src[i];
        i += 1;
    }
    assert(dest@ =~= old(dest)@.subrange(0, offset as int) + src@ + old(dest)@.subrange(
        offset + src@.len(),
        N as int,
    ));
}

/// The `M` bytes of `src` that start at `offset`.
pub fn take<const M: usize>(src: &[u8], offset: usize) -> (r: [u8; M])
    requires
        offset + M <= src@.len(),
    ensures
        r@ == src@.subrange(offset as int, offset + M),
{
    let n = src.len();
    let mut r: [u8; M] = [0u8; M];
    let mut i: usize = 0;
    while i < M
        invariant
            i <= M,
            n == src@.len(),
            offset + M <= n,
            forall|j: int| 0 <= j < i ==> r@[j] == src@[offset + j],
        decreases M - i,
    {
        r[i] = src[offset + i];
        i += 1;
    }
    assert(r@ =~= src@.subrange(offset as int, offset + M));
    r
}

/// The `N` bytes of a buffer that has to be exactly `N` bytes long.
pub fn exact<const N: usize>(buf: &[u8]) -> (res: Result<[u8; N], Error>)
    ensures
        res is Ok == (buf@.len() == N),
        res matches Ok(bytes) ==> bytes@ == buf@,
        res matches Err(e) ==> e == Error::MalformedInput,
{
    if buf.len() == N {
        let bytes = take::<N>(buf, 0);
        assert(buf@.subrange(0, N as int) =~= buf@);
        Ok(bytes)
    } else {
        Err(Error::MalformedInput)
    }
}

/// Whether two buffers hold the same bytes. Every byte is looked at, whatever
/// the others hold, so the time taken does not tell where they differ.
pub fn ct_eq<const N: usize>(a: &[u8; N], b: &[u8; N]) -> (same: bool)
    ensures
        same == (a@ == b@),
{
    let mut diff: u8 = 0;
    let mut i: usize = 0;
    while i < N
        invariant
            i <= N,
            (diff == 0) == (forall|j: int| 0 <= j < i ==> a@[j] == b@[j]),
        decreases N - i,
    {
        let x: u8 = a[i];
        let y: u8 = b[i];
        let d: u8 = x ^ y;
        assert((d == 0) == (x == y)) by (bit_vector)
            requires
                d == x ^ y,
        ;
        assert(((diff | d) == 0) == (diff == 0 && d == 0)) by (bit_vector);
        diff = diff | d;
        i += 1;
    }
    proof {
        if diff == 0 {
            assert(a@ =~= b@);
        }
    }
    diff == 0
}

/// Overwrites a buffer with zeros.
///
/// Trusted: calls `zeroize::Zeroize::zeroize` on the byte slice, which writes
/// a zero to every element, keeps the length and cannot fail.
#[verifier::external_body]
pub(crate) fn wipe(buf: &mut [u8])
    ensures
        final(buf)@ == Seq::new(old(buf)@.len(), |i: int| 0u8),
    opens_invariants none
    no_unwind
{
    buf.zeroize()
}

/// Overwrites a key or another secret with zeros, once it is of no more use.
pub fn wipe_array<const N: usize>(buf: &mut [u8; N])
    ensures
        final(buf)@ == Seq::new(N as nat, |i: int| 0u8),
{
    wipe(buf);
}

} // verus!
