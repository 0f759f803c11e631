//! Sizes of keys, messages and frames, and the protocol's fixed values.

use vstd::prelude::*;

verus! {

pub const C25519_PRIM_L: usize = 32;

pub const PK_L: usize = C25519_PRIM_L;

pub const SK_L: usize = C25519_PRIM_L;

pub const XK_L: usize = C25519_PRIM_L;

pub const HASH_L: usize = C25519_PRIM_L;

pub const XSIG_L: usize = C25519_PRIM_L;

pub const EDSIG_L: usize = C25519_PRIM_L + C25519_PRIM_L;

pub const CONN_K_L: usize = XK_L;

pub const REQ_K_L: usize = XK_L;

pub const SEED_L: usize = 64;

pub const MAC_L: usize = 32;

pub const TS_L: usize = 8;

pub const KEYTYPE_L: usize = 2;

pub const UID_L: usize = 8;

pub const REQ_ID_L: usize = 2;

pub const FR_LEN_L: usize = 2;

pub const MSG_ID_L: usize = 2;

pub const FR_ID_L: usize = 2;

/// Largest number of bytes one frame takes on the wire.
pub const FR_L_MAX: usize = 0x10000;

pub const CHELLO_L: usize = PK_L;

pub const PKINFO_INNER_L: usize = TS_L + KEYTYPE_L + PK_L;

pub const SIGNED_PKINFO_L: usize = TS_L + KEYTYPE_L + PK_L + EDSIG_L;

pub const SHELLO_AHEAD_L: usize = PK_L;

pub const SHELLO_BEHIND_L: usize = SIGNED_PKINFO_L;

pub const SHELLO_L: usize = SHELLO_AHEAD_L + SHELLO_BEHIND_L;

pub const CLOGIN_L: usize = SIGNED_PKINFO_L;

pub const SLOGINV_L: usize = UID_L + EDSIG_L;

pub const FR_AHEAD_HEADER_L: usize = REQ_ID_L + FR_LEN_L + MAC_L;

pub const FR_BEHIND_HEADER_L: usize = MAC_L + MSG_ID_L + FR_ID_L;

pub const FR_HEADER_L: usize = FR_AHEAD_HEADER_L + FR_BEHIND_HEADER_L;

/// Largest payload of one frame.
pub const FR_PAYLOAD_L_MAX: usize = FR_L_MAX - FR_HEADER_L;

/// Largest difference, in seconds, between a peer's timestamp and the local
/// clock that a handshake accepts.
pub const MAX_LATENCY: i64 = 3;

/// The mask that both sides XOR into every ephemeral public key on the wire:
/// the first 32 bytes that a `HANDSHAKE_PRE_MASK` sponge gives on empty input.
pub const HANDSHAKE_PRE_MASK_BYTES: [u8; 32] = [
    0x50, 0xa2, 0x9a, 0x88, 0x3b, 0x5b, 0x87, 0x05, 0x15, 0x4d, 0x0e, 0x70, 0x81, 0xec, 0x6d, 0x23,
    0x8d, 0xf9, 0x36, 0x3d, 0x5f, 0x0a, 0x0f, 0x5e, 0x6d, 0x73, 0xc9, 0x2f, 0x41, 0x7a, 0x09, 0xb1,
];

/// The sizes add up as the wire formats say.
pub proof fn lemma_message_sizes()
    ensures
        CHELLO_L == 32,
        PKINFO_INNER_L == 42,
        SIGNED_PKINFO_L == 106,
        SHELLO_L == 138,
        CLOGIN_L == 106,
        SLOGINV_L == 72,
        FR_AHEAD_HEADER_L == 36,
        FR_BEHIND_HEADER_L == 36,
        FR_PAYLOAD_L_MAX == 65464,
        FR_PAYLOAD_L_MAX + FR_HEADER_L == FR_L_MAX,
{
}

} // verus!
