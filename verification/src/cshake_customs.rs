//! The domain tags of the protocol: one customization string for each use of
//! the sponge, so that no two uses share their output.

use vstd::prelude::*;
use vstd::string::StringSliceAdditionalSpecFns;
use vstd::string::is_ascii_spec_bytes;
use crate::cshake::CShakeCustom;

verus! {

/// Derives a long-term key's scalar and nonce from its raw bytes.
#[allow(non_camel_case_types)]
pub struct DSA_SK_DERIVE;

impl CShakeCustom for DSA_SK_DERIVE {
    open spec fn label() -> Seq<u8> {
        "__bcsp__DSA_SK_DERIVE".spec_bytes()
    }

    fn custom_string(&self) -> (s: &'static [u8]) {
        proof {
            reveal_strlit("__bcsp__DSA_SK_DERIVE");
            is_ascii_spec_bytes("__bcsp__DSA_SK_DERIVE");
        }
        "__bcsp__DSA_SK_DERIVE".as_bytes()
    }
}

/// Hashes a message for an exchange signature.
#[allow(non_camel_case_types)]
pub struct DSA_XSIGN_HASH;

impl CShakeCustom for DSA_XSIGN_HASH {
    open spec fn label() -> Seq<u8> {
        "__bcsp__DSA_XSIGN_HASH".spec_bytes()
    }

    fn custom_string(&self) -> (s: &'static [u8]) {
        proof {
            reveal_strlit("__bcsp__DSA_XSIGN_HASH");
            is_ascii_spec_bytes("__bcsp__DSA_XSIGN_HASH");
        }
        "__bcsp__DSA_XSIGN_HASH".as_bytes()
    }
}

/// Derives a signature's secret nonce scalar from the key's nonce and the message.
#[allow(non_camel_case_types)]
pub struct DSA_EDSIGN_R_HASH;

impl CShakeCustom for DSA_EDSIGN_R_HASH {
    open spec fn label() -> Seq<u8> {
        "__bcsp__DSA_EDSIGN_R_HASH".spec_bytes()
    }

    fn custom_string(&self) -> (s: &'static [u8]) {
        proof {
            reveal_strlit("__bcsp__DSA_EDSIGN_R_HASH");
            is_ascii_spec_bytes("__bcsp__DSA_EDSIGN_R_HASH");
        }
        "__bcsp__DSA_EDSIGN_R_HASH".as_bytes()
    }
}

/// Derives a signature's challenge from its commitment, the public key and the message.
#[allow(non_camel_case_types)]
pub struct DSA_EDSIGN_K_HASH;

impl CShakeCustom for DSA_EDSIGN_K_HASH {
    open spec fn label() -> Seq<u8> {
        "__bcsp__DSA_EDSIGN_K_HASH".spec_bytes()
    }

    fn custom_string(&self) -> (s: &'static [u8]) {
        proof {
            reveal_strlit("__bcsp__DSA_EDSIGN_K_HASH");
            is_ascii_spec_bytes("__bcsp__DSA_EDSIGN_K_HASH");
        }
        "__bcsp__DSA_EDSIGN_K_HASH".as_bytes()
    }
}

/// The PRNG that ephemeral exchange keys are drawn from.
#[allow(non_camel_case_types)]
pub struct DH_SK_GEN_PRNG;

impl CShakeCustom for DH_SK_GEN_PRNG {
    open spec fn label() -> Seq<u8> {
        "__bcsp__DH_SK_GEN_PRNG".spec_bytes()
    }

    fn custom_string(&self) -> (s: &'static [u8]) {
        proof {
            reveal_strlit("__bcsp__DH_SK_GEN_PRNG");
            is_ascii_spec_bytes("__bcsp__DH_SK_GEN_PRNG");
        }
        "__bcsp__DH_SK_GEN_PRNG".as_bytes()
    }
}

/// Gives the mask that hides ephemeral public keys on the wire.
#[allow(non_camel_case_types)]
pub struct HANDSHAKE_PRE_MASK;

impl CShakeCustom for HANDSHAKE_PRE_MASK {
    open spec fn label() -> Seq<u8> {
        "__bcsp__HANDSHAKE_PRE_MASK".spec_bytes()
    }

    fn custom_string(&self) -> (s: &'static [u8]) {
        proof {
            reveal_strlit("__bcsp__HANDSHAKE_PRE_MASK");
            is_ascii_spec_bytes("__bcsp__HANDSHAKE_PRE_MASK");
        }
        "__bcsp__HANDSHAKE_PRE_MASK".as_bytes()
    }
}

/// The cipher under which the two sides reveal their identities.
#[allow(non_camel_case_types)]
pub struct HANDSHAKE_CIPHER;

impl CShakeCustom for HANDSHAKE_CIPHER {
    open spec fn label() -> Seq<u8> {
        "__bcsp__HANDSHAKE_CIPHER".spec_bytes()
    }

    fn custom_string(&self) -> (s: &'static [u8]) {
        proof {
            reveal_strlit("__bcsp__HANDSHAKE_CIPHER");
            is_ascii_spec_bytes("__bcsp__HANDSHAKE_CIPHER");
        }
        "__bcsp__HANDSHAKE_CIPHER".as_bytes()
    }
}

/// Derives the header key and the keys of the requests from the shared secret.
#[allow(non_camel_case_types)]
pub struct REQ_KEY_DERIVE;

impl CShakeCustom for REQ_KEY_DERIVE {
    open spec fn label() -> Seq<u8> {
        "__bcsp__REQ_KEY_DERIVE".spec_bytes()
    }

    fn custom_string(&self) -> (s: &'static [u8]) {
        proof {
            reveal_strlit("__bcsp__REQ_KEY_DERIVE");
            is_ascii_spec_bytes("__bcsp__REQ_KEY_DERIVE");
        }
        "__bcsp__REQ_KEY_DERIVE".as_bytes()
    }
}

/// Encrypts the header that goes ahead of a frame.
#[allow(non_camel_case_types)]
pub struct FRAME_HEADER_CIPHER;

impl CShakeCustom for FRAME_HEADER_CIPHER {
    open spec fn label() -> Seq<u8> {
        "__bcsp__FRAME_HEADER_CIPHER".spec_bytes()
    }

    fn custom_string(&self) -> (s: &'static [u8]) {
        proof {
            reveal_strlit("__bcsp__FRAME_HEADER_CIPHER");
            is_ascii_spec_bytes("__bcsp__FRAME_HEADER_CIPHER");
        }
        "__bcsp__FRAME_HEADER_CIPHER".as_bytes()
    }
}

/// Encrypts a frame's payload and the header behind it.
#[allow(non_camel_case_types)]
pub struct FRAME_PAYLOAD_CIPHER;

impl CShakeCustom for FRAME_PAYLOAD_CIPHER {
    open spec fn label() -> Seq<u8> {
        "__bcsp__FRAME_PAYLOAD_CIPHER".spec_bytes()
    }

    fn custom_string(&self) -> (s: &'static [u8]) {
        proof {
            reveal_strlit("__bcsp__FRAME_PAYLOAD_CIPHER");
            is_ascii_spec_bytes("__bcsp__FRAME_PAYLOAD_CIPHER");
        }
        "__bcsp__FRAME_PAYLOAD_CIPHER".as_bytes()
    }
}

/// Authenticates the header that goes ahead of a frame.
#[allow(non_camel_case_types)]
pub struct FRAME_HEADER_MAC;

impl CShakeCustom for FRAME_HEADER_MAC {
    open spec fn label() -> Seq<u8> {
        "__bcsp__FRAME_HEADER_MAC".spec_bytes()
    }

    fn custom_string(&self) -> (s: &'static [u8]) {
        proof {
            reveal_strlit("__bcsp__FRAME_HEADER_MAC");
            is_ascii_spec_bytes("__bcsp__FRAME_HEADER_MAC");
        }
        "__bcsp__FRAME_HEADER_MAC".as_bytes()
    }
}

/// Authenticates a frame's encrypted payload.
#[allow(non_camel_case_types)]
pub struct FRAME_PAYLOAD_MAC;

impl CShakeCustom for FRAME_PAYLOAD_MAC {
    open spec fn label() -> Seq<u8> {
        "__bcsp__FRAME_PAYLOAD_MAC".spec_bytes()
    }

    fn custom_string(&self) -> (s: &'static [u8]) {
        proof {
            reveal_strlit("__bcsp__FRAME_PAYLOAD_MAC");
            is_ascii_spec_bytes("__bcsp__FRAME_PAYLOAD_MAC");
        }
        "__bcsp__FRAME_PAYLOAD_MAC".as_bytes()
    }
}

} // verus!
