//! What can go wrong in a handshake or on the transport.

use vstd::prelude::*;

verus! {

/// The kinds of failure. None of them carries key material, and none can be
/// recovered from: a failed handshake yields no connection, and a connection
/// whose frame failed is to be dropped.
#[derive(Clone, Copy, Debug, PartialEq, Eq, Structural)]
pub enum Error {
    /// A buffer of the wrong length, a scalar that is not canonical, or bytes
    /// that are no point of the curve.
    MalformedInput,
    /// The server's key inside the handshake is not the one the client
    /// expected.
    IdentityMismatch,
    /// A signature on a handshake message does not verify.
    SignatureInvalid,
    /// The peer's timestamp is further from the local clock than
    /// `MAX_LATENCY`.
    Stale,
    /// The MAC of a frame's header or payload does not match.
    MacInvalid,
    /// For drivers whose account directory reports that a key is unknown. The
    /// core hands on whatever user id the directory returns and never gives
    /// this error itself.
    UnknownUser,
    /// The request has used up its message ids.
    MessageIdExhausted,
}

} // verus!
