//! Core of BCSP, a client-server cryptographic session protocol: a cSHAKE
//! sponge used as cipher, MAC, KDF and PRNG, an Ed25519-shaped signature over
//! Curve25519, a four-flight mutually authenticated handshake, the session key
//! schedule and the framed transport.
//!
//! Everything here is a synchronous function from state and input bytes to
//! state and output bytes. The clock, the seeds and the network belong to the
//! driver: functions that need the time take it as an argument.
//!
//! # What is proved
//!
//! Every function has a contract over plain values: byte strings, numbers and
//! the views of the states. The contracts say which bytes go on the wire,
//! which state is left, and on which input which error comes. On top of them
//! stand the laws of the protocol:
//!
//! - both sides of a handshake end with the same secret
//!   ([`handshake::lemma_handshake_secrets_agree`]);
//! - every signature verifies under its signer's key
//!   ([`curve25519::PK::edlike_verify`]);
//! - a stale timestamp is refused, and what an honest peer sends in time is
//!   accepted ([`handshake::ClientBuilderA::login`],
//!   [`handshake::ServerBuilder::login`],
//!   [`handshake::ClientBuilderB::finish_login`]);
//! - what is sent is received, and leaves both sides in step
//!   ([`connection::lemma_message_round_trip`]);
//! - the empty message takes no frame ([`connection::lemma_empty_message`]);
//! - a frame with a replaced MAC byte is refused
//!   ([`connection::lemma_tampered_message_is_refused`]).
//!
//! # What is taken on trust
//!
//! The Keccak permutation and the arithmetic of Curve25519 are the work of
//! `tiny-keccak` and `curve25519-dalek`. Their results are not computed in
//! contracts but named: [`cshake::keccak_output`] is what a sponge gives,
//! [`curve25519::x25519_mul`] what an exchange gives, and so on. The few
//! functions that call those crates say which name their result is, and state
//! three facts of the curve: that an exchange gives both sides the same
//! secret, that a multiple of the base point is a point, and what the
//! verification equation comes to for a multiple of the base point. No
//! contract says that two different inputs give different hashes: that a
//! forged message or a changed ciphertext is refused rests on the strength of
//! the sponge and is not a theorem here.

pub mod consts;
pub mod error;
pub mod bytes;
pub mod cshake;
pub mod cshake_customs;
pub mod curve25519;
pub mod message;
pub mod frame;
pub mod connection;
pub mod handshake;
