//! A peer-to-peer attestation network.
//!
//! Every participant keeps an append-only chain of signed messages, the
//! envelopes, and tells its peers the newest envelope of every chain it
//! knows. Each signature is made with a nonce that the envelope before it
//! has committed to, so whoever signs two envelopes at one height gives
//! its key away.
//!
//! - [`envelope`], [`canonical`], [`crypto`], [`json`], [`bytes`]: what an
//!   envelope is, its canonical text and hash, signing and verifying.
//! - [`clock`]: the time of day.
//! - [`database`], [`users`]: the chains, the envelopes that wait for an
//!   ancestor, nonces and keys, and the rules under which a chain grows.
//! - [`protocol`], [`handshake`], [`cookies`], [`session`], [`client`]:
//!   how two peers open a session and talk over it.
//! - [`fetch`], [`server`]: what is fetched from a peer and what is served
//!   to it.
//! - [`game`], [`mining_game`]: the mining game whose moves travel in
//!   envelopes, as far as this crate needs it.
//!
//! Nothing here reads a socket or a file. The outside functions the crate
//! relies on, for hashing, signatures, JSON, random numbers and the time,
//! are named in the modules that call them.

pub mod bytes;
pub mod clock;
pub mod crypto;
pub mod json;
pub mod envelope;
pub mod canonical;
pub mod users;
pub mod database;
pub mod protocol;
pub mod session;
pub mod cookies;
pub mod client;
pub mod handshake;
pub mod fetch;
pub mod server;
pub mod game;
pub mod mining_game;
