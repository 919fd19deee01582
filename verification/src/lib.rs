//! Engine of a peer-to-peer group-chat client.
//!
//! Everything that decides anything lives here:
//!
//! * [`transport`] – the `Listener`/`Stream` abstraction, and the addresses
//!   of the LAN (direct TCP) and Bluetooth (RFCOMM) transports.
//! * [`codec`]     – length-prefixed framing.
//! * [`watched`]   – a stream that is used against the clock.
//! * [`crypto`]    – Noise Protocol Framework (`Noise_XX_25519_ChaChaPoly_BLAKE2s`)
//!   session setup and framed encrypted transport.
//! * [`roomcode`]  – short human-typeable room codes (Crockford base32).
//! * [`protocol`]  – the wire messages exchanged between peers.
//! * [`mesh`]      – the node: hosting, joining, approval flow, full-mesh wiring.
//! * [`files`]     – chunked file transfer over the same encrypted channel.
//! * [`sending`]   – the course of an outgoing transfer.
//! * [`history`]   – the session transcript.
//! * [`ratelimit`] – join-attempt throttling.
//! * [`screen`]    – what the window shows.
//! * [`laws`]      – what a room promises as a whole.
//!
//! There is no network component that stores or relays chat content: peers talk
//! to each other directly, the host only introduces them to one another.
//!
//! The front end owns the sockets, files, threads and windows. It reports what
//! happened to [`mesh::Node`] and performs the [`events::Action`]s that come
//! back.

use vstd::prelude::*;

pub mod clock;
pub mod codec;
pub mod crypto;
pub mod digits;
pub mod error;
pub mod events;
pub mod files;
pub mod hashing;
pub mod history;
pub mod laws;
pub mod mesh;
pub mod names;
pub mod protocol;
pub mod ratelimit;
pub mod roomcode;
pub mod screen;
pub mod sending;
pub mod table;
pub mod text;
pub mod transport;
pub mod views;
pub mod watched;

pub use crate::error::Error;

verus! {

/// Protocol version carried in every `Hello`. Peers with a different major
/// version are rejected with a readable reason instead of failing obscurely.
pub const PROTOCOL_VERSION: u32 = 1;

} // verus!
