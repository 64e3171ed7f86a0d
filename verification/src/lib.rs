//! Haven transfer core: end-to-end encrypted bulk file transfer over UDP, with
//! machine-checked contracts.
//!
//! Every function in this crate carries a contract that Verus proves of its body. The
//! cryptographic primitives and the hexadecimal and base64 codecs come from their crates
//! and are taken on trust, each behind one small wrapper whose contract says what is
//! assumed of it.
//!
//! The modules, leaves first:
//!
//! - [`wire`]: big-endian fields in byte buffers.
//! - [`protocol`], [`packet`], [`tcp`]: the three wire formats (blast frame,
//!   point-to-point packet, TCP relay frame).
//! - [`hashing`], [`crypto`]: SHA-256, key derivation, nonces, sealing and opening.
//! - [`bitfield`], [`layout`]: which frames of a chunk have arrived; where chunks lie in a
//!   file.
//! - [`sender`], [`cache`], [`blaster`]: the sending side of blast mode.
//! - [`receiver`]: the receiving side of blast mode.
//! - [`control`]: the envelopes of the control channel.
//! - [`htp`]: the point-to-point mode.
//! - [`relay`]: the UDP relay.
//! - [`storage`], [`download`]: store-and-forward mode.
//! - [`congestion`]: the congestion signal.
//! - [`progress`]: what a host polls.
//! - [`errors`]: which failures are recovered and which are surfaced.
//! - [`config`]: the settings a host may change.

pub mod wire;
pub mod protocol;
pub mod packet;
pub mod tcp;
pub mod hashing;
pub mod crypto;
pub mod bitfield;
pub mod layout;
pub mod sender;
pub mod cache;
pub mod blaster;
pub mod receiver;
pub mod control;
pub mod htp;
pub mod relay;
pub mod storage;
pub mod download;
pub mod congestion;
pub mod progress;
pub mod errors;
pub mod config;
