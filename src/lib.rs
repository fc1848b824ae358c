//! Secure tunnel core: an identity-bound handshake, an AEAD channel with strict
//! nonce discipline, length-prefixed framing, and a manager of live tunnels.
//!
//! Everything here is transport-free: functions take the bytes that arrived
//! and return the bytes to send, so that an embedding runtime performs the I/O.
pub mod bytes;
pub mod channel;
pub mod codec;
pub mod crypto;
pub mod error;
pub mod frame;
pub mod handshake;
pub mod nonce;
pub mod proxy;
pub mod stream;
pub mod tunnel;
pub mod wire;
