//! Error kinds surfaced by the tunnel core.
use vstd::prelude::*;

verus! {

/// What went wrong; every error ends the channel or handshake it came from.
#[derive(Debug, Clone, Copy, PartialEq, Eq, Structural)]
pub enum TunnelError {
    /// The underlying transport failed or closed early.
    TransportFailed,
    /// A frame length field exceeded the frame size limit.
    FrameTooLarge,
    /// A message could not be parsed.
    DecodeError,
    /// The peer identity is missing or malformed, or its key has the wrong length.
    BadIdentity,
    /// The signature has the wrong length or does not verify.
    BadSignature,
    /// The peer speaks another protocol version.
    VersionMismatch,
    /// The authentication tag did not check.
    DecryptFailed,
    /// The incoming nonce is not the expected counter value.
    NonceMismatch,
    /// The encrypt counter has reached its last value; no further message may be sealed.
    NonceExhausted,
    /// A write after close.
    BrokenPipe,
    /// The stream ended in the middle of a frame.
    UnexpectedEof,
    /// Every fresh tunnel id drawn was already in use.
    IdCollision,
}

/// The short reason given for each error.
pub open spec fn reason_text(e: TunnelError) -> Seq<char> {
    match e {
        TunnelError::TransportFailed => "transport failed"@,
        TunnelError::FrameTooLarge => "packet too large"@,
        TunnelError::DecodeError => "decode error"@,
        TunnelError::BadIdentity => "invalid identity"@,
        TunnelError::BadSignature => "signature verification failed"@,
        TunnelError::VersionMismatch => "invalid protocol version"@,
        TunnelError::DecryptFailed => "decryption failed"@,
        TunnelError::NonceMismatch => "nonce mismatch - possible replay attack"@,
        TunnelError::NonceExhausted => "nonce space exhausted"@,
        TunnelError::BrokenPipe => "transport closed"@,
        TunnelError::UnexpectedEof => "unexpected end of stream"@,
        TunnelError::IdCollision => "tunnel id already in use"@,
    }
}

impl TunnelError {
    /// A short human-readable reason.
    pub fn reason(&self) -> (r: &'static str)
        ensures
            r@ == reason_text(*self),
    {
        match self {
            TunnelError::TransportFailed => "transport failed",
            TunnelError::FrameTooLarge => "packet too large",
            TunnelError::DecodeError => "decode error",
            TunnelError::BadIdentity => "invalid identity",
            TunnelError::BadSignature => "signature verification failed",
            TunnelError::VersionMismatch => "invalid protocol version",
            TunnelError::DecryptFailed => "decryption failed",
            TunnelError::NonceMismatch => "nonce mismatch - possible replay attack",
            TunnelError::NonceExhausted => "nonce space exhausted",
            TunnelError::BrokenPipe => "transport closed",
            TunnelError::UnexpectedEof => "unexpected end of stream",
            TunnelError::IdCollision => "tunnel id already in use",
        }
    }
}

} // verus!
