//! The ways in which a peer's bytes can fail to be a handshake.

use vstd::prelude::*;

verus! {

/// Why decoding stopped. Every one of these ends the scan.
#[derive(Clone, Copy, Debug, PartialEq, Eq, Structural)]
pub enum ProtocolError {
    /// A packet declares a length above the configured ceiling.
    OversizedPacket,
    /// The bytes end before a field that was expected is complete.
    Truncated,
    /// The lengths inside a packet contradict each other.
    Malformed,
    /// A field that must be text is not valid UTF-8.
    Encoding,
    /// A payload that was to be decoded as `SSH_MSG_KEXINIT` carries
    /// another message type.
    UnexpectedMessageType,
}

} // verus!
