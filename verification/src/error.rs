use vstd::prelude::*;

verus! {

/// How an operation on the wire protocol can fail.
///
/// `Incomplete` is recoverable: the caller should wait for more bytes and
/// retry. Every other variant is fatal for the owning stream or session,
/// never for unrelated connections.
#[derive(Clone, Copy, Debug, PartialEq, Eq, Structural)]
pub enum ProtocolError {
    /// Not enough bytes are available yet; read more and retry.
    Incomplete,
    /// The version byte is not the single supported value.
    InvalidVersion,
    /// The message-type byte is not one of the known values.
    InvalidType,
    /// A 16-byte identifier field could not be parsed. Reserved in the
    /// taxonomy: every 16-byte value forms a well-formed opaque identifier,
    /// so the decoder never actually produces it.
    InvalidIdentifier,
    /// The reassembly buffer grew past its configured maximum while a frame
    /// was still incomplete.
    FrameTooLarge,
    /// An endpoint with a non-IPv4 address was offered to the handshake.
    UnsupportedAddressFamily,
    /// A message arrived that the session state machine does not allow,
    /// such as data before the handshake or a duplicate handshake.
    ProtocolViolation,
}

} // verus!
