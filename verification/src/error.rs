use vstd::prelude::*;

verus! {

/// Why a negotiation, or the framing under it, failed. Every one of them ends
/// the negotiation: none is retried.
#[derive(Clone, Copy, Debug, PartialEq, Eq, Structural)]
pub enum Error {
    /// The stream failed, or ended inside a frame.
    IoFailure,
    /// A frame of the declared length does not end in a newline.
    MalformedFrame,
    /// A message that had to be text is not valid UTF-8.
    InvalidEncoding,
    /// The peer's header is not the one this library speaks.
    UnknownHeaderVersion,
    /// The peer closed the stream where a message was expected.
    PeerClosedConnection,
    /// The peer answered a proposal with neither its echo nor `na`.
    UnexpectedResponse,
    /// The peer refused every protocol that was proposed.
    NoProtocolNegotiated,
    /// The peer asked for a listing, which this library does not give.
    NotImplemented,
}

} // verus!
