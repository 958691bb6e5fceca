//! Multistream-select: protocol negotiation over an established byte stream.
//!
//! Two peers first exchange a fixed header, then agree on one protocol: the
//! initiator proposes protocol ids in order, the responder echoes the first one
//! it knows and answers `na` to the others. Every message travels in a frame: a
//! varint length, the payload, and a closing newline that the length counts.
//!
//! There are two ways in. A [`Negotiator`] runs a whole negotiation on a
//! [`Transport`], which holds the bytes that the peer has sent and the bytes
//! that were written for it, and hands that stream to the handler of the
//! protocol agreed on. A [`negotiator::Negotiation`] is the same negotiation
//! one step at a time, for a caller that moves the bytes itself: it is told
//! what happened on the stream and answers what to do next.
//!
//! Three choices are made here. A request for a listing (`ls`) is not served:
//! it ends the negotiation with [`Error::NotImplemented`]. Whatever is
//! compared with a protocol id, the header included, must be valid UTF-8: a
//! message that is not ends the negotiation with [`Error::InvalidEncoding`].
//! And a length prefix may be of any width and stand for any number: a frame
//! that is declared longer than what is at hand is a frame that has not fully
//! arrived, however long, and no message is too long to be written.

pub mod accept;
pub mod error;
pub mod lpm;
pub mod machine;
pub mod msg;
pub mod multistream;
pub mod negotiator;
pub mod propose;
pub mod protocol;
pub mod varint;

pub use accept::accept;
pub use error::Error;
pub use lpm::{ReadLpm, Transport, WriteLpm};
pub use msg::MsgCodec;
pub use multistream::MultiStream;
pub use negotiator::Negotiator;
pub use propose::propose_all;
