//! What passes between a negotiation and whoever moves the bytes for it: the
//! events that are handed in, and the effects that are asked for in return.
//!
//! A negotiation asks for one read or one write at a time, and the next event
//! is the end of that read or write: no write is begun before the last read
//! has ended, and no read before the last write has.

use crate::error::Error;
use crate::protocol::{header, header_id, na, na_id, table_ids};
use vstd::prelude::*;
use vstd::slice::slice_to_vec;

verus! {

/// What has happened on the stream.
#[derive(Debug)]
pub enum Event {
    /// A message has arrived.
    Received(Vec<u8>),
    /// The peer has closed the stream where a message was awaited.
    Closed,
    /// The message that was to be written has been written.
    Written,
}

/// What is to be done next.
#[derive(Clone, Copy, Debug, PartialEq, Eq, Structural)]
pub enum Effect {
    /// Read the next message.
    Read,
    /// Write the header.
    Greet,
    /// Write the id of the protocol at this place of the table, as a proposal.
    Propose(usize),
    /// Write the id of the protocol at this place of the table, as the echo
    /// of the peer's request.
    Echo(usize),
    /// Write `na`.
    Deny,
    /// Hand the stream to the handler at this place of the table. This is
    /// asked for once at most.
    Invoke(usize),
    /// Give up with this error.
    Fail(Error),
    /// The negotiation had ended before: there is nothing to do.
    Stop,
}

/// The message that `effect` asks to write, if it asks for one.
pub open spec fn effect_message(effect: Effect, ids: Seq<Seq<u8>>) -> Option<Seq<u8>> {
    match effect {
        Effect::Greet => Some(header_id()),
        Effect::Deny => Some(na_id()),
        Effect::Propose(i) | Effect::Echo(i) => if i < ids.len() {
            Some(ids[i as int])
        } else {
            None
        },
        _ => None,
    }
}

/// The message to write for `effect`; `None` where it asks for no write, or
/// names a place that the table does not have.
pub fn message<F>(effect: Effect, protocols: &Vec<(String, F)>) -> (msg: Option<Vec<u8>>)
    ensures
        match effect_message(effect, table_ids(protocols@)) {
            Some(bytes) => msg matches Some(m) && m@ == bytes,
            None => msg.is_none(),
        },
{
    match effect {
        Effect::Greet => Some(header()),
        Effect::Deny => Some(na()),
        Effect::Propose(i) | Effect::Echo(i) => {
            if i < protocols.len() {
                Some(slice_to_vec(protocols[i].0.as_str().as_bytes()))
            } else {
                None
            }
        },
        _ => None,
    }
}

} // verus!
