//! Reading and writing whole messages on a stream, and the stream itself as
//! the negotiation holds it: two buffers of bytes.

use crate::error::Error;
use crate::msg::{
    bad_terminator_is_malformed, frame, frame_round_trip, parse_frame, MsgCodec, Parsed, NEWLINE,
};
use crate::varint::varint_bytes;
use vstd::prelude::*;
use vstd::slice::slice_to_vec;

verus! {

/// What reading one message from a stream gives, and what is left of the
/// stream afterwards. `unread` is all that the peer sent before it closed.
///
/// An empty stream gives no message. A stream that ends inside a frame is a
/// failure of the stream. A malformed frame is consumed.
pub open spec fn read_message(unread: Seq<u8>) -> (Result<Option<Seq<u8>>, Error>, Seq<u8>) {
    if unread.len() == 0 {
        (Ok(None), unread)
    } else {
        match parse_frame(unread) {
            Parsed::Incomplete => (Err(Error::IoFailure), unread),
            Parsed::Malformed { consumed } => (
                Err(Error::MalformedFrame),
                unread.skip(consumed as int),
            ),
            Parsed::Message { payload, consumed } => (
                Ok(Some(payload)),
                unread.skip(consumed as int),
            ),
        }
    }
}

/// What is written can be read: a stream that starts with the frame of `msg`
/// gives `msg`, and what follows the frame is left.
pub proof fn written_message_is_read(msg: Seq<u8>, rest: Seq<u8>)
    ensures
        read_message(frame(msg) + rest) == (Ok::<Option<Seq<u8>>, Error>(Some(msg)), rest),
{
    frame_round_trip(msg, rest);
    assert(frame(msg).len() > 0);
}

/// A frame of the declared length that does not end in a newline fails the
/// read, whatever follows it: after a length prefix for `body`, a `body` that
/// is empty or ends in another byte is read as a malformed frame, and what
/// follows is left.
pub proof fn bad_terminator_fails_read(body: Seq<u8>, rest: Seq<u8>)
    requires
        body.len() == 0 || body.last() != NEWLINE,
    ensures
        read_message(varint_bytes(body.len()) + body + rest) == (
            Err::<Option<Seq<u8>>, Error>(Error::MalformedFrame),
            rest,
        ),
{
    let prefix = varint_bytes(body.len());
    let bytes = prefix + body + rest;
    bad_terminator_is_malformed(body, rest);
    assert(prefix.len() >= 1);
    assert(bytes.skip((prefix.len() + body.len()) as int) =~= rest);
}

/// A source of framed messages.
pub trait ReadLpm {
    /// The bytes that were received and not yet read; the stream ends after
    /// them.
    spec fn unread(&self) -> Seq<u8>;

    /// Reads the next message. That the stream has ended is an error here.
    fn read_lpm(&mut self) -> (r: Result<Vec<u8>, Error>)
        ensures
            final(self).unread() == read_message(old(self).unread()).1,
            match read_message(old(self).unread()).0 {
                Ok(Some(msg)) => r matches Ok(v) && v@ == msg,
                Ok(None) => r == Err::<Vec<u8>, Error>(Error::PeerClosedConnection),
                Err(e) => r == Err::<Vec<u8>, Error>(e),
            },
    ;

    /// Reads the next message, or `None` where the stream has ended before
    /// the first byte of one.
    fn try_read_lpm(&mut self) -> (r: Result<Option<Vec<u8>>, Error>)
        ensures
            final(self).unread() == read_message(old(self).unread()).1,
            match read_message(old(self).unread()).0 {
                Ok(Some(msg)) => r matches Ok(Some(v)) && v@ == msg,
                Ok(None) => r == Ok::<Option<Vec<u8>>, Error>(None),
                Err(e) => r == Err::<Option<Vec<u8>>, Error>(e),
            },
    ;
}

/// A sink of framed messages.
pub trait WriteLpm {
    /// The bytes that were written so far.
    spec fn written(&self) -> Seq<u8>;

    /// Writes `msg` as one frame.
    fn write_lpm(&mut self, msg: &[u8]) -> (r: Result<(), Error>)
        ensures
            r == Ok::<(), Error>(()),
            final(self).written() == old(self).written() + frame(msg@),
    ;
}

/// The two directions of a stream as the contracts see them.
pub struct Wire {
    /// What the peer sent and nobody has read yet; the stream ends after it.
    pub unread: Seq<u8>,
    /// What was written to the peer, from the start.
    pub written: Seq<u8>,
}

/// A stream in the hands of the negotiation: the bytes that came from the
/// peer and wait to be read, and the bytes that were written for it. Whoever
/// holds the value holds the stream; bytes that were read ahead travel with it.
#[derive(Debug)]
pub struct Transport {
    /// Received from the peer, not yet read.
    pub readbuf: Vec<u8>,
    /// Written for the peer.
    pub writebuf: Vec<u8>,
}

impl View for Transport {
    type V = Wire;

    open spec fn view(&self) -> Wire {
        Wire { unread: self.readbuf@, written: self.writebuf@ }
    }
}

impl Transport {
    /// A stream on which `received` waits to be read and nothing was written.
    pub fn new(received: Vec<u8>) -> (t: Transport)
        ensures
            t@ == (Wire { unread: received@, written: Seq::<u8>::empty() }),
    {
        Transport { readbuf: received, writebuf: Vec::new() }
    }
}

impl ReadLpm for Transport {
    open spec fn unread(&self) -> Seq<u8> {
        self.readbuf@
    }

    fn read_lpm(&mut self) -> (r: Result<Vec<u8>, Error>)
        ensures
            final(self).writebuf == old(self).writebuf,
    {
        match self.try_read_lpm() {
            Ok(Some(msg)) => Ok(msg),
            Ok(None) => Err(Error::PeerClosedConnection),
            Err(e) => Err(e),
        }
    }

    fn try_read_lpm(&mut self) -> (r: Result<Option<Vec<u8>>, Error>)
        ensures
            final(self).writebuf == old(self).writebuf,
    {
        if self.readbuf.len() == 0 {
            return Ok(None);
        }
        let mut codec = MsgCodec;
        match codec.decode(&mut self.readbuf) {
            Ok(Some(msg)) => Ok(Some(msg)),
            Ok(None) => Err(Error::IoFailure),
            Err(e) => Err(e),
        }
    }
}

impl WriteLpm for Transport {
    open spec fn written(&self) -> Seq<u8> {
        self.writebuf@
    }

    fn write_lpm(&mut self, msg: &[u8]) -> (r: Result<(), Error>)
        ensures
            final(self).readbuf == old(self).readbuf,
    {
        let mut codec = MsgCodec;
        codec.encode(slice_to_vec(msg), &mut self.writebuf)
    }
}

impl WriteLpm for Vec<u8> {
    open spec fn written(&self) -> Seq<u8> {
        self@
    }

    fn write_lpm(&mut self, msg: &[u8]) -> (r: Result<(), Error>) {
        let mut codec = MsgCodec;
        codec.encode(slice_to_vec(msg), self)
    }
}

} // verus!
