//! A stream on which one protocol has been agreed, for a side that has a
//! single protocol to propose.

use crate::error::Error;
use crate::lpm::{read_message, ReadLpm, Transport, Wire, WriteLpm};
use crate::machine::{Effect, Event};
use crate::msg::{frame, frame_round_trip};
use crate::negotiator::{check_header, header_exchange, header_verdict};
use crate::propose::{check_response, propose_round, response_verdict};
use crate::protocol::{header, header_id};
use vstd::prelude::*;
use vstd::slice::slice_to_vec;
use vstd::utf8::valid_utf8;

verus! {

/// The negotiation of the single protocol `protocol`: the headers are
/// exchanged, this side's first, and the protocol is proposed once. A bad
/// header ends it before anything is proposed; a denial ends it without a
/// protocol.
pub open spec fn single_negotiation(wire: Wire, protocol: Seq<u8>) -> (Result<(), Error>, Wire) {
    match header_exchange(wire) {
        (Err(e), greeted) => (Err(e), greeted),
        (Ok(_), greeted) => match propose_round(greeted, protocol) {
            (Ok(true), after) => (Ok(()), after),
            (Ok(false), after) => (Err(Error::NoProtocolNegotiated), after),
            (Err(e), after) => (Err(e), after),
        },
    }
}

/// The negotiation of a single protocol between two reads or writes. The
/// protocol counts as the one at place 0 of a table.
#[derive(Clone, Copy, Debug, PartialEq, Eq, Structural)]
pub enum Single {
    /// It has asked to write the header and waits for the end of that write.
    Greeting,
    /// It waits for the peer's header.
    AwaitingHeader,
    /// It has asked to write the proposal and waits for the end of that
    /// write.
    Proposing,
    /// It waits for the answer to the proposal.
    AwaitingAnswer,
    /// The peer has accepted: the stream speaks the protocol.
    Done,
    /// The negotiation has failed.
    Failed(Error),
}

/// The next state of the negotiation of `protocol` and what it asks for, on
/// `event` in `state`. An event that the state does not wait for fails the
/// negotiation as a failed stream does; after the end, nothing happens any
/// more.
pub open spec fn single_transition(state: Single, event: Event, protocol: Seq<u8>) -> (
    Single,
    Effect,
) {
    match (state, event) {
        (Single::Greeting, Event::Written) => (Single::AwaitingHeader, Effect::Read),
        (Single::AwaitingHeader, Event::Received(id)) => match header_verdict(Some(id@)) {
            Ok(_) => (Single::Proposing, Effect::Propose(0)),
            Err(e) => (Single::Failed(e), Effect::Fail(e)),
        },
        (Single::AwaitingHeader, Event::Closed) => (
            Single::Failed(Error::PeerClosedConnection),
            Effect::Fail(Error::PeerClosedConnection),
        ),
        (Single::Proposing, Event::Written) => (Single::AwaitingAnswer, Effect::Read),
        (Single::AwaitingAnswer, Event::Received(response)) => match response_verdict(
            protocol,
            response@,
        ) {
            Ok(true) => (Single::Done, Effect::Invoke(0)),
            Ok(false) => (
                Single::Failed(Error::NoProtocolNegotiated),
                Effect::Fail(Error::NoProtocolNegotiated),
            ),
            Err(e) => (Single::Failed(e), Effect::Fail(e)),
        },
        (Single::AwaitingAnswer, Event::Closed) => (
            Single::Failed(Error::PeerClosedConnection),
            Effect::Fail(Error::PeerClosedConnection),
        ),
        (Single::Done, _) => (Single::Done, Effect::Stop),
        (Single::Failed(e), _) => (Single::Failed(e), Effect::Stop),
        _ => (Single::Failed(Error::IoFailure), Effect::Fail(Error::IoFailure)),
    }
}

impl Single {
    /// The negotiation at its start: it asks to write the header.
    pub fn start() -> (start: (Single, Effect))
        ensures
            start == (Single::Greeting, Effect::Greet),
    {
        (Single::Greeting, Effect::Greet)
    }

    /// Takes `event` and returns the next state with what is to be done.
    pub fn resume(self, event: Event, protocol: &[u8]) -> (next: (Single, Effect))
        ensures
            next == single_transition(self, event, protocol@),
    {
        match (self, event) {
            (Single::Greeting, Event::Written) => (Single::AwaitingHeader, Effect::Read),
            (Single::AwaitingHeader, Event::Received(id)) => {
                match check_header(Some(id.as_slice())) {
                    Ok(_) => (Single::Proposing, Effect::Propose(0)),
                    Err(e) => (Single::Failed(e), Effect::Fail(e)),
                }
            },
            (Single::AwaitingHeader, Event::Closed) => (
                Single::Failed(Error::PeerClosedConnection),
                Effect::Fail(Error::PeerClosedConnection),
            ),
            (Single::Proposing, Event::Written) => (Single::AwaitingAnswer, Effect::Read),
            (Single::AwaitingAnswer, Event::Received(response)) => {
                match check_response(protocol, response.as_slice()) {
                    Ok(true) => (Single::Done, Effect::Invoke(0)),
                    Ok(false) => (
                        Single::Failed(Error::NoProtocolNegotiated),
                        Effect::Fail(Error::NoProtocolNegotiated),
                    ),
                    Err(e) => (Single::Failed(e), Effect::Fail(e)),
                }
            },
            (Single::AwaitingAnswer, Event::Closed) => (
                Single::Failed(Error::PeerClosedConnection),
                Effect::Fail(Error::PeerClosedConnection),
            ),
            (Single::Done, _) => (Single::Done, Effect::Stop),
            (Single::Failed(e), _) => (Single::Failed(e), Effect::Stop),
            _ => (Single::Failed(Error::IoFailure), Effect::Fail(Error::IoFailure)),
        }
    }

    /// The message to write for `effect`: the header, or `protocol` as the
    /// proposal; `None` where it asks for no write.
    pub fn message(effect: Effect, protocol: &[u8]) -> (msg: Option<Vec<u8>>)
        ensures
            match effect {
                Effect::Greet => msg matches Some(m) && m@ == header_id(),
                Effect::Propose(_) => msg matches Some(m) && m@ == protocol@,
                _ => msg.is_none(),
            },
    {
        match effect {
            Effect::Greet => Some(header()),
            Effect::Propose(_) => Some(slice_to_vec(protocol)),
            _ => None,
        }
    }
}

/// Reads the next message and tells what happened.
fn await_message(transport: &mut Transport) -> (r: Result<Event, Error>)
    ensures
        final(transport)@ == (Wire {
            unread: read_message(old(transport)@.unread).1,
            written: old(transport)@.written,
        }),
        match read_message(old(transport)@.unread).0 {
            Ok(Some(msg)) => r matches Ok(Event::Received(m)) && m@ == msg,
            Ok(None) => r matches Ok(Event::Closed),
            Err(e) => r matches Err(error) && error == e,
        },
{
    match transport.try_read_lpm() {
        Err(e) => Err(e),
        Ok(None) => Ok(Event::Closed),
        Ok(Some(msg)) => Ok(Event::Received(msg)),
    }
}

/// Negotiates the single protocol `protocol` on `transport`: this side's
/// header is written, the peer's is read and judged, and only then the
/// protocol is proposed and the answer read.
pub fn negotiate_single(transport: &mut Transport, protocol: &[u8]) -> (r: Result<(), Error>)
    ensures
        r == single_negotiation(old(transport)@, protocol@).0,
        final(transport)@ == single_negotiation(old(transport)@, protocol@).1,
{
    let (greeting, effect) = Single::start();
    let mut state = greeting;
    let mut effect = effect;
    let mut writes: usize = 0;
    while writes < 2
        invariant
            writes <= 2,
            writes == 0 ==> state == Single::Greeting && effect == Effect::Greet
                && single_negotiation(transport@, protocol@) == single_negotiation(
                old(transport)@,
                protocol@,
            ),
            writes == 1 ==> state == Single::Proposing && effect == Effect::Propose(0) && (
            match propose_round(transport@, protocol@) {
                (Ok(true), after) => (Ok::<(), Error>(()), after),
                (Ok(false), after) => (Err::<(), Error>(Error::NoProtocolNegotiated), after),
                (Err(e), after) => (Err::<(), Error>(e), after),
            }) == single_negotiation(old(transport)@, protocol@),
            writes == 2 ==> effect is Invoke && (Ok::<(), Error>(()), transport@)
                == single_negotiation(old(transport)@, protocol@),
        decreases 2 - writes,
    {
        let msg = match Single::message(effect, protocol) {
            Some(msg) => msg,
            None => {
                return Err(Error::IoFailure);
            },
        };
        match transport.write_lpm(msg.as_slice()) {
            Err(e) => {
                return Err(e);
            },
            Ok(_) => {},
        }
        let (waiting, _) = state.resume(Event::Written, protocol);
        let event = match await_message(transport) {
            Err(e) => {
                return Err(e);
            },
            Ok(event) => event,
        };
        let (next, asked) = waiting.resume(event, protocol);
        match asked {
            Effect::Propose(_) | Effect::Invoke(_) => {},
            Effect::Fail(e) => {
                return Err(e);
            },
            _ => {
                return Err(Error::IoFailure);
            },
        }
        state = next;
        effect = asked;
        writes = writes + 1;
    }
    Ok(())
}

/// A peer whose header is not this side's ends the negotiation of a single
/// protocol at once: this side has then written its own header and nothing
/// else, and the protocol was never proposed.
pub proof fn single_header_mismatch_is_fatal(
    wire: Wire,
    protocol: Seq<u8>,
    reply: Seq<u8>,
    rest: Seq<u8>,
)
    requires
        wire.unread == frame(reply) + rest,
        reply != header_id(),
    ensures
        single_negotiation(wire, protocol) == (
            Err::<(), Error>(
                if valid_utf8(reply) {
                    Error::UnknownHeaderVersion
                } else {
                    Error::InvalidEncoding
                },
            ),
            Wire { unread: rest, written: wire.written + frame(header_id()) },
        ),
{
    frame_round_trip(reply, rest);
    assert(frame(reply).len() > 0);
}

/// A stream that speaks `protocol`, as agreed with the peer.
#[derive(Debug)]
pub struct MultiStream {
    /// The id of the protocol agreed on.
    pub protocol: Vec<u8>,
    /// The stream, past the negotiation.
    pub stream: Transport,
}

impl MultiStream {
    /// Negotiates `protocol` on `stream`, as [`negotiate_single`] does, and
    /// keeps the stream where the peer accepts.
    pub fn negotiate(stream: Transport, protocol: Vec<u8>) -> (r: Result<MultiStream, Error>)
        ensures
            match single_negotiation(stream@, protocol@).0 {
                Ok(_) => r matches Ok(m) && m.protocol == protocol && m.stream@
                    == single_negotiation(stream@, protocol@).1,
                Err(e) => r matches Err(error) && error == e,
            },
    {
        let mut stream = stream;
        match negotiate_single(&mut stream, protocol.as_slice()) {
            Ok(_) => Ok(MultiStream { protocol, stream }),
            Err(e) => Err(e),
        }
    }

    /// Moves unread bytes to the start of `buf`, as many as there are and as
    /// `buf` can take, and returns how many that was.
    pub fn read(&mut self, buf: &mut [u8]) -> (r: Result<usize, Error>)
        ensures
            r matches Ok(n) && n == vstd::math::min(
                old(buf)@.len() as int,
                old(self).stream@.unread.len() as int,
            ) && final(buf)@ == old(self).stream@.unread.take(n as int) + old(buf)@.skip(n as int)
                && final(self).stream@ == (Wire {
                unread: old(self).stream@.unread.skip(n as int),
                written: old(self).stream@.written,
            }),
            final(self).protocol == old(self).protocol,
    {
        let n = if buf.len() < self.stream.readbuf.len() {
            buf.len()
        } else {
            self.stream.readbuf.len()
        };
        let mut i: usize = 0;
        while i < n
            invariant
                i <= n,
                n <= buf@.len(),
                n <= self.stream.readbuf@.len(),
                buf@.len() == old(buf)@.len(),
                *self == *old(self),
                forall|j: int| 0 <= j < i ==> buf@[j] == self.stream.readbuf@[j],
                forall|j: int| i <= j < buf@.len() ==> buf@[j] == old(buf)@[j],
            decreases n - i,
        {
            buf[i] = self.stream.readbuf[i];
            i += 1;
        }
        let rest = self.stream.readbuf.split_off(n);
        self.stream.readbuf = rest;
        proof {
            assert(buf@ =~= old(self).stream@.unread.take(n as int) + old(buf)@.skip(n as int));
            assert(self.stream.readbuf@ =~= old(self).stream@.unread.skip(n as int));
        }
        Ok(n)
    }

    /// Fills `buf` with unread bytes. Where fewer are left than `buf` takes,
    /// nothing is read and the stream has failed.
    pub fn read_exact(&mut self, buf: &mut [u8]) -> (r: Result<(), Error>)
        ensures
            old(buf)@.len() <= old(self).stream@.unread.len() ==> r == Ok::<(), Error>(())
                && final(buf)@ == old(self).stream@.unread.take(old(buf)@.len() as int)
                && final(self).stream@ == (Wire {
                unread: old(self).stream@.unread.skip(old(buf)@.len() as int),
                written: old(self).stream@.written,
            }),
            old(buf)@.len() > old(self).stream@.unread.len() ==> r == Err::<(), Error>(
                Error::IoFailure,
            ) && final(buf)@ == old(buf)@ && *final(self) == *old(self),
            final(self).protocol == old(self).protocol,
    {
        if buf.len() > self.stream.readbuf.len() {
            return Err(Error::IoFailure);
        }
        match self.read(buf) {
            Ok(n) => {
                proof {
                    assert(buf@ =~= old(self).stream@.unread.take(old(buf)@.len() as int));
                }
                Ok(())
            },
            Err(e) => Err(e),
        }
    }

    /// Moves all that is unread to the end of `buf` and returns how many
    /// bytes that was.
    pub fn read_to_end(&mut self, buf: &mut Vec<u8>) -> (r: Result<usize, Error>)
        ensures
            r == Ok::<usize, Error>(old(self).stream@.unread.len() as usize),
            final(buf)@ == old(buf)@ + old(self).stream@.unread,
            final(self).stream@ == (Wire {
                unread: Seq::<u8>::empty(),
                written: old(self).stream@.written,
            }),
            final(self).protocol == old(self).protocol,
    {
        let n = self.stream.readbuf.len();
        buf.append(&mut self.stream.readbuf);
        Ok(n)
    }

    /// Writes all of `buf` and returns its length.
    pub fn write(&mut self, buf: &[u8]) -> (r: Result<usize, Error>)
        ensures
            r == Ok::<usize, Error>(buf@.len() as usize),
            final(self).stream@ == (Wire {
                unread: old(self).stream@.unread,
                written: old(self).stream@.written + buf@,
            }),
            final(self).protocol == old(self).protocol,
    {
        self.stream.writebuf.extend_from_slice(buf);
        assert(self.stream.writebuf@ =~= old(self).stream.writebuf@ + buf@);
        Ok(buf.len())
    }

    /// Writes all of `buf`.
    pub fn write_all(&mut self, buf: &[u8]) -> (r: Result<(), Error>)
        ensures
            r == Ok::<(), Error>(()),
            final(self).stream@ == (Wire {
                unread: old(self).stream@.unread,
                written: old(self).stream@.written + buf@,
            }),
            final(self).protocol == old(self).protocol,
    {
        self.stream.writebuf.extend_from_slice(buf);
        assert(self.stream.writebuf@ =~= old(self).stream.writebuf@ + buf@);
        Ok(())
    }

    /// Nothing is held back, so there is nothing to flush.
    pub fn flush(&mut self) -> (r: Result<(), Error>)
        ensures
            r == Ok::<(), Error>(()),
            *final(self) == *old(self),
    {
        Ok(())
    }
}

} // verus!
