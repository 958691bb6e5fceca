//! The responder's side: read the protocols that the peer asks for, deny
//! those that the table does not hold, and accept the first that it does.

use crate::error::Error;
use crate::lpm::{read_message, ReadLpm, Transport, Wire, WriteLpm};
use crate::machine::{message, Effect, Event};
use crate::msg::{frame, frame_round_trip, frames};
use crate::propose::denials;
use crate::protocol::{
    find_protocol, is_utf8, lemma_position_holds, ls, ls_id, na_id, position, same_bytes, table_ids,
};
use vstd::prelude::*;
use vstd::utf8::valid_utf8;

verus! {

/// What the responder does with one request.
#[derive(Clone, Copy, Debug, PartialEq, Eq, Structural)]
pub enum Decision {
    /// The request names the entry at this place of the table: echo it and
    /// hand the stream to its handler.
    Accept(usize),
    /// The request names nothing in the table: answer `na` and read on.
    Deny,
    /// The request ends the negotiation with this error.
    Abort(Error),
}

/// The decision on `request`, given the ids of the table. A request that is
/// not text is refused, a request for a listing is not served, and of two
/// entries with the same id the first is taken.
pub open spec fn request_decision(ids: Seq<Seq<u8>>, request: Seq<u8>) -> Decision {
    if !valid_utf8(request) {
        Decision::Abort(Error::InvalidEncoding)
    } else if request == ls_id() {
        Decision::Abort(Error::NotImplemented)
    } else {
        match position(ids, request) {
            Some(i) => Decision::Accept(i as usize),
            None => Decision::Deny,
        }
    }
}

/// Decides on one request of the peer.
pub fn decide<F>(request: &[u8], protocols: &Vec<(String, F)>) -> (decision: Decision)
    ensures
        decision == request_decision(table_ids(protocols@), request@),
        decision matches Decision::Accept(i) ==> i < protocols@.len() && position(
            table_ids(protocols@),
            request@,
        ) == Some(i as nat),
{
    if !is_utf8(request) {
        Decision::Abort(Error::InvalidEncoding)
    } else if same_bytes(request, ls().as_slice()) {
        Decision::Abort(Error::NotImplemented)
    } else {
        match find_protocol(protocols, request) {
            Some(i) => Decision::Accept(i),
            None => Decision::Deny,
        }
    }
}

/// The responder's whole run on a stream: requests are read one after the
/// other; each unknown one is answered with `na`; the first known one is
/// echoed, and its place in the table is the result. The run ends with an
/// error where the peer closes the stream instead of asking, where a frame
/// or a request is bad, and where the peer asks for a listing.
pub open spec fn accept_run(wire: Wire, ids: Seq<Seq<u8>>) -> (Result<nat, Error>, Wire)
    decreases wire.unread.len(),
{
    match read_message(wire.unread) {
        (Err(e), unread) => (Err(e), Wire { unread, written: wire.written }),
        (Ok(None), unread) => (
            Err(Error::PeerClosedConnection),
            Wire { unread, written: wire.written },
        ),
        (Ok(Some(request)), unread) => match request_decision(ids, request) {
            Decision::Abort(e) => (Err(e), Wire { unread, written: wire.written }),
            Decision::Accept(_) => (
                Ok(position(ids, request).unwrap()),
                Wire { unread, written: wire.written + frame(request) },
            ),
            Decision::Deny => accept_run(
                Wire { unread, written: wire.written + frame(na_id()) },
                ids,
            ),
        },
    }
}

/// The responder between two reads or writes.
#[derive(Clone, Copy, Debug, PartialEq, Eq, Structural)]
pub enum Acceptor {
    /// It waits for a request.
    Ready,
    /// It has asked to write `na` and waits for the end of that write.
    Denying,
    /// It has asked to write the echo of the entry at this place and waits
    /// for the end of that write.
    Accepting(usize),
    /// The handler at this place has the stream.
    Done(usize),
    /// The negotiation has failed.
    Failed(Error),
}

/// The responder's next state and what it asks for, on `event` in `state`.
/// An event that the state does not wait for fails the negotiation as a
/// failed stream does; after the end, nothing happens any more.
pub open spec fn accept_transition(state: Acceptor, event: Event, ids: Seq<Seq<u8>>) -> (
    Acceptor,
    Effect,
) {
    match (state, event) {
        (Acceptor::Ready, Event::Received(request)) => match request_decision(ids, request@) {
            Decision::Accept(i) => (Acceptor::Accepting(i), Effect::Echo(i)),
            Decision::Deny => (Acceptor::Denying, Effect::Deny),
            Decision::Abort(e) => (Acceptor::Failed(e), Effect::Fail(e)),
        },
        (Acceptor::Ready, Event::Closed) => (
            Acceptor::Failed(Error::PeerClosedConnection),
            Effect::Fail(Error::PeerClosedConnection),
        ),
        (Acceptor::Denying, Event::Written) => (Acceptor::Ready, Effect::Read),
        (Acceptor::Accepting(i), Event::Written) => (Acceptor::Done(i), Effect::Invoke(i)),
        (Acceptor::Done(i), _) => (Acceptor::Done(i), Effect::Stop),
        (Acceptor::Failed(e), _) => (Acceptor::Failed(e), Effect::Stop),
        _ => (Acceptor::Failed(Error::IoFailure), Effect::Fail(Error::IoFailure)),
    }
}

impl Acceptor {
    /// The responder at its start: it asks for a read.
    pub fn new() -> (start: (Acceptor, Effect))
        ensures
            start == (Acceptor::Ready, Effect::Read),
    {
        (Acceptor::Ready, Effect::Read)
    }

    /// Takes `event` and returns the next state with what is to be done.
    pub fn resume<F>(self, event: Event, protocols: &Vec<(String, F)>) -> (next: (
        Acceptor,
        Effect,
    ))
        ensures
            next == accept_transition(self, event, table_ids(protocols@)),
            next.1 matches Effect::Echo(i) ==> i < protocols@.len() && (event matches Event::Received(
                request,
            ) && table_ids(protocols@)[i as int] == request@ && position(
                table_ids(protocols@),
                request@,
            ) == Some(i as nat)),
    {
        match (self, event) {
            (Acceptor::Ready, Event::Received(request)) => {
                match decide(request.as_slice(), protocols) {
                    Decision::Accept(i) => {
                        proof {
                            lemma_position_holds(table_ids(protocols@), request@, 0);
                        }
                        (Acceptor::Accepting(i), Effect::Echo(i))
                    },
                    Decision::Deny => (Acceptor::Denying, Effect::Deny),
                    Decision::Abort(e) => (Acceptor::Failed(e), Effect::Fail(e)),
                }
            },
            (Acceptor::Ready, Event::Closed) => (
                Acceptor::Failed(Error::PeerClosedConnection),
                Effect::Fail(Error::PeerClosedConnection),
            ),
            (Acceptor::Denying, Event::Written) => (Acceptor::Ready, Effect::Read),
            (Acceptor::Accepting(i), Event::Written) => (Acceptor::Done(i), Effect::Invoke(i)),
            (Acceptor::Done(i), _) => (Acceptor::Done(i), Effect::Stop),
            (Acceptor::Failed(e), _) => (Acceptor::Failed(e), Effect::Stop),
            _ => (Acceptor::Failed(Error::IoFailure), Effect::Fail(Error::IoFailure)),
        }
    }
}

/// Serves the peer's requests until one names a protocol of the table, and
/// returns the place of that protocol. No handler is called.
pub fn accept_each<F>(transport: &mut Transport, protocols: &Vec<(String, F)>) -> (r: Result<
    usize,
    Error,
>)
    ensures
        match accept_run(old(transport)@, table_ids(protocols@)).0 {
            Ok(i) => r matches Ok(k) && k == i && i < protocols@.len(),
            Err(e) => r == Err::<usize, Error>(e),
        },
        final(transport)@ == accept_run(old(transport)@, table_ids(protocols@)).1,
{
    let ghost ids = table_ids(protocols@);
    let (mut state, _) = Acceptor::new();
    loop
        invariant
            ids == table_ids(protocols@),
            state == Acceptor::Ready,
            accept_run(transport@, ids) == accept_run(old(transport)@, ids),
        decreases transport.readbuf@.len(),
    {
        let event = match transport.try_read_lpm() {
            Err(e) => {
                return Err(e);
            },
            Ok(None) => Event::Closed,
            Ok(Some(request)) => Event::Received(request),
        };
        let (answering, effect) = state.resume(event, protocols);
        let answer = match message(effect, protocols) {
            Some(answer) => answer,
            None => {
                return match effect {
                    Effect::Fail(e) => Err(e),
                    _ => Err(Error::IoFailure),
                };
            },
        };
        match transport.write_lpm(answer.as_slice()) {
            Ok(_) => {},
            Err(e) => {
                return Err(e);
            },
        }
        let (next, asked) = answering.resume(Event::Written, protocols);
        match asked {
            Effect::Invoke(i) => {
                return Ok(i);
            },
            Effect::Read => {},
            Effect::Fail(e) => {
                return Err(e);
            },
            _ => {
                return Err(Error::IoFailure);
            },
        }
        state = next;
    }
}

/// Serves the peer's requests until one names a protocol of the table. The
/// handler of that protocol gets the stream, with all that was read ahead,
/// and its result is returned; no other handler is called.
pub fn accept<F, R>(transport: Transport, protocols: Vec<(String, F)>) -> (r: Result<
    R,
    Error,
>) where F: FnOnce(Transport) -> R
    requires
        forall|i: int, t: Transport|
            0 <= i < protocols@.len() ==> #[trigger] call_requires(protocols@[i].1, (t,)),
    ensures
        match accept_run(transport@, table_ids(protocols@)) {
            (Ok(i), wire) => r matches Ok(value) && exists|t: Transport|
                t@ == wire && #[trigger] call_ensures(protocols@[i as int].1, (t,), value),
            (Err(e), _) => r matches Err(error) && error == e,
        },
{
    let mut stream = transport;
    let mut table = protocols;
    match accept_each(&mut stream, &table) {
        Ok(i) => {
            let (_, handler) = table.swap_remove(i);
            let ghost handed = stream;
            let r = Ok(handler(stream));
            assert(call_ensures(protocols@[i as int].1, (handed,), r->Ok_0));
            r
        },
        Err(e) => Err(e),
    }
}

/// A request for a protocol that the table does not hold is answered with
/// `na`, and the responder goes on with what follows the request.
pub proof fn unknown_request_is_denied(
    wire: Wire,
    ids: Seq<Seq<u8>>,
    request: Seq<u8>,
    rest: Seq<u8>,
)
    requires
        wire.unread == frame(request) + rest,
        valid_utf8(request),
        request != ls_id(),
        position(ids, request).is_none(),
    ensures
        accept_run(wire, ids) == accept_run(
            Wire { unread: rest, written: wire.written + frame(na_id()) },
            ids,
        ),
{
    frame_round_trip(request, rest);
    assert(frame(request).len() > 0);
}

/// A request for a protocol of the table is echoed and ends the run with the
/// place of that protocol; what the peer sent after the request is still
/// unread.
pub proof fn known_request_is_accepted(
    wire: Wire,
    ids: Seq<Seq<u8>>,
    request: Seq<u8>,
    rest: Seq<u8>,
)
    requires
        wire.unread == frame(request) + rest,
        valid_utf8(request),
        request != ls_id(),
        position(ids, request).is_some(),
    ensures
        accept_run(wire, ids) == (
            Ok::<nat, Error>(position(ids, request).unwrap()),
            Wire { unread: rest, written: wire.written + frame(request) },
        ),
{
    frame_round_trip(request, rest);
    assert(frame(request).len() > 0);
}

/// The responder denies what it does not know and accepts the first request
/// that it knows: after requests for protocols that the table does not hold
/// and one for a protocol that it holds, it has written one `na` for each of
/// the former and the echo of the latter, and what the peer sent after that
/// request is still unread.
pub proof fn denies_until_known(
    wire: Wire,
    ids: Seq<Seq<u8>>,
    unknown: Seq<Seq<u8>>,
    known: Seq<u8>,
    rest: Seq<u8>,
)
    requires
        wire.unread == frames(unknown) + frame(known) + rest,
        forall|i: int|
            0 <= i < unknown.len() ==> valid_utf8(#[trigger] unknown[i]) && unknown[i] != ls_id()
                && position(ids, unknown[i]).is_none(),
        valid_utf8(known),
        known != ls_id(),
        position(ids, known).is_some(),
    ensures
        accept_run(wire, ids) == (
            Ok::<nat, Error>(position(ids, known).unwrap()),
            Wire {
                unread: rest,
                written: wire.written + denials(unknown.len()) + frame(known),
            },
        ),
    decreases unknown.len(),
{
    if unknown.len() == 0 {
        assert(wire.unread =~= frame(known) + rest);
        known_request_is_accepted(wire, ids, known, rest);
        assert(wire.written + denials(0) + frame(known) =~= wire.written + frame(known));
    } else {
        let tail = unknown.drop_first();
        let left = frames(tail) + frame(known) + rest;
        assert(wire.unread =~= frame(unknown[0]) + left);
        unknown_request_is_denied(wire, ids, unknown[0], left);
        let next = Wire { unread: left, written: wire.written + frame(na_id()) };
        assert forall|i: int| 0 <= i < tail.len() implies valid_utf8(#[trigger] tail[i])
            && tail[i] != ls_id() && position(ids, tail[i]).is_none() by {
            assert(tail[i] == unknown[i + 1]);
        }
        denies_until_known(next, ids, tail, known, rest);
        assert(wire.written + frame(na_id()) + denials(tail.len()) + frame(known)
            =~= wire.written + denials(unknown.len()) + frame(known));
    }
}

/// A peer that has closed the stream fails the responder: nothing is
/// written, and the negotiation ends because the peer is gone.
pub proof fn closed_stream_fails_acceptor(wire: Wire, ids: Seq<Seq<u8>>)
    requires
        wire.unread.len() == 0,
    ensures
        accept_run(wire, ids) == (Err::<nat, Error>(Error::PeerClosedConnection), wire),
{
}

} // verus!
