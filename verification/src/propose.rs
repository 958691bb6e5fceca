//! The initiator's side: propose the protocols of the table one by one, in
//! order, until the peer accepts one.

use crate::error::Error;
use crate::lpm::{read_message, ReadLpm, Transport, Wire, WriteLpm};
use crate::machine::{message, Effect, Event};
use crate::msg::{frame, frame_round_trip, frames};
use crate::protocol::{is_utf8, lemma_fixed_ids_are_utf8, na, na_id, same_bytes, table_ids};
use vstd::prelude::*;
use vstd::utf8::{encode_utf8, valid_utf8};

verus! {

/// What the answer `response` means for a proposal of `id`: accepted where it
/// echoes the id, denied where it is `na`, an error otherwise.
pub open spec fn response_verdict(id: Seq<u8>, response: Seq<u8>) -> Result<bool, Error> {
    if !valid_utf8(response) {
        Err(Error::InvalidEncoding)
    } else if response == id {
        Ok(true)
    } else if response == na_id() {
        Ok(false)
    } else {
        Err(Error::UnexpectedResponse)
    }
}

/// Judges the peer's answer to a proposal of `id`.
pub fn check_response(id: &[u8], response: &[u8]) -> (verdict: Result<bool, Error>)
    ensures
        verdict == response_verdict(id@, response@),
{
    if !is_utf8(response) {
        Err(Error::InvalidEncoding)
    } else if same_bytes(response, id) {
        Ok(true)
    } else if same_bytes(response, na().as_slice()) {
        Ok(false)
    } else {
        Err(Error::UnexpectedResponse)
    }
}

/// One round trip: the proposal of `id` is written, then one answer is read
/// and judged.
pub open spec fn propose_round(wire: Wire, id: Seq<u8>) -> (Result<bool, Error>, Wire) {
    let written = wire.written + frame(id);
    match read_message(wire.unread) {
        (Err(e), unread) => (Err(e), Wire { unread, written }),
        (Ok(None), unread) => (Err(Error::PeerClosedConnection), Wire { unread, written }),
        (Ok(Some(response)), unread) => (response_verdict(id, response), Wire { unread, written }),
    }
}

/// Proposes the protocol whose id is the bytes `id` and reads the answer:
/// `true` where the peer accepted, `false` where it denied.
pub fn propose_id(transport: &mut Transport, id: &[u8]) -> (r: Result<bool, Error>)
    ensures
        r == propose_round(old(transport)@, id@).0,
        final(transport)@ == propose_round(old(transport)@, id@).1,
{
    match transport.write_lpm(id) {
        Err(e) => {
            return Err(e);
        },
        Ok(_) => {},
    }
    match transport.try_read_lpm() {
        Err(e) => Err(e),
        Ok(None) => Err(Error::PeerClosedConnection),
        Ok(Some(response)) => check_response(id, response.as_slice()),
    }
}

/// Proposes `protocol` and reads the answer: `true` where the peer accepted,
/// `false` where it denied.
pub fn propose(transport: &mut Transport, protocol: &str) -> (r: Result<bool, Error>)
    ensures
        r == propose_round(old(transport)@, encode_utf8(protocol@)).0,
        final(transport)@ == propose_round(old(transport)@, encode_utf8(protocol@)).1,
{
    propose_id(transport, protocol.as_bytes())
}

/// The proposals from place `start` of `ids` on, one round trip after the
/// other: the place of the first id that the peer accepts, or the first error;
/// and the stream as the last round trip left it.
pub open spec fn propose_from(wire: Wire, ids: Seq<Seq<u8>>, start: nat) -> (
    Result<nat, Error>,
    Wire,
)
    decreases ids.len() - start,
{
    if start >= ids.len() {
        (Err(Error::NoProtocolNegotiated), wire)
    } else {
        let (verdict, next) = propose_round(wire, ids[start as int]);
        match verdict {
            Ok(true) => (Ok(start), next),
            Ok(false) => propose_from(next, ids, start + 1),
            Err(e) => (Err(e), next),
        }
    }
}

/// The whole of the initiator's proposals.
pub open spec fn propose_run(wire: Wire, ids: Seq<Seq<u8>>) -> (Result<nat, Error>, Wire) {
    propose_from(wire, ids, 0)
}

/// The initiator between two reads or writes.
#[derive(Clone, Copy, Debug, PartialEq, Eq, Structural)]
pub enum Proposer {
    /// It has asked to write the proposal of the entry at this place and
    /// waits for the end of that write.
    Proposing(usize),
    /// It waits for the answer to the proposal of the entry at this place.
    Awaiting(usize),
    /// The handler at this place has the stream.
    Done(usize),
    /// The negotiation has failed.
    Failed(Error),
}

/// The initiator at its start: it proposes the first entry, or fails at once
/// where the table is empty.
pub open spec fn propose_start(ids: Seq<Seq<u8>>) -> (Proposer, Effect) {
    if ids.len() == 0 {
        (
            Proposer::Failed(Error::NoProtocolNegotiated),
            Effect::Fail(Error::NoProtocolNegotiated),
        )
    } else {
        (Proposer::Proposing(0), Effect::Propose(0))
    }
}

/// The initiator's next state and what it asks for, on `event` in `state`.
/// After a denial it proposes the next entry, and fails where there is none.
/// An event that the state does not wait for, or a state that names a place
/// outside the table, fails the negotiation as a failed stream does; after
/// the end, nothing happens any more.
pub open spec fn propose_transition(state: Proposer, event: Event, ids: Seq<Seq<u8>>) -> (
    Proposer,
    Effect,
) {
    match (state, event) {
        (Proposer::Proposing(i), Event::Written) => (Proposer::Awaiting(i), Effect::Read),
        (Proposer::Awaiting(i), Event::Received(response)) => if i >= ids.len() {
            (Proposer::Failed(Error::IoFailure), Effect::Fail(Error::IoFailure))
        } else {
            match response_verdict(ids[i as int], response@) {
                Ok(true) => (Proposer::Done(i), Effect::Invoke(i)),
                Ok(false) => if i + 1 < ids.len() {
                    (Proposer::Proposing((i + 1) as usize), Effect::Propose((i + 1) as usize))
                } else {
                    (
                        Proposer::Failed(Error::NoProtocolNegotiated),
                        Effect::Fail(Error::NoProtocolNegotiated),
                    )
                },
                Err(e) => (Proposer::Failed(e), Effect::Fail(e)),
            }
        },
        (Proposer::Awaiting(_), Event::Closed) => (
            Proposer::Failed(Error::PeerClosedConnection),
            Effect::Fail(Error::PeerClosedConnection),
        ),
        (Proposer::Done(i), _) => (Proposer::Done(i), Effect::Stop),
        (Proposer::Failed(e), _) => (Proposer::Failed(e), Effect::Stop),
        _ => (Proposer::Failed(Error::IoFailure), Effect::Fail(Error::IoFailure)),
    }
}

impl Proposer {
    /// The initiator at its start.
    pub fn new<F>(protocols: &Vec<(String, F)>) -> (start: (Proposer, Effect))
        ensures
            start == propose_start(table_ids(protocols@)),
    {
        if protocols.len() == 0 {
            (
                Proposer::Failed(Error::NoProtocolNegotiated),
                Effect::Fail(Error::NoProtocolNegotiated),
            )
        } else {
            (Proposer::Proposing(0), Effect::Propose(0))
        }
    }

    /// Takes `event` and returns the next state with what is to be done.
    pub fn resume<F>(self, event: Event, protocols: &Vec<(String, F)>) -> (next: (
        Proposer,
        Effect,
    ))
        ensures
            next == propose_transition(self, event, table_ids(protocols@)),
    {
        match (self, event) {
            (Proposer::Proposing(i), Event::Written) => (Proposer::Awaiting(i), Effect::Read),
            (Proposer::Awaiting(i), Event::Received(response)) => {
                if i >= protocols.len() {
                    (Proposer::Failed(Error::IoFailure), Effect::Fail(Error::IoFailure))
                } else {
                    match check_response(
                        protocols[i].0.as_str().as_bytes(),
                        response.as_slice(),
                    ) {
                        Ok(true) => (Proposer::Done(i), Effect::Invoke(i)),
                        Ok(false) => {
                            if i + 1 < protocols.len() {
                                (Proposer::Proposing(i + 1), Effect::Propose(i + 1))
                            } else {
                                (
                                    Proposer::Failed(Error::NoProtocolNegotiated),
                                    Effect::Fail(Error::NoProtocolNegotiated),
                                )
                            }
                        },
                        Err(e) => (Proposer::Failed(e), Effect::Fail(e)),
                    }
                }
            },
            (Proposer::Awaiting(_), Event::Closed) => (
                Proposer::Failed(Error::PeerClosedConnection),
                Effect::Fail(Error::PeerClosedConnection),
            ),
            (Proposer::Done(i), _) => (Proposer::Done(i), Effect::Stop),
            (Proposer::Failed(e), _) => (Proposer::Failed(e), Effect::Stop),
            _ => (Proposer::Failed(Error::IoFailure), Effect::Fail(Error::IoFailure)),
        }
    }
}

/// Proposes the protocols of the table in order and returns the place of the
/// first that the peer accepted. No handler is called.
pub fn propose_each<F>(transport: &mut Transport, protocols: &Vec<(String, F)>) -> (r: Result<
    usize,
    Error,
>)
    ensures
        match propose_run(old(transport)@, table_ids(protocols@)).0 {
            Ok(i) => r matches Ok(k) && k == i && i < protocols@.len(),
            Err(e) => r == Err::<usize, Error>(e),
        },
        final(transport)@ == propose_run(old(transport)@, table_ids(protocols@)).1,
{
    let ghost ids = table_ids(protocols@);
    let (mut state, mut effect) = Proposer::new(protocols);
    let n = protocols.len();
    let ghost mut i: nat = 0;
    loop
        invariant
            ids == table_ids(protocols@),
            i <= protocols@.len(),
            i < protocols@.len() ==> state == Proposer::Proposing(i as usize) && effect
                == Effect::Propose(i as usize),
            i == protocols@.len() ==> effect == Effect::Fail(Error::NoProtocolNegotiated),
            n == protocols@.len(),
            propose_from(transport@, ids, i) == propose_run(old(transport)@, ids),
        decreases protocols@.len() - i,
    {
        let proposal = match message(effect, protocols) {
            Some(proposal) => proposal,
            None => {
                return match effect {
                    Effect::Fail(e) => Err(e),
                    _ => Err(Error::IoFailure),
                };
            },
        };
        match transport.write_lpm(proposal.as_slice()) {
            Ok(_) => {},
            Err(e) => {
                return Err(e);
            },
        }
        let (waiting, _) = state.resume(Event::Written, protocols);
        let event = match transport.try_read_lpm() {
            Err(e) => {
                return Err(e);
            },
            Ok(None) => Event::Closed,
            Ok(Some(response)) => Event::Received(response),
        };
        let (next, asked) = waiting.resume(event, protocols);
        proof {
            if i + 1 >= ids.len() {
                assert(propose_from(transport@, ids, i + 1) == (
                    Err::<nat, Error>(Error::NoProtocolNegotiated),
                    transport@,
                ));
            }
        }
        match asked {
            Effect::Invoke(k) => {
                return Ok(k);
            },
            Effect::Fail(e) => {
                return Err(e);
            },
            Effect::Propose(_) => {},
            _ => {
                return Err(Error::IoFailure);
            },
        }
        state = next;
        effect = asked;
        proof {
            i = i + 1;
        }
    }
}

/// Proposes the protocols of the table in order. The handler of the first
/// that the peer accepts gets the stream, with all that was read ahead, and
/// its result is returned; no other handler is called. Where the peer denies
/// all of them the negotiation fails.
pub fn propose_all<F, R>(transport: Transport, protocols: Vec<(String, F)>) -> (r: Result<
    R,
    Error,
>) where F: FnOnce(Transport) -> R
    requires
        forall|i: int, t: Transport|
            0 <= i < protocols@.len() ==> #[trigger] call_requires(protocols@[i].1, (t,)),
    ensures
        match propose_run(transport@, table_ids(protocols@)) {
            (Ok(i), wire) => r matches Ok(value) && exists|t: Transport|
                t@ == wire && #[trigger] call_ensures(protocols@[i as int].1, (t,), value),
            (Err(e), _) => r matches Err(error) && error == e,
        },
{
    let mut stream = transport;
    let mut table = protocols;
    match propose_each(&mut stream, &table) {
        Ok(i) => {
            let (_, handler) = table.swap_remove(i);
            let ghost handed = stream;
            let r = Ok(handler(stream));
            assert(call_ensures(protocols@[i as int].1, (handed,), r->Ok_0));
            r
        },
        Err(e) => Err(e),
    }
}

/// `n` answers of `na`, one after the other.
pub open spec fn denials(n: nat) -> Seq<u8>
    decreases n,
{
    if n == 0 {
        Seq::empty()
    } else {
        frame(na_id()) + denials((n - 1) as nat)
    }
}

/// The proposals go out in the order of the table, one for each id, and stop
/// with the one that is accepted: when the id at place `k` is accepted, what
/// was written is the proposals of the ids up to and including `k`; when the
/// table is exhausted, the proposals of all its ids; and after any other
/// error, the proposals of some first part of the table.
pub proof fn proposals_in_order(wire: Wire, ids: Seq<Seq<u8>>)
    ensures
        match propose_run(wire, ids) {
            (Ok(k), after) => k < ids.len() && after.written == wire.written + frames(
                ids.take(k as int + 1),
            ),
            (Err(Error::NoProtocolNegotiated), after) => after.written == wire.written + frames(
                ids,
            ),
            (Err(_), after) => exists|n: int|
                0 <= n <= ids.len() && after.written == wire.written + #[trigger] frames(
                    ids.take(n),
                ),
        },
{
    lemma_proposals_from(wire, ids, 0);
    assert(ids.subrange(0, ids.len() as int) =~= ids);
}

proof fn lemma_proposals_from(wire: Wire, ids: Seq<Seq<u8>>, start: nat)
    requires
        start <= ids.len(),
    ensures
        match propose_from(wire, ids, start) {
            (Ok(k), after) => start <= k < ids.len() && after.written == wire.written + frames(
                ids.subrange(start as int, k as int + 1),
            ),
            (Err(Error::NoProtocolNegotiated), after) => after.written == wire.written + frames(
                ids.subrange(start as int, ids.len() as int),
            ),
            (Err(_), after) => exists|n: int|
                start <= n <= ids.len() && after.written == wire.written + #[trigger] frames(
                    ids.subrange(start as int, n),
                ),
        },
    decreases ids.len() - start,
{
    if start >= ids.len() {
        assert(ids.subrange(start as int, ids.len() as int) =~= Seq::<Seq<u8>>::empty());
        assert(wire.written + frames(Seq::<Seq<u8>>::empty()) =~= wire.written);
    } else {
        let id = ids[start as int];
        let (verdict, next) = propose_round(wire, id);
        let one = ids.subrange(start as int, start as int + 1);
        assert(one.drop_first() =~= Seq::<Seq<u8>>::empty());
        assert(frames(one.drop_first()) =~= Seq::<u8>::empty());
        assert(frames(one) =~= frame(id));
        let none = ids.subrange(start as int, start as int);
        assert(none =~= Seq::<Seq<u8>>::empty());
        assert(wire.written + frames(none) =~= wire.written);
        match verdict {
            Ok(true) => {},
            Ok(false) => {
                lemma_proposals_from(next, ids, start + 1);
                let (r, after) = propose_from(next, ids, start + 1);
                assert(next.written == wire.written + frame(id));
                assert forall|n: int| start + 1 <= n <= ids.len() implies wire.written + frame(id)
                    + frames(ids.subrange(start as int + 1, n)) == wire.written + #[trigger] frames(
                    ids.subrange(start as int, n),
                ) by {
                    let whole = ids.subrange(start as int, n);
                    assert(whole.drop_first() =~= ids.subrange(start as int + 1, n));
                    assert(wire.written + frame(id) + frames(ids.subrange(start as int + 1, n))
                        =~= wire.written + frames(whole));
                }
                match r {
                    Ok(k) => {},
                    Err(Error::NoProtocolNegotiated) => {},
                    Err(_) => {
                        let n = choose|n: int|
                            start + 1 <= n <= ids.len() && after.written == next.written
                                + #[trigger] frames(ids.subrange(start as int + 1, n));
                        assert(after.written == wire.written + frames(
                            ids.subrange(start as int, n),
                        ));
                    },
                }
            },
            Err(e) => {
                assert(next.written == wire.written + frames(one));
            },
        }
    }
}

/// A peer that denies every proposal exhausts the table: where the answers
/// are one `na` for each id of the table, each id is proposed once, in order,
/// each answer is read, and the negotiation ends without a protocol.
pub proof fn denied_proposals_exhaust(wire: Wire, ids: Seq<Seq<u8>>, rest: Seq<u8>)
    requires
        wire.unread == denials(ids.len()) + rest,
        forall|i: int| 0 <= i < ids.len() ==> #[trigger] ids[i] != na_id(),
    ensures
        propose_run(wire, ids) == (
            Err::<nat, Error>(Error::NoProtocolNegotiated),
            Wire { unread: rest, written: wire.written + frames(ids) },
        ),
{
    lemma_denied_from(wire, ids, rest, 0);
    assert(ids.subrange(0, ids.len() as int) =~= ids);
}

proof fn lemma_denied_from(wire: Wire, ids: Seq<Seq<u8>>, rest: Seq<u8>, start: nat)
    requires
        start <= ids.len(),
        wire.unread == denials((ids.len() - start) as nat) + rest,
        forall|i: int| 0 <= i < ids.len() ==> #[trigger] ids[i] != na_id(),
    ensures
        propose_from(wire, ids, start) == (
            Err::<nat, Error>(Error::NoProtocolNegotiated),
            Wire {
                unread: rest,
                written: wire.written + frames(ids.subrange(start as int, ids.len() as int)),
            },
        ),
    decreases ids.len() - start,
{
    let tail = ids.subrange(start as int, ids.len() as int);
    if start >= ids.len() {
        assert(tail =~= Seq::<Seq<u8>>::empty());
        assert(wire.written + frames(tail) =~= wire.written);
        assert(wire.unread =~= rest);
    } else {
        let id = ids[start as int];
        let left = denials((ids.len() - start - 1) as nat) + rest;
        assert(wire.unread =~= frame(na_id()) + left);
        frame_round_trip(na_id(), left);
        lemma_fixed_ids_are_utf8();
        assert(frame(na_id()).len() > 0);
        let next = Wire { unread: left, written: wire.written + frame(id) };
        assert(propose_round(wire, id) == (Ok::<bool, Error>(false), next));
        lemma_denied_from(next, ids, rest, start + 1);
        assert(tail.drop_first() =~= ids.subrange(start as int + 1, ids.len() as int));
        assert(wire.written + frame(id) + frames(ids.subrange(start as int + 1, ids.len() as int))
            =~= wire.written + frames(tail));
    }
}

/// A peer that denies the first `k` protocols and accepts the next one gets
/// one proposal for each of them, in order, and none after the one it
/// accepted; what it sent after its acceptance is still unread.
pub proof fn accepted_after_denials(wire: Wire, ids: Seq<Seq<u8>>, k: nat, rest: Seq<u8>)
    requires
        k < ids.len(),
        wire.unread == denials(k) + frame(ids[k as int]) + rest,
        forall|i: int| 0 <= i < k ==> #[trigger] ids[i] != na_id(),
        valid_utf8(ids[k as int]),
    ensures
        propose_run(wire, ids) == (
            Ok::<nat, Error>(k),
            Wire { unread: rest, written: wire.written + frames(ids.take(k as int + 1)) },
        ),
{
    lemma_accepted_from(wire, ids, k, rest, 0);
}

proof fn lemma_accepted_from(wire: Wire, ids: Seq<Seq<u8>>, k: nat, rest: Seq<u8>, start: nat)
    requires
        start <= k < ids.len(),
        wire.unread == denials((k - start) as nat) + frame(ids[k as int]) + rest,
        forall|i: int| 0 <= i < k ==> #[trigger] ids[i] != na_id(),
        valid_utf8(ids[k as int]),
    ensures
        propose_from(wire, ids, start) == (
            Ok::<nat, Error>(k),
            Wire {
                unread: rest,
                written: wire.written + frames(ids.subrange(start as int, k as int + 1)),
            },
        ),
    decreases k - start,
{
    let id = ids[start as int];
    let part = ids.subrange(start as int, k as int + 1);
    assert(part[0] == id);
    if start == k {
        assert(denials(0) =~= Seq::<u8>::empty());
        assert(wire.unread =~= frame(id) + rest);
        frame_round_trip(id, rest);
        assert(frame(id).len() > 0);
        assert(part.drop_first() =~= Seq::<Seq<u8>>::empty());
        assert(frames(part.drop_first()) =~= Seq::<u8>::empty());
        assert(frames(part) =~= frame(id));
    } else {
        let left = denials((k - start - 1) as nat) + frame(ids[k as int]) + rest;
        assert(wire.unread =~= frame(na_id()) + left);
        frame_round_trip(na_id(), left);
        lemma_fixed_ids_are_utf8();
        assert(frame(na_id()).len() > 0);
        let next = Wire { unread: left, written: wire.written + frame(id) };
        assert(propose_round(wire, id) == (Ok::<bool, Error>(false), next));
        lemma_accepted_from(next, ids, k, rest, start + 1);
        assert(part.drop_first() =~= ids.subrange(start as int + 1, k as int + 1));
        assert(wire.written + frame(id) + frames(ids.subrange(start as int + 1, k as int + 1))
            =~= wire.written + frames(part));
    }
}

/// A peer that has closed the stream fails the first proposal: the proposal
/// is written, and the negotiation ends because the peer is gone.
pub proof fn closed_stream_fails_proposer(wire: Wire, ids: Seq<Seq<u8>>)
    requires
        wire.unread.len() == 0,
        ids.len() > 0,
    ensures
        propose_run(wire, ids) == (
            Err::<nat, Error>(Error::PeerClosedConnection),
            Wire { unread: wire.unread, written: wire.written + frame(ids[0]) },
        ),
{
}

} // verus!
