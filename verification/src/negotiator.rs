//! The entry point: exchange the header, then propose or accept, as the role
//! says, and hand the stream to the handler of the protocol agreed on.

use crate::accept::{
    accept_run, accept_transition, closed_stream_fails_acceptor, denies_until_known, Acceptor,
};
use crate::error::Error;
use crate::lpm::{read_message, ReadLpm, Transport, Wire, WriteLpm};
use crate::machine::{effect_message, message, Effect, Event};
use crate::msg::{frame, frame_round_trip, frames, lemma_frames_push};
use crate::propose::{
    accepted_after_denials, closed_stream_fails_proposer, denials, propose_from, propose_run,
    propose_start, propose_transition, response_verdict, Proposer,
};
use crate::protocol::{
    header, header_id, is_utf8, lemma_fixed_ids_are_utf8, ls_id, na_id, position, same_bytes,
    table_ids,
};
use vstd::prelude::*;
use vstd::utf8::valid_utf8;

verus! {

/// What the peer's header, or its absence, means: the negotiation goes on
/// only where the peer sent the very header that this side sends.
pub open spec fn header_verdict(response: Option<Seq<u8>>) -> Result<(), Error> {
    match response {
        None => Err(Error::PeerClosedConnection),
        Some(id) => if !valid_utf8(id) {
            Err(Error::InvalidEncoding)
        } else if id == header_id() {
            Ok(())
        } else {
            Err(Error::UnknownHeaderVersion)
        },
    }
}

/// Judges what was read where the peer's header was expected.
pub fn check_header(response: Option<&[u8]>) -> (verdict: Result<(), Error>)
    ensures
        verdict == header_verdict(
            match response {
                Some(id) => Some(id@),
                None => None,
            },
        ),
{
    match response {
        None => Err(Error::PeerClosedConnection),
        Some(id) => {
            if !is_utf8(id) {
                Err(Error::InvalidEncoding)
            } else if same_bytes(id, header().as_slice()) {
                Ok(())
            } else {
                Err(Error::UnknownHeaderVersion)
            }
        },
    }
}

/// The exchange of headers: this side's header is written, then one message
/// is read and judged.
pub open spec fn header_exchange(wire: Wire) -> (Result<(), Error>, Wire) {
    let written = wire.written + frame(header_id());
    match read_message(wire.unread) {
        (Err(e), unread) => (Err(e), Wire { unread, written }),
        (Ok(response), unread) => (header_verdict(response), Wire { unread, written }),
    }
}

/// A peer whose header is not this side's fails the exchange of headers:
/// this side has then written its own header and nothing else, and what the
/// peer sent after its header is left.
pub proof fn bad_header_fails_exchange(wire: Wire, reply: Seq<u8>, rest: Seq<u8>)
    requires
        wire.unread == frame(reply) + rest,
        reply != header_id(),
    ensures
        header_exchange(wire) == (
            Err::<(), Error>(
                if valid_utf8(reply) {
                    Error::UnknownHeaderVersion
                } else {
                    Error::InvalidEncoding
                },
            ),
            Wire { unread: rest, written: wire.written + frame(header_id()) },
        ),
{
    frame_round_trip(reply, rest);
    assert(frame(reply).len() > 0);
}

/// Sends the header and checks the peer's.
pub fn send_header(transport: &mut Transport) -> (r: Result<(), Error>)
    ensures
        r == header_exchange(old(transport)@).0,
        final(transport)@ == header_exchange(old(transport)@).1,
{
    match transport.write_lpm(header().as_slice()) {
        Ok(_) => {},
        Err(e) => {
            return Err(e);
        },
    }
    match transport.try_read_lpm() {
        Err(e) => Err(e),
        Ok(None) => check_header(None),
        Ok(Some(id)) => check_header(Some(id.as_slice())),
    }
}

/// A whole negotiation on a stream: the exchange of headers and, where it
/// succeeds, the initiator's proposals or the responder's answers. The result
/// is the place in the table of the protocol agreed on, or the first error,
/// and the stream as the negotiation left it.
pub open spec fn negotiation(wire: Wire, initiator: bool, ids: Seq<Seq<u8>>) -> (
    Result<nat, Error>,
    Wire,
) {
    match header_exchange(wire) {
        (Err(e), after) => (Err(e), after),
        (Ok(_), after) => if initiator {
            propose_run(after, ids)
        } else {
            accept_run(after, ids)
        },
    }
}

/// A whole negotiation between two reads or writes.
#[derive(Clone, Copy, Debug, PartialEq, Eq, Structural)]
pub enum Negotiation {
    /// It has asked to write the header and waits for the end of that write.
    Greeting,
    /// It waits for the peer's header.
    AwaitingHeader,
    /// The headers agree and this side proposes.
    Proposing(Proposer),
    /// The headers agree and this side answers.
    Accepting(Acceptor),
    /// The exchange of headers has failed.
    Failed(Error),
}

/// Where the negotiation goes once the peer's header is judged: it fails on
/// a bad header, and else begins to propose or to answer, as the role says.
pub open spec fn after_header(verdict: Result<(), Error>, initiator: bool, ids: Seq<Seq<u8>>) -> (
    Negotiation,
    Effect,
) {
    match verdict {
        Err(e) => (Negotiation::Failed(e), Effect::Fail(e)),
        Ok(_) => if initiator {
            (Negotiation::Proposing(propose_start(ids).0), propose_start(ids).1)
        } else {
            (Negotiation::Accepting(Acceptor::Ready), Effect::Read)
        },
    }
}

/// The next state of a negotiation and what it asks for, on `event` in
/// `state`. Once the headers agree, the events go to the proposer or to the
/// acceptor. An event that the state does not wait for fails the negotiation
/// as a failed stream does.
pub open spec fn negotiation_transition(
    state: Negotiation,
    event: Event,
    initiator: bool,
    ids: Seq<Seq<u8>>,
) -> (Negotiation, Effect) {
    match (state, event) {
        (Negotiation::Greeting, Event::Written) => (Negotiation::AwaitingHeader, Effect::Read),
        (Negotiation::AwaitingHeader, Event::Received(id)) => after_header(
            header_verdict(Some(id@)),
            initiator,
            ids,
        ),
        (Negotiation::AwaitingHeader, Event::Closed) => after_header(
            header_verdict(None),
            initiator,
            ids,
        ),
        (Negotiation::Proposing(p), _) => (
            Negotiation::Proposing(propose_transition(p, event, ids).0),
            propose_transition(p, event, ids).1,
        ),
        (Negotiation::Accepting(a), _) => (
            Negotiation::Accepting(accept_transition(a, event, ids).0),
            accept_transition(a, event, ids).1,
        ),
        (Negotiation::Failed(e), _) => (Negotiation::Failed(e), Effect::Stop),
        _ => (Negotiation::Failed(Error::IoFailure), Effect::Fail(Error::IoFailure)),
    }
}

impl Negotiation {
    /// A negotiation at its start: it asks to write the header.
    pub fn start() -> (start: (Negotiation, Effect))
        ensures
            start == (Negotiation::Greeting, Effect::Greet),
    {
        (Negotiation::Greeting, Effect::Greet)
    }

    /// Takes `event` and returns the next state with what is to be done.
    pub fn resume<F>(self, event: Event, initiator: bool, protocols: &Vec<(String, F)>) -> (next: (
        Negotiation,
        Effect,
    ))
        ensures
            next == negotiation_transition(self, event, initiator, table_ids(protocols@)),
            next.1 matches Effect::Echo(i) ==> i < protocols@.len() && (event matches Event::Received(
                request,
            ) && table_ids(protocols@)[i as int] == request@ && position(
                table_ids(protocols@),
                request@,
            ) == Some(i as nat)),
    {
        match (self, event) {
            (Negotiation::Greeting, Event::Written) => (Negotiation::AwaitingHeader, Effect::Read),
            (Negotiation::AwaitingHeader, Event::Received(id)) => Self::enter(
                check_header(Some(id.as_slice())),
                initiator,
                protocols,
            ),
            (Negotiation::AwaitingHeader, Event::Closed) => Self::enter(
                check_header(None),
                initiator,
                protocols,
            ),
            (Negotiation::Proposing(p), event) => {
                let (p, effect) = p.resume(event, protocols);
                (Negotiation::Proposing(p), effect)
            },
            (Negotiation::Accepting(a), event) => {
                let (a, effect) = a.resume(event, protocols);
                (Negotiation::Accepting(a), effect)
            },
            (Negotiation::Failed(e), _) => (Negotiation::Failed(e), Effect::Stop),
            _ => (Negotiation::Failed(Error::IoFailure), Effect::Fail(Error::IoFailure)),
        }
    }

    /// Begins to propose or to answer once the peer's header is judged.
    pub fn enter<F>(verdict: Result<(), Error>, initiator: bool, protocols: &Vec<(String, F)>) -> (next: (
        Negotiation,
        Effect,
    ))
        ensures
            next == after_header(verdict, initiator, table_ids(protocols@)),
    {
        match verdict {
            Err(e) => (Negotiation::Failed(e), Effect::Fail(e)),
            Ok(_) => {
                if initiator {
                    let (p, effect) = Proposer::new(protocols);
                    (Negotiation::Proposing(p), effect)
                } else {
                    let (a, effect) = Acceptor::new();
                    (Negotiation::Accepting(a), effect)
                }
            },
        }
    }
}

/// A peer whose header is not this side's ends the negotiation at once,
/// whatever the role and the table: this side has then written its own header
/// and nothing else, no proposal and no answer.
pub proof fn header_mismatch_is_fatal(
    wire: Wire,
    initiator: bool,
    ids: Seq<Seq<u8>>,
    reply: Seq<u8>,
    rest: Seq<u8>,
)
    requires
        wire.unread == frame(reply) + rest,
        reply != header_id(),
    ensures
        negotiation(wire, initiator, ids) == (
            Err::<nat, Error>(
                if valid_utf8(reply) {
                    Error::UnknownHeaderVersion
                } else {
                    Error::InvalidEncoding
                },
            ),
            Wire { unread: rest, written: wire.written + frame(header_id()) },
        ),
{
    frame_round_trip(reply, rest);
    assert(frame(reply).len() > 0);
}

/// A peer that closes the stream right after its header fails the
/// negotiation because it is gone, not because the stream failed: the
/// responder has then written its header only, the initiator its header and
/// its first proposal.
pub proof fn peer_closed_after_header(wire: Wire, initiator: bool, ids: Seq<Seq<u8>>)
    requires
        wire.unread == frame(header_id()),
        initiator ==> ids.len() > 0,
    ensures
        negotiation(wire, initiator, ids).0 == Err::<nat, Error>(Error::PeerClosedConnection),
        negotiation(wire, initiator, ids).1.written == wire.written + frame(header_id()) + (
        if initiator {
            frame(ids[0])
        } else {
            Seq::<u8>::empty()
        }),
{
    let none = Seq::<u8>::empty();
    assert(wire.unread =~= frame(header_id()) + none);
    frame_round_trip(header_id(), none);
    lemma_fixed_ids_are_utf8();
    assert(frame(header_id()).len() > 0);
    let after = Wire { unread: none, written: wire.written + frame(header_id()) };
    assert(header_exchange(wire) == (Ok::<(), Error>(()), after));
    if initiator {
        closed_stream_fails_proposer(after, ids);
    } else {
        closed_stream_fails_acceptor(after, ids);
        assert(after.written + none =~= after.written);
    }
}

/// What is left of a negotiation once this side's header is written: the
/// peer's header is read and judged, and the proposals or the answers follow.
spec fn greeted(wire: Wire, initiator: bool, ids: Seq<Seq<u8>>) -> (
    Result<nat, Error>,
    Wire,
) {
    match read_message(wire.unread) {
        (Err(e), unread) => (Err(e), Wire { unread, written: wire.written }),
        (Ok(response), unread) => match header_verdict(response) {
            Err(e) => (Err(e), Wire { unread, written: wire.written }),
            Ok(_) => if initiator {
                propose_run(Wire { unread, written: wire.written }, ids)
            } else {
                accept_run(Wire { unread, written: wire.written }, ids)
            },
        },
    }
}

/// What is left of the initiator's run once the proposal at place `i` is
/// written: the answer is read and judged, and the next proposals follow a
/// denial.
spec fn proposed(wire: Wire, ids: Seq<Seq<u8>>, i: nat) -> (Result<nat, Error>, Wire) {
    match read_message(wire.unread) {
        (Err(e), unread) => (Err(e), Wire { unread, written: wire.written }),
        (Ok(None), unread) => (
            Err(Error::PeerClosedConnection),
            Wire { unread, written: wire.written },
        ),
        (Ok(Some(response)), unread) => match response_verdict(ids[i as int], response) {
            Ok(true) => (Ok(i), Wire { unread, written: wire.written }),
            Ok(false) => propose_from(Wire { unread, written: wire.written }, ids, i + 1),
            Err(e) => (Err(e), Wire { unread, written: wire.written }),
        },
    }
}

/// Whether a negotiation in `state`, which asks for `effect` on a stream in
/// state `wire`, still leads to `target`.
spec fn on_course(
    state: Negotiation,
    effect: Effect,
    wire: Wire,
    initiator: bool,
    ids: Seq<Seq<u8>>,
    target: (Result<nat, Error>, Wire),
) -> bool {
    match (state, effect) {
        (Negotiation::Greeting, Effect::Greet) => negotiation(wire, initiator, ids) == target,
        (Negotiation::AwaitingHeader, Effect::Read) => greeted(wire, initiator, ids) == target,
        (Negotiation::Proposing(Proposer::Proposing(i)), Effect::Propose(j)) => i == j && i
            < ids.len() && propose_from(wire, ids, i as nat) == target,
        (Negotiation::Proposing(Proposer::Awaiting(i)), Effect::Read) => i < ids.len() && proposed(
            wire,
            ids,
            i as nat,
        ) == target,
        (Negotiation::Accepting(Acceptor::Ready), Effect::Read) => accept_run(wire, ids) == target,
        (Negotiation::Accepting(Acceptor::Denying), Effect::Deny) => accept_run(
            Wire { unread: wire.unread, written: wire.written + frame(na_id()) },
            ids,
        ) == target,
        (Negotiation::Accepting(Acceptor::Accepting(i)), Effect::Echo(j)) => i == j && i
            < ids.len() && target == (
            Ok::<nat, Error>(i as nat),
            Wire { unread: wire.unread, written: wire.written + frame(ids[i as int]) },
        ),
        (Negotiation::Proposing(Proposer::Done(i)), Effect::Invoke(j)) => i == j && i < ids.len()
            && target == (Ok::<nat, Error>(i as nat), wire),
        (Negotiation::Accepting(Acceptor::Done(i)), Effect::Invoke(j)) => i == j && i < ids.len()
            && target == (Ok::<nat, Error>(i as nat), wire),
        (_, Effect::Fail(e)) => target == (Err::<nat, Error>(e), wire),
        _ => false,
    }
}

/// How far a negotiation that asks for `effect` is from its end: a write is
/// followed by a read or by the end, a read by a shorter stream or by the end.
spec fn distance(effect: Effect, wire: Wire) -> nat {
    3 * wire.unread.len() + match effect {
        Effect::Greet | Effect::Propose(_) | Effect::Echo(_) | Effect::Deny => 2nat,
        Effect::Read => 1nat,
        _ => 0nat,
    }
}

/// Runs a negotiation from its start on `transport`: each thing that the
/// negotiation asks for is done on the stream, and what happened is handed
/// back to it, until it names the protocol agreed on or fails. No handler is
/// called.
pub fn select_protocol<F>(
    transport: &mut Transport,
    initiator: bool,
    protocols: &Vec<(String, F)>,
) -> (r: Result<usize, Error>)
    ensures
        match negotiation(old(transport)@, initiator, table_ids(protocols@)).0 {
            Ok(i) => r matches Ok(k) && k == i && i < protocols@.len(),
            Err(e) => r == Err::<usize, Error>(e),
        },
        final(transport)@ == negotiation(old(transport)@, initiator, table_ids(protocols@)).1,
{
    let ghost ids = table_ids(protocols@);
    let ghost target = negotiation(old(transport)@, initiator, ids);
    let (mut state, mut effect) = Negotiation::start();
    let n = protocols.len();
    loop
        invariant
            ids == table_ids(protocols@),
            n == ids.len(),
            target == negotiation(old(transport)@, initiator, ids),
            on_course(state, effect, transport@, initiator, ids, target),
        decreases distance(effect, transport@),
    {
        let ghost before = transport@;
        let event = match effect {
            Effect::Invoke(i) => {
                return Ok(i);
            },
            Effect::Fail(e) => {
                return Err(e);
            },
            Effect::Stop => {
                return Err(Error::IoFailure);
            },
            Effect::Read => match transport.try_read_lpm() {
                Err(e) => {
                    return Err(e);
                },
                Ok(None) => Event::Closed,
                Ok(Some(msg)) => Event::Received(msg),
            },
            Effect::Greet | Effect::Propose(_) | Effect::Echo(_) | Effect::Deny => {
                let msg = match message(effect, protocols) {
                    Some(msg) => msg,
                    None => {
                        return Err(Error::IoFailure);
                    },
                };
                match transport.write_lpm(msg.as_slice()) {
                    Err(e) => {
                        return Err(e);
                    },
                    Ok(_) => Event::Written,
                }
            },
        };
        let ghost happened = event;
        let next = state.resume(event, initiator, protocols);
        proof {
            lemma_step(state, effect, happened, before, transport@, initiator, ids, target);
        }
        state = next.0;
        effect = next.1;
    }
}

/// One step of a negotiation keeps it on course and brings it nearer to its
/// end: `effect` was done on the stream, which took it from `before` to
/// `after`, and `event` is what happened.
proof fn lemma_step(
    state: Negotiation,
    effect: Effect,
    event: Event,
    before: Wire,
    after: Wire,
    initiator: bool,
    ids: Seq<Seq<u8>>,
    target: (Result<nat, Error>, Wire),
)
    requires
        ids.len() <= usize::MAX,
        on_course(state, effect, before, initiator, ids, target),
        match effect {
            Effect::Read => after.written == before.written && after.unread == read_message(
                before.unread,
            ).1 && (match read_message(before.unread).0 {
                Ok(Some(msg)) => event matches Event::Received(m) && m@ == msg,
                Ok(None) => event is Closed,
                Err(_) => false,
            }),
            Effect::Greet | Effect::Propose(_) | Effect::Echo(_) | Effect::Deny => event is Written
                && after.unread == before.unread && (effect_message(effect, ids) matches Some(msg)
                && after.written == before.written + frame(msg)),
            _ => false,
        },
        negotiation_transition(state, event, initiator, ids).1 matches Effect::Echo(i) ==> i
            < ids.len() && (event matches Event::Received(request) && ids[i as int] == request@
            && position(ids, request@) == Some(i as nat)),
    ensures
        on_course(
            negotiation_transition(state, event, initiator, ids).0,
            negotiation_transition(state, event, initiator, ids).1,
            after,
            initiator,
            ids,
            target,
        ),
        distance(negotiation_transition(state, event, initiator, ids).1, after) < distance(
            effect,
            before,
        ),
{
    match (state, effect) {
        (Negotiation::Proposing(Proposer::Awaiting(i)), Effect::Read) => {
            if i + 1 >= ids.len() {
                assert(propose_from(after, ids, (i + 1) as nat) == (
                    Err::<nat, Error>(Error::NoProtocolNegotiated),
                    after,
                ));
            }
        },
        (Negotiation::AwaitingHeader, Effect::Read) => {
            assert(propose_from(after, ids, ids.len()) == (
                Err::<nat, Error>(Error::NoProtocolNegotiated),
                after,
            ));
        },
        _ => {},
    }
}

/// Two peers agree on the first protocol of the initiator that the responder
/// has. Let the protocol at place `k` of the initiator's table be the first
/// that the responder's table holds. Then what each side writes is what the
/// other reads: the initiator proposes its protocols up to that one, the
/// responder denies the others and echoes that one, and both end with it;
/// what either peer sends after the negotiation is left unread for its
/// handler.
pub proof fn peers_agree(
    offered: Seq<Seq<u8>>,
    served: Seq<Seq<u8>>,
    k: nat,
    after_proposals: Seq<u8>,
    after_answers: Seq<u8>,
)
    requires
        k < offered.len(),
        forall|i: int|
            0 <= i <= k ==> valid_utf8(#[trigger] offered[i]) && offered[i] != ls_id(),
        forall|i: int|
            0 <= i < k ==> #[trigger] offered[i] != na_id() && position(served, offered[i]).is_none(),
        position(served, offered[k as int]).is_some(),
    ensures
        ({
            let proposals = frame(header_id()) + frames(offered.take(k as int + 1));
            let answers = frame(header_id()) + denials(k) + frame(offered[k as int]);
            let none = Seq::<u8>::empty();
            &&& negotiation(Wire { unread: answers + after_answers, written: none }, true, offered)
                == (Ok::<nat, Error>(k), Wire { unread: after_answers, written: proposals })
            &&& negotiation(
                Wire { unread: proposals + after_proposals, written: none },
                false,
                served,
            ) == (
                Ok::<nat, Error>(position(served, offered[k as int]).unwrap()),
                Wire { unread: after_proposals, written: answers },
            )
        }),
{
    let chosen = offered[k as int];
    let head = frame(header_id());
    let none = Seq::<u8>::empty();
    let proposals = head + frames(offered.take(k as int + 1));
    let answers = head + denials(k) + frame(chosen);
    lemma_fixed_ids_are_utf8();
    assert(head.len() > 0);
    assert(none + head =~= head);
    // The initiator.
    let answered = denials(k) + frame(chosen) + after_answers;
    assert(answers + after_answers =~= head + answered);
    frame_round_trip(header_id(), answered);
    accepted_after_denials(Wire { unread: answered, written: head }, offered, k, after_answers);
    // The responder.
    let unknown = offered.take(k as int);
    assert(offered.take(k as int + 1) =~= unknown.push(chosen));
    lemma_frames_push(unknown, chosen);
    let asked = frames(unknown) + frame(chosen) + after_proposals;
    assert(proposals + after_proposals =~= head + asked);
    frame_round_trip(header_id(), asked);
    assert forall|i: int| 0 <= i < unknown.len() implies valid_utf8(#[trigger] unknown[i])
        && unknown[i] != ls_id() && position(served, unknown[i]).is_none() by {
        assert(unknown[i] == offered[i]);
    }
    denies_until_known(
        Wire { unread: asked, written: head },
        served,
        unknown,
        chosen,
        after_proposals,
    );
}

/// The stream is handed over once at most: a negotiation that has asked to
/// hand it over stays as it is and asks for nothing more, whatever happens.
pub proof fn handoff_is_final(
    state: Negotiation,
    event: Event,
    later: Event,
    initiator: bool,
    ids: Seq<Seq<u8>>,
)
    requires
        negotiation_transition(state, event, initiator, ids).1 is Invoke,
    ensures
        negotiation_transition(
            negotiation_transition(state, event, initiator, ids).0,
            later,
            initiator,
            ids,
        ) == (negotiation_transition(state, event, initiator, ids).0, Effect::Stop),
{
}

/// A negotiation in preparation: the stream, the role of this side, and the
/// protocols registered so far, each with its handler.
pub struct Negotiator<F> {
    /// Whether this side proposes; otherwise it answers.
    pub initiator: bool,
    /// The stream to negotiate on.
    pub transport: Transport,
    /// The protocols in the order of their registration.
    pub protocols: Vec<(String, F)>,
}

impl<F> Negotiator<F> {
    /// Begins a negotiation on `transport` with an empty table. The role is
    /// fixed here.
    pub fn start(transport: Transport, initiator: bool) -> (n: Negotiator<F>)
        ensures
            n.initiator == initiator,
            n.transport == transport,
            n.protocols@ == Seq::<(String, F)>::empty(),
    {
        Negotiator { initiator, transport, protocols: Vec::new() }
    }

    /// Registers `protocol` with its handler, after those registered before.
    pub fn negotiate(self, protocol: String, callback: F) -> (n: Negotiator<F>)
        ensures
            n.initiator == self.initiator,
            n.transport == self.transport,
            n.protocols@ == self.protocols@.push((protocol, callback)),
    {
        let mut n = self;
        n.protocols.push((protocol, callback));
        n
    }

    /// Runs the negotiation up to the choice of a protocol and returns the
    /// place of that protocol in the table. No handler is called, and the
    /// stream stays with the negotiator.
    pub fn select(&mut self) -> (r: Result<usize, Error>)
        ensures
            match negotiation(old(self).transport@, old(self).initiator, table_ids(old(self).protocols@)).0 {
                Ok(i) => r matches Ok(k) && k == i && i < old(self).protocols@.len(),
                Err(e) => r == Err::<usize, Error>(e),
            },
            final(self).transport@ == negotiation(
                old(self).transport@,
                old(self).initiator,
                table_ids(old(self).protocols@),
            ).1,
            final(self).initiator == old(self).initiator,
            final(self).protocols == old(self).protocols,
    {
        select_protocol(&mut self.transport, self.initiator, &self.protocols)
    }

    /// Runs the negotiation. The handler of the protocol agreed on gets the
    /// stream, with all that was read ahead, and its result is returned; no
    /// other handler is called, and none where the negotiation fails.
    pub fn finish<R>(self) -> (r: Result<R, Error>) where F: FnOnce(Transport) -> R
        requires
            forall|i: int, t: Transport|
                0 <= i < self.protocols@.len() ==> #[trigger] call_requires(
                    self.protocols@[i].1,
                    (t,),
                ),
        ensures
            match negotiation(self.transport@, self.initiator, table_ids(self.protocols@)) {
                (Ok(i), wire) => r matches Ok(value) && exists|t: Transport|
                    t@ == wire && #[trigger] call_ensures(self.protocols@[i as int].1, (t,), value),
                (Err(e), _) => r matches Err(error) && error == e,
            },
    {
        let mut n = self;
        match n.select() {
            Ok(i) => {
                let Negotiator { initiator: _, transport, protocols } = n;
                let mut table = protocols;
                let (_, handler) = table.swap_remove(i);
                let ghost handed = transport;
                let r = Ok(handler(transport));
                assert(call_ensures(self.protocols@[i as int].1, (handed,), r->Ok_0));
                r
            },
            Err(e) => Err(e),
        }
    }
}

} // verus!
