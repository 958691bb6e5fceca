use multistream::accept::Acceptor;
use multistream::error::Error;
use multistream::machine::{message, Effect, Event};
use multistream::multistream::Single;
use multistream::negotiator::Negotiation;
use multistream::propose::Proposer;

type Handler = Box<dyn FnOnce(u8) -> u8>;

fn table_of(ids: &[&str]) -> Vec<(String, Handler)> {
    ids.iter().map(|id| (id.to_string(), Box::new(|x: u8| x) as Handler)).collect()
}

fn got(msg: &[u8]) -> Event {
    Event::Received(msg.to_vec())
}

#[test]
fn message_of_each_effect() {
    let t = table_of(&["/a", "/b"]);
    assert_eq!(message(Effect::Greet, &t), Some(b"/multistream/1.0.0".to_vec()));
    assert_eq!(message(Effect::Deny, &t), Some(b"na".to_vec()));
    assert_eq!(message(Effect::Propose(1), &t), Some(b"/b".to_vec()));
    assert_eq!(message(Effect::Echo(0), &t), Some(b"/a".to_vec()));
    assert_eq!(message(Effect::Propose(2), &t), None);
    assert_eq!(message(Effect::Read, &t), None);
    assert_eq!(message(Effect::Invoke(0), &t), None);
    assert_eq!(message(Effect::Fail(Error::IoFailure), &t), None);
    assert_eq!(message(Effect::Stop, &t), None);
}

#[test]
fn acceptor_denies_then_accepts_step_by_step() {
    let t = table_of(&["A"]);
    let (s, e) = Acceptor::new();
    assert_eq!((s, e), (Acceptor::Ready, Effect::Read));
    let (s, e) = s.resume(got(b"X"), &t);
    assert_eq!((s, e), (Acceptor::Denying, Effect::Deny));
    let (s, e) = s.resume(Event::Written, &t);
    assert_eq!((s, e), (Acceptor::Ready, Effect::Read));
    let (s, e) = s.resume(got(b"A"), &t);
    assert_eq!((s, e), (Acceptor::Accepting(0), Effect::Echo(0)));
    let (s, e) = s.resume(Event::Written, &t);
    assert_eq!((s, e), (Acceptor::Done(0), Effect::Invoke(0)));
    let (s, e) = s.resume(Event::Written, &t);
    assert_eq!((s, e), (Acceptor::Done(0), Effect::Stop));
    let (s, e) = s.resume(got(b"A"), &t);
    assert_eq!((s, e), (Acceptor::Done(0), Effect::Stop));
}

#[test]
fn acceptor_fails_on_close_listing_and_bad_text() {
    let t = table_of(&["A"]);
    let closed = Acceptor::Ready.resume(Event::Closed, &t);
    assert_eq!(
        closed,
        (Acceptor::Failed(Error::PeerClosedConnection), Effect::Fail(Error::PeerClosedConnection))
    );
    let listing = Acceptor::Ready.resume(got(b"ls"), &t);
    assert_eq!(
        listing,
        (Acceptor::Failed(Error::NotImplemented), Effect::Fail(Error::NotImplemented))
    );
    let bad = Acceptor::Ready.resume(got(&[0xFF]), &t);
    assert_eq!(
        bad,
        (Acceptor::Failed(Error::InvalidEncoding), Effect::Fail(Error::InvalidEncoding))
    );
    let after = bad.0.resume(got(b"A"), &t);
    assert_eq!(after, (Acceptor::Failed(Error::InvalidEncoding), Effect::Stop));
}

#[test]
fn acceptor_fails_on_an_event_out_of_turn() {
    let t = table_of(&["A"]);
    let early = Acceptor::Ready.resume(Event::Written, &t);
    assert_eq!(early, (Acceptor::Failed(Error::IoFailure), Effect::Fail(Error::IoFailure)));
    let late = Acceptor::Denying.resume(got(b"A"), &t);
    assert_eq!(late, (Acceptor::Failed(Error::IoFailure), Effect::Fail(Error::IoFailure)));
    let closed = Acceptor::Accepting(0).resume(Event::Closed, &t);
    assert_eq!(closed, (Acceptor::Failed(Error::IoFailure), Effect::Fail(Error::IoFailure)));
}

#[test]
fn proposer_goes_through_the_table_step_by_step() {
    let t = table_of(&["/A", "/B"]);
    let (s, e) = Proposer::new(&t);
    assert_eq!((s, e), (Proposer::Proposing(0), Effect::Propose(0)));
    let (s, e) = s.resume(Event::Written, &t);
    assert_eq!((s, e), (Proposer::Awaiting(0), Effect::Read));
    let (s, e) = s.resume(got(b"na"), &t);
    assert_eq!((s, e), (Proposer::Proposing(1), Effect::Propose(1)));
    let (s, e) = s.resume(Event::Written, &t);
    assert_eq!((s, e), (Proposer::Awaiting(1), Effect::Read));
    let (s, e) = s.resume(got(b"/B"), &t);
    assert_eq!((s, e), (Proposer::Done(1), Effect::Invoke(1)));
    let (s, e) = s.resume(got(b"/A"), &t);
    assert_eq!((s, e), (Proposer::Done(1), Effect::Stop));
}

#[test]
fn proposer_fails_after_the_last_denial() {
    let t = table_of(&["/A"]);
    let (s, _) = Proposer::new(&t);
    let (s, _) = s.resume(Event::Written, &t);
    let (s, e) = s.resume(got(b"na"), &t);
    assert_eq!(
        (s, e),
        (Proposer::Failed(Error::NoProtocolNegotiated), Effect::Fail(Error::NoProtocolNegotiated))
    );
}

#[test]
fn proposer_with_empty_table_fails_at_once() {
    let t = table_of(&[]);
    assert_eq!(
        Proposer::new(&t),
        (Proposer::Failed(Error::NoProtocolNegotiated), Effect::Fail(Error::NoProtocolNegotiated))
    );
}

#[test]
fn proposer_fails_on_close_and_on_other_answers() {
    let t = table_of(&["/A", "/B"]);
    assert_eq!(
        Proposer::Awaiting(0).resume(Event::Closed, &t),
        (Proposer::Failed(Error::PeerClosedConnection), Effect::Fail(Error::PeerClosedConnection))
    );
    assert_eq!(
        Proposer::Awaiting(0).resume(got(b"/B"), &t),
        (Proposer::Failed(Error::UnexpectedResponse), Effect::Fail(Error::UnexpectedResponse))
    );
    assert_eq!(
        Proposer::Awaiting(1).resume(got(&[0xC0]), &t),
        (Proposer::Failed(Error::InvalidEncoding), Effect::Fail(Error::InvalidEncoding))
    );
    assert_eq!(
        Proposer::Awaiting(2).resume(got(b"na"), &t),
        (Proposer::Failed(Error::IoFailure), Effect::Fail(Error::IoFailure))
    );
    assert_eq!(
        Proposer::Proposing(0).resume(got(b"na"), &t),
        (Proposer::Failed(Error::IoFailure), Effect::Fail(Error::IoFailure))
    );
}

#[test]
fn negotiation_of_an_initiator_step_by_step() {
    let t = table_of(&["/A", "/B"]);
    let (s, e) = Negotiation::start();
    assert_eq!((s, e), (Negotiation::Greeting, Effect::Greet));
    let (s, e) = s.resume(Event::Written, true, &t);
    assert_eq!((s, e), (Negotiation::AwaitingHeader, Effect::Read));
    let (s, e) = s.resume(got(b"/multistream/1.0.0"), true, &t);
    assert_eq!((s, e), (Negotiation::Proposing(Proposer::Proposing(0)), Effect::Propose(0)));
    let (s, e) = s.resume(Event::Written, true, &t);
    assert_eq!((s, e), (Negotiation::Proposing(Proposer::Awaiting(0)), Effect::Read));
    let (s, e) = s.resume(got(b"/A"), true, &t);
    assert_eq!((s, e), (Negotiation::Proposing(Proposer::Done(0)), Effect::Invoke(0)));
}

#[test]
fn negotiation_of_a_responder_step_by_step() {
    let t = table_of(&["/A"]);
    let (s, _) = Negotiation::start();
    let (s, _) = s.resume(Event::Written, false, &t);
    let (s, e) = s.resume(got(b"/multistream/1.0.0"), false, &t);
    assert_eq!((s, e), (Negotiation::Accepting(Acceptor::Ready), Effect::Read));
    let (s, e) = s.resume(got(b"/B"), false, &t);
    assert_eq!((s, e), (Negotiation::Accepting(Acceptor::Denying), Effect::Deny));
    let (s, e) = s.resume(Event::Written, false, &t);
    assert_eq!((s, e), (Negotiation::Accepting(Acceptor::Ready), Effect::Read));
    let (s, e) = s.resume(got(b"/A"), false, &t);
    assert_eq!((s, e), (Negotiation::Accepting(Acceptor::Accepting(0)), Effect::Echo(0)));
    let (s, e) = s.resume(Event::Written, false, &t);
    assert_eq!((s, e), (Negotiation::Accepting(Acceptor::Done(0)), Effect::Invoke(0)));
}

#[test]
fn negotiation_stops_at_a_bad_header() {
    let t = table_of(&["/A"]);
    for initiator in [true, false] {
        let (s, _) = Negotiation::start();
        let (s, _) = s.resume(Event::Written, initiator, &t);
        let (f, e) = s.resume(got(b"/multistream/1.0.1"), initiator, &t);
        assert_eq!(e, Effect::Fail(Error::UnknownHeaderVersion));
        assert_eq!(f, Negotiation::Failed(Error::UnknownHeaderVersion));
        assert_eq!(f.resume(Event::Written, initiator, &t).1, Effect::Stop);
        let (_, e) = s.resume(Event::Closed, initiator, &t);
        assert_eq!(e, Effect::Fail(Error::PeerClosedConnection));
        let (_, e) = s.resume(got(&[0xF5]), initiator, &t);
        assert_eq!(e, Effect::Fail(Error::InvalidEncoding));
    }
}

#[test]
fn negotiation_fails_on_an_event_out_of_turn() {
    let t = table_of(&["/A"]);
    let (s, e) = Negotiation::Greeting.resume(got(b"/multistream/1.0.0"), true, &t);
    assert_eq!((s, e), (Negotiation::Failed(Error::IoFailure), Effect::Fail(Error::IoFailure)));
    let (s, e) = Negotiation::AwaitingHeader.resume(Event::Written, true, &t);
    assert_eq!((s, e), (Negotiation::Failed(Error::IoFailure), Effect::Fail(Error::IoFailure)));
}

#[test]
fn single_negotiation_step_by_step() {
    let (s, e) = Single::start();
    assert_eq!((s, e), (Single::Greeting, Effect::Greet));
    assert_eq!(Single::message(e, b"/echo"), Some(b"/multistream/1.0.0".to_vec()));
    let (s, e) = s.resume(Event::Written, b"/echo");
    assert_eq!((s, e), (Single::AwaitingHeader, Effect::Read));
    assert_eq!(Single::message(e, b"/echo"), None);
    let (s, e) = s.resume(got(b"/multistream/1.0.0"), b"/echo");
    assert_eq!((s, e), (Single::Proposing, Effect::Propose(0)));
    assert_eq!(Single::message(e, b"/echo"), Some(b"/echo".to_vec()));
    let (s, e) = s.resume(Event::Written, b"/echo");
    assert_eq!((s, e), (Single::AwaitingAnswer, Effect::Read));
    let (s, e) = s.resume(got(b"/echo"), b"/echo");
    assert_eq!((s, e), (Single::Done, Effect::Invoke(0)));
    assert_eq!(s.resume(Event::Closed, b"/echo"), (Single::Done, Effect::Stop));
}

#[test]
fn single_negotiation_fails_step_by_step() {
    let p: &[u8] = b"/echo";
    assert_eq!(
        Single::AwaitingHeader.resume(got(b"/multistream/2.0.0"), p),
        (Single::Failed(Error::UnknownHeaderVersion), Effect::Fail(Error::UnknownHeaderVersion))
    );
    assert_eq!(
        Single::AwaitingHeader.resume(Event::Closed, p),
        (Single::Failed(Error::PeerClosedConnection), Effect::Fail(Error::PeerClosedConnection))
    );
    assert_eq!(
        Single::AwaitingAnswer.resume(got(b"na"), p),
        (Single::Failed(Error::NoProtocolNegotiated), Effect::Fail(Error::NoProtocolNegotiated))
    );
    assert_eq!(
        Single::AwaitingAnswer.resume(got(b"/x"), p),
        (Single::Failed(Error::UnexpectedResponse), Effect::Fail(Error::UnexpectedResponse))
    );
    assert_eq!(
        Single::AwaitingAnswer.resume(Event::Closed, p),
        (Single::Failed(Error::PeerClosedConnection), Effect::Fail(Error::PeerClosedConnection))
    );
    assert_eq!(
        Single::Greeting.resume(got(b"/multistream/1.0.0"), p),
        (Single::Failed(Error::IoFailure), Effect::Fail(Error::IoFailure))
    );
    assert_eq!(
        Single::Failed(Error::IoFailure).resume(Event::Written, p),
        (Single::Failed(Error::IoFailure), Effect::Stop)
    );
}
