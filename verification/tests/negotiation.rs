use multistream::accept::{accept, accept_each, decide, Decision};
use multistream::error::Error;
use multistream::lpm::{Transport, WriteLpm};
use multistream::multistream::{negotiate_single, MultiStream};
use multistream::negotiator::{check_header, select_protocol, send_header, Negotiator};
use multistream::propose::{check_response, propose, propose_all, propose_each};
use multistream::protocol::{find_protocol, header, ls, na, same_bytes};
use std::cell::Cell;
use std::rc::Rc;

type Handler = Box<dyn FnOnce(Transport) -> (u32, Transport)>;

const HEADER: &[u8] = b"/multistream/1.0.0";

fn wire(msgs: &[&[u8]]) -> Vec<u8> {
    let mut out: Vec<u8> = Vec::new();
    for m in msgs {
        out.write_lpm(m).unwrap();
    }
    out
}

fn handler(tag: u32, calls: &Rc<Cell<u32>>) -> Handler {
    let calls = calls.clone();
    Box::new(move |t: Transport| {
        calls.set(calls.get() + 1);
        (tag, t)
    })
}

fn table(ids: &[&str], calls: &[Rc<Cell<u32>>]) -> Vec<(String, Handler)> {
    let mut v: Vec<(String, Handler)> = Vec::new();
    for (i, id) in ids.iter().enumerate() {
        v.push((id.to_string(), handler(i as u32, &calls[i])));
    }
    v
}

fn counters(n: usize) -> Vec<Rc<Cell<u32>>> {
    (0..n).map(|_| Rc::new(Cell::new(0))).collect()
}

#[test]
fn fixed_ids() {
    assert_eq!(header(), HEADER.to_vec());
    assert_eq!(na(), b"na".to_vec());
    assert_eq!(ls(), b"ls".to_vec());
}

#[test]
fn same_bytes_compares_content() {
    assert!(same_bytes(b"", b""));
    assert!(same_bytes(b"abc", b"abc"));
    assert!(!same_bytes(b"abc", b"abd"));
    assert!(!same_bytes(b"abc", b"ab"));
    assert!(!same_bytes(b"ab", b"abc"));
}

#[test]
fn find_protocol_takes_the_first_match() {
    let calls = counters(3);
    let t = table(&["/a", "/b", "/a"], &calls);
    assert_eq!(find_protocol(&t, b"/a"), Some(0));
    assert_eq!(find_protocol(&t, b"/b"), Some(1));
    assert_eq!(find_protocol(&t, b"/c"), None);
    assert_eq!(find_protocol(&t, b"/"), None);
}

#[test]
fn check_header_accepts_only_the_header() {
    assert_eq!(check_header(Some(HEADER)), Ok(()));
    assert_eq!(check_header(Some(b"/multistream/2.0.0")), Err(Error::UnknownHeaderVersion));
    assert_eq!(check_header(Some(b"")), Err(Error::UnknownHeaderVersion));
    assert_eq!(check_header(Some(&[0xFF, 0xFE])), Err(Error::InvalidEncoding));
    assert_eq!(check_header(None), Err(Error::PeerClosedConnection));
}

#[test]
fn check_response_tells_echo_denial_and_the_rest() {
    assert_eq!(check_response(b"/a", b"/a"), Ok(true));
    assert_eq!(check_response(b"/a", b"na"), Ok(false));
    assert_eq!(check_response(b"/a", b"/b"), Err(Error::UnexpectedResponse));
    assert_eq!(check_response(b"/a", b""), Err(Error::UnexpectedResponse));
    assert_eq!(check_response(b"/a", &[b'/', 0xC3]), Err(Error::InvalidEncoding));
    assert_eq!(check_response(b"/caf\xC3\xA9", b"/caf\xC3\xA9"), Ok(true));
}

#[test]
fn a_protocol_called_na_is_accepted_by_its_echo() {
    assert_eq!(check_response(b"na", b"na"), Ok(true));
}

#[test]
fn decide_on_requests() {
    let calls = counters(2);
    let t = table(&["/a", "/b"], &calls);
    assert_eq!(decide(b"/b", &t), Decision::Accept(1));
    assert_eq!(decide(b"/a", &t), Decision::Accept(0));
    assert_eq!(decide(b"/x", &t), Decision::Deny);
    assert_eq!(decide(b"na", &t), Decision::Deny);
    assert_eq!(decide(b"ls", &t), Decision::Abort(Error::NotImplemented));
    assert_eq!(decide(&[0x80], &t), Decision::Abort(Error::InvalidEncoding));
}

#[test]
fn a_protocol_called_ls_is_never_served() {
    let calls = counters(1);
    let t = table(&["ls"], &calls);
    assert_eq!(decide(b"ls", &t), Decision::Abort(Error::NotImplemented));
}

#[test]
fn send_header_succeeds_on_the_same_header() {
    let mut t = Transport::new(wire(&[HEADER, b"/a"]));
    assert_eq!(send_header(&mut t), Ok(()));
    assert_eq!(t.writebuf, wire(&[HEADER]));
    assert_eq!(t.readbuf, wire(&[b"/a"]));
}

#[test]
fn header_mismatch_is_fatal() {
    for initiator in [true, false] {
        let calls = counters(2);
        let mut n = Negotiator::start(Transport::new(wire(&[b"/multistream/0.9.0", b"/a"])), initiator);
        for (id, h) in table(&["/a", "/b"], &calls) {
            n = n.negotiate(id, h);
        }
        assert_eq!(n.select(), Err(Error::UnknownHeaderVersion));
        assert_eq!(n.transport.writebuf, wire(&[HEADER]));
        assert_eq!(n.transport.readbuf, wire(&[b"/a"]));
    }
}

#[test]
fn header_mismatch_calls_no_handler() {
    let calls = counters(2);
    let mut n = Negotiator::start(Transport::new(wire(&[b"/other/1.0.0"])), true);
    for (id, h) in table(&["/a", "/b"], &calls) {
        n = n.negotiate(id, h);
    }
    assert_eq!(n.finish().err(), Some(Error::UnknownHeaderVersion));
    assert_eq!(calls[0].get() + calls[1].get(), 0);
}

#[test]
fn header_that_is_not_text_is_refused() {
    let mut t = Transport::new(wire(&[&[0xC0, 0x20]]));
    assert_eq!(send_header(&mut t), Err(Error::InvalidEncoding));
}

#[test]
fn header_missing_is_a_closed_peer() {
    let mut t = Transport::new(Vec::new());
    assert_eq!(send_header(&mut t), Err(Error::PeerClosedConnection));
    assert_eq!(t.writebuf, wire(&[HEADER]));
}

#[test]
fn header_cut_short_is_a_stream_failure() {
    let mut t = Transport::new(wire(&[HEADER])[..5].to_vec());
    assert_eq!(send_header(&mut t), Err(Error::IoFailure));
}

#[test]
fn propose_one_round_trip() {
    let mut t = Transport::new(wire(&[b"na", b"/b"]));
    assert_eq!(propose(&mut t, "/a"), Ok(false));
    assert_eq!(t.writebuf, wire(&[b"/a"]));
    assert_eq!(propose(&mut t, "/b"), Ok(true));
    assert_eq!(t.writebuf, wire(&[b"/a", b"/b"]));
    assert!(t.readbuf.is_empty());
}

#[test]
fn proposer_tries_in_order_and_stops_at_first_acceptance() {
    let calls = counters(2);
    let mut peer = wire(&[HEADER, b"na", b"/B"]);
    peer.extend_from_slice(b"raw bytes of B");
    let n = Negotiator::start(Transport::new(peer), true);
    let mut n = n;
    for (id, h) in table(&["/A", "/B"], &calls) {
        n = n.negotiate(id, h);
    }
    let (tag, t) = n.finish().unwrap();
    assert_eq!(tag, 1);
    assert_eq!(calls[0].get(), 0);
    assert_eq!(calls[1].get(), 1);
    assert_eq!(t.writebuf, wire(&[HEADER, b"/A", b"/B"]));
    assert_eq!(t.readbuf, b"raw bytes of B".to_vec());
}

#[test]
fn proposer_stops_at_the_first_of_two_acceptable() {
    let calls = counters(3);
    let t = Transport::new(wire(&[b"/A", b"/B"]));
    let (tag, t) = propose_all(t, table(&["/A", "/B", "/C"], &calls)).unwrap();
    assert_eq!(tag, 0);
    assert_eq!(t.writebuf, wire(&[b"/A"]));
    assert_eq!(t.readbuf, wire(&[b"/B"]));
    assert_eq!(calls[0].get(), 1);
    assert_eq!(calls[1].get() + calls[2].get(), 0);
}

#[test]
fn proposer_exhausts_its_table() {
    let calls = counters(1);
    let mut t = Transport::new(wire(&[b"na", b"na", b"na"]));
    let protocols = table(&["/A"], &calls);
    assert_eq!(propose_each(&mut t, &protocols), Err(Error::NoProtocolNegotiated));
    assert_eq!(t.writebuf, wire(&[b"/A"]));
    assert_eq!(t.readbuf, wire(&[b"na", b"na"]));
    assert_eq!(calls[0].get(), 0);
}

#[test]
fn proposer_exhausts_a_longer_table() {
    let calls = counters(3);
    let t = Transport::new(wire(&[HEADER, b"na", b"na", b"na"]));
    let mut n = Negotiator::start(t, true);
    for (id, h) in table(&["/A", "/B", "/C"], &calls) {
        n = n.negotiate(id, h);
    }
    assert_eq!(n.select(), Err(Error::NoProtocolNegotiated));
    assert_eq!(n.transport.writebuf, wire(&[HEADER, b"/A", b"/B", b"/C"]));
    assert!(n.transport.readbuf.is_empty());
}

#[test]
fn proposer_with_empty_table_negotiates_nothing() {
    let t = Transport::new(wire(&[b"na"]));
    let r = propose_all(t, Vec::<(String, Handler)>::new());
    assert_eq!(r.err(), Some(Error::NoProtocolNegotiated));
}

#[test]
fn proposer_rejects_unexpected_response() {
    let calls = counters(2);
    let mut t = Transport::new(wire(&[b"/C"]));
    let protocols = table(&["/A", "/B"], &calls);
    assert_eq!(propose_each(&mut t, &protocols), Err(Error::UnexpectedResponse));
    assert_eq!(t.writebuf, wire(&[b"/A"]));
}

#[test]
fn proposer_rejects_response_that_is_not_text() {
    let calls = counters(1);
    let t = Transport::new(wire(&[&[0xFF]]));
    let r = propose_all(t, table(&["/A"], &calls));
    assert_eq!(r.err(), Some(Error::InvalidEncoding));
    assert_eq!(calls[0].get(), 0);
}

#[test]
fn proposer_rejects_malformed_response() {
    let calls = counters(1);
    let t = Transport::new(vec![3u8, b'n', b'a', b'a']);
    let r = propose_all(t, table(&["/A"], &calls));
    assert_eq!(r.err(), Some(Error::MalformedFrame));
}

#[test]
fn acceptor_denies_unknown_then_accepts() {
    let calls = counters(1);
    let mut peer = wire(&[HEADER, b"X", b"A"]);
    peer.extend_from_slice(&[0xDE, 0xAD, 0xBE, 0xEF]);
    let mut n = Negotiator::start(Transport::new(peer), false);
    for (id, h) in table(&["A"], &calls) {
        n = n.negotiate(id, h);
    }
    let (tag, t) = n.finish().unwrap();
    assert_eq!(tag, 0);
    assert_eq!(calls[0].get(), 1);
    assert_eq!(t.writebuf, wire(&[HEADER, b"na", b"A"]));
    assert_eq!(t.readbuf, vec![0xDEu8, 0xAD, 0xBE, 0xEF]);
}

#[test]
fn acceptor_picks_any_entry_of_the_table() {
    let calls = counters(3);
    let t = Transport::new(wire(&[b"/x", b"/y", b"/c", b"/a"]));
    let (tag, t) = accept(t, table(&["/a", "/b", "/c"], &calls)).unwrap();
    assert_eq!(tag, 2);
    assert_eq!(t.writebuf, wire(&[b"na", b"na", b"/c"]));
    assert_eq!(t.readbuf, wire(&[b"/a"]));
    assert_eq!(calls[2].get(), 1);
    assert_eq!(calls[0].get() + calls[1].get(), 0);
}

#[test]
fn acceptor_takes_the_first_of_duplicates() {
    let calls = counters(3);
    let t = Transport::new(wire(&[b"/a"]));
    let (tag, _) = accept(t, table(&["/b", "/a", "/a"], &calls)).unwrap();
    assert_eq!(tag, 1);
    assert_eq!(calls[1].get(), 1);
    assert_eq!(calls[2].get(), 0);
}

#[test]
fn acceptor_fails_when_peer_gives_up() {
    let calls = counters(1);
    let mut t = Transport::new(wire(&[b"/x", b"/y"]));
    let protocols = table(&["/a"], &calls);
    assert_eq!(accept_each(&mut t, &protocols), Err(Error::PeerClosedConnection));
    assert_eq!(t.writebuf, wire(&[b"na", b"na"]));
    assert_eq!(calls[0].get(), 0);
}

#[test]
fn acceptor_does_not_list() {
    let calls = counters(1);
    let mut t = Transport::new(wire(&[b"/x", b"ls", b"/a"]));
    let protocols = table(&["/a"], &calls);
    assert_eq!(accept_each(&mut t, &protocols), Err(Error::NotImplemented));
    assert_eq!(t.writebuf, wire(&[b"na"]));
    assert_eq!(t.readbuf, wire(&[b"/a"]));
}

#[test]
fn acceptor_rejects_request_that_is_not_text() {
    let calls = counters(1);
    let t = Transport::new(wire(&[&[b'/', 0xE2, 0x28]]));
    let r = accept(t, table(&["/a"], &calls));
    assert_eq!(r.err(), Some(Error::InvalidEncoding));
}

#[test]
fn acceptor_rejects_malformed_request() {
    let calls = counters(1);
    let t = Transport::new(vec![3u8, b'/', b'a', b' ']);
    let r = accept(t, table(&["/a"], &calls));
    assert_eq!(r.err(), Some(Error::MalformedFrame));
}

#[test]
fn acceptor_fails_on_a_request_cut_short() {
    let calls = counters(1);
    let t = Transport::new(vec![0xFFu8, 0xFF, 0xFF, 0xFF, 0xFF, 0xFF]);
    let r = accept(t, table(&["/a"], &calls));
    assert_eq!(r.err(), Some(Error::IoFailure));
    let t = Transport::new(vec![0xFFu8, 0xFF, 0xFF, 0xFF, 0xFF, 0x01, b'/', b'a', b'\n']);
    let r = accept(t, table(&["/a"], &calls));
    assert_eq!(r.err(), Some(Error::IoFailure));
    assert_eq!(calls[0].get(), 0);
}

#[test]
fn peer_disconnect_after_header_fails_both_roles() {
    for initiator in [true, false] {
        let calls = counters(1);
        let mut n = Negotiator::start(Transport::new(wire(&[HEADER])), initiator);
        for (id, h) in table(&["/a"], &calls) {
            n = n.negotiate(id, h);
        }
        assert_eq!(n.finish().err(), Some(Error::PeerClosedConnection));
        assert_eq!(calls[0].get(), 0);
    }
}

#[test]
fn negotiator_keeps_registration_order() {
    let calls = counters(3);
    let mut n = Negotiator::start(Transport::new(Vec::new()), true);
    assert!(n.initiator);
    assert!(n.protocols.is_empty());
    for (id, h) in table(&["/z", "/a", "/m"], &calls) {
        n = n.negotiate(id, h);
    }
    let ids: Vec<&str> = n.protocols.iter().map(|p| p.0.as_str()).collect();
    assert_eq!(ids, vec!["/z", "/a", "/m"]);
    assert!(n.initiator);
}

#[test]
fn two_sides_agree() {
    let calls = counters(4);
    // The initiator offers /x, /b; the responder knows /a, /b.
    let responder_in = wire(&[HEADER, b"/x", b"/b"]);
    let mut r = Negotiator::start(Transport::new(responder_in), false);
    for (id, h) in table(&["/a", "/b"], &calls[..2]) {
        r = r.negotiate(id, h);
    }
    let (rtag, rt) = r.finish().unwrap();
    assert_eq!(rtag, 1);
    // What the responder wrote is what the initiator reads.
    let mut i = Negotiator::start(Transport::new(rt.writebuf.clone()), true);
    for (id, h) in table(&["/x", "/b"], &calls[2..]) {
        i = i.negotiate(id, h);
    }
    let (itag, it) = i.finish().unwrap();
    assert_eq!(itag, 1);
    assert_eq!(it.writebuf, wire(&[HEADER, b"/x", b"/b"]));
    assert!(it.readbuf.is_empty());
    assert!(rt.readbuf.is_empty());
}

#[test]
fn each_handler_runs_once_over_many_negotiations() {
    let mut seed: u64 = 0x2545F4914F6CDD1D;
    let mut next = move || {
        seed ^= seed << 13;
        seed ^= seed >> 7;
        seed ^= seed << 17;
        seed
    };
    let names = ["/proto/a", "/proto/b", "/proto/c", "/proto/d", "/proto/e", "/proto/f"];
    for _ in 0..100 {
        let size = 1 + (next() % 6) as usize;
        let chosen = (next() % size as u64) as usize;
        let initiator = next() % 2 == 0;
        let calls = counters(size);
        let mut msgs: Vec<&[u8]> = vec![HEADER];
        if initiator {
            for _ in 0..chosen {
                msgs.push(b"na");
            }
            msgs.push(names[chosen].as_bytes());
        } else {
            let unknown = (next() % 4) as usize;
            for _ in 0..unknown {
                msgs.push(b"/unknown");
            }
            msgs.push(names[chosen].as_bytes());
        }
        let mut n = Negotiator::start(Transport::new(wire(&msgs)), initiator);
        for (id, h) in table(&names[..size], &calls) {
            n = n.negotiate(id, h);
        }
        let (tag, t) = n.finish().unwrap();
        assert_eq!(tag as usize, chosen);
        assert!(t.readbuf.is_empty());
        for (i, c) in calls.iter().enumerate() {
            assert_eq!(c.get(), if i == chosen { 1 } else { 0 });
        }
    }
}

#[test]
fn multistream_negotiates_one_protocol() {
    let mut peer = wire(&[HEADER, b"/echo/1.0.0"]);
    peer.extend_from_slice(b"hi");
    let mut m = MultiStream::negotiate(Transport::new(peer), b"/echo/1.0.0".to_vec()).unwrap();
    assert_eq!(m.protocol, b"/echo/1.0.0".to_vec());
    assert_eq!(m.stream.writebuf, wire(&[HEADER, b"/echo/1.0.0"]));
    let mut got = vec![b'>'];
    assert_eq!(m.read_to_end(&mut got), Ok(2));
    assert_eq!(got, b">hi".to_vec());
    assert!(m.stream.readbuf.is_empty());
    assert_eq!(m.write(b"abc"), Ok(3));
    assert_eq!(m.write_all(b"de"), Ok(()));
    assert_eq!(m.flush(), Ok(()));
    let mut expected = wire(&[HEADER, b"/echo/1.0.0"]);
    expected.extend_from_slice(b"abcde");
    assert_eq!(m.stream.writebuf, expected);
}

#[test]
fn multistream_denied() {
    let r = MultiStream::negotiate(Transport::new(wire(&[HEADER, b"na"])), b"/echo".to_vec());
    assert_eq!(r.err(), Some(Error::NoProtocolNegotiated));
}

#[test]
fn multistream_unexpected_response() {
    let r = MultiStream::negotiate(Transport::new(wire(&[HEADER, b"/other"])), b"/echo".to_vec());
    assert_eq!(r.err(), Some(Error::UnexpectedResponse));
}

#[test]
fn multistream_unknown_header() {
    let r = MultiStream::negotiate(Transport::new(wire(&[b"/multistream/9", b"/echo"])), b"/echo".to_vec());
    assert_eq!(r.err(), Some(Error::UnknownHeaderVersion));
}

#[test]
fn multistream_closed_before_header() {
    let r = MultiStream::negotiate(Transport::new(Vec::new()), b"/echo".to_vec());
    assert_eq!(r.err(), Some(Error::PeerClosedConnection));
}

#[test]
fn multistream_closed_before_answer() {
    let r = MultiStream::negotiate(Transport::new(wire(&[HEADER])), b"/echo".to_vec());
    assert_eq!(r.err(), Some(Error::PeerClosedConnection));
}

#[test]
fn multistream_read_takes_what_fits() {
    let mut peer = wire(&[HEADER, b"/echo"]);
    peer.extend_from_slice(b"hello");
    let mut m = MultiStream::negotiate(Transport::new(peer), b"/echo".to_vec()).unwrap();
    let mut small = [0u8; 3];
    assert_eq!(m.read(&mut small), Ok(3));
    assert_eq!(&small, b"hel");
    let mut large = [b'.'; 4];
    assert_eq!(m.read(&mut large), Ok(2));
    assert_eq!(&large, b"lo..");
    assert_eq!(m.read(&mut large), Ok(0));
    assert_eq!(&large, b"lo..");
}

#[test]
fn multistream_read_exact_fills_or_fails() {
    let mut peer = wire(&[HEADER, b"/echo"]);
    peer.extend_from_slice(b"hello");
    let mut m = MultiStream::negotiate(Transport::new(peer), b"/echo".to_vec()).unwrap();
    let mut four = [0u8; 4];
    assert_eq!(m.read_exact(&mut four), Ok(()));
    assert_eq!(&four, b"hell");
    let mut two = [b'-'; 2];
    assert_eq!(m.read_exact(&mut two), Err(Error::IoFailure));
    assert_eq!(&two, b"--");
    assert_eq!(m.stream.readbuf, b"o".to_vec());
    let mut one = [0u8; 1];
    assert_eq!(m.read_exact(&mut one), Ok(()));
    assert_eq!(&one, b"o");
}

#[test]
fn select_protocol_runs_the_whole_negotiation() {
    let calls = counters(2);
    let protocols = table(&["/a", "/b"], &calls);
    let mut t = Transport::new(wire(&[HEADER, b"na", b"/b", b"rest"]));
    assert_eq!(select_protocol(&mut t, true, &protocols), Ok(1));
    assert_eq!(t.writebuf, wire(&[HEADER, b"/a", b"/b"]));
    assert_eq!(t.readbuf, wire(&[b"rest"]));
    let mut t = Transport::new(wire(&[HEADER, b"/c", b"/a", b"rest"]));
    assert_eq!(select_protocol(&mut t, false, &protocols), Ok(0));
    assert_eq!(t.writebuf, wire(&[HEADER, b"na", b"/a"]));
    assert_eq!(t.readbuf, wire(&[b"rest"]));
    assert_eq!(calls[0].get() + calls[1].get(), 0);
}

#[test]
fn select_protocol_agrees_with_the_two_halves() {
    let calls = counters(3);
    let protocols = table(&["/a", "/b", "/c"], &calls);
    let scripts: Vec<Vec<u8>> = vec![
        wire(&[HEADER]),
        wire(&[HEADER, b"na"]),
        wire(&[HEADER, b"na", b"na", b"na"]),
        wire(&[HEADER, b"/b"]),
        wire(&[HEADER, b"/x", b"/c"]),
        wire(&[HEADER, b"ls"]),
        wire(&[HEADER, &[0xFF]]),
        wire(&[HEADER, b"na"])[..22].to_vec(),
        vec![19u8, b'/'],
        Vec::new(),
    ];
    for script in scripts {
        for initiator in [true, false] {
            let mut whole = Transport::new(script.clone());
            let r = select_protocol(&mut whole, initiator, &protocols);
            let mut halves = Transport::new(script.clone());
            let expected = match send_header(&mut halves) {
                Err(e) => Err(e),
                Ok(()) => {
                    if initiator {
                        propose_each(&mut halves, &protocols)
                    } else {
                        accept_each(&mut halves, &protocols)
                    }
                }
            };
            assert_eq!(r, expected);
            assert_eq!(whole.writebuf, halves.writebuf);
            assert_eq!(whole.readbuf, halves.readbuf);
        }
    }
}

#[test]
fn single_negotiation_writes_the_header_first() {
    let mut t = Transport::new(wire(&[HEADER, b"/echo", b"later"]));
    assert_eq!(negotiate_single(&mut t, b"/echo"), Ok(()));
    assert_eq!(t.writebuf, wire(&[HEADER, b"/echo"]));
    assert_eq!(t.readbuf, wire(&[b"later"]));
}

#[test]
fn single_negotiation_stops_at_a_header_mismatch() {
    let mut t = Transport::new(wire(&[b"/multistream/0.1.0", b"/echo"]));
    assert_eq!(negotiate_single(&mut t, b"/echo"), Err(Error::UnknownHeaderVersion));
    assert_eq!(t.writebuf, wire(&[HEADER]));
    assert_eq!(t.readbuf, wire(&[b"/echo"]));
    let mut t = Transport::new(wire(&[&[0xFF], b"/echo"]));
    assert_eq!(negotiate_single(&mut t, b"/echo"), Err(Error::InvalidEncoding));
    assert_eq!(t.writebuf, wire(&[HEADER]));
}

#[test]
fn single_negotiation_without_a_peer() {
    let mut t = Transport::new(Vec::new());
    assert_eq!(negotiate_single(&mut t, b"/echo"), Err(Error::PeerClosedConnection));
    assert_eq!(t.writebuf, wire(&[HEADER]));
    let mut t = Transport::new(wire(&[HEADER]));
    assert_eq!(negotiate_single(&mut t, b"/echo"), Err(Error::PeerClosedConnection));
    assert_eq!(t.writebuf, wire(&[HEADER, b"/echo"]));
}

#[test]
fn single_negotiation_denied_or_answered_otherwise() {
    let mut t = Transport::new(wire(&[HEADER, b"na", b"x"]));
    assert_eq!(negotiate_single(&mut t, b"/echo"), Err(Error::NoProtocolNegotiated));
    assert_eq!(t.writebuf, wire(&[HEADER, b"/echo"]));
    assert_eq!(t.readbuf, wire(&[b"x"]));
    let mut t = Transport::new(wire(&[HEADER, b"/other"]));
    assert_eq!(negotiate_single(&mut t, b"/echo"), Err(Error::UnexpectedResponse));
    let mut t = Transport::new(wire(&[HEADER, &[0xC1]]));
    assert_eq!(negotiate_single(&mut t, b"/echo"), Err(Error::InvalidEncoding));
}
