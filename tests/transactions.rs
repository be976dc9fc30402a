use std::cell::Cell;
use std::rc::Rc;
use stunny::manager::{random_tid, Expiry, Incoming, Manager};
use stunny::message::{
    attribute, duplicate_tlvs, Class, Indication, Message, PeerAddr, Response, Tlv, TransactionError, TID_LIMIT,
};
use stunny::outstanding::Request;
use stunny::rto::{NoRetransmissionsConstTimeout, RtoPolicy, DEFAULT_RTO};

fn ip(port: u16) -> PeerAddr {
    PeerAddr {
        ip: 0xFFFF_FFFF,
        port,
        is_v6: false,
    }
}

fn v4(a: u8, b: u8, c: u8, d: u8, port: u16) -> PeerAddr {
    PeerAddr {
        ip: u32::from_be_bytes([a, b, c, d]) as u128,
        port,
        is_v6: false,
    }
}

type Sink = &'static str;

fn manager_const(timeout: u64) -> Manager<NoRetransmissionsConstTimeout, Sink> {
    Manager::new(NoRetransmissionsConstTimeout::new(timeout))
}

fn send(
    m: &mut Manager<impl RtoPolicy, Sink>,
    dest: PeerAddr,
    method: u16,
    sink: Sink,
    now: u64,
) -> (Message, PeerAddr) {
    match m.handle_outgoing_request(Request::new(dest, method, vec![attribute()], sink), now) {
        Ok(sent) => sent,
        Err(_) => panic!("no fresh transaction id"),
    }
}

/// A policy that retransmits every `interval` until `attempts` sends were
/// made, and counts the samples it gets.
struct Retransmitting {
    interval: u64,
    attempts: usize,
    samples: Rc<Cell<usize>>,
}

impl RtoPolicy for Retransmitting {
    fn rto_of(&self, destination: PeerAddr, attempts_made: usize, start_time: u64) -> Option<u64> {
        self.calculate_rto(destination, attempts_made, start_time)
    }

    fn sampled(&self, _destination: PeerAddr, _elapsed: u64) -> Self {
        Retransmitting {
            interval: self.interval,
            attempts: self.attempts,
            samples: self.samples.clone(),
        }
    }

    fn calculate_rto(&self, _destination: PeerAddr, attempts_made: usize, _start_time: u64) -> Option<u64> {
        if attempts_made < self.attempts {
            Some(self.interval)
        } else {
            None
        }
    }

    fn submit_rtt(&mut self, _destination: PeerAddr, _elapsed: u64) {
        self.samples.set(self.samples.get() + 1);
    }
}

#[test]
fn single_outgoing_request() {
    let mut m = manager_const(1000);
    let (request, addr) = send(&mut m, ip(1234), 42u16, "caller", 0);
    assert_eq!(addr, ip(1234));
    assert_eq!(request.header.class, Class::Request);
    assert_eq!(request.header.method, 42u16);
    assert_eq!(request.attributes, vec![attribute()]);
    assert_eq!(m.outstanding(), 1);

    let response = Message::response(request.header.method, request.header.transaction_id, vec![attribute()]);
    match m.handle_incoming_message(response, ip(1234), 5) {
        Incoming::Resolved(sink, Ok(Response::Success(attributes))) => {
            assert_eq!(sink, "caller");
            assert_eq!(attributes, vec![attribute()]);
        }
        _ => panic!("expected a successful reply"),
    }
    assert_eq!(m.outstanding(), 0);
    assert_eq!(m.next_timeout(), None);
}

#[test]
fn concurrent_outgoing_requests() {
    let mut m = manager_const(1000);
    let (request1, addr1) = send(&mut m, ip(1111), 42u16, "first", 0);
    let (request2, addr2) = send(&mut m, ip(2222), 43u16, "second", 0);

    assert_eq!(addr1, ip(1111));
    assert_eq!(request1.header.class, Class::Request);
    assert_eq!(request1.header.method, 42u16);
    assert_eq!(request1.attributes, vec![attribute()]);
    assert_eq!(addr2, ip(2222));
    assert_eq!(request2.header.class, Class::Request);
    assert_eq!(request2.header.method, 43u16);
    assert_eq!(request2.attributes, vec![attribute()]);

    let response2 = Message::response(request2.header.method, request2.header.transaction_id, vec![attribute()]);
    match m.handle_incoming_message(response2, ip(2222), 1) {
        Incoming::Resolved(sink, Ok(Response::Success(attributes))) => {
            assert_eq!(sink, "second");
            assert_eq!(attributes, vec![attribute()]);
        }
        _ => panic!("expected a successful reply"),
    }

    let response1 = Message::error(request1.header.method, request1.header.transaction_id, vec![attribute()]);
    match m.handle_incoming_message(response1, ip(1111), 2) {
        Incoming::Resolved(sink, Ok(Response::Error(attributes))) => {
            assert_eq!(sink, "first");
            assert_eq!(attributes, vec![attribute()]);
        }
        _ => panic!("expected an error reply"),
    }
    assert_eq!(m.outstanding(), 0);
}

#[test]
fn happy_path_request_and_reply() {
    let mut m = manager_const(1000);
    let dest = v4(10, 0, 0, 1, 1234);
    let (request, addr) = send(&mut m, dest, 0x0042, "caller", 100);
    assert_eq!(addr, dest);
    assert_eq!(request.header.class, Class::Request);
    assert_eq!(request.header.method, 0x0042);
    assert!(request.header.transaction_id < TID_LIMIT);
    assert_eq!(request.attributes, vec![attribute()]);
    assert_eq!(m.next_timeout(), Some(1100));

    let response = Message::response(0x0042, request.header.transaction_id, vec![attribute()]);
    match m.handle_incoming_message(response, dest, 150) {
        Incoming::Resolved("caller", Ok(Response::Success(attributes))) => {
            assert_eq!(attributes, vec![attribute()])
        }
        _ => panic!("expected a successful reply"),
    }
}

#[test]
fn out_of_order_replies_error_then_success() {
    let mut m = manager_const(1000);
    let (r1, _) = send(&mut m, v4(10, 0, 0, 1, 1111), 0x42, "a", 0);
    let (r2, _) = send(&mut m, v4(10, 0, 0, 1, 2222), 0x43, "b", 0);
    assert_ne!(r1.header.transaction_id, r2.header.transaction_id);

    let e = Message::error(0x43, r2.header.transaction_id, vec![attribute()]);
    assert!(matches!(
        m.handle_incoming_message(e, v4(10, 0, 0, 1, 2222), 1),
        Incoming::Resolved("b", Ok(Response::Error(_)))
    ));
    let s = Message::response(0x42, r1.header.transaction_id, vec![attribute()]);
    assert!(matches!(
        m.handle_incoming_message(s, v4(10, 0, 0, 1, 1111), 2),
        Incoming::Resolved("a", Ok(Response::Success(_)))
    ));
}

#[test]
fn orphan_response_changes_nothing() {
    let mut m = manager_const(1000);
    let msg = Message::response(0x0001, random_tid(), vec![]);
    assert!(matches!(
        m.handle_incoming_message(msg, v4(1, 2, 3, 4, 5), 0),
        Incoming::Orphaned
    ));
    assert_eq!(m.outstanding(), 0);
    assert_eq!(m.next_timeout(), None);
}

#[test]
fn reply_from_unexpected_source_is_discarded() {
    let mut m = manager_const(1000);
    let (r, _) = send(&mut m, v4(1, 1, 1, 1, 1), 0x0001, "caller", 0);
    let reply = Message::response(0x0001, r.header.transaction_id, vec![]);
    assert!(matches!(
        m.handle_incoming_message(reply, v4(2, 2, 2, 2, 2), 10),
        Incoming::UnexpectedSource
    ));
    assert_eq!(m.outstanding(), 1);
    assert_eq!(m.next_timeout(), Some(1000));

    assert!(m.handle_timeouts(999).is_empty());
    let expired = m.handle_timeouts(1000);
    assert_eq!(expired.len(), 1);
    assert!(matches!(expired[0].1, Expiry::TimedOut("caller")));
    assert_eq!(m.outstanding(), 0);
}

#[test]
fn method_mismatch_ends_transaction() {
    let mut m = manager_const(1000);
    let dest = v4(10, 0, 0, 1, 1234);
    let (r, _) = send(&mut m, dest, 0x0042, "caller", 0);
    let reply = Message::response(0x0043, r.header.transaction_id, vec![]);
    match m.handle_incoming_message(reply, dest, 1) {
        Incoming::Resolved("caller", Err(e)) => assert_eq!(
            e,
            TransactionError::MethodMismatch {
                request_method: 0x0042,
                response_method: 0x0043
            }
        ),
        _ => panic!("expected a method mismatch"),
    }
    assert_eq!(m.outstanding(), 0);
}

#[test]
fn retransmissions_follow_policy_without_rtt_samples() {
    let samples = Rc::new(Cell::new(0));
    let mut m: Manager<Retransmitting, Sink> = Manager::new(Retransmitting {
        interval: 50,
        attempts: 3,
        samples: samples.clone(),
    });
    let dest = v4(10, 0, 0, 1, 1234);
    let (first, _) = send(&mut m, dest, 0x0001, "caller", 0);
    assert_eq!(m.next_timeout(), Some(50));

    let out = m.handle_timeouts(50);
    assert_eq!(out.len(), 1);
    assert_eq!(out[0].0, first.header.transaction_id);
    match &out[0].1 {
        Expiry::Retransmit(msg, addr) => {
            assert_eq!(*addr, dest);
            assert_eq!(msg.header, first.header);
            assert_eq!(msg.attributes, first.attributes);
        }
        _ => panic!("expected a retransmission"),
    }
    assert_eq!(m.next_timeout(), Some(100));

    let out = m.handle_timeouts(100);
    assert!(matches!(&out[..], [(_, Expiry::Retransmit(_, _))]));
    assert_eq!(m.next_timeout(), Some(150));

    let out = m.handle_timeouts(150);
    assert!(matches!(&out[..], [(_, Expiry::TimedOut("caller"))]));
    assert_eq!(m.outstanding(), 0);
    assert_eq!(samples.get(), 0);
}

#[test]
fn policy_giving_up_on_second_attempt_times_out_after_two_waits() {
    let samples = Rc::new(Cell::new(0));
    let mut m: Manager<Retransmitting, Sink> = Manager::new(Retransmitting {
        interval: 50,
        attempts: 2,
        samples: samples.clone(),
    });
    let _ = send(&mut m, v4(10, 0, 0, 1, 1234), 0x0001, "caller", 0);
    assert!(matches!(&m.handle_timeouts(50)[..], [(_, Expiry::Retransmit(_, _))]));
    assert_eq!(m.next_timeout(), Some(100));
    assert!(matches!(&m.handle_timeouts(100)[..], [(_, Expiry::TimedOut("caller"))]));
    assert_eq!(samples.get(), 0);
}

#[test]
fn retransmitted_reply_gives_no_rtt_sample() {
    let samples = Rc::new(Cell::new(0));
    let mut m: Manager<Retransmitting, Sink> = Manager::new(Retransmitting {
        interval: 50,
        attempts: 3,
        samples: samples.clone(),
    });
    let dest = v4(10, 0, 0, 1, 1);
    let (r, _) = send(&mut m, dest, 1, "caller", 0);
    assert_eq!(m.handle_timeouts(50).len(), 1);
    let reply = Message::response(1, r.header.transaction_id, vec![]);
    assert!(matches!(
        m.handle_incoming_message(reply, dest, 60),
        Incoming::Resolved("caller", Ok(_))
    ));
    assert_eq!(samples.get(), 0);
}

#[test]
fn first_attempt_reply_gives_one_rtt_sample() {
    let samples = Rc::new(Cell::new(0));
    let mut m: Manager<Retransmitting, Sink> = Manager::new(Retransmitting {
        interval: 50,
        attempts: 3,
        samples: samples.clone(),
    });
    let dest = v4(10, 0, 0, 1, 1);
    let (r, _) = send(&mut m, dest, 1, "caller", 0);
    let reply = Message::response(1, r.header.transaction_id, vec![]);
    assert!(matches!(
        m.handle_incoming_message(reply, dest, 20),
        Incoming::Resolved("caller", Ok(_))
    ));
    assert_eq!(samples.get(), 1);
    // the same reply again finds nothing and samples nothing
    let again = Message::response(1, r.header.transaction_id, vec![]);
    assert!(matches!(m.handle_incoming_message(again, dest, 30), Incoming::Orphaned));
    assert_eq!(samples.get(), 1);
}

#[test]
fn const_timeout_expires_at_start_plus_timeout() {
    let mut m = manager_const(300);
    let _ = send(&mut m, v4(10, 0, 0, 1, 1), 1, "caller", 1000);
    assert_eq!(m.next_timeout(), Some(1300));
    assert!(m.handle_timeouts(1299).is_empty());
    assert!(matches!(&m.handle_timeouts(1300)[..], [(_, Expiry::TimedOut("caller"))]));
}

#[test]
fn policy_without_answer_falls_back_to_default_timeout() {
    let mut m: Manager<Retransmitting, Sink> = Manager::new(Retransmitting {
        interval: 50,
        attempts: 0,
        samples: Rc::new(Cell::new(0)),
    });
    let _ = send(&mut m, v4(10, 0, 0, 1, 1), 1, "caller", 10);
    assert_eq!(DEFAULT_RTO, 1500);
    assert_eq!(m.next_timeout(), Some(1510));
}

#[test]
fn deadline_saturates_at_largest_time() {
    let mut m = manager_const(u64::MAX);
    let _ = send(&mut m, v4(10, 0, 0, 1, 1), 1, "caller", 5);
    assert_eq!(m.next_timeout(), Some(u64::MAX));
}

#[test]
fn earliest_timeout_is_handled_first() {
    let mut m: Manager<NoRetransmissionsConstTimeout, Sink> = manager_const(100);
    let _ = send(&mut m, v4(10, 0, 0, 1, 1), 1, "late", 50);
    let _ = send(&mut m, v4(10, 0, 0, 1, 2), 1, "early", 0);
    assert_eq!(m.next_timeout(), Some(100));
    let out = m.handle_timeouts(200);
    assert!(matches!(&out[..], [(_, Expiry::TimedOut("early")), (_, Expiry::TimedOut("late"))]));
}

#[test]
fn inbound_request_is_ignored() {
    let mut m = manager_const(1000);
    let _ = send(&mut m, v4(10, 0, 0, 1, 1), 1, "caller", 0);
    let msg = Message::request(1, random_tid(), vec![]);
    assert!(matches!(m.handle_incoming_message(msg, v4(10, 0, 0, 1, 1), 1), Incoming::Ignored));
    assert_eq!(m.outstanding(), 1);
}

#[test]
fn inbound_indication_is_forwarded() {
    let mut m = manager_const(1000);
    let msg = Message::indication(7, random_tid(), vec![attribute()]);
    match m.handle_incoming_message(msg, v4(9, 9, 9, 9, 9), 0) {
        Incoming::Indication(ind) => {
            assert_eq!(ind.farend_addr, v4(9, 9, 9, 9, 9));
            assert_eq!(ind.method, 7);
            assert_eq!(ind.attributes, vec![attribute()]);
        }
        _ => panic!("expected an indication"),
    }
}

#[test]
fn outgoing_indication_records_nothing() {
    let m = manager_const(1000);
    let (msg, addr) = m.handle_outgoing_indication(Indication {
        farend_addr: v4(3, 3, 3, 3, 3),
        method: 0x11,
        attributes: vec![attribute()],
    });
    assert_eq!(msg.header.class, Class::Indication);
    assert_eq!(msg.header.method, 0x11);
    assert_eq!(msg.attributes, vec![attribute()]);
    assert_eq!(addr, v4(3, 3, 3, 3, 3));
    assert_eq!(m.outstanding(), 0);
    assert_eq!(m.next_timeout(), None);
}

#[test]
fn close_hands_back_every_sink() {
    let mut m = manager_const(1000);
    let _ = send(&mut m, v4(10, 0, 0, 1, 1), 1, "a", 0);
    let _ = send(&mut m, v4(10, 0, 0, 1, 2), 1, "b", 0);
    let mut sinks = m.close();
    sinks.sort();
    assert_eq!(sinks, vec!["a", "b"]);
    assert_eq!(m.outstanding(), 0);
    assert_eq!(m.next_timeout(), None);
}

#[test]
fn outstanding_requests_match_pending_timeouts() {
    let mut m = manager_const(100);
    assert_eq!((m.outstanding(), m.pending()), (0, 0));
    let (r1, _) = send(&mut m, v4(10, 0, 0, 1, 1), 1, "a", 0);
    let _ = send(&mut m, v4(10, 0, 0, 1, 2), 1, "b", 50);
    assert_eq!((m.outstanding(), m.pending()), (2, 2));
    let reply = Message::response(1, r1.header.transaction_id, vec![]);
    let _ = m.handle_incoming_message(reply, v4(9, 9, 9, 9, 9), 10);
    assert_eq!((m.outstanding(), m.pending()), (2, 2));
    let reply = Message::response(1, r1.header.transaction_id, vec![]);
    let _ = m.handle_incoming_message(reply, v4(10, 0, 0, 1, 1), 10);
    assert_eq!((m.outstanding(), m.pending()), (1, 1));
    let _ = m.handle_timeouts(150);
    assert_eq!((m.outstanding(), m.pending()), (0, 0));
}

#[test]
fn zero_wait_resend_waits_for_next_call() {
    let mut m: Manager<Retransmitting, Sink> = Manager::new(Retransmitting {
        interval: 0,
        attempts: 3,
        samples: Rc::new(Cell::new(0)),
    });
    let _ = send(&mut m, v4(10, 0, 0, 1, 1), 1, "caller", 10);
    assert!(matches!(&m.handle_timeouts(10)[..], [(_, Expiry::Retransmit(_, _))]));
    assert_eq!(m.next_timeout(), Some(10));
    assert!(matches!(&m.handle_timeouts(10)[..], [(_, Expiry::Retransmit(_, _))]));
    assert!(matches!(&m.handle_timeouts(10)[..], [(_, Expiry::TimedOut("caller"))]));
}

#[test]
fn shutdown_waits_for_queues_and_transactions() {
    let mut m = manager_const(100);
    assert!(m.may_shut_down(false, false));
    assert!(!m.may_shut_down(true, false));
    assert!(!m.may_shut_down(false, true));
    let _ = send(&mut m, v4(10, 0, 0, 1, 1), 1, "caller", 0);
    assert!(!m.may_shut_down(false, false));
}

#[test]
fn const_timeout_ends_every_due_request() {
    let mut m = manager_const(100);
    let _ = send(&mut m, v4(10, 0, 0, 1, 1), 1, "a", 0);
    let _ = send(&mut m, v4(10, 0, 0, 1, 2), 1, "b", 20);
    let _ = send(&mut m, v4(10, 0, 0, 1, 3), 1, "c", 90);
    let out = m.handle_timeouts(120);
    assert!(matches!(&out[..], [(_, Expiry::TimedOut("a")), (_, Expiry::TimedOut("b"))]));
    assert_eq!(m.outstanding(), 1);
    assert_eq!(m.next_timeout(), Some(190));
}

#[test]
fn random_tids_fit_in_96_bits() {
    for _ in 0..100 {
        assert!(random_tid() < TID_LIMIT);
    }
    assert_ne!(random_tid(), random_tid());
}

#[test]
fn attributes_are_copied_in_order() {
    let v = vec![
        attribute(),
        Tlv {
            attribute_type: 1,
            value: vec![1, 2, 3],
        },
    ];
    let c = duplicate_tlvs(&v);
    assert_eq!(c, v);
    assert_ne!(c[0], c[1]);
}

#[test]
fn sample_attribute_holds_ugh() {
    let a = attribute();
    assert_eq!(a.attribute_type, 0x8022);
    assert_eq!(a.value, b"Ugh!".to_vec());
}

#[test]
fn const_policy_answers() {
    let p = NoRetransmissionsConstTimeout::new(250);
    assert_eq!(p.calculate_rto(ip(1), 0, 0), Some(250));
    assert_eq!(p.calculate_rto(ip(1), 1, 0), None);
    assert_eq!(p.calculate_rto(ip(1), 5, 0), None);
}
