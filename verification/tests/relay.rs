use signaling::codec::{encode, Envelope, SessionDescription, SignalPayload};
use signaling::registry::{Registry, SendOutcome, Signal};
use signaling::relay::{
    authenticate, connect_query, AuthError, Connection, ConnectionPhase, InboundOutcome,
};

fn b(s: &str) -> Vec<u8> {
    s.as_bytes().to_vec()
}

fn offer_to(to: &str, from: &str) -> Vec<u8> {
    encode(&Envelope {
        to: b(to),
        from: b(from),
        data: SignalPayload::Offer(SessionDescription { blob: b("O") }),
    })
}

#[test]
fn authenticate_accepts_matching_secret() {
    assert_eq!(
        authenticate(&b("id=alice&secret=test"), &b("test")).unwrap(),
        b("alice")
    );
}

#[test]
fn authenticate_rejects_missing_id() {
    assert_eq!(
        authenticate(&b("secret=test"), &b("test")).unwrap_err(),
        AuthError::MissingId
    );
}

#[test]
fn authenticate_rejects_missing_secret() {
    assert_eq!(
        authenticate(&b("id=alice"), &b("test")).unwrap_err(),
        AuthError::MissingSecret
    );
}

#[test]
fn authenticate_rejects_wrong_secret() {
    assert_eq!(
        authenticate(&b("id=alice&secret=wrong"), &b("test")).unwrap_err(),
        AuthError::WrongSecret
    );
}

#[test]
fn authenticate_takes_the_last_binding() {
    assert_eq!(
        authenticate(&b("id=a&id=c&secret=test"), &b("test")).unwrap(),
        b("c")
    );
}

#[test]
fn authenticate_reads_value_up_to_second_equals() {
    assert_eq!(
        authenticate(&b("id=a=zz&secret=test"), &b("test")).unwrap(),
        b("a")
    );
}

#[test]
fn authenticate_skips_items_without_equals() {
    assert_eq!(
        authenticate(&b("junk&id=a&secret=test"), &b("test")).unwrap(),
        b("a")
    );
}

#[test]
fn connect_query_authenticates_at_the_server() {
    let q = connect_query(&b("me"), &b("s3cr3t"));
    assert_eq!(q, b("id=me&secret=s3cr3t"));
    assert_eq!(authenticate(&q, &b("s3cr3t")).unwrap(), b("me"));
}

#[test]
fn rejected_handshake_leaves_no_registration() {
    let mut reg = Registry::new();
    let r = Connection::accept(&mut reg, &b("id=x&secret=wrong"), &b("test"));
    assert_eq!(r.unwrap_err(), AuthError::WrongSecret);
    assert_eq!(reg.route(&b("x")), None);
    assert_eq!(reg.entry_count(), 0);
    assert_eq!(reg.queue_count(), 0);
}

#[test]
fn accepted_handshake_registers_the_peer() {
    let mut reg = Registry::new();
    let (c, displaced) = Connection::accept(&mut reg, &b("id=x&secret=test"), &b("test")).unwrap();
    assert_eq!(displaced, None);
    assert_eq!(c.phase, ConnectionPhase::Active);
    assert_eq!(c.id, b("x"));
    assert_eq!(reg.route(&b("x")), Some(c.queue));
}

#[test]
fn inbound_envelope_is_forwarded_raw() {
    let mut reg = Registry::new();
    let (ca, _) = Connection::accept(&mut reg, &b("id=A&secret=test"), &b("test")).unwrap();
    let (cb, _) = Connection::accept(&mut reg, &b("id=B&secret=test"), &b("test")).unwrap();
    let raw = offer_to("B", "A");
    match ca.on_inbound(&mut reg, raw.clone()) {
        InboundOutcome::Forwarded(SendOutcome::Delivered(h)) => assert_eq!(h, cb.queue),
        other => panic!("unexpected outcome: {:?}", other),
    }
    let queue = reg.queue(cb.queue);
    assert_eq!(queue.signals.len(), 1);
    assert_eq!(queue.signals[0], Signal::Message(raw));
}

#[test]
fn inbound_to_absent_peer_is_dropped_without_error() {
    let mut reg = Registry::new();
    let (ca, _) = Connection::accept(&mut reg, &b("id=A&secret=test"), &b("test")).unwrap();
    let out = ca.on_inbound(&mut reg, offer_to("nobody", "A"));
    assert_eq!(out, InboundOutcome::Forwarded(SendOutcome::NoRoute));
}

#[test]
fn malformed_inbound_is_dropped_without_effect() {
    let mut reg = Registry::new();
    let (ca, _) = Connection::accept(&mut reg, &b("id=A&secret=test"), &b("test")).unwrap();
    let (cb, _) = Connection::accept(&mut reg, &b("id=B&secret=test"), &b("test")).unwrap();
    let out = ca.on_inbound(&mut reg, b("{not an envelope"));
    assert_eq!(out, InboundOutcome::DroppedMalformed);
    assert_eq!(reg.queue(cb.queue).signals.len(), 0);
    assert_eq!(reg.queue(ca.queue).signals.len(), 0);
}

#[test]
fn message_signal_is_written_through() {
    let mut reg = Registry::new();
    let (mut c, _) = Connection::accept(&mut reg, &b("id=A&secret=test"), &b("test")).unwrap();
    let out = c.on_signal(Signal::Message(b("w")));
    assert_eq!(out, Some(b("w")));
    assert_eq!(c.phase, ConnectionPhase::Active);
}

#[test]
fn closed_signal_starts_closing() {
    let mut reg = Registry::new();
    let (mut c, _) = Connection::accept(&mut reg, &b("id=A&secret=test"), &b("test")).unwrap();
    assert_eq!(c.on_signal(Signal::Closed), None);
    assert_eq!(c.phase, ConnectionPhase::Closing);
}

#[test]
fn close_releases_the_registration() {
    let mut reg = Registry::new();
    let (mut c, _) = Connection::accept(&mut reg, &b("id=A&secret=test"), &b("test")).unwrap();
    c.start_closing();
    c.close(&mut reg);
    assert_eq!(c.phase, ConnectionPhase::Terminated);
    assert_eq!(reg.route(&b("A")), None);
    assert!(!reg.queue(c.queue).open);
}

#[test]
fn displaced_connection_closes_without_unregistering_the_new_holder() {
    let mut reg = Registry::new();
    let (mut c1, _) = Connection::accept(&mut reg, &b("id=X&secret=test"), &b("test")).unwrap();
    let (c2, _) = Connection::accept(&mut reg, &b("id=X&secret=test"), &b("test")).unwrap();

    // the displaced connection's queue holds exactly the termination order
    let old = reg.queue(c1.queue);
    assert_eq!(old.signals.len(), 1);
    assert_eq!(old.signals[0], Signal::Closed);

    // its write loop sees `Closed`, reaches Closing and tears down
    assert_eq!(c1.on_signal(Signal::Closed), None);
    assert_eq!(c1.phase, ConnectionPhase::Closing);
    c1.close(&mut reg);

    // the new holder keeps the identifier, and the old queue stays quiet
    assert_eq!(reg.route(&b("X")), Some(c2.queue));
    assert_eq!(reg.send(&b("X"), b("m")), SendOutcome::Delivered(c2.queue));
    assert_eq!(reg.queue(c1.queue).signals.len(), 1);
}
