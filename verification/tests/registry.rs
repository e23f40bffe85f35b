use signaling::registry::{Registry, SendOutcome, Signal};

fn b(s: &str) -> Vec<u8> {
    s.as_bytes().to_vec()
}

#[test]
fn send_to_unregistered_is_silently_dropped() {
    let mut reg = Registry::new();
    let out = reg.send(&b("nobody"), b("payload"));
    assert_eq!(out, SendOutcome::NoRoute);
    assert_eq!(reg.entry_count(), 0);
}

#[test]
fn send_delivers_in_order_unmodified() {
    let mut reg = Registry::new();
    let q = reg.create_queue();
    reg.register(b("B"), q);
    assert_eq!(reg.send(&b("B"), b("first")), SendOutcome::Delivered(q));
    assert_eq!(reg.send(&b("B"), b("second")), SendOutcome::Delivered(q));
    let queue = reg.queue(q);
    assert_eq!(queue.signals.len(), 2);
    assert_eq!(queue.signals[0], Signal::Message(b("first")));
    assert_eq!(queue.signals[1], Signal::Message(b("second")));
}

#[test]
fn reregistration_displaces_with_exactly_one_closed() {
    let mut reg = Registry::new();
    let q1 = reg.create_queue();
    assert_eq!(reg.register(b("X"), q1), None);
    let q2 = reg.create_queue();
    assert_eq!(reg.register(b("X"), q2), Some(q1));
    let old = reg.queue(q1);
    assert_eq!(old.signals.len(), 1);
    assert_eq!(old.signals[0], Signal::Closed);
    assert_eq!(reg.route(&b("X")), Some(q2));
    assert_eq!(reg.entry_count(), 1);
}

#[test]
fn displaced_queue_receives_no_further_messages() {
    let mut reg = Registry::new();
    let q1 = reg.create_queue();
    reg.register(b("X"), q1);
    let q2 = reg.create_queue();
    reg.register(b("X"), q2);
    assert_eq!(reg.send(&b("X"), b("m")), SendOutcome::Delivered(q2));
    assert_eq!(reg.queue(q1).signals.len(), 1);
    assert_eq!(reg.queue(q1).signals[0], Signal::Closed);
    assert_eq!(reg.queue(q2).signals.len(), 1);
    assert_eq!(reg.queue(q2).signals[0], Signal::Message(b("m")));
}

#[test]
fn send_to_closed_queue_does_not_disturb_sender() {
    let mut reg = Registry::new();
    let q = reg.create_queue();
    reg.register(b("B"), q);
    reg.close_queue(q);
    assert_eq!(reg.send(&b("B"), b("m")), SendOutcome::ChannelClosed);
    assert_eq!(reg.queue(q).signals.len(), 0);
}

#[test]
fn unregister_only_removes_the_matching_handle() {
    let mut reg = Registry::new();
    let q1 = reg.create_queue();
    reg.register(b("X"), q1);
    let other = reg.create_queue();
    reg.unregister(&b("X"), other);
    assert_eq!(reg.route(&b("X")), Some(q1));
    reg.unregister(&b("X"), q1);
    assert_eq!(reg.route(&b("X")), None);
}

#[test]
fn distinct_ids_route_independently() {
    let mut reg = Registry::new();
    let qa = reg.create_queue();
    reg.register(b("A"), qa);
    let qb = reg.create_queue();
    reg.register(b("B"), qb);
    assert_eq!(reg.entry_count(), 2);
    assert_eq!(reg.send(&b("A"), b("to-a")), SendOutcome::Delivered(qa));
    assert_eq!(reg.queue(qb).signals.len(), 0);
    assert_eq!(reg.queue(qa).signals.len(), 1);
}
