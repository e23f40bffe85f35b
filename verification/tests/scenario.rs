//! The full negotiation path: two peers, their coordinators and clients, and
//! the relay between them.
use signaling::client::{Dispatch, Signaling};
use signaling::codec::{decode, SessionDescription, SignalPayload};
use signaling::coordinator::{Coordinator, CoordinatorAction, EngineEvent, EngineOp};
use signaling::registry::{Registry, Signal};
use signaling::relay::Connection;

fn b(s: &str) -> Vec<u8> {
    s.as_bytes().to_vec()
}

fn sdp(blob: &str) -> SessionDescription {
    SessionDescription {
        blob: blob.as_bytes().to_vec(),
    }
}

/// Runs `wire` from the sending connection through the relay and hands back
/// what the addressee's write loop takes off its queue.
fn relay_one(
    reg: &mut Registry,
    sender: &Connection,
    receiver_queue: usize,
    wire: Vec<u8>,
) -> Vec<u8> {
    sender.on_inbound(reg, wire);
    match reg.pop_signal(receiver_queue) {
        Some(Signal::Message(m)) => m,
        other => panic!("expected a message, got {:?}", other),
    }
}

#[test]
fn offer_travels_and_the_answer_is_applied_exactly_once() {
    // the relay with both peers connected
    let mut reg = Registry::new();
    let (conn_a, _) = Connection::accept(&mut reg, &b("id=A&secret=test"), &b("test")).unwrap();
    let (conn_b, _) = Connection::accept(&mut reg, &b("id=B&secret=test"), &b("test")).unwrap();

    // each peer's client and coordinator
    let mut client_a = Signaling::new(b("A"));
    let mut client_b = Signaling::new(b("B"));
    client_a.on_connected();
    client_b.on_connected();
    let mut coord_a = Coordinator::new();
    let mut coord_b = Coordinator::new();

    // A intends to connect to B: the engine produces and applies the offer
    assert_eq!(
        coord_a.offer(b("B")),
        CoordinatorAction::Engine(EngineOp::CreateOffer)
    );
    assert_eq!(
        coord_a.on_engine_event(EngineEvent::ProducedDescription(sdp("O"))),
        CoordinatorAction::Engine(EngineOp::SetLocalDescription(sdp("O")))
    );
    let action = coord_a.on_engine_event(EngineEvent::Completed);
    assert_eq!(action, CoordinatorAction::SendOffer(b("B"), sdp("O")));

    // A's outbound carries {to: "B", from: "A", data: Offer(O)}
    client_a.send_offer(b("B"), sdp("O")).unwrap();
    let wire = client_a.next_outbound().unwrap();
    let e = decode(&wire).unwrap();
    assert_eq!(e.to, b("B"));
    assert_eq!(e.from, b("A"));
    assert_eq!(e.data, SignalPayload::Offer(sdp("O")));

    // the relay delivers it to B, raw
    let delivered = relay_one(&mut reg, &conn_a, conn_b.queue, wire.clone());
    assert_eq!(delivered, wire);

    // B's coordinator answers it
    let d = client_b.on_inbound(&delivered);
    assert_eq!(d, Dispatch::Offer(b("A"), sdp("O")));
    assert_eq!(
        coord_b.on_offer(b("A"), sdp("O")),
        CoordinatorAction::Engine(EngineOp::SetRemoteDescription(sdp("O")))
    );
    assert_eq!(
        coord_b.on_engine_event(EngineEvent::Completed),
        CoordinatorAction::Engine(EngineOp::CreateAnswer)
    );
    assert_eq!(
        coord_b.on_engine_event(EngineEvent::ProducedDescription(sdp("Ans"))),
        CoordinatorAction::Engine(EngineOp::SetLocalDescription(sdp("Ans")))
    );
    assert_eq!(
        coord_b.on_engine_event(EngineEvent::Completed),
        CoordinatorAction::SendAnswer(b("A"), sdp("Ans"))
    );

    // B's outbound carries {to: "A", from: "B", data: Answer(Ans)}
    client_b.send_answer(b("A"), sdp("Ans")).unwrap();
    let wire2 = client_b.next_outbound().unwrap();
    let e2 = decode(&wire2).unwrap();
    assert_eq!(e2.to, b("A"));
    assert_eq!(e2.from, b("B"));
    assert_eq!(e2.data, SignalPayload::Answer(sdp("Ans")));

    // the relay delivers it back to A, whose coordinator applies the answer
    let delivered2 = relay_one(&mut reg, &conn_b, conn_a.queue, wire2);
    let d2 = client_a.on_inbound(&delivered2);
    assert_eq!(d2, Dispatch::Answer(b("B"), sdp("Ans")));
    let mut set_remote_answers = 0;
    match coord_a.on_answer(b("B"), sdp("Ans")) {
        CoordinatorAction::Engine(EngineOp::SetRemoteDescription(d)) => {
            assert_eq!(d, sdp("Ans"));
            set_remote_answers += 1;
        }
        other => panic!("unexpected action: {:?}", other),
    }

    // the answer was applied exactly once, and nothing else is in flight
    assert_eq!(set_remote_answers, 1);
    assert_eq!(reg.pop_signal(conn_a.queue), None);
    assert_eq!(reg.pop_signal(conn_b.queue), None);
    assert_eq!(client_a.next_outbound(), None);
    assert_eq!(client_b.next_outbound(), None);
}

#[test]
fn candidates_flow_back_over_the_same_path() {
    let mut reg = Registry::new();
    let (conn_a, _) = Connection::accept(&mut reg, &b("id=A&secret=test"), &b("test")).unwrap();
    let (conn_b, _) = Connection::accept(&mut reg, &b("id=B&secret=test"), &b("test")).unwrap();
    let mut client_a = Signaling::new(b("A"));
    let mut client_b = Signaling::new(b("B"));
    client_a.on_connected();
    client_b.on_connected();

    // B has seen A's offer; B's engine then raises a local candidate
    client_a.send_offer(b("B"), sdp("O")).unwrap();
    let offer_wire = client_a.next_outbound().unwrap();
    client_b.on_inbound(&relay_one(&mut reg, &conn_a, conn_b.queue, offer_wire));
    let cand = signaling::codec::IceCandidate { blob: b("cand") };
    client_b.on_local_candidate(cand.clone());

    // the candidate reaches A addressed by the last-sender heuristic
    let wire = client_b.next_outbound().unwrap();
    let delivered = relay_one(&mut reg, &conn_b, conn_a.queue, wire);
    let d = client_a.on_inbound(&delivered);
    assert_eq!(d, Dispatch::Candidate(b("B"), cand));
}
