use signaling::codec::SessionDescription;
use signaling::coordinator::{Coordinator, CoordinatorAction, EngineEvent, EngineOp};

fn b(s: &str) -> Vec<u8> {
    s.as_bytes().to_vec()
}

fn sdp(blob: &str) -> SessionDescription {
    SessionDescription {
        blob: blob.as_bytes().to_vec(),
    }
}

#[test]
fn offering_runs_create_set_local_send() {
    let mut c = Coordinator::new();
    assert_eq!(
        c.offer(b("B")),
        CoordinatorAction::Engine(EngineOp::CreateOffer)
    );
    assert_eq!(
        c.on_engine_event(EngineEvent::ProducedDescription(sdp("O"))),
        CoordinatorAction::Engine(EngineOp::SetLocalDescription(sdp("O")))
    );
    assert_eq!(
        c.on_engine_event(EngineEvent::Completed),
        CoordinatorAction::SendOffer(b("B"), sdp("O"))
    );
}

#[test]
fn answering_runs_set_remote_create_set_local_send() {
    let mut c = Coordinator::new();
    assert_eq!(
        c.on_offer(b("A"), sdp("O")),
        CoordinatorAction::Engine(EngineOp::SetRemoteDescription(sdp("O")))
    );
    assert_eq!(
        c.on_engine_event(EngineEvent::Completed),
        CoordinatorAction::Engine(EngineOp::CreateAnswer)
    );
    assert_eq!(
        c.on_engine_event(EngineEvent::ProducedDescription(sdp("ans"))),
        CoordinatorAction::Engine(EngineOp::SetLocalDescription(sdp("ans")))
    );
    assert_eq!(
        c.on_engine_event(EngineEvent::Completed),
        CoordinatorAction::SendAnswer(b("A"), sdp("ans"))
    );
}

#[test]
fn engine_failure_abandons_the_negotiation() {
    let mut c = Coordinator::new();
    c.on_offer(b("A"), sdp("O"));
    assert_eq!(
        c.on_engine_event(EngineEvent::Failed),
        CoordinatorAction::NoAction
    );
    // nothing is retried: the next outcome meets no negotiation
    assert_eq!(
        c.on_engine_event(EngineEvent::Completed),
        CoordinatorAction::NoAction
    );
}

#[test]
fn unfitting_outcome_abandons_the_negotiation() {
    let mut c = Coordinator::new();
    c.on_offer(b("A"), sdp("O"));
    assert_eq!(
        c.on_engine_event(EngineEvent::ProducedDescription(sdp("odd"))),
        CoordinatorAction::NoAction
    );
    assert_eq!(
        c.on_engine_event(EngineEvent::Completed),
        CoordinatorAction::NoAction
    );
}

#[test]
fn inbound_answer_is_applied_in_one_step() {
    let mut c = Coordinator::new();
    assert_eq!(
        c.on_answer(b("B"), sdp("ans")),
        CoordinatorAction::Engine(EngineOp::SetRemoteDescription(sdp("ans")))
    );
}

#[test]
fn inbound_candidate_is_added_in_one_step() {
    let mut c = Coordinator::new();
    assert_eq!(
        c.on_ice_candidate(
            b("B"),
            signaling::codec::IceCandidate {
                blob: b("cand")
            }
        ),
        CoordinatorAction::Engine(EngineOp::AddIceCandidate(
            signaling::codec::IceCandidate {
                blob: b("cand")
            }
        ))
    );
}

#[test]
fn outcome_with_no_negotiation_does_nothing() {
    let mut c = Coordinator::new();
    assert_eq!(
        c.on_engine_event(EngineEvent::Completed),
        CoordinatorAction::NoAction
    );
}

#[test]
fn a_new_intent_replaces_the_negotiation_in_flight() {
    let mut c = Coordinator::new();
    c.on_offer(b("A"), sdp("O"));
    assert_eq!(
        c.offer(b("C")),
        CoordinatorAction::Engine(EngineOp::CreateOffer)
    );
    assert_eq!(
        c.on_engine_event(EngineEvent::ProducedDescription(sdp("O2"))),
        CoordinatorAction::Engine(EngineOp::SetLocalDescription(sdp("O2")))
    );
    assert_eq!(
        c.on_engine_event(EngineEvent::Completed),
        CoordinatorAction::SendOffer(b("C"), sdp("O2"))
    );
}
