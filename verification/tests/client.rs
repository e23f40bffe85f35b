use signaling::client::{CandidateFate, Dispatch, Signaler, Signaling};
use signaling::codec::{decode, encode, Envelope, IceCandidate, SessionDescription, SignalPayload};

fn b(s: &str) -> Vec<u8> {
    s.as_bytes().to_vec()
}

fn sdp(blob: &str) -> SessionDescription {
    SessionDescription { blob: b(blob) }
}

fn inbound(to: &str, from: &str, data: SignalPayload) -> Vec<u8> {
    encode(&Envelope {
        to: b(to),
        from: b(from),
        data,
    })
}

#[test]
fn send_before_connect_is_refused() {
    let mut c = Signaling::new(b("A"));
    assert!(c.send_offer(b("B"), sdp("O")).is_err());
}

#[test]
fn send_after_disconnect_is_refused() {
    let mut c = Signaling::new(b("A"));
    c.on_connected();
    c.on_disconnected();
    assert!(c.send_answer(b("B"), sdp("ans")).is_err());
}

#[test]
fn outgoing_offer_is_tagged_with_the_local_id() {
    let mut c = Signaling::new(b("A"));
    c.on_connected();
    c.send_offer(b("B"), sdp("O")).unwrap();
    let wire = c.next_outbound().unwrap();
    let e = decode(&wire).unwrap();
    assert_eq!(e.to, b("B"));
    assert_eq!(e.from, b("A"));
    assert_eq!(e.data, SignalPayload::Offer(sdp("O")));
}

#[test]
fn outgoing_messages_keep_their_order() {
    let mut c = Signaling::new(b("A"));
    c.on_connected();
    c.send_offer(b("B"), sdp("O")).unwrap();
    c.send_ice_candidate(b("B"), IceCandidate { blob: b("c1") })
        .unwrap();
    let first = decode(&c.next_outbound().unwrap()).unwrap();
    let second = decode(&c.next_outbound().unwrap()).unwrap();
    assert_eq!(first.data, SignalPayload::Offer(sdp("O")));
    assert_eq!(
        second.data,
        SignalPayload::Candidate(IceCandidate { blob: b("c1") })
    );
    assert_eq!(c.next_outbound(), None);
}

#[test]
fn nothing_queued_means_nothing_to_write() {
    let mut c = Signaling::new(b("A"));
    assert_eq!(c.next_outbound(), None);
}

#[test]
fn last_sender_starts_unset() {
    let c = Signaling::new(b("A"));
    assert_eq!(c.get_last_to(), None);
}

#[test]
fn inbound_envelope_updates_the_last_sender() {
    let mut c = Signaling::new(b("A"));
    let d = c.on_inbound(&inbound("A", "B", SignalPayload::Offer(sdp("O"))));
    assert_eq!(d, Dispatch::Offer(b("B"), sdp("O")));
    assert_eq!(c.get_last_to(), Some(b("B")));
}

#[test]
fn malformed_inbound_is_ignored() {
    let mut c = Signaling::new(b("A"));
    let d = c.on_inbound(&b("payload"));
    assert_eq!(d, Dispatch::Ignored);
    assert_eq!(c.get_last_to(), None);
}

#[test]
fn local_candidate_goes_to_the_last_inbound_sender() {
    let mut c = Signaling::new(b("A"));
    c.on_connected();
    c.on_inbound(&inbound("A", "B", SignalPayload::Offer(sdp("O"))));
    let fate = c.on_local_candidate(IceCandidate { blob: b("cand") });
    assert_eq!(fate, CandidateFate::Addressed(b("B")));
    let e = decode(&c.next_outbound().unwrap()).unwrap();
    assert_eq!(e.to, b("B"));
    assert_eq!(e.from, b("A"));
    assert_eq!(
        e.data,
        SignalPayload::Candidate(IceCandidate { blob: b("cand") })
    );
}

#[test]
fn local_candidate_without_inbound_sender_is_dropped() {
    let mut c = Signaling::new(b("A"));
    c.on_connected();
    let fate = c.on_local_candidate(IceCandidate { blob: b("cand") });
    assert_eq!(fate, CandidateFate::NoPeerSeen);
    assert_eq!(c.next_outbound(), None);
}

#[test]
fn local_candidate_with_pump_gone_is_reported() {
    let mut c = Signaling::new(b("A"));
    c.on_inbound(&inbound("A", "B", SignalPayload::Offer(sdp("O"))));
    let fate = c.on_local_candidate(IceCandidate { blob: b("cand") });
    assert_eq!(fate, CandidateFate::PumpGone);
}

struct Recorder {
    offers: Vec<(Vec<u8>, SessionDescription)>,
    answers: Vec<(Vec<u8>, SessionDescription)>,
    candidates: Vec<(Vec<u8>, IceCandidate)>,
}

impl Signaler for Recorder {
    fn on_offer(&mut self, id: Vec<u8>, offer: SessionDescription) {
        self.offers.push((id, offer));
    }

    fn on_answer(&mut self, id: Vec<u8>, answer: SessionDescription) {
        self.answers.push((id, answer));
    }

    fn on_ice_candidate(&mut self, id: Vec<u8>, candidate: IceCandidate) {
        self.candidates.push((id, candidate));
    }
}

#[test]
fn dispatch_reaches_the_handler() {
    let mut c = Signaling::new(b("A"));
    let mut h = Recorder {
        offers: Vec::new(),
        answers: Vec::new(),
        candidates: Vec::new(),
    };
    c.dispatch_inbound(&inbound("A", "B", SignalPayload::Offer(sdp("O"))), &mut h);
    c.dispatch_inbound(&inbound("A", "B", SignalPayload::Answer(sdp("ans"))), &mut h);
    c.dispatch_inbound(&b("garbage"), &mut h);
    assert_eq!(h.offers, vec![(b("B"), sdp("O"))]);
    assert_eq!(h.answers, vec![(b("B"), sdp("ans"))]);
    assert!(h.candidates.is_empty());
    assert_eq!(c.get_last_to(), Some(b("B")));
}
