//! The peer-side signaling client.
//!
//! A peer keeps one duplex channel to the relay. Everything it sends is
//! queued here, tagged with the local identifier and encoded; everything that
//! arrives is decoded and handed to the embedding handler, while the sender
//! of the last inbound envelope is remembered so that locally raised
//! connectivity candidates can be addressed. The embedding application owns
//! the socket and the pump task; every decision stands here.
use vstd::prelude::*;

use crate::bytes::bytes_clone;
use crate::codec::{
    decode, decode_spec, encode, encoding, opt_bytes, Envelope, EnvelopeView, IceCandidate,
    PayloadView, SessionDescription, SignalPayload,
};

verus! {

/// A queued outgoing message: the addressee and the payload to carry.
pub type Outgoing = (Vec<u8>, SignalPayload);

/// The enqueue failed because the pump has already exited; the caller is
/// told, never silently ignored.
#[derive(Debug)]
pub struct ChannelDown;

/// What an inbound message asks the handler to do.
#[derive(Debug, PartialEq, Eq)]
pub enum Dispatch {
    /// A peer wants a session: answer it.
    Offer(Vec<u8>, SessionDescription),
    /// A peer answered our offer: apply it.
    Answer(Vec<u8>, SessionDescription),
    /// A peer shared a connectivity candidate: apply it.
    Candidate(Vec<u8>, IceCandidate),
    /// The message does not decode as an envelope; it is dropped.
    Ignored,
}

/// What became of a locally raised connectivity candidate.
#[derive(Debug, PartialEq, Eq)]
pub enum CandidateFate {
    /// Queued, addressed to the sender of the last inbound envelope.
    Addressed(Vec<u8>),
    /// No inbound envelope has been seen, so the candidate cannot be
    /// addressed; it is dropped.
    NoPeerSeen,
    /// The pump has exited; reported to the caller.
    PumpGone,
}

/// The mathematical model of the signaling client.
#[verifier::ext_equal]
pub struct SignalingView {
    /// The identifier this peer registers and stamps into `from`.
    pub local_id: Seq<u8>,
    /// The sender of the last inbound envelope, if any.
    pub last_from: Option<Seq<u8>>,
    /// Whether the pump owning the socket is running.
    pub pump_live: bool,
    /// The queued outgoing messages, oldest first.
    pub outbox: Seq<(Seq<u8>, PayloadView)>,
}

/// The signaling client's state: one logical duplex channel to the relay,
/// multiplexing the three message kinds.
pub struct Signaling {
    local_id: Vec<u8>,
    last_from: Option<Vec<u8>>,
    pump_live: bool,
    outbox: Vec<Outgoing>,
}

impl View for Signaling {
    type V = SignalingView;

    closed spec fn view(&self) -> SignalingView {
        SignalingView {
            local_id: self.local_id@,
            last_from: opt_bytes(self.last_from),
            pump_live: self.pump_live,
            outbox: self.outbox@.map_values(|o: Outgoing| (o.0@, o.1@)),
        }
    }
}

/// The handler a peer plugs in: one callback per inbound message kind, as
/// dispatched by `Signaling::dispatch_inbound`.
pub trait Signaler {
    /// A peer wants a session.
    fn on_offer(&mut self, id: Vec<u8>, offer: SessionDescription);

    /// A peer answered our offer.
    fn on_answer(&mut self, id: Vec<u8>, answer: SessionDescription);

    /// A peer shared a connectivity candidate.
    fn on_ice_candidate(&mut self, id: Vec<u8>, candidate: IceCandidate);
}

impl Signaling {
    /// A client for the peer registering as `local_id`; nothing is queued and
    /// no pump runs yet.
    pub fn new(local_id: Vec<u8>) -> (s: Signaling)
        ensures
            s@.local_id == local_id@,
            s@.last_from is None,
            !s@.pump_live,
            s@.outbox.len() == 0,
    {
        let s = Signaling {
            local_id,
            last_from: Option::None,
            pump_live: false,
            outbox: Vec::new(),
        };
        proof {
            assert(s@.outbox =~= Seq::<(Seq<u8>, PayloadView)>::empty());
        }
        s
    }

    /// The channel is up: the pump took the socket and the client may queue.
    pub fn on_connected(&mut self)
        ensures
            final(self)@ == (SignalingView { pump_live: true, ..old(self)@ }),
    {
        self.pump_live = true;
    }

    /// The pump exited: the transport closed or failed. Later sends are
    /// refused until the application connects again.
    pub fn on_disconnected(&mut self)
        ensures
            final(self)@ == (SignalingView { pump_live: false, ..old(self)@ }),
    {
        self.pump_live = false;
    }

    /// Queues an offer for `to`. Fails exactly when the pump has exited.
    pub fn send_offer(&mut self, to: Vec<u8>, offer: SessionDescription) -> (r: Result<
        (),
        ChannelDown,
    >)
        ensures
            old(self)@.pump_live ==> r is Ok && final(self)@ == (SignalingView {
                outbox: old(self)@.outbox.push((to@, PayloadView::Offer(offer@))),
                ..old(self)@
            }),
            !old(self)@.pump_live ==> r is Err && final(self)@ == old(self)@,
    {
        self.enqueue(to, SignalPayload::Offer(offer))
    }

    /// Queues an answer for `to`. Fails exactly when the pump has exited.
    pub fn send_answer(&mut self, to: Vec<u8>, answer: SessionDescription) -> (r: Result<
        (),
        ChannelDown,
    >)
        ensures
            old(self)@.pump_live ==> r is Ok && final(self)@ == (SignalingView {
                outbox: old(self)@.outbox.push((to@, PayloadView::Answer(answer@))),
                ..old(self)@
            }),
            !old(self)@.pump_live ==> r is Err && final(self)@ == old(self)@,
    {
        self.enqueue(to, SignalPayload::Answer(answer))
    }

    /// Queues a connectivity candidate for `to`. Fails exactly when the pump
    /// has exited.
    pub fn send_ice_candidate(&mut self, to: Vec<u8>, candidate: IceCandidate) -> (r: Result<
        (),
        ChannelDown,
    >)
        ensures
            old(self)@.pump_live ==> r is Ok && final(self)@ == (SignalingView {
                outbox: old(self)@.outbox.push((to@, PayloadView::Candidate(candidate@))),
                ..old(self)@
            }),
            !old(self)@.pump_live ==> r is Err && final(self)@ == old(self)@,
    {
        self.enqueue(to, SignalPayload::Candidate(candidate))
    }

    /// Queues one outgoing message; the common path of the three send
    /// operations.
    fn enqueue(&mut self, to: Vec<u8>, data: SignalPayload) -> (r: Result<(), ChannelDown>)
        ensures
            old(self)@.pump_live ==> r is Ok && final(self)@ == (SignalingView {
                outbox: old(self)@.outbox.push((to@, data@)),
                ..old(self)@
            }),
            !old(self)@.pump_live ==> r is Err && final(self)@ == old(self)@,
    {
        if !self.pump_live {
            return Result::Err(ChannelDown);
        }
        let ghost before = self@;
        self.outbox.push((to, data));
        proof {
            assert(self@.outbox =~~= before.outbox.push((to@, data@)));
            assert(self@ =~~= SignalingView { outbox: before.outbox.push((to@, data@)), ..before });
        }
        Result::Ok(())
    }

    /// The sender of the last inbound envelope: where a locally raised
    /// candidate will be addressed.
    pub fn get_last_to(&self) -> (r: Option<Vec<u8>>)
        ensures
            opt_bytes(r) == self@.last_from,
    {
        match &self.last_from {
            Option::Some(b) => Option::Some(bytes_clone(b)),
            Option::None => Option::None,
        }
    }

    /// Handles one message read from the socket: a decodable envelope is
    /// remembered as the last inbound sender and handed back as the dispatch
    /// for the handler; anything else is dropped with no effect.
    pub fn on_inbound(&mut self, raw: &Vec<u8>) -> (d: Dispatch)
        ensures
            match decode_spec(raw@) {
                Option::Some(env) => {
                    &&& final(self)@ == (SignalingView {
                        last_from: Option::Some(env.from),
                        ..old(self)@
                    })
                    &&& match env.data {
                        PayloadView::Offer(b) => d matches Dispatch::Offer(f, o) && f@ == env.from
                            && o@ == b,
                        PayloadView::Answer(b) => d matches Dispatch::Answer(f, a) && f@ == env.from
                            && a@ == b,
                        PayloadView::Candidate(b) => d matches Dispatch::Candidate(f, c) && f@
                            == env.from && c@ == b,
                    }
                },
                Option::None => final(self)@ == old(self)@ && d is Ignored,
            },
    {
        match decode(raw) {
            Result::Ok(env) => {
                let Envelope { to: _, from, data } = env;
                self.last_from = Option::Some(bytes_clone(&from));
                match data {
                    SignalPayload::Offer(o) => Dispatch::Offer(from, o),
                    SignalPayload::Answer(a) => Dispatch::Answer(from, a),
                    SignalPayload::Candidate(c) => Dispatch::Candidate(from, c),
                }
            },
            Result::Err(_) => Dispatch::Ignored,
        }
    }

    /// Takes the oldest queued message, tags it with the local identifier and
    /// encodes it: the bytes the pump writes next, if anything is queued.
    pub fn next_outbound(&mut self) -> (r: Option<Vec<u8>>)
        ensures
            old(self)@.outbox.len() == 0 ==> r is None && final(self)@ == old(self)@,
            old(self)@.outbox.len() > 0 ==> final(self)@ == (SignalingView {
                outbox: old(self)@.outbox.skip(1),
                ..old(self)@
            }),
            old(self)@.outbox.len() > 0 ==> (r matches Option::Some(w) && w@ == encoding(
                EnvelopeView {
                    to: old(self)@.outbox[0].0,
                    from: old(self)@.local_id,
                    data: old(self)@.outbox[0].1,
                },
            )),
    {
        if self.outbox.len() == 0 {
            return Option::None;
        }
        let (to, data) = self.outbox.remove(0);
        proof {
            assert(self@.outbox =~~= old(self)@.outbox.skip(1));
        }
        let env = Envelope { to, from: bytes_clone(&self.local_id), data };
        Option::Some(encode(&env))
    }

    /// Routes a connectivity candidate raised by the local engine: to the
    /// sender of the last inbound envelope, since local emission names no
    /// recipient. With no inbound envelope seen it is dropped; with the pump
    /// gone the caller is told.
    pub fn on_local_candidate(&mut self, candidate: IceCandidate) -> (r: CandidateFate)
        ensures
            old(self)@.last_from is None ==> r is NoPeerSeen && final(self)@ == old(self)@,
            old(self)@.last_from matches Option::Some(peer) ==> if old(self)@.pump_live {
                &&& final(self)@ == (SignalingView {
                    outbox: old(self)@.outbox.push((peer, PayloadView::Candidate(candidate@))),
                    ..old(self)@
                })
                &&& r matches CandidateFate::Addressed(p) && p@ == peer
            } else {
                r is PumpGone && final(self)@ == old(self)@
            },
    {
        let to = match &self.last_from {
            Option::Some(b) => bytes_clone(b),
            Option::None => {
                return CandidateFate::NoPeerSeen;
            },
        };
        let addressee = bytes_clone(&to);
        match self.enqueue(to, SignalPayload::Candidate(candidate)) {
            Result::Ok(()) => CandidateFate::Addressed(addressee),
            Result::Err(ChannelDown) => CandidateFate::PumpGone,
        }
    }

    /// Handles one message read from the socket and dispatches it to the
    /// handler: the last inbound sender is remembered before the dispatch.
    /// What the handler does is its own; what this does to the client is
    /// exactly what `on_inbound` does.
    pub fn dispatch_inbound<T: Signaler>(&mut self, raw: &Vec<u8>, handler: &mut T)
        ensures
            match decode_spec(raw@) {
                Option::Some(env) => final(self)@ == (SignalingView {
                    last_from: Option::Some(env.from),
                    ..old(self)@
                }),
                Option::None => final(self)@ == old(self)@,
            },
    {
        match self.on_inbound(raw) {
            Dispatch::Offer(f, o) => handler.on_offer(f, o),
            Dispatch::Answer(f, a) => handler.on_answer(f, a),
            Dispatch::Candidate(f, c) => handler.on_ice_candidate(f, c),
            Dispatch::Ignored => {},
        }
    }
}

} // verus!
