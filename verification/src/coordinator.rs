//! The peer signaling coordinator.
//!
//! The coordinator drives the negotiation engine in response to signaling:
//! an inbound offer is applied, answered and the answer sent back; an inbound
//! answer or candidate is applied; a local intent to connect produces an
//! offer. Every engine step is asynchronous and fallible, so the coordinator
//! is a state machine: each call returns the one action to perform next, and
//! the engine's outcome is fed back in. A failed step abandons the
//! negotiation with no retry; the peer must offer again.
use vstd::prelude::*;

use crate::codec::{IceCandidate, SessionDescription};

verus! {

/// One operation asked of the negotiation engine.
#[derive(Debug, Clone, PartialEq, Eq)]
pub enum EngineOp {
    CreateOffer,
    CreateAnswer,
    SetLocalDescription(SessionDescription),
    SetRemoteDescription(SessionDescription),
    AddIceCandidate(IceCandidate),
}

/// The mathematical model of an engine operation.
#[verifier::ext_equal]
pub enum EngineOpView {
    CreateOffer,
    CreateAnswer,
    SetLocalDescription(Seq<u8>),
    SetRemoteDescription(Seq<u8>),
    AddIceCandidate(Seq<u8>),
}

impl View for EngineOp {
    type V = EngineOpView;

    open spec fn view(&self) -> EngineOpView {
        match self {
            EngineOp::CreateOffer => EngineOpView::CreateOffer,
            EngineOp::CreateAnswer => EngineOpView::CreateAnswer,
            EngineOp::SetLocalDescription(d) => EngineOpView::SetLocalDescription(d@),
            EngineOp::SetRemoteDescription(d) => EngineOpView::SetRemoteDescription(d@),
            EngineOp::AddIceCandidate(c) => EngineOpView::AddIceCandidate(c@),
        }
    }
}

/// How one engine operation ended.
#[derive(Debug, Clone, PartialEq, Eq)]
pub enum EngineEvent {
    /// The operation succeeded and produced nothing.
    Completed,
    /// The operation succeeded and produced a description.
    ProducedDescription(SessionDescription),
    /// The operation failed; the step is reported and abandoned.
    Failed,
}

/// The mathematical model of an engine outcome.
#[verifier::ext_equal]
pub enum EngineEventView {
    Completed,
    ProducedDescription(Seq<u8>),
    Failed,
}

impl View for EngineEvent {
    type V = EngineEventView;

    open spec fn view(&self) -> EngineEventView {
        match self {
            EngineEvent::Completed => EngineEventView::Completed,
            EngineEvent::ProducedDescription(d) => EngineEventView::ProducedDescription(d@),
            EngineEvent::Failed => EngineEventView::Failed,
        }
    }
}

/// What the embedding must do next.
#[derive(Debug, Clone, PartialEq, Eq)]
pub enum CoordinatorAction {
    /// Ask the engine to perform this operation and feed its outcome back.
    Engine(EngineOp),
    /// Send this offer to this peer through the signaling client.
    SendOffer(Vec<u8>, SessionDescription),
    /// Send this answer to this peer through the signaling client.
    SendAnswer(Vec<u8>, SessionDescription),
    /// Nothing; the negotiation step ended, ordinarily or by failure.
    NoAction,
}

/// The mathematical model of an action.
#[verifier::ext_equal]
pub enum ActionView {
    Engine(EngineOpView),
    SendOffer(Seq<u8>, Seq<u8>),
    SendAnswer(Seq<u8>, Seq<u8>),
    NoAction,
}

impl View for CoordinatorAction {
    type V = ActionView;

    open spec fn view(&self) -> ActionView {
        match self {
            CoordinatorAction::Engine(op) => ActionView::Engine(op@),
            CoordinatorAction::SendOffer(p, d) => ActionView::SendOffer(p@, d@),
            CoordinatorAction::SendAnswer(p, d) => ActionView::SendAnswer(p@, d@),
            CoordinatorAction::NoAction => ActionView::NoAction,
        }
    }
}

/// Where an answering negotiation stands.
pub enum AnswerStage {
    /// Applying the peer's offer as the remote description.
    SettingRemote,
    /// Asking the engine for an answer.
    CreatingAnswer,
    /// Applying the produced answer as the local description.
    SettingLocal(SessionDescription),
}

/// Where an offering negotiation stands.
pub enum OfferStage {
    /// Asking the engine for an offer.
    CreatingOffer,
    /// Applying the produced offer as the local description.
    SettingLocal(SessionDescription),
}

/// The negotiation in flight, with the peer it is for.
pub enum Task {
    Answering(Vec<u8>, AnswerStage),
    Offering(Vec<u8>, OfferStage),
}

/// The mathematical model of an answering stage.
#[verifier::ext_equal]
pub enum AnswerStageView {
    SettingRemote,
    CreatingAnswer,
    SettingLocal(Seq<u8>),
}

/// The mathematical model of an offering stage.
#[verifier::ext_equal]
pub enum OfferStageView {
    CreatingOffer,
    SettingLocal(Seq<u8>),
}

/// The mathematical model of a negotiation in flight.
#[verifier::ext_equal]
pub enum TaskView {
    Answering(Seq<u8>, AnswerStageView),
    Offering(Seq<u8>, OfferStageView),
}

impl View for Task {
    type V = TaskView;

    open spec fn view(&self) -> TaskView {
        match self {
            Task::Answering(p, AnswerStage::SettingRemote) => TaskView::Answering(
                p@,
                AnswerStageView::SettingRemote,
            ),
            Task::Answering(p, AnswerStage::CreatingAnswer) => TaskView::Answering(
                p@,
                AnswerStageView::CreatingAnswer,
            ),
            Task::Answering(p, AnswerStage::SettingLocal(d)) => TaskView::Answering(
                p@,
                AnswerStageView::SettingLocal(d@),
            ),
            Task::Offering(p, OfferStage::CreatingOffer) => TaskView::Offering(
                p@,
                OfferStageView::CreatingOffer,
            ),
            Task::Offering(p, OfferStage::SettingLocal(d)) => TaskView::Offering(
                p@,
                OfferStageView::SettingLocal(d@),
            ),
        }
    }
}

/// The model of an optional negotiation.
pub open spec fn opt_task(t: Option<Task>) -> Option<TaskView> {
    match t {
        Option::Some(tv) => Option::Some(tv@),
        Option::None => Option::None,
    }
}

/// The one transition of the coordinator on an engine outcome: the next
/// negotiation state and the action to perform. Any outcome that does not
/// fit the stage, `Failed` included, abandons the negotiation.
pub open spec fn step(task: Option<TaskView>, ev: EngineEventView) -> (Option<TaskView>,
    ActionView) {
    match task {
        Option::None => (Option::None, ActionView::NoAction),
        Option::Some(TaskView::Answering(peer, AnswerStageView::SettingRemote)) => match ev {
            EngineEventView::Completed => (
                Option::Some(TaskView::Answering(peer, AnswerStageView::CreatingAnswer)),
                ActionView::Engine(EngineOpView::CreateAnswer),
            ),
            _ => (Option::None, ActionView::NoAction),
        },
        Option::Some(TaskView::Answering(peer, AnswerStageView::CreatingAnswer)) => match ev {
            EngineEventView::ProducedDescription(d) => (
                Option::Some(TaskView::Answering(peer, AnswerStageView::SettingLocal(d))),
                ActionView::Engine(EngineOpView::SetLocalDescription(d)),
            ),
            _ => (Option::None, ActionView::NoAction),
        },
        Option::Some(TaskView::Answering(peer, AnswerStageView::SettingLocal(d))) => match ev {
            EngineEventView::Completed => (Option::None, ActionView::SendAnswer(peer, d)),
            _ => (Option::None, ActionView::NoAction),
        },
        Option::Some(TaskView::Offering(peer, OfferStageView::CreatingOffer)) => match ev {
            EngineEventView::ProducedDescription(d) => (
                Option::Some(TaskView::Offering(peer, OfferStageView::SettingLocal(d))),
                ActionView::Engine(EngineOpView::SetLocalDescription(d)),
            ),
            _ => (Option::None, ActionView::NoAction),
        },
        Option::Some(TaskView::Offering(peer, OfferStageView::SettingLocal(d))) => match ev {
            EngineEventView::Completed => (Option::None, ActionView::SendOffer(peer, d)),
            _ => (Option::None, ActionView::NoAction),
        },
    }
}

/// The coordinator: at most one negotiation in flight.
pub struct Coordinator {
    task: Option<Task>,
}

impl View for Coordinator {
    type V = Option<TaskView>;

    closed spec fn view(&self) -> Option<TaskView> {
        opt_task(self.task)
    }
}

impl Coordinator {
    /// A coordinator with no negotiation in flight.
    pub fn new() -> (c: Coordinator)
        ensures
            c@ is None,
    {
        Coordinator { task: Option::None }
    }

    /// Local intent to connect to `to`: start an offering negotiation by
    /// asking the engine for an offer. A negotiation already in flight is
    /// abandoned; the latest intent wins.
    pub fn offer(&mut self, to: Vec<u8>) -> (a: CoordinatorAction)
        ensures
            final(self)@ == Option::Some(TaskView::Offering(to@, OfferStageView::CreatingOffer)),
            a@ == ActionView::Engine(EngineOpView::CreateOffer),
    {
        self.task = Option::Some(Task::Offering(to, OfferStage::CreatingOffer));
        CoordinatorAction::Engine(EngineOp::CreateOffer)
    }

    /// An offer arrived from `from`: start answering it by applying it as
    /// the remote description. A negotiation already in flight is abandoned.
    pub fn on_offer(&mut self, from: Vec<u8>, offer: SessionDescription) -> (a: CoordinatorAction)
        ensures
            final(self)@ == Option::Some(TaskView::Answering(from@, AnswerStageView::SettingRemote)),
            a@ == ActionView::Engine(EngineOpView::SetRemoteDescription(offer@)),
    {
        self.task = Option::Some(Task::Answering(from, AnswerStage::SettingRemote));
        CoordinatorAction::Engine(EngineOp::SetRemoteDescription(offer))
    }

    /// An answer arrived: apply it as the remote description. This is a
    /// single step; the negotiation in flight is left as it is.
    pub fn on_answer(&mut self, from: Vec<u8>, answer: SessionDescription) -> (a: CoordinatorAction)
        ensures
            final(self)@ == old(self)@,
            a@ == ActionView::Engine(EngineOpView::SetRemoteDescription(answer@)),
    {
        let _ = from;
        CoordinatorAction::Engine(EngineOp::SetRemoteDescription(answer))
    }

    /// A candidate arrived: add it to the engine. A single step; an unusable
    /// candidate is simply skipped by the engine, with no retry.
    pub fn on_ice_candidate(&mut self, from: Vec<u8>, candidate: IceCandidate) -> (a:
        CoordinatorAction)
        ensures
            final(self)@ == old(self)@,
            a@ == ActionView::Engine(EngineOpView::AddIceCandidate(candidate@)),
    {
        let _ = from;
        CoordinatorAction::Engine(EngineOp::AddIceCandidate(candidate))
    }

    /// The engine reported the outcome of the last asked operation: advance
    /// the negotiation by one `step`.
    pub fn on_engine_event(&mut self, ev: EngineEvent) -> (a: CoordinatorAction)
        ensures
            (final(self)@, a@) == step(old(self)@, ev@),
    {
        let task = self.task.take();
        match (task, ev) {
            (Option::Some(Task::Answering(peer, AnswerStage::SettingRemote)),
                EngineEvent::Completed,
            ) => {
                self.task = Option::Some(Task::Answering(peer, AnswerStage::CreatingAnswer));
                CoordinatorAction::Engine(EngineOp::CreateAnswer)
            },
            (Option::Some(Task::Answering(peer, AnswerStage::CreatingAnswer)),
                EngineEvent::ProducedDescription(d),
            ) => {
                let op = SessionDescription { blob: crate::bytes::bytes_clone(&d.blob) };
                self.task = Option::Some(Task::Answering(peer, AnswerStage::SettingLocal(d)));
                CoordinatorAction::Engine(EngineOp::SetLocalDescription(op))
            },
            (Option::Some(Task::Answering(peer, AnswerStage::SettingLocal(d))),
                EngineEvent::Completed,
            ) => CoordinatorAction::SendAnswer(peer, d),
            (Option::Some(Task::Offering(peer, OfferStage::CreatingOffer)),
                EngineEvent::ProducedDescription(d),
            ) => {
                let op = SessionDescription { blob: crate::bytes::bytes_clone(&d.blob) };
                self.task = Option::Some(Task::Offering(peer, OfferStage::SettingLocal(d)));
                CoordinatorAction::Engine(EngineOp::SetLocalDescription(op))
            },
            (Option::Some(Task::Offering(peer, OfferStage::SettingLocal(d))),
                EngineEvent::Completed,
            ) => CoordinatorAction::SendOffer(peer, d),
            _ => CoordinatorAction::NoAction,
        }
    }
}

/// An answering negotiation that the engine carries through ends by sending
/// the produced answer to the peer whose offer started it, and ends the
/// negotiation: applying the remote offer leads to creating an answer,
/// applying it locally, and handing it to the signaling client.
pub proof fn lemma_answering_completes(peer: Seq<u8>, answer: Seq<u8>)
    ensures
        step(
            Option::Some(TaskView::Answering(peer, AnswerStageView::SettingRemote)),
            EngineEventView::Completed,
        ) == (
            Option::Some(TaskView::Answering(peer, AnswerStageView::CreatingAnswer)),
            ActionView::Engine(EngineOpView::CreateAnswer),
        ),
        step(
            Option::Some(TaskView::Answering(peer, AnswerStageView::CreatingAnswer)),
            EngineEventView::ProducedDescription(answer),
        ) == (
            Option::Some(TaskView::Answering(peer, AnswerStageView::SettingLocal(answer))),
            ActionView::Engine(EngineOpView::SetLocalDescription(answer)),
        ),
        step(
            Option::Some(TaskView::Answering(peer, AnswerStageView::SettingLocal(answer))),
            EngineEventView::Completed,
        ) == (Option::<TaskView>::None, ActionView::SendAnswer(peer, answer)),
{
}

/// An offering negotiation that the engine carries through ends by sending
/// the produced offer to the intended peer, and ends the negotiation.
pub proof fn lemma_offering_completes(peer: Seq<u8>, offer: Seq<u8>)
    ensures
        step(
            Option::Some(TaskView::Offering(peer, OfferStageView::CreatingOffer)),
            EngineEventView::ProducedDescription(offer),
        ) == (
            Option::Some(TaskView::Offering(peer, OfferStageView::SettingLocal(offer))),
            ActionView::Engine(EngineOpView::SetLocalDescription(offer)),
        ),
        step(
            Option::Some(TaskView::Offering(peer, OfferStageView::SettingLocal(offer))),
            EngineEventView::Completed,
        ) == (Option::<TaskView>::None, ActionView::SendOffer(peer, offer)),
{
}

/// A failed engine step abandons whatever negotiation was in flight, with no
/// retry and no action.
pub proof fn lemma_failure_abandons(task: Option<TaskView>)
    ensures
        step(task, EngineEventView::Failed) == (Option::<TaskView>::None, ActionView::NoAction),
{
}

} // verus!
