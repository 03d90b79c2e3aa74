//! Waiting for the task of a request to settle.
//!
//! The task runs on an engine that may start it over when something it read
//! changes. So that a task has changed does not mean that it is done. The
//! bridge asks the engine for the task's output without waiting; where there
//! is none yet it waits for the next change and asks again. Only when the
//! engine has an output does it take the answer from the channel that the
//! task sends it on.

use crate::response::{internal_error_response, Response, ResponseView};
use vstd::prelude::*;

verus! {

/// Where the bridge stands.
#[derive(Clone, Copy, Debug, PartialEq, Eq, Structural)]
pub enum BridgeState {
    /// The task is being handed to the engine.
    Submitting,
    /// The engine was asked for the task's output.
    Polling,
    /// The task has no output yet; the bridge waits for it to change.
    Waiting,
    /// The task has an output; the bridge takes the answer from the channel.
    Receiving,
    /// The request is answered.
    Done,
}

/// What came of the last thing the bridge asked for.
#[derive(Clone, Debug, PartialEq, Eq)]
pub enum BridgeEvent {
    /// The engine took the task.
    Submitted,
    /// The task has an output.
    Output,
    /// The task has no output yet; a listener for its next change came back
    /// instead.
    Pending,
    /// The task changed: it finished, or it was started over.
    Changed,
    /// The answer that the task sent.
    Payload { response: Response },
    /// The channel was closed without an answer.
    ChannelClosed,
    /// The engine failed.
    Failed,
}

/// A [`BridgeEvent`] as mathematical values.
pub enum BridgeEventView {
    Submitted,
    Output,
    Pending,
    Changed,
    Payload { response: ResponseView },
    ChannelClosed,
    Failed,
}

impl View for BridgeEvent {
    type V = BridgeEventView;

    open spec fn view(&self) -> BridgeEventView {
        match *self {
            BridgeEvent::Submitted => BridgeEventView::Submitted,
            BridgeEvent::Output => BridgeEventView::Output,
            BridgeEvent::Pending => BridgeEventView::Pending,
            BridgeEvent::Changed => BridgeEventView::Changed,
            BridgeEvent::Payload { response } => BridgeEventView::Payload { response: response@ },
            BridgeEvent::ChannelClosed => BridgeEventView::ChannelClosed,
            BridgeEvent::Failed => BridgeEventView::Failed,
        }
    }
}

/// What the bridge asks for next.
#[derive(Clone, Debug, PartialEq, Eq)]
pub enum BridgeAction {
    /// Hand the task to the engine, to be run once.
    Submit,
    /// Ask the engine for the task's output without waiting for it. With
    /// `track` unset the question itself must not make the asker depend on
    /// the task.
    TryRead { track: bool },
    /// Wait until the task changes.
    AwaitChange,
    /// Take the answer from the channel.
    AwaitChannel,
    /// Answer the request.
    Respond { response: Response },
    /// Nothing: the request is answered already.
    Nothing,
}

/// A [`BridgeAction`] as mathematical values.
pub enum BridgeActionView {
    Submit,
    TryRead { track: bool },
    AwaitChange,
    AwaitChannel,
    Respond { response: ResponseView },
    Nothing,
}

impl View for BridgeAction {
    type V = BridgeActionView;

    open spec fn view(&self) -> BridgeActionView {
        match *self {
            BridgeAction::Submit => BridgeActionView::Submit,
            BridgeAction::TryRead { track } => BridgeActionView::TryRead { track },
            BridgeAction::AwaitChange => BridgeActionView::AwaitChange,
            BridgeAction::AwaitChannel => BridgeActionView::AwaitChannel,
            BridgeAction::Respond { response } => BridgeActionView::Respond {
                response: response@,
            },
            BridgeAction::Nothing => BridgeActionView::Nothing,
        }
    }
}

/// The request is answered with the answer for an internal error.
pub open spec fn fail() -> (BridgeState, BridgeActionView) {
    (BridgeState::Done, BridgeActionView::Respond { response: internal_error_response() })
}

/// The engine is asked for the task's output.
pub open spec fn poll() -> (BridgeState, BridgeActionView) {
    (BridgeState::Polling, BridgeActionView::TryRead { track: false })
}

/// What the bridge becomes, and what it asks for, when `event` comes back.
///
/// A change leads back to asking the engine, never to the channel. The
/// channel is read only once the engine has an output, and what it holds is
/// the answer. An event that does not answer what the bridge asked for, a
/// failure among them, is answered as an internal error.
pub open spec fn spec_step(state: BridgeState, event: BridgeEventView) -> (
    BridgeState,
    BridgeActionView,
) {
    match state {
        BridgeState::Submitting => match event {
            BridgeEventView::Submitted => poll(),
            _ => fail(),
        },
        BridgeState::Polling => match event {
            BridgeEventView::Output => (BridgeState::Receiving, BridgeActionView::AwaitChannel),
            BridgeEventView::Pending => (BridgeState::Waiting, BridgeActionView::AwaitChange),
            _ => fail(),
        },
        BridgeState::Waiting => match event {
            BridgeEventView::Changed => poll(),
            _ => fail(),
        },
        BridgeState::Receiving => match event {
            BridgeEventView::Payload { response } => (
                BridgeState::Done,
                BridgeActionView::Respond { response },
            ),
            _ => fail(),
        },
        BridgeState::Done => (BridgeState::Done, BridgeActionView::Nothing),
    }
}

/// The bridge for one request.
#[derive(Debug)]
pub struct Bridge {
    state: BridgeState,
}

impl View for Bridge {
    type V = BridgeState;

    closed spec fn view(&self) -> BridgeState {
        self.state
    }
}

impl Bridge {
    /// Begins with a request. The first thing the bridge asks for is that the
    /// task be handed to the engine.
    pub fn begin() -> (begun: (Bridge, BridgeAction))
        ensures
            begun.0@ == BridgeState::Submitting,
            begun.1@ == BridgeActionView::Submit,
    {
        (Bridge { state: BridgeState::Submitting }, BridgeAction::Submit)
    }

    /// Where the bridge stands.
    pub fn state(&self) -> (state: BridgeState)
        ensures
            state == self@,
    {
        self.state
    }

    fn fail(&mut self) -> (action: BridgeAction)
        ensures
            (final(self)@, action@) == fail(),
    {
        self.state = BridgeState::Done;
        BridgeAction::Respond { response: Response::internal_error() }
    }

    fn poll(&mut self) -> (action: BridgeAction)
        ensures
            (final(self)@, action@) == poll(),
    {
        self.state = BridgeState::Polling;
        BridgeAction::TryRead { track: false }
    }

    /// Takes what came of the last thing the bridge asked for and says what
    /// it asks for next.
    pub fn step(&mut self, event: BridgeEvent) -> (action: BridgeAction)
        ensures
            (final(self)@, action@) == spec_step(old(self)@, event@),
    {
        match self.state {
            BridgeState::Submitting => match event {
                BridgeEvent::Submitted => self.poll(),
                _ => self.fail(),
            },
            BridgeState::Polling => match event {
                BridgeEvent::Output => {
                    self.state = BridgeState::Receiving;
                    BridgeAction::AwaitChannel
                },
                BridgeEvent::Pending => {
                    self.state = BridgeState::Waiting;
                    BridgeAction::AwaitChange
                },
                _ => self.fail(),
            },
            BridgeState::Waiting => match event {
                BridgeEvent::Changed => self.poll(),
                _ => self.fail(),
            },
            BridgeState::Receiving => match event {
                BridgeEvent::Payload { response } => {
                    self.state = BridgeState::Done;
                    BridgeAction::Respond { response }
                },
                _ => self.fail(),
            },
            BridgeState::Done => BridgeAction::Nothing,
        }
    }
}

/// The bridge after the events came back one after the other.
pub open spec fn run(state: BridgeState, events: Seq<BridgeEventView>) -> BridgeState
    decreases events.len(),
{
    if events.len() == 0 {
        state
    } else {
        spec_step(run(state, events.drop_last()), events.last()).0
    }
}

/// The answers that an action gives: one for `Respond`, else none.
pub open spec fn answered_by(action: BridgeActionView) -> Seq<ResponseView> {
    match action {
        BridgeActionView::Respond { response } => seq![response],
        _ => Seq::empty(),
    }
}

/// The answers that the bridge gave while the events came back, in order.
pub open spec fn answered_in(state: BridgeState, events: Seq<BridgeEventView>) -> Seq<
    ResponseView,
>
    decreases events.len(),
{
    if events.len() == 0 {
        Seq::empty()
    } else {
        answered_in(state, events.drop_last()) + answered_by(
            spec_step(run(state, events.drop_last()), events.last()).1,
        )
    }
}

/// The task's answer is among the events, after an output of the engine.
pub open spec fn payload_after_output(
    events: Seq<BridgeEventView>,
    response: ResponseView,
) -> bool {
    exists|i: int, j: int|
        0 <= i < j < events.len() && #[trigger] events[i] == BridgeEventView::Output
            && #[trigger] events[j] == (BridgeEventView::Payload { response })
}

/// What came back while a task without output was started over `restarts`
/// times: the engine took the task, and each question for its output was
/// answered with a listener, which then reported a change.
pub open spec fn unsettled(restarts: nat) -> Seq<BridgeEventView>
    decreases restarts,
{
    if restarts == 0 {
        seq![BridgeEventView::Submitted]
    } else {
        unsettled((restarts - 1) as nat).push(BridgeEventView::Pending).push(
            BridgeEventView::Changed,
        )
    }
}

/// Whatever comes back, and in whatever order, a request is answered exactly
/// once: not while the bridge is at work, once from then on. An answer other
/// than that for an internal error is the one that the task sent, and it
/// came back after the engine had an output.
pub proof fn lemma_answered_once(events: Seq<BridgeEventView>)
    ensures
        run(BridgeState::Submitting, events) != BridgeState::Done ==> answered_in(
            BridgeState::Submitting,
            events,
        ).len() == 0,
        run(BridgeState::Submitting, events) == BridgeState::Done ==> answered_in(
            BridgeState::Submitting,
            events,
        ).len() == 1 && (answered_in(BridgeState::Submitting, events)[0]
            == internal_error_response() || payload_after_output(
            events,
            answered_in(BridgeState::Submitting, events)[0],
        )),
        run(BridgeState::Submitting, events) == BridgeState::Receiving ==> events.len() > 0
            && events.last() == BridgeEventView::Output,
    decreases events.len(),
{
    if events.len() > 0 {
        let before = events.drop_last();
        lemma_answered_once(before);
        let state = run(BridgeState::Submitting, before);
        if state == BridgeState::Receiving {
            if let BridgeEventView::Payload { response } = events.last() {
                assert(events[events.len() - 2] == BridgeEventView::Output);
                assert(events[events.len() - 1] == (BridgeEventView::Payload { response }));
            }
        } else if state == BridgeState::Done {
            let response = answered_in(BridgeState::Submitting, before)[0];
            if payload_after_output(before, response) {
                let (i, j) = choose|i: int, j: int|
                    0 <= i < j < before.len() && #[trigger] before[i] == BridgeEventView::Output
                        && #[trigger] before[j] == (BridgeEventView::Payload { response });
                assert(events[i] == BridgeEventView::Output);
                assert(events[j] == (BridgeEventView::Payload { response }));
            }
        }
    }
}

/// However often the task is started over, the bridge keeps asking the
/// engine and answers nothing.
pub proof fn lemma_unsettled(restarts: nat)
    ensures
        run(BridgeState::Submitting, unsettled(restarts)) == BridgeState::Polling,
        answered_in(BridgeState::Submitting, unsettled(restarts)).len() == 0,
    decreases restarts,
{
    if restarts > 0 {
        let before = unsettled((restarts - 1) as nat);
        let middle = before.push(BridgeEventView::Pending);
        lemma_unsettled((restarts - 1) as nat);
        assert(middle.drop_last() =~= before);
        assert(unsettled(restarts).drop_last() =~= middle);
    }
    lemma_answered_once(unsettled(restarts));
}

/// Once the task has settled, however often it was started over before, the
/// request is answered with what the task sent.
pub proof fn lemma_settled(restarts: nat, response: ResponseView)
    ensures
        answered_in(
            BridgeState::Submitting,
            unsettled(restarts).push(BridgeEventView::Output).push(
                BridgeEventView::Payload { response },
            ),
        ) == seq![response],
{
    let before = unsettled(restarts);
    let middle = before.push(BridgeEventView::Output);
    let events = middle.push(BridgeEventView::Payload { response });
    lemma_unsettled(restarts);
    assert(middle.drop_last() =~= before);
    assert(events.drop_last() =~= middle);
    lemma_answered_once(middle);
}

} // verus!
