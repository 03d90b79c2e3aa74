//! The work done for one request, cut at the points where it waits.
//!
//! The task asks for one thing at a time: the asset that the path names, the
//! content of that asset, what the fallback handler says, and at last that
//! its answer be sent. Whoever runs the task does what it asks and hands back
//! what came of it. Whatever comes back, the task asks for exactly one
//! answer to be sent.

use crate::graph::AssetId;
use crate::request_path::{asset_path, spec_asset_path};
use crate::resolution::FindAssetResult;
use crate::response::{
    bytes_of, fallback_response, internal_error_response, ok_response, response_for, text_of,
    Response, ResponseView,
};
use vstd::prelude::*;

verus! {

/// How a task ended.
#[derive(Clone, Copy, Debug, PartialEq, Eq, Structural)]
pub enum Outcome {
    /// The answer with this status reached the waiting side.
    Delivered { status: u16 },
    /// Nobody was waiting for the answer any more.
    Cancelled { status: u16 },
}

/// Where a task stands.
#[derive(Clone, Copy, Debug, PartialEq, Eq, Structural)]
pub enum TaskState {
    /// Waiting for the asset that the path names.
    Resolving,
    /// Waiting for the content of the asset that was found.
    ReadingContent,
    /// Waiting for the fallback handler.
    AskingFallback,
    /// The answer with this status was handed over to be sent.
    Sending { status: u16 },
    /// Nothing is left to do.
    Finished { outcome: Outcome },
}

/// What came of the last thing the task asked for.
#[derive(Clone, Debug, PartialEq, Eq)]
pub enum TaskEvent {
    /// The resolver's answer.
    Resolved { found: FindAssetResult },
    /// The content of the asset, if it has one.
    Content { content: Option<Vec<u8>> },
    /// What the fallback handler gives for the request path.
    Fallback { text: Option<String> },
    /// What was asked for could not be done.
    Failed,
    /// The answer was taken by the waiting side.
    Delivered,
    /// The waiting side was gone when the answer was sent.
    ReceiverDropped,
}

/// A [`TaskEvent`] as mathematical values.
pub enum TaskEventView {
    Resolved { found: FindAssetResult },
    Content { content: Option<Seq<u8>> },
    Fallback { text: Option<Seq<char>> },
    Failed,
    Delivered,
    ReceiverDropped,
}

impl View for TaskEvent {
    type V = TaskEventView;

    open spec fn view(&self) -> TaskEventView {
        match *self {
            TaskEvent::Resolved { found } => TaskEventView::Resolved { found },
            TaskEvent::Content { content } => TaskEventView::Content { content: bytes_of(content) },
            TaskEvent::Fallback { text } => TaskEventView::Fallback { text: text_of(text) },
            TaskEvent::Failed => TaskEventView::Failed,
            TaskEvent::Delivered => TaskEventView::Delivered,
            TaskEvent::ReceiverDropped => TaskEventView::ReceiverDropped,
        }
    }
}

/// What the task asks for next.
#[derive(Clone, Debug, PartialEq, Eq)]
pub enum TaskAction {
    /// Find the asset with this path, on a settled graph.
    Resolve { asset_path: String },
    /// Read the content of this asset, on a settled graph.
    ReadContent { asset: AssetId },
    /// Ask the fallback handler about this request path.
    AskFallback { request_path: String },
    /// Send this answer to the waiting side.
    Send { response: Response },
    /// Take note of how the task ended.
    Report { outcome: Outcome },
    /// Nothing: the event meant nothing to the task.
    Nothing,
}

/// A [`TaskAction`] as mathematical values.
pub enum TaskActionView {
    Resolve { asset_path: Seq<char> },
    ReadContent { asset: AssetId },
    AskFallback { request_path: Seq<char> },
    Send { response: ResponseView },
    Report { outcome: Outcome },
    Nothing,
}

impl View for TaskAction {
    type V = TaskActionView;

    open spec fn view(&self) -> TaskActionView {
        match *self {
            TaskAction::Resolve { asset_path } => TaskActionView::Resolve {
                asset_path: asset_path@,
            },
            TaskAction::ReadContent { asset } => TaskActionView::ReadContent { asset },
            TaskAction::AskFallback { request_path } => TaskActionView::AskFallback {
                request_path: request_path@,
            },
            TaskAction::Send { response } => TaskActionView::Send { response: response@ },
            TaskAction::Report { outcome } => TaskActionView::Report { outcome },
            TaskAction::Nothing => TaskActionView::Nothing,
        }
    }
}

/// The task for one request.
#[derive(Debug)]
pub struct RequestTask {
    request_path: String,
    state: TaskState,
}

/// A [`RequestTask`] as mathematical values.
pub struct TaskView {
    pub request_path: Seq<char>,
    pub state: TaskState,
}

impl View for RequestTask {
    type V = TaskView;

    closed spec fn view(&self) -> TaskView {
        TaskView { request_path: self.request_path@, state: self.state }
    }
}

/// The task for a request path, before anything came back.
pub open spec fn started(request_path: Seq<char>) -> TaskView {
    TaskView { request_path, state: TaskState::Resolving }
}

/// The answer with `response` is handed over.
pub open spec fn send(task: TaskView, response: ResponseView) -> (TaskView, TaskActionView) {
    (
        TaskView { state: TaskState::Sending { status: response.status }, ..task },
        TaskActionView::Send { response },
    )
}

/// The fallback handler is asked.
pub open spec fn ask_fallback(task: TaskView) -> (TaskView, TaskActionView) {
    (
        TaskView { state: TaskState::AskingFallback, ..task },
        TaskActionView::AskFallback { request_path: task.request_path },
    )
}

/// The task ends.
pub open spec fn finish(task: TaskView, outcome: Outcome) -> (TaskView, TaskActionView) {
    (
        TaskView { state: TaskState::Finished { outcome }, ..task },
        TaskActionView::Report { outcome },
    )
}

/// What the task becomes, and what it asks for, when `event` comes back.
///
/// While it has sent nothing, an event that does not answer what it asked
/// for, a failure among them, makes it send the answer for an internal error.
/// Once the answer is handed over, only the two outcomes of sending mean
/// anything.
pub open spec fn spec_step(task: TaskView, event: TaskEventView) -> (TaskView, TaskActionView) {
    match task.state {
        TaskState::Resolving => match event {
            TaskEventView::Resolved { found: FindAssetResult::Found(asset) } => (
                TaskView { state: TaskState::ReadingContent, ..task },
                TaskActionView::ReadContent { asset },
            ),
            TaskEventView::Resolved { found: FindAssetResult::NotFound } => ask_fallback(task),
            _ => send(task, internal_error_response()),
        },
        TaskState::ReadingContent => match event {
            TaskEventView::Content { content: Some(body) } => send(task, ok_response(body)),
            TaskEventView::Content { content: None } => ask_fallback(task),
            _ => send(task, internal_error_response()),
        },
        TaskState::AskingFallback => match event {
            TaskEventView::Fallback { text } => send(task, fallback_response(text)),
            _ => send(task, internal_error_response()),
        },
        TaskState::Sending { status } => match event {
            TaskEventView::Delivered => finish(task, Outcome::Delivered { status }),
            TaskEventView::ReceiverDropped => finish(task, Outcome::Cancelled { status }),
            _ => (task, TaskActionView::Nothing),
        },
        TaskState::Finished { outcome } => (task, TaskActionView::Nothing),
    }
}

impl RequestTask {
    /// Begins the task for `request_path`. The first thing it asks for is the
    /// asset that the path names.
    pub fn start(request_path: &str) -> (begun: (RequestTask, TaskAction))
        ensures
            begun.0@ == started(request_path@),
            begun.1@ == (TaskActionView::Resolve { asset_path: spec_asset_path(request_path@) }),
    {
        let task = RequestTask {
            request_path: request_path.to_owned(),
            state: TaskState::Resolving,
        };
        (task, TaskAction::Resolve { asset_path: asset_path(request_path) })
    }

    /// Where the task stands.
    pub fn state(&self) -> (state: TaskState)
        ensures
            state == self@.state,
    {
        self.state
    }

    /// The path of the request.
    pub fn request_path(&self) -> (path: &String)
        ensures
            path@ == self@.request_path,
    {
        &self.request_path
    }

    /// Whether the task has handed over its answer.
    pub fn has_sent(&self) -> (sent: bool)
        ensures
            sent == has_sent(self@.state),
    {
        match self.state {
            TaskState::Sending { .. } => true,
            TaskState::Finished { .. } => true,
            _ => false,
        }
    }

    fn send(&mut self, response: Response) -> (action: TaskAction)
        ensures
            (final(self)@, action@) == send(old(self)@, response@),
    {
        self.state = TaskState::Sending { status: response.status };
        TaskAction::Send { response }
    }

    fn ask_fallback(&mut self) -> (action: TaskAction)
        ensures
            (final(self)@, action@) == ask_fallback(old(self)@),
    {
        self.state = TaskState::AskingFallback;
        TaskAction::AskFallback { request_path: self.request_path.clone() }
    }

    fn finish(&mut self, outcome: Outcome) -> (action: TaskAction)
        ensures
            (final(self)@, action@) == finish(old(self)@, outcome),
    {
        self.state = TaskState::Finished { outcome };
        TaskAction::Report { outcome }
    }

    /// Takes what came of the last thing the task asked for and says what it
    /// asks for next.
    pub fn step(&mut self, event: TaskEvent) -> (action: TaskAction)
        ensures
            (final(self)@, action@) == spec_step(old(self)@, event@),
    {
        match self.state {
            TaskState::Resolving => match event {
                TaskEvent::Resolved { found: FindAssetResult::Found(asset) } => {
                    self.state = TaskState::ReadingContent;
                    TaskAction::ReadContent { asset }
                },
                TaskEvent::Resolved { found: FindAssetResult::NotFound } => self.ask_fallback(),
                _ => self.send(Response::internal_error()),
            },
            TaskState::ReadingContent => match event {
                TaskEvent::Content { content: Some(body) } => self.send(Response::ok(body)),
                TaskEvent::Content { content: None } => self.ask_fallback(),
                _ => self.send(Response::internal_error()),
            },
            TaskState::AskingFallback => match event {
                TaskEvent::Fallback { text } => self.send(Response::from_fallback(text)),
                _ => self.send(Response::internal_error()),
            },
            TaskState::Sending { status } => match event {
                TaskEvent::Delivered => self.finish(Outcome::Delivered { status }),
                TaskEvent::ReceiverDropped => self.finish(Outcome::Cancelled { status }),
                _ => TaskAction::Nothing,
            },
            TaskState::Finished { .. } => TaskAction::Nothing,
        }
    }
}

/// Whether a task in this state has handed over its answer.
pub open spec fn has_sent(state: TaskState) -> bool {
    state is Sending || state is Finished
}

/// The task after the events came back one after the other.
pub open spec fn run(task: TaskView, events: Seq<TaskEventView>) -> TaskView
    decreases events.len(),
{
    if events.len() == 0 {
        task
    } else {
        spec_step(run(task, events.drop_last()), events.last()).0
    }
}

/// The answers that an action hands over: one for `Send`, else none.
pub open spec fn sent_by(action: TaskActionView) -> Seq<ResponseView> {
    match action {
        TaskActionView::Send { response } => seq![response],
        _ => Seq::empty(),
    }
}

/// The answers that the task handed over while the events came back, in
/// order.
pub open spec fn sent_in(task: TaskView, events: Seq<TaskEventView>) -> Seq<ResponseView>
    decreases events.len(),
{
    if events.len() == 0 {
        Seq::empty()
    } else {
        sent_in(task, events.drop_last()) + sent_by(
            spec_step(run(task, events.drop_last()), events.last()).1,
        )
    }
}

/// How many more events a task can take before it has handed over its answer.
pub open spec fn waits_left(state: TaskState) -> nat {
    match state {
        TaskState::Resolving => 3,
        TaskState::ReadingContent => 2,
        TaskState::AskingFallback => 1,
        _ => 0,
    }
}

/// The status that a task which has handed over its answer remembers.
pub open spec fn sent_status(state: TaskState) -> u16 {
    match state {
        TaskState::Sending { status } => status,
        TaskState::Finished { outcome: Outcome::Delivered { status } } => status,
        TaskState::Finished { outcome: Outcome::Cancelled { status } } => status,
        _ => 0,
    }
}

/// Whatever comes back, and in whatever order, a task hands over exactly one
/// answer: none while it waits for an asset, a content or the fallback
/// handler, one from then on, and after three events at the latest. The
/// status it ends with is that of the answer.
pub proof fn lemma_exactly_one_answer(request_path: Seq<char>, events: Seq<TaskEventView>)
    ensures
        !has_sent(run(started(request_path), events).state) ==> sent_in(
            started(request_path),
            events,
        ).len() == 0,
        has_sent(run(started(request_path), events).state) ==> sent_in(
            started(request_path),
            events,
        ).len() == 1 && sent_in(started(request_path), events)[0].status == sent_status(
            run(started(request_path), events).state,
        ),
        waits_left(run(started(request_path), events).state) + events.len() <= 3 || has_sent(
            run(started(request_path), events).state,
        ),
        run(started(request_path), events).request_path == request_path,
    decreases events.len(),
{
    if events.len() > 0 {
        lemma_exactly_one_answer(request_path, events.drop_last());
    }
}

/// The events that come back where nothing fails: the resolver's answer, the
/// content where an asset was found, and what the fallback handler said where
/// no content is served.
pub open spec fn served(
    found: FindAssetResult,
    content: Option<Seq<u8>>,
    fallback: Option<Seq<char>>,
) -> Seq<TaskEventView> {
    match found {
        FindAssetResult::Found(asset) => match content {
            Some(body) => seq![
                TaskEventView::Resolved { found },
                TaskEventView::Content { content },
            ],
            None => seq![
                TaskEventView::Resolved { found },
                TaskEventView::Content { content },
                TaskEventView::Fallback { text: fallback },
            ],
        },
        FindAssetResult::NotFound => seq![
            TaskEventView::Resolved { found },
            TaskEventView::Fallback { text: fallback },
        ],
    }
}

/// Where nothing fails, the answer is the content of the asset that was
/// found, else what the fallback handler gave, else not found.
pub proof fn lemma_answer_served(
    request_path: Seq<char>,
    found: FindAssetResult,
    content: Option<Seq<u8>>,
    fallback: Option<Seq<char>>,
)
    ensures
        sent_in(started(request_path), served(found, content, fallback)) == seq![
            response_for(
                match found {
                    FindAssetResult::Found(asset) => content,
                    FindAssetResult::NotFound => None,
                },
                fallback,
            ),
        ],
{
    let task = started(request_path);
    let events = served(found, content, fallback);
    let first = events.take(1);
    let second = events.take(2);
    reveal_with_fuel(run, 4);
    reveal_with_fuel(sent_in, 4);
    assert(first.drop_last() =~= Seq::<TaskEventView>::empty());
    assert(second.drop_last() =~= first);
    assert(sent_in(task, first) =~= Seq::<ResponseView>::empty());
    if events.len() == 2 {
        assert(events =~= second);
    } else {
        assert(events.drop_last() =~= second);
        assert(sent_in(task, second) =~= Seq::<ResponseView>::empty());
    }
}

/// A failure while the task waits makes it hand over the answer for an
/// internal error, and nothing else.
pub proof fn lemma_answer_failed(request_path: Seq<char>, events: Seq<TaskEventView>)
    requires
        !has_sent(run(started(request_path), events).state),
    ensures
        sent_in(started(request_path), events.push(TaskEventView::Failed)) == seq![
            internal_error_response(),
        ],
{
    let longer = events.push(TaskEventView::Failed);
    assert(longer.drop_last() =~= events);
    lemma_exactly_one_answer(request_path, events);
}

/// Sending to a waiting side that is gone ends the task: it takes note that
/// the answer was not delivered, and asks for nothing more, whatever comes
/// back afterwards.
pub proof fn lemma_receiver_dropped(task: TaskView, status: u16, later: TaskEventView)
    requires
        task.state == (TaskState::Sending { status }),
    ensures
        spec_step(task, TaskEventView::ReceiverDropped) == finish(
            task,
            Outcome::Cancelled { status },
        ),
        spec_step(spec_step(task, TaskEventView::ReceiverDropped).0, later).1
            == TaskActionView::Nothing,
{
}

} // verus!
