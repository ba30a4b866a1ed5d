//! The task that follows the filter log.
//!
//! The task goes round three states for as long as the process runs. It
//! opens the stream of the log, reads it line by line and publishes every
//! line that is accepted; when the stream ends it waits and opens the stream
//! again. A failure of the session ends the process.

use vstd::prelude::*;
use crate::firewall_logs::{reads_as, InterfaceSet, Log};

verus! {

/// Seconds to wait before the stream is opened again.
pub const BACKOFF_SECONDS: u64 = 1;

/// Where the task stands.
#[derive(Clone, Copy, Debug, PartialEq, Eq, Structural)]
pub enum TailerState {
    /// The stream is being opened.
    Connecting,
    /// Lines are read from the stream.
    Streaming,
    /// The stream has ended and the task waits.
    Backoff,
}

/// What happened to the task.
#[derive(Debug)]
pub enum TailerEvent {
    /// The stream was opened.
    Opened,
    /// A line was read.
    Line(String),
    /// The stream came to its end.
    Ended,
    /// The wait is over.
    Waited,
    /// The session failed.
    Failed,
}

/// What the task has to do next.
#[derive(Debug)]
pub enum TailerAction {
    /// Open the stream.
    Open,
    /// Read the next line.
    Read,
    /// Put the event into the window, then read the next line.
    Publish(Log),
    /// Wait for so many seconds.
    Sleep(u64),
    /// End the process.
    Exit,
}

/// What a state waits for: the action whose outcome is the next event.
pub open spec fn pending(state: TailerState) -> TailerAction {
    match state {
        TailerState::Connecting => TailerAction::Open,
        TailerState::Streaming => TailerAction::Read,
        TailerState::Backoff => TailerAction::Sleep(BACKOFF_SECONDS),
    }
}

/// The state in which the task starts, and its first action.
pub fn start() -> (first: (TailerState, TailerAction))
    ensures
        first.0 == TailerState::Connecting,
        first.1 == TailerAction::Open,
{
    (TailerState::Connecting, TailerAction::Open)
}

/// Whether `next` and `action` are the answer to `event` in `state`.
///
/// A failure of the session ends the process from any state. An opened
/// stream is read; a line is published where it is accepted and passed over
/// where it is not, and reading goes on; at the end of the stream the task
/// waits, and after the wait it opens the stream again. An event that the
/// state does not wait for changes nothing.
pub open spec fn answers(
    state: TailerState,
    event: TailerEvent,
    interesting: Set<Seq<char>>,
    next: TailerState,
    action: TailerAction,
) -> bool {
    match (state, event) {
        (_, TailerEvent::Failed) => next == state && action == TailerAction::Exit,
        (TailerState::Connecting, TailerEvent::Opened) => next == TailerState::Streaming
            && action == TailerAction::Read,
        (TailerState::Streaming, TailerEvent::Line(line)) => next == TailerState::Streaming && (
        match action {
            TailerAction::Publish(log) => reads_as(Ok(log), line@, interesting),
            TailerAction::Read => reads_as(Err(()), line@, interesting),
            _ => false,
        }),
        (TailerState::Streaming, TailerEvent::Ended) => next == TailerState::Backoff && action
            == TailerAction::Sleep(BACKOFF_SECONDS),
        (TailerState::Backoff, TailerEvent::Waited) => next == TailerState::Connecting && action
            == TailerAction::Open,
        _ => next == state && action == pending(state),
    }
}

/// The next state and the next action of the task.
pub fn step(state: TailerState, event: TailerEvent, interfaces: &InterfaceSet) -> (answer: (
    TailerState,
    TailerAction,
))
    ensures
        answers(state, event, interfaces@, answer.0, answer.1),
{
    match event {
        TailerEvent::Failed => (state, TailerAction::Exit),
        TailerEvent::Opened => match state {
            TailerState::Connecting => (TailerState::Streaming, TailerAction::Read),
            _ => (state, waiting_for(state)),
        },
        TailerEvent::Line(line) => match state {
            TailerState::Streaming => match Log::from_str(line.as_str(), interfaces) {
                Ok(log) => (TailerState::Streaming, TailerAction::Publish(log)),
                Err(_) => (TailerState::Streaming, TailerAction::Read),
            },
            _ => (state, waiting_for(state)),
        },
        TailerEvent::Ended => match state {
            TailerState::Streaming => (TailerState::Backoff, TailerAction::Sleep(BACKOFF_SECONDS)),
            _ => (state, waiting_for(state)),
        },
        TailerEvent::Waited => match state {
            TailerState::Backoff => (TailerState::Connecting, TailerAction::Open),
            _ => (state, waiting_for(state)),
        },
    }
}

/// The action whose outcome `state` waits for.
pub fn waiting_for(state: TailerState) -> (action: TailerAction)
    ensures
        action == pending(state),
{
    match state {
        TailerState::Connecting => TailerAction::Open,
        TailerState::Streaming => TailerAction::Read,
        TailerState::Backoff => TailerAction::Sleep(BACKOFF_SECONDS),
    }
}

/// The task never stops of itself: whatever happens, short of a failure of
/// the session, the answer is an action other than the end of the process.
pub proof fn lemma_only_failure_exits(
    state: TailerState,
    event: TailerEvent,
    interesting: Set<Seq<char>>,
    next: TailerState,
    action: TailerAction,
)
    requires
        answers(state, event, interesting, next, action),
    ensures
        action is Exit <==> event is Failed,
{
}

} // verus!
