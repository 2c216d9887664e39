use vstd::prelude::*;

verus! {

/// The connection manager's state: it either holds a live event stream
/// or it does not.
#[derive(PartialEq, Eq, Structural, Clone, Copy, Debug)]
pub enum ConnState {
    Disconnected,
    Connected,
}

/// What the outside world reports to the state machine.
#[derive(PartialEq, Eq, Structural, Clone, Copy, Debug)]
pub enum LoopEvent {
    /// A connection attempt succeeded.
    ConnectSucceeded,
    /// A connection attempt failed.
    ConnectFailed,
    /// One complete line arrived on the event stream.
    LineReceived,
    /// The event stream ended.
    StreamEnded,
}

/// What the driver must do next. There is deliberately no terminal
/// action: the process runs until killed externally.
#[derive(PartialEq, Eq, Structural, Clone, Copy, Debug)]
pub enum LoopAction {
    /// Block reading the next line of the event stream.
    AwaitLine,
    /// Emit the retry error record, wait the fixed backoff, try again.
    EmitRetryErrorAndSleep,
    /// Run one full refresh and emit its output record.
    RunRefresh,
    /// Drop the dead stream and attempt a fresh connection.
    Reconnect,
}

/// An event the outside world can actually deliver in the given state.
pub open spec fn event_fits(s: ConnState, e: LoopEvent) -> bool {
    match s {
        ConnState::Disconnected => e == LoopEvent::ConnectSucceeded
            || e == LoopEvent::ConnectFailed,
        ConnState::Connected => e == LoopEvent::LineReceived || e == LoopEvent::StreamEnded,
    }
}

/// The transition function of the two-state connection manager.
pub open spec fn step_spec(s: ConnState, e: LoopEvent) -> (ConnState, LoopAction) {
    match (s, e) {
        (ConnState::Disconnected, LoopEvent::ConnectSucceeded) => (
            ConnState::Connected,
            LoopAction::AwaitLine,
        ),
        (ConnState::Disconnected, _) => (
            ConnState::Disconnected,
            LoopAction::EmitRetryErrorAndSleep,
        ),
        (ConnState::Connected, LoopEvent::LineReceived) => (
            ConnState::Connected,
            LoopAction::RunRefresh,
        ),
        (ConnState::Connected, _) => (ConnState::Disconnected, LoopAction::Reconnect),
    }
}

/// One step of the event loop: what state to move to and what to do,
/// given what just happened.
pub fn step(s: ConnState, e: LoopEvent) -> (r: (ConnState, LoopAction))
    requires
        event_fits(s, e),
    ensures
        r == step_spec(s, e),
{
    match (s, e) {
        (ConnState::Disconnected, LoopEvent::ConnectSucceeded) => (
            ConnState::Connected,
            LoopAction::AwaitLine,
        ),
        (ConnState::Disconnected, _) => (
            ConnState::Disconnected,
            LoopAction::EmitRetryErrorAndSleep,
        ),
        (ConnState::Connected, LoopEvent::LineReceived) => (
            ConnState::Connected,
            LoopAction::RunRefresh,
        ),
        (ConnState::Connected, _) => (ConnState::Disconnected, LoopAction::Reconnect),
    }
}

/// Law: a failed connection never terminates the machine, it keeps
/// retrying from `Disconnected`; a later success reaches `Connected`,
/// after which every received line triggers a refresh, and a dead
/// stream falls back to reconnecting instead of stopping.
pub proof fn lemma_connection_recovery()
    ensures
        step_spec(ConnState::Disconnected, LoopEvent::ConnectFailed) == (
            ConnState::Disconnected,
            LoopAction::EmitRetryErrorAndSleep,
        ),
        step_spec(ConnState::Disconnected, LoopEvent::ConnectSucceeded).0 == ConnState::Connected,
        step_spec(ConnState::Connected, LoopEvent::LineReceived) == (
            ConnState::Connected,
            LoopAction::RunRefresh,
        ),
        step_spec(ConnState::Connected, LoopEvent::StreamEnded).0 == ConnState::Disconnected,
{
}

} // verus!
