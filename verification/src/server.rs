//! The decisions of the serving loop: when to start accepting, when to
//! stop, and what the server finally returns. The loop itself (awaiting the
//! listener, the shutdown signal and the connection drain) runs around
//! `serve_step`, performing each action and reporting each event.
use vstd::prelude::*;

verus! {

/// How long open connections may take to finish once the server stops
/// accepting, in seconds.
pub const CONNECTION_DRAIN_TIMEOUT_SECS: u64 = 10;

/// Where the server is in its life.
#[derive(Debug)]
pub enum ServePhase {
    /// Waiting for the ready notification, or for shutdown.
    Starting,
    /// Accepting connections until shutdown or an accept error.
    Accepting,
    /// Stopped accepting with the given outcome; open connections drain.
    Draining(Result<(), std::io::Error>),
    /// Done.
    Stopped,
}

/// What the loop saw happen.
#[derive(Debug)]
pub enum ServeEvent {
    /// The shutdown future completed with this outcome.
    Shutdown(Result<(), std::io::Error>),
    /// The ready notification completed.
    Ready,
    /// A connection was accepted.
    Accepted,
    /// Accepting a connection failed.
    AcceptFailed(std::io::Error),
    /// Every open connection finished.
    Drained,
    /// The drain deadline elapsed with connections still open.
    DrainDeadlineElapsed,
}

/// What the loop is to do next.
#[derive(Debug)]
pub enum ServeAction {
    /// Keep waiting for the next event of the phase.
    Wait,
    /// Serve the accepted connection, tracked for the drain.
    ServeConnection,
    /// Stop accepting and wait for open connections, within the deadline.
    StartDrain,
    /// Return this outcome; `drain_timed_out` says the deadline elapsed.
    Finish { result: Result<(), std::io::Error>, drain_timed_out: bool },
}

/// The serving loop's transitions. Shutdown before the server is ready
/// ends it at once with the shutdown's outcome. While accepting, shutdown
/// or an accept error stops accepting and starts the drain, keeping the
/// outcome to return; the drain's end or its deadline finishes with that
/// outcome. Events that do not belong to a phase leave it as it is.
pub open spec fn serve_transition(phase: ServePhase, event: ServeEvent) -> (ServePhase, ServeAction) {
    match (phase, event) {
        (ServePhase::Starting, ServeEvent::Shutdown(result)) => (
            ServePhase::Stopped,
            ServeAction::Finish { result, drain_timed_out: false },
        ),
        (ServePhase::Starting, ServeEvent::Ready) => (ServePhase::Accepting, ServeAction::Wait),
        (ServePhase::Accepting, ServeEvent::Accepted) => (ServePhase::Accepting, ServeAction::ServeConnection),
        (ServePhase::Accepting, ServeEvent::Shutdown(result)) => (ServePhase::Draining(result), ServeAction::StartDrain),
        (ServePhase::Accepting, ServeEvent::AcceptFailed(error)) => (
            ServePhase::Draining(Err(error)),
            ServeAction::StartDrain,
        ),
        (ServePhase::Draining(result), ServeEvent::Drained) => (
            ServePhase::Stopped,
            ServeAction::Finish { result, drain_timed_out: false },
        ),
        (ServePhase::Draining(result), ServeEvent::DrainDeadlineElapsed) => (
            ServePhase::Stopped,
            ServeAction::Finish { result, drain_timed_out: true },
        ),
        (phase, _) => (phase, ServeAction::Wait),
    }
}

/// One step of the serving loop: the next phase and action for an event.
pub fn serve_step(phase: ServePhase, event: ServeEvent) -> (r: (ServePhase, ServeAction))
    ensures
        r == serve_transition(phase, event),
{
    match (phase, event) {
        (ServePhase::Starting, ServeEvent::Shutdown(result)) => (
            ServePhase::Stopped,
            ServeAction::Finish { result, drain_timed_out: false },
        ),
        (ServePhase::Starting, ServeEvent::Ready) => (ServePhase::Accepting, ServeAction::Wait),
        (ServePhase::Accepting, ServeEvent::Accepted) => (ServePhase::Accepting, ServeAction::ServeConnection),
        (ServePhase::Accepting, ServeEvent::Shutdown(result)) => (ServePhase::Draining(result), ServeAction::StartDrain),
        (ServePhase::Accepting, ServeEvent::AcceptFailed(error)) => (
            ServePhase::Draining(Err(error)),
            ServeAction::StartDrain,
        ),
        (ServePhase::Draining(result), ServeEvent::Drained) => (
            ServePhase::Stopped,
            ServeAction::Finish { result, drain_timed_out: false },
        ),
        (ServePhase::Draining(result), ServeEvent::DrainDeadlineElapsed) => (
            ServePhase::Stopped,
            ServeAction::Finish { result, drain_timed_out: true },
        ),
        (phase, _) => (phase, ServeAction::Wait),
    }
}

/// The event that ends a drain: every connection finished, or the deadline
/// passed first.
pub open spec fn drain_end(drained: bool) -> ServeEvent {
    if drained {
        ServeEvent::Drained
    } else {
        ServeEvent::DrainDeadlineElapsed
    }
}

/// An accept error stops accepting, and once the drain ends, however it
/// ends, the server returns that error.
pub proof fn law_accept_error_returned_after_drain(error: std::io::Error, drained: bool)
    ensures
        serve_transition(ServePhase::Accepting, ServeEvent::AcceptFailed(error)).1 is StartDrain,
        serve_transition(serve_transition(ServePhase::Accepting, ServeEvent::AcceptFailed(error)).0, drain_end(drained))
            == (ServePhase::Stopped, ServeAction::Finish { result: Err::<(), std::io::Error>(error), drain_timed_out: !drained }),
{
}

/// Shutdown while accepting returns the shutdown's outcome once the drain
/// ends; shutdown before the server is ready returns it at once.
pub proof fn law_shutdown_outcome_returned(result: Result<(), std::io::Error>, drained: bool)
    ensures
        serve_transition(ServePhase::Starting, ServeEvent::Shutdown(result)) == (
            ServePhase::Stopped,
            ServeAction::Finish { result, drain_timed_out: false },
        ),
        serve_transition(serve_transition(ServePhase::Accepting, ServeEvent::Shutdown(result)).0, drain_end(drained))
            == (ServePhase::Stopped, ServeAction::Finish { result, drain_timed_out: !drained }),
{
}

/// Accepting a connection never stops the server, and a stopped server
/// stays stopped whatever happens.
pub proof fn law_accepting_continues_and_stopped_stays(event: ServeEvent)
    ensures
        serve_transition(ServePhase::Accepting, ServeEvent::Accepted).0 is Accepting,
        serve_transition(ServePhase::Stopped, event).0 is Stopped,
        serve_transition(ServePhase::Stopped, event).1 is Wait,
{
}

} // verus!
