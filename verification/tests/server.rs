use dathagerty::server::{serve_step, ServeAction, ServeEvent, ServePhase};

fn finish(action: ServeAction) -> (Result<(), std::io::Error>, bool) {
    match action {
        ServeAction::Finish { result, drain_timed_out } => (result, drain_timed_out),
        other => panic!("expected to finish, got {other:?}"),
    }
}

#[test]
fn server_stops_when_shutdown_future_completes() {
    let (phase, action) = serve_step(ServePhase::Starting, ServeEvent::Ready);
    assert!(matches!(phase, ServePhase::Accepting));
    assert!(matches!(action, ServeAction::Wait));

    let (phase, action) = serve_step(phase, ServeEvent::Shutdown(Ok(())));
    assert!(matches!(action, ServeAction::StartDrain));
    let (phase, action) = serve_step(phase, ServeEvent::Drained);
    assert!(matches!(phase, ServePhase::Stopped));
    let (result, timed_out) = finish(action);
    assert!(result.is_ok());
    assert!(!timed_out);
}

#[test]
fn shutdown_interrupts_pending_ready_notification() {
    let (phase, action) = serve_step(ServePhase::Starting, ServeEvent::Shutdown(Ok(())));

    assert!(matches!(phase, ServePhase::Stopped));
    assert!(finish(action).0.is_ok());
}

#[test]
fn accept_error_is_returned_after_connections_drain() {
    let (phase, _) = serve_step(ServePhase::Starting, ServeEvent::Ready);
    let (phase, action) = serve_step(phase, ServeEvent::Accepted);
    assert!(matches!(action, ServeAction::ServeConnection));

    let (phase, action) = serve_step(phase, ServeEvent::AcceptFailed(std::io::Error::other("accept failed")));
    assert!(matches!(action, ServeAction::StartDrain));
    let (_, action) = serve_step(phase, ServeEvent::Drained);

    let (result, timed_out) = finish(action);
    assert_eq!(result.unwrap_err().to_string(), "accept failed");
    assert!(!timed_out);
}

#[test]
fn pending_connections_stop_draining_at_the_deadline_and_preserve_accept_error() {
    let (phase, _) = serve_step(
        ServePhase::Accepting,
        ServeEvent::AcceptFailed(std::io::Error::other("accept failed")),
    );
    let (phase, action) = serve_step(phase, ServeEvent::DrainDeadlineElapsed);

    assert!(matches!(phase, ServePhase::Stopped));
    let (result, timed_out) = finish(action);
    assert_eq!(result.unwrap_err().to_string(), "accept failed");
    assert!(timed_out);
}

#[test]
fn server_returns_shutdown_signal_errors() {
    let (phase, _) = serve_step(ServePhase::Accepting, ServeEvent::Shutdown(Err(std::io::Error::other("signal failed"))));
    let (_, action) = serve_step(phase, ServeEvent::Drained);

    assert_eq!(finish(action).0.unwrap_err().to_string(), "signal failed");
}

#[test]
fn events_outside_their_phase_change_nothing() {
    let (phase, action) = serve_step(ServePhase::Starting, ServeEvent::Accepted);
    assert!(matches!(phase, ServePhase::Starting));
    assert!(matches!(action, ServeAction::Wait));

    let (phase, action) = serve_step(ServePhase::Stopped, ServeEvent::Ready);
    assert!(matches!(phase, ServePhase::Stopped));
    assert!(matches!(action, ServeAction::Wait));
}

#[test]
fn open_connections_get_ten_seconds_to_drain() {
    assert_eq!(dathagerty::server::CONNECTION_DRAIN_TIMEOUT_SECS, 10);
}
