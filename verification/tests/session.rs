use clipsync::errors::SyncError;
use clipsync::session::{
    session_step, SessionAction, SessionEvent, SessionRole, SessionState, BACKOFF_MS,
};
use clipsync::state::AppState;

#[test]
fn bind_failure_is_fatal_and_reported_without_retry() {
    // Scenario: the listener's port is already in use.
    let (state, action) =
        session_step(SessionRole::Listener, SessionState::Binding, SessionEvent::BindFailed);
    assert_eq!(state, SessionState::Stopped);
    assert_eq!(action, SessionAction::Report(SyncError::BindFailure));
    // A stopped listener reacts to nothing any more.
    let (again, a2) = session_step(SessionRole::Listener, state, SessionEvent::AcceptFailed);
    assert_eq!(again, SessionState::Stopped);
    assert_eq!(a2, SessionAction::KeepGoing);
}

#[test]
fn bind_success_moves_to_accepting() {
    let (state, action) =
        session_step(SessionRole::Listener, SessionState::Binding, SessionEvent::BindSucceeded);
    assert_eq!(state, SessionState::Accepting);
    assert_eq!(action, SessionAction::KeepGoing);
}

#[test]
fn read_zero_disconnects_and_initiator_retries_after_backoff() {
    // Scenario: the socket read returns 0 bytes mid-session.
    let (state, action) =
        session_step(SessionRole::Initiator, SessionState::Connected, SessionEvent::ReadZero);
    assert_eq!(state, SessionState::Disconnected);
    assert_eq!(action, SessionAction::RetryAfterMs(1000));
    assert_eq!(BACKOFF_MS, 1000);
    // After the backoff the loop starts a new connection attempt.
    let (next, a2) = session_step(SessionRole::Initiator, state, SessionEvent::StartConnect);
    assert_eq!(next, SessionState::Connecting);
    assert_eq!(a2, SessionAction::KeepGoing);
}

#[test]
fn read_zero_sends_listener_back_to_accepting() {
    let (state, action) =
        session_step(SessionRole::Listener, SessionState::Connected, SessionEvent::ReadZero);
    assert_eq!(state, SessionState::Accepting);
    assert_eq!(action, SessionAction::AcceptNext);
}

#[test]
fn connect_failure_is_surfaced_to_the_caller() {
    let (state, action) =
        session_step(SessionRole::Initiator, SessionState::Connecting, SessionEvent::ConnectFailed);
    assert_eq!(state, SessionState::Disconnected);
    assert_eq!(action, SessionAction::Report(SyncError::ConnectFailure));
}

#[test]
fn connect_success_starts_the_duplex_loop() {
    let (state, action) = session_step(
        SessionRole::Initiator,
        SessionState::Connecting,
        SessionEvent::ConnectSucceeded,
    );
    assert_eq!(state, SessionState::Connected);
    assert_eq!(action, SessionAction::StartDuplex);
}

#[test]
fn mid_session_io_failure_reports_and_tears_down() {
    let (state, action) =
        session_step(SessionRole::Initiator, SessionState::Connected, SessionEvent::WriteFailed);
    assert_eq!(state, SessionState::Disconnected);
    assert_eq!(action, SessionAction::FailThenRetryMs(SyncError::IoFailure, 1000));
    let (state2, action2) =
        session_step(SessionRole::Listener, SessionState::Connected, SessionEvent::ReadFailed);
    assert_eq!(state2, SessionState::Accepting);
    assert_eq!(action2, SessionAction::FailThenAccept(SyncError::IoFailure));
}

#[test]
fn accept_failure_retries_and_accept_success_wins() {
    let (s1, a1) =
        session_step(SessionRole::Listener, SessionState::Accepting, SessionEvent::AcceptFailed);
    assert_eq!(s1, SessionState::Accepting);
    assert_eq!(a1, SessionAction::RetryAfterMs(1000));
    let (s2, a2) =
        session_step(SessionRole::Listener, SessionState::Accepting, SessionEvent::AcceptSucceeded);
    assert_eq!(s2, SessionState::Connected);
    assert_eq!(a2, SessionAction::StartDuplex);
}

#[test]
fn connected_loop_actions() {
    let (s1, a1) =
        session_step(SessionRole::Initiator, SessionState::Connected, SessionEvent::ReadData);
    assert_eq!(s1, SessionState::Connected);
    assert_eq!(a1, SessionAction::ProcessIncoming);
    let (s2, a2) =
        session_step(SessionRole::Initiator, SessionState::Connected, SessionEvent::ReadWouldBlock);
    assert_eq!(s2, SessionState::Connected);
    assert_eq!(a2, SessionAction::SleepMs(1000));
    let (s3, a3) =
        session_step(SessionRole::Initiator, SessionState::Connected, SessionEvent::WriteSucceeded);
    assert_eq!(s3, SessionState::Connected);
    assert_eq!(a3, SessionAction::KeepGoing);
}

#[test]
fn record_server_config_remembers_the_peer() {
    let mut state = AppState::new();
    clipsync::session::record_server_config(&mut state, "192.168.1.20".to_string(), 8080);
    assert_eq!(state.server_address.as_deref(), Some("192.168.1.20"));
    assert_eq!(state.server_port, 8080);
}

#[test]
fn error_descriptions_name_each_condition() {
    assert_eq!(SyncError::ClipboardUnavailable.describe(), "clipboard unavailable");
    assert_eq!(SyncError::DecodeError.describe(), "wire message could not be decoded");
    assert_eq!(SyncError::ConnectFailure.describe(), "connection attempt failed");
    assert_eq!(SyncError::IoFailure.describe(), "socket read or write failed");
    assert_eq!(SyncError::BindFailure.describe(), "listener could not bind its port");
}
