use vstd::prelude::*;

use crate::errors::SyncError;
use crate::state::{AppState, AppStateView};

verus! {

/// How long a torn-down initiator waits before reconnecting, and how long
/// the duplex loop sleeps between iterations, in milliseconds.
pub const BACKOFF_MS: u64 = 1000;

/// How often the detector polls the clipboard, in milliseconds.
pub const DETECT_INTERVAL_MS: u64 = 100;

/// Which side of the connection this session is: the initiator dialled
/// out; the listener accepted the peer.
#[derive(Clone, Copy, PartialEq, Eq, Structural, Debug)]
pub enum SessionRole {
    Initiator,
    Listener,
}

/// Where one peer session stands. A session owns at most one live
/// connection; a new one replaces the old wholesale.
#[derive(Clone, Copy, PartialEq, Eq, Structural, Debug)]
pub enum SessionState {
    Idle,
    Connecting,
    Binding,
    Accepting,
    Connected,
    Disconnected,
    Stopped,
}

/// What the surrounding I/O loop observed.
#[derive(Clone, Copy, PartialEq, Eq, Structural, Debug)]
pub enum SessionEvent {
    StartConnect,
    ConnectSucceeded,
    ConnectFailed,
    StartBind,
    BindSucceeded,
    BindFailed,
    AcceptSucceeded,
    AcceptFailed,
    ReadZero,
    ReadData,
    ReadWouldBlock,
    ReadFailed,
    WriteSucceeded,
    WriteFailed,
}

/// What the surrounding I/O loop must do next.
#[derive(Clone, Copy, PartialEq, Eq, Structural, Debug)]
pub enum SessionAction {
    KeepGoing,
    StartDuplex,
    ProcessIncoming,
    SleepMs(u64),
    RetryAfterMs(u64),
    AcceptNext,
    Report(SyncError),
    FailThenRetryMs(SyncError, u64),
    FailThenAccept(SyncError),
}

/// The connection lifecycle, one transition per observed event.
///
/// - A connect failure is surfaced to the caller of the connect
///   operation and retried by nobody.
/// - A bind failure is fatal to the listener and surfaced; the listener
///   never retries the bind.
/// - A read of zero bytes is the peer closing; reads and writes that fail
///   tear the session down the same way. The initiator then reconnects
///   after a fixed backoff; the listener goes back to accepting.
/// - A new accepted connection simply becomes the session's connection:
///   latest connection wins.
/// - Anything unexpected in the current state changes nothing.
pub open spec fn spec_session_step(
    role: SessionRole,
    state: SessionState,
    event: SessionEvent,
) -> (SessionState, SessionAction) {
    match (state, event) {
        (SessionState::Idle, SessionEvent::StartConnect) => (
            SessionState::Connecting,
            SessionAction::KeepGoing,
        ),
        (SessionState::Idle, SessionEvent::StartBind) => (
            SessionState::Binding,
            SessionAction::KeepGoing,
        ),
        (SessionState::Disconnected, SessionEvent::StartConnect) => (
            SessionState::Connecting,
            SessionAction::KeepGoing,
        ),
        (SessionState::Connecting, SessionEvent::ConnectSucceeded) => (
            SessionState::Connected,
            SessionAction::StartDuplex,
        ),
        (SessionState::Connecting, SessionEvent::ConnectFailed) => (
            SessionState::Disconnected,
            SessionAction::Report(SyncError::ConnectFailure),
        ),
        (SessionState::Binding, SessionEvent::BindSucceeded) => (
            SessionState::Accepting,
            SessionAction::KeepGoing,
        ),
        (SessionState::Binding, SessionEvent::BindFailed) => (
            SessionState::Stopped,
            SessionAction::Report(SyncError::BindFailure),
        ),
        (SessionState::Accepting, SessionEvent::AcceptSucceeded) => (
            SessionState::Connected,
            SessionAction::StartDuplex,
        ),
        (SessionState::Accepting, SessionEvent::AcceptFailed) => (
            SessionState::Accepting,
            SessionAction::RetryAfterMs(BACKOFF_MS),
        ),
        (SessionState::Connected, SessionEvent::ReadZero) => match role {
            SessionRole::Initiator => (
                SessionState::Disconnected,
                SessionAction::RetryAfterMs(BACKOFF_MS),
            ),
            SessionRole::Listener => (SessionState::Accepting, SessionAction::AcceptNext),
        },
        (SessionState::Connected, SessionEvent::ReadFailed) => match role {
            SessionRole::Initiator => (
                SessionState::Disconnected,
                SessionAction::FailThenRetryMs(SyncError::IoFailure, BACKOFF_MS),
            ),
            SessionRole::Listener => (
                SessionState::Accepting,
                SessionAction::FailThenAccept(SyncError::IoFailure),
            ),
        },
        (SessionState::Connected, SessionEvent::WriteFailed) => match role {
            SessionRole::Initiator => (
                SessionState::Disconnected,
                SessionAction::FailThenRetryMs(SyncError::IoFailure, BACKOFF_MS),
            ),
            SessionRole::Listener => (
                SessionState::Accepting,
                SessionAction::FailThenAccept(SyncError::IoFailure),
            ),
        },
        (SessionState::Connected, SessionEvent::ReadData) => (
            SessionState::Connected,
            SessionAction::ProcessIncoming,
        ),
        (SessionState::Connected, SessionEvent::ReadWouldBlock) => (
            SessionState::Connected,
            SessionAction::SleepMs(BACKOFF_MS),
        ),
        (SessionState::Connected, SessionEvent::WriteSucceeded) => (
            SessionState::Connected,
            SessionAction::KeepGoing,
        ),
        _ => (state, SessionAction::KeepGoing),
    }
}

/// One transition of the connection lifecycle; see `spec_session_step`
/// for the table.
pub fn session_step(role: SessionRole, state: SessionState, event: SessionEvent) -> (r: (
    SessionState,
    SessionAction,
))
    ensures
        r == spec_session_step(role, state, event),
{
    match (state, event) {
        (SessionState::Idle, SessionEvent::StartConnect) => (
            SessionState::Connecting,
            SessionAction::KeepGoing,
        ),
        (SessionState::Idle, SessionEvent::StartBind) => (
            SessionState::Binding,
            SessionAction::KeepGoing,
        ),
        (SessionState::Disconnected, SessionEvent::StartConnect) => (
            SessionState::Connecting,
            SessionAction::KeepGoing,
        ),
        (SessionState::Connecting, SessionEvent::ConnectSucceeded) => (
            SessionState::Connected,
            SessionAction::StartDuplex,
        ),
        (SessionState::Connecting, SessionEvent::ConnectFailed) => (
            SessionState::Disconnected,
            SessionAction::Report(SyncError::ConnectFailure),
        ),
        (SessionState::Binding, SessionEvent::BindSucceeded) => (
            SessionState::Accepting,
            SessionAction::KeepGoing,
        ),
        (SessionState::Binding, SessionEvent::BindFailed) => (
            SessionState::Stopped,
            SessionAction::Report(SyncError::BindFailure),
        ),
        (SessionState::Accepting, SessionEvent::AcceptSucceeded) => (
            SessionState::Connected,
            SessionAction::StartDuplex,
        ),
        (SessionState::Accepting, SessionEvent::AcceptFailed) => (
            SessionState::Accepting,
            SessionAction::RetryAfterMs(BACKOFF_MS),
        ),
        (SessionState::Connected, SessionEvent::ReadZero) => match role {
            SessionRole::Initiator => (
                SessionState::Disconnected,
                SessionAction::RetryAfterMs(BACKOFF_MS),
            ),
            SessionRole::Listener => (SessionState::Accepting, SessionAction::AcceptNext),
        },
        (SessionState::Connected, SessionEvent::ReadFailed) => match role {
            SessionRole::Initiator => (
                SessionState::Disconnected,
                SessionAction::FailThenRetryMs(SyncError::IoFailure, BACKOFF_MS),
            ),
            SessionRole::Listener => (
                SessionState::Accepting,
                SessionAction::FailThenAccept(SyncError::IoFailure),
            ),
        },
        (SessionState::Connected, SessionEvent::WriteFailed) => match role {
            SessionRole::Initiator => (
                SessionState::Disconnected,
                SessionAction::FailThenRetryMs(SyncError::IoFailure, BACKOFF_MS),
            ),
            SessionRole::Listener => (
                SessionState::Accepting,
                SessionAction::FailThenAccept(SyncError::IoFailure),
            ),
        },
        (SessionState::Connected, SessionEvent::ReadData) => (
            SessionState::Connected,
            SessionAction::ProcessIncoming,
        ),
        (SessionState::Connected, SessionEvent::ReadWouldBlock) => (
            SessionState::Connected,
            SessionAction::SleepMs(BACKOFF_MS),
        ),
        (SessionState::Connected, SessionEvent::WriteSucceeded) => (
            SessionState::Connected,
            SessionAction::KeepGoing,
        ),
        _ => (state, SessionAction::KeepGoing),
    }
}

/// Remember the peer this process dials, as the connect operation does
/// once the connection attempt has succeeded. The caller persists the
/// state afterwards.
pub fn record_server_config(state: &mut AppState, address: String, port: u16)
    ensures
        final(state)@ == (AppStateView {
            server_address: Some(address@),
            server_port: port,
            ..old(state)@
        }),
{
    state.server_address = Some(address);
    state.server_port = port;
}

} // verus!
