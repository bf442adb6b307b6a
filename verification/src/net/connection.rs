//! Connection lifecycle decisions: what the client does each frame, and
//! when the game may leave the connecting screen.
use vstd::prelude::*;
use crate::GameState;

verus! {

/// Connection lifecycle states
#[derive(Clone, Debug, PartialEq, Eq)]
pub enum ConnectionState {
    Disconnected,
    Connecting,
    Connected,
    Reconnecting,
    Offline,
    Error(String),
}

/// Whether the connection attempt has resolved, so that the game can go on
/// to play: connected, offline, or failed (the game then plays offline).
pub fn connection_resolved(state: &ConnectionState) -> (r: bool)
    ensures
        r == (state is Connected || state is Offline || state is Error),
{
    match state {
        ConnectionState::Connected | ConnectionState::Offline => true,
        ConnectionState::Error(_) => true,
        _ => false,
    }
}

/// Transition from Connecting to Playing once connection resolves; a failed
/// connection still lets the game play, in offline mode. Any other state of
/// the game stays as it is.
pub fn transition_from_connecting(state: GameState, connection: &ConnectionState) -> (r: GameState)
    ensures
        r == if state == GameState::Connecting && (connection is Connected || connection is Offline
            || connection is Error) {
            GameState::Playing
        } else {
            state
        },
{
    if state == GameState::Connecting && connection_resolved(connection) {
        GameState::Playing
    } else {
        state
    }
}

/// The outcome of one frame of the connection manager.
#[derive(Clone, Debug)]
pub struct ConnectionStep {
    /// The state after this frame
    pub state: ConnectionState,
    /// Whether a connection has been attempted
    pub connection_attempted: bool,
    /// Whether the reconnect timer starts over
    pub reset_reconnect_timer: bool,
}

/// One frame of the connection manager. `reconnect_window_over` says that
/// the reconnect timer, advanced by this frame, is past the reconnect window
/// (10 s); `retry_wait_over` that it is past the wait before a retry after an
/// error (30 s).
///
/// The first frame starts a connection; a connection attempt falls back to
/// offline mode (no server is available); reconnecting gives up after the
/// reconnect window; an error waits, then reconnects with a fresh timer.
pub fn connection_step(
    state: &ConnectionState,
    connection_attempted: bool,
    reconnect_window_over: bool,
    retry_wait_over: bool,
) -> (r: ConnectionStep)
    ensures
        r.connection_attempted == (connection_attempted || (*state is Disconnected)),
        r.reset_reconnect_timer == (*state is Error && retry_wait_over),
        r.state == match *state {
            ConnectionState::Disconnected => if connection_attempted {
                ConnectionState::Disconnected
            } else {
                ConnectionState::Connecting
            },
            ConnectionState::Connecting => ConnectionState::Offline,
            ConnectionState::Connected => ConnectionState::Connected,
            ConnectionState::Reconnecting => if reconnect_window_over {
                ConnectionState::Offline
            } else {
                ConnectionState::Reconnecting
            },
            ConnectionState::Offline => ConnectionState::Offline,
            ConnectionState::Error(msg) => if retry_wait_over {
                ConnectionState::Reconnecting
            } else {
                ConnectionState::Error(msg)
            },
        },
{
    match state {
        ConnectionState::Disconnected => {
            // Attempt connection on first frame
            if !connection_attempted {
                ConnectionStep { state: ConnectionState::Connecting, connection_attempted: true, reset_reconnect_timer: false }
            } else {
                ConnectionStep { state: ConnectionState::Disconnected, connection_attempted: true, reset_reconnect_timer: false }
            }
        },
        ConnectionState::Connecting => {
            // Without a server the attempt resolves to offline mode at once
            ConnectionStep { state: ConnectionState::Offline, connection_attempted, reset_reconnect_timer: false }
        },
        ConnectionState::Connected => {
            ConnectionStep { state: ConnectionState::Connected, connection_attempted, reset_reconnect_timer: false }
        },
        ConnectionState::Reconnecting => {
            if reconnect_window_over {
                ConnectionStep { state: ConnectionState::Offline, connection_attempted, reset_reconnect_timer: false }
            } else {
                ConnectionStep { state: ConnectionState::Reconnecting, connection_attempted, reset_reconnect_timer: false }
            }
        },
        ConnectionState::Offline => {
            ConnectionStep { state: ConnectionState::Offline, connection_attempted, reset_reconnect_timer: false }
        },
        ConnectionState::Error(msg) => {
            if retry_wait_over {
                ConnectionStep { state: ConnectionState::Reconnecting, connection_attempted, reset_reconnect_timer: true }
            } else {
                ConnectionStep { state: ConnectionState::Error(msg.clone()), connection_attempted, reset_reconnect_timer: false }
            }
        },
    }
}

} // verus!
