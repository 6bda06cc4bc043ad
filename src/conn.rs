//! The connection supervisor's state machine: the transport reports events,
//! and the machine says the next state and which status the UI is told.

use vstd::prelude::*;

verus! {

/// Interval between reconnection attempts, in milliseconds.
pub const RECONNECT_INTERVAL_MS: u32 = 1000;

#[derive(PartialEq, Eq, Structural, Clone, Copy, Debug)]
pub enum ConnState {
    Disconnected,
    Connecting,
    Connected,
}

/// What the transport reports.
#[derive(PartialEq, Eq, Structural, Clone, Copy, Debug)]
pub enum ConnEvent {
    /// An attempt to connect starts (first open, reconnect, or a new address).
    Attempt,
    /// The connection is up.
    Opened,
    /// The attempt failed.
    OpenFailed,
    /// The connection went down, or was closed.
    Closed,
}

/// The status pushed to the UI on a transition.
#[derive(PartialEq, Eq, Structural, Clone, Copy, Debug)]
pub enum StatusPush {
    Connected,
    Disconnected,
}

impl StatusPush {
    /// The status text the UI receives.
    pub fn text(&self) -> (r: String)
        ensures
            r@ == (match self {
                StatusPush::Connected => "connected"@,
                StatusPush::Disconnected => "disconnected"@,
            }),
    {
        match self {
            StatusPush::Connected => "connected".to_owned(),
            StatusPush::Disconnected => "disconnected".to_owned(),
        }
    }
}

/// Next state, and the status to push, after an event. An attempt does not
/// drop a connection that is up; every close is reported to the UI.
pub fn conn_step(state: ConnState, event: ConnEvent) -> (r: (ConnState, Option<StatusPush>))
    ensures
        event == ConnEvent::Attempt ==> r == (if state == ConnState::Connected {
            ConnState::Connected
        } else {
            ConnState::Connecting
        }, None::<StatusPush>),
        event == ConnEvent::Opened ==> r == (ConnState::Connected, Some(StatusPush::Connected)),
        event == ConnEvent::OpenFailed ==> r == (ConnState::Disconnected, None::<StatusPush>),
        event == ConnEvent::Closed ==> r == (ConnState::Disconnected, Some(StatusPush::Disconnected)),
{
    match event {
        ConnEvent::Attempt => {
            if state == ConnState::Connected {
                (ConnState::Connected, None)
            } else {
                (ConnState::Connecting, None)
            }
        },
        ConnEvent::Opened => (ConnState::Connected, Some(StatusPush::Connected)),
        ConnEvent::OpenFailed => (ConnState::Disconnected, None),
        ConnEvent::Closed => (ConnState::Disconnected, Some(StatusPush::Disconnected)),
    }
}

/// Whether the connection is usable.
pub fn is_connected(state: ConnState) -> (r: bool)
    ensures
        r == (state == ConnState::Connected),
{
    state == ConnState::Connected
}

} // verus!
