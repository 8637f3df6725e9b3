use vstd::prelude::*;

verus! {

/// A change of one key of the matrix.
#[derive(Copy, Clone, Debug, PartialEq, Eq, Structural)]
pub struct KeyEvent {
    pub row: u8,
    pub col: u8,
    pub pressed: bool,
}

/// An event that an input device reports.
#[derive(Copy, Clone, Debug, PartialEq, Eq, Structural)]
pub enum Event {
    Key(KeyEvent),
}

/// What a debouncer says of one sample of one key.
#[derive(Copy, Clone, Debug, PartialEq, Eq, Structural)]
pub enum DebounceState {
    /// The key's state has changed, and the change has settled.
    Debounced,
    /// A change is being observed but has not settled yet.
    InProgress,
    /// The sample agrees with the key's state.
    Ignored,
}

/// Whether the keyboard is connected to a host over USB or BLE.
#[derive(Copy, Clone, Debug, PartialEq, Eq, Structural)]
pub enum ConnectionState {
    Disconnected,
    Connected,
}

pub open spec fn connection_code(state: ConnectionState) -> u8 {
    match state {
        ConnectionState::Disconnected => 0,
        ConnectionState::Connected => 1,
    }
}

impl ConnectionState {
    /// The byte under which the state is kept in an atomic.
    pub fn to_u8(self) -> (b: u8)
        ensures
            b == connection_code(self),
    {
        match self {
            ConnectionState::Disconnected => 0,
            ConnectionState::Connected => 1,
        }
    }
}

/// Milliseconds to sleep between two looks at the connection state.
pub const CONNECTION_POLL_MILLIS: u64 = 100;

/// One round of waiting for a connection: given the byte currently held for
/// the connection state, `Some(ms)` asks to sleep `ms` milliseconds and look
/// again, `None` means that a host is connected and scanning may start.
pub fn wait_for_connected_step(current: u8) -> (r: Option<u64>)
    ensures
        r == (if current == connection_code(ConnectionState::Disconnected) {
            Some(CONNECTION_POLL_MILLIS)
        } else {
            None::<u64>
        }),
{
    if current == ConnectionState::Disconnected.to_u8() {
        Some(CONNECTION_POLL_MILLIS)
    } else {
        None
    }
}

} // verus!
