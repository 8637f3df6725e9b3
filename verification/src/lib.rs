//! Keyboard matrix scanning, written as verified state machines.
//!
//! The scanning logic of a key matrix (which pin to drive, which key to
//! sample next, when a debounced change becomes a key event) is modelled
//! here as step functions from a state and the outcome of the last action
//! to the next state and the next action.  Driving pins, reading them,
//! waiting on timers and running a debouncer are left to the caller.

pub mod event;
pub mod key_state;
pub mod matrix;
pub mod matrix_laws;
pub mod mux_laws;
pub mod mux_matrix;
pub mod test_matrix;
mod time;

pub use event::{wait_for_connected_step, ConnectionState, DebounceState, Event, KeyEvent};
pub use key_state::KeyState;
pub use matrix::{Matrix, ScanAction, ScanFeedback};
pub use mux_matrix::{MuxAction, MuxFeedback, MuxMatrix, MuxReadAction};
pub use test_matrix::{TestAction, TestMatrix};
