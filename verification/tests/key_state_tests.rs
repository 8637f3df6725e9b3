use rmk_matrix::key_state::KeyState;
use rmk_matrix::{wait_for_connected_step, ConnectionState};

#[test]
fn key_state_starts_released() {
    let k = KeyState::new();
    assert!(!k.pressed);
    assert!(k.is_releasing());
    assert!(!k.is_pressing());
    let d = KeyState::default();
    assert!(!d.pressed);
}

#[test]
fn toggle_flips_and_twice_restores() {
    let mut k = KeyState::new();
    k.toggle_pressed();
    assert!(k.pressed);
    assert!(k.is_pressing());
    assert!(!k.is_releasing());
    k.toggle_pressed();
    assert_eq!(k, KeyState::new());
}

#[test]
fn connection_wait_sleeps_while_disconnected() {
    assert_eq!(ConnectionState::Disconnected.to_u8(), 0);
    assert_eq!(ConnectionState::Connected.to_u8(), 1);
    assert_eq!(wait_for_connected_step(ConnectionState::Disconnected.to_u8()), Some(100));
    assert_eq!(wait_for_connected_step(ConnectionState::Connected.to_u8()), None);
    assert_eq!(wait_for_connected_step(7), None);
}
