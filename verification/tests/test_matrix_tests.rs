use rmk_matrix::{Event, KeyEvent, TestAction, TestMatrix};

#[test]
fn test_matrix_presses_and_releases_in_turn() {
    let mut m: TestMatrix<4, 5> = TestMatrix::new();
    assert_eq!(m.num_rows(), 4);
    assert_eq!(m.num_cols(), 5);
    assert_eq!(m.step(), TestAction::WaitMillis(5000));
    assert_eq!(m.step(), TestAction::Report(Event::Key(KeyEvent { row: 0, col: 0, pressed: true })));
    assert_eq!(m.step(), TestAction::WaitMillis(100));
    assert_eq!(m.step(), TestAction::Report(Event::Key(KeyEvent { row: 0, col: 0, pressed: false })));
    assert_eq!(m.step(), TestAction::WaitMillis(5000));
}

#[test]
fn test_matrix_default_is_new() {
    let mut m: TestMatrix<1, 1> = TestMatrix::default();
    assert_eq!(m.step(), TestAction::WaitMillis(5000));
}

#[test]
fn test_matrix_new_read_waits_again_after_a_dropped_wait() {
    let mut m: TestMatrix<1, 1> = TestMatrix::new();
    assert_eq!(m.step(), TestAction::WaitMillis(5000));
    m.begin_read();
    assert_eq!(m.step(), TestAction::WaitMillis(5000));
    assert_eq!(m.step(), TestAction::Report(Event::Key(KeyEvent { row: 0, col: 0, pressed: true })));
    m.begin_read();
    assert_eq!(m.step(), TestAction::WaitMillis(100));
}
