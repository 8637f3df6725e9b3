use rmk_matrix::{DebounceState, Event, KeyEvent, KeyState, Matrix, ScanAction, ScanFeedback};

fn key(row: u8, col: u8, pressed: bool) -> ScanAction {
    ScanAction::Report(Event::Key(KeyEvent { row, col, pressed }))
}

fn sample(in_idx: usize, out_idx: usize, pressed: bool) -> ScanAction {
    ScanAction::Sample { in_idx, out_idx, key_state: KeyState { pressed } }
}

#[test]
fn scan_walks_rows_and_reports_a_debounced_key() {
    let mut m = Matrix::new(2, 2, false, false);
    assert_eq!(m.num_rows(), 2);
    assert_eq!(m.num_cols(), 2);
    assert_eq!(m.step(ScanFeedback::Done), ScanAction::SetHigh(0));
    assert_eq!(m.step(ScanFeedback::Done), ScanAction::WaitMicros(1));
    assert_eq!(m.step(ScanFeedback::Done), sample(0, 0, false));
    assert!(m.awaits_debounce());
    assert_eq!(m.step(ScanFeedback::Debounce(DebounceState::Ignored)), sample(1, 0, false));
    assert_eq!(m.step(ScanFeedback::Debounce(DebounceState::Debounced)), key(0, 1, true));
    assert!(!m.awaits_debounce());
    // The next round resumes at the reported key, now pressed.
    assert_eq!(m.step(ScanFeedback::Done), ScanAction::SetHigh(0));
    assert_eq!(m.step(ScanFeedback::Done), ScanAction::WaitMicros(1));
    assert_eq!(m.step(ScanFeedback::Done), sample(1, 0, true));
    assert_eq!(m.step(ScanFeedback::Debounce(DebounceState::InProgress)), ScanAction::SetLow(0));
    assert_eq!(m.step(ScanFeedback::Done), ScanAction::SetHigh(1));
    assert_eq!(m.step(ScanFeedback::Done), ScanAction::WaitMicros(1));
    // Every row of a resumed round starts at the resumed input.
    assert_eq!(m.step(ScanFeedback::Done), sample(1, 1, false));
    assert_eq!(m.step(ScanFeedback::Debounce(DebounceState::Ignored)), ScanAction::SetLow(1));
    assert_eq!(m.step(ScanFeedback::Done), ScanAction::Idle);
    // A fresh round starts at the origin.
    assert_eq!(m.step(ScanFeedback::Done), ScanAction::SetHigh(0));
    assert_eq!(m.step(ScanFeedback::Done), ScanAction::WaitMicros(1));
    assert_eq!(m.step(ScanFeedback::Done), sample(0, 0, false));
}

#[test]
fn release_is_reported_after_press() {
    let mut m = Matrix::new(1, 1, false, false);
    assert_eq!(m.step(ScanFeedback::Done), ScanAction::SetHigh(0));
    assert_eq!(m.step(ScanFeedback::Done), ScanAction::WaitMicros(1));
    assert_eq!(m.step(ScanFeedback::Done), sample(0, 0, false));
    assert_eq!(m.step(ScanFeedback::Debounce(DebounceState::Debounced)), key(0, 0, true));
    assert_eq!(m.step(ScanFeedback::Done), ScanAction::SetHigh(0));
    assert_eq!(m.step(ScanFeedback::Done), ScanAction::WaitMicros(1));
    assert_eq!(m.step(ScanFeedback::Done), sample(0, 0, true));
    assert_eq!(m.step(ScanFeedback::Debounce(DebounceState::Debounced)), key(0, 0, false));
}

#[test]
fn col2row_swaps_row_and_column() {
    let mut m = Matrix::new(3, 2, true, false);
    assert_eq!(m.num_rows(), 3);
    assert_eq!(m.num_cols(), 2);
    assert_eq!(m.step(ScanFeedback::Done), ScanAction::SetHigh(0));
    assert_eq!(m.step(ScanFeedback::Done), ScanAction::WaitMicros(1));
    assert_eq!(m.step(ScanFeedback::Done), sample(0, 0, false));
    assert_eq!(m.step(ScanFeedback::Debounce(DebounceState::Ignored)), sample(1, 0, false));
    assert_eq!(m.step(ScanFeedback::Debounce(DebounceState::Ignored)), sample(2, 0, false));
    assert_eq!(m.step(ScanFeedback::Debounce(DebounceState::Ignored)), ScanAction::SetLow(0));
    assert_eq!(m.step(ScanFeedback::Done), ScanAction::SetHigh(1));
    assert_eq!(m.step(ScanFeedback::Done), ScanAction::WaitMicros(1));
    assert_eq!(m.step(ScanFeedback::Done), sample(0, 1, false));
    assert_eq!(m.step(ScanFeedback::Debounce(DebounceState::Ignored)), sample(1, 1, false));
    // input 2, output 1: row 2, column 1
    assert_eq!(m.step(ScanFeedback::Debounce(DebounceState::Ignored)), sample(2, 1, false));
    assert_eq!(m.step(ScanFeedback::Debounce(DebounceState::Debounced)), key(2, 1, true));
}

#[test]
fn row_index_is_cut_to_a_byte() {
    let mut m = Matrix::new(1, 300, false, false);
    for out in 0..299usize {
        assert_eq!(m.step(ScanFeedback::Done), ScanAction::SetHigh(out));
        assert_eq!(m.step(ScanFeedback::Done), ScanAction::WaitMicros(1));
        assert_eq!(m.step(ScanFeedback::Done), sample(0, out, false));
        assert_eq!(m.step(ScanFeedback::Debounce(DebounceState::Ignored)), ScanAction::SetLow(out));
    }
    assert_eq!(m.step(ScanFeedback::Done), ScanAction::SetHigh(299));
    assert_eq!(m.step(ScanFeedback::Done), ScanAction::WaitMicros(1));
    assert_eq!(m.step(ScanFeedback::Done), sample(0, 299, false));
    assert_eq!(m.step(ScanFeedback::Debounce(DebounceState::Debounced)), key(43, 0, true));
}

#[test]
fn matrix_without_inputs_only_drives_rows() {
    let mut m = Matrix::new(0, 2, false, false);
    assert_eq!(m.step(ScanFeedback::Done), ScanAction::SetHigh(0));
    assert_eq!(m.step(ScanFeedback::Done), ScanAction::WaitMicros(1));
    assert_eq!(m.step(ScanFeedback::Done), ScanAction::SetLow(0));
    assert_eq!(m.step(ScanFeedback::Done), ScanAction::SetHigh(1));
    assert_eq!(m.step(ScanFeedback::Done), ScanAction::WaitMicros(1));
    assert_eq!(m.step(ScanFeedback::Done), ScanAction::SetLow(1));
    assert_eq!(m.step(ScanFeedback::Done), ScanAction::Idle);
}

#[test]
fn matrix_without_outputs_idles() {
    let mut m = Matrix::new(3, 0, false, false);
    assert_eq!(m.step(ScanFeedback::Done), ScanAction::Idle);
    assert_eq!(m.step(ScanFeedback::Done), ScanAction::Idle);
}

#[test]
fn async_scan_waits_for_a_key_first() {
    let mut m = Matrix::new(2, 2, false, true);
    assert_eq!(m.step(ScanFeedback::Done), ScanAction::DriveAllHigh);
    assert_eq!(m.step(ScanFeedback::Done), ScanAction::WaitMicros(1));
    assert_eq!(m.step(ScanFeedback::Done), ScanAction::WaitForAnyInput);
    assert_eq!(m.step(ScanFeedback::Done), ScanAction::DriveAllLow);
    assert_eq!(m.step(ScanFeedback::Done), ScanAction::SetHigh(0));
    assert_eq!(m.step(ScanFeedback::Done), ScanAction::WaitMicros(1));
    assert_eq!(m.step(ScanFeedback::Done), sample(0, 0, false));
    assert_eq!(m.step(ScanFeedback::Debounce(DebounceState::Debounced)), key(0, 0, true));
}

#[test]
fn async_scan_keeps_scanning_right_after_a_key() {
    let mut m = Matrix::new(1, 1, false, true);
    assert_eq!(m.step(ScanFeedback::Done), ScanAction::DriveAllHigh);
    assert_eq!(m.step(ScanFeedback::Done), ScanAction::WaitMicros(1));
    assert_eq!(m.step(ScanFeedback::Done), ScanAction::WaitForAnyInput);
    assert_eq!(m.step(ScanFeedback::Done), ScanAction::DriveAllLow);
    assert_eq!(m.step(ScanFeedback::Done), ScanAction::SetHigh(0));
    assert_eq!(m.step(ScanFeedback::Done), ScanAction::WaitMicros(1));
    assert_eq!(m.step(ScanFeedback::Done), sample(0, 0, false));
    assert_eq!(m.step(ScanFeedback::Debounce(DebounceState::Ignored)), ScanAction::SetLow(0));
    assert_eq!(m.step(ScanFeedback::Done), ScanAction::Idle);
    // The wake-up was recorded just now, so a new round scans at once,
    // unless more than a millisecond went by.
    let a = m.step(ScanFeedback::Done);
    assert!(a == ScanAction::SetHigh(0) || a == ScanAction::DriveAllHigh);
}

#[test]
fn async_scan_waits_again_once_idle_time_passed() {
    let mut m = Matrix::new(1, 1, false, true);
    assert_eq!(m.step(ScanFeedback::Done), ScanAction::DriveAllHigh);
    assert_eq!(m.step(ScanFeedback::Done), ScanAction::WaitMicros(1));
    assert_eq!(m.step(ScanFeedback::Done), ScanAction::WaitForAnyInput);
    assert_eq!(m.step(ScanFeedback::Done), ScanAction::DriveAllLow);
    assert_eq!(m.step(ScanFeedback::Done), ScanAction::SetHigh(0));
    assert_eq!(m.step(ScanFeedback::Done), ScanAction::WaitMicros(1));
    assert_eq!(m.step(ScanFeedback::Done), sample(0, 0, false));
    assert_eq!(m.step(ScanFeedback::Debounce(DebounceState::Ignored)), ScanAction::SetLow(0));
    assert_eq!(m.step(ScanFeedback::Done), ScanAction::Idle);
    let start = std::time::Instant::now();
    while start.elapsed() < std::time::Duration::from_millis(5) {}
    assert_eq!(m.step(ScanFeedback::Done), ScanAction::DriveAllHigh);
}

#[test]
fn async_scan_skips_the_wait_within_a_millisecond_of_a_key() {
    let mut m = Matrix::new(1, 1, false, true);
    assert_eq!(m.step_after(ScanFeedback::Done, 0), ScanAction::DriveAllHigh);
    assert_eq!(m.step_after(ScanFeedback::Done, 0), ScanAction::WaitMicros(1));
    assert_eq!(m.step_after(ScanFeedback::Done, 0), ScanAction::WaitForAnyInput);
    assert_eq!(m.step_after(ScanFeedback::Done, 0), ScanAction::DriveAllLow);
    assert_eq!(m.step_after(ScanFeedback::Done, 0), ScanAction::SetHigh(0));
    assert_eq!(m.step_after(ScanFeedback::Done, 0), ScanAction::WaitMicros(1));
    assert_eq!(m.step_after(ScanFeedback::Done, 0), sample(0, 0, false));
    assert_eq!(m.step_after(ScanFeedback::Debounce(DebounceState::Debounced), 0), key(0, 0, true));
    // 1 ms since the sighting: keep scanning.
    assert_eq!(m.step_after(ScanFeedback::Done, 1), ScanAction::SetHigh(0));
    assert_eq!(m.step_after(ScanFeedback::Done, 9), ScanAction::WaitMicros(1));
    assert_eq!(m.step_after(ScanFeedback::Done, 9), sample(0, 0, true));
    // A held key refreshes the sighting.
    assert_eq!(m.step_after(ScanFeedback::Debounce(DebounceState::Ignored), 9), ScanAction::SetLow(0));
    assert_eq!(m.step_after(ScanFeedback::Done, 9), ScanAction::Idle);
    assert_eq!(m.step_after(ScanFeedback::Done, 0), ScanAction::SetHigh(0));
    assert_eq!(m.step_after(ScanFeedback::Done, 0), ScanAction::WaitMicros(1));
    assert_eq!(m.step_after(ScanFeedback::Done, 0), sample(0, 0, true));
    assert_eq!(m.step_after(ScanFeedback::Debounce(DebounceState::Debounced), 0), key(0, 0, false));
    // 2 ms since the sighting: wait for a key again.
    assert_eq!(m.step_after(ScanFeedback::Done, 2), ScanAction::DriveAllHigh);
}

#[test]
fn at_most_one_output_is_driven_outside_the_wake_wait() {
    for async_scan in [false, true] {
        let mut m = Matrix::new(3, 4, false, async_scan);
        let mut pins = [false; 4];
        let mut feedback = ScanFeedback::Done;
        let mut waiting = false;
        let mut reports = 0;
        for n in 0..400usize {
            let action = m.step_after(feedback, 0);
            feedback = ScanFeedback::Done;
            match action {
                ScanAction::SetHigh(o) => pins[o] = true,
                ScanAction::SetLow(o) => pins[o] = false,
                ScanAction::DriveAllHigh => {
                    pins = [true; 4];
                    waiting = true;
                }
                ScanAction::DriveAllLow => {
                    pins = [false; 4];
                    waiting = false;
                }
                ScanAction::Sample { .. } => {
                    let answer = if n % 7 == 0 { DebounceState::Debounced } else { DebounceState::InProgress };
                    feedback = ScanFeedback::Debounce(answer);
                }
                ScanAction::Report(Event::Key(ev)) => {
                    reports += 1;
                    let high: Vec<usize> = (0..4).filter(|o| pins[*o]).collect();
                    assert_eq!(high, vec![ev.row as usize]);
                }
                _ => {}
            }
            if !waiting {
                assert!(pins.iter().filter(|p| **p).count() <= 1);
            }
        }
        assert!(reports > 0);
    }
}

#[test]
fn a_new_read_restarts_the_round_at_the_resume_position() {
    let mut m = Matrix::new(2, 2, false, false);
    assert_eq!(m.step(ScanFeedback::Done), ScanAction::SetHigh(0));
    assert_eq!(m.step(ScanFeedback::Done), ScanAction::WaitMicros(1));
    assert_eq!(m.step(ScanFeedback::Done), sample(0, 0, false));
    assert_eq!(m.step(ScanFeedback::Debounce(DebounceState::Ignored)), sample(1, 0, false));
    assert_eq!(m.step(ScanFeedback::Debounce(DebounceState::Debounced)), key(0, 1, true));
    assert_eq!(m.step(ScanFeedback::Done), ScanAction::SetHigh(0));
    assert_eq!(m.step(ScanFeedback::Done), ScanAction::WaitMicros(1));
    // The read is dropped here; the next one starts over at (0, 1).
    m.begin_read();
    assert!(!m.awaits_debounce());
    assert_eq!(m.step(ScanFeedback::Done), ScanAction::SetHigh(0));
    assert_eq!(m.step(ScanFeedback::Done), ScanAction::WaitMicros(1));
    assert_eq!(m.step(ScanFeedback::Done), sample(1, 0, true));
}

#[test]
fn a_new_read_after_a_dropped_wake_waits_again() {
    let mut m = Matrix::new(1, 1, false, true);
    assert_eq!(m.step_after(ScanFeedback::Done, 0), ScanAction::DriveAllHigh);
    assert_eq!(m.step_after(ScanFeedback::Done, 0), ScanAction::WaitMicros(1));
    assert_eq!(m.step_after(ScanFeedback::Done, 0), ScanAction::WaitForAnyInput);
    m.begin_read();
    assert_eq!(m.step_after(ScanFeedback::Done, 0), ScanAction::DriveAllHigh);
}

#[test]
fn wake_is_recorded_only_once_the_outputs_are_low_again() {
    let mut m = Matrix::new(1, 1, false, true);
    assert_eq!(m.step_after(ScanFeedback::Done, 0), ScanAction::DriveAllHigh);
    assert_eq!(m.step_after(ScanFeedback::Done, 0), ScanAction::WaitMicros(1));
    assert_eq!(m.step_after(ScanFeedback::Done, 0), ScanAction::WaitForAnyInput);
    assert_eq!(m.step_after(ScanFeedback::Done, 0), ScanAction::DriveAllLow);
    // Not yet recorded: a fresh round still waits for a key.
    m.begin_read();
    assert_eq!(m.step_after(ScanFeedback::Done, 0), ScanAction::DriveAllHigh);
    assert_eq!(m.step_after(ScanFeedback::Done, 0), ScanAction::WaitMicros(1));
    assert_eq!(m.step_after(ScanFeedback::Done, 0), ScanAction::WaitForAnyInput);
    assert_eq!(m.step_after(ScanFeedback::Done, 0), ScanAction::DriveAllLow);
    assert_eq!(m.step_after(ScanFeedback::Done, 0), ScanAction::SetHigh(0));
    // Recorded now: a fresh round scans at once.
    m.begin_read();
    assert_eq!(m.step_after(ScanFeedback::Done, 0), ScanAction::SetHigh(0));
}
