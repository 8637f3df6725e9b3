use rmk_matrix::{DebounceState, Event, KeyEvent, KeyState, MuxAction, MuxFeedback, MuxMatrix, MuxReadAction};

fn debounce(in_idx: usize, out_idx: usize, pin_state: bool, pressed: bool) -> MuxAction {
    MuxAction::Debounce { in_idx, out_idx, pin_state, key_state: KeyState { pressed } }
}

#[test]
fn select_pins_spell_the_channel() {
    let m = MuxMatrix::new(4, 2, 16, 2000);
    assert_eq!(m.set_channel(0), vec![false, false, false, false]);
    assert_eq!(m.set_channel(5), vec![true, false, true, false]);
    assert_eq!(m.set_channel(10), vec![false, true, false, true]);
    assert_eq!(m.set_channel(15), vec![true, true, true, true]);
    assert_eq!(m.set_channel(16), vec![false, false, false, false]);
}

#[test]
fn scan_without_change_finishes_with_none() {
    let mut m = MuxMatrix::new(1, 2, 2, 2000);
    for channel in 0..2usize {
        let first = if channel == 0 { MuxFeedback::Done } else { MuxFeedback::Debounce(DebounceState::Ignored) };
        assert_eq!(m.scan_and_update(first), MuxAction::SelectChannel(channel));
        assert_eq!(m.scan_and_update(MuxFeedback::Done), MuxAction::WaitMicros(1));
        assert_eq!(m.scan_and_update(MuxFeedback::Done), MuxAction::ReadAdc);
        assert!(m.awaits_samples());
        assert_eq!(m.scan_and_update(MuxFeedback::Samples(vec![2000, 2001])), debounce(0, channel, false, false));
        assert!(m.awaits_debounce());
        assert_eq!(m.scan_and_update(MuxFeedback::Debounce(DebounceState::InProgress)), debounce(1, channel, true, false));
    }
    assert_eq!(m.scan_and_update(MuxFeedback::Debounce(DebounceState::Ignored)), MuxAction::Finished(None));
}

#[test]
fn scan_reports_first_debounced_key() {
    let mut m = MuxMatrix::new(4, 2, 3, 100);
    assert_eq!(m.scan_and_update(MuxFeedback::Done), MuxAction::SelectChannel(0));
    assert_eq!(m.scan_and_update(MuxFeedback::Done), MuxAction::WaitMicros(1));
    assert_eq!(m.scan_and_update(MuxFeedback::Done), MuxAction::ReadAdc);
    assert_eq!(m.scan_and_update(MuxFeedback::Samples(vec![0, 0])), debounce(0, 0, false, false));
    assert_eq!(m.scan_and_update(MuxFeedback::Debounce(DebounceState::Ignored)), debounce(1, 0, false, false));
    assert_eq!(m.scan_and_update(MuxFeedback::Debounce(DebounceState::Ignored)), MuxAction::SelectChannel(1));
    assert_eq!(m.scan_and_update(MuxFeedback::Done), MuxAction::WaitMicros(1));
    assert_eq!(m.scan_and_update(MuxFeedback::Done), MuxAction::ReadAdc);
    assert_eq!(m.scan_and_update(MuxFeedback::Samples(vec![50, 4000])), debounce(0, 1, false, false));
    assert_eq!(m.scan_and_update(MuxFeedback::Debounce(DebounceState::Ignored)), debounce(1, 1, true, false));
    assert_eq!(
        m.scan_and_update(MuxFeedback::Debounce(DebounceState::Debounced)),
        MuxAction::Finished(Some(Event::Key(KeyEvent { row: 1, col: 1, pressed: true })))
    );
    // A new scan starts at channel 0 and sees the key held.
    assert_eq!(m.scan_and_update(MuxFeedback::Done), MuxAction::SelectChannel(0));
    assert_eq!(m.scan_and_update(MuxFeedback::Done), MuxAction::WaitMicros(1));
    assert_eq!(m.scan_and_update(MuxFeedback::Done), MuxAction::ReadAdc);
    assert_eq!(m.scan_and_update(MuxFeedback::Samples(vec![0, 0])), debounce(0, 0, false, false));
    assert_eq!(m.scan_and_update(MuxFeedback::Debounce(DebounceState::Ignored)), debounce(1, 0, false, false));
    assert_eq!(m.scan_and_update(MuxFeedback::Debounce(DebounceState::Ignored)), MuxAction::SelectChannel(1));
    assert_eq!(m.scan_and_update(MuxFeedback::Done), MuxAction::WaitMicros(1));
    assert_eq!(m.scan_and_update(MuxFeedback::Done), MuxAction::ReadAdc);
    assert_eq!(m.scan_and_update(MuxFeedback::Samples(vec![0, 0])), debounce(0, 1, false, false));
    assert_eq!(m.scan_and_update(MuxFeedback::Debounce(DebounceState::Ignored)), debounce(1, 1, false, true));
    assert_eq!(
        m.scan_and_update(MuxFeedback::Debounce(DebounceState::Debounced)),
        MuxAction::Finished(Some(Event::Key(KeyEvent { row: 1, col: 1, pressed: false })))
    );
}

#[test]
fn mux_matrix_without_channels_finishes_at_once() {
    let mut m = MuxMatrix::new(4, 2, 0, 100);
    assert_eq!(m.scan_and_update(MuxFeedback::Done), MuxAction::Finished(None));
}

#[test]
fn select_levels_decode_to_every_channel() {
    let m = MuxMatrix::new(4, 1, 16, 0);
    for channel in 0..16usize {
        let levels = m.set_channel(channel);
        let code: usize = levels.iter().enumerate().map(|(i, l)| if *l { 1usize << i } else { 0 }).sum();
        assert_eq!(code, channel);
    }
    assert_eq!(m.set_channel(21), m.set_channel(5));
}

#[test]
fn select_levels_agree_exactly_modulo_sixteen() {
    let m = MuxMatrix::new(4, 1, 16, 0);
    for c1 in 0..40usize {
        for c2 in 0..40usize {
            assert_eq!(m.set_channel(c1) == m.set_channel(c2), c1 % 16 == c2 % 16);
        }
    }
}

#[test]
fn a_new_scan_starts_at_channel_zero() {
    let mut m = MuxMatrix::new(4, 1, 3, 10);
    assert_eq!(m.scan_and_update(MuxFeedback::Done), MuxAction::SelectChannel(0));
    assert_eq!(m.scan_and_update(MuxFeedback::Done), MuxAction::WaitMicros(1));
    m.begin_scan();
    assert!(!m.awaits_samples());
    assert_eq!(m.scan_and_update(MuxFeedback::Done), MuxAction::SelectChannel(0));
}

#[test]
fn read_event_step_returns_or_polls_again() {
    let ev = Event::Key(KeyEvent { row: 1, col: 2, pressed: true });
    assert_eq!(MuxMatrix::read_event_step(Some(ev)), MuxReadAction::Return(ev));
    assert_eq!(MuxMatrix::read_event_step(None), MuxReadAction::WaitMillis(1));
}
