use vstd::prelude::*;

use crate::event::{DebounceState, Event, KeyEvent};
use crate::key_state::KeyState;
use crate::time::{elapsed_millis, instant_now};

verus! {

/// Milliseconds for which the matrix keeps scanning after the last sign of a
/// pressed key, before it waits for an input pin to go high again.
pub const SCAN_IDLE_MILLIS: u64 = 1;

/// Microseconds to wait after driving output pins, so that the change on the
/// pins comes into effect.
pub const SETTLE_MICROS: u64 = 1;

/// Where a scan of the matrix stands: the action that was handed out last.
#[derive(Copy, Clone, Debug, PartialEq, Eq, Structural)]
pub enum ScanCursor {
    /// At the start of a round: nothing is pending.
    Top,
    /// `SetHigh(out_idx)` was handed out.
    RowSelected { out_idx: usize, in_start: usize },
    /// The settling wait after `SetHigh(out_idx)` was handed out.
    RowSettled { out_idx: usize, in_start: usize },
    /// `Sample` of the key at (`out_idx`, `in_idx`) was handed out.
    Sampling { out_idx: usize, in_idx: usize, in_start: usize },
    /// `SetLow(out_idx)` was handed out.
    RowReleased { out_idx: usize, in_start: usize },
    /// `DriveAllHigh` was handed out (waiting for a key).
    Waking,
    /// The settling wait after `DriveAllHigh` was handed out.
    WakeSettled,
    /// `WaitForAnyInput` was handed out.
    Listening,
    /// `DriveAllLow` was handed out.
    Woken,
}

/// What the caller is asked to do next.
#[derive(Copy, Clone, Debug, PartialEq, Eq, Structural)]
pub enum ScanAction {
    /// Drive output pin `0` high.
    SetHigh(usize),
    /// Drive output pin `0` low.
    SetLow(usize),
    /// Wait this many microseconds.
    WaitMicros(u64),
    /// Read input pin `in_idx` (a failed read counts as low) and hand the
    /// level, with the indices and `key_state`, to the debouncer; report back
    /// what it says with `ScanFeedback::Debounce`.
    Sample { in_idx: usize, out_idx: usize, key_state: KeyState },
    /// Drive every output pin high.
    DriveAllHigh,
    /// Wait until some input pin is high.
    WaitForAnyInput,
    /// Drive every output pin low.
    DriveAllLow,
    /// The scan found a change: this is the event to report.
    Report(Event),
    /// Nothing to do: ask for the next step.
    Idle,
}

/// The outcome of the last action, handed to the next step.
#[derive(Copy, Clone, Debug, PartialEq, Eq, Structural)]
pub enum ScanFeedback {
    /// The action was carried out (or there was none).
    Done,
    /// What the debouncer said of the key that `Sample` named.
    Debounce(DebounceState),
}

/// The mathematical state of a [`Matrix`].
#[verifier::ext_equal]
pub struct MatrixView {
    /// Number of input pins.
    pub num_in: nat,
    /// Number of output pins.
    pub num_out: nat,
    /// Rows are input pins and columns output pins (the `col2row` wiring).
    pub col2row: bool,
    /// Between keystrokes, wait for an input to go high instead of polling.
    pub async_scan: bool,
    /// `pressed[out][in]`: whether the key at output `out`, input `in` is down.
    pub pressed: Seq<Seq<bool>>,
    /// Where the next round starts: (output index, input index).
    pub scan_pos: (int, int),
    /// When a key was last seen, if a sighting is recorded (only in
    /// `async_scan` mode).
    pub scan_start: Option<embassy_time::Instant>,
    /// The action handed out last.
    pub cursor: ScanCursor,
}

/// The key matrix: `num_out` output pins driven in turn, `num_in` input
/// pins read for each of them, one debounced state per key.
pub struct Matrix {
    input_pin_num: usize,
    output_pin_num: usize,
    col2row: bool,
    async_scan: bool,
    key_states: Vec<Vec<KeyState>>,
    scan_start: Option<embassy_time::Instant>,
    scan_pos: (usize, usize),
    cursor: ScanCursor,
}

pub open spec fn pressed_of(rows: Seq<Vec<KeyState>>) -> Seq<Seq<bool>> {
    rows.map_values(|row: Vec<KeyState>| row@.map_values(|k: KeyState| k.pressed))
}

impl View for Matrix {
    type V = MatrixView;

    closed spec fn view(&self) -> MatrixView {
        MatrixView {
            num_in: self.input_pin_num as nat,
            num_out: self.output_pin_num as nat,
            col2row: self.col2row,
            async_scan: self.async_scan,
            pressed: pressed_of(self.key_states@),
            scan_pos: (self.scan_pos.0 as int, self.scan_pos.1 as int),
            scan_start: self.scan_start,
            cursor: self.cursor,
        }
    }
}

/// A matrix state is well formed: one state per key, a start position on
/// a key (or at the origin), and a cursor that names a pin that exists.
pub open spec fn view_wf(s: MatrixView) -> bool {
    &&& s.num_in <= usize::MAX
    &&& s.num_out <= usize::MAX
    &&& s.pressed.len() == s.num_out
    &&& forall|o: int| 0 <= o < s.num_out ==> (#[trigger] s.pressed[o]).len() == s.num_in
    &&& s.scan_pos == (0int, 0int) || (0 <= s.scan_pos.0 < s.num_out && 0 <= s.scan_pos.1
        < s.num_in)
    &&& (!s.async_scan ==> s.scan_start is None)
    &&& cursor_wf(s)
}

pub open spec fn cursor_wf(s: MatrixView) -> bool {
    match s.cursor {
        ScanCursor::RowSelected { out_idx, in_start } => out_idx < s.num_out && in_start
            == s.scan_pos.1,
        ScanCursor::RowSettled { out_idx, in_start } => out_idx < s.num_out && in_start
            == s.scan_pos.1,
        ScanCursor::RowReleased { out_idx, in_start } => out_idx < s.num_out && in_start
            == s.scan_pos.1,
        ScanCursor::Sampling { out_idx, in_idx, in_start } => out_idx < s.num_out && in_start
            == s.scan_pos.1 && in_start <= in_idx < s.num_in,
        ScanCursor::Waking | ScanCursor::WakeSettled | ScanCursor::Listening | ScanCursor::Woken => s.async_scan,
        ScanCursor::Top => true,
    }
}

/// The event for the key at (`out`, `inn`) with the new state `pressed`;
/// row and column follow the wiring, and indices are cut to a byte.
pub open spec fn key_event(s: MatrixView, out: int, inn: int, pressed: bool) -> Event {
    if s.col2row {
        Event::Key(KeyEvent { row: inn as u8, col: out as u8, pressed })
    } else {
        Event::Key(KeyEvent { row: out as u8, col: inn as u8, pressed })
    }
}

pub open spec fn with_cursor(s: MatrixView, c: ScanCursor) -> MatrixView {
    MatrixView { cursor: c, ..s }
}

/// Drive output `out` high to scan its row.
pub open spec fn select_row(s: MatrixView, out: int, in_start: int) -> (MatrixView, ScanAction) {
    (
        with_cursor(s, ScanCursor::RowSelected { out_idx: out as usize, in_start: in_start as usize }),
        ScanAction::SetHigh(out as usize),
    )
}

/// Go on in row `out` at input `inn`: sample it, or release the row when
/// every input has been read.
pub open spec fn scan_from(s: MatrixView, out: int, inn: int, in_start: int) -> (MatrixView, ScanAction) {
    if inn < s.num_in {
        (
            with_cursor(
                s,
                ScanCursor::Sampling {
                    out_idx: out as usize,
                    in_idx: inn as usize,
                    in_start: in_start as usize,
                },
            ),
            ScanAction::Sample {
                in_idx: inn as usize,
                out_idx: out as usize,
                key_state: KeyState { pressed: s.pressed[out][inn] },
            },
        )
    } else {
        (
            with_cursor(s, ScanCursor::RowReleased { out_idx: out as usize, in_start: in_start as usize }),
            ScanAction::SetLow(out as usize),
        )
    }
}

/// Start the rows of a round at the recorded position.
pub open spec fn begin_rows(s: MatrixView) -> (MatrixView, ScanAction) {
    if s.scan_pos.0 < s.num_out {
        select_row(s, s.scan_pos.0, s.scan_pos.1)
    } else {
        (with_cursor(s, ScanCursor::Top), ScanAction::Idle)
    }
}

/// The start of a round.  In `async_scan` mode the round first waits for a
/// key, unless a key was seen less than [`SCAN_IDLE_MILLIS`] ago;
/// `elapsed` is the age of that sighting in milliseconds.
pub open spec fn round_start(s: MatrixView, elapsed: u64) -> (MatrixView, ScanAction) {
    if s.async_scan && !(s.scan_start is Some && elapsed <= SCAN_IDLE_MILLIS) {
        (MatrixView { scan_start: None, cursor: ScanCursor::Waking, ..s }, ScanAction::DriveAllHigh)
    } else {
        begin_rows(s)
    }
}

/// The key at (`out`, `inn`) toggled, the round resumed there later, and
/// the change reported.
pub open spec fn report_change(s: MatrixView, out: int, inn: int) -> (MatrixView, ScanAction) {
    let now_pressed = !s.pressed[out][inn];
    (
        MatrixView {
            pressed: s.pressed.update(out, s.pressed[out].update(inn, now_pressed)),
            scan_pos: (out, inn),
            cursor: ScanCursor::Top,
            ..s
        },
        ScanAction::Report(key_event(s, out, inn, now_pressed)),
    )
}

/// One step of the scan: from the state and the outcome of the last action
/// to the next state and action.  `elapsed` is read only at the start of a
/// round in `async_scan` mode with a recorded scan start; `now` is the
/// clock's time, recorded as a key sighting when a pressed key is sampled
/// in `async_scan` mode and after a wait for a key.
pub open spec fn scan_step(
    s: MatrixView,
    fb: ScanFeedback,
    elapsed: u64,
    now: embassy_time::Instant,
) -> (MatrixView, ScanAction) {
    match s.cursor {
        ScanCursor::Top => round_start(s, elapsed),
        ScanCursor::RowSelected { out_idx, in_start } => (
            with_cursor(s, ScanCursor::RowSettled { out_idx, in_start }),
            ScanAction::WaitMicros(SETTLE_MICROS),
        ),
        ScanCursor::RowSettled { out_idx, in_start } => scan_from(
            s,
            out_idx as int,
            in_start as int,
            in_start as int,
        ),
        ScanCursor::Sampling { out_idx, in_idx, in_start } => {
            if fb == ScanFeedback::Debounce(DebounceState::Debounced) {
                report_change(s, out_idx as int, in_idx as int)
            } else {
                let s1 = if s.async_scan && s.pressed[out_idx as int][in_idx as int] {
                    MatrixView { scan_start: Some(now), ..s }
                } else {
                    s
                };
                scan_from(s1, out_idx as int, in_idx + 1, in_start as int)
            }
        },
        ScanCursor::RowReleased { out_idx, in_start } => {
            if out_idx + 1 < s.num_out {
                select_row(s, out_idx + 1, in_start as int)
            } else {
                (
                    MatrixView { scan_pos: (0, 0), cursor: ScanCursor::Top, ..s },
                    ScanAction::Idle,
                )
            }
        },
        ScanCursor::Waking => (
            with_cursor(s, ScanCursor::WakeSettled),
            ScanAction::WaitMicros(SETTLE_MICROS),
        ),
        ScanCursor::WakeSettled => (with_cursor(s, ScanCursor::Listening), ScanAction::WaitForAnyInput),
        ScanCursor::Listening => (with_cursor(s, ScanCursor::Woken), ScanAction::DriveAllLow),
        ScanCursor::Woken => begin_rows(MatrixView { scan_start: Some(now), ..s }),
    }
}

/// The feedback that a step in this state takes: a debouncer's answer
/// exactly when a `Sample` is pending.
pub open spec fn feedback_fits(s: MatrixView, fb: ScanFeedback) -> bool {
    (s.cursor is Sampling) == (fb is Debounce)
}

impl Matrix {
    pub closed spec fn wf(&self) -> bool {
        &&& view_wf(self@)
        &&& self.key_states@.len() == self.output_pin_num
        &&& forall|o: int|
            0 <= o < self.output_pin_num ==> (#[trigger] self.key_states@[o])@.len()
                == self.input_pin_num
    }

    /// A well-formed matrix has a well-formed view, so the laws on views
    /// apply to it.
    pub proof fn lemma_wf_view(&self)
        requires
            self.wf(),
        ensures
            view_wf(self@),
    {
    }

    /// A matrix of `output_pin_num` rows of `input_pin_num` released keys,
    /// at the start of a round, scanning from the origin.
    pub fn new(input_pin_num: usize, output_pin_num: usize, col2row: bool, async_scan: bool) -> (m:
        Self)
        ensures
            m.wf(),
            m@.num_in == input_pin_num,
            m@.num_out == output_pin_num,
            m@.col2row == col2row,
            m@.async_scan == async_scan,
            m@.pressed == Seq::new(
                output_pin_num as nat,
                |o: int| Seq::new(input_pin_num as nat, |i: int| false),
            ),
            m@.scan_pos == (0int, 0int),
            m@.scan_start is None,
            m@.cursor == ScanCursor::Top,
    {
        let mut key_states: Vec<Vec<KeyState>> = Vec::new();
        let mut o: usize = 0;
        while o < output_pin_num
            invariant
                o <= output_pin_num,
                key_states@.len() == o,
                forall|r: int|
                    0 <= r < o ==> (#[trigger] key_states@[r])@.len() == input_pin_num && forall|
                        i: int,
                    |
                        0 <= i < input_pin_num ==> !(#[trigger] key_states@[r]@[i]).pressed,
            decreases output_pin_num - o,
        {
            let mut row: Vec<KeyState> = Vec::new();
            let mut i: usize = 0;
            while i < input_pin_num
                invariant
                    i <= input_pin_num,
                    row@.len() == i,
                    forall|j: int| 0 <= j < i ==> !(#[trigger] row@[j]).pressed,
                decreases input_pin_num - i,
            {
                row.push(KeyState::new());
                i = i + 1;
            }
            key_states.push(row);
            o = o + 1;
        }
        let m = Matrix {
            input_pin_num,
            output_pin_num,
            col2row,
            async_scan,
            key_states,
            scan_start: None,
            scan_pos: (0, 0),
            cursor: ScanCursor::Top,
        };
        assert(m@.pressed =~~= Seq::new(
            output_pin_num as nat,
            |o: int| Seq::new(input_pin_num as nat, |i: int| false),
        ));
        m
    }
    /// The view's state of one key, as stored.
    proof fn lemma_pressed_at(&self, o: int, i: int)
        requires
            self.wf(),
            0 <= o < self.output_pin_num,
            0 <= i < self.input_pin_num,
        ensures
            self@.pressed[o][i] == self.key_states@[o]@[i].pressed,
    {
    }

    fn select_row(&mut self, out: usize, in_start: usize) -> (a: ScanAction)
        requires
            old(self).wf(),
            out < old(self).output_pin_num,
            in_start == old(self).scan_pos.1,
        ensures
            final(self).wf(),
            final(self)@ == select_row(old(self)@, out as int, in_start as int).0,
            a == select_row(old(self)@, out as int, in_start as int).1,
    {
        self.cursor = ScanCursor::RowSelected { out_idx: out, in_start };
        ScanAction::SetHigh(out)
    }

    fn scan_from(&mut self, out: usize, inn: usize, in_start: usize) -> (a: ScanAction)
        requires
            old(self).wf(),
            out < old(self).output_pin_num,
            in_start == old(self).scan_pos.1,
            in_start <= inn <= old(self).input_pin_num,
        ensures
            final(self).wf(),
            final(self)@ == scan_from(old(self)@, out as int, inn as int, in_start as int).0,
            a == scan_from(old(self)@, out as int, inn as int, in_start as int).1,
    {
        if inn < self.input_pin_num {
            let key_state = self.key_states[out][inn];
            proof {
                self.lemma_pressed_at(out as int, inn as int);
            }
            self.cursor = ScanCursor::Sampling { out_idx: out, in_idx: inn, in_start };
            ScanAction::Sample { in_idx: inn, out_idx: out, key_state }
        } else {
            self.cursor = ScanCursor::RowReleased { out_idx: out, in_start };
            ScanAction::SetLow(out)
        }
    }

    fn begin_rows(&mut self) -> (a: ScanAction)
        requires
            old(self).wf(),
        ensures
            final(self).wf(),
            final(self)@ == begin_rows(old(self)@).0,
            a == begin_rows(old(self)@).1,
    {
        let (out_start, in_start) = self.scan_pos;
        if out_start < self.output_pin_num {
            self.select_row(out_start, in_start)
        } else {
            self.cursor = ScanCursor::Top;
            ScanAction::Idle
        }
    }

    fn report_change(&mut self, out: usize, inn: usize) -> (a: ScanAction)
        requires
            old(self).wf(),
            out < old(self).output_pin_num,
            inn < old(self).input_pin_num,
        ensures
            final(self).wf(),
            final(self)@ == report_change(old(self)@, out as int, inn as int).0,
            a == report_change(old(self)@, out as int, inn as int).1,
    {
        let ghost s = self@;
        proof {
            self.lemma_pressed_at(out as int, inn as int);
        }
        self.key_states[out][inn].toggle_pressed();
        let key_state = self.key_states[out][inn];
        self.scan_pos = (out, inn);
        self.cursor = ScanCursor::Top;
        let event = if self.col2row {
            Event::Key(KeyEvent { row: inn as u8, col: out as u8, pressed: key_state.pressed })
        } else {
            Event::Key(KeyEvent { row: out as u8, col: inn as u8, pressed: key_state.pressed })
        };
        assert(pressed_of(self.key_states@) =~~= s.pressed.update(
            out as int,
            s.pressed[out as int].update(inn as int, !s.pressed[out as int][inn as int]),
        ));
        ScanAction::Report(event)
    }

    /// One step of the scan, given `elapsed`, the age in milliseconds of
    /// the last sighting of a key; it matters only at the start of a round
    /// in `async_scan` mode with a sighting recorded.  The caller carries out
    /// the action returned, then steps again with its outcome: `Debounce`
    /// with the debouncer's answer after a `Sample`, `Done` after anything
    /// else.
    pub fn step_after(&mut self, fb: ScanFeedback, elapsed: u64) -> (a: ScanAction)
        requires
            old(self).wf(),
            feedback_fits(old(self)@, fb),
        ensures
            final(self).wf(),
            exists|now: embassy_time::Instant|
                final(self)@ == #[trigger] scan_step(old(self)@, fb, elapsed, now).0 && a
                    == scan_step(old(self)@, fb, elapsed, now).1,
    {
        let ghost s = self@;
        let ghost mut now: embassy_time::Instant = vstd::pervasive::arbitrary();
        match self.cursor {
            ScanCursor::Top => {
                let a = if self.async_scan && !(self.scan_start.is_some() && elapsed
                    <= SCAN_IDLE_MILLIS) {
                    self.scan_start = None;
                    self.cursor = ScanCursor::Waking;
                    ScanAction::DriveAllHigh
                } else {
                    self.begin_rows()
                };
                assert(self@ == scan_step(s, fb, elapsed, now).0);
                a
            },
            ScanCursor::RowSelected { out_idx, in_start } => {
                self.cursor = ScanCursor::RowSettled { out_idx, in_start };
                assert(self@ == scan_step(s, fb, elapsed, now).0);
                ScanAction::WaitMicros(SETTLE_MICROS)
            },
            ScanCursor::RowSettled { out_idx, in_start } => {
                let a = self.scan_from(out_idx, in_start, in_start);
                assert(self@ == scan_step(s, fb, elapsed, now).0);
                a
            },
            ScanCursor::Sampling { out_idx, in_idx, in_start } => {
                let debounced = match fb {
                    ScanFeedback::Debounce(DebounceState::Debounced) => true,
                    _ => false,
                };
                if debounced {
                    let a = self.report_change(out_idx, in_idx);
                    assert(self@ == scan_step(s, fb, elapsed, now).0);
                    a
                } else {
                    proof {
                        self.lemma_pressed_at(out_idx as int, in_idx as int);
                    }
                    if self.async_scan && self.key_states[out_idx][in_idx].pressed {
                        let t = instant_now();
                        proof {
                            now = t;
                        }
                        self.scan_start = Some(t);
                    }
                    let a = self.scan_from(out_idx, in_idx + 1, in_start);
                    assert(self@ == scan_step(s, fb, elapsed, now).0);
                    a
                }
            },
            ScanCursor::RowReleased { out_idx, in_start } => {
                if out_idx + 1 < self.output_pin_num {
                    let a = self.select_row(out_idx + 1, in_start);
                    assert(self@ == scan_step(s, fb, elapsed, now).0);
                    a
                } else {
                    self.scan_pos = (0, 0);
                    self.cursor = ScanCursor::Top;
                    assert(self@ == scan_step(s, fb, elapsed, now).0);
                    ScanAction::Idle
                }
            },
            ScanCursor::Waking => {
                self.cursor = ScanCursor::WakeSettled;
                assert(self@ == scan_step(s, fb, elapsed, now).0);
                ScanAction::WaitMicros(SETTLE_MICROS)
            },
            ScanCursor::WakeSettled => {
                self.cursor = ScanCursor::Listening;
                assert(self@ == scan_step(s, fb, elapsed, now).0);
                ScanAction::WaitForAnyInput
            },
            ScanCursor::Listening => {
                self.cursor = ScanCursor::Woken;
                assert(self@ == scan_step(s, fb, elapsed, now).0);
                ScanAction::DriveAllLow
            },
            ScanCursor::Woken => {
                // The outputs are low again: the wake-up counts as a key sighting.
                let t = instant_now();
                proof {
                    now = t;
                }
                self.scan_start = Some(t);
                let a = self.begin_rows();
                assert(self@ == scan_step(s, fb, elapsed, now).0);
                a
            },
        }
    }

    /// One step of the scan, reading the age of the last key sighting from
    /// the clock where it matters (`embassy_time::Instant::elapsed`).  What
    /// happens is [`scan_step`] for whatever the clock gave.
    pub fn step(&mut self, fb: ScanFeedback) -> (a: ScanAction)
        requires
            old(self).wf(),
            feedback_fits(old(self)@, fb),
        ensures
            final(self).wf(),
            exists|elapsed: u64, now: embassy_time::Instant|
                final(self)@ == #[trigger] scan_step(old(self)@, fb, elapsed, now).0 && a
                    == scan_step(old(self)@, fb, elapsed, now).1,
    {
        let elapsed: u64 = match (&self.cursor, &self.scan_start) {
            (ScanCursor::Top, Some(start)) => elapsed_millis(start),
            _ => 0,
        };
        self.step_after(fb, elapsed)
    }

    /// Starts a new read: whatever a dropped read left pending is forgotten,
    /// and the next step starts a round at the recorded position.
    pub fn begin_read(&mut self)
        requires
            old(self).wf(),
        ensures
            final(self).wf(),
            final(self)@ == with_cursor(old(self)@, ScanCursor::Top),
    {
        self.cursor = ScanCursor::Top;
    }

    /// True when the last action was a `Sample`, so that the next step
    /// takes the debouncer's answer.
    pub fn awaits_debounce(&self) -> (r: bool)
        ensures
            r == (self@.cursor is Sampling),
    {
        match self.cursor {
            ScanCursor::Sampling { .. } => true,
            _ => false,
        }
    }

    /// Number of rows of the keyboard: inputs with `col2row` wiring,
    /// outputs otherwise.
    pub fn num_rows(&self) -> (n: usize)
        ensures
            n == (if self@.col2row { self@.num_in } else { self@.num_out }),
    {
        if self.col2row {
            self.input_pin_num
        } else {
            self.output_pin_num
        }
    }

    /// Number of columns of the keyboard: outputs with `col2row` wiring,
    /// inputs otherwise.
    pub fn num_cols(&self) -> (n: usize)
        ensures
            n == (if self@.col2row { self@.num_out } else { self@.num_in }),
    {
        if self.col2row {
            self.output_pin_num
        } else {
            self.input_pin_num
        }
    }
}

} // verus!
