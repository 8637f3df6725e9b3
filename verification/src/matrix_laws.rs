use vstd::prelude::*;

use embassy_time::Instant;

use crate::event::{DebounceState, Event, KeyEvent};
use crate::key_state::KeyState;
use crate::matrix::{
    feedback_fits, key_event, scan_from, scan_step, view_wf, with_cursor, MatrixView, ScanAction,
    ScanCursor, ScanFeedback, SCAN_IDLE_MILLIS, SETTLE_MICROS,
};

verus! {

/// Every step keeps a matrix state well formed and keeps its shape.
pub proof fn lemma_step_keeps_shape(s: MatrixView, fb: ScanFeedback, elapsed: u64, now: Instant)
    requires
        view_wf(s),
        feedback_fits(s, fb),
    ensures
        view_wf(scan_step(s, fb, elapsed, now).0),
        scan_step(s, fb, elapsed, now).0.num_in == s.num_in,
        scan_step(s, fb, elapsed, now).0.num_out == s.num_out,
        scan_step(s, fb, elapsed, now).0.col2row == s.col2row,
        scan_step(s, fb, elapsed, now).0.async_scan == s.async_scan,
{
    let s2 = scan_step(s, fb, elapsed, now).0;
    if let ScanCursor::Sampling { out_idx, in_idx, in_start } = s.cursor {
        let o = out_idx as int;
        let i = in_idx as int;
        assert forall|r: int| 0 <= r < s2.num_out implies (#[trigger] s2.pressed[r]).len()
            == s2.num_in by {
            if r == o {
                assert(s.pressed[o].len() == s.num_in);
            } else {
                assert(s.pressed[r].len() == s.num_in);
            }
        }
    }
}

/// The key states change only where a key event is reported: that step
/// flips exactly the key it reports, the event carries the key's new state,
/// and the next round starts at that key.  Every other step leaves all key
/// states as they were.  A key event is reported exactly when the debouncer
/// has just said that a change settled.
pub proof fn lemma_only_reported_key_changes(s: MatrixView, fb: ScanFeedback, elapsed: u64, now: Instant)
    requires
        view_wf(s),
        feedback_fits(s, fb),
    ensures
        (scan_step(s, fb, elapsed, now).1 is Report) == (fb == ScanFeedback::Debounce(
            DebounceState::Debounced,
        )),
        match scan_step(s, fb, elapsed, now).1 {
            ScanAction::Report(ev) => exists|o: int, i: int|
                0 <= o < s.num_out && 0 <= i < s.num_in && #[trigger] scan_step(s, fb, elapsed, now).0.pressed
                    == s.pressed.update(o, s.pressed[o].update(i, !s.pressed[o][i])) && ev
                    == key_event(s, o, i, !s.pressed[o][i]) && scan_step(s, fb, elapsed, now).0.scan_pos
                    == (o, i),
            _ => scan_step(s, fb, elapsed, now).0.pressed == s.pressed,
        },
{
    if let ScanCursor::Sampling { out_idx, in_idx, in_start } = s.cursor {
        if fb == ScanFeedback::Debounce(DebounceState::Debounced) {
            let o = out_idx as int;
            let i = in_idx as int;
            assert(scan_step(s, fb, elapsed, now).0.pressed == s.pressed.update(
                o,
                s.pressed[o].update(i, !s.pressed[o][i]),
            ));
        }
    }
}

/// The output pins that are high after the caller carried out `a`, when
/// `pins` were high before.
pub open spec fn drive(pins: Set<int>, a: ScanAction, num_out: nat) -> Set<int> {
    match a {
        ScanAction::SetHigh(o) => pins.insert(o as int),
        ScanAction::SetLow(o) => pins.remove(o as int),
        ScanAction::DriveAllHigh => Set::new(|o: int| 0 <= o < num_out),
        ScanAction::DriveAllLow => Set::empty(),
        _ => pins,
    }
}

/// The output pins that are high in state `s`, once the caller has carried
/// out every action handed out so far: all of them while the matrix waits
/// for a key, none after a row or the wait was released, exactly the row
/// being scanned while it is scanned, and at the start of a round none or
/// the row of the last reported key (a report leaves its row driven; a new
/// matrix drives none).
pub open spec fn pins_match(s: MatrixView, pins: Set<int>) -> bool {
    match s.cursor {
        ScanCursor::Top => pins.subset_of(set![s.scan_pos.0]),
        ScanCursor::RowSelected { out_idx, .. } => pins == set![out_idx as int],
        ScanCursor::RowSettled { out_idx, .. } => pins == set![out_idx as int],
        ScanCursor::Sampling { out_idx, .. } => pins == set![out_idx as int],
        ScanCursor::RowReleased { .. } => pins == Set::<int>::empty(),
        ScanCursor::Waking | ScanCursor::WakeSettled | ScanCursor::Listening => pins == Set::new(
            |o: int| 0 <= o < s.num_out,
        ),
        ScanCursor::Woken => pins == Set::<int>::empty(),
    }
}

/// No two distinct pins are high.
pub open spec fn at_most_one(pins: Set<int>) -> bool {
    forall|x: int, y: int| pins.contains(x) && pins.contains(y) ==> x == y
}

/// The matrix waits for a key with every output driven high.
pub open spec fn waking(s: MatrixView) -> bool {
    s.cursor is Waking || s.cursor is WakeSettled || s.cursor is Listening
}

/// The output pins follow the scan: if they match the state before a step,
/// they match it after the caller carried out the step's action.  So, from
/// a new matrix with no pin driven:
/// - outside the wait for a key, at most one output pin is high;
/// - an input of row `o` is sampled only while output `o`, and no other, is
///   high, and only after the settling wait that followed driving it (or
///   right after another input of that row);
/// - when a key event is reported, the output of the reported key's row is
///   high and every other output is low.
pub proof fn lemma_driven_rows(
    s: MatrixView,
    pins: Set<int>,
    fb: ScanFeedback,
    elapsed: u64,
    now: Instant,
)
    requires
        view_wf(s),
        feedback_fits(s, fb),
        pins_match(s, pins),
    ensures
        pins_match(
            scan_step(s, fb, elapsed, now).0,
            drive(pins, scan_step(s, fb, elapsed, now).1, s.num_out),
        ),
        !waking(scan_step(s, fb, elapsed, now).0) ==> at_most_one(
            drive(pins, scan_step(s, fb, elapsed, now).1, s.num_out),
        ),
        match scan_step(s, fb, elapsed, now).1 {
            ScanAction::Sample { out_idx, .. } => drive(pins, scan_step(s, fb, elapsed, now).1, s.num_out)
                == set![out_idx as int] && (s.cursor is RowSettled || s.cursor is Sampling),
            ScanAction::Report(_) => drive(pins, scan_step(s, fb, elapsed, now).1, s.num_out)
                == set![scan_step(s, fb, elapsed, now).0.scan_pos.0],
            _ => true,
        },
{
    let (s2, a) = scan_step(s, fb, elapsed, now);
    let p2 = drive(pins, a, s.num_out);
    if let ScanCursor::Top = s.cursor {
        if let ScanAction::SetHigh(o) = a {
            assert(p2 =~= set![o as int]);
        }
    }
    if let ScanCursor::Woken = s.cursor {
        if let ScanAction::SetHigh(o) = a {
            assert(p2 =~= set![o as int]);
        }
    }
    if let ScanCursor::RowReleased { out_idx, .. } = s.cursor {
        if let ScanAction::SetHigh(o) = a {
            assert(p2 =~= set![o as int]);
        }
    }
    if let ScanCursor::Sampling { out_idx, .. } = s.cursor {
        if let ScanAction::SetLow(o) = a {
            assert(p2 =~= Set::<int>::empty());
        }
    }
    if let ScanCursor::RowSettled { out_idx, .. } = s.cursor {
        if let ScanAction::SetLow(o) = a {
            assert(p2 =~= Set::<int>::empty());
        }
    }
    if !waking(s2) {
        assert forall|x: int, y: int| p2.contains(x) && p2.contains(y) implies x == y by {
            match s2.cursor {
                ScanCursor::Top => {
                    assert(set![s2.scan_pos.0].contains(x));
                    assert(set![s2.scan_pos.0].contains(y));
                },
                _ => {},
            }
        }
    }
}

/// After reporting a change of the key at (`o`, `i`), the next round
/// starts there: after the wait for a key where one is due, it drives output
/// `o` high, waits, and samples the same key again, now in its new state;
/// the rest of that round is the one [`lemma_quiet_round_scans_every_key`]
/// gives.
pub proof fn lemma_resume_at_reported_key(
    s: MatrixView,
    fb: ScanFeedback,
    e1: u64,
    e: u64,
    now: Instant,
)
    requires
        view_wf(s),
        feedback_fits(s, fb),
        scan_step(s, fb, e1, now).1 is Report,
    ensures
        ({
            let s1 = scan_step(s, fb, e1, now).0;
            let (o, i) = s1.scan_pos;
            &&& round_actions(s1, o, i).take(3) == seq![
                ScanAction::SetHigh(o as usize),
                ScanAction::WaitMicros(SETTLE_MICROS),
                ScanAction::Sample {
                    in_idx: i as usize,
                    out_idx: o as usize,
                    key_state: KeyState { pressed: s1.pressed[o][i] },
                },
            ]
            &&& quiet_run(
                s1,
                (round_prefix(s1, e).len() + round_actions(s1, o, i).len()) as nat,
                e,
                now,
            ).1 == round_prefix(s1, e) + round_actions(s1, o, i)
        }),
{
    lemma_step_keeps_shape(s, fb, e1, now);
    lemma_only_reported_key_changes(s, fb, e1, now);
    let s1 = scan_step(s, fb, e1, now).0;
    let (o, i) = s1.scan_pos;
    assert(round_actions(s1, o, i) == row_actions(s1, o, i) + round_actions(s1, o + 1, i));
    assert(row_samples(s1, o, i)[0] == ScanAction::Sample {
        in_idx: i as usize,
        out_idx: o as usize,
        key_state: KeyState { pressed: s1.pressed[o][i] },
    });
    assert(round_actions(s1, o, i).take(3) =~= seq![
        ScanAction::SetHigh(o as usize),
        ScanAction::WaitMicros(SETTLE_MICROS),
        ScanAction::Sample {
            in_idx: i as usize,
            out_idx: o as usize,
            key_state: KeyState { pressed: s1.pressed[o][i] },
        },
    ]);
    lemma_quiet_round_scans_every_key(s1, e, now);
}

/// A settled change is reported as the key event of the sampled key, with
/// its row and column by the wiring (inputs are rows with `col2row`, outputs
/// otherwise, each cut to a byte) and the key's new state, the opposite of
/// its state before; that key flips, every other key keeps its state, and
/// the next round starts at that key.
pub proof fn lemma_report_carries_new_state(
    s: MatrixView,
    fb: ScanFeedback,
    elapsed: u64,
    now: Instant,
)
    requires
        view_wf(s),
        s.cursor is Sampling,
        fb == ScanFeedback::Debounce(DebounceState::Debounced),
    ensures
        ({
            let o = s.cursor->Sampling_out_idx as int;
            let i = s.cursor->Sampling_in_idx as int;
            let (s2, a) = scan_step(s, fb, elapsed, now);
            &&& a == ScanAction::Report(
                Event::Key(
                    KeyEvent {
                        row: if s.col2row {
                            i as u8
                        } else {
                            o as u8
                        },
                        col: if s.col2row {
                            o as u8
                        } else {
                            i as u8
                        },
                        pressed: !s.pressed[o][i],
                    },
                ),
            )
            &&& s2.pressed[o][i] == !s.pressed[o][i]
            &&& forall|r: int, j: int|
                0 <= r < s.num_out && 0 <= j < s.num_in && (r, j) != (o, i) ==> #[trigger] s2.pressed[r][j]
                    == s.pressed[r][j]
            &&& s2.scan_pos == (o, i)
            &&& s2.cursor == ScanCursor::Top
        }),
{
    let o = s.cursor->Sampling_out_idx as int;
    let i = s.cursor->Sampling_in_idx as int;
    let s2 = scan_step(s, fb, elapsed, now).0;
    assert forall|r: int, j: int|
        0 <= r < s.num_out && 0 <= j < s.num_in && (r, j) != (o, i) implies #[trigger] s2.pressed[r][j]
        == s.pressed[r][j] by {
        if r == o {
            assert(j != i);
        }
    }
}

/// A sample whose change has not settled (the debouncer says anything but
/// `Debounced`) never ends the row early: the next action samples the next
/// input of the same row, with that key's state, or releases the row after
/// its last input.  No key changes, the resume position stays, and the key
/// sighting is refreshed (to the clock's time) exactly when the sampled key
/// is pressed in `async_scan` mode: a released key leaves it as it was.
pub proof fn lemma_unsettled_sample_goes_on(s: MatrixView, fb: ScanFeedback, elapsed: u64, now: Instant)
    requires
        view_wf(s),
        s.cursor is Sampling,
        fb is Debounce,
        fb->Debounce_0 != DebounceState::Debounced,
    ensures
        ({
            let o = s.cursor->Sampling_out_idx as int;
            let i = s.cursor->Sampling_in_idx as int;
            let (s2, a) = scan_step(s, fb, elapsed, now);
            &&& a == if i + 1 < s.num_in {
                ScanAction::Sample {
                    in_idx: (i + 1) as usize,
                    out_idx: o as usize,
                    key_state: KeyState { pressed: s.pressed[o][i + 1] },
                }
            } else {
                ScanAction::SetLow(o as usize)
            }
            &&& s2.pressed == s.pressed
            &&& s2.scan_pos == s.scan_pos
            &&& (!s.pressed[o][i] ==> s2.scan_start == s.scan_start)
            &&& (s.async_scan && s.pressed[o][i] ==> s2.scan_start == Some(now))
        }),
{
}

/// The recorded key sighting changes only in three ways: a wait for a key
/// clears it when it starts, a wait for a key sets it to the clock's time
/// once the outputs are low again, and a sample of a pressed key in
/// `async_scan` mode sets it to the clock's time.
pub proof fn lemma_sighting_changes(s: MatrixView, fb: ScanFeedback, elapsed: u64, now: Instant)
    requires
        view_wf(s),
        feedback_fits(s, fb),
    ensures
        ({
            let s2 = scan_step(s, fb, elapsed, now).0;
            s2.scan_start != s.scan_start ==> {
                ||| (s2.scan_start is None && s.cursor is Top && s2.cursor is Waking)
                ||| (s2.scan_start == Some(now) && s.cursor is Woken)
                ||| (s2.scan_start == Some(now) && s.async_scan && s.cursor is Sampling
                    && s.pressed[s.cursor->Sampling_out_idx as int][s.cursor->Sampling_in_idx as int])
            }
        }),
{
}

/// What a debouncer that never sees a change settle answers in state `s`.
pub open spec fn quiet_feedback(s: MatrixView) -> ScanFeedback {
    if s.cursor is Sampling {
        ScanFeedback::Debounce(DebounceState::Ignored)
    } else {
        ScanFeedback::Done
    }
}

/// `k` steps from `s` with such a debouncer, the clock giving `elapsed` as
/// the age of the last key sighting and `now` as the time whenever it is
/// read: the state reached and the actions handed out.
pub open spec fn quiet_run(s: MatrixView, k: nat, elapsed: u64, now: Instant) -> (
    MatrixView,
    Seq<ScanAction>,
)
    decreases k,
{
    if k == 0 {
        (s, Seq::empty())
    } else {
        let (s1, a) = scan_step(s, quiet_feedback(s), elapsed, now);
        let (s2, rest) = quiet_run(s1, (k - 1) as nat, elapsed, now);
        (s2, seq![a] + rest)
    }
}

/// The samples of row `o`, from input `from` to the last one.
pub open spec fn row_samples(s: MatrixView, o: int, from: int) -> Seq<ScanAction> {
    Seq::new(
        (s.num_in - from) as nat,
        |j: int|
            ScanAction::Sample {
                in_idx: (from + j) as usize,
                out_idx: o as usize,
                key_state: KeyState { pressed: s.pressed[o][from + j] },
            },
    )
}

/// The actions that scan row `o` from input `from` on: drive it, let it
/// settle, sample each input in turn, release it.
pub open spec fn row_actions(s: MatrixView, o: int, from: int) -> Seq<ScanAction> {
    seq![ScanAction::SetHigh(o as usize), ScanAction::WaitMicros(SETTLE_MICROS)] + row_samples(
        s,
        o,
        from,
    ) + seq![ScanAction::SetLow(o as usize)]
}

/// The actions of a round with no settled change from row `o` on, each row
/// from input `from` on, ending with the wrap back to the origin.
pub open spec fn round_actions(s: MatrixView, o: int, from: int) -> Seq<ScanAction>
    decreases s.num_out - o,
{
    if 0 <= o < s.num_out {
        row_actions(s, o, from) + round_actions(s, o + 1, from)
    } else {
        seq![ScanAction::Idle]
    }
}

/// The wait for a key that opens a round in `async_scan` mode, unless a key
/// was seen no more than [`SCAN_IDLE_MILLIS`] ago: drive every output high,
/// let them settle, wait for an input to go high, drive them low again.
pub open spec fn round_prefix(s: MatrixView, elapsed: u64) -> Seq<ScanAction> {
    if s.async_scan && !(s.scan_start is Some && elapsed <= SCAN_IDLE_MILLIS) {
        seq![
            ScanAction::DriveAllHigh,
            ScanAction::WaitMicros(SETTLE_MICROS),
            ScanAction::WaitForAnyInput,
            ScanAction::DriveAllLow,
        ]
    } else {
        Seq::empty()
    }
}

/// A sighting is recorded exactly in `async_scan` mode, as during the rows
/// of a round.
pub open spec fn sighted(s: MatrixView) -> bool {
    s.async_scan == (s.scan_start is Some)
}

/// `t` is `s` with the key sighting `t` records, which is `s`'s or `now`.
pub open spec fn same_but_sighting(t: MatrixView, s: MatrixView, now: Instant) -> bool {
    &&& t == MatrixView { scan_start: t.scan_start, ..s }
    &&& sighted(t)
    &&& (t.scan_start == s.scan_start || t.scan_start == Some(now))
}

proof fn lemma_quiet_run_split(s: MatrixView, a: nat, b: nat, e: u64, now: Instant)
    ensures
        quiet_run(s, a + b, e, now).0 == quiet_run(quiet_run(s, a, e, now).0, b, e, now).0,
        quiet_run(s, a + b, e, now).1 == quiet_run(s, a, e, now).1 + quiet_run(
            quiet_run(s, a, e, now).0,
            b,
            e,
            now,
        ).1,
    decreases a,
{
    if a > 0 {
        let (s1, x) = scan_step(s, quiet_feedback(s), e, now);
        lemma_quiet_run_split(s1, (a - 1) as nat, b, e, now);
        assert((a + b - 1) as nat == ((a - 1) as nat + b) as nat);
        let r1 = quiet_run(s1, (a - 1) as nat, e, now);
        assert(seq![x] + (r1.1 + quiet_run(r1.0, b, e, now).1) =~= (seq![x] + r1.1) + quiet_run(
            r1.0,
            b,
            e,
            now,
        ).1);
    }
}

/// The round's actions depend only on the key states and the shape.
proof fn lemma_round_actions_same(s: MatrixView, t: MatrixView, o: int, from: int)
    requires
        s.pressed == t.pressed,
        s.num_in == t.num_in,
        s.num_out == t.num_out,
    ensures
        round_actions(s, o, from) == round_actions(t, o, from),
        row_samples(s, o, from) == row_samples(t, o, from),
    decreases s.num_out - o,
{
    assert(row_samples(s, o, from) =~= row_samples(t, o, from));
    if 0 <= o < s.num_out {
        lemma_round_actions_same(s, t, o + 1, from);
    }
}

/// From the sample of input `i` of row `o`, the rest of the row.
proof fn lemma_quiet_row_rest(s: MatrixView, o: int, i: int, from: int, e: u64, now: Instant)
    requires
        view_wf(s),
        sighted(s),
        0 <= o < s.num_out,
        from == s.scan_pos.1,
        from <= i < s.num_in,
    ensures
        ({
            let r = quiet_run(
                with_cursor(
                    s,
                    ScanCursor::Sampling {
                        out_idx: o as usize,
                        in_idx: i as usize,
                        in_start: from as usize,
                    },
                ),
                (s.num_in - i) as nat,
                e,
                now,
            );
            &&& r.1 == row_samples(s, o, i + 1) + seq![ScanAction::SetLow(o as usize)]
            &&& same_but_sighting(
                r.0,
                with_cursor(s, ScanCursor::RowReleased { out_idx: o as usize, in_start: from as usize }),
                now,
            )
            &&& (forall|j: int| i <= j < s.num_in ==> !#[trigger] s.pressed[o][j]) ==> r.0.scan_start
                == s.scan_start
        }),
    decreases s.num_in - i,
{
    let c = with_cursor(
        s,
        ScanCursor::Sampling { out_idx: o as usize, in_idx: i as usize, in_start: from as usize },
    );
    let (c1, a) = scan_step(c, quiet_feedback(c), e, now);
    let su = if s.async_scan && s.pressed[o][i] {
        MatrixView { scan_start: Some(now), ..s }
    } else {
        s
    };
    assert(c1 == scan_from(su, o, i + 1, from).0);
    lemma_round_actions_same(s, su, o, i + 1);
    lemma_round_actions_same(s, su, o, i + 2);
    if i + 1 < s.num_in {
        lemma_quiet_row_rest(su, o, i + 1, from, e, now);
        assert(row_samples(s, o, i + 1) =~= seq![a] + row_samples(s, o, i + 2));
        assert(quiet_run(c, (s.num_in - i) as nat, e, now).1 == seq![a] + quiet_run(
            c1,
            (s.num_in - i - 1) as nat,
            e,
            now,
        ).1);
        assert(row_samples(s, o, i + 1) + seq![ScanAction::SetLow(o as usize)] =~= seq![a] + (
        row_samples(s, o, i + 2) + seq![ScanAction::SetLow(o as usize)]));
    } else {
        assert(row_samples(s, o, i + 1) =~= Seq::<ScanAction>::empty());
        assert(quiet_run(c1, 0, e, now).1 =~= Seq::<ScanAction>::empty());
        assert(row_samples(s, o, i + 1) + seq![ScanAction::SetLow(o as usize)] =~= seq![a]);
        assert(seq![a] + Seq::<ScanAction>::empty() =~= seq![a]);
    }
}

/// From driving row `o`, the rest of the row.
proof fn lemma_quiet_row(s: MatrixView, o: int, from: int, e: u64, now: Instant)
    requires
        view_wf(s),
        sighted(s),
        0 <= o < s.num_out,
        from == s.scan_pos.1,
    ensures
        ({
            let r = quiet_run(
                with_cursor(s, ScanCursor::RowSelected { out_idx: o as usize, in_start: from as usize }),
                (row_actions(s, o, from).len() - 1) as nat,
                e,
                now,
            );
            &&& r.1 == row_actions(s, o, from).drop_first()
            &&& same_but_sighting(
                r.0,
                with_cursor(s, ScanCursor::RowReleased { out_idx: o as usize, in_start: from as usize }),
                now,
            )
            &&& (forall|j: int| from <= j < s.num_in ==> !#[trigger] s.pressed[o][j])
                ==> r.0.scan_start == s.scan_start
        }),
{
    let r = with_cursor(s, ScanCursor::RowSelected { out_idx: o as usize, in_start: from as usize });
    let (r1, a1) = scan_step(r, quiet_feedback(r), e, now);
    let (r2, a2) = scan_step(r1, quiet_feedback(r1), e, now);
    let n = (s.num_in - from) as nat;
    assert(row_actions(s, o, from).len() == n + 3);
    lemma_quiet_run_split(r, 2, n, e, now);
    reveal_with_fuel(quiet_run, 3);
    assert(quiet_run(r, 2, e, now).0 == r2);
    assert(quiet_run(r1, 1, e, now).1 =~= seq![a2]);
    assert(quiet_run(r, 2, e, now).1 =~= seq![a1, a2]);
    if from < s.num_in {
        assert(r2 == with_cursor(
            s,
            ScanCursor::Sampling { out_idx: o as usize, in_idx: from as usize, in_start: from as usize },
        ));
        lemma_quiet_row_rest(s, o, from, from, e, now);
        assert(row_samples(s, o, from) =~= seq![a2] + row_samples(s, o, from + 1));
        assert(row_actions(s, o, from).drop_first() =~= seq![a1, a2] + (row_samples(s, o, from + 1)
            + seq![ScanAction::SetLow(o as usize)]));
        assert((n + 2) as nat == (2 + n) as nat);
    } else {
        assert(n == 0);
        assert(row_samples(s, o, from) =~= Seq::<ScanAction>::empty());
        assert(quiet_run(r2, 0, e, now).1 =~= Seq::<ScanAction>::empty());
        assert(row_actions(s, o, from).drop_first() =~= seq![a1, a2]);
        assert(seq![a1, a2] + Seq::<ScanAction>::empty() =~= seq![a1, a2]);
    }
}

/// No key of rows `o..` at inputs `from..` is pressed.
pub open spec fn released_from(s: MatrixView, o: int, from: int) -> bool {
    forall|r: int, j: int| o <= r < s.num_out && from <= j < s.num_in ==> !#[trigger] s.pressed[r][j]
}

/// From driving row `o`, the rest of the round.
proof fn lemma_quiet_rows_from(s: MatrixView, o: int, from: int, e: u64, now: Instant)
    requires
        view_wf(s),
        sighted(s),
        0 <= o < s.num_out,
        from == s.scan_pos.1,
    ensures
        ({
            let r = quiet_run(
                with_cursor(s, ScanCursor::RowSelected { out_idx: o as usize, in_start: from as usize }),
                (round_actions(s, o, from).len() - 1) as nat,
                e,
                now,
            );
            &&& r.1 == round_actions(s, o, from).drop_first()
            &&& same_but_sighting(
                r.0,
                MatrixView { scan_pos: (0, 0), cursor: ScanCursor::Top, ..s },
                now,
            )
            &&& released_from(s, o, from) ==> r.0.scan_start == s.scan_start
        }),
    decreases s.num_out - o,
{
    let r = with_cursor(s, ScanCursor::RowSelected { out_idx: o as usize, in_start: from as usize });
    let row = row_actions(s, o, from);
    let rest = round_actions(s, o + 1, from);
    lemma_quiet_row(s, o, from, e, now);
    let q1 = quiet_run(r, (row.len() - 1) as nat, e, now);
    let s1 = MatrixView { scan_start: q1.0.scan_start, ..s };
    let rel = with_cursor(s1, ScanCursor::RowReleased { out_idx: o as usize, in_start: from as usize });
    assert(q1.0 == rel);
    if released_from(s, o, from) {
        assert forall|j: int| from <= j < s.num_in implies !#[trigger] s.pressed[o][j] by {
            assert(!s.pressed[o][j]);
        }
    }
    assert(round_actions(s, o, from) == row + rest);
    lemma_quiet_run_split(r, (row.len() - 1) as nat, rest.len(), e, now);
    lemma_round_actions_same(s, s1, o + 1, from);
    let (t1, b1) = scan_step(rel, quiet_feedback(rel), e, now);
    if o + 1 < s.num_out {
        let nxt = with_cursor(
            s1,
            ScanCursor::RowSelected { out_idx: (o + 1) as usize, in_start: from as usize },
        );
        assert(t1 == nxt);
        lemma_quiet_rows_from(s1, o + 1, from, e, now);
        lemma_quiet_run_split(rel, 1, (rest.len() - 1) as nat, e, now);
        assert(quiet_run(nxt, 0, e, now).1 =~= Seq::<ScanAction>::empty());
        assert(quiet_run(rel, 1, e, now).1 =~= seq![b1]);
        assert(rest =~= seq![b1] + rest.drop_first());
        assert((1 + (rest.len() - 1)) as nat == rest.len());
        if released_from(s, o, from) {
            assert(released_from(s1, o + 1, from));
        }
    } else {
        assert(rest == seq![ScanAction::Idle]);
        assert(quiet_run(t1, 0, e, now).1 =~= Seq::<ScanAction>::empty());
        assert(quiet_run(rel, 1, e, now).1 =~= seq![b1]);
    }
    assert((round_actions(s, o, from).len() - 1) as nat == ((row.len() - 1) as nat
        + rest.len()) as nat);
    assert(round_actions(s, o, from).drop_first() =~= row.drop_first() + rest);
}

/// The opening of a round: the wait for a key where one is due (after which
/// the sighting is the clock's time), then driving the resume row.
proof fn lemma_quiet_round_opening(s: MatrixView, e: u64, now: Instant)
    requires
        view_wf(s),
        s.cursor == ScanCursor::Top,
        s.num_out > 0,
    ensures
        ({
            let r0 = if round_prefix(s, e).len() > 0 {
                MatrixView { scan_start: Some(now), ..s }
            } else {
                s
            };
            &&& sighted(r0)
            &&& quiet_run(s, (round_prefix(s, e).len() + 1) as nat, e, now) == (
                with_cursor(
                    r0,
                    ScanCursor::RowSelected {
                        out_idx: s.scan_pos.0 as usize,
                        in_start: s.scan_pos.1 as usize,
                    },
                ),
                round_prefix(s, e) + seq![ScanAction::SetHigh(s.scan_pos.0 as usize)],
            )
        }),
{
    let (o, from) = s.scan_pos;
    let pre = round_prefix(s, e);
    let r0 = if pre.len() > 0 {
        MatrixView { scan_start: Some(now), ..s }
    } else {
        s
    };
    let sel = with_cursor(r0, ScanCursor::RowSelected { out_idx: o as usize, in_start: from as usize });
    let (s1, a1) = scan_step(s, quiet_feedback(s), e, now);
    if pre.len() == 0 {
        assert(s1 == sel);
        assert(quiet_run(s1, 0, e, now) == (s1, Seq::<ScanAction>::empty()));
        assert(quiet_run(s, 1, e, now).1 =~= seq![a1]);
        assert(pre + seq![ScanAction::SetHigh(o as usize)] =~= seq![a1]);
    } else {
        let (s2, a2) = scan_step(s1, quiet_feedback(s1), e, now);
        let (s3, a3) = scan_step(s2, quiet_feedback(s2), e, now);
        let (s4, a4) = scan_step(s3, quiet_feedback(s3), e, now);
        let (s5, a5) = scan_step(s4, quiet_feedback(s4), e, now);
        assert(s5 == sel);
        assert(quiet_run(s5, 0, e, now) == (s5, Seq::<ScanAction>::empty()));
        assert(quiet_run(s4, 1, e, now) == (s5, seq![a5] + Seq::<ScanAction>::empty()));
        assert(quiet_run(s3, 2, e, now) == (s5, seq![a4] + quiet_run(s4, 1, e, now).1));
        assert(quiet_run(s2, 3, e, now) == (s5, seq![a3] + quiet_run(s3, 2, e, now).1));
        assert(quiet_run(s1, 4, e, now) == (s5, seq![a2] + quiet_run(s2, 3, e, now).1));
        assert(quiet_run(s, 5, e, now) == (s5, seq![a1] + quiet_run(s1, 4, e, now).1));
        assert(quiet_run(s, 5, e, now).1 =~= pre + seq![ScanAction::SetHigh(o as usize)]);
    }
}

/// A round in which no change settles scans the whole matrix from where it
/// resumes.  In `async_scan` mode it first waits for a key, unless a key
/// was seen no more than [`SCAN_IDLE_MILLIS`] ago (`elapsed` is the age the
/// clock gives).  Then it drives each row from the resume row on in order,
/// samples in each of them every input from the resume input on in order,
/// with the key's current state, releases the row, and wraps back to the
/// origin with every key state unchanged.  A sighting is then recorded
/// exactly in `async_scan` mode: the clock's time after a wait for a key;
/// without a wait it is refreshed only by a pressed key, so a round over
/// released keys leaves it as it was (and an idle keyboard stops scanning
/// once it is old enough).
#[verifier::spinoff_prover]
#[verifier::rlimit(40)]
pub proof fn lemma_quiet_round_scans_every_key(s: MatrixView, elapsed: u64, now: Instant)
    requires
        view_wf(s),
        s.cursor == ScanCursor::Top,
        s.num_out > 0,
    ensures
        ({
            let k = (round_prefix(s, elapsed).len() + round_actions(
                s,
                s.scan_pos.0,
                s.scan_pos.1,
            ).len()) as nat;
            let r = quiet_run(s, k, elapsed, now);
            &&& r.1 == round_prefix(s, elapsed) + round_actions(s, s.scan_pos.0, s.scan_pos.1)
            &&& r.0 == MatrixView {
                scan_pos: (0, 0),
                cursor: ScanCursor::Top,
                scan_start: r.0.scan_start,
                ..s
            }
            &&& (r.0.scan_start is Some) == s.async_scan
            &&& (round_prefix(s, elapsed).len() > 0 ==> r.0.scan_start == Some(now))
            &&& (round_prefix(s, elapsed).len() == 0 && released_from(s, s.scan_pos.0, s.scan_pos.1)
                ==> r.0.scan_start == s.scan_start)
        }),
{
    let e = elapsed;
    let (o, from) = s.scan_pos;
    let pre = round_prefix(s, e);
    let r0 = if pre.len() > 0 {
        MatrixView { scan_start: Some(now), ..s }
    } else {
        s
    };
    let all = round_actions(s, o, from);
    lemma_round_actions_same(s, r0, o, from);
    let k = (pre.len() + 1) as nat;
    lemma_quiet_round_opening(s, e, now);
    lemma_quiet_rows_from(r0, o, from, e, now);
    lemma_quiet_run_split(s, k, (all.len() - 1) as nat, e, now);
    assert(all =~= seq![all[0]] + all.drop_first());
    assert(pre + all =~= (pre + seq![all[0]]) + all.drop_first());
    assert((k + (all.len() - 1)) as nat == (pre.len() + all.len()) as nat);
}

/// The feedback of a caller whose debouncer answers `answers(s)` in state
/// `s`: always the kind of feedback the state takes.
pub open spec fn answered_feedback(s: MatrixView, answers: spec_fn(MatrixView) -> DebounceState) -> ScanFeedback {
    if s.cursor is Sampling {
        ScanFeedback::Debounce(answers(s))
    } else {
        ScanFeedback::Done
    }
}

/// `k` steps from `s` with output pins `pins` high, the debouncer answering
/// `answers`, the clock giving `clock` as the age of the last sighting and
/// `times` as the time where they are read: the state reached and the
/// output pins high once every action was carried out.
pub open spec fn driven_run(
    s: MatrixView,
    pins: Set<int>,
    k: nat,
    answers: spec_fn(MatrixView) -> DebounceState,
    clock: spec_fn(MatrixView) -> u64,
    times: spec_fn(MatrixView) -> Instant,
) -> (MatrixView, Set<int>)
    decreases k,
{
    if k == 0 {
        (s, pins)
    } else {
        let (s1, a) = scan_step(s, answered_feedback(s, answers), clock(s), times(s));
        driven_run(s1, drive(pins, a, s.num_out), (k - 1) as nat, answers, clock, times)
    }
}

/// Over any number of steps from the start of a round with no output
/// driven (as for a new matrix), whatever the debouncer answers and the
/// clock gives, the output pins follow the scan ([`pins_match`]): outside
/// the wait for a key at most one output is high, a row is sampled only
/// while its output alone is high, and a reported row's output is high with
/// every other output low (see [`lemma_driven_rows`] for each step).
pub proof fn lemma_driven_rows_over_run(
    s: MatrixView,
    k: nat,
    answers: spec_fn(MatrixView) -> DebounceState,
    clock: spec_fn(MatrixView) -> u64,
    times: spec_fn(MatrixView) -> Instant,
)
    requires
        view_wf(s),
        s.cursor == ScanCursor::Top,
    ensures
        view_wf(driven_run(s, Set::empty(), k, answers, clock, times).0),
        pins_match(
            driven_run(s, Set::empty(), k, answers, clock, times).0,
            driven_run(s, Set::empty(), k, answers, clock, times).1,
        ),
        !waking(driven_run(s, Set::empty(), k, answers, clock, times).0) ==> at_most_one(
            driven_run(s, Set::empty(), k, answers, clock, times).1,
        ),
{
    lemma_driven_rows_from(s, Set::empty(), k, answers, clock, times);
}

proof fn lemma_driven_rows_from(
    s: MatrixView,
    pins: Set<int>,
    k: nat,
    answers: spec_fn(MatrixView) -> DebounceState,
    clock: spec_fn(MatrixView) -> u64,
    times: spec_fn(MatrixView) -> Instant,
)
    requires
        view_wf(s),
        pins_match(s, pins),
    ensures
        view_wf(driven_run(s, pins, k, answers, clock, times).0),
        pins_match(
            driven_run(s, pins, k, answers, clock, times).0,
            driven_run(s, pins, k, answers, clock, times).1,
        ),
        !waking(driven_run(s, pins, k, answers, clock, times).0) ==> at_most_one(
            driven_run(s, pins, k, answers, clock, times).1,
        ),
    decreases k,
{
    if k == 0 {
        if !waking(s) {
            assert forall|x: int, y: int| pins.contains(x) && pins.contains(y) implies x == y by {
                if s.cursor is Top {
                    assert(set![s.scan_pos.0].contains(x));
                    assert(set![s.scan_pos.0].contains(y));
                }
            }
        }
    } else {
        let fb = answered_feedback(s, answers);
        let (s1, a) = scan_step(s, fb, clock(s), times(s));
        lemma_step_keeps_shape(s, fb, clock(s), times(s));
        lemma_driven_rows(s, pins, fb, clock(s), times(s));
        lemma_driven_rows_from(
            s1,
            drive(pins, a, s.num_out),
            (k - 1) as nat,
            answers,
            clock,
            times,
        );
    }
}

} // verus!
