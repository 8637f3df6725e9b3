use vstd::prelude::*;

use vstd::arithmetic::div_mod::{
    lemma_div_multiples_vanish_fancy, lemma_mod_breakdown, lemma_mod_mod, lemma_small_mod,
};
use vstd::arithmetic::power2::{lemma2_to64, lemma_pow2_adds, lemma_pow2_pos, lemma_pow2_unfold, pow2};
use vstd::bits::lemma_usize_shr_is_div;

use crate::event::{DebounceState, Event, KeyEvent};
use crate::key_state::KeyState;
use crate::matrix::SETTLE_MICROS;
use crate::mux_matrix::{
    begin_channel, channel_level, mux_feedback_fits, sample_from, mux_step, mux_view_wf, MuxAction, MuxCursor, MuxFeedback,
    MuxView,
};

verus! {

/// The number that the first `n` select pins spell in binary, pin `i`
/// being worth `2^i`, when they are driven for `channel`.
pub open spec fn select_code(channel: usize, n: nat) -> nat
    decreases n,
{
    if n == 0 {
        0
    } else {
        select_code(channel, (n - 1) as nat) + if channel_level(channel, (n - 1) as usize) {
            pow2((n - 1) as nat)
        } else {
            0
        }
    }
}

/// The select pins spell the channel number in binary: `n` pins give the
/// channel number modulo `2^n`, so every channel below `2^n` is selected
/// exactly.
pub proof fn lemma_select_pins_spell_channel(channel: usize, n: nat)
    requires
        n <= usize::BITS,
    ensures
        select_code(channel, n) == channel as nat % pow2(n),
        channel < pow2(n) ==> select_code(channel, n) == channel,
    decreases n,
{
    lemma_pow2_pos(n);
    if n == 0 {
        lemma2_to64();
    } else {
        let k = (n - 1) as nat;
        lemma_select_pins_spell_channel(channel, k);
        lemma_pow2_pos(k);
        lemma_pow2_unfold(n);
        let ku = k as usize;
        lemma_usize_shr_is_div(channel, ku);
        let sh = channel >> ku;
        assert(((sh & 1usize) == 1usize) == (sh % 2 == 1)) by (bit_vector);
        lemma_mod_breakdown(channel as int, pow2(k) as int, 2);
        assert(pow2(k) * 2 == pow2(n));
        assert((channel as int / pow2(k) as int) % 2 == 0 || (channel as int / pow2(k) as int) % 2
            == 1);
    }
    if channel < pow2(n) {
        lemma_small_mod(channel as nat, pow2(n));
    }
}

/// A step of a multiplexed scan keeps the state well formed, and changes
/// key states only where it finishes with an event: there it flips exactly
/// the key of chip `m`, channel `c` that the event names (row `m`, column
/// `c`, cut to a byte) and the event carries the new state.  Every other
/// step leaves all key states as they were.  A scan finishes with an event
/// exactly when the debouncer has just said that a change settled.
pub proof fn lemma_mux_only_reported_key_changes(s: MuxView, fb: MuxFeedback)
    requires
        mux_view_wf(s),
        mux_feedback_fits(s, fb),
    ensures
        mux_view_wf(mux_step(s, fb).0),
        (mux_step(s, fb).1 is Finished && mux_step(s, fb).1->Finished_0 is Some) == (fb is Debounce
            && fb->Debounce_0 == DebounceState::Debounced),
        match mux_step(s, fb).1 {
            MuxAction::Finished(Some(ev)) => exists|m: int, c: int|
                0 <= m < s.mux_count && 0 <= c < s.channel_count && #[trigger] mux_step(s, fb).0.pressed
                    == s.pressed.update(m, s.pressed[m].update(c, !s.pressed[m][c])) && ev
                    == Event::Key(KeyEvent { row: m as u8, col: c as u8, pressed: !s.pressed[m][c] }),
            _ => mux_step(s, fb).0.pressed == s.pressed,
        },
{
    let s2 = mux_step(s, fb).0;
    if let MuxCursor::Sampling { channel, mux_idx } = s.cursor {
        let m = mux_idx as int;
        let c = channel as int;
        if s2.pressed != s.pressed {
            assert(s2.pressed == s.pressed.update(m, s.pressed[m].update(c, !s.pressed[m][c])));
        }
        assert forall|r: int| 0 <= r < s2.mux_count implies (#[trigger] s2.pressed[r]).len()
            == s2.channel_count by {
            assert(s.pressed[r].len() == s.channel_count);
        }
    }
}

/// A scan ends without an event only once it has looked at every key: at
/// the last chip of the last channel (or, with no chips, after reading the
/// last channel), or at once when there are no channels at all.
pub proof fn lemma_mux_no_event_only_at_end(s: MuxView, fb: MuxFeedback)
    requires
        mux_view_wf(s),
        mux_feedback_fits(s, fb),
        mux_step(s, fb).1 == MuxAction::Finished(None),
    ensures
        match s.cursor {
            MuxCursor::Top => s.channel_count == 0,
            MuxCursor::Sampling { channel, mux_idx } => channel + 1 == s.channel_count && mux_idx
                + 1 == s.mux_count,
            MuxCursor::Reading { channel } => channel + 1 == s.channel_count && s.mux_count == 0,
            _ => false,
        },
{
}

/// Pin `i`'s level for `channel` is bit `i` of the channel number.
proof fn lemma_level_is_bit(channel: usize, i: nat)
    requires
        i < usize::BITS,
    ensures
        channel_level(channel, i as usize) == ((channel as nat / pow2(i)) % 2 == 1),
{
    let iu = i as usize;
    lemma_usize_shr_is_div(channel, iu);
    let sh = channel >> iu;
    assert(((sh & 1usize) == 1usize) == (sh % 2 == 1)) by (bit_vector);
}

/// Bit `i` of a number below bit `n` survives taking it modulo `2^n`.
proof fn lemma_bit_of_mod(c: nat, i: nat, n: nat)
    requires
        i < n,
    ensures
        ((c % pow2(n)) / pow2(i)) % 2 == (c / pow2(i)) % 2,
{
    let k = (n - i) as nat;
    let p = pow2(i);
    let q = pow2(k);
    lemma_pow2_pos(i);
    lemma_pow2_pos(k);
    lemma_pow2_adds(i, k);
    assert(i + k == n);
    lemma_mod_breakdown(c as int, p as int, q as int);
    let x = (c as int / p as int) % q as int;
    lemma_div_multiples_vanish_fancy(x, c as int % p as int, p as int);
    lemma_pow2_unfold(k);
    lemma_pow2_pos((k - 1) as nat);
    lemma_mod_mod(c as int / p as int, 2, pow2((k - 1) as nat) as int);
}

/// The first `n` select pins agree for two channels.
pub open spec fn same_levels(c1: usize, c2: usize, n: nat) -> bool {
    forall|i: int|
        0 <= i < n ==> #[trigger] channel_level(c1, i as usize) == channel_level(c2, i as usize)
}

proof fn lemma_same_levels_same_code(c1: usize, c2: usize, n: nat)
    requires
        same_levels(c1, c2, n),
    ensures
        select_code(c1, n) == select_code(c2, n),
    decreases n,
{
    if n > 0 {
        lemma_same_levels_same_code(c1, c2, (n - 1) as nat);
        assert(channel_level(c1, ((n - 1) as int) as usize) == channel_level(
            c2,
            ((n - 1) as int) as usize,
        ));
    }
}

/// Two channels get the same levels on `n` select pins exactly when they
/// are equal modulo `2^n`.
pub proof fn lemma_same_levels_iff_same_residue(c1: usize, c2: usize, n: nat)
    requires
        n <= usize::BITS,
    ensures
        same_levels(c1, c2, n) <==> c1 as nat % pow2(n) == c2 as nat % pow2(n),
{
    lemma_select_pins_spell_channel(c1, n);
    lemma_select_pins_spell_channel(c2, n);
    if same_levels(c1, c2, n) {
        lemma_same_levels_same_code(c1, c2, n);
    }
    if c1 as nat % pow2(n) == c2 as nat % pow2(n) {
        assert forall|i: int| 0 <= i < n implies #[trigger] channel_level(c1, i as usize)
            == channel_level(c2, i as usize) by {
            lemma_level_is_bit(c1, i as nat);
            lemma_level_is_bit(c2, i as nat);
            lemma_bit_of_mod(c1 as nat, i as nat, n);
            lemma_bit_of_mod(c2 as nat, i as nat, n);
        }
    }
}

/// The channels below `count` all get distinct levels on `n` select pins
/// exactly when there are no more of them than `2^n` (16 channels need 4
/// pins).
pub proof fn lemma_channels_distinct_iff(count: usize, n: nat)
    requires
        n <= usize::BITS,
    ensures
        (forall|c1: usize, c2: usize|
            c1 < count && c2 < count && c1 != c2 ==> !#[trigger] same_levels(c1, c2, n)) <==> count
            <= pow2(n),
{
    lemma_pow2_pos(n);
    if count <= pow2(n) {
        assert forall|c1: usize, c2: usize|
            c1 < count && c2 < count && c1 != c2 implies !#[trigger] same_levels(c1, c2, n) by {
            lemma_same_levels_iff_same_residue(c1, c2, n);
            lemma_small_mod(c1 as nat, pow2(n));
            lemma_small_mod(c2 as nat, pow2(n));
        }
    } else {
        let p = pow2(n) as usize;
        lemma_same_levels_iff_same_residue(0, p, n);
        lemma_small_mod(0, pow2(n));
        vstd::arithmetic::div_mod::lemma_mod_self_0(pow2(n) as int);
        assert(same_levels(0, p, n));
    }
}

/// What a debouncer that never sees a change settle answers in state `s`,
/// with the ADC giving `readings` for every channel.
pub open spec fn mux_quiet_feedback(s: MuxView, readings: Vec<u16>) -> MuxFeedback {
    match s.cursor {
        MuxCursor::Reading { .. } => MuxFeedback::Samples(readings),
        MuxCursor::Sampling { .. } => MuxFeedback::Debounce(DebounceState::Ignored),
        _ => MuxFeedback::Done,
    }
}

/// `k` steps of a multiplexed scan from `s` with such a debouncer and ADC.
pub open spec fn mux_quiet_run(s: MuxView, k: nat, readings: Vec<u16>) -> (MuxView, Seq<MuxAction>)
    decreases k,
{
    if k == 0 {
        (s, Seq::empty())
    } else {
        let (s1, a) = mux_step(s, mux_quiet_feedback(s, readings));
        let (s2, rest) = mux_quiet_run(s1, (k - 1) as nat, readings);
        (s2, seq![a] + rest)
    }
}

/// The debouncer calls for `channel`, chip `from` to the last one.
pub open spec fn chip_debounces(s: MuxView, channel: int, readings: Seq<u16>, from: int) -> Seq<
    MuxAction,
> {
    Seq::new(
        (s.mux_count - from) as nat,
        |j: int|
            MuxAction::Debounce {
                in_idx: (from + j) as usize,
                out_idx: channel as usize,
                pin_state: readings[from + j] > s.threshold,
                key_state: KeyState { pressed: s.pressed[from + j][channel] },
            },
    )
}

/// The actions for one channel: select it, let it settle, convert, and
/// debounce every chip's key in turn.
pub open spec fn channel_actions(s: MuxView, channel: int, readings: Seq<u16>) -> Seq<MuxAction> {
    seq![
        MuxAction::SelectChannel(channel as usize),
        MuxAction::WaitMicros(SETTLE_MICROS),
        MuxAction::ReadAdc,
    ] + chip_debounces(s, channel, readings, 0)
}

/// The actions of a scan with no settled change from `channel` on.
pub open spec fn scan_actions(s: MuxView, channel: int, readings: Seq<u16>) -> Seq<MuxAction>
    decreases s.channel_count - channel,
{
    if 0 <= channel < s.channel_count {
        channel_actions(s, channel, readings) + scan_actions(s, channel + 1, readings)
    } else {
        seq![MuxAction::Finished(None)]
    }
}

proof fn lemma_mux_quiet_run_split(s: MuxView, a: nat, b: nat, v: Vec<u16>)
    ensures
        mux_quiet_run(s, a + b, v).0 == mux_quiet_run(mux_quiet_run(s, a, v).0, b, v).0,
        mux_quiet_run(s, a + b, v).1 == mux_quiet_run(s, a, v).1 + mux_quiet_run(
            mux_quiet_run(s, a, v).0,
            b,
            v,
        ).1,
    decreases a,
{
    if a > 0 {
        let (s1, x) = mux_step(s, mux_quiet_feedback(s, v));
        lemma_mux_quiet_run_split(s1, (a - 1) as nat, b, v);
        assert((a + b - 1) as nat == ((a - 1) as nat + b) as nat);
        let r1 = mux_quiet_run(s1, (a - 1) as nat, v);
        assert(seq![x] + (r1.1 + mux_quiet_run(r1.0, b, v).1) =~= (seq![x] + r1.1) + mux_quiet_run(
            r1.0,
            b,
            v,
        ).1);
    }
}

/// A scan's actions depend only on the key states, threshold and shape.
proof fn lemma_scan_actions_same(s: MuxView, t: MuxView, channel: int, readings: Seq<u16>)
    requires
        s.pressed == t.pressed,
        s.threshold == t.threshold,
        s.mux_count == t.mux_count,
        s.channel_count == t.channel_count,
    ensures
        scan_actions(s, channel, readings) == scan_actions(t, channel, readings),
    decreases s.channel_count - channel,
{
    if 0 <= channel < s.channel_count {
        lemma_scan_actions_same(s, t, channel + 1, readings);
        assert(chip_debounces(s, channel, readings, 0) =~= chip_debounces(t, channel, readings, 0));
    }
}

/// From debouncing chip `m` on `channel`, the rest of the channel, up to
/// the action that follows it.
proof fn lemma_mux_quiet_chips(r: MuxView, c: int, m: int, v: Vec<u16>)
    requires
        mux_view_wf(r),
        r.readings == v@,
        0 <= c < r.channel_count,
        0 <= m < r.mux_count,
    ensures
        mux_quiet_run(
            MuxView { cursor: MuxCursor::Sampling { channel: c as usize, mux_idx: m as usize }, ..r },
            (r.mux_count - m) as nat,
            v,
        ) == (
            begin_channel(r, c + 1).0,
            chip_debounces(r, c, v@, m + 1) + seq![begin_channel(r, c + 1).1],
        ),
    decreases r.mux_count - m,
{
    let x = MuxView { cursor: MuxCursor::Sampling { channel: c as usize, mux_idx: m as usize }, ..r };
    let (x1, a) = mux_step(x, mux_quiet_feedback(x, v));
    assert(x1 == sample_from(r, c, m + 1).0);
    if m + 1 < r.mux_count {
        lemma_mux_quiet_chips(r, c, m + 1, v);
        assert(chip_debounces(r, c, v@, m + 1) =~= seq![a] + chip_debounces(r, c, v@, m + 2));
        assert(chip_debounces(r, c, v@, m + 1) + seq![begin_channel(r, c + 1).1] =~= seq![a] + (
        chip_debounces(r, c, v@, m + 2) + seq![begin_channel(r, c + 1).1]));
    } else {
        assert(chip_debounces(r, c, v@, m + 1) =~= Seq::<MuxAction>::empty());
        assert(mux_quiet_run(x1, 0, v).1 =~= Seq::<MuxAction>::empty());
        assert(seq![a] + Seq::<MuxAction>::empty() =~= seq![a]);
        assert(Seq::<MuxAction>::empty() + seq![a] =~= seq![a]);
    }
}

/// From selecting `channel`, the rest of the channel, up to the action
/// that follows it.
proof fn lemma_mux_quiet_channel(x: MuxView, c: int, v: Vec<u16>)
    requires
        mux_view_wf(x),
        v@.len() == x.mux_count,
        0 <= c < x.channel_count,
    ensures
        ({
            let r = MuxView { readings: v@, ..x };
            mux_quiet_run(
                MuxView { cursor: MuxCursor::Selecting { channel: c as usize }, ..x },
                (x.mux_count + 3) as nat,
                v,
            ) == (
                begin_channel(r, c + 1).0,
                seq![MuxAction::WaitMicros(SETTLE_MICROS), MuxAction::ReadAdc] + chip_debounces(
                    r,
                    c,
                    v@,
                    0,
                ) + seq![begin_channel(r, c + 1).1],
            )
        }),
{
    let r = MuxView { readings: v@, ..x };
    let x0 = MuxView { cursor: MuxCursor::Selecting { channel: c as usize }, ..x };
    let (x1, a1) = mux_step(x0, mux_quiet_feedback(x0, v));
    let (x2, a2) = mux_step(x1, mux_quiet_feedback(x1, v));
    let (x3, a3) = mux_step(x2, mux_quiet_feedback(x2, v));
    assert(x3 == sample_from(r, c, 0).0);
    let rest = chip_debounces(r, c, v@, 0) + seq![begin_channel(r, c + 1).1];
    if x.mux_count > 0 {
        lemma_mux_quiet_chips(r, c, 0, v);
        assert(chip_debounces(r, c, v@, 0) =~= seq![a3] + chip_debounces(r, c, v@, 1));
        assert(rest =~= seq![a3] + (chip_debounces(r, c, v@, 1) + seq![begin_channel(r, c + 1).1]));
        assert(mux_quiet_run(x2, (x.mux_count + 1) as nat, v) == (begin_channel(r, c + 1).0, rest));
    } else {
        assert(chip_debounces(r, c, v@, 0) =~= Seq::<MuxAction>::empty());
        assert(mux_quiet_run(x3, 0, v) == (x3, Seq::<MuxAction>::empty()));
        assert(rest =~= seq![a3]);
        assert(mux_quiet_run(x2, 1, v) == (x3, seq![a3] + Seq::<MuxAction>::empty()));
        assert(seq![a3] + Seq::<MuxAction>::empty() =~= seq![a3]);
    }
    assert(mux_quiet_run(x1, (x.mux_count + 2) as nat, v) == (begin_channel(r, c + 1).0, seq![a2]
        + rest));
    assert(seq![a1] + (seq![a2] + rest) =~= seq![
        MuxAction::WaitMicros(SETTLE_MICROS),
        MuxAction::ReadAdc,
    ] + chip_debounces(r, c, v@, 0) + seq![begin_channel(r, c + 1).1]);
}

/// From selecting `channel`, the rest of the scan.
proof fn lemma_mux_quiet_channels_from(x: MuxView, c: int, v: Vec<u16>)
    requires
        mux_view_wf(x),
        v@.len() == x.mux_count,
        0 <= c < x.channel_count,
    ensures
        mux_quiet_run(
            MuxView { cursor: MuxCursor::Selecting { channel: c as usize }, ..x },
            (scan_actions(x, c, v@).len() - 1) as nat,
            v,
        ) == (MuxView { readings: v@, cursor: MuxCursor::Top, ..x }, scan_actions(
            x,
            c,
            v@,
        ).drop_first()),
    decreases x.channel_count - c,
{
    let r = MuxView { readings: v@, ..x };
    let x0 = MuxView { cursor: MuxCursor::Selecting { channel: c as usize }, ..x };
    let ch = channel_actions(x, c, v@);
    let rest = scan_actions(x, c + 1, v@);
    assert(chip_debounces(r, c, v@, 0) =~= chip_debounces(x, c, v@, 0));
    lemma_mux_quiet_channel(x, c, v);
    assert(scan_actions(x, c, v@) == ch + rest);
    let k1 = (x.mux_count + 3) as nat;
    assert(ch.len() == k1);
    lemma_scan_actions_same(x, r, c + 1, v@);
    assert(rest =~= seq![rest[0]] + rest.drop_first());
    assert(begin_channel(r, c + 1).1 == rest[0]);
    assert(ch.drop_first() =~= seq![MuxAction::WaitMicros(SETTLE_MICROS), MuxAction::ReadAdc]
        + chip_debounces(r, c, v@, 0));
    assert(mux_quiet_run(x0, k1, v) == (begin_channel(r, c + 1).0, ch.drop_first() + seq![
        rest[0],
    ]));
    lemma_mux_quiet_run_split(x0, k1, (rest.len() - 1) as nat, v);
    if c + 1 < x.channel_count {
        lemma_mux_quiet_channels_from(r, c + 1, v);
        assert(MuxView { readings: v@, cursor: MuxCursor::Top, ..r } == MuxView {
            readings: v@,
            cursor: MuxCursor::Top,
            ..x
        });
    } else {
        assert(rest == seq![MuxAction::Finished(None)]);
        assert(mux_quiet_run(begin_channel(r, c + 1).0, 0, v).1 =~= Seq::<MuxAction>::empty());
    }
    assert((scan_actions(x, c, v@).len() - 1) as nat == (k1 + (rest.len() - 1)) as nat);
    assert(scan_actions(x, c, v@).drop_first() =~= (ch.drop_first() + seq![rest[0]])
        + rest.drop_first());
}

/// A scan in which no change settles, with the ADC giving `readings`,
/// selects every channel in order and, for each, lets it settle, converts,
/// and asks the debouncer about every chip's key in turn (with the chip's
/// reading against the threshold and the key's current state), then
/// finishes without an event, every key state unchanged.
pub proof fn lemma_mux_quiet_scan_visits_every_key(s: MuxView, readings: Vec<u16>)
    requires
        mux_view_wf(s),
        s.cursor == MuxCursor::Top,
        readings@.len() == s.mux_count,
    ensures
        mux_quiet_run(s, scan_actions(s, 0, readings@).len(), readings) == (
            MuxView {
                readings: if s.channel_count > 0 {
                    readings@
                } else {
                    s.readings
                },
                cursor: MuxCursor::Top,
                ..s
            },
            scan_actions(s, 0, readings@),
        ),
{
    let v = readings;
    let all = scan_actions(s, 0, v@);
    let (s1, a1) = mux_step(s, mux_quiet_feedback(s, v));
    if s.channel_count > 0 {
        lemma_mux_quiet_channels_from(s, 0, v);
        lemma_mux_quiet_run_split(s, 1, (all.len() - 1) as nat, v);
        assert(mux_quiet_run(s1, 0, v) == (s1, Seq::<MuxAction>::empty()));
        assert(mux_quiet_run(s, 1, v).1 =~= seq![a1]);
        assert(all =~= seq![a1] + all.drop_first());
        assert((1 + (all.len() - 1)) as nat == all.len());
    } else {
        assert(mux_quiet_run(s1, 0, v) == (s1, Seq::<MuxAction>::empty()));
        assert(mux_quiet_run(s, 1, v).1 =~= seq![a1]);
    }
}

/// A debounced key whose change has not settled (the debouncer says
/// anything but `Debounced`) never cuts the scan short: the next action
/// asks about the next chip on the same channel, with its reading against
/// the threshold and its key state, or, after the last chip, selects the
/// next channel, or, after the last channel, finishes without an event.
/// No key changes.
pub proof fn lemma_mux_unsettled_goes_on(s: MuxView, fb: MuxFeedback)
    requires
        mux_view_wf(s),
        s.cursor is Sampling,
        fb is Debounce,
        fb->Debounce_0 != DebounceState::Debounced,
    ensures
        ({
            let c = s.cursor->Sampling_channel as int;
            let m = s.cursor->Sampling_mux_idx as int;
            let (s2, a) = mux_step(s, fb);
            &&& a == if m + 1 < s.mux_count {
                MuxAction::Debounce {
                    in_idx: (m + 1) as usize,
                    out_idx: c as usize,
                    pin_state: s.readings[m + 1] > s.threshold,
                    key_state: KeyState { pressed: s.pressed[m + 1][c] },
                }
            } else if c + 1 < s.channel_count {
                MuxAction::SelectChannel((c + 1) as usize)
            } else {
                MuxAction::Finished(None)
            }
            &&& s2.pressed == s.pressed
            &&& s2.readings == s.readings
        }),
{
}

/// A settled change finishes the scan with the key event of that key: row
/// is the chip, column the channel (each cut to a byte), and the key's new
/// state, the opposite of its state before; that key flips and every other
/// key keeps its state.
pub proof fn lemma_mux_report_carries_new_state(s: MuxView, fb: MuxFeedback)
    requires
        mux_view_wf(s),
        s.cursor is Sampling,
        fb is Debounce,
        fb->Debounce_0 == DebounceState::Debounced,
    ensures
        ({
            let c = s.cursor->Sampling_channel as int;
            let m = s.cursor->Sampling_mux_idx as int;
            let (s2, a) = mux_step(s, fb);
            &&& a == MuxAction::Finished(
                Some(Event::Key(KeyEvent { row: m as u8, col: c as u8, pressed: !s.pressed[m][c] })),
            )
            &&& s2.pressed[m][c] == !s.pressed[m][c]
            &&& forall|r: int, j: int|
                0 <= r < s.mux_count && 0 <= j < s.channel_count && (r, j) != (m, c)
                    ==> #[trigger] s2.pressed[r][j] == s.pressed[r][j]
            &&& s2.cursor == MuxCursor::Top
        }),
{
    let c = s.cursor->Sampling_channel as int;
    let m = s.cursor->Sampling_mux_idx as int;
    let s2 = mux_step(s, fb).0;
    assert forall|r: int, j: int|
        0 <= r < s.mux_count && 0 <= j < s.channel_count && (r, j) != (m, c) implies #[trigger] s2.pressed[r][j]
        == s.pressed[r][j] by {
        if r == m {
            assert(j != c);
        }
    }
}

} // verus!
