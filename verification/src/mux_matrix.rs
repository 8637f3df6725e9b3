use vstd::prelude::*;

use crate::event::{DebounceState, Event, KeyEvent};
use crate::key_state::KeyState;
use crate::matrix::SETTLE_MICROS;

verus! {

/// Where a scan of a multiplexed matrix stands: the action handed out last.
#[derive(Copy, Clone, Debug, PartialEq, Eq, Structural)]
pub enum MuxCursor {
    /// No scan is under way.
    Top,
    /// `SelectChannel(channel)` was handed out.
    Selecting { channel: usize },
    /// The settling wait after selecting `channel` was handed out.
    Converting { channel: usize },
    /// `ReadAdc` was handed out for `channel`.
    Reading { channel: usize },
    /// `Debounce` of the key of chip `mux_idx`, channel `channel` was handed out.
    Sampling { channel: usize, mux_idx: usize },
}

/// What the caller is asked to do next.
#[derive(Copy, Clone, Debug, PartialEq, Eq, Structural)]
pub enum MuxAction {
    /// Drive the select pins to the levels that `set_channel` gives for this channel.
    SelectChannel(usize),
    /// Wait this many microseconds.
    WaitMicros(u64),
    /// Convert every multiplexer's common pin with the ADC and hand the
    /// readings back with `MuxFeedback::Samples`, one per chip, in order.
    ReadAdc,
    /// Hand these arguments to the debouncer and report back what it says
    /// with `MuxFeedback::Debounce`.
    Debounce { in_idx: usize, out_idx: usize, pin_state: bool, key_state: KeyState },
    /// The scan is over: a key event, or `None` when no key changed.
    Finished(Option<Event>),
}

/// Milliseconds to wait before scanning again after a scan found no change.
pub const MUX_POLL_MILLIS: u64 = 1;

/// What reading an event from a multiplexed matrix does after a scan.
#[derive(Copy, Clone, Debug, PartialEq, Eq, Structural)]
pub enum MuxReadAction {
    /// The scan found this event: report it.
    Return(Event),
    /// No key changed: wait this many milliseconds, then scan again.
    WaitMillis(u64),
}

/// The outcome of the last action, handed to the next step.
#[derive(Clone, Debug)]
pub enum MuxFeedback {
    /// The action was carried out (or there was none).
    Done,
    /// The ADC readings, one per multiplexer chip.
    Samples(Vec<u16>),
    /// What the debouncer said of the key that `Debounce` named.
    Debounce(DebounceState),
}

/// The mathematical state of a [`MuxMatrix`].
#[verifier::ext_equal]
pub struct MuxView {
    /// Number of select pins shared by all multiplexer chips.
    pub num_outputs: nat,
    /// Number of multiplexer chips (one ADC input each).
    pub mux_count: nat,
    /// Number of channels of each chip.
    pub channel_count: nat,
    /// A reading above this counts as a pressed key.
    pub threshold: u16,
    /// `pressed[mux][channel]`: whether that key is down.
    pub pressed: Seq<Seq<bool>>,
    /// The last ADC readings, one per chip.
    pub readings: Seq<u16>,
    /// The action handed out last.
    pub cursor: MuxCursor,
}

/// A key matrix read through analog multiplexers (such as the CD74HC4067):
/// `num_outputs` select pins choose one of `channel_count` channels on
/// every one of `mux_count` chips, whose common pins an ADC converts.
pub struct MuxMatrix {
    num_outputs: usize,
    mux_count: usize,
    channel_count: usize,
    key_states: Vec<Vec<KeyState>>,
    read_buffer: Vec<u16>,
    threshold: u16,
    cursor: MuxCursor,
}

impl View for MuxMatrix {
    type V = MuxView;

    closed spec fn view(&self) -> MuxView {
        MuxView {
            num_outputs: self.num_outputs as nat,
            mux_count: self.mux_count as nat,
            channel_count: self.channel_count as nat,
            threshold: self.threshold,
            pressed: crate::matrix::pressed_of(self.key_states@),
            readings: self.read_buffer@,
            cursor: self.cursor,
        }
    }
}

pub open spec fn mux_view_wf(s: MuxView) -> bool {
    &&& s.num_outputs <= usize::MAX
    &&& s.mux_count <= usize::MAX
    &&& s.channel_count <= usize::MAX
    &&& s.pressed.len() == s.mux_count
    &&& forall|m: int| 0 <= m < s.mux_count ==> (#[trigger] s.pressed[m]).len() == s.channel_count
    &&& s.readings.len() == s.mux_count
    &&& match s.cursor {
        MuxCursor::Top => true,
        MuxCursor::Selecting { channel } => channel < s.channel_count,
        MuxCursor::Converting { channel } => channel < s.channel_count,
        MuxCursor::Reading { channel } => channel < s.channel_count,
        MuxCursor::Sampling { channel, mux_idx } => channel < s.channel_count && mux_idx
            < s.mux_count,
    }
}

/// The level of select pin `i` for `channel`: bit `i` of the channel number.
pub open spec fn channel_level(channel: usize, i: usize) -> bool {
    ((channel >> i) & 1usize) == 1usize
}

/// A key counts as pressed when its reading is above the threshold.
pub open spec fn reads_pressed(s: MuxView, mux_idx: int) -> bool {
    s.readings[mux_idx] > s.threshold
}

/// Select `channel`, or end the scan without an event once every channel
/// has been read.
pub open spec fn begin_channel(s: MuxView, channel: int) -> (MuxView, MuxAction) {
    if channel < s.channel_count {
        (
            MuxView { cursor: MuxCursor::Selecting { channel: channel as usize }, ..s },
            MuxAction::SelectChannel(channel as usize),
        )
    } else {
        (MuxView { cursor: MuxCursor::Top, ..s }, MuxAction::Finished(None))
    }
}

/// Debounce the key of chip `mux_idx` on `channel`, or go on to the next
/// channel once every chip has been looked at.
pub open spec fn sample_from(s: MuxView, channel: int, mux_idx: int) -> (MuxView, MuxAction) {
    if mux_idx < s.mux_count {
        (
            MuxView {
                cursor: MuxCursor::Sampling { channel: channel as usize, mux_idx: mux_idx as usize },
                ..s
            },
            MuxAction::Debounce {
                in_idx: mux_idx as usize,
                out_idx: channel as usize,
                pin_state: reads_pressed(s, mux_idx),
                key_state: KeyState { pressed: s.pressed[mux_idx][channel] },
            },
        )
    } else {
        begin_channel(s, channel + 1)
    }
}

/// One step of a scan of a multiplexed matrix.
pub open spec fn mux_step(s: MuxView, fb: MuxFeedback) -> (MuxView, MuxAction) {
    match s.cursor {
        MuxCursor::Top => begin_channel(s, 0),
        MuxCursor::Selecting { channel } => (
            MuxView { cursor: MuxCursor::Converting { channel }, ..s },
            MuxAction::WaitMicros(SETTLE_MICROS),
        ),
        MuxCursor::Converting { channel } => (
            MuxView { cursor: MuxCursor::Reading { channel }, ..s },
            MuxAction::ReadAdc,
        ),
        MuxCursor::Reading { channel } => match fb {
            MuxFeedback::Samples(v) => sample_from(MuxView { readings: v@, ..s }, channel as int, 0),
            _ => (s, MuxAction::Finished(None)),
        },
        MuxCursor::Sampling { channel, mux_idx } => {
            let m = mux_idx as int;
            let c = channel as int;
            if fb is Debounce && fb->Debounce_0 == DebounceState::Debounced {
                let now_pressed = !s.pressed[m][c];
                (
                    MuxView {
                        pressed: s.pressed.update(m, s.pressed[m].update(c, now_pressed)),
                        cursor: MuxCursor::Top,
                        ..s
                    },
                    MuxAction::Finished(
                        Some(Event::Key(KeyEvent { row: m as u8, col: c as u8, pressed: now_pressed })),
                    ),
                )
            } else {
                sample_from(s, c, m + 1)
            }
        },
    }
}

/// The feedback that a step in this state takes: readings for all chips
/// after `ReadAdc`, a debouncer's answer after `Debounce`, `Done` otherwise.
pub open spec fn mux_feedback_fits(s: MuxView, fb: MuxFeedback) -> bool {
    match s.cursor {
        MuxCursor::Reading { .. } => fb is Samples && fb->Samples_0@.len() == s.mux_count,
        MuxCursor::Sampling { .. } => fb is Debounce,
        _ => fb is Done,
    }
}

impl MuxMatrix {
    pub closed spec fn wf(&self) -> bool {
        &&& mux_view_wf(self@)
        &&& self.key_states@.len() == self.mux_count
        &&& forall|m: int|
            0 <= m < self.mux_count ==> (#[trigger] self.key_states@[m])@.len()
                == self.channel_count
    }

    /// A well-formed multiplexed matrix has a well-formed view, so the laws
    /// on views apply to it.
    pub proof fn lemma_wf_view(&self)
        requires
            self.wf(),
        ensures
            mux_view_wf(self@),
    {
    }

    proof fn lemma_pressed_at(&self, m: int, c: int)
        requires
            self.wf(),
            0 <= m < self.mux_count,
            0 <= c < self.channel_count,
        ensures
            self@.pressed[m][c] == self.key_states@[m]@[c].pressed,
    {
    }

    /// A multiplexed matrix of released keys with zeroed readings, no
    /// scan under way.
    pub fn new(num_outputs: usize, mux_count: usize, channel_count: usize, threshold: u16) -> (m:
        Self)
        ensures
            m.wf(),
            m@.num_outputs == num_outputs,
            m@.mux_count == mux_count,
            m@.channel_count == channel_count,
            m@.threshold == threshold,
            m@.pressed == Seq::new(
                mux_count as nat,
                |i: int| Seq::new(channel_count as nat, |j: int| false),
            ),
            m@.readings == Seq::new(mux_count as nat, |i: int| 0u16),
            m@.cursor == MuxCursor::Top,
    {
        let mut key_states: Vec<Vec<KeyState>> = Vec::new();
        let mut read_buffer: Vec<u16> = Vec::new();
        let mut m: usize = 0;
        while m < mux_count
            invariant
                m <= mux_count,
                key_states@.len() == m,
                read_buffer@.len() == m,
                forall|j: int| 0 <= j < m ==> #[trigger] read_buffer@[j] == 0u16,
                forall|r: int|
                    0 <= r < m ==> (#[trigger] key_states@[r])@.len() == channel_count && forall|
                        c: int,
                    |
                        0 <= c < channel_count ==> !(#[trigger] key_states@[r]@[c]).pressed,
            decreases mux_count - m,
        {
            let mut row: Vec<KeyState> = Vec::new();
            let mut c: usize = 0;
            while c < channel_count
                invariant
                    c <= channel_count,
                    row@.len() == c,
                    forall|j: int| 0 <= j < c ==> !(#[trigger] row@[j]).pressed,
                decreases channel_count - c,
            {
                row.push(KeyState::new());
                c = c + 1;
            }
            key_states.push(row);
            read_buffer.push(0);
            m = m + 1;
        }
        let mm = MuxMatrix {
            num_outputs,
            mux_count,
            channel_count,
            key_states,
            read_buffer,
            threshold,
            cursor: MuxCursor::Top,
        };
        assert(mm@.pressed =~~= Seq::new(
            mux_count as nat,
            |i: int| Seq::new(channel_count as nat, |j: int| false),
        ));
        assert(mm@.readings =~= Seq::new(mux_count as nat, |i: int| 0u16));
        mm
    }

    /// The levels of the select pins that choose `channel`: pin `i` is high
    /// exactly when bit `i` of the channel number is set.
    pub fn set_channel(&self, channel: usize) -> (levels: Vec<bool>)
        requires
            self@.num_outputs <= usize::BITS,
        ensures
            levels@.len() == self@.num_outputs,
            forall|i: int|
                0 <= i < self@.num_outputs ==> #[trigger] levels@[i] == channel_level(
                    channel,
                    i as usize,
                ),
    {
        let mut levels: Vec<bool> = Vec::new();
        let mut i: usize = 0;
        while i < self.num_outputs
            invariant
                i <= self.num_outputs,
                self.num_outputs <= usize::BITS,
                levels@.len() == i,
                forall|j: int| 0 <= j < i ==> #[trigger] levels@[j] == channel_level(channel, j as usize),
            decreases self.num_outputs - i,
        {
            levels.push(((channel >> i) & 1) == 1);
            i = i + 1;
        }
        levels
    }

    /// Starts a new scan: whatever a dropped scan left pending is forgotten,
    /// and the next step selects channel 0.
    pub fn begin_scan(&mut self)
        requires
            old(self).wf(),
        ensures
            final(self).wf(),
            final(self)@ == (MuxView { cursor: MuxCursor::Top, ..old(self)@ }),
    {
        self.cursor = MuxCursor::Top;
    }

    /// What reading an event does with the outcome of a scan: report the
    /// event it found, or wait [`MUX_POLL_MILLIS`] and scan again.
    pub fn read_event_step(found: Option<Event>) -> (a: MuxReadAction)
        ensures
            a == match found {
                Some(e) => MuxReadAction::Return(e),
                None => MuxReadAction::WaitMillis(MUX_POLL_MILLIS),
            },
    {
        match found {
            Some(e) => MuxReadAction::Return(e),
            None => MuxReadAction::WaitMillis(MUX_POLL_MILLIS),
        }
    }

    /// True when a step in this state takes ADC readings.
    pub fn awaits_samples(&self) -> (r: bool)
        ensures
            r == (self@.cursor is Reading),
    {
        match self.cursor {
            MuxCursor::Reading { .. } => true,
            _ => false,
        }
    }

    /// True when a step in this state takes a debouncer's answer.
    pub fn awaits_debounce(&self) -> (r: bool)
        ensures
            r == (self@.cursor is Sampling),
    {
        match self.cursor {
            MuxCursor::Sampling { .. } => true,
            _ => false,
        }
    }

    fn begin_channel(&mut self, channel: usize) -> (a: MuxAction)
        requires
            old(self).wf(),
            channel <= old(self).channel_count,
        ensures
            final(self).wf(),
            final(self)@ == begin_channel(old(self)@, channel as int).0,
            a == begin_channel(old(self)@, channel as int).1,
    {
        if channel < self.channel_count {
            self.cursor = MuxCursor::Selecting { channel };
            MuxAction::SelectChannel(channel)
        } else {
            self.cursor = MuxCursor::Top;
            MuxAction::Finished(None)
        }
    }

    fn sample_from(&mut self, channel: usize, mux_idx: usize) -> (a: MuxAction)
        requires
            old(self).wf(),
            channel < old(self).channel_count,
            mux_idx <= old(self).mux_count,
        ensures
            final(self).wf(),
            final(self)@ == sample_from(old(self)@, channel as int, mux_idx as int).0,
            a == sample_from(old(self)@, channel as int, mux_idx as int).1,
    {
        if mux_idx < self.mux_count {
            proof {
                self.lemma_pressed_at(mux_idx as int, channel as int);
            }
            let key_state = self.key_states[mux_idx][channel];
            let pin_state = self.read_buffer[mux_idx] > self.threshold;
            self.cursor = MuxCursor::Sampling { channel, mux_idx };
            MuxAction::Debounce { in_idx: mux_idx, out_idx: channel, pin_state, key_state }
        } else {
            self.begin_channel(channel + 1)
        }
    }

    /// One step of a scan.  The caller carries out the action returned and
    /// calls `scan_and_update` again with its outcome, until the action is
    /// `Finished`, which ends the scan with an event or with none.
    pub fn scan_and_update(&mut self, fb: MuxFeedback) -> (a: MuxAction)
        requires
            old(self).wf(),
            mux_feedback_fits(old(self)@, fb),
        ensures
            final(self).wf(),
            final(self)@ == mux_step(old(self)@, fb).0,
            a == mux_step(old(self)@, fb).1,
    {
        match self.cursor {
            MuxCursor::Top => self.begin_channel(0),
            MuxCursor::Selecting { channel } => {
                self.cursor = MuxCursor::Converting { channel };
                MuxAction::WaitMicros(SETTLE_MICROS)
            },
            MuxCursor::Converting { channel } => {
                self.cursor = MuxCursor::Reading { channel };
                MuxAction::ReadAdc
            },
            MuxCursor::Reading { channel } => match fb {
                MuxFeedback::Samples(v) => {
                    self.read_buffer = v;
                    self.sample_from(channel, 0)
                },
                _ => MuxAction::Finished(None),
            },
            MuxCursor::Sampling { channel, mux_idx } => {
                let debounced = match fb {
                    MuxFeedback::Debounce(DebounceState::Debounced) => true,
                    _ => false,
                };
                if debounced {
                    let ghost s = self@;
                    proof {
                        self.lemma_pressed_at(mux_idx as int, channel as int);
                    }
                    self.key_states[mux_idx][channel].toggle_pressed();
                    let pressed = self.key_states[mux_idx][channel].pressed;
                    self.cursor = MuxCursor::Top;
                    let ghost m = mux_idx as int;
                    let ghost c = channel as int;
                    assert(self@.pressed =~~= s.pressed.update(
                        m,
                        s.pressed[m].update(c, !s.pressed[m][c]),
                    ));
                    MuxAction::Finished(
                        Some(
                            Event::Key(
                                KeyEvent { row: mux_idx as u8, col: channel as u8, pressed },
                            ),
                        ),
                    )
                } else {
                    self.sample_from(channel, mux_idx + 1)
                }
            },
        }
    }
}

} // verus!
