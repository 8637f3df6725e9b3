use vstd::prelude::*;

use crate::event::{Event, KeyEvent};

verus! {

/// Milliseconds a simulated key stays pressed.
pub const TEST_PRESS_MILLIS: u64 = 100;

/// Milliseconds between a simulated release and the next press.
pub const TEST_RELEASE_MILLIS: u64 = 5000;

/// What the caller of [`TestMatrix::step`] is asked to do next.
#[derive(Copy, Clone, Debug, PartialEq, Eq, Structural)]
pub enum TestAction {
    /// Wait this many milliseconds, then step again.
    WaitMillis(u64),
    /// Report this event.
    Report(Event),
}

/// The mathematical state of a [`TestMatrix`].
pub struct TestView {
    /// The simulated key is pressed.
    pub last: bool,
    /// The wait before the next event was handed out.
    pub waiting: bool,
}

/// A stand-in matrix that presses and releases the key at (0, 0) in turn:
/// a press 5 s after the last release, a release 100 ms after the press.
pub struct TestMatrix<const ROW: usize, const COL: usize> {
    last: bool,
    waiting: bool,
}

impl<const ROW: usize, const COL: usize> View for TestMatrix<ROW, COL> {
    type V = TestView;

    closed spec fn view(&self) -> TestView {
        TestView { last: self.last, waiting: self.waiting }
    }
}

/// One step of reading an event: first the wait (short while the key is
/// held, long while it is up), then the flipped key state as an event.
pub open spec fn test_step(s: TestView) -> (TestView, TestAction) {
    if !s.waiting {
        (
            TestView { last: s.last, waiting: true },
            TestAction::WaitMillis(if s.last { TEST_PRESS_MILLIS } else { TEST_RELEASE_MILLIS }),
        )
    } else {
        (
            TestView { last: !s.last, waiting: false },
            TestAction::Report(Event::Key(KeyEvent { row: 0, col: 0, pressed: !s.last })),
        )
    }
}

impl<const ROW: usize, const COL: usize> Default for TestMatrix<ROW, COL> {
    fn default() -> (m: Self)
        ensures
            !m@.last,
            !m@.waiting,
    {
        Self::new()
    }
}

impl<const ROW: usize, const COL: usize> TestMatrix<ROW, COL> {
    /// A test matrix whose key is up, with no wait pending.
    pub fn new() -> (m: Self)
        ensures
            !m@.last,
            !m@.waiting,
    {
        Self { last: false, waiting: false }
    }

    /// One step of `read_event`: carry out a `WaitMillis` and step again,
    /// or report the event.
    pub fn step(&mut self) -> (a: TestAction)
        ensures
            final(self)@ == test_step(old(self)@).0,
            a == test_step(old(self)@).1,
    {
        if !self.waiting {
            self.waiting = true;
            TestAction::WaitMillis(if self.last { TEST_PRESS_MILLIS } else { TEST_RELEASE_MILLIS })
        } else {
            self.last = !self.last;
            self.waiting = false;
            TestAction::Report(Event::Key(KeyEvent { row: 0, col: 0, pressed: self.last }))
        }
    }

    /// Starts a new read: a wait that a dropped read left pending is
    /// forgotten, so the next step asks for the wait again.
    pub fn begin_read(&mut self)
        ensures
            final(self)@ == (TestView { last: old(self)@.last, waiting: false }),
    {
        self.waiting = false;
    }

    /// The number of rows the test matrix claims.
    pub fn num_rows(&self) -> (n: usize)
        ensures
            n == ROW,
    {
        ROW
    }

    /// The number of columns the test matrix claims.
    pub fn num_cols(&self) -> (n: usize)
        ensures
            n == COL,
    {
        COL
    }
}

/// Reading two events from a test matrix with no wait pending gives a press
/// after 5 s and then a release after 100 ms (or the other way round when
/// the key is held), and leaves the matrix as it was.
pub proof fn lemma_test_events_alternate(s: TestView)
    requires
        !s.waiting,
    ensures
        ({
            let (s1, a1) = test_step(s);
            let (s2, a2) = test_step(s1);
            let (s3, a3) = test_step(s2);
            let (s4, a4) = test_step(s3);
            &&& a1 == TestAction::WaitMillis(
                if s.last { TEST_PRESS_MILLIS } else { TEST_RELEASE_MILLIS },
            )
            &&& a2 == TestAction::Report(Event::Key(KeyEvent { row: 0, col: 0, pressed: !s.last }))
            &&& a3 == TestAction::WaitMillis(
                if s.last { TEST_RELEASE_MILLIS } else { TEST_PRESS_MILLIS },
            )
            &&& a4 == TestAction::Report(Event::Key(KeyEvent { row: 0, col: 0, pressed: s.last }))
            &&& s4 == s
        }),
{
}

} // verus!
