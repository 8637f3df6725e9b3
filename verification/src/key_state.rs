use vstd::prelude::*;

verus! {

/// The state of one key of the matrix.
#[derive(Copy, Clone, Debug, PartialEq, Eq, Structural)]
pub struct KeyState {
    /// True if the key is pressed.
    pub pressed: bool,
}

/// The key state with the other value of `pressed`.
pub open spec fn toggled(k: KeyState) -> KeyState {
    KeyState { pressed: !k.pressed }
}

impl Default for KeyState {
    fn default() -> (s: Self)
        ensures
            !s.pressed,
    {
        Self::new()
    }
}

impl KeyState {
    /// A released key.
    pub fn new() -> (s: Self)
        ensures
            !s.pressed,
    {
        KeyState { pressed: false }
    }

    /// Flips the key between pressed and released.
    pub fn toggle_pressed(&mut self)
        ensures
            *final(self) == toggled(*old(self)),
    {
        self.pressed = !self.pressed;
    }

    /// True if the key is released.
    pub fn is_releasing(&self) -> (r: bool)
        ensures
            r == !self.pressed,
    {
        !self.pressed
    }

    /// True if the key is pressed.
    pub fn is_pressing(&self) -> (r: bool)
        ensures
            r == self.pressed,
    {
        self.pressed
    }
}

/// Toggling a key twice gives back the key it started from, and a toggle
/// always changes the key.
pub proof fn lemma_toggle_twice(k: KeyState)
    ensures
        toggled(toggled(k)) == k,
        toggled(k) != k,
{
}

} // verus!
