//! The state of an on/off toggle switch: the drawing side lives with
//! the caller, and flips the state through `click` when the switch is
//! pressed while enabled.

use vstd::prelude::*;

verus! {

/// A two-state switch and whether it currently reacts to clicks.
#[derive(Debug, Clone, Copy, PartialEq, Eq, Structural)]
pub struct Toggle {
    pub on: bool,
    pub enabled: bool,
}

impl Toggle {
    /// A switch in the given position, reacting to clicks.
    pub fn new(on: bool) -> (t: Toggle)
        ensures
            t.on == on,
            t.enabled,
    {
        Toggle { on, enabled: true }
    }

    /// The same switch, reacting to clicks only when `enabled`.
    pub fn enabled(self, enabled: bool) -> (t: Toggle)
        ensures
            t.on == self.on,
            t.enabled == enabled,
    {
        Toggle { on: self.on, enabled }
    }

    /// A click flips the switch when it is enabled and reports whether
    /// anything changed.
    pub fn click(&mut self) -> (changed: bool)
        ensures
            changed == old(self).enabled,
            final(self).enabled == old(self).enabled,
            final(self).on == if old(self).enabled {
                !old(self).on
            } else {
                old(self).on
            },
    {
        if self.enabled {
            self.on = !self.on;
            true
        } else {
            false
        }
    }
}

} // verus!
