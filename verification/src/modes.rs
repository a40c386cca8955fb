//! Terminal modes set and reset by the application.

use vstd::prelude::*;

verus! {

/// The set of private modes that are switched on, one bit per tracked mode.
/// Numbers outside the tracked set are ignored.
#[derive(Clone, Copy, Debug, PartialEq, Eq, Structural)]
pub struct TerminalModes {
    pub bits: u32,
}

/// Position of a tracked mode in the set.
pub open spec fn mode_bit(mode: u16) -> Option<u32> {
    if mode == 1 {
        Some(13u32)
    } else if mode == 7 {
        Some(0u32)
    } else if mode == 25 {
        Some(1u32)
    } else if mode == 1000 {
        Some(2u32)
    } else if mode == 1001 {
        Some(3u32)
    } else if mode == 1002 {
        Some(4u32)
    } else if mode == 1003 {
        Some(5u32)
    } else if mode == 1004 {
        Some(6u32)
    } else if mode == 1006 {
        Some(7u32)
    } else if mode == 1049 {
        Some(8u32)
    } else if mode == 2004 {
        Some(9u32)
    } else if mode == 2026 {
        Some(10u32)
    } else if mode == 2031 {
        Some(11u32)
    } else if mode == 5522 {
        Some(12u32)
    } else {
        None
    }
}

/// Position of a tracked mode in the set.
pub fn bit_index(mode: u16) -> (bit: Option<u32>)
    ensures
        bit == mode_bit(mode),
        bit matches Some(b) ==> b < 16,
{
    match mode {
        1 => Some(13),
        7 => Some(0),
        25 => Some(1),
        1000 => Some(2),
        1001 => Some(3),
        1002 => Some(4),
        1003 => Some(5),
        1004 => Some(6),
        1006 => Some(7),
        1049 => Some(8),
        2004 => Some(9),
        2026 => Some(10),
        2031 => Some(11),
        5522 => Some(12),
        _ => None,
    }
}

impl TerminalModes {
    /// Whether `mode` is set.
    pub open spec fn has(self, mode: u16) -> bool {
        match mode_bit(mode) {
            Some(bit) => self.bits & (1u32 << bit) != 0,
            None => false,
        }
    }

    /// The modes with `mode` switched to `on`, where `mode` is tracked.
    pub open spec fn with(self, mode: u16, on: bool) -> TerminalModes {
        match mode_bit(mode) {
            Some(bit) => TerminalModes {
                bits: if on {
                    self.bits | (1u32 << bit)
                } else {
                    self.bits & !(1u32 << bit)
                },
            },
            None => self,
        }
    }

    /// Every mode reset.
    pub fn new() -> (modes: TerminalModes)
        ensures
            modes.bits == 0,
            forall|mode: u16| !modes.has(mode),
    {
        let modes = TerminalModes { bits: 0 };
        assert forall|mode: u16| !modes.has(mode) by {
            if let Some(bit) = mode_bit(mode) {
                assert(0u32 & (1u32 << bit) == 0) by (bit_vector);
            }
        }
        modes
    }

    /// Whether `mode` is set.
    pub fn contains(&self, mode: u16) -> (set: bool)
        ensures
            set == self.has(mode),
    {
        match bit_index(mode) {
            Some(bit) => self.bits & (1u32 << bit) != 0,
            None => false,
        }
    }

    /// Sets `mode`.
    pub fn insert(&mut self, mode: u16)
        ensures
            *final(self) == old(self).with(mode, true),
    {
        if let Some(bit) = bit_index(mode) {
            self.bits = self.bits | (1u32 << bit);
        }
    }

    /// Resets `mode`.
    pub fn remove(&mut self, mode: u16)
        ensures
            *final(self) == old(self).with(mode, false),
    {
        if let Some(bit) = bit_index(mode) {
            self.bits = self.bits & !(1u32 << bit);
        }
    }

    /// Switches `mode` to `on`.
    pub fn assign(&mut self, mode: u16, on: bool)
        ensures
            *final(self) == old(self).with(mode, on),
    {
        if on {
            self.insert(mode);
        } else {
            self.remove(mode);
        }
    }
}

/// Switching one tracked mode changes that mode and no other; switching an
/// untracked number changes nothing.
pub proof fn modes_are_independent(modes: TerminalModes, mode: u16, on: bool, other: u16)
    ensures
        modes.with(mode, on).has(other) == if other == mode && mode_bit(mode) is Some {
            on
        } else {
            modes.has(other)
        },
{
    if let Some(i) = mode_bit(mode) {
        if let Some(j) = mode_bit(other) {
            let bits = modes.bits;
            assert((bits | (1u32 << i)) & (1u32 << i) != 0) by (bit_vector)
                requires
                    i < 16,
            ;
            assert((bits & !(1u32 << i)) & (1u32 << i) == 0) by (bit_vector)
                requires
                    i < 16,
            ;
            if i != j {
                assert((bits | (1u32 << i)) & (1u32 << j) == bits & (1u32 << j)) by (bit_vector)
                    requires
                        i < 16,
                        j < 16,
                        i != j,
                ;
                assert((bits & !(1u32 << i)) & (1u32 << j) == bits & (1u32 << j)) by (bit_vector)
                    requires
                        i < 16,
                        j < 16,
                        i != j,
                ;
            }
        }
    }
}

} // verus!
