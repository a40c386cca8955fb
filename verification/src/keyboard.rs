//! Keyboard protocol settings.

use vstd::prelude::*;

use crate::state::KeyboardState;
use crate::state::TerminalState;

verus! {

/// Most keyboard settings that are kept for restoring.
pub const MAX_KEYBOARD_STACK: usize = 32;

/// The flags after setting, adding or removing some.
pub open spec fn flags_set(old_flags: u16, flags: u16, mode: u16) -> u16 {
    if mode == 1 {
        flags
    } else if mode == 2 {
        old_flags | flags
    } else if mode == 3 {
        old_flags & !flags
    } else {
        old_flags
    }
}

/// A stack with one more entry; the oldest makes room on a full one.
pub open spec fn flags_pushed(stack: Seq<u16>, flags: u16) -> Seq<u16> {
    if stack.len() >= MAX_KEYBOARD_STACK {
        stack.drop_first().push(flags)
    } else {
        stack.push(flags)
    }
}

/// Flags and stack after taking `count` entries off: the last one taken is in
/// force, and none once the stack runs out.
pub open spec fn flags_popped(flags: u16, stack: Seq<u16>, count: int) -> (u16, Seq<u16>)
    decreases count,
{
    if count <= 0 {
        (flags, stack)
    } else if stack.len() == 0 {
        (0, stack)
    } else {
        flags_popped(stack.last(), stack.drop_last(), count - 1)
    }
}

/// `post` is `pre` with other keyboard settings in force.
pub open spec fn flags_changed(
    pre: KeyboardState,
    flags: u16,
    stack: Seq<u16>,
    post: KeyboardState,
) -> bool {
    &&& post.enhancement_flags == flags
    &&& post.enhancement_stack@ == stack
    &&& post == KeyboardState {
        enhancement_flags: post.enhancement_flags,
        enhancement_stack: post.enhancement_stack,
        ..pre
    }
}

impl KeyboardState {
    /// Sets, adds or removes flags.
    pub fn set_keyboard_enhancement_flags(&mut self, flags: u16, mode: u16)
        ensures
            flags_changed(
                *old(self),
                flags_set(old(self).enhancement_flags, flags, mode),
                old(self).enhancement_stack@,
                *final(self),
            ),
    {
        self.enhancement_flags = match mode {
            1 => flags,
            2 => self.enhancement_flags | flags,
            3 => self.enhancement_flags & !flags,
            _ => self.enhancement_flags,
        };
    }

    /// Saves the flags and puts others in force.
    pub fn push_keyboard_enhancement_flags(&mut self, flags: u16)
        ensures
            flags_changed(
                *old(self),
                flags,
                flags_pushed(old(self).enhancement_stack@, old(self).enhancement_flags),
                *final(self),
            ),
    {
        if self.enhancement_stack.len() >= MAX_KEYBOARD_STACK {
            let _oldest: u16 = self.enhancement_stack.remove(0);
            assert(self.enhancement_stack@ =~= old(self).enhancement_stack@.drop_first());
        }
        self.enhancement_stack.push(self.enhancement_flags);
        self.enhancement_flags = flags;
    }

    /// Brings saved flags back, at least one entry.
    pub fn pop_keyboard_enhancement_flags(&mut self, count: usize)
        ensures
            ({
                let popped = flags_popped(
                    old(self).enhancement_flags,
                    old(self).enhancement_stack@,
                    if count == 0 {
                        1
                    } else {
                        count as int
                    },
                );
                flags_changed(*old(self), popped.0, popped.1, *final(self))
            }),
    {
        let mut left: usize = if count == 0 {
            1
        } else {
            count
        };
        let ghost all = left as int;
        while left > 0
            invariant
                all == if count == 0 {
                    1
                } else {
                    count as int
                },
                *self == (KeyboardState {
                    enhancement_flags: self.enhancement_flags,
                    enhancement_stack: self.enhancement_stack,
                    ..*old(self)
                }),
                flags_popped(old(self).enhancement_flags, old(self).enhancement_stack@, all)
                    == flags_popped(
                    self.enhancement_flags,
                    self.enhancement_stack@,
                    left as int,
                ),
            decreases left,
        {
            match self.enhancement_stack.pop() {
                Some(flags) => {
                    self.enhancement_flags = flags;
                },
                None => {
                    self.enhancement_flags = 0;
                    return ;
                },
            }
            left = left - 1;
        }
    }
}

/// Taking one entry off undoes putting one on.
pub proof fn keyboard_push_pop_round_trip(
    pre: KeyboardState,
    flags: u16,
    mid: KeyboardState,
    post: KeyboardState,
)
    requires
        pre.enhancement_stack@.len() < MAX_KEYBOARD_STACK,
        flags_changed(
            pre,
            flags,
            flags_pushed(pre.enhancement_stack@, pre.enhancement_flags),
            mid,
        ),
        ({
            let popped = flags_popped(mid.enhancement_flags, mid.enhancement_stack@, 1);
            flags_changed(mid, popped.0, popped.1, post)
        }),
    ensures
        post.enhancement_flags == pre.enhancement_flags,
        post.enhancement_stack@ == pre.enhancement_stack@,
{
    let stack = pre.enhancement_stack@.push(pre.enhancement_flags);
    assert(stack.drop_last() =~= pre.enhancement_stack@);
    reveal_with_fuel(flags_popped, 3);
}

impl TerminalState {
    /// Kitty keyboard flags in force.
    pub fn keyboard_enhancement_flags(&self) -> (flags: u16)
        ensures
            flags == self.keyboard.enhancement_flags,
    {
        self.keyboard.enhancement_flags
    }

    /// How modified keys are encoded.
    pub fn xterm_modify_other_keys(&self) -> (value: u16)
        ensures
            value == self.keyboard.modify_other_keys,
    {
        self.keyboard.modify_other_keys
    }

    /// In which format modified keys are encoded.
    pub fn xterm_format_other_keys(&self) -> (value: u16)
        ensures
            value == self.keyboard.format_other_keys,
    {
        self.keyboard.format_other_keys
    }

    /// Whether every key press is reported as an escape code.
    pub fn is_report_all_keys_enabled(&self) -> (yes: bool)
        ensures
            yes == (self.modes.has(2031) || self.keyboard.enhancement_flags & 0b1000 != 0),
    {
        self.modes.contains(2031) || (self.keyboard.enhancement_flags & 0b1000) != 0
    }
}

} // verus!
