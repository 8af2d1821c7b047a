//! Which movement keys are held, and the movement intent they give.
use vstd::prelude::*;

verus! {

/// A movement key, whatever physical key produced it.
#[derive(Debug, Clone, Copy, PartialEq, Eq, Structural)]
pub enum MoveKey {
    Forward,
    Backward,
    TurnLeft,
    TurnRight,
}

/// Tracks which movement keys are currently held down.
#[derive(Debug, Clone, Copy)]
pub struct KeyState {
    pub forward: bool,
    pub backward: bool,
    pub turn_left: bool,
    pub turn_right: bool,
}

/// `-1`, `0` or `1`: the difference of two held keys.
pub open spec fn axis(plus: bool, minus: bool) -> int {
    (if plus {
        1int
    } else {
        0int
    }) - (if minus {
        1int
    } else {
        0int
    })
}

impl Default for KeyState {
    fn default() -> (k: KeyState)
        ensures
            !k.forward && !k.backward && !k.turn_left && !k.turn_right,
    {
        KeyState { forward: false, backward: false, turn_left: false, turn_right: false }
    }
}

impl KeyState {
    /// Records that `key` was pressed (`pressed`) or released; the other keys
    /// keep their state.
    pub fn update(&mut self, key: MoveKey, pressed: bool)
        ensures
            final(self).forward == if key == MoveKey::Forward {
                pressed
            } else {
                old(self).forward
            },
            final(self).backward == if key == MoveKey::Backward {
                pressed
            } else {
                old(self).backward
            },
            final(self).turn_left == if key == MoveKey::TurnLeft {
                pressed
            } else {
                old(self).turn_left
            },
            final(self).turn_right == if key == MoveKey::TurnRight {
                pressed
            } else {
                old(self).turn_right
            },
    {
        match key {
            MoveKey::Forward => self.forward = pressed,
            MoveKey::Backward => self.backward = pressed,
            MoveKey::TurnLeft => self.turn_left = pressed,
            MoveKey::TurnRight => self.turn_right = pressed,
        }
    }

    /// Direction of travel along the facing: `1` forward, `-1` backward, `0`
    /// when neither or both keys are held.
    pub fn thrust(&self) -> (t: i8)
        ensures
            t == axis(self.forward, self.backward),
            self.forward && !self.backward ==> t == 1,
            self.backward && !self.forward ==> t == -1,
            self.forward == self.backward ==> t == 0,
    {
        (if self.forward {
            1i8
        } else {
            0i8
        }) - (if self.backward {
            1i8
        } else {
            0i8
        })
    }

    /// Direction of rotation: `1` toward increasing angle (turn right), `-1`
    /// toward decreasing angle (turn left), `0` when neither or both are held.
    pub fn turn(&self) -> (t: i8)
        ensures
            t == axis(self.turn_right, self.turn_left),
            self.turn_right && !self.turn_left ==> t == 1,
            self.turn_left && !self.turn_right ==> t == -1,
            self.turn_right == self.turn_left ==> t == 0,
    {
        (if self.turn_right {
            1i8
        } else {
            0i8
        }) - (if self.turn_left {
            1i8
        } else {
            0i8
        })
    }
}

} // verus!
