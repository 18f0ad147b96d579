//! The keys that steer the player.

use crate::direction::{
    lemma_normalized_is_unit, lemma_normalized_part_range, normalize, normalized, Direction, UNIT,
};
use vstd::prelude::*;

verus! {

/// Which of the steering keys are held down: the four arrows, and the letters
/// that stand for them.
#[derive(Clone, Copy, Debug, PartialEq, Eq, Structural)]
pub struct Keys {
    pub arrow_left: bool,
    pub arrow_right: bool,
    pub arrow_up: bool,
    pub arrow_down: bool,
    pub key_h: bool,
    pub key_j: bool,
    pub key_k: bool,
    pub key_l: bool,
}

/// The pull along one axis: one step forwards, one step back, or both, which cancel.
pub open spec fn axis(back: bool, forth: bool) -> int {
    (if forth { 1int } else { 0int }) - (if back { 1int } else { 0int })
}

impl Keys {
    /// Left arrow or `H`.
    pub open spec fn left(self) -> bool {
        self.arrow_left || self.key_h
    }

    /// Right arrow or `L`.
    pub open spec fn right(self) -> bool {
        self.arrow_right || self.key_l
    }

    /// Up arrow or `K`.
    pub open spec fn up(self) -> bool {
        self.arrow_up || self.key_k
    }

    /// Down arrow or `J`.
    pub open spec fn down(self) -> bool {
        self.arrow_down || self.key_j
    }

    /// The horizontal pull: right counts one, left minus one.
    pub open spec fn pull_x(self) -> int {
        axis(self.left(), self.right())
    }

    /// The vertical pull: up counts one, down minus one.
    pub open spec fn pull_y(self) -> int {
        axis(self.down(), self.up())
    }

    /// The number of directions that are asked for.
    pub open spec fn active(self) -> int {
        (if self.left() { 1int } else { 0int }) + (if self.right() { 1int } else { 0int }) + (if self.up() {
            1int
        } else {
            0int
        }) + (if self.down() { 1int } else { 0int })
    }

    /// The direction in which the player moves: the pull, normalised unless it is
    /// zero.
    pub open spec fn spec_direction(&self) -> Direction {
        normalized(self.pull_x(), self.pull_y())
    }

    /// No key held down.
    pub fn none() -> (keys: Keys)
        ensures
            keys == (Keys {
                arrow_left: false,
                arrow_right: false,
                arrow_up: false,
                arrow_down: false,
                key_h: false,
                key_j: false,
                key_k: false,
                key_l: false,
            }),
    {
        Keys {
            arrow_left: false,
            arrow_right: false,
            arrow_up: false,
            arrow_down: false,
            key_h: false,
            key_j: false,
            key_k: false,
            key_l: false,
        }
    }

    /// The sum of the directions that are asked for, before it is normalised.
    pub fn pull(&self) -> (v: (i32, i32))
        ensures
            v.0 == self.pull_x(),
            v.1 == self.pull_y(),
    {
        let mut x: i32 = 0;
        let mut y: i32 = 0;
        if self.arrow_left || self.key_h {
            x = x - 1;
        }
        if self.arrow_right || self.key_l {
            x = x + 1;
        }
        if self.arrow_up || self.key_k {
            y = y + 1;
        }
        if self.arrow_down || self.key_j {
            y = y - 1;
        }
        (x, y)
    }

    /// The direction in which the player moves: the pull, normalised unless it is
    /// zero.
    #[verifier::when_used_as_spec(spec_direction)]
    pub fn direction(&self) -> (d: Direction)
        ensures
            d == self.spec_direction(),
    {
        let v: (i32, i32) = self.pull();
        normalize(v.0, v.1)
    }
}

/// Whatever keys are held down, the direction of the player has length one, up to
/// rounding, unless the pulls cancel; then it is zero. With a pull along one axis
/// alone the length is one exactly.
pub proof fn lemma_direction_is_unit(keys: Keys)
    ensures
        !(keys.pull_x() == 0 && keys.pull_y() == 0) ==> keys.direction().is_unit(),
        keys.pull_x() == 0 && keys.pull_y() == 0 ==> keys.direction().is_zero(),
        keys.pull_y() == 0 ==> keys.direction() == (Direction {
            x: (keys.pull_x() * UNIT) as i32,
            y: 0,
        }),
        keys.pull_x() == 0 ==> keys.direction() == (Direction {
            x: 0,
            y: (keys.pull_y() * UNIT) as i32,
        }),
{
    lemma_normalized_part_range(keys.pull_x(), keys.pull_y());
    lemma_normalized_part_range(keys.pull_y(), keys.pull_x());
    if !(keys.pull_x() == 0 && keys.pull_y() == 0) {
        lemma_normalized_is_unit(keys.pull_x(), keys.pull_y());
    }
}

} // verus!
