//! The window that the game is shown in.

use crate::position::Position;
use vstd::prelude::*;

verus! {

/// The size of the window, in millionths of a pixel. Neither side is negative.
#[derive(Clone, Copy, Debug)]
pub struct Window {
    width: i64,
    height: i64,
}

impl Window {
    #[verifier::type_invariant]
    spec fn sides_not_negative(self) -> bool {
        0 <= self.width && 0 <= self.height
    }

    pub closed spec fn spec_width(&self) -> i64 {
        self.width
    }

    pub closed spec fn spec_height(&self) -> i64 {
        self.height
    }

    /// The middle of the window: half its width and half its height, rounded down.
    pub open spec fn spec_center(&self) -> Position {
        Position { x: (self.spec_width() / 2) as i64, y: (self.spec_height() / 2) as i64 }
    }

    /// The window of the given size, or nothing where a side is negative.
    pub fn new(width: i64, height: i64) -> (window: Option<Window>)
        ensures
            window is Some <==> 0 <= width && 0 <= height,
            window matches Some(w) ==> w.spec_width() == width && w.spec_height() == height,
    {
        if width >= 0 && height >= 0 {
            Some(Window { width, height })
        } else {
            None
        }
    }

    /// The width of the window.
    #[verifier::when_used_as_spec(spec_width)]
    pub fn width(&self) -> (width: i64)
        ensures
            width == self.spec_width(),
            0 <= width,
    {
        proof {
            use_type_invariant(self);
        }
        self.width
    }

    /// The height of the window.
    #[verifier::when_used_as_spec(spec_height)]
    pub fn height(&self) -> (height: i64)
        ensures
            height == self.spec_height(),
            0 <= height,
    {
        proof {
            use_type_invariant(self);
        }
        self.height
    }

    /// The middle of the window: half its width and half its height, rounded down.
    #[verifier::when_used_as_spec(spec_center)]
    pub fn center(&self) -> (middle: Position)
        ensures
            middle == self.spec_center(),
    {
        proof {
            use_type_invariant(self);
        }
        Position { x: self.width / 2, y: self.height / 2 }
    }
}

} // verus!
