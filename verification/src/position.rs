//! Positions, and the steps that an entity takes along a direction.

use crate::direction::{length_squared, magnitude, Direction, UNIT, UNIT_SQUARED};
use vstd::prelude::*;

verus! {

/// A point of the plane, in millionths of a pixel.
#[derive(Clone, Copy, Debug, PartialEq, Eq, Structural)]
pub struct Position {
    pub x: i64,
    pub y: i64,
}

/// A displacement, in millionths of a pixel.
#[derive(Clone, Copy, Debug, PartialEq, Eq, Structural)]
pub struct Offset {
    pub x: i64,
    pub y: i64,
}

/// The length covered at `speed` pixels per second in `elapsed` microseconds, in
/// millionths of a pixel.
pub open spec fn distance(speed: int, elapsed: int) -> int {
    speed * elapsed
}

/// The share `c / UNIT` of `length`, rounded towards zero.
pub open spec fn scaled_part(c: int, length: int) -> int {
    if c < 0 {
        -((-c) * length / (UNIT as int))
    } else {
        c * length / (UNIT as int)
    }
}

/// One component of the step taken along a direction with component `c`.
pub open spec fn step_part(c: int, speed: int, elapsed: int) -> int {
    scaled_part(c, distance(speed, elapsed))
}

/// The step taken along `direction` at `speed` pixels per second in `elapsed`
/// microseconds, each component rounded towards zero.
pub open spec fn step_of(direction: Direction, speed: u16, elapsed: u32) -> Offset {
    Offset {
        x: step_part(direction.x as int, speed as int, elapsed as int) as i64,
        y: step_part(direction.y as int, speed as int, elapsed as int) as i64,
    }
}

impl Position {
    /// The sum stays within the coordinates that a position can hold.
    pub open spec fn can_move_by(self, by: Offset) -> bool {
        &&& i64::MIN <= self.x + by.x <= i64::MAX
        &&& i64::MIN <= self.y + by.y <= i64::MAX
    }

    /// The position reached from `self` by `by`.
    pub open spec fn moved_by(self, by: Offset) -> Position {
        Position { x: (self.x + by.x) as i64, y: (self.y + by.y) as i64 }
    }

    /// Whether `move_by` may be called with `by`.
    pub fn fits(&self, by: &Offset) -> (b: bool)
        ensures
            b == self.can_move_by(*by),
    {
        self.x.checked_add(by.x).is_some() && self.y.checked_add(by.y).is_some()
    }

    /// Adds a displacement to the position.
    pub fn move_by(&mut self, by: &Offset)
        requires
            old(self).can_move_by(*by),
        ensures
            *final(self) == old(self).moved_by(*by),
    {
        self.x = self.x + by.x;
        self.y = self.y + by.y;
    }
}

/// A share of a non-negative length is non-negative and no longer than the length
/// times `|c| / UNIT`.
pub proof fn lemma_scaled_part(c: int, length: int)
    requires
        0 <= length,
    ensures
        c >= 0 ==> 0 <= scaled_part(c, length),
        c <= 0 ==> scaled_part(c, length) <= 0,
        c >= 0 ==> scaled_part(c, length) * UNIT <= c * length,
        c <= 0 ==> -scaled_part(c, length) * UNIT <= -c * length,
        c == UNIT ==> scaled_part(c, length) == length,
        c == -UNIT ==> scaled_part(c, length) == -length,
        c == 0 ==> scaled_part(c, length) == 0,
        -0x8000_0000 <= c <= 0x8000_0000 ==> -128 * length <= scaled_part(c, length) <= 128
            * length,
{
    let a = if c < 0 { -c } else { c };
    let p = a * length;
    let q = p / (UNIT as int);
    assert(0 <= p) by (nonlinear_arith)
        requires
            0 <= a,
            0 <= length,
            p == a * length,
    ;
    assert(0 <= q && q * UNIT <= p < (q + 1) * UNIT);
    assert((-c) * length == -c * length);
    if a == UNIT {
        assert(p == length * UNIT) by (nonlinear_arith)
            requires
                p == a * length,
                a == UNIT,
        ;
    }
    if a == 0 {
        assert(p == 0) by (nonlinear_arith)
            requires
                p == a * length,
                a == 0,
        ;
    }
    if a <= 0x8000_0000 {
        assert(p <= 0x8000_0000 * length) by (nonlinear_arith)
            requires
                0 <= a <= 0x8000_0000,
                0 <= length,
                p == a * length,
        ;
    }
}

/// The components of a step are the numbers that `step_part` gives: they fit.
pub proof fn lemma_step_of(direction: Direction, speed: u16, elapsed: u32)
    ensures
        step_of(direction, speed, elapsed).x == step_part(
            direction.x as int,
            speed as int,
            elapsed as int,
        ),
        step_of(direction, speed, elapsed).y == step_part(
            direction.y as int,
            speed as int,
            elapsed as int,
        ),
{
    let m = distance(speed as int, elapsed as int);
    assert(0 <= m < 0x1_0000_0000_0000) by (nonlinear_arith)
        requires
            0 <= speed < 0x1_0000,
            0 <= elapsed < 0x1_0000_0000,
            m == speed * elapsed,
    ;
    lemma_scaled_part(direction.x as int, m);
    lemma_scaled_part(direction.y as int, m);
}

/// A step along a direction that is no longer than a unit vector is no longer than
/// the distance covered.
pub proof fn lemma_step_length(d: Direction, speed: int, elapsed: int)
    requires
        0 <= speed,
        0 <= elapsed,
        length_squared(d.x as int, d.y as int) <= UNIT_SQUARED,
    ensures
        length_squared(step_part(d.x as int, speed, elapsed), step_part(d.y as int, speed, elapsed))
            <= distance(speed, elapsed) * distance(speed, elapsed),
{
    let m = distance(speed, elapsed);
    assert(0 <= m) by (nonlinear_arith)
        requires
            0 <= speed,
            0 <= elapsed,
            m == speed * elapsed,
    ;
    let sx = step_part(d.x as int, speed, elapsed);
    let sy = step_part(d.y as int, speed, elapsed);
    lemma_scaled_part(d.x as int, m);
    lemma_scaled_part(d.y as int, m);
    let ax: int = if d.x < 0 { -d.x } else { d.x as int };
    let ay: int = if d.y < 0 { -d.y } else { d.y as int };
    let bx: int = if sx < 0 { -sx } else { sx };
    let by: int = if sy < 0 { -sy } else { sy };
    assert(bx * UNIT <= ax * m);
    assert(by * UNIT <= ay * m);
    let u: int = UNIT as int;
    assert((bx * bx) * (u * u) <= (ax * ax) * (m * m)) by (nonlinear_arith)
        requires
            0 <= bx,
            0 <= u,
            0 <= ax,
            0 <= m,
            bx * u <= ax * m,
    ;
    assert((by * by) * (u * u) <= (ay * ay) * (m * m)) by (nonlinear_arith)
        requires
            0 <= by,
            0 <= u,
            0 <= ay,
            0 <= m,
            by * u <= ay * m,
    ;
    assert(ax * ax == d.x * d.x) by (nonlinear_arith)
        requires
            ax == d.x || ax == -d.x,
    ;
    assert(ay * ay == d.y * d.y) by (nonlinear_arith)
        requires
            ay == d.y || ay == -d.y,
    ;
    assert(bx * bx == sx * sx) by (nonlinear_arith)
        requires
            bx == sx || bx == -sx,
    ;
    assert(by * by == sy * sy) by (nonlinear_arith)
        requires
            by == sy || by == -sy,
    ;
    let uu = u * u;
    let mm = m * m;
    let ss = bx * bx + by * by;
    let dd = ax * ax + ay * ay;
    assert(u * u == UNIT_SQUARED) by (nonlinear_arith)
        requires
            u == UNIT,
    ;
    assert(0 <= mm) by (nonlinear_arith)
        requires
            mm == m * m,
    ;
    assert(ss * uu <= uu * mm) by (nonlinear_arith)
        requires
            (bx * bx) * uu <= (ax * ax) * mm,
            (by * by) * uu <= (ay * ay) * mm,
            ss == bx * bx + by * by,
            dd == ax * ax + ay * ay,
            dd <= uu,
            0 <= mm,
    ;
    assert(ss <= mm) by (nonlinear_arith)
        requires
            ss * uu <= uu * mm,
            0 < uu,
    ;
}

/// The step taken along `direction` at `speed` pixels per second in `elapsed`
/// microseconds. Each component is rounded towards zero.
pub fn step(direction: Direction, speed: u16, elapsed: u32) -> (by: Offset)
    ensures
        by == step_of(direction, speed, elapsed),
        by.x == step_part(direction.x as int, speed as int, elapsed as int),
        by.y == step_part(direction.y as int, speed as int, elapsed as int),
{
    proof {
        assert(speed * elapsed < 0x1_0000 * 0x1_0000_0000) by (nonlinear_arith)
            requires
                0 <= speed < 0x1_0000,
                0 <= elapsed < 0x1_0000_0000,
        ;
    }
    let length: u64 = (speed as u64) * (elapsed as u64);
    Offset { x: scale(direction.x, length), y: scale(direction.y, length) }
}

/// The share `c / UNIT` of `length`, rounded towards zero.
fn scale(c: i32, length: u64) -> (r: i64)
    requires
        length < 0x1_0000_0000_0000,
    ensures
        r == scaled_part(c as int, length as int),
{
    let a: u64 = magnitude(c);
    proof {
        assert(a * length <= 0x8000_0000_0000_0000_0000) by (nonlinear_arith)
            requires
                0 <= a <= 0x8000_0000,
                0 <= length <= 0x1_0000_0000_0000,
        ;
    }
    let product: u128 = (a as u128) * (length as u128);
    let share: u128 = product / (UNIT as u128);
    assert(share <= 0x80_0000_0000_0000) by (nonlinear_arith)
        requires
            share == product / 16_777_216,
            product <= 0x8000_0000_0000_0000_0000,
    ;
    if c < 0 {
        -(share as i64)
    } else {
        share as i64
    }
}

} // verus!
