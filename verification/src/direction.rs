//! Fixed-point directions and their normalisation.

use crate::sqrt::{floor_sqrt, is_floor_sqrt, isqrt, lemma_floor_sqrt, lemma_square_monotonic};
use vstd::prelude::*;

verus! {

/// The component value that stands for one.
pub const UNIT: i32 = 16_777_216;

/// `UNIT` times `UNIT`.
pub const UNIT_SQUARED: u64 = 281_474_976_710_656;

/// A direction in the plane. A component `c` stands for the number `c / UNIT`.
#[derive(Clone, Copy, Debug, PartialEq, Eq, Structural)]
pub struct Direction {
    pub x: i32,
    pub y: i32,
}

/// The square of the length of the vector `(x, y)`.
pub open spec fn length_squared(x: int, y: int) -> int {
    x * x + y * y
}

/// The magnitude `|c| / sqrt(n)` in units of `1 / UNIT`, rounded down, where `n` is
/// the squared length of a vector that has `c` as a component.
pub open spec fn unit_part(c: int, n: int) -> int {
    floor_sqrt((c * c) * UNIT_SQUARED / n)
}

/// One component of the normalised vector: `c / sqrt(c * c + other * other)` in
/// units of `1 / UNIT`, rounded towards zero. The zero vector stays zero.
pub open spec fn normalized_part(c: int, other: int) -> int {
    if c == 0 && other == 0 {
        0
    } else if c < 0 {
        -unit_part(c, length_squared(c, other))
    } else {
        unit_part(c, length_squared(c, other))
    }
}

/// The vector `(x, y)` scaled to length one, each component rounded towards zero.
/// The zero vector stays zero.
pub open spec fn normalized(x: int, y: int) -> Direction {
    Direction { x: normalized_part(x, y) as i32, y: normalized_part(y, x) as i32 }
}

impl Direction {
    /// The direction with both components zero.
    pub open spec fn is_zero(self) -> bool {
        self.x == 0 && self.y == 0
    }

    /// The length is one, up to rounding: the squared length never exceeds that of
    /// a unit vector, and falls short of it by less than `4 * UNIT`.
    pub open spec fn is_unit(self) -> bool {
        UNIT_SQUARED - 4 * UNIT < length_squared(self.x as int, self.y as int) <= UNIT_SQUARED
    }
}

/// What `unit_part` is: the largest `r` with `r * r * n <= c * c * UNIT * UNIT`.
pub proof fn lemma_unit_part(c: int, n: int)
    requires
        0 < n,
        c * c <= n,
    ensures
        0 <= unit_part(c, n) <= UNIT,
        unit_part(c, n) * unit_part(c, n) * n <= (c * c) * UNIT_SQUARED,
        (c * c) * UNIT_SQUARED < (unit_part(c, n) + 1) * (unit_part(c, n) + 1) * n,
        c == 0 ==> unit_part(c, n) == 0,
        c * c == n ==> unit_part(c, n) == UNIT,
{
    let a = (c * c) * UNIT_SQUARED;
    let q = a / n;
    let r = unit_part(c, n);
    assert(0 <= c * c) by (nonlinear_arith);
    assert(0 <= q && q * n <= a < (q + 1) * n) by (nonlinear_arith)
        requires
            0 < n,
            0 <= a,
            q == a / n,
    ;
    assert(q <= UNIT_SQUARED) by (nonlinear_arith)
        requires
            0 < n,
            q * n <= a,
            a <= n * UNIT_SQUARED,
    ;
    lemma_floor_sqrt(q);
    assert(r * r * n <= q * n) by (nonlinear_arith)
        requires
            r * r <= q,
            0 < n,
    ;
    assert((q + 1) * n <= (r + 1) * (r + 1) * n) by (nonlinear_arith)
        requires
            q + 1 <= (r + 1) * (r + 1),
            0 < n,
    ;
    if r > UNIT {
        lemma_square_monotonic(UNIT + 1, r);
        assert((UNIT + 1) * (UNIT + 1) > UNIT_SQUARED) by (nonlinear_arith);
    }
    if c == 0 {
        assert(a == 0);
        assert(q == 0);
        assert(0int * 0int == 0 && (0int + 1) * (0int + 1) == 1) by (nonlinear_arith);
        assert(is_floor_sqrt(0, 0));
    }
    if c * c == n {
        assert(q == UNIT_SQUARED) by (nonlinear_arith)
            requires
                0 < n,
                q * n <= n * UNIT_SQUARED < (q + 1) * n,
        ;
        assert(UNIT * UNIT == UNIT_SQUARED) by (nonlinear_arith);
        assert((UNIT + 1) * (UNIT + 1) > UNIT_SQUARED) by (nonlinear_arith);
        assert(is_floor_sqrt(UNIT_SQUARED as int, UNIT as int));
    }
}

/// A normalised vector keeps the signs of its components, and each component is at
/// most `UNIT` in magnitude.
pub proof fn lemma_normalized_part_range(c: int, other: int)
    ensures
        -UNIT <= normalized_part(c, other) <= UNIT,
        c >= 0 ==> normalized_part(c, other) >= 0,
        c <= 0 ==> normalized_part(c, other) <= 0,
        c == 0 ==> normalized_part(c, other) == 0,
        c > 0 && other == 0 ==> normalized_part(c, other) == UNIT,
        c < 0 && other == 0 ==> normalized_part(c, other) == -UNIT,
{
    if !(c == 0 && other == 0) {
        lemma_length_squared_positive(c, other);
        lemma_unit_part(c, length_squared(c, other));
    }
}

/// Only the zero vector has length zero, and no component is longer than the vector.
pub proof fn lemma_length_squared_positive(x: int, y: int)
    ensures
        0 <= x * x <= length_squared(x, y),
        0 <= y * y <= length_squared(x, y),
        length_squared(x, y) == length_squared(y, x),
        !(x == 0 && y == 0) ==> 0 < length_squared(x, y),
        y == 0 ==> length_squared(x, y) == x * x,
{
    assert(0 <= x * x) by (nonlinear_arith);
    assert(0 <= y * y) by (nonlinear_arith);
    assert(x != 0 ==> 0 < x * x) by (nonlinear_arith);
    assert(y != 0 ==> 0 < y * y) by (nonlinear_arith);
}

/// Normalising any vector but the zero vector gives a vector of length one, up to
/// rounding: its squared length is at most `UNIT * UNIT` and more than
/// `UNIT * UNIT - 4 * UNIT`.
pub proof fn lemma_normalized_is_unit(x: int, y: int)
    requires
        !(x == 0 && y == 0),
    ensures
        UNIT_SQUARED - 4 * UNIT < length_squared(normalized_part(x, y), normalized_part(y, x))
            <= UNIT_SQUARED,
        normalized(x, y).is_unit(),
{
    lemma_normalized_part_range(x, y);
    lemma_normalized_part_range(y, x);
    let n = length_squared(x, y);
    let u = unit_part(x, n);
    let v = unit_part(y, n);
    lemma_length_squared_positive(x, y);
    lemma_unit_part(x, n);
    lemma_unit_part(y, n);
    let nx = normalized_part(x, y);
    let ny = normalized_part(y, x);
    assert(nx * nx == u * u) by (nonlinear_arith)
        requires
            nx == u || nx == -u,
    ;
    assert(ny * ny == v * v) by (nonlinear_arith)
        requires
            ny == v || ny == -v,
    ;
    let xx = x * x;
    let yy = y * y;
    let uu = u * u;
    let vv = v * v;
    assert((uu + vv) * n <= n * UNIT_SQUARED) by (nonlinear_arith)
        requires
            uu * n <= xx * UNIT_SQUARED,
            vv * n <= yy * UNIT_SQUARED,
            n == xx + yy,
    ;
    assert(uu + vv <= UNIT_SQUARED) by (nonlinear_arith)
        requires
            (uu + vv) * n <= n * UNIT_SQUARED,
            0 < n,
    ;
    let uu1 = (u + 1) * (u + 1);
    let vv1 = (v + 1) * (v + 1);
    assert(n * UNIT_SQUARED < (uu1 + vv1) * n) by (nonlinear_arith)
        requires
            xx * UNIT_SQUARED < uu1 * n,
            yy * UNIT_SQUARED < vv1 * n,
            n == xx + yy,
    ;
    assert(UNIT_SQUARED < uu1 + vv1) by (nonlinear_arith)
        requires
            n * UNIT_SQUARED < (uu1 + vv1) * n,
            0 < n,
    ;
    assert(uu1 == uu + 2 * u + 1) by (nonlinear_arith)
        requires
            uu1 == (u + 1) * (u + 1),
            uu == u * u,
    ;
    assert(vv1 == vv + 2 * v + 1) by (nonlinear_arith)
        requires
            vv1 == (v + 1) * (v + 1),
            vv == v * v,
    ;
    assert(UNIT * UNIT == UNIT_SQUARED) by (nonlinear_arith);
    if u == UNIT {
        assert(vv <= 0);
        assert(v == 0) by (nonlinear_arith)
            requires
                v * v <= 0,
        ;
    } else if v == UNIT {
        assert(uu <= 0);
        assert(u == 0) by (nonlinear_arith)
            requires
                u * u <= 0,
        ;
    }
}

/// The magnitude of `c`.
pub fn magnitude(c: i32) -> (a: u64)
    ensures
        a == if c < 0 { -c } else { c as int },
        a <= 0x8000_0000,
{
    let wide: i64 = c as i64;
    if wide < 0 {
        (-wide) as u64
    } else {
        wide as u64
    }
}

/// `a / sqrt(n)` in units of `1 / UNIT`, rounded down.
fn unit_magnitude(a: u64, n: u64) -> (r: i32)
    requires
        a <= 0x8000_0000,
        0 < n,
        a * a <= n,
    ensures
        r == unit_part(a as int, n as int),
        0 <= r <= UNIT,
{
    proof {
        lemma_unit_part(a as int, n as int);
        assert(a * a <= 0x8000_0000 * 0x8000_0000) by (nonlinear_arith)
            requires
                0 <= a <= 0x8000_0000,
        ;
    }
    let square: u128 = (a as u128) * (a as u128);
    let scaled: u128 = square * (UNIT_SQUARED as u128);
    let root: u64 = isqrt(scaled / (n as u128));
    root as i32
}

/// The vector `(x, y)` scaled to length one, each component rounded towards zero.
/// The zero vector has no direction and stays zero.
pub fn normalize(x: i32, y: i32) -> (d: Direction)
    ensures
        d == normalized(x as int, y as int),
        d.x == normalized_part(x as int, y as int),
        d.y == normalized_part(y as int, x as int),
{
    if x == 0 && y == 0 {
        return Direction { x: 0, y: 0 };
    }
    let ax: u64 = magnitude(x);
    let ay: u64 = magnitude(y);
    proof {
        lemma_length_squared_positive(x as int, y as int);
        assert(ax * ax == x * x) by (nonlinear_arith)
            requires
                ax == x || ax == -x,
        ;
        assert(ay * ay == y * y) by (nonlinear_arith)
            requires
                ay == y || ay == -y,
        ;
        assert(ax * ax <= 0x8000_0000 * 0x8000_0000) by (nonlinear_arith)
            requires
                0 <= ax <= 0x8000_0000,
        ;
        assert(ay * ay <= 0x8000_0000 * 0x8000_0000) by (nonlinear_arith)
            requires
                0 <= ay <= 0x8000_0000,
        ;
    }
    let n: u64 = ax * ax + ay * ay;
    let ux: i32 = unit_magnitude(ax, n);
    let uy: i32 = unit_magnitude(ay, n);
    Direction { x: if x < 0 { -ux } else { ux }, y: if y < 0 { -uy } else { uy } }
}

} // verus!
