//! Fixed-point pin coordinates and the arithmetic behind chord sampling.

use vstd::prelude::*;

use crate::{COORD_SCALE, MAX_COORD, MAX_STEPS};

verus! {

/// A pixel position on the canvas.
#[derive(Clone, Copy, PartialEq, Eq, Structural, Debug)]
pub struct Pixel {
    pub x: usize,
    pub y: usize,
}

/// A fixed-point subpixel coordinate, `COORD_SCALE` units per pixel.
#[derive(Clone, Copy, PartialEq, Eq, Structural, Debug)]
pub struct Coord {
    pub x: u64,
    pub y: u64,
}

/// The absolute difference `|a - b|`.
pub open spec fn delta(a: int, b: int) -> int {
    if a >= b {
        a - b
    } else {
        b - a
    }
}

/// The square of `a`.
pub open spec fn sq(a: int) -> int {
    a * a
}

/// `a / b` rounded to the nearest integer, halves rounded up; for `a >= 0`, `b > 0`.
pub open spec fn round_div(a: int, b: int) -> int
    recommends
        a >= 0,
        b > 0,
{
    (2 * a + b) / (2 * b)
}

impl Coord {
    /// Both components fit the admitted coordinate range.
    pub open spec fn in_range(self) -> bool {
        self.x <= MAX_COORD && self.y <= MAX_COORD
    }

    /// Squared Euclidean distance between two coordinates, in fixed-point units.
    pub open spec fn dist_sq(self, other: Coord) -> int {
        sq(delta(self.x as int, other.x as int)) + sq(delta(self.y as int, other.y as int))
    }

    /// Computes the exact squared distance to `other`.
    pub fn distance_squared(self, other: Coord) -> (d2: u64)
        requires
            self.in_range(),
            other.in_range(),
        ensures
            d2 == self.dist_sq(other),
            d2 <= 2 * MAX_COORD * MAX_COORD,
    {
        let dx: u64 = if self.x >= other.x {
            self.x - other.x
        } else {
            other.x - self.x
        };
        let dy: u64 = if self.y >= other.y {
            self.y - other.y
        } else {
            other.y - self.y
        };
        assert(dx * dx <= MAX_COORD * MAX_COORD && dy * dy <= MAX_COORD * MAX_COORD)
            by (nonlinear_arith)
            requires
                dx <= MAX_COORD,
                dy <= MAX_COORD,
        ;
        dx * dx + dy * dy
    }

    /// Rounds this coordinate to the nearest pixel (not yet clamped to a canvas).
    pub fn round(self) -> (p: Pixel)
        requires
            self.in_range(),
        ensures
            p.x == round_div(self.x as int, COORD_SCALE as int),
            p.y == round_div(self.y as int, COORD_SCALE as int),
    {
        let px: u64 = (2 * self.x + COORD_SCALE) / (2 * COORD_SCALE);
        let py: u64 = (2 * self.y + COORD_SCALE) / (2 * COORD_SCALE);
        Pixel { x: px as usize, y: py as usize }
    }
}

/// Bounds and symmetry of the squared distance between admissible coordinates.
pub proof fn lemma_dist_sq_bounds(p0: Coord, p1: Coord)
    requires
        p0.in_range(),
        p1.in_range(),
    ensures
        0 <= p0.dist_sq(p1),
        p0.dist_sq(p1) <= 2 * MAX_COORD * MAX_COORD,
        p1.dist_sq(p0) == p0.dist_sq(p1),
        p0.dist_sq(p1) == 0 ==> p0 == p1,
{
    let dx = delta(p0.x as int, p1.x as int);
    let dy = delta(p0.y as int, p1.y as int);
    assert(0 <= dx * dx <= MAX_COORD * MAX_COORD && 0 <= dy * dy <= MAX_COORD * MAX_COORD)
        by (nonlinear_arith)
        requires
            0 <= dx <= MAX_COORD,
            0 <= dy <= MAX_COORD,
    ;
    assert(p0.dist_sq(p1) == dx * dx + dy * dy);
    if p0.dist_sq(p1) == 0 {
        assert(dx == 0 && dy == 0) by (nonlinear_arith)
            requires
                0 <= dx,
                0 <= dy,
                dx * dx + dy * dy == 0,
        ;
        assert(p0.x == p1.x && p0.y == p1.y);
    }
}

/// `n` is the number of interpolation steps for a chord of squared length `d2`:
/// the least count whose span `n * COORD_SCALE` reaches the chord's length.
pub open spec fn is_step_count(n: int, d2: int) -> bool {
    &&& n >= 0
    &&& sq(n * COORD_SCALE) >= d2
    &&& (n == 0 || sq((n - 1) * COORD_SCALE) < d2)
}

/// The least `m <= n` with `sq(m * COORD_SCALE) >= d2`, assuming `n` itself qualifies.
pub open spec fn smallest_step_from(d2: int, n: nat) -> int
    decreases n,
{
    if n == 0 {
        0
    } else if sq((n - 1) * COORD_SCALE) >= d2 {
        smallest_step_from(d2, (n - 1) as nat)
    } else {
        n as int
    }
}

/// The interpolation step count for a chord of squared length `d2`.
pub open spec fn num_steps(d2: int) -> int {
    smallest_step_from(d2, MAX_STEPS as nat)
}

proof fn lemma_smallest_step_from(d2: int, n: nat)
    requires
        sq(n as int * COORD_SCALE) >= d2,
    ensures
        is_step_count(smallest_step_from(d2, n), d2),
        0 <= smallest_step_from(d2, n) <= n,
    decreases n,
{
    if n > 0 && sq((n - 1) * COORD_SCALE) >= d2 {
        lemma_smallest_step_from(d2, (n - 1) as nat);
    }
}

/// Squaring a scaled value is monotone over nonnegative inputs.
proof fn lemma_sq_scaled_mono(a: int, b: int)
    requires
        0 <= a <= b,
    ensures
        sq(a * COORD_SCALE) <= sq(b * COORD_SCALE),
    {
        assert(sq(a * COORD_SCALE) <= sq(b * COORD_SCALE)) by (nonlinear_arith)
            requires
                0 <= a <= b,
        ;
    }

/// A chord needing zero steps has zero length.
pub proof fn lemma_zero_steps(d2: int)
    requires
        is_step_count(0, d2),
        0 <= d2,
    ensures
        d2 == 0,
{
    assert(0 * (COORD_SCALE as int) == 0);
    assert(sq(0) == 0);
}

/// The widest admissible chord is covered by `MAX_STEPS` interpolation steps.
proof fn lemma_span_covers()
    ensures
        sq(MAX_STEPS as int * COORD_SCALE as int) >= 2 * MAX_COORD * MAX_COORD,
{
    assert(sq(MAX_STEPS as int * COORD_SCALE as int) >= 2 * MAX_COORD * MAX_COORD)
        by (nonlinear_arith);
}

/// `num_steps` is the step count of any admissible squared distance.
pub proof fn lemma_num_steps(d2: int)
    requires
        0 <= d2 <= 2 * MAX_COORD * MAX_COORD,
    ensures
        is_step_count(num_steps(d2), d2),
        0 <= num_steps(d2) <= MAX_STEPS,
{
    lemma_span_covers();
    lemma_smallest_step_from(d2, MAX_STEPS as nat);
}

/// Two step counts for the same squared distance coincide.
pub proof fn lemma_step_count_unique(a: int, b: int, d2: int)
    requires
        is_step_count(a, d2),
        is_step_count(b, d2),
    ensures
        a == b,
{
    if a < b {
        lemma_sq_scaled_mono(a, b - 1);
        assert(false);
    }
    if b < a {
        lemma_sq_scaled_mono(b, a - 1);
        assert(false);
    }
}

/// Computes the interpolation step count for a chord of squared length `d2`.
pub fn step_count(d2: u64) -> (n: u64)
    requires
        d2 <= 2 * MAX_COORD * MAX_COORD,
    ensures
        n == num_steps(d2 as int),
        is_step_count(n as int, d2 as int),
        n <= MAX_STEPS,
{
    proof {
        lemma_num_steps(d2 as int);
    }
    let mut n: u64 = 0;
    let mut t: u64 = 0;
    while t * t < d2
        invariant
            n <= MAX_STEPS,
            t == n * COORD_SCALE,
            t * t <= 0x4_0000_0000_0000,
            d2 <= 2 * MAX_COORD * MAX_COORD,
            n == 0 || sq((n - 1) * COORD_SCALE) < d2,
        decreases MAX_STEPS - n,
    {
        proof {
            if n >= MAX_STEPS {
                lemma_sq_scaled_mono(MAX_STEPS as int, n as int);
                lemma_span_covers();
                assert(false);
            }
        }
        n = n + 1;
        t = n * COORD_SCALE;
        assert(t * t <= 0x4_0000_0000_0000) by (nonlinear_arith)
            requires
                t <= 0x200_0000,
        ;
    }
    proof {
        lemma_step_count_unique(n as int, num_steps(d2 as int), d2 as int);
    }
    n
}

} // verus!
