//! Chord rasterization: the ordered pixel samples of the straight segment
//! between two pin coordinates.
//!
//! A chord of squared length `d2` is sampled at `num_steps(d2) + 1` points,
//! obtained by linear interpolation between the endpoints, each rounded to
//! the nearest pixel and clamped into the canvas. No deduplication is done:
//! a steep or short chord may visit the same pixel more than once, and a
//! later residual subtraction then applies more than once there; this bias
//! is part of the intended output.

use vstd::prelude::*;

use vstd::arithmetic::div_mod::{lemma_div_multiples_vanish_quotient, lemma_div_pos_is_pos};

use crate::coord::{
    lemma_dist_sq_bounds, lemma_num_steps, lemma_zero_steps, num_steps, round_div, step_count,
    Coord, Pixel,
};
use crate::{COORD_SCALE, MAX_COORD, MAX_SIZE, MAX_STEPS};

verus! {

/// The pixel lies inside a `size` by `size` canvas.
pub open spec fn pix_in(p: Pixel, size: int) -> bool {
    p.x < size && p.y < size
}

/// Clamps a rounded coordinate into `[0, size)`.
pub open spec fn clamp_pix(v: int, size: int) -> int
    recommends
        size >= 1,
{
    if v >= size {
        size - 1
    } else {
        v
    }
}

/// The interpolated, rounded coordinate of sample `k` out of `n` between
/// scalar endpoint coordinates `a` and `b`.
pub open spec fn interp(a: int, b: int, k: int, n: int) -> int
    recommends
        0 <= a,
        0 <= b,
        0 <= k <= n,
{
    if n == 0 {
        round_div(a, COORD_SCALE as int)
    } else {
        round_div(a * (n - k) + b * k, n * (COORD_SCALE as int))
    }
}

/// Sample `k` out of `n` of the chord from `p0` to `p1`, as a canvas pixel.
pub open spec fn sample_pix(p0: Coord, p1: Coord, n: int, k: int, size: int) -> Pixel
    recommends
        0 <= k <= n,
        size >= 1,
{
    Pixel {
        x: clamp_pix(interp(p0.x as int, p1.x as int, k, n), size) as usize,
        y: clamp_pix(interp(p0.y as int, p1.y as int, k, n), size) as usize,
    }
}

/// The full ordered sample sequence of the chord from `p0` to `p1`.
pub open spec fn chord_spec(p0: Coord, p1: Coord, size: int) -> Seq<Pixel>
    recommends
        p0.in_range(),
        p1.in_range(),
        size >= 1,
{
    let n = num_steps(p0.dist_sq(p1));
    Seq::new((n + 1) as nat, |k: int| sample_pix(p0, p1, n, k, size))
}

/// The canvas pixel of a pin: its coordinate rounded to the nearest pixel
/// and clamped into the canvas.
pub open spec fn pin_pixel(p: Coord, size: int) -> Pixel
    recommends
        size >= 1,
{
    Pixel {
        x: clamp_pix(round_div(p.x as int, COORD_SCALE as int), size) as usize,
        y: clamp_pix(round_div(p.y as int, COORD_SCALE as int), size) as usize,
    }
}

/// Rounded division of nonnegative values is nonnegative.
proof fn lemma_round_div_nonneg(a: int, b: int)
    requires
        a >= 0,
        b > 0,
    ensures
        round_div(a, b) >= 0,
{
    lemma_div_pos_is_pos(2 * a + b, 2 * b);
}

/// A common positive factor cancels out of a rounded division.
proof fn lemma_round_div_scale(a: int, n: int)
    requires
        a >= 0,
        n >= 1,
    ensures
        round_div(n * a, n * (COORD_SCALE as int)) == round_div(a, COORD_SCALE as int),
{
    let s = COORD_SCALE as int;
    assert(2 * (n * a) + n * s == n * (2 * a + s)) by (nonlinear_arith);
    assert(2 * (n * s) == n * (2 * s)) by (nonlinear_arith);
    lemma_div_multiples_vanish_quotient(n, 2 * a + s, 2 * s);
}

/// The interpolated coordinate of any sample is nonnegative.
proof fn lemma_interp_nonneg(a: int, b: int, k: int, n: int)
    requires
        0 <= a,
        0 <= b,
        0 <= k <= n,
    ensures
        interp(a, b, k, n) >= 0,
{
    if n == 0 {
        lemma_round_div_nonneg(a, COORD_SCALE as int);
    } else {
        assert(a * (n - k) >= 0 && b * k >= 0 && n * (COORD_SCALE as int) > 0)
            by (nonlinear_arith)
            requires
                0 <= a,
                0 <= b,
                0 <= k <= n,
                n >= 1,
        ;
        lemma_round_div_nonneg(a * (n - k) + b * k, n * (COORD_SCALE as int));
    }
}

/// The first and last samples interpolate exactly to the rounded endpoints.
proof fn lemma_interp_endpoints(a: int, b: int, n: int)
    requires
        0 <= a,
        0 <= b,
        n >= 0,
    ensures
        interp(a, b, 0, n) == round_div(a, COORD_SCALE as int),
        n >= 1 ==> interp(a, b, n, n) == round_div(b, COORD_SCALE as int),
{
    if n >= 1 {
        assert(a * (n - 0) + b * 0 == n * a) by (nonlinear_arith);
        assert(a * (n - n) + b * n == n * b) by (nonlinear_arith);
        lemma_round_div_scale(a, n);
        lemma_round_div_scale(b, n);
    }
}

/// Interpolating from the swapped endpoints mirrors the sample index.
proof fn lemma_interp_symm(a: int, b: int, k: int, n: int)
    requires
        0 <= a,
        0 <= b,
        0 <= k <= n,
        n >= 1,
    ensures
        interp(b, a, k, n) == interp(a, b, n - k, n),
{
    assert(b * (n - k) + a * k == a * (n - (n - k)) + b * (n - k)) by (nonlinear_arith);
}

/// Shape of a rasterized chord: its length, and every sample in bounds.
pub proof fn lemma_chord_props(p0: Coord, p1: Coord, size: int)
    requires
        p0.in_range(),
        p1.in_range(),
        1 <= size <= MAX_SIZE,
    ensures
        chord_spec(p0, p1, size).len() == num_steps(p0.dist_sq(p1)) + 1,
        1 <= chord_spec(p0, p1, size).len() <= MAX_STEPS + 1,
        forall|k: int|
            0 <= k < chord_spec(p0, p1, size).len() ==> pix_in(
                #[trigger] chord_spec(p0, p1, size)[k],
                size,
            ),
{
    let d2 = p0.dist_sq(p1);
    lemma_dist_sq_bounds(p0, p1);
    lemma_num_steps(d2);
    let n = num_steps(d2);
    assert forall|k: int| 0 <= k < chord_spec(p0, p1, size).len() implies pix_in(
        chord_spec(p0, p1, size)[k],
        size,
    ) by {
        lemma_interp_nonneg(p0.x as int, p1.x as int, k, n);
        lemma_interp_nonneg(p0.y as int, p1.y as int, k, n);
    }
}

/// Reversing a sequence keeps its set of elements.
proof fn lemma_reverse_to_set<A>(s: Seq<A>)
    ensures
        s.reverse().to_set() == s.to_set(),
{
    let r = s.reverse();
    assert forall|a: A| r.contains(a) implies s.contains(a) by {
        let i = choose|i: int| 0 <= i < r.len() && r[i] == a;
        assert(s[s.len() - 1 - i] == a);
    }
    assert forall|a: A| s.contains(a) implies r.contains(a) by {
        let i = choose|i: int| 0 <= i < s.len() && s[i] == a;
        assert(r[s.len() - 1 - i] == a);
    }
    assert(r.to_set() =~= s.to_set());
}

/// The chord between the swapped endpoints is the original chord reversed.
proof fn lemma_chord_reversed(p0: Coord, p1: Coord, size: int)
    requires
        p0.in_range(),
        p1.in_range(),
        1 <= size <= MAX_SIZE,
    ensures
        chord_spec(p1, p0, size) == chord_spec(p0, p1, size).reverse(),
{
    let d2 = p0.dist_sq(p1);
    lemma_dist_sq_bounds(p0, p1);
    lemma_num_steps(d2);
    let n = num_steps(d2);
    let fwd = chord_spec(p0, p1, size);
    let bwd = chord_spec(p1, p0, size);
    if n == 0 {
        lemma_zero_steps(d2);
        assert(p0 == p1);
        assert(bwd =~= fwd.reverse());
    } else {
        assert forall|k: int| 0 <= k <= n implies bwd[k] == fwd[n - k] by {
            lemma_interp_symm(p0.x as int, p1.x as int, k, n);
            lemma_interp_symm(p0.y as int, p1.y as int, k, n);
        }
        assert(bwd =~= fwd.reverse());
    }
}

/// The first and last samples of a chord are the clamped pixels of its pins.
proof fn lemma_chord_endpoints(p0: Coord, p1: Coord, size: int)
    requires
        p0.in_range(),
        p1.in_range(),
        1 <= size <= MAX_SIZE,
    ensures
        chord_spec(p0, p1, size).first() == pin_pixel(p0, size),
        chord_spec(p0, p1, size).last() == pin_pixel(p1, size),
{
    let d2 = p0.dist_sq(p1);
    lemma_dist_sq_bounds(p0, p1);
    lemma_num_steps(d2);
    let n = num_steps(d2);
    lemma_interp_endpoints(p0.x as int, p1.x as int, n);
    lemma_interp_endpoints(p0.y as int, p1.y as int, n);
    if n == 0 {
        lemma_zero_steps(d2);
        assert(p0 == p1);
        assert(chord_spec(p0, p1, size).first() == pin_pixel(p0, size));
        assert(chord_spec(p0, p1, size).last() == pin_pixel(p0, size));
    } else {
        assert(chord_spec(p0, p1, size).first() == pin_pixel(p0, size));
        assert(chord_spec(p0, p1, size).last() == pin_pixel(p1, size));
    }
}

/// The rasterized chord read backwards is the chord between the swapped
/// endpoints: the two share their pixels as a set, and the first and last
/// samples are the clamped pixels of the two pins.
pub proof fn lemma_chord_symmetry(p0: Coord, p1: Coord, size: int)
    requires
        p0.in_range(),
        p1.in_range(),
        1 <= size <= MAX_SIZE,
    ensures
        chord_spec(p1, p0, size) == chord_spec(p0, p1, size).reverse(),
        chord_spec(p1, p0, size).to_set() == chord_spec(p0, p1, size).to_set(),
        chord_spec(p0, p1, size).first() == pin_pixel(p0, size),
        chord_spec(p0, p1, size).last() == pin_pixel(p1, size),
{
    lemma_chord_reversed(p0, p1, size);
    lemma_reverse_to_set(chord_spec(p0, p1, size));
    lemma_chord_endpoints(p0, p1, size);
}

/// Computes the interpolated, rounded coordinate of sample `k` out of `n`.
fn interp_exec(a: u64, b: u64, n: u64, k: u64) -> (r: u64)
    requires
        a <= MAX_COORD,
        b <= MAX_COORD,
        k <= n,
        n <= MAX_STEPS,
    ensures
        r == interp(a as int, b as int, k as int, n as int),
{
    if n == 0 {
        (2 * a + COORD_SCALE) / (2 * COORD_SCALE)
    } else {
        assert(a * (n - k) <= MAX_COORD * MAX_STEPS && b * k <= MAX_COORD * MAX_STEPS)
            by (nonlinear_arith)
            requires
                a <= MAX_COORD,
                b <= MAX_COORD,
                k <= n,
                n <= MAX_STEPS,
        ;
        let num: u64 = a * (n - k) + b * k;
        let den: u64 = n * COORD_SCALE;
        (2 * num + den) / (2 * den)
    }
}

/// Computes sample `k` out of `n` of the chord from `p0` to `p1`.
pub fn sample_point(p0: Coord, p1: Coord, n: u64, k: u64, size: usize) -> (p: Pixel)
    requires
        p0.in_range(),
        p1.in_range(),
        k <= n,
        n <= MAX_STEPS,
        1 <= size <= MAX_SIZE,
    ensures
        p == sample_pix(p0, p1, n as int, k as int, size as int),
        pix_in(p, size as int),
{
    proof {
        lemma_interp_nonneg(p0.x as int, p1.x as int, k as int, n as int);
        lemma_interp_nonneg(p0.y as int, p1.y as int, k as int, n as int);
    }
    let rx = interp_exec(p0.x, p1.x, n, k);
    let ry = interp_exec(p0.y, p1.y, n, k);
    let px: usize = if rx >= size as u64 {
        size - 1
    } else {
        rx as usize
    };
    let py: usize = if ry >= size as u64 {
        size - 1
    } else {
        ry as usize
    };
    Pixel { x: px, y: py }
}

/// Rasterizes the chord from `p0` to `p1` on a `size` by `size` canvas.
pub fn rasterize_chord(p0: Coord, p1: Coord, size: usize) -> (samples: Vec<Pixel>)
    requires
        p0.in_range(),
        p1.in_range(),
        1 <= size <= MAX_SIZE,
    ensures
        samples@ == chord_spec(p0, p1, size as int),
{
    let d2 = p0.distance_squared(p1);
    let n = step_count(d2);
    let mut samples: Vec<Pixel> = Vec::new();
    let mut k: u64 = 0;
    while k <= n
        invariant
            p0.in_range(),
            p1.in_range(),
            1 <= size <= MAX_SIZE,
            n == num_steps(p0.dist_sq(p1)),
            n <= MAX_STEPS,
            k <= n + 1,
            samples@.len() == k,
            forall|i: int|
                0 <= i < k ==> samples@[i] == sample_pix(p0, p1, n as int, i, size as int),
        decreases n + 1 - k,
    {
        let p = sample_point(p0, p1, n, k, size);
        samples.push(p);
        k = k + 1;
    }
    proof {
        assert(samples@ =~= chord_spec(p0, p1, size as int));
    }
    samples
}

} // verus!
