//! The canvas: a square fixed-point grayscale buffer. It serves both as the
//! target image (values in `[0, UNIT]`, `UNIT` is white) and as the residual
//! "ink debt" image that the solvers subtract chord weights from.

use vstd::prelude::*;

use vstd::pervasive::VecAdditionalExecFns;

use crate::config::ClampPolicy;
use crate::coord::{Coord, Pixel};
use crate::raster::{chord_spec, pix_in, rasterize_chord};
use crate::{MAX_MAG, MAX_SIZE, UNIT};

verus! {

/// The absolute value of `v`.
pub open spec fn abs_i(v: int) -> int {
    if v >= 0 {
        v
    } else {
        -v
    }
}

/// The row-major buffer index of pixel `p` on a `size` by `size` canvas.
pub open spec fn pix_index(p: Pixel, size: int) -> int {
    p.y * size + p.x
}

/// The floor a residual subtraction stops at under `policy`.
pub open spec fn floor_of(policy: ClampPolicy) -> int {
    match policy {
        ClampPolicy::ClampedAtZero => 0,
        ClampPolicy::Unclamped => -MAX_MAG,
    }
}

/// One weight subtraction: `v - w`, stopped at `floor`.
pub open spec fn sub_val(v: int, w: int, floor: int) -> int {
    if v - w >= floor {
        v - w
    } else {
        floor
    }
}

/// The sum of the absolute values of a buffer.
pub open spec fn sum_abs_spec(s: Seq<i64>) -> int
    decreases s.len(),
{
    if s.len() == 0 {
        0
    } else {
        sum_abs_spec(s.drop_last()) + abs_i(s.last() as int)
    }
}

/// The buffer after inverting every value: `v` becomes `UNIT - v`.
pub open spec fn invert_vals(s: Seq<i64>) -> Seq<i64> {
    Seq::new(s.len(), |i: int| (UNIT - s[i]) as i64)
}

/// The buffer after subtracting `w` (floored at `floor`) at every sample
/// point of `pts` in order; a pixel listed more than once is hit repeatedly.
pub open spec fn apply_points(vals: Seq<i64>, pts: Seq<Pixel>, w: int, floor: int, size: int) -> Seq<i64>
    decreases pts.len(),
{
    if pts.len() == 0 {
        vals
    } else {
        let i = pix_index(pts[0], size);
        apply_points(
            vals.update(i, sub_val(vals[i] as int, w, floor) as i64),
            pts.drop_first(),
            w,
            floor,
            size,
        )
    }
}

/// A pixel inside the canvas indexes inside the buffer.
pub proof fn lemma_pix_index_bounds(p: Pixel, size: int)
    requires
        1 <= size <= MAX_SIZE,
        pix_in(p, size),
    ensures
        0 <= p.y * size,
        0 <= pix_index(p, size) < size * size,
        size * size <= MAX_SIZE * MAX_SIZE,
{
    assert(p.y * size + p.x < size * size && p.y * size >= 0 && size * size <= MAX_SIZE
        * MAX_SIZE) by (nonlinear_arith)
        requires
            p.x < size,
            p.y < size,
            p.x >= 0,
            p.y >= 0,
            1 <= size <= MAX_SIZE,
    ;
}

/// A square fixed-point grayscale buffer in row-major order.
#[derive(Debug)]
pub struct Canvas {
    pub size: usize,
    pub buf: Vec<i64>,
}

impl Canvas {
    /// The buffer has the right length and every value is representable.
    pub open spec fn wf(self) -> bool {
        &&& 1 <= self.size <= MAX_SIZE
        &&& self.buf@.len() == self.size * self.size
        &&& forall|i: int|
            0 <= i < self.buf@.len() ==> -MAX_MAG <= (#[trigger] self.buf@[i]) <= MAX_MAG
    }

    /// The buffer contents.
    pub open spec fn values(self) -> Seq<i64> {
        self.buf@
    }

    /// Every value lies in the target range `[0, UNIT]`.
    pub open spec fn is_target(self) -> bool {
        forall|i: int| 0 <= i < self.buf@.len() ==> 0 <= (#[trigger] self.buf@[i]) <= UNIT
    }

    /// Builds a canvas filled with one value.
    pub fn new(img_size: usize, fill: i64) -> (r: Canvas)
        requires
            1 <= img_size <= MAX_SIZE,
            0 <= fill <= UNIT,
        ensures
            r.wf(),
            r.is_target(),
            r.size == img_size,
            r.values() == Seq::new((img_size * img_size) as nat, |i: int| fill),
    {
        proof {
            assert(img_size * img_size <= MAX_SIZE * MAX_SIZE) by (nonlinear_arith)
                requires
                    1 <= img_size <= MAX_SIZE,
            ;
        }
        let n: usize = img_size * img_size;
        let mut buf: Vec<i64> = Vec::new();
        let mut i: usize = 0;
        while i < n
            invariant
                i <= n,
                buf@.len() == i,
                forall|j: int| 0 <= j < i ==> (#[trigger] buf@[j]) == fill,
            decreases n - i,
        {
            buf.push(fill);
            i = i + 1;
        }
        let r = Canvas { size: img_size, buf };
        proof {
            assert(r.values() =~= Seq::new((img_size * img_size) as nat, |i: int| fill));
        }
        r
    }

    /// Builds a target canvas from decoded pixel values in row-major order.
    /// Returns nothing when the dimensions or a value are out of range.
    pub fn from(values: Vec<i64>, img_size: usize) -> (r: Option<Canvas>)
        ensures
            r matches Some(c) ==> {
                &&& c.wf()
                &&& c.is_target()
                &&& c.size == img_size
                &&& c.values() == values@
            },
            r is Some <==> {
                &&& 1 <= img_size <= MAX_SIZE
                &&& values@.len() == img_size * img_size
                &&& forall|i: int| 0 <= i < values@.len() ==> 0 <= (#[trigger] values@[i]) <= UNIT
            },
    {
        if img_size < 1 || img_size > MAX_SIZE {
            return None;
        }
        proof {
            assert(img_size * img_size <= MAX_SIZE * MAX_SIZE) by (nonlinear_arith)
                requires
                    1 <= img_size <= MAX_SIZE,
            ;
        }
        if values.len() != img_size * img_size {
            return None;
        }
        let mut i: usize = 0;
        let n = values.len();
        while i < n
            invariant
                i <= n,
                n == values@.len(),
                forall|j: int| 0 <= j < i ==> 0 <= (#[trigger] values@[j]) <= UNIT,
            decreases n - i,
        {
            let v = values[i];
            if v < 0 || v > UNIT {
                return None;
            }
            i = i + 1;
        }
        Some(Canvas { size: img_size, buf: values })
    }

    /// Reads the value at a pixel.
    pub fn get_pixel(&self, coord: Pixel) -> (v: i64)
        requires
            self.wf(),
            pix_in(coord, self.size as int),
        ensures
            v == self.values()[pix_index(coord, self.size as int)],
    {
        proof {
            lemma_pix_index_bounds(coord, self.size as int);
        }
        self.buf[coord.y * self.size + coord.x]
    }

    /// Overwrites the value at a pixel.
    pub fn set_pixel(&mut self, coord: Pixel, v: i64)
        requires
            old(self).wf(),
            pix_in(coord, old(self).size as int),
            -MAX_MAG <= v <= MAX_MAG,
        ensures
            final(self).wf(),
            final(self).size == old(self).size,
            final(self).values() == old(self).values().update(
                pix_index(coord, old(self).size as int),
                v,
            ),
    {
        proof {
            lemma_pix_index_bounds(coord, self.size as int);
        }
        let idx: usize = coord.y * self.size + coord.x;
        self.buf.set(idx, v);
    }

    /// Subtracts `w` at one pixel, floored according to `policy`.
    pub fn sub_pixel(&mut self, coord: Pixel, w: i64, policy: ClampPolicy)
        requires
            old(self).wf(),
            pix_in(coord, old(self).size as int),
            0 <= w,
        ensures
            final(self).wf(),
            final(self).size == old(self).size,
            final(self).values() == old(self).values().update(
                pix_index(coord, old(self).size as int),
                sub_val(
                    old(self).values()[pix_index(coord, old(self).size as int)] as int,
                    w as int,
                    floor_of(policy),
                ) as i64,
            ),
    {
        proof {
            lemma_pix_index_bounds(coord, self.size as int);
        }
        let idx: usize = coord.y * self.size + coord.x;
        let v = self.buf[idx];
        let floor: i64 = match policy {
            ClampPolicy::ClampedAtZero => 0,
            ClampPolicy::Unclamped => -MAX_MAG,
        };
        let nv: i64 = if v >= floor + w {
            v - w
        } else {
            floor
        };
        self.buf.set(idx, nv);
    }

    /// Inverts a target canvas in place: `v` becomes `UNIT - v`.
    pub fn invert(&mut self)
        requires
            old(self).wf(),
            old(self).is_target(),
        ensures
            final(self).wf(),
            final(self).is_target(),
            final(self).size == old(self).size,
            final(self).values() == invert_vals(old(self).values()),
    {
        let n = self.buf.len();
        let mut i: usize = 0;
        while i < n
            invariant
                i <= n,
                n == self.buf@.len(),
                self.size == old(self).size,
                self.buf@.len() == old(self).buf@.len(),
                forall|j: int|
                    0 <= j < old(self).buf@.len() ==> 0 <= (#[trigger] old(self).buf@[j]) <= UNIT,
                forall|j: int|
                    0 <= j < i ==> (#[trigger] self.buf@[j]) == UNIT - old(self).buf@[j],
                forall|j: int| i <= j < n ==> (#[trigger] self.buf@[j]) == old(self).buf@[j],
            decreases n - i,
        {
            let v = self.buf[i];
            self.buf.set(i, UNIT - v);
            i = i + 1;
        }
        proof {
            assert(self.values() =~= invert_vals(old(self).values()));
        }
    }

    /// Subtracts `w` at every sample point of a chord, floored per `policy`.
    pub fn apply_chord(&mut self, samples: &Vec<Pixel>, w: i64, policy: ClampPolicy)
        requires
            old(self).wf(),
            0 <= w,
            forall|k: int|
                0 <= k < samples@.len() ==> pix_in(#[trigger] samples@[k], old(self).size as int),
        ensures
            final(self).wf(),
            final(self).size == old(self).size,
            final(self).values() == apply_points(
                old(self).values(),
                samples@,
                w as int,
                floor_of(policy),
                old(self).size as int,
            ),
    {
        proof {
            assert(samples@.skip(0) =~= samples@);
        }
        let n = samples.len();
        let mut i: usize = 0;
        while i < n
            invariant
                i <= n,
                n == samples@.len(),
                self.wf(),
                self.size == old(self).size,
                0 <= w,
                forall|k: int|
                    0 <= k < samples@.len() ==> pix_in(#[trigger] samples@[k], self.size as int),
                apply_points(
                    old(self).values(),
                    samples@,
                    w as int,
                    floor_of(policy),
                    self.size as int,
                ) == apply_points(
                    self.values(),
                    samples@.skip(i as int),
                    w as int,
                    floor_of(policy),
                    self.size as int,
                ),
            decreases n - i,
        {
            let ghost pre = self.values();
            let p = samples[i];
            self.sub_pixel(p, w, policy);
            proof {
                assert(samples@.skip(i as int).drop_first() =~= samples@.skip(i as int + 1));
                assert(samples@.skip(i as int)[0] == samples@[i as int]);
            }
            i = i + 1;
        }
        proof {
            assert(samples@.skip(n as int) =~= Seq::<Pixel>::empty());
        }
    }

    /// Rasterizes the chord between two coordinates on this canvas.
    pub fn line_space_coord(&self, start: Coord, end: Coord) -> (samples: Vec<Pixel>)
        requires
            self.wf(),
            start.in_range(),
            end.in_range(),
        ensures
            samples@ == chord_spec(start, end, self.size as int),
    {
        rasterize_chord(start, end, self.size)
    }

    /// Sums the absolute values of the whole buffer.
    pub fn sum_abs(&self) -> (total: i128)
        requires
            self.wf(),
        ensures
            total == sum_abs_spec(self.values()),
    {
        let n = self.buf.len();
        let mut total: i128 = 0;
        let mut i: usize = 0;
        while i < n
            invariant
                i <= n,
                n == self.buf@.len(),
                self.wf(),
                total == sum_abs_spec(self.buf@.take(i as int)),
                0 <= total <= (i as int) * MAX_MAG,
            decreases n - i,
        {
            let v = self.buf[i];
            let a: i64 = if v >= 0 {
                v
            } else {
                -v
            };
            proof {
                assert(self.buf@.take(i as int + 1).drop_last() =~= self.buf@.take(i as int));
            }
            total = total + a as i128;
            i = i + 1;
        }
        proof {
            assert(self.buf@.take(n as int) =~= self.buf@);
        }
        total
    }
}

impl Clone for Canvas {
    /// An exact copy: same dimensions, same buffer contents.
    fn clone(&self) -> (res: Canvas)
        ensures
            res.size == self.size,
            res.values() == self.values(),
    {
        let n = self.buf.len();
        let mut buf: Vec<i64> = Vec::new();
        let mut i: usize = 0;
        while i < n
            invariant
                i <= n,
                n == self.buf@.len(),
                buf@.len() == i,
                forall|j: int| 0 <= j < i ==> (#[trigger] buf@[j]) == self.buf@[j],
            decreases n - i,
        {
            buf.push(self.buf[i]);
            i = i + 1;
        }
        let res = Canvas { size: self.size, buf };
        proof {
            assert(res.values() =~= self.values());
        }
        res
    }
}

/// Sum of absolute values of a bounded buffer: nonnegative and linearly bounded.
pub proof fn lemma_sum_abs_bounds(s: Seq<i64>)
    requires
        forall|i: int| 0 <= i < s.len() ==> -MAX_MAG <= (#[trigger] s[i]) <= MAX_MAG,
    ensures
        0 <= sum_abs_spec(s) <= s.len() * MAX_MAG,
    decreases s.len(),
{
    if s.len() > 0 {
        lemma_sum_abs_bounds(s.drop_last());
    }
}

/// Updating one entry shifts the absolute sum by the change at that entry.
proof fn lemma_sum_abs_update(s: Seq<i64>, i: int, v: i64)
    requires
        0 <= i < s.len(),
    ensures
        sum_abs_spec(s.update(i, v)) == sum_abs_spec(s) - abs_i(s[i] as int) + abs_i(v as int),
    decreases s.len(),
{
    if i == s.len() - 1 {
        assert(s.update(i, v).drop_last() =~= s.drop_last());
    } else {
        assert(s.update(i, v).drop_last() =~= s.drop_last().update(i, v));
        lemma_sum_abs_update(s.drop_last(), i, v);
    }
}

/// Applying a chord never changes the buffer's length.
pub proof fn lemma_apply_points_len(vals: Seq<i64>, pts: Seq<Pixel>, w: int, floor: int, size: int)
    requires
        1 <= size <= MAX_SIZE,
        vals.len() == size * size,
        forall|k: int| 0 <= k < pts.len() ==> pix_in(#[trigger] pts[k], size),
    ensures
        apply_points(vals, pts, w, floor, size).len() == vals.len(),
    decreases pts.len(),
{
    if pts.len() > 0 {
        let i = pix_index(pts[0], size);
        lemma_pix_index_bounds(pts[0], size);
        lemma_apply_points_len(
            vals.update(i, sub_val(vals[i] as int, w, floor) as i64),
            pts.drop_first(),
            w,
            floor,
            size,
        );
    }
}

/// Committing a chord under the clamped-at-zero policy never increases the
/// total absolute residual.
pub proof fn lemma_clamped_commit_monotonic(vals: Seq<i64>, pts: Seq<Pixel>, w: int, size: int)
    requires
        0 <= w,
        1 <= size <= MAX_SIZE,
        vals.len() == size * size,
        forall|k: int| 0 <= k < pts.len() ==> pix_in(#[trigger] pts[k], size),
    ensures
        sum_abs_spec(apply_points(vals, pts, w, 0, size)) <= sum_abs_spec(vals),
    decreases pts.len(),
{
    if pts.len() > 0 {
        let i = pix_index(pts[0], size);
        lemma_pix_index_bounds(pts[0], size);
        let nv = sub_val(vals[i] as int, w, 0) as i64;
        lemma_sum_abs_update(vals, i, nv);
        lemma_clamped_commit_monotonic(vals.update(i, nv), pts.drop_first(), w, size);
    }
}

/// Under the unclamped policy one subtraction can move a pixel's absolute
/// value by no more than one weight step.
pub proof fn lemma_unclamped_step_bounded(v: int, w: int)
    requires
        0 <= w,
        -MAX_MAG <= v,
    ensures
        abs_i(sub_val(v, w, -MAX_MAG as int)) <= abs_i(v) + w,
{
}

} // verus!
