//! The pin layout and the chord cache: every admissible chord between pin
//! pairs is rasterized exactly once, before any search runs, and is read-only
//! afterwards.

use vstd::prelude::*;

use crate::canvas::Canvas;
use crate::config::{circ_dist, circ_dist_exec, Config};
use crate::coord::{Coord, Pixel};
use crate::raster::{chord_spec, lemma_chord_props, pix_in, rasterize_chord};
use crate::{MAX_SIZE, MAX_STEPS};

verus! {

/// The coordinates of the pins on the circle, validated once.
pub struct PinLayout {
    pub pins: Vec<Coord>,
}

impl PinLayout {
    /// Every pin coordinate is in the admitted range.
    pub open spec fn wf(self) -> bool {
        forall|i: int| 0 <= i < self.pins@.len() ==> (#[trigger] self.pins@[i]).in_range()
    }

    /// Validates a coordinate list; succeeds exactly when every pin is in range.
    pub fn new(pins: Vec<Coord>) -> (r: Option<PinLayout>)
        ensures
            r matches Some(l) ==> l.wf() && l.pins@ == pins@,
            r is Some <==> forall|i: int|
                0 <= i < pins@.len() ==> (#[trigger] pins@[i]).in_range(),
    {
        let n = pins.len();
        let mut i: usize = 0;
        while i < n
            invariant
                i <= n,
                n == pins@.len(),
                forall|j: int| 0 <= j < i ==> (#[trigger] pins@[j]).in_range(),
            decreases n - i,
        {
            let p = pins[i];
            if p.x > crate::MAX_COORD || p.y > crate::MAX_COORD {
                return None;
            }
            i = i + 1;
        }
        Some(PinLayout { pins })
    }

    /// The number of pins.
    pub fn len(&self) -> (n: usize)
        ensures
            n == self.pins@.len(),
    {
        self.pins.len()
    }
}

/// Pins `a` and `b` bound an admissible chord on `n` pins with minimum
/// circular distance `d`.
pub open spec fn valid_pair(a: int, b: int, n: int, d: int) -> bool {
    &&& 0 <= a < n
    &&& 0 <= b < n
    &&& circ_dist(a, b, n) >= d
}

/// The cache of rasterized chords, keyed by the canonical ordered pin pair.
pub struct ChordCache {
    pub pins: Vec<Coord>,
    pub min_distance: usize,
    pub size: usize,
    pub table: Vec<Vec<Vec<Pixel>>>,
}

impl ChordCache {
    /// Well-formed: the table covers every pin pair, and every admissible
    /// pair holds exactly the rasterized chord between its pins.
    pub open spec fn wf(self) -> bool {
        &&& 1 <= self.size <= MAX_SIZE
        &&& 1 <= self.min_distance
        &&& forall|i: int| 0 <= i < self.pins@.len() ==> (#[trigger] self.pins@[i]).in_range()
        &&& self.table@.len() == self.pins@.len()
        &&& forall|i: int|
            0 <= i < self.table@.len() ==> (#[trigger] self.table@[i])@.len() == self.pins@.len()
        &&& forall|i: int, j: int|
            0 <= i < j < self.pins@.len() && valid_pair(
                i,
                j,
                self.pins@.len() as int,
                self.min_distance as int,
            ) ==> (#[trigger] self.table@[i]@[j])@ == chord_spec(
                self.pins@[i],
                self.pins@[j],
                self.size as int,
            )
    }

    /// The cache was built for this configuration and canvas size.
    pub open spec fn matches(self, cfg: Config, size: int) -> bool {
        &&& self.pins@.len() == cfg.pin_count
        &&& self.min_distance == cfg.min_distance
        &&& self.size == size
    }

    /// The samples of the chord between pins `a` and `b`; the unordered pair
    /// is canonicalized, so `(a, b)` and `(b, a)` share one entry.
    pub open spec fn chord_at(self, a: int, b: int) -> Seq<Pixel> {
        if a <= b {
            chord_spec(self.pins@[a], self.pins@[b], self.size as int)
        } else {
            chord_spec(self.pins@[b], self.pins@[a], self.size as int)
        }
    }

    /// The chord between `a` and `b` where the pair is admissible, and no
    /// samples at all where it is not.
    pub open spec fn chord_or_empty(self, a: int, b: int) -> Seq<Pixel> {
        if valid_pair(a, b, self.pins@.len() as int, self.min_distance as int) {
            self.chord_at(a, b)
        } else {
            Seq::empty()
        }
    }

    /// Looks up the cached chord of an admissible pair.
    pub fn get(&self, a: usize, b: usize) -> (samples: &Vec<Pixel>)
        requires
            self.wf(),
            valid_pair(a as int, b as int, self.pins@.len() as int, self.min_distance as int),
        ensures
            samples@ == self.chord_at(a as int, b as int),
            samples@ == self.chord_or_empty(a as int, b as int),
            1 <= samples@.len() <= MAX_STEPS + 1,
            forall|k: int| 0 <= k < samples@.len() ==> pix_in(#[trigger] samples@[k], self.size as int),
    {
        let (lo, hi) = if a <= b {
            (a, b)
        } else {
            (b, a)
        };
        proof {
            assert(circ_dist(lo as int, hi as int, self.pins@.len() as int) == circ_dist(
                a as int,
                b as int,
                self.pins@.len() as int,
            ));
            assert(lo < hi);
            lemma_chord_props(self.pins@[lo as int], self.pins@[hi as int], self.size as int);
        }
        &self.table[lo][hi]
    }
}

/// Copies a coordinate list.
fn copy_coords(v: &Vec<Coord>) -> (r: Vec<Coord>)
    ensures
        r@ == v@,
{
    let n = v.len();
    let mut r: Vec<Coord> = Vec::new();
    let mut i: usize = 0;
    while i < n
        invariant
            i <= n,
            n == v@.len(),
            r@.len() == i,
            forall|j: int| 0 <= j < i ==> (#[trigger] r@[j]) == v@[j],
        decreases n - i,
    {
        r.push(v[i]);
        i = i + 1;
    }
    proof {
        assert(r@ =~= v@);
    }
    r
}

/// Rasterizes every admissible chord once: for each unordered pin pair at
/// circular distance at least `min_distance`, the canonical entry holds the
/// chord's samples; every other entry stays empty.
pub fn precalculate_all_potential_lines(img: &Canvas, pin_coords: &PinLayout, args: &Config) -> (cache:
    ChordCache)
    requires
        img.wf(),
        pin_coords.wf(),
        pin_coords.pins@.len() == args.pin_count,
        args.min_distance >= 1,
    ensures
        cache.wf(),
        cache.matches(*args, img.size as int),
        cache.pins@ == pin_coords.pins@,
{
    let n = pin_coords.pins.len();
    let d = args.min_distance;
    let size = img.size;
    let mut table: Vec<Vec<Vec<Pixel>>> = Vec::new();
    let mut i: usize = 0;
    while i < n
        invariant
            i <= n,
            n == pin_coords.pins@.len(),
            d == args.min_distance,
            1 <= d,
            1 <= size <= MAX_SIZE,
            pin_coords.wf(),
            table@.len() == i,
            forall|p: int| 0 <= p < i ==> (#[trigger] table@[p])@.len() == n,
            forall|p: int, q: int|
                0 <= p < q < n && p < i && valid_pair(p, q, n as int, d as int) ==> (
                #[trigger] table@[p]@[q])@ == chord_spec(
                    pin_coords.pins@[p],
                    pin_coords.pins@[q],
                    size as int,
                ),
        decreases n - i,
    {
        let mut row: Vec<Vec<Pixel>> = Vec::new();
        let mut j: usize = 0;
        while j < n
            invariant
                j <= n,
                i < n,
                n == pin_coords.pins@.len(),
                d == args.min_distance,
                1 <= d,
                1 <= size <= MAX_SIZE,
                pin_coords.wf(),
                row@.len() == j,
                forall|q: int|
                    (i as int) < q < j && valid_pair(i as int, q, n as int, d as int) ==> (
                    #[trigger] row@[q])@ == chord_spec(
                        pin_coords.pins@[i as int],
                        pin_coords.pins@[q],
                        size as int,
                    ),
            decreases n - j,
        {
            let entry: Vec<Pixel> = if i < j && circ_dist_exec(i, j, n) >= d {
                rasterize_chord(pin_coords.pins[i], pin_coords.pins[j], size)
            } else {
                Vec::new()
            };
            row.push(entry);
            j = j + 1;
        }
        table.push(row);
        i = i + 1;
    }
    let cache = ChordCache { pins: copy_coords(&pin_coords.pins), min_distance: d, size, table };
    cache
}

} // verus!
