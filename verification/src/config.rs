//! Search configuration, its validity conditions, and the circular pin
//! geometry shared by both solvers.

use vstd::prelude::*;

use vstd::arithmetic::div_mod::{lemma_mod_sub_multiples_vanish, lemma_small_mod};

use crate::coord::delta;
use crate::{MAX_LINES, MAX_SIZE, RATE_SCALE, UNIT};

verus! {

/// What the floor of a residual subtraction is: clamped at zero, so a pixel
/// can never hold negative ink debt, or unclamped, letting repeatedly covered
/// dark areas keep competing (saturating only at the representable bound).
#[derive(Clone, Copy, PartialEq, Eq, Structural, Debug)]
pub enum ClampPolicy {
    ClampedAtZero,
    Unclamped,
}

/// How mutation picks a replacement pin: as a minimum-distance-respecting
/// offset from the preceding pin, or fully uniformly at random, which may
/// break the min-distance invariant at the mutated position.
#[derive(Clone, Copy, PartialEq, Eq, Structural, Debug)]
pub enum MutationPolicy {
    ConstrainedOffset,
    UniformRandom,
}

/// The errors a solver can report before or during a run.
#[derive(Clone, Copy, PartialEq, Eq, Structural, Debug)]
pub enum SolverError {
    /// The configuration admits no legal search step.
    InvalidConfig,
    /// Every remaining candidate pin was tabu; the run cannot go on.
    CandidatesExhausted,
}

/// The full, immutable configuration of a search run.
#[derive(Clone, Copy, PartialEq, Eq, Structural, Debug)]
pub struct Config {
    /// Number of pins on the circle.
    pub pin_count: usize,
    /// Number of chords to place; the output holds `line_count + 1` pins.
    pub line_count: usize,
    /// Fixed-point residual decrement per pixel visit, out of `UNIT`.
    pub line_weight: i64,
    /// Minimum circular distance between consecutive pins.
    pub min_distance: usize,
    /// Capacity of the tabu memory.
    pub tabu_window: usize,
    /// The first pin of every output sequence.
    pub start: usize,
    /// Number of chromosomes in each generation.
    pub population_size: usize,
    /// Fixed-point crossover probability, out of `RATE_SCALE`.
    pub crossover_rate: u64,
    /// Fixed-point mutation probability, out of `RATE_SCALE`.
    pub mutation_rate: u64,
    /// Number of generations to evolve.
    pub generations: usize,
    /// How mutation picks a replacement pin.
    pub mutation_policy: MutationPolicy,
    /// Floor policy of every residual subtraction.
    pub clamp_policy: ClampPolicy,
}

impl Config {
    /// At least one candidate offset exists: `pin_count > 2 * min_distance`.
    pub open spec fn has_offsets(self) -> bool {
        self.pin_count > 2 * self.min_distance
    }

    /// The tabu window cannot swallow the whole candidate set.
    pub open spec fn tabu_fits(self) -> bool {
        self.tabu_window < self.pin_count - 2 * self.min_distance
    }

    /// The conditions checked before a tabu-search run.
    pub open spec fn valid_for_tabu(self) -> bool {
        &&& self.has_offsets()
        &&& self.line_count >= 1
        &&& self.tabu_fits()
    }

    /// The conditions checked before a genetic run.
    pub open spec fn valid_for_genetic(self) -> bool {
        &&& self.has_offsets()
        &&& self.line_count >= 1
        &&& self.population_size >= 1
    }

    /// Representation limits the callers guarantee; none of these is a
    /// solver decision, they only keep the fixed-point arithmetic exact.
    pub open spec fn bounded(self) -> bool {
        &&& 1 <= self.min_distance <= MAX_SIZE
        &&& self.pin_count <= MAX_SIZE
        &&& self.tabu_window <= MAX_SIZE
        &&& self.line_count <= MAX_LINES
        &&& 0 < self.line_weight <= UNIT
        &&& self.start < self.pin_count
        &&& self.crossover_rate <= RATE_SCALE
        &&& self.mutation_rate <= RATE_SCALE
    }

    /// Checks the tabu-run conditions; `true` exactly when they all hold.
    pub fn validate_for_tabu(&self) -> (ok: bool)
        ensures
            ok == self.valid_for_tabu(),
    {
        self.min_distance < self.pin_count && self.pin_count - self.min_distance
            > self.min_distance && self.line_count >= 1 && self.tabu_window < (self.pin_count
            - self.min_distance) - self.min_distance
    }

    /// Checks the genetic-run conditions; `true` exactly when they all hold.
    pub fn validate_for_genetic(&self) -> (ok: bool)
        ensures
            ok == self.valid_for_genetic(),
    {
        self.min_distance < self.pin_count && self.pin_count - self.min_distance
            > self.min_distance && self.line_count >= 1 && self.population_size >= 1
    }
}

/// The circular distance between pin indices `a` and `b` on `n` pins.
pub open spec fn circ_dist(a: int, b: int, n: int) -> int
    recommends
        0 <= a < n,
        0 <= b < n,
{
    let d = delta(a, b);
    if d <= n - d {
        d
    } else {
        n - d
    }
}

/// Pins `a` and `b` are a legal consecutive pair under `cfg`.
pub open spec fn valid_step(a: int, b: int, cfg: Config) -> bool {
    &&& 0 <= a < cfg.pin_count
    &&& 0 <= b < cfg.pin_count
    &&& circ_dist(a, b, cfg.pin_count as int) >= cfg.min_distance
}

/// Every pin of `s` is in range and every consecutive pair is legal.
pub open spec fn valid_sequence(s: Seq<usize>, cfg: Config) -> bool {
    &&& forall|i: int| 0 <= i < s.len() ==> (#[trigger] s[i]) < cfg.pin_count
    &&& forall|i: int|
        #![trigger s[i]]
        0 <= i < s.len() - 1 ==> valid_step(s[i] as int, s[i + 1] as int, cfg)
}

/// Stepping from any pin by an offset in `[min_distance, pin_count - min_distance)`
/// lands on a pin at circular distance at least `min_distance`.
pub proof fn lemma_offset_step(cur: int, o: int, cfg: Config)
    requires
        0 <= cur < cfg.pin_count,
        cfg.min_distance <= o < cfg.pin_count - cfg.min_distance,
        cfg.has_offsets(),
    ensures
        valid_step(cur, (cur + o) % (cfg.pin_count as int), cfg),
{
    let n = cfg.pin_count as int;
    if cur + o < n {
        lemma_small_mod((cur + o) as nat, n as nat);
    } else {
        lemma_mod_sub_multiples_vanish(cur + o, n);
        lemma_small_mod((cur + o - n) as nat, n as nat);
    }
}

/// Computes the circular distance between two pin indices.
pub fn circ_dist_exec(a: usize, b: usize, n: usize) -> (d: usize)
    requires
        a < n,
        b < n,
    ensures
        d == circ_dist(a as int, b as int, n as int),
{
    let raw: usize = if a >= b {
        a - b
    } else {
        b - a
    };
    if raw <= n - raw {
        raw
    } else {
        n - raw
    }
}

} // verus!
