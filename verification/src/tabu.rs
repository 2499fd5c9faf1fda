//! The greedy tabu search: starting from a fixed pin, it repeatedly scores
//! every non-tabu candidate chord against the live residual image, commits
//! the best one, and subtracts its weight from the residual. The whole run
//! is a function of its inputs: the result is pinned to the `run_steps`
//! recursion, so equal inputs give byte-identical output sequences.

use vstd::prelude::*;

use vstd::arithmetic::div_mod::lemma_mod_pos_bound;

use crate::canvas::{apply_points, floor_of, pix_index, Canvas};
use crate::config::{lemma_offset_step, valid_sequence, valid_step, Config, SolverError};
use crate::coord::Pixel;
use crate::line_cache::{valid_pair, ChordCache};
use crate::raster::pix_in;
use crate::{MAX_MAG, MAX_STEPS};

verus! {

/// The candidate pin reached from `cur` by offset `o` on `n` pins.
pub open spec fn cand_pin(cur: int, o: int, n: int) -> int
    recommends
        n > 0,
{
    (cur + o) % n
}

/// The sum of the residual values under the samples of a chord.
pub open spec fn score_of(vals: Seq<i64>, pts: Seq<Pixel>, size: int) -> int
    decreases pts.len(),
{
    if pts.len() == 0 {
        0
    } else {
        score_of(vals, pts.drop_last(), size) + vals[pix_index(pts.last(), size)]
    }
}

/// A tabu memory after pushing `pin` in front: the oldest entry leaves once
/// the window `cap` is exceeded.
pub open spec fn push_tabu(t: Seq<usize>, pin: usize, cap: int) -> Seq<usize> {
    let u = seq![pin] + t;
    if u.len() > cap {
        u.drop_last()
    } else {
        u
    }
}

/// Pushing into a memory within its window keeps it within its window.
pub proof fn lemma_push_tabu_bounded(t: Seq<usize>, pin: usize, cap: int)
    requires
        t.len() <= cap,
    ensures
        push_tabu(t, pin, cap).len() <= cap,
{
}

/// The bounded first-in-first-out window of recently visited pins.
pub struct TabuMemory {
    pub items: Vec<usize>,
    pub cap: usize,
}

impl TabuMemory {
    /// The memory never holds more pins than its window allows.
    pub open spec fn wf(self) -> bool {
        self.items@.len() <= self.cap
    }

    /// An empty memory with window `cap`.
    pub fn new(cap: usize) -> (t: TabuMemory)
        ensures
            t.wf(),
            t.cap == cap,
            t.items@ == Seq::<usize>::empty(),
    {
        TabuMemory { items: Vec::new(), cap }
    }

    /// Whether `pin` is currently held.
    pub fn contains(&self, pin: usize) -> (b: bool)
        ensures
            b == self.items@.contains(pin),
    {
        let n = self.items.len();
        let mut i: usize = 0;
        while i < n
            invariant
                i <= n,
                n == self.items@.len(),
                forall|j: int| 0 <= j < i ==> (#[trigger] self.items@[j]) != pin,
            decreases n - i,
        {
            if self.items[i] == pin {
                return true;
            }
            i = i + 1;
        }
        false
    }

    /// Pushes `pin` in front, evicting the oldest pin beyond the window.
    pub fn push(&mut self, pin: usize)
        requires
            old(self).wf(),
        ensures
            final(self).wf(),
            final(self).cap == old(self).cap,
            final(self).items@ == push_tabu(old(self).items@, pin, old(self).cap as int),
    {
        self.items.insert(0, pin);
        proof {
            assert(self.items@ =~= seq![pin] + old(self).items@);
        }
        if self.items.len() > self.cap {
            self.items.pop();
            proof {
                assert(self.items@ =~= (seq![pin] + old(self).items@).drop_last());
            }
        }
    }
}

/// Scales `val` by a uniformly drawn factor in `[1 - pct/1000, 1 + pct/1000]`,
/// in fixed-point thousandths, rounding down.
fn jitter(val: u64, pct: u64, rng: &mut rand::rngs::StdRng) -> (r: u64)
    requires
        pct <= 1000,
        val <= 0x1000_0000,
    ensures
        (val * (1000 - pct)) / 1000 <= r <= (val * (1000 + pct)) / 1000,
        r <= 2 * val,
{
    let draw = crate::rng::rng_below(rng, 2 * pct + 1);
    let frac: u64 = 1000 - pct + draw;
    proof {
        assert(val * frac <= val * (1000 + pct) && val * (1000 - pct) <= val * frac && val * (1000
            + pct) <= val * 2000) by (nonlinear_arith)
            requires
                1000 - pct <= frac <= 1000 + pct,
                pct <= 1000,
                val <= 0x1000_0000,
        ;
        vstd::arithmetic::div_mod::lemma_div_is_ordered(
            (val * (1000 - pct)) as int,
            (val * frac) as int,
            1000,
        );
        vstd::arithmetic::div_mod::lemma_div_is_ordered(
            (val * frac) as int,
            (val * (1000 + pct)) as int,
            1000,
        );
        vstd::arithmetic::div_mod::lemma_div_is_ordered(
            (val * frac) as int,
            (val * 2000) as int,
            1000,
        );
        assert((val * 2000) / 1000 == 2 * val) by (nonlinear_arith);
    }
    val * frac / 1000
}

impl Config {
    /// A configuration jittered around `base`, for seeding diverse tabu
    /// runs: the line weight moves by up to a quarter, the distance and the
    /// tabu window by up to half, and the start pin is redrawn uniformly.
    pub fn rand_from(base: &Config, rng: &mut rand::rngs::StdRng) -> (c: Config)
        requires
            base.bounded(),
        ensures
            c.pin_count == base.pin_count,
            c.line_count == base.line_count,
            c.start < c.pin_count,
            (base.line_weight * 750) / 1000 <= c.line_weight <= (base.line_weight * 1250) / 1000,
            (base.min_distance * 500) / 1000 <= c.min_distance <= (base.min_distance * 1500)
                / 1000,
            (base.tabu_window * 500) / 1000 <= c.tabu_window <= (base.tabu_window * 1500) / 1000,
            c.population_size == base.population_size,
            c.crossover_rate == base.crossover_rate,
            c.mutation_rate == base.mutation_rate,
            c.generations == base.generations,
            c.mutation_policy == base.mutation_policy,
            c.clamp_policy == base.clamp_policy,
    {
        let line_weight = jitter(base.line_weight as u64, 250, rng) as i64;
        let min_distance = jitter(base.min_distance as u64, 500, rng) as usize;
        let tabu_window = jitter(base.tabu_window as u64, 500, rng) as usize;
        let start = crate::rng::rng_below(rng, base.pin_count as u64) as usize;
        Config {
            pin_count: base.pin_count,
            line_count: base.line_count,
            line_weight,
            min_distance,
            tabu_window,
            start,
            population_size: base.population_size,
            crossover_rate: base.crossover_rate,
            mutation_rate: base.mutation_rate,
            generations: base.generations,
            mutation_policy: base.mutation_policy,
            clamp_policy: base.clamp_policy,
        }
    }
}

/// The better of a previous best and a newly scored candidate: the higher
/// score wins, ties go to the smaller pin index.
pub open spec fn better_cand(best: Option<(int, int)>, score: int, pin: int) -> Option<(int, int)> {
    match best {
        Option::None => Option::Some((score, pin)),
        Option::Some((bs, bp)) => if score > bs || (score == bs && pin < bp) {
            Option::Some((score, pin))
        } else {
            best
        },
    }
}

/// The best non-tabu candidate among offsets `[min_distance, o_end)` from
/// `cur`, as the pair (score, pin); `None` when every candidate is tabu.
pub open spec fn scan_best(
    cache: ChordCache,
    vals: Seq<i64>,
    cfg: Config,
    cur: int,
    tabu: Seq<usize>,
    o_end: int,
) -> Option<(int, int)>
    decreases o_end,
{
    if o_end <= cfg.min_distance {
        Option::<(int, int)>::None
    } else {
        let prev = scan_best(cache, vals, cfg, cur, tabu, o_end - 1);
        let pin = cand_pin(cur, o_end - 1, cfg.pin_count as int);
        if tabu.contains(pin as usize) {
            prev
        } else {
            better_cand(prev, score_of(vals, cache.chord_at(cur, pin), cache.size as int), pin)
        }
    }
}

/// What the scanned best candidate satisfies: it is reached by a legal
/// offset, it is not tabu, its score is recorded exactly, and no other
/// non-tabu candidate beats it (ties resolved toward the smaller pin).
/// When no candidate is returned, every candidate in range is tabu.
pub proof fn lemma_scan_best_props(
    cache: ChordCache,
    vals: Seq<i64>,
    cfg: Config,
    cur: int,
    tabu: Seq<usize>,
    o_end: int,
)
    requires
        0 <= cur < cfg.pin_count,
    ensures
        match scan_best(cache, vals, cfg, cur, tabu, o_end) {
            Option::None => forall|o: int|
                #![trigger cand_pin(cur, o, cfg.pin_count as int)]
                cfg.min_distance <= o < o_end ==> tabu.contains(
                    cand_pin(cur, o, cfg.pin_count as int) as usize,
                ),
            Option::Some(t) => {
                &&& exists|o: int|
                    #![trigger cand_pin(cur, o, cfg.pin_count as int)]
                    cfg.min_distance <= o < o_end && t.1 == cand_pin(
                        cur,
                        o,
                        cfg.pin_count as int,
                    )
                &&& !tabu.contains(t.1 as usize)
                &&& t.0 == score_of(vals, cache.chord_at(cur, t.1), cache.size as int)
                &&& 0 <= t.1 < cfg.pin_count
                &&& forall|o: int|
                    #![trigger cand_pin(cur, o, cfg.pin_count as int)]
                    cfg.min_distance <= o < o_end ==> {
                        let q = cand_pin(cur, o, cfg.pin_count as int);
                        let qs = score_of(vals, cache.chord_at(cur, q), cache.size as int);
                        tabu.contains(q as usize) || qs < t.0 || (qs == t.0 && t.1 <= q)
                    }
            },
        },
    decreases o_end,
{
    let n = cfg.pin_count as int;
    let d = cfg.min_distance as int;
    if o_end <= d {
        // no offsets scanned; nothing to show
    } else {
        lemma_scan_best_props(cache, vals, cfg, cur, tabu, o_end - 1);
        let o = o_end - 1;
        let pin = cand_pin(cur, o, n);
        lemma_mod_pos_bound(cur + o, n);
        assert(0 <= pin < n);
    }
}

/// Distinct offsets below the pin count reach distinct candidate pins.
proof fn lemma_cand_pin_injective(cur: int, o1: int, o2: int, n: int)
    requires
        0 <= cur < n,
        0 <= o1 < o2 < n,
    ensures
        cand_pin(cur, o1, n) != cand_pin(cur, o2, n),
{
    if cur + o1 < n {
        vstd::arithmetic::div_mod::lemma_small_mod((cur + o1) as nat, n as nat);
    } else {
        vstd::arithmetic::div_mod::lemma_mod_sub_multiples_vanish(cur + o1, n);
        vstd::arithmetic::div_mod::lemma_small_mod((cur + o1 - n) as nat, n as nat);
    }
    if cur + o2 < n {
        vstd::arithmetic::div_mod::lemma_small_mod((cur + o2) as nat, n as nat);
    } else {
        vstd::arithmetic::div_mod::lemma_mod_sub_multiples_vanish(cur + o2, n);
        vstd::arithmetic::div_mod::lemma_small_mod((cur + o2 - n) as nat, n as nat);
    }
}

/// Pigeonhole over the tabu window: while the memory holds fewer pins than
/// there are candidate offsets, a scan over the full offset range always
/// returns a candidate.
pub proof fn lemma_full_scan_finds_candidate(
    cache: ChordCache,
    vals: Seq<i64>,
    cfg: Config,
    cur: int,
    tabu: Seq<usize>,
)
    requires
        0 <= cur < cfg.pin_count,
        cfg.has_offsets(),
        tabu.len() < cfg.pin_count - 2 * cfg.min_distance,
    ensures
        scan_best(cache, vals, cfg, cur, tabu, cfg.pin_count - cfg.min_distance) is Some,
{
    broadcast use vstd::seq_lib::seq_to_set_is_finite;

    let n = cfg.pin_count as int;
    let d = cfg.min_distance as int;
    if scan_best(cache, vals, cfg, cur, tabu, n - d) is None {
        lemma_scan_best_props(cache, vals, cfg, cur, tabu, n - d);
        let m = (n - 2 * d) as nat;
        let pins = Seq::new(m, |i: int| cand_pin(cur, d + i, n) as usize);
        assert forall|i: int| 0 <= i < pins.len() implies tabu.contains(#[trigger] pins[i]) by {
            assert(tabu.contains(cand_pin(cur, d + i, n) as usize));
        }
        assert forall|i: int, j: int|
            0 <= i < pins.len() && 0 <= j < pins.len() && i != j implies pins[i] != pins[j] by {
            lemma_mod_pos_bound(cur + (d + i), n);
            lemma_mod_pos_bound(cur + (d + j), n);
            if i < j {
                lemma_cand_pin_injective(cur, d + i, d + j, n);
            } else {
                lemma_cand_pin_injective(cur, d + j, d + i, n);
            }
        }
        assert(pins.no_duplicates());
        pins.unique_seq_to_set();
        tabu.lemma_cardinality_of_set();
        assert forall|p: usize| pins.to_set().contains(p) implies tabu.to_set().contains(p) by {
            assert(pins.contains(p));
            let i = choose|i: int| 0 <= i < pins.len() && pins[i] == p;
            assert(tabu.contains(pins[i]));
        }
        vstd::set_lib::lemma_len_subset(pins.to_set(), tabu.to_set());
        assert(false);
    }
}

/// One full greedy run from a given state, for `k` more steps: each step
/// commits the best candidate of `scan_best` and subtracts the chord's
/// weight from the residual; `None` when some step has every candidate tabu.
pub open spec fn run_steps(
    cache: ChordCache,
    cfg: Config,
    vals: Seq<i64>,
    cur: usize,
    tabu: Seq<usize>,
    out: Seq<usize>,
    k: nat,
) -> Option<(Seq<usize>, Seq<i64>)>
    decreases k,
{
    if k == 0 {
        Option::Some((out, vals))
    } else {
        match scan_best(cache, vals, cfg, cur as int, tabu, cfg.pin_count - cfg.min_distance) {
            Option::None => Option::<(Seq<usize>, Seq<i64>)>::None,
            Option::Some(t) => run_steps(
                cache,
                cfg,
                apply_points(
                    vals,
                    cache.chord_at(cur as int, t.1),
                    cfg.line_weight as int,
                    floor_of(cfg.clamp_policy),
                    cache.size as int,
                ),
                t.1 as usize,
                push_tabu(tabu, t.1 as usize, cfg.tabu_window as int),
                out.push(t.1 as usize),
                (k - 1) as nat,
            ),
        }
    }
}

/// A run that starts within its tabu window never exhausts its candidates:
/// every step of `run_steps` finds one, so the whole run returns a result.
pub proof fn lemma_valid_run_completes(
    cache: ChordCache,
    cfg: Config,
    vals: Seq<i64>,
    cur: usize,
    tabu: Seq<usize>,
    out: Seq<usize>,
    k: nat,
)
    requires
        cur < cfg.pin_count,
        cfg.has_offsets(),
        cfg.tabu_fits(),
        tabu.len() <= cfg.tabu_window,
    ensures
        run_steps(cache, cfg, vals, cur, tabu, out, k) is Some,
    decreases k,
{
    if k > 0 {
        lemma_full_scan_finds_candidate(cache, vals, cfg, cur as int, tabu);
        lemma_scan_best_props(
            cache,
            vals,
            cfg,
            cur as int,
            tabu,
            cfg.pin_count - cfg.min_distance,
        );
        let t = scan_best(
            cache,
            vals,
            cfg,
            cur as int,
            tabu,
            cfg.pin_count - cfg.min_distance,
        )->Some_0;
        lemma_push_tabu_bounded(tabu, t.1 as usize, cfg.tabu_window as int);
        lemma_valid_run_completes(
            cache,
            cfg,
            apply_points(
                vals,
                cache.chord_at(cur as int, t.1),
                cfg.line_weight as int,
                floor_of(cfg.clamp_policy),
                cache.size as int,
            ),
            t.1 as usize,
            push_tabu(tabu, t.1 as usize, cfg.tabu_window as int),
            out.push(t.1 as usize),
            (k - 1) as nat,
        );
    }
}

/// The pin picked by a scan is never one the tabu memory holds, and pushing
/// it keeps the memory within its window.
pub proof fn lemma_tabu_respected(
    cache: ChordCache,
    vals: Seq<i64>,
    cfg: Config,
    cur: int,
    tabu: Seq<usize>,
    o_end: int,
)
    requires
        0 <= cur < cfg.pin_count,
        tabu.len() <= cfg.tabu_window,
    ensures
        scan_best(cache, vals, cfg, cur, tabu, o_end) matches Option::Some(t) ==> {
            &&& !tabu.contains(t.1 as usize)
            &&& push_tabu(tabu, t.1 as usize, cfg.tabu_window as int).len() <= cfg.tabu_window
        },
{
    lemma_scan_best_props(cache, vals, cfg, cur, tabu, o_end);
    if scan_best(cache, vals, cfg, cur, tabu, o_end) is Some {
        let t = scan_best(cache, vals, cfg, cur, tabu, o_end)->Some_0;
        lemma_push_tabu_bounded(tabu, t.1 as usize, cfg.tabu_window as int);
    }
}

/// Under the clamped-at-zero policy, no commit of a run increases the total
/// absolute residual, so the residual a run returns is no larger than the
/// one it started from.
pub proof fn lemma_run_monotonic(
    cache: ChordCache,
    cfg: Config,
    vals: Seq<i64>,
    cur: usize,
    tabu: Seq<usize>,
    out: Seq<usize>,
    k: nat,
)
    requires
        cache.wf(),
        cache.pins@.len() == cfg.pin_count,
        cfg.clamp_policy is ClampedAtZero,
        cfg.line_weight >= 0,
        cur < cfg.pin_count,
        vals.len() == cache.size * cache.size,
    ensures
        run_steps(cache, cfg, vals, cur, tabu, out, k) matches Option::Some(res)
            ==> crate::canvas::sum_abs_spec(res.1) <= crate::canvas::sum_abs_spec(vals),
    decreases k,
{
    if k > 0 {
        let full = scan_best(cache, vals, cfg, cur as int, tabu, cfg.pin_count - cfg.min_distance);
        if full is Some {
            let t = full->Some_0;
            lemma_scan_best_props(
                cache,
                vals,
                cfg,
                cur as int,
                tabu,
                cfg.pin_count - cfg.min_distance,
            );
            let chord = cache.chord_at(cur as int, t.1);
            if cur as int <= t.1 {
                crate::raster::lemma_chord_props(
                    cache.pins@[cur as int],
                    cache.pins@[t.1],
                    cache.size as int,
                );
            } else {
                crate::raster::lemma_chord_props(
                    cache.pins@[t.1],
                    cache.pins@[cur as int],
                    cache.size as int,
                );
            }
            crate::canvas::lemma_clamped_commit_monotonic(
                vals,
                chord,
                cfg.line_weight as int,
                cache.size as int,
            );
            crate::canvas::lemma_apply_points_len(
                vals,
                chord,
                cfg.line_weight as int,
                floor_of(cfg.clamp_policy),
                cache.size as int,
            );
            lemma_run_monotonic(
                cache,
                cfg,
                apply_points(
                    vals,
                    chord,
                    cfg.line_weight as int,
                    floor_of(cfg.clamp_policy),
                    cache.size as int,
                ),
                t.1 as usize,
                push_tabu(tabu, t.1 as usize, cfg.tabu_window as int),
                out.push(t.1 as usize),
                (k - 1) as nat,
            );
        }
    }
}

/// Sums the residual under every sample of a chord.
fn chord_score(residual: &Canvas, pts: &Vec<Pixel>) -> (s: i128)
    requires
        residual.wf(),
        pts@.len() <= MAX_STEPS + 1,
        forall|k: int| 0 <= k < pts@.len() ==> pix_in(#[trigger] pts@[k], residual.size as int),
    ensures
        s == score_of(residual.values(), pts@, residual.size as int),
{
    let n = pts.len();
    let mut s: i128 = 0;
    let mut i: usize = 0;
    while i < n
        invariant
            i <= n,
            n == pts@.len(),
            n <= MAX_STEPS + 1,
            residual.wf(),
            forall|k: int| 0 <= k < pts@.len() ==> pix_in(#[trigger] pts@[k], residual.size as int),
            s == score_of(residual.values(), pts@.take(i as int), residual.size as int),
            -((i as int) * MAX_MAG) <= s <= (i as int) * MAX_MAG,
        decreases n - i,
    {
        let p = pts[i];
        let v = residual.get_pixel(p);
        proof {
            assert(pts@.take(i as int + 1).drop_last() =~= pts@.take(i as int));
            crate::canvas::lemma_pix_index_bounds(p, residual.size as int);
        }
        s = s + v as i128;
        i = i + 1;
    }
    proof {
        assert(pts@.take(n as int) =~= pts@);
    }
    s
}

/// Runs the greedy tabu search: `line_count` chords from pin `start`,
/// committing at each step the highest-scoring non-tabu candidate (ties go
/// to the smallest pin index). The output is exactly what the `run_steps`
/// recursion on the inverted target prescribes, so the search is
/// deterministic. Fails with `InvalidConfig` before the loop when the
/// configuration admits no legal run, and with `CandidatesExhausted` if a
/// step finds every candidate tabu.
pub fn calculate_lines(source_image: &Canvas, line_cache: &ChordCache, args: &Config) -> (r:
    Result<Vec<usize>, SolverError>)
    requires
        source_image.wf(),
        source_image.is_target(),
        line_cache.wf(),
        line_cache.matches(*args, source_image.size as int),
        args.bounded(),
    ensures
        !args.valid_for_tabu() ==> r == Err::<Vec<usize>, SolverError>(SolverError::InvalidConfig),
        args.valid_for_tabu() ==> match run_steps(
            *line_cache,
            *args,
            crate::canvas::invert_vals(source_image.values()),
            args.start,
            Seq::<usize>::empty(),
            seq![args.start],
            args.line_count as nat,
        ) {
            Option::Some(res) => r matches Ok(v) && v@ == res.0,
            Option::None => r == Err::<Vec<usize>, SolverError>(SolverError::CandidatesExhausted),
        },
        r matches Ok(v) ==> {
            &&& v@.len() == args.line_count + 1
            &&& valid_sequence(v@, *args)
            &&& v@[0] == args.start
        },
        args.valid_for_tabu() ==> r is Ok,
{
    if !args.validate_for_tabu() {
        return Err(SolverError::InvalidConfig);
    }
    let mut residual = source_image.clone();
    residual.invert();
    let mut line_sequence: Vec<usize> = Vec::new();
    line_sequence.push(args.start);
    let mut recent_pins = TabuMemory::new(args.tabu_window);
    let mut current_pin: usize = args.start;
    let mut it: usize = 0;
    while it < args.line_count
        invariant
            source_image.wf(),
            line_cache.wf(),
            line_cache.matches(*args, source_image.size as int),
            args.bounded(),
            args.valid_for_tabu(),
            residual.wf(),
            residual.size == source_image.size,
            recent_pins.wf(),
            recent_pins.cap == args.tabu_window,
            current_pin < args.pin_count,
            it <= args.line_count,
            line_sequence@.len() == it + 1,
            line_sequence@[0] == args.start,
            line_sequence@.last() == current_pin,
            valid_sequence(line_sequence@, *args),
            run_steps(
                *line_cache,
                *args,
                crate::canvas::invert_vals(source_image.values()),
                args.start,
                Seq::<usize>::empty(),
                seq![args.start],
                args.line_count as nat,
            ) == run_steps(
                *line_cache,
                *args,
                residual.values(),
                current_pin,
                recent_pins.items@,
                line_sequence@,
                (args.line_count - it) as nat,
            ),
        decreases args.line_count - it,
    {
        let n = args.pin_count;
        let d = args.min_distance;
        let ghost scan_vals = residual.values();
        let ghost scan_tabu = recent_pins.items@;
        let mut best: Option<(i128, usize)> = None;
        let mut o: usize = d;
        while o < n - d
            invariant
                line_cache.wf(),
                line_cache.matches(*args, source_image.size as int),
                args.bounded(),
                args.valid_for_tabu(),
                residual.wf(),
                residual.size == source_image.size,
                current_pin < n,
                n == args.pin_count,
                d == args.min_distance,
                d <= o <= n - d,
                scan_vals == residual.values(),
                scan_tabu == recent_pins.items@,
                best is None ==> scan_best(
                    *line_cache,
                    scan_vals,
                    *args,
                    current_pin as int,
                    scan_tabu,
                    o as int,
                ) is None,
                best matches Some(b) ==> scan_best(
                    *line_cache,
                    scan_vals,
                    *args,
                    current_pin as int,
                    scan_tabu,
                    o as int,
                ) == Option::Some((b.0 as int, b.1 as int)),
            decreases n - d - o,
        {
            let pin: usize = (current_pin + o) % n;
            proof {
                lemma_offset_step(current_pin as int, o as int, *args);
                assert(cand_pin(current_pin as int, o as int, n as int) == pin as int);
            }
            if !recent_pins.contains(pin) {
                let samples = line_cache.get(current_pin, pin);
                let cand_score = chord_score(&residual, samples);
                best = match best {
                    None => Some((cand_score, pin)),
                    Some((bs, bp)) => {
                        if cand_score > bs || (cand_score == bs && pin < bp) {
                            Some((cand_score, pin))
                        } else {
                            Some((bs, bp))
                        }
                    },
                };
            }
            o = o + 1;
        }
        match best {
            None => {
                proof {
                    let k = (args.line_count - it) as nat;
                    assert(k != 0);
                    assert((n - d) as int == args.pin_count - args.min_distance);
                    assert(run_steps(
                        *line_cache,
                        *args,
                        residual.values(),
                        current_pin,
                        recent_pins.items@,
                        line_sequence@,
                        k,
                    ) is None);
                    // a valid configuration keeps the window below the
                    // candidate count, so this cannot happen
                    lemma_valid_run_completes(
                        *line_cache,
                        *args,
                        residual.values(),
                        current_pin,
                        recent_pins.items@,
                        line_sequence@,
                        k,
                    );
                }
                return Err(SolverError::CandidatesExhausted);
            },
            Some((best_score, next_pin)) => {
                let ghost pre_vals = residual.values();
                let ghost pre_tabu = recent_pins.items@;
                let ghost pre_seq = line_sequence@;
                let ghost pre_cur = current_pin;
                let ghost k = (args.line_count - it) as nat;
                proof {
                    assert((n - d) as int == args.pin_count - args.min_distance);
                    assert(scan_best(
                        *line_cache,
                        pre_vals,
                        *args,
                        pre_cur as int,
                        pre_tabu,
                        args.pin_count - args.min_distance,
                    ) == Option::Some((best_score as int, next_pin as int)));
                    lemma_scan_best_props(
                        *line_cache,
                        pre_vals,
                        *args,
                        pre_cur as int,
                        pre_tabu,
                        (n - d) as int,
                    );
                    let o_w = choose|o_w: int|
                        args.min_distance <= o_w < n - d && next_pin as int == cand_pin(
                            pre_cur as int,
                            o_w,
                            args.pin_count as int,
                        );
                    lemma_offset_step(pre_cur as int, o_w, *args);
                    assert(valid_step(pre_cur as int, next_pin as int, *args));
                    assert(valid_pair(
                        pre_cur as int,
                        next_pin as int,
                        line_cache.pins@.len() as int,
                        line_cache.min_distance as int,
                    ));
                }
                let samples = line_cache.get(current_pin, next_pin);
                residual.apply_chord(samples, args.line_weight, args.clamp_policy);
                recent_pins.push(next_pin);
                line_sequence.push(next_pin);
                current_pin = next_pin;
                it = it + 1;
                proof {
                    assert(line_sequence@ == pre_seq.push(next_pin));
                    assert forall|i: int|
                        #![trigger line_sequence@[i]]
                        0 <= i < line_sequence@.len() - 1 implies valid_step(
                        line_sequence@[i] as int,
                        line_sequence@[i + 1] as int,
                        *args,
                    ) by {
                        if i < pre_seq.len() - 1 {
                            assert(valid_step(pre_seq[i] as int, pre_seq[i + 1] as int, *args));
                        } else {
                            assert(line_sequence@[i] == pre_cur);
                            assert(line_sequence@[i + 1] == next_pin);
                        }
                    }
                    assert(run_steps(
                        *line_cache,
                        *args,
                        pre_vals,
                        pre_cur,
                        pre_tabu,
                        pre_seq,
                        k,
                    ) == run_steps(
                        *line_cache,
                        *args,
                        residual.values(),
                        current_pin,
                        recent_pins.items@,
                        line_sequence@,
                        (k - 1) as nat,
                    ));
                }
            },
        }
    }
    proof {
        assert(run_steps(
            *line_cache,
            *args,
            residual.values(),
            current_pin,
            recent_pins.items@,
            line_sequence@,
            0,
        ) == Option::Some((line_sequence@, residual.values())));
    }
    Ok(line_sequence)
}

} // verus!
