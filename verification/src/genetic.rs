//! The population-based search: chromosomes are full pin sequences, evolved
//! by tournament selection, single-range crossover and point mutation, each
//! scored by replaying its chords against a fresh copy of the inverted
//! target. Randomness comes only from the seedable generator handed in, so
//! one seed gives one run.

use vstd::prelude::*;

use vstd::pervasive::VecAdditionalExecFns;

use crate::canvas::{floor_of, invert_vals, lemma_sum_abs_bounds, sum_abs_spec, Canvas};
use crate::config::{lemma_offset_step, valid_sequence, valid_step, Config, MutationPolicy, SolverError};
use crate::line_cache::ChordCache;
use crate::render::{replay_sequence, replay_spec};
use crate::rng::rng_below;
use crate::{MAX_LINES, RATE_SCALE};

verus! {

/// A chromosome shaped like a search output: full length, fixed start pin,
/// every pin in range.
pub open spec fn member_ok(s: Seq<usize>, cfg: Config) -> bool {
    &&& s.len() == cfg.line_count + 1
    &&& s[0] == cfg.start
    &&& forall|i: int| 0 <= i < s.len() ==> (#[trigger] s[i]) < cfg.pin_count
}

/// The fitness of a chromosome: the negated total absolute residual after
/// replaying all its chords onto the inverted target.
pub open spec fn fitness_spec(
    cache: ChordCache,
    target: Seq<i64>,
    chrom: Seq<usize>,
    cfg: Config,
) -> int {
    -sum_abs_spec(
        replay_spec(
            cache,
            invert_vals(target),
            chrom,
            cfg.line_weight as int,
            floor_of(cfg.clamp_policy),
        ),
    )
}

/// The child copying `[s, e)` from the first parent and the rest from the
/// second.
pub open spec fn splice_spec(p1: Seq<usize>, p2: Seq<usize>, s: int, e: int) -> Seq<usize> {
    Seq::new(p1.len(), |i: int| if s <= i < e { p1[i] } else { p2[i] })
}

/// Copies a pin sequence.
fn copy_pins(v: &Vec<usize>) -> (r: Vec<usize>)
    ensures
        r@ == v@,
{
    let n = v.len();
    let mut r: Vec<usize> = Vec::new();
    let mut i: usize = 0;
    while i < n
        invariant
            i <= n,
            n == v@.len(),
            r@.len() == i,
            forall|j: int| 0 <= j < i ==> (#[trigger] r@[j]) == v@[j],
        decreases n - i,
    {
        r.push(v[i]);
        i = i + 1;
    }
    proof {
        assert(r@ =~= v@);
    }
    r
}

/// Evaluates a chromosome's fitness exactly as `fitness_spec` prescribes.
pub fn calculate_fitness(
    chromosome: &Vec<usize>,
    source_image: &Canvas,
    line_cache: &ChordCache,
    args: &Config,
) -> (f: i128)
    requires
        source_image.wf(),
        source_image.is_target(),
        line_cache.wf(),
        line_cache.matches(*args, source_image.size as int),
        args.bounded(),
        forall|i: int|
            0 <= i < chromosome@.len() ==> (#[trigger] chromosome@[i]) < args.pin_count,
    ensures
        f == fitness_spec(*line_cache, source_image.values(), chromosome@, *args),
{
    let mut error = source_image.clone();
    error.invert();
    replay_sequence(&mut error, chromosome, line_cache, args);
    let total = error.sum_abs();
    proof {
        lemma_sum_abs_bounds(error.values());
    }
    -total
}

/// Builds the child of one crossover: positions `[s, e)` come from the
/// first parent, all others from the second.
pub fn splice(parent1: &Vec<usize>, parent2: &Vec<usize>, s: usize, e: usize) -> (child: Vec<
    usize,
>)
    requires
        parent1@.len() == parent2@.len(),
        s <= e <= parent1@.len(),
    ensures
        child@ == splice_spec(parent1@, parent2@, s as int, e as int),
{
    let n = parent1.len();
    let mut child: Vec<usize> = Vec::new();
    let mut i: usize = 0;
    while i < n
        invariant
            i <= n,
            n == parent1@.len(),
            n == parent2@.len(),
            s <= e <= n,
            child@.len() == i,
            forall|j: int|
                0 <= j < i ==> (#[trigger] child@[j]) == if s <= j < e {
                    parent1@[j]
                } else {
                    parent2@[j]
                },
        decreases n - i,
    {
        if s <= i && i < e {
            child.push(parent1[i]);
        } else {
            child.push(parent2[i]);
        }
        i = i + 1;
    }
    proof {
        assert(child@ =~= splice_spec(parent1@, parent2@, s as int, e as int));
    }
    child
}

/// Crosses two parents over a random contiguous range: the child takes
/// `[s, e)` from the first parent and the rest from the second, for some
/// cut points `s <= e` below the length.
pub fn crossover(parent1: &Vec<usize>, parent2: &Vec<usize>, rng: &mut rand::rngs::StdRng) -> (child:
    Vec<usize>)
    requires
        parent1@.len() == parent2@.len(),
        parent1@.len() >= 1,
    ensures
        child@.len() == parent1@.len(),
        exists|s: int, e: int|
            0 <= s <= e < parent1@.len() && child@ == #[trigger] splice_spec(
                parent1@,
                parent2@,
                s,
                e,
            ),
        forall|i: int|
            0 <= i < child@.len() ==> (#[trigger] child@[i]) == parent1@[i] || child@[i]
                == parent2@[i],
{
    let len = parent1.len();
    let c1 = rng_below(rng, len as u64) as usize;
    let c2 = rng_below(rng, len as u64) as usize;
    let (s, e) = if c1 <= c2 {
        (c1, c2)
    } else {
        (c2, c1)
    };
    let child = splice(parent1, parent2, s, e);
    proof {
        assert((s as int) <= (e as int) && (e as int) < parent1@.len() && child@ == splice_spec(
            parent1@,
            parent2@,
            s as int,
            e as int,
        ));
    }
    child
}

/// Mutates one random position: the pin after it is replaced, either by a
/// legal offset from its predecessor or fully at random, per the policy.
pub fn mutate(chromosome: &Vec<usize>, args: &Config, rng: &mut rand::rngs::StdRng) -> (m: Vec<
    usize,
>)
    requires
        chromosome@.len() >= 2,
        args.bounded(),
        args.has_offsets(),
        forall|i: int|
            0 <= i < chromosome@.len() ==> (#[trigger] chromosome@[i]) < args.pin_count,
    ensures
        m@.len() == chromosome@.len(),
        forall|i: int| 0 <= i < m@.len() ==> (#[trigger] m@[i]) < args.pin_count,
        exists|pos: int, pin: usize|
            {
                &&& 0 <= pos < chromosome@.len() - 1
                &&& pin < args.pin_count
                &&& m@ == #[trigger] chromosome@.update(pos + 1, pin)
                &&& (args.mutation_policy is ConstrainedOffset ==> valid_step(
                    chromosome@[pos] as int,
                    pin as int,
                    *args,
                ))
            },
{
    let len = chromosome.len();
    let pos = rng_below(rng, (len - 1) as u64) as usize;
    let n = args.pin_count;
    let d = args.min_distance;
    let current = chromosome[pos];
    let pin: usize = match args.mutation_policy {
        MutationPolicy::ConstrainedOffset => {
            let o = d + rng_below(rng, (n - 2 * d) as u64) as usize;
            proof {
                lemma_offset_step(current as int, o as int, *args);
            }
            (current + o) % n
        },
        MutationPolicy::UniformRandom => rng_below(rng, n as u64) as usize,
    };
    let mut m = copy_pins(chromosome);
    m.set(pos + 1, pin);
    proof {
        assert(m@ == chromosome@.update(pos as int + 1, pin));
        assert((pos as int) < chromosome@.len() - 1 && pin < args.pin_count && m@
            == chromosome@.update(pos as int + 1, pin) && (args.mutation_policy
            is ConstrainedOffset ==> valid_step(chromosome@[pos as int] as int, pin as int, *args)));
    }
    m
}

/// Picks the winner out of the drawn contenders: the first drawn index
/// whose fitness no later draw strictly beats.
pub fn pick_best_of(fitness: &Vec<i128>, draws: &Vec<usize>) -> (idx: usize)
    requires
        draws@.len() >= 1,
        forall|j: int| 0 <= j < draws@.len() ==> (#[trigger] draws@[j]) < fitness@.len(),
    ensures
        idx < fitness@.len(),
        exists|m: int|
            {
                &&& 0 <= m < draws@.len()
                &&& idx == #[trigger] draws@[m]
                &&& forall|j: int| 0 <= j < m ==> fitness@[draws@[j] as int] < fitness@[idx as int]
            },
        forall|j: int|
            0 <= j < draws@.len() ==> fitness@[(#[trigger] draws@[j]) as int]
                <= fitness@[idx as int],
{
    let k = draws.len();
    let mut idx: usize = draws[0];
    let ghost mut m_best: int = 0;
    let mut j: usize = 1;
    while j < k
        invariant
            1 <= j <= k,
            k == draws@.len(),
            forall|q: int| 0 <= q < draws@.len() ==> (#[trigger] draws@[q]) < fitness@.len(),
            0 <= m_best < j,
            idx == draws@[m_best],
            forall|q: int| 0 <= q < m_best ==> fitness@[draws@[q] as int] < fitness@[idx as int],
            forall|q: int|
                0 <= q < j ==> fitness@[(#[trigger] draws@[q]) as int] <= fitness@[idx as int],
        decreases k - j,
    {
        let c = draws[j];
        if fitness[c] > fitness[idx] {
            idx = c;
            proof {
                m_best = j as int;
            }
        }
        j = j + 1;
    }
    idx
}

/// Tournament selection: draws `k` indices uniformly at random and returns
/// the first-drawn fittest one.
pub fn tournament_selection(fitness: &Vec<i128>, k: usize, rng: &mut rand::rngs::StdRng) -> (idx:
    usize)
    requires
        fitness@.len() >= 1,
        k >= 1,
    ensures
        idx < fitness@.len(),
{
    let len = fitness.len();
    let mut draws: Vec<usize> = Vec::new();
    let mut i: usize = 0;
    while i < k
        invariant
            i <= k,
            len == fitness@.len(),
            len >= 1,
            draws@.len() == i,
            forall|j: int| 0 <= j < i ==> (#[trigger] draws@[j]) < len,
        decreases k - i,
    {
        draws.push(rng_below(rng, len as u64) as usize);
        i = i + 1;
    }
    pick_best_of(fitness, &draws)
}

/// The first index holding the maximal fitness.
pub fn select_best_index(fitness: &Vec<i128>) -> (best: usize)
    requires
        fitness@.len() >= 1,
    ensures
        best < fitness@.len(),
        forall|j: int| 0 <= j < fitness@.len() ==> (#[trigger] fitness@[j]) <= fitness@[best as int],
        forall|j: int| 0 <= j < best ==> (#[trigger] fitness@[j]) < fitness@[best as int],
{
    let n = fitness.len();
    let mut best: usize = 0;
    let mut j: usize = 1;
    while j < n
        invariant
            1 <= j <= n,
            n == fitness@.len(),
            best < j,
            forall|q: int| 0 <= q < j ==> (#[trigger] fitness@[q]) <= fitness@[best as int],
            forall|q: int| 0 <= q < best ==> (#[trigger] fitness@[q]) < fitness@[best as int],
        decreases n - j,
    {
        if fitness[j] > fitness[best] {
            best = j;
        }
        j = j + 1;
    }
    best
}

/// Builds the initial population: each chromosome is a constrained random
/// walk from the start pin, every step a legal offset, so each one is a
/// fully valid sequence.
pub fn initialize_population(args: &Config, rng: &mut rand::rngs::StdRng) -> (pop: Vec<Vec<usize>>)
    requires
        args.bounded(),
        args.has_offsets(),
    ensures
        pop@.len() == args.population_size,
        forall|c: int|
            0 <= c < pop@.len() ==> member_ok((#[trigger] pop@[c])@, *args) && valid_sequence(
                pop@[c]@,
                *args,
            ),
{
    let n = args.pin_count;
    let d = args.min_distance;
    let mut pop: Vec<Vec<usize>> = Vec::new();
    let mut c: usize = 0;
    while c < args.population_size
        invariant
            c <= args.population_size,
            args.bounded(),
            args.has_offsets(),
            n == args.pin_count,
            d == args.min_distance,
            pop@.len() == c,
            forall|q: int|
                0 <= q < c ==> member_ok((#[trigger] pop@[q])@, *args) && valid_sequence(
                    pop@[q]@,
                    *args,
                ),
        decreases args.population_size - c,
    {
        let mut chromosome: Vec<usize> = Vec::new();
        chromosome.push(args.start);
        let mut current: usize = args.start;
        let mut i: usize = 0;
        while i < args.line_count
            invariant
                i <= args.line_count,
                args.line_count <= MAX_LINES,
                args.bounded(),
                args.has_offsets(),
                n == args.pin_count,
                d == args.min_distance,
                current < n,
                chromosome@.len() == i + 1,
                chromosome@[0] == args.start,
                chromosome@.last() == current,
                valid_sequence(chromosome@, *args),
            decreases args.line_count - i,
        {
            let o = d + rng_below(rng, (n - 2 * d) as u64) as usize;
            let next: usize = (current + o) % n;
            proof {
                lemma_offset_step(current as int, o as int, *args);
            }
            let ghost pre = chromosome@;
            chromosome.push(next);
            proof {
                assert forall|q: int|
                    #![trigger chromosome@[q]]
                    0 <= q < chromosome@.len() - 1 implies valid_step(
                    chromosome@[q] as int,
                    chromosome@[q + 1] as int,
                    *args,
                ) by {
                    if q < pre.len() - 1 {
                        assert(valid_step(pre[q] as int, pre[q + 1] as int, *args));
                    } else {
                        assert(chromosome@[q] == current);
                        assert(chromosome@[q + 1] == next);
                    }
                }
            }
            current = next;
            i = i + 1;
        }
        pop.push(chromosome);
        c = c + 1;
    }
    pop
}

/// Runs the genetic search: evolves `population_size` random-walk
/// chromosomes (plus an optional seed sequence) for `generations`
/// generations of tournament selection, crossover and mutation, and returns
/// the fittest member of the final population (first encountered on ties).
/// Fails with `InvalidConfig` exactly when the configuration admits no run.
pub fn calculate_lines(
    source_image: &Canvas,
    line_cache: &ChordCache,
    base: Option<Vec<usize>>,
    args: &Config,
    rng: &mut rand::rngs::StdRng,
) -> (r: Result<Vec<usize>, SolverError>)
    requires
        source_image.wf(),
        source_image.is_target(),
        line_cache.wf(),
        line_cache.matches(*args, source_image.size as int),
        args.bounded(),
        base matches Some(b) ==> member_ok(b@, *args),
    ensures
        !args.valid_for_genetic() <==> r == Err::<Vec<usize>, SolverError>(
            SolverError::InvalidConfig,
        ),
        args.valid_for_genetic() ==> r is Ok,
        r matches Ok(v) ==> member_ok(v@, *args),
{
    if !args.validate_for_genetic() {
        return Err(SolverError::InvalidConfig);
    }
    let mut population = initialize_population(args, rng);
    match base {
        Some(b) => {
            population.push(b);
        },
        None => {},
    }
    let mut g: usize = 0;
    while g < args.generations
        invariant
            g <= args.generations,
            source_image.wf(),
            source_image.is_target(),
            line_cache.wf(),
            line_cache.matches(*args, source_image.size as int),
            args.bounded(),
            args.valid_for_genetic(),
            population@.len() >= 1,
            forall|c: int| 0 <= c < population@.len() ==> member_ok((#[trigger] population@[c])@, *args),
        decreases args.generations - g,
    {
        let fitness = evaluate_population(&population, source_image, line_cache, args);
        let mut new_population: Vec<Vec<usize>> = Vec::new();
        let mut j: usize = 0;
        while j < args.population_size
            invariant
                j <= args.population_size,
                source_image.wf(),
                source_image.is_target(),
                line_cache.wf(),
                line_cache.matches(*args, source_image.size as int),
                args.bounded(),
                args.valid_for_genetic(),
                population@.len() >= 1,
                fitness@.len() == population@.len(),
                forall|c: int|
                    0 <= c < population@.len() ==> member_ok((#[trigger] population@[c])@, *args),
                new_population@.len() == j,
                forall|c: int|
                    0 <= c < new_population@.len() ==> member_ok(
                        (#[trigger] new_population@[c])@,
                        *args,
                    ),
            decreases args.population_size - j,
        {
            let i1 = tournament_selection(&fitness, 3, rng);
            let i2 = tournament_selection(&fitness, 3, rng);
            let child: Vec<usize> = if rng_below(rng, RATE_SCALE) < args.crossover_rate {
                let c = crossover(&population[i1], &population[i2], rng);
                proof {
                    assert(member_ok(c@, *args));
                }
                c
            } else {
                copy_pins(&population[i1])
            };
            let child = if rng_below(rng, RATE_SCALE) < args.mutation_rate {
                let m = mutate(&child, args, rng);
                proof {
                    let (pos, pin) = choose|pos: int, pin: usize|
                        #![trigger child@.update(pos + 1, pin)]
                        0 <= pos < child@.len() - 1 && pin < args.pin_count && m@ == child@.update(
                            pos + 1,
                            pin,
                        );
                    assert(m@[0] == child@[0]);
                }
                m
            } else {
                child
            };
            new_population.push(child);
            j = j + 1;
        }
        population = new_population;
        g = g + 1;
    }
    let fitness = evaluate_population(&population, source_image, line_cache, args);
    let best = select_best_index(&fitness);
    let winner = population.remove(best);
    Ok(winner)
}

/// Scores every member of a population.
fn evaluate_population(
    population: &Vec<Vec<usize>>,
    source_image: &Canvas,
    line_cache: &ChordCache,
    args: &Config,
) -> (fitness: Vec<i128>)
    requires
        source_image.wf(),
        source_image.is_target(),
        line_cache.wf(),
        line_cache.matches(*args, source_image.size as int),
        args.bounded(),
        forall|c: int|
            0 <= c < population@.len() ==> member_ok((#[trigger] population@[c])@, *args),
    ensures
        fitness@.len() == population@.len(),
        forall|c: int|
            0 <= c < population@.len() ==> (#[trigger] fitness@[c]) == fitness_spec(
                *line_cache,
                source_image.values(),
                population@[c]@,
                *args,
            ),
{
    let n = population.len();
    let mut fitness: Vec<i128> = Vec::new();
    let mut i: usize = 0;
    while i < n
        invariant
            i <= n,
            n == population@.len(),
            source_image.wf(),
            source_image.is_target(),
            line_cache.wf(),
            line_cache.matches(*args, source_image.size as int),
            args.bounded(),
            forall|c: int|
                0 <= c < population@.len() ==> member_ok((#[trigger] population@[c])@, *args),
            fitness@.len() == i,
            forall|c: int|
                0 <= c < i ==> (#[trigger] fitness@[c]) == fitness_spec(
                    *line_cache,
                    source_image.values(),
                    population@[c]@,
                    *args,
                ),
        decreases n - i,
    {
        let f = calculate_fitness(&population[i], source_image, line_cache, args);
        fitness.push(f);
        i = i + 1;
    }
    fitness
}

} // verus!
