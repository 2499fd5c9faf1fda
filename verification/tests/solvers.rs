use rand::SeedableRng;
use string_art::canvas::Canvas;
use string_art::config::{circ_dist_exec, ClampPolicy, Config, MutationPolicy, SolverError};
use string_art::coord::Coord;
use string_art::genetic;
use string_art::line_cache::{precalculate_all_potential_lines, ChordCache, PinLayout};
use string_art::render::draw_lines;
use string_art::tabu;
use string_art::tabu::TabuMemory;
use string_art::{COORD_SCALE, UNIT};

/// N pins evenly spaced on a circle inscribed in a size-by-size canvas,
/// converted to fixed-point coordinates.
fn circle_pins(n: usize, size: usize) -> Vec<Coord> {
    let center = size as f64 / 2.0;
    let radius = (size / 2) as f64 - 1.0;
    (0..n)
        .map(|i| {
            let angle = 2.0 * std::f64::consts::PI * i as f64 / n as f64;
            let x = (center + radius * angle.cos()) * COORD_SCALE as f64;
            let y = (center + radius * angle.sin()) * COORD_SCALE as f64;
            Coord { x: x.round().max(0.0) as u64, y: y.round().max(0.0) as u64 }
        })
        .collect()
}

fn half_gray_canvas(size: usize) -> Canvas {
    Canvas::from(vec![UNIT / 2; size * size], size).expect("valid canvas")
}

fn p7_config() -> Config {
    Config {
        pin_count: 8,
        line_count: 3,
        line_weight: UNIT / 10,
        min_distance: 2,
        tabu_window: 3,
        start: 0,
        population_size: 6,
        crossover_rate: 800 * 1024,
        mutation_rate: 100 * 1024,
        generations: 3,
        mutation_policy: MutationPolicy::ConstrainedOffset,
        clamp_policy: ClampPolicy::ClampedAtZero,
    }
}

fn p7_cache(cfg: &Config, canvas: &Canvas) -> ChordCache {
    let layout = PinLayout::new(circle_pins(cfg.pin_count, 10)).expect("pins in range");
    precalculate_all_potential_lines(canvas, &layout, cfg)
}

#[test]
fn tabu_eight_pin_half_gray_scenario() {
    let cfg = p7_config();
    let canvas = half_gray_canvas(10);
    let cache = p7_cache(&cfg, &canvas);
    let seq = tabu::calculate_lines(&canvas, &cache, &cfg).expect("run succeeds");
    // line_count chords produce line_count + 1 pins, starting at pin 0
    assert_eq!(seq.len(), 4);
    assert_eq!(seq[0], 0);
    // on the uniform half-gray canvas the three longest candidate chords
    // from pin 0 (to pins 3, 4 and 5) tie in score, since each gathers the
    // same number of equal-valued samples; the tie-break picks the smallest
    // pin, 3. The later steps diverge once the residual is partly consumed.
    assert_eq!(seq, vec![0, 3, 6, 1]);
    // every pin is in range and every consecutive pair is min-distance apart
    for &p in seq.iter() {
        assert!(p < cfg.pin_count);
    }
    for w in seq.windows(2) {
        assert!(circ_dist_exec(w[0], w[1], cfg.pin_count) >= cfg.min_distance);
    }
}

#[test]
fn tabu_is_deterministic() {
    let cfg = p7_config();
    let a = {
        let canvas = half_gray_canvas(10);
        let cache = p7_cache(&cfg, &canvas);
        tabu::calculate_lines(&canvas, &cache, &cfg).expect("run succeeds")
    };
    let b = {
        let canvas = half_gray_canvas(10);
        let cache = p7_cache(&cfg, &canvas);
        tabu::calculate_lines(&canvas, &cache, &cfg).expect("run succeeds")
    };
    assert_eq!(a, b);
}

#[test]
fn tabu_runs_under_the_unclamped_policy() {
    let mut cfg = p7_config();
    cfg.clamp_policy = ClampPolicy::Unclamped;
    cfg.line_count = 6;
    let canvas = half_gray_canvas(10);
    let cache = p7_cache(&cfg, &canvas);
    let seq = tabu::calculate_lines(&canvas, &cache, &cfg).expect("run succeeds");
    assert_eq!(seq.len(), 7);
    for w in seq.windows(2) {
        assert!(circ_dist_exec(w[0], w[1], cfg.pin_count) >= cfg.min_distance);
    }
}

#[test]
fn tabu_reports_invalid_configurations() {
    let canvas = half_gray_canvas(10);
    let good = p7_config();
    let cache = p7_cache(&good, &canvas);

    // no legal offset exists: pin_count <= 2 * min_distance
    let mut no_offsets = good;
    no_offsets.pin_count = 4;
    let layout = PinLayout::new(circle_pins(4, 10)).expect("pins in range");
    let small_cache = precalculate_all_potential_lines(&canvas, &layout, &no_offsets);
    assert_eq!(
        tabu::calculate_lines(&canvas, &small_cache, &no_offsets),
        Err(SolverError::InvalidConfig)
    );

    // nothing to draw
    let mut no_lines = good;
    no_lines.line_count = 0;
    assert_eq!(
        tabu::calculate_lines(&canvas, &cache, &no_lines),
        Err(SolverError::InvalidConfig)
    );

    // the tabu window could swallow the whole candidate set
    let mut wide_window = good;
    wide_window.tabu_window = 4;
    assert_eq!(
        tabu::calculate_lines(&canvas, &cache, &wide_window),
        Err(SolverError::InvalidConfig)
    );
}

#[test]
fn tabu_memory_keeps_its_window_and_evicts_oldest() {
    let mut m = TabuMemory::new(2);
    m.push(1);
    assert!(m.contains(1));
    m.push(2);
    m.push(3);
    // capacity two: pin 1 (the oldest) has been evicted
    assert!(!m.contains(1));
    assert!(m.contains(2));
    assert!(m.contains(3));
    assert!(m.items.len() <= 2);
}

#[test]
fn tabu_never_repeats_a_recent_pin() {
    let mut cfg = p7_config();
    cfg.line_count = 10;
    let canvas = half_gray_canvas(10);
    let cache = p7_cache(&cfg, &canvas);
    let seq = tabu::calculate_lines(&canvas, &cache, &cfg).expect("run succeeds");
    // replay the tabu window by hand: a chosen pin is never inside the
    // window observed just before its step
    let mut window: Vec<usize> = Vec::new();
    for &p in seq.iter().skip(1) {
        assert!(!window.contains(&p));
        window.insert(0, p);
        window.truncate(cfg.tabu_window);
    }
}

#[test]
fn draw_lines_renders_exactly_one_weight_per_visit() {
    let cfg = p7_config();
    let canvas = half_gray_canvas(10);
    let cache = p7_cache(&cfg, &canvas);
    let seq = vec![0usize, 3usize];
    let out = draw_lines(&seq, &cache, &cfg);
    // the chord from pin 0 to pin 3 gathers 9 samples on this layout; each
    // visit subtracts one weight from the white canvas
    let expected = 100 * (UNIT as i128) - 9 * (cfg.line_weight as i128);
    assert_eq!(out.sum_abs(), expected);
}

#[test]
fn fitness_counts_every_sample_subtraction() {
    let cfg = p7_config();
    let canvas = half_gray_canvas(10);
    let cache = p7_cache(&cfg, &canvas);
    let chromosome = vec![0usize, 3usize];
    let f = genetic::calculate_fitness(&chromosome, &canvas, &cache, &cfg);
    // residual starts at UNIT/2 everywhere; the chord's 9 visits each take
    // one weight and stay above zero, so the clamp never engages
    let expected = -(100 * (UNIT as i128) / 2 - 9 * (cfg.line_weight as i128));
    assert_eq!(f, expected);
}

#[test]
fn genetic_runs_and_keeps_the_output_shape() {
    let cfg = p7_config();
    let canvas = half_gray_canvas(10);
    let cache = p7_cache(&cfg, &canvas);
    let mut rng = rand::rngs::StdRng::seed_from_u64(7);
    let seq = genetic::calculate_lines(&canvas, &cache, None, &cfg, &mut rng)
        .expect("run succeeds");
    assert_eq!(seq.len(), cfg.line_count + 1);
    assert_eq!(seq[0], cfg.start);
    for &p in seq.iter() {
        assert!(p < cfg.pin_count);
    }
}

#[test]
fn genetic_is_deterministic_for_a_fixed_seed() {
    let cfg = p7_config();
    let canvas = half_gray_canvas(10);
    let cache = p7_cache(&cfg, &canvas);
    let mut rng1 = rand::rngs::StdRng::seed_from_u64(99);
    let a = genetic::calculate_lines(&canvas, &cache, None, &cfg, &mut rng1)
        .expect("run succeeds");
    let mut rng2 = rand::rngs::StdRng::seed_from_u64(99);
    let b = genetic::calculate_lines(&canvas, &cache, None, &cfg, &mut rng2)
        .expect("run succeeds");
    assert_eq!(a, b);
}

#[test]
fn genetic_rejects_an_empty_population() {
    let mut cfg = p7_config();
    cfg.population_size = 0;
    let canvas = half_gray_canvas(10);
    let cache = p7_cache(&p7_config(), &canvas);
    let mut rng = rand::rngs::StdRng::seed_from_u64(1);
    assert_eq!(
        genetic::calculate_lines(&canvas, &cache, None, &cfg, &mut rng),
        Err(SolverError::InvalidConfig)
    );
}

#[test]
fn genetic_accepts_a_tabu_seed() {
    let cfg = p7_config();
    let canvas = half_gray_canvas(10);
    let cache = p7_cache(&cfg, &canvas);
    let seed = tabu::calculate_lines(&canvas, &cache, &cfg).expect("tabu succeeds");
    let mut rng = rand::rngs::StdRng::seed_from_u64(5);
    let seq = genetic::calculate_lines(&canvas, &cache, Some(seed), &cfg, &mut rng)
        .expect("run succeeds");
    assert_eq!(seq.len(), cfg.line_count + 1);
    assert_eq!(seq[0], cfg.start);
}

#[test]
fn initial_population_respects_the_walk_constraints() {
    let cfg = p7_config();
    let mut rng = rand::rngs::StdRng::seed_from_u64(3);
    let pop = genetic::initialize_population(&cfg, &mut rng);
    assert_eq!(pop.len(), cfg.population_size);
    for chrom in pop.iter() {
        assert_eq!(chrom.len(), cfg.line_count + 1);
        assert_eq!(chrom[0], cfg.start);
        for w in chrom.windows(2) {
            assert!(circ_dist_exec(w[0], w[1], cfg.pin_count) >= cfg.min_distance);
        }
    }
}

#[test]
fn splice_copies_the_middle_range_from_the_first_parent() {
    let p1 = vec![1usize, 2, 3, 4, 5];
    let p2 = vec![9usize, 8, 7, 6, 5];
    let child = genetic::splice(&p1, &p2, 1, 3);
    assert_eq!(child, vec![9, 2, 3, 6, 5]);
    let all_second = genetic::splice(&p1, &p2, 0, 0);
    assert_eq!(all_second, p2);
    let all_first = genetic::splice(&p1, &p2, 0, 5);
    assert_eq!(all_first, p1);
}

#[test]
fn crossover_child_takes_every_pin_from_a_parent() {
    let cfg = p7_config();
    let mut rng = rand::rngs::StdRng::seed_from_u64(11);
    let pop = genetic::initialize_population(&cfg, &mut rng);
    let child = genetic::crossover(&pop[0], &pop[1], &mut rng);
    assert_eq!(child.len(), pop[0].len());
    for i in 0..child.len() {
        assert!(child[i] == pop[0][i] || child[i] == pop[1][i]);
    }
}

#[test]
fn mutate_changes_exactly_one_later_position() {
    let cfg = p7_config();
    let mut rng = rand::rngs::StdRng::seed_from_u64(13);
    let chrom = vec![0usize, 2, 4, 6];
    let m = genetic::mutate(&chrom, &cfg, &mut rng);
    assert_eq!(m.len(), chrom.len());
    assert_eq!(m[0], chrom[0]);
    let changed: Vec<usize> = (0..m.len()).filter(|&i| m[i] != chrom[i]).collect();
    assert!(changed.len() <= 1);
    if let Some(&i) = changed.first() {
        assert!(i >= 1);
        assert!(m[i] < cfg.pin_count);
        // the constrained policy keeps the mutated pin a legal step from
        // its predecessor
        assert!(circ_dist_exec(chrom[i - 1], m[i], cfg.pin_count) >= cfg.min_distance);
    }
}

#[test]
fn best_index_selection_prefers_the_first_maximum() {
    let fitness = vec![-5i128, -1, -3, -1];
    assert_eq!(genetic::select_best_index(&fitness), 1);
    let draws = vec![0usize, 2, 3, 1];
    // among the drawn indices, index 2 (fitness -3) loses to 3 and 1
    // (fitness -1); the first drawn maximum wins
    assert_eq!(genetic::pick_best_of(&fitness, &draws), 3);
}

#[test]
fn tournament_picks_a_valid_index() {
    let fitness = vec![-5i128, -1, -3];
    let mut rng = rand::rngs::StdRng::seed_from_u64(17);
    for _ in 0..20 {
        let idx = genetic::tournament_selection(&fitness, 3, &mut rng);
        assert!(idx < fitness.len());
    }
}

#[test]
fn rand_from_jitters_within_the_documented_bounds() {
    let base = p7_config();
    let mut rng = rand::rngs::StdRng::seed_from_u64(23);
    for _ in 0..50 {
        let c = Config::rand_from(&base, &mut rng);
        assert_eq!(c.pin_count, base.pin_count);
        assert_eq!(c.line_count, base.line_count);
        assert!(c.start < c.pin_count);
        assert!(base.line_weight * 750 / 1000 <= c.line_weight);
        assert!(c.line_weight <= base.line_weight * 1250 / 1000);
        assert!(base.min_distance * 500 / 1000 <= c.min_distance);
        assert!(c.min_distance <= base.min_distance * 1500 / 1000);
        assert!(c.tabu_window <= base.tabu_window * 1500 / 1000);
    }
}
