use string_art::canvas::Canvas;
use string_art::config::{ClampPolicy, Config, MutationPolicy};
use string_art::coord::Coord;
use string_art::line_cache::{precalculate_all_potential_lines, PinLayout};
use string_art::{COORD_SCALE, MAX_COORD, UNIT};

/// N pins evenly spaced on a circle inscribed in a size-by-size canvas,
/// converted to fixed-point coordinates.
fn circle_pins(n: usize, size: usize) -> Vec<Coord> {
    let center = size as f64 / 2.0;
    let radius = (size / 2) as f64 - 1.0;
    (0..n)
        .map(|i| {
            let angle = 2.0 * std::f64::consts::PI * i as f64 / n as f64;
            let x = (center + radius * angle.cos()) * COORD_SCALE as f64;
            let y = (center + radius * angle.sin()) * COORD_SCALE as f64;
            Coord { x: x.round().max(0.0) as u64, y: y.round().max(0.0) as u64 }
        })
        .collect()
}

fn base_config() -> Config {
    Config {
        pin_count: 8,
        line_count: 3,
        line_weight: UNIT / 10,
        min_distance: 2,
        tabu_window: 3,
        start: 0,
        population_size: 4,
        crossover_rate: 0,
        mutation_rate: 0,
        generations: 1,
        mutation_policy: MutationPolicy::ConstrainedOffset,
        clamp_policy: ClampPolicy::ClampedAtZero,
    }
}

#[test]
fn chord_is_symmetric_as_a_set_with_pinned_endpoints() {
    let canvas = Canvas::new(10, UNIT);
    let pins = circle_pins(8, 10);
    let p0 = pins[0];
    let p3 = pins[3];
    let fwd = canvas.line_space_coord(p0, p3);
    let bwd = canvas.line_space_coord(p3, p0);
    assert_eq!(fwd.len(), bwd.len());
    let m = fwd.len();
    for k in 0..m {
        assert_eq!(bwd[k], fwd[m - 1 - k]);
    }
    // first and last samples are the clamped pixel coordinates of the pins
    assert_eq!(fwd[0], p0.round());
    assert_eq!(fwd[m - 1], p3.round());
    // same set of pixels
    let mut fs: Vec<_> = fwd.iter().map(|p| (p.x, p.y)).collect();
    let mut bs: Vec<_> = bwd.iter().map(|p| (p.x, p.y)).collect();
    fs.sort();
    bs.sort();
    assert_eq!(fs, bs);
}

#[test]
fn chord_between_equal_coordinates_is_one_pixel() {
    let canvas = Canvas::new(10, UNIT);
    let p = Coord { x: 5 * COORD_SCALE, y: 5 * COORD_SCALE };
    let samples = canvas.line_space_coord(p, p);
    assert_eq!(samples.len(), 1);
    assert_eq!(samples[0].x, 5);
    assert_eq!(samples[0].y, 5);
}

#[test]
fn cache_shares_one_entry_per_unordered_pair() {
    let canvas = Canvas::new(10, UNIT);
    let layout = PinLayout::new(circle_pins(8, 10)).expect("pins in range");
    let cfg = base_config();
    let cache = precalculate_all_potential_lines(&canvas, &layout, &cfg);
    let ab = cache.get(0, 3);
    let ba = cache.get(3, 0);
    assert_eq!(ab.len(), ba.len());
    for k in 0..ab.len() {
        assert_eq!(ab[k], ba[k]);
    }
    // every sample lies inside the canvas
    for p in ab.iter() {
        assert!(p.x < 10 && p.y < 10);
    }
    assert!(ab.len() >= 1);
}

#[test]
fn pin_layout_rejects_out_of_range_coordinates() {
    assert!(PinLayout::new(vec![Coord { x: 0, y: 0 }]).is_some());
    assert!(PinLayout::new(vec![Coord { x: MAX_COORD + 1, y: 0 }]).is_none());
    assert!(PinLayout::new(vec![Coord { x: 0, y: MAX_COORD + 1 }]).is_none());
}
