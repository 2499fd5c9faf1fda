use string_art::canvas::Canvas;
use string_art::config::ClampPolicy;
use string_art::coord::{Coord, Pixel};
use string_art::{COORD_SCALE, UNIT};

fn uniform_canvas(size: usize, value: i64) -> Canvas {
    let values = vec![value; size * size];
    Canvas::from(values, size).expect("valid canvas")
}

#[test]
fn canvas_new_fills_every_pixel() {
    let c = Canvas::new(4, 7);
    for y in 0..4usize {
        for x in 0..4usize {
            assert_eq!(c.get_pixel(Pixel { x, y }), 7);
        }
    }
}

#[test]
fn canvas_from_rejects_bad_inputs() {
    assert!(Canvas::from(vec![0i64; 9], 3).is_some());
    // wrong buffer length
    assert!(Canvas::from(vec![0i64; 8], 3).is_none());
    // zero size
    assert!(Canvas::from(vec![], 0).is_none());
    // a value above white
    assert!(Canvas::from(vec![0, 0, 0, UNIT + 1], 2).is_none());
    // a negative value
    assert!(Canvas::from(vec![0, 0, 0, -1], 2).is_none());
}

#[test]
fn canvas_invert_flips_values() {
    let mut c = Canvas::from(vec![0, UNIT, UNIT / 4, UNIT / 2], 2).expect("valid");
    c.invert();
    assert_eq!(c.get_pixel(Pixel { x: 0, y: 0 }), UNIT);
    assert_eq!(c.get_pixel(Pixel { x: 1, y: 0 }), 0);
    assert_eq!(c.get_pixel(Pixel { x: 0, y: 1 }), UNIT - UNIT / 4);
    assert_eq!(c.get_pixel(Pixel { x: 1, y: 1 }), UNIT / 2);
}

#[test]
fn canvas_sum_abs_exact() {
    let c = Canvas::from(vec![1, 2, 3, 4], 2).expect("valid");
    assert_eq!(c.sum_abs(), 10);
    let u = uniform_canvas(10, UNIT / 2);
    assert_eq!(u.sum_abs(), 100 * (UNIT as i128) / 2);
}

#[test]
fn apply_chord_subtracts_at_each_visit() {
    let mut c = uniform_canvas(3, 100);
    // the same pixel twice: the subtraction applies twice
    let pts = vec![Pixel { x: 1, y: 1 }, Pixel { x: 1, y: 1 }, Pixel { x: 0, y: 2 }];
    c.apply_chord(&pts, 30, ClampPolicy::Unclamped);
    assert_eq!(c.get_pixel(Pixel { x: 1, y: 1 }), 40);
    assert_eq!(c.get_pixel(Pixel { x: 0, y: 2 }), 70);
    assert_eq!(c.get_pixel(Pixel { x: 0, y: 0 }), 100);
}

#[test]
fn clamped_policy_floors_at_zero_unclamped_goes_negative() {
    let mut a = uniform_canvas(2, 50);
    let pts = vec![Pixel { x: 0, y: 0 }];
    a.apply_chord(&pts, 80, ClampPolicy::ClampedAtZero);
    assert_eq!(a.get_pixel(Pixel { x: 0, y: 0 }), 0);
    let mut b = uniform_canvas(2, 50);
    b.apply_chord(&pts, 80, ClampPolicy::Unclamped);
    assert_eq!(b.get_pixel(Pixel { x: 0, y: 0 }), -30);
}

#[test]
fn clamped_commit_never_increases_total_residual() {
    let mut c = uniform_canvas(3, 90);
    let before = c.sum_abs();
    let pts = vec![
        Pixel { x: 0, y: 0 },
        Pixel { x: 1, y: 1 },
        Pixel { x: 1, y: 1 },
        Pixel { x: 2, y: 2 },
    ];
    c.apply_chord(&pts, 60, ClampPolicy::ClampedAtZero);
    let after = c.sum_abs();
    assert!(after <= before);
    // pixel (1,1) was hit twice and floored at zero, not driven negative
    assert_eq!(c.get_pixel(Pixel { x: 1, y: 1 }), 0);
}

#[test]
fn unclamped_step_moves_a_pixel_by_at_most_one_weight() {
    let mut c = uniform_canvas(2, 10);
    let before = c.get_pixel(Pixel { x: 1, y: 1 });
    c.apply_chord(&vec![Pixel { x: 1, y: 1 }], 25, ClampPolicy::Unclamped);
    let after = c.get_pixel(Pixel { x: 1, y: 1 });
    assert!(after.abs() <= before.abs() + 25);
    assert_eq!(after, -15);
}

#[test]
fn set_pixel_overwrites_one_value() {
    let mut c = uniform_canvas(2, 10);
    c.set_pixel(Pixel { x: 1, y: 0 }, -4);
    assert_eq!(c.get_pixel(Pixel { x: 1, y: 0 }), -4);
    assert_eq!(c.get_pixel(Pixel { x: 0, y: 0 }), 10);
    assert_eq!(c.sum_abs(), 34);
}

#[test]
fn coord_round_rounds_half_up() {
    let c = Coord { x: COORD_SCALE + COORD_SCALE / 2, y: COORD_SCALE / 2 };
    let p = c.round();
    assert_eq!(p.x, 2);
    assert_eq!(p.y, 1);
    let d = Coord { x: COORD_SCALE / 2 - 1, y: 0 };
    let q = d.round();
    assert_eq!(q.x, 0);
    assert_eq!(q.y, 0);
}

#[test]
fn distance_squared_exact() {
    let a = Coord { x: 0, y: 0 };
    let b = Coord { x: 3 * COORD_SCALE, y: 4 * COORD_SCALE };
    assert_eq!(a.distance_squared(b), 25 * COORD_SCALE * COORD_SCALE);
    assert_eq!(b.distance_squared(a), 25 * COORD_SCALE * COORD_SCALE);
    assert_eq!(a.distance_squared(a), 0);
}

#[test]
fn step_count_is_the_least_cover() {
    assert_eq!(string_art::coord::step_count(0), 0);
    assert_eq!(string_art::coord::step_count(1), 1);
    let five = 5 * COORD_SCALE;
    assert_eq!(string_art::coord::step_count(five * five), 5);
    assert_eq!(string_art::coord::step_count(five * five + 1), 6);
}
