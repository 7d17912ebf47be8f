//! Behavior of the circle agent: boundary bounces, splitting, blasting and
//! fading, all on concrete values. Geometry is in fixed-point units, ten to
//! the pixel; opacity is in hundredths.
use canvas_demos::action::{RandomDraw, Velocity};
use canvas_demos::canvas::{Boundary, Coordinate};
use canvas_demos::shapes::circle::Circle;
use canvas_demos::shapes::square::Square;

fn draw(fraction: u16, flip_x: bool, flip_y: bool) -> RandomDraw {
    RandomDraw { fraction_x: fraction, fraction_y: fraction, flip_x, flip_y }
}

fn unit_circle(radius: i64, x: i64, y: i64, velocity: Option<Velocity>) -> Circle {
    Circle::new(
        "#F9EFDB".to_string(),
        radius,
        Coordinate::new(x, y),
        Boundary::new(1000, 1000),
        velocity,
    )
}

#[test]
fn boundary_reflection() {
    // radius 5 px, at (1 px, 5 px), moving left 2 px per frame, 100 px box.
    let mut c = unit_circle(50, 10, 50, Some(Velocity::new(-20, 0)));
    c.moving();
    assert_eq!(c.coordinate.x, -10);
    assert_eq!(c.velocity.dx, 20);
    c.moving();
    assert_eq!(c.coordinate.x, 10);
    // The disk still overlaps the left wall (x - radius < 0), so the
    // post-integration reflection flips the axis again.
    assert_eq!(c.velocity.dx, -20);
    assert_eq!(c.coordinate.y, 50);
    assert_eq!(c.velocity.dy, 0);
}

#[test]
fn moving_flips_both_axes_in_one_step() {
    let mut c = unit_circle(50, 990, 990, Some(Velocity::new(30, 40)));
    c.moving();
    assert_eq!(c.coordinate.x, 1020);
    assert_eq!(c.coordinate.y, 1030);
    assert_eq!(c.velocity.dx, -30);
    assert_eq!(c.velocity.dy, -40);
}

#[test]
fn split_idempotence() {
    let mut c = unit_circle(100, 500, 500, None);
    let first = c.split_circle(draw(0, false, false), draw(65535, true, true));
    let pair = first.expect("a fresh circle splits");
    assert_eq!(pair.len(), 2);
    assert_eq!(pair[0].radius, 50);
    assert_eq!(pair[1].radius, 50);
    assert_eq!(pair[0].coordinate, c.coordinate);
    assert_eq!(pair[1].coordinate, c.coordinate);
    assert!(c.splited);

    let second = c.split_circle(draw(1, false, false), draw(2, false, false));
    assert!(second.is_none());
    assert!(c.splited);
}

#[test]
fn split_children_velocity_is_bounded_by_two_pixels() {
    let mut c = unit_circle(100, 500, 500, None);
    let pair = c.split_circle(draw(65535, true, false), draw(32768, false, true)).unwrap();
    // 65535 * 20 / 65536 = 19 (just under 2 px), negated on x by the coin.
    assert_eq!(pair[0].velocity, Velocity::new(-19, 19));
    // 32768 * 20 / 65536 = 10 (one pixel), negated on y by the coin.
    assert_eq!(pair[1].velocity, Velocity::new(10, -10));
}

#[test]
fn blast_decay() {
    // init radius 25 px.
    let mut c = unit_circle(250, 500, 500, None);
    let draws: Vec<RandomDraw> = (0..10).map(|i| draw(i * 1000, false, false)).collect();

    let burst = c.blast_particles(10, &draws);
    assert_eq!(c.get_init_radius(), 50); // 5 px
    assert_eq!(burst.len(), 10);
    for p in &burst {
        assert_eq!(p.radius, 50);
        assert_eq!(p.coordinate, c.coordinate);
    }

    let burst = c.blast_particles(10, &draws);
    assert_eq!(c.get_init_radius(), 10); // 1 px
    assert_eq!(burst.len(), 10);
    for p in &burst {
        assert_eq!(p.radius, 10);
    }

    let burst = c.blast_particles(10, &draws);
    assert_eq!(c.get_init_radius(), 10);
    assert!(burst.is_empty());
}

#[test]
fn blast_particle_velocity_is_bounded_by_five_pixels() {
    let mut c = unit_circle(250, 500, 500, None);
    let draws: Vec<RandomDraw> = (0..10).map(|_| draw(65535, false, false)).collect();
    let burst = c.blast_particles(10, &draws);
    for p in &burst {
        // 65535 * 50 / 65536 = 49: just under 5 px per frame.
        assert_eq!(p.velocity, Velocity::new(49, 49));
    }
}

#[test]
fn fade_monotonicity() {
    let mut c = unit_circle(50, 500, 500, None);
    assert!(!c.is_faded_out());
    let mut last = c.opacity;
    for _ in 0..50 {
        c.fade_out();
        assert!(c.opacity <= last);
        last = c.opacity;
    }
    assert!(c.is_faded_out());
    // Further fading keeps the opacity at its floor.
    c.fade_out();
    assert_eq!(c.opacity, 0);
}

#[test]
fn hover_grows_within_reach_and_splits_at_the_cap() {
    // One circle at (50 px, 50 px), radius 10 px, cap 20 px, grow 0.5 px,
    // pointer held on its center.
    let mut c = unit_circle(100, 500, 500, None);
    let mouse = Coordinate::new(500, 500);
    let mut spawned = None;
    let mut frames = 0;
    while spawned.is_none() && frames < 100 {
        spawned = c.mouse_move_effects(&mouse, 200, 5, draw(0, false, false), draw(0, false, false));
        frames += 1;
    }
    // (200 - 100) / 5 frames of growth reach the cap.
    assert_eq!(frames, 20);
    assert_eq!(c.radius, 200);
    assert!(c.splited);
    let children = spawned.unwrap();
    assert_eq!(children.len(), 2);
    for child in &children {
        assert_eq!(child.radius, 100);
        assert_eq!(child.coordinate, Coordinate::new(500, 500));
        assert!(!child.splited);
    }
    // The spent parent never splits again, however large it is held.
    let again = c.mouse_move_effects(&mouse, 200, 5, draw(0, false, false), draw(0, false, false));
    assert!(again.is_none());
}

#[test]
fn hover_out_of_reach_shrinks_towards_the_floor() {
    let mut c = unit_circle(100, 500, 500, None);
    c.radius = 130;
    let far = Coordinate::new(5000, 5000);
    let r = c.mouse_move_effects(&far, 2000, 5, draw(0, false, false), draw(0, false, false));
    assert!(r.is_none());
    assert_eq!(c.radius, 110);
    c.mouse_move_effects(&far, 2000, 5, draw(0, false, false), draw(0, false, false));
    // 90 would undershoot the construction radius, the shrink floor.
    assert_eq!(c.radius, 100);
    c.mouse_move_effects(&far, 2000, 5, draw(0, false, false), draw(0, false, false));
    assert_eq!(c.radius, 100);
}

#[test]
fn mouse_down_blasts_only_within_reach() {
    let mut c = unit_circle(250, 500, 500, None);
    let draws: Vec<RandomDraw> = (0..10).map(|_| draw(100, false, false)).collect();

    let far = Coordinate::new(1100, 500); // 60 px away on x
    assert!(c.mouse_down_effects(&far, &draws).is_none());
    assert_eq!(c.get_init_radius(), 250);

    let near = Coordinate::new(990, 500); // 49 px away on x
    let burst = c.mouse_down_effects(&near, &draws).expect("in reach: a burst");
    assert_eq!(burst.len(), 10);
    assert_eq!(c.get_init_radius(), 50);
}

#[test]
fn random_velocity_scales_the_envelope() {
    let v = Velocity::get_random_velocity(
        20,
        RandomDraw { fraction_x: 32768, fraction_y: 65535, flip_x: false, flip_y: true },
    );
    assert_eq!(v.dx, 10);
    assert_eq!(v.dy, -19);

    let zero = Velocity::get_random_velocity(20, draw(0, true, true));
    assert_eq!(zero, Velocity::new(0, 0));
}

#[test]
fn random_velocity_within_shares_one_coin() {
    let enveloped = Velocity::get_random_velocity_within(
        Some(Velocity::new(100, 40)),
        RandomDraw { fraction_x: 32768, fraction_y: 32768, flip_x: true, flip_y: false },
    );
    // Both axes are negated together by the single shared flip.
    assert_eq!(enveloped, Velocity::new(-50, -20));

    let defaulted = Velocity::get_random_velocity_within(
        None,
        RandomDraw { fraction_x: 65535, fraction_y: 65535, flip_x: false, flip_y: true },
    );
    // The default envelope is 2 px per axis.
    assert_eq!(defaulted, Velocity::new(19, 19));
}

#[test]
fn new_circle_defaults() {
    let c = unit_circle(70, 30, 40, None);
    assert_eq!(c.radius, 70);
    assert_eq!(c.get_init_radius(), 70);
    assert_eq!(c.velocity, Velocity::new(0, 0));
    assert_eq!(c.opacity, 100);
    assert!(!c.splited);

    let mut c = c;
    c.set_velocity(Velocity::new(7, -3));
    assert_eq!(c.velocity, Velocity::new(7, -3));
}

#[test]
fn square_holds_its_side() {
    let s = Square::new(1000);
    assert_eq!(s.side, 1000);
}
