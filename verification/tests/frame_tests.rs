//! The per-frame pipeline over whole populations: pointer passes, movement,
//! absorbing staged children, and particle aging, on concrete values.
use canvas_demos::action::{RandomDraw, Velocity};
use canvas_demos::canvas::{Boundary, Coordinate};
use canvas_demos::frame::{
    absorb_children, age_particles, apply_mouse_down_effects, apply_mouse_move_effects,
    cull_faded, move_all,
};
use canvas_demos::shapes::circle::Circle;

fn still() -> RandomDraw {
    RandomDraw { fraction_x: 0, fraction_y: 0, flip_x: false, flip_y: false }
}

fn circle_at(x: i64, y: i64, radius: i64) -> Circle {
    Circle::new(
        "#9DBC98".to_string(),
        radius,
        Coordinate::new(x, y),
        Boundary::new(2000, 2000),
        None,
    )
}

#[test]
fn split_cascade_through_the_pipeline() {
    // One circle at (50 px, 50 px), radius 10 px, cap 20 px, grow 0.5 px,
    // pointer held on its center: after enough frames the split children
    // join the population, at the parent's spot with half its final radius.
    let mut circles = vec![circle_at(500, 500, 100)];
    let mouse = Coordinate::new(500, 500);
    let mut frames = 0;
    let mut staged = Vec::new();
    while staged.is_empty() && frames < 100 {
        let draws = vec![still(); 2 * circles.len()];
        staged = apply_mouse_move_effects(&mut circles, &mouse, 200, 5, &draws);
        frames += 1;
    }
    assert_eq!(frames, 20);
    assert_eq!(staged.len(), 2);
    for child in &staged {
        assert_eq!(child.coordinate, Coordinate::new(500, 500));
        assert_eq!(child.radius, 100);
    }
    assert!(circles[0].splited);
    assert_eq!(circles[0].radius, 200);

    absorb_children(&mut circles, staged);
    assert_eq!(circles.len(), 3);
}

#[test]
fn empty_population_is_a_noop() {
    let mut circles: Vec<Circle> = Vec::new();
    let draws = Vec::new();
    let staged = apply_mouse_move_effects(&mut circles, &Coordinate::new(0, 0), 200, 5, &draws);
    assert!(staged.is_empty());
    let burst = apply_mouse_down_effects(&mut circles, &Coordinate::new(0, 0), &draws);
    assert!(burst.is_empty());
    move_all(&mut circles);
    absorb_children(&mut circles, staged);
    assert!(circles.is_empty());
}

#[test]
fn move_all_advances_every_circle() {
    let mut circles = vec![circle_at(100, 100, 10), circle_at(300, 400, 10)];
    circles[0].set_velocity(Velocity::new(5, -5));
    circles[1].set_velocity(Velocity::new(-7, 0));
    move_all(&mut circles);
    assert_eq!(circles[0].coordinate, Coordinate::new(105, 95));
    assert_eq!(circles[1].coordinate, Coordinate::new(293, 400));
}

#[test]
fn mouse_down_pass_blasts_only_circles_in_reach() {
    let near = circle_at(500, 500, 100); // init radius 10 px
    let far = circle_at(1500, 1500, 100);
    let mut circles = vec![near, far];
    let mouse = Coordinate::new(510, 510);
    let draws = vec![still(); 10 * circles.len()];
    let particles = apply_mouse_down_effects(&mut circles, &mouse, &draws);
    assert_eq!(particles.len(), 10);
    assert_eq!(circles[0].get_init_radius(), 20); // 100 / 5
    assert_eq!(circles[1].get_init_radius(), 100);
    for p in &particles {
        assert_eq!(p.radius, 20);
        assert_eq!(p.coordinate, Coordinate::new(500, 500));
    }
}

#[test]
fn one_full_frame_applies_both_pointer_passes_in_order() {
    // The hover pass runs before the pointer-down pass, so the burst comes
    // from the already-resized circle.
    let mut circles = vec![circle_at(500, 500, 100)];
    let mouse = Coordinate::new(500, 500);
    let move_draws = vec![still(); 2];
    let staged = apply_mouse_move_effects(&mut circles, &mouse, 2000, 5, &move_draws);
    assert!(staged.is_empty());
    assert_eq!(circles[0].radius, 105);

    let down_draws = vec![still(); 10];
    let burst = apply_mouse_down_effects(&mut circles, &mouse, &down_draws);
    assert_eq!(burst.len(), 10);
    // The blast reads the construction radius, untouched by the hover pass.
    assert_eq!(circles[0].get_init_radius(), 20);
    assert_eq!(burst[0].radius, 20);

    move_all(&mut circles);
    absorb_children(&mut circles, staged);
    assert_eq!(circles.len(), 1);

    let mut particles = burst;
    age_particles(&mut particles);
    assert_eq!(particles[0].opacity, 98);
    cull_faded(&mut particles);
    assert_eq!(particles.len(), 10);
}

#[test]
fn cull_removes_fully_blasted_circles_in_order() {
    let mut spent = circle_at(100, 100, 250);
    let draws = vec![still(); 10];
    spent.blast_particles(10, &draws); // init 50
    spent.blast_particles(10, &draws); // init 10: at the floor
    let keep_a = circle_at(200, 200, 40);
    let keep_b = circle_at(300, 300, 60);
    let mut circles = vec![keep_a, spent, keep_b];
    absorb_children(&mut circles, Vec::new());
    assert_eq!(circles.len(), 2);
    assert_eq!(circles[0].coordinate, Coordinate::new(200, 200));
    assert_eq!(circles[1].coordinate, Coordinate::new(300, 300));
}

#[test]
fn particles_age_and_fade_away() {
    let mut particles = vec![circle_at(100, 100, 10)];
    particles[0].set_velocity(Velocity::new(3, 4));
    for frame in 0..50 {
        age_particles(&mut particles);
        assert_eq!(particles[0].coordinate.x, 100 + 3 * (frame + 1));
        assert_eq!(particles[0].opacity, (98 - 2 * frame) as u32);
    }
    assert_eq!(particles[0].opacity, 0);
    cull_faded(&mut particles);
    assert!(particles.is_empty());
}

#[test]
fn cull_faded_keeps_live_particles() {
    let mut fresh = circle_at(10, 10, 10);
    fresh.set_velocity(Velocity::new(0, 0));
    let mut dim = circle_at(20, 20, 10);
    for _ in 0..49 {
        dim.fade_out();
    }
    let mut gone = circle_at(30, 30, 10);
    for _ in 0..50 {
        gone.fade_out();
    }
    let mut particles = vec![fresh, dim, gone];
    cull_faded(&mut particles);
    assert_eq!(particles.len(), 2);
    assert_eq!(particles[0].coordinate, Coordinate::new(10, 10));
    assert_eq!(particles[1].coordinate, Coordinate::new(20, 20));
    assert_eq!(particles[1].opacity, 2);
}
