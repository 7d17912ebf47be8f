//! The circle agent: a colored disk that bounces inside a boundary and
//! reacts to the pointer by growing, shrinking, splitting in two, or
//! bursting into short-lived fading particles.
//!
//! Geometry is in fixed-point units (`SUBPIXELS` units per pixel); opacity is
//! in hundredths, from `OPACITY_FULL` down to zero. The construction radius
//! (`init_radius`) is the shrink floor of the hover reaction and the source
//! magnitude of a blast.
use vstd::prelude::*;

use crate::action::{drawn_component, RandomDraw, Velocity};
use crate::canvas::{Boundary, Coordinate};
use crate::SUBPIXELS;

verus! {

/// Full opacity, in hundredths: the value every circle starts with.
pub const OPACITY_FULL: u32 = 100;

/// How much one `fade_out` call takes off the opacity: two hundredths.
pub const FADE_STEP: u32 = 2;

/// Half-width of the square pointer reach: 50 pixels on each axis.
pub const HOVER_RANGE: i64 = 50 * SUBPIXELS;

/// How much one out-of-reach hover takes off the radius: 2 pixels.
pub const SHRINK_STEP: i64 = 2 * SUBPIXELS;

/// Magnitude envelope of a split child's random velocity: 2 pixels per frame.
pub const SPLIT_VELOCITY_MAX: i64 = 2 * SUBPIXELS;

/// Magnitude envelope of a blast particle's random velocity: 5 pixels per frame.
pub const BLAST_VELOCITY_MAX: i64 = 5 * SUBPIXELS;

/// Each blast divides the source magnitude by this factor.
pub const BLAST_DECAY: i64 = 5;

/// A circle whose source magnitude is at or under 1 pixel is fully blasted:
/// it emits nothing more and the frame loop culls it.
pub const BLAST_FLOOR: i64 = 1 * SUBPIXELS;

/// A circular agent owned by a demo's frame loop.
#[derive(Clone, Debug)]
pub struct Circle {
    pub color: String,
    pub init_radius: i64,
    pub radius: i64,
    pub coordinate: Coordinate,
    pub boundary: Boundary,
    pub velocity: Velocity,
    pub splited: bool,
    pub opacity: u32,
}

impl Circle {
    /// The invariant every circle keeps: radii never go negative, opacity
    /// stays within its scale, and the boundary is a real rectangle.
    pub open spec fn wf(self) -> bool {
        &&& self.radius >= 0
        &&& self.init_radius >= 0
        &&& self.opacity <= OPACITY_FULL
        &&& self.boundary.width > 0
        &&& self.boundary.height > 0
    }

    /// Whether the pointer at `mouse` is within reach of `c`: strictly less
    /// than `HOVER_RANGE` away on both axes.
    pub open spec fn within_hover(c: Circle, mouse: Coordinate) -> bool {
        &&& mouse.x - c.coordinate.x < HOVER_RANGE
        &&& mouse.x - c.coordinate.x > -HOVER_RANGE
        &&& mouse.y - c.coordinate.y < HOVER_RANGE
        &&& mouse.y - c.coordinate.y > -HOVER_RANGE
    }

    /// The radius a hover reaction leaves behind: grow by `grow_step` while
    /// the pointer is in reach and the cap is not hit; shrink by `SHRINK_STEP`
    /// towards the construction-radius floor while the pointer is out of
    /// reach and the circle is enlarged; otherwise leave it alone.
    pub open spec fn hover_resized_radius(
        c: Circle,
        mouse: Coordinate,
        max_radius: i64,
        grow_step: i64,
    ) -> int {
        if Self::within_hover(c, mouse) && c.radius < max_radius {
            c.radius + grow_step
        } else if !Self::within_hover(c, mouse) && c.radius > c.init_radius {
            if c.radius - SHRINK_STEP >= c.init_radius {
                c.radius - SHRINK_STEP
            } else {
                c.init_radius as int
            }
        } else {
            c.radius as int
        }
    }

    /// One child of a split of `p`: half the parent's radius, the parent's
    /// color and position, and a random velocity from `draw` under the
    /// `SPLIT_VELOCITY_MAX` envelope.
    pub open spec fn split_child(p: Circle, draw: RandomDraw) -> Circle {
        Circle {
            color: p.color,
            init_radius: (p.radius / 2) as i64,
            radius: (p.radius / 2) as i64,
            coordinate: p.coordinate,
            boundary: p.boundary,
            velocity: Velocity {
                dx: drawn_component(draw.fraction_x, draw.flip_x, SPLIT_VELOCITY_MAX) as i64,
                dy: drawn_component(draw.fraction_y, draw.flip_y, SPLIT_VELOCITY_MAX) as i64,
            },
            splited: false,
            opacity: OPACITY_FULL,
        }
    }

    /// Whether a circle can still split: each circle splits at most once.
    pub open spec fn can_split(c: Circle) -> bool {
        !c.splited
    }

    /// The circle a split leaves behind: only the spent flag changes.
    pub open spec fn after_split(c: Circle) -> Circle {
        Circle { splited: true, ..c }
    }

    /// Whether a circle is fully blasted and yields no more particles.
    pub open spec fn blast_drained(c: Circle) -> bool {
        c.init_radius <= BLAST_FLOOR
    }

    /// The circle a productive blast leaves behind: the source magnitude
    /// drops by `BLAST_DECAY`; everything else stays.
    pub open spec fn after_blast(c: Circle) -> Circle {
        Circle { init_radius: (c.init_radius / BLAST_DECAY) as i64, ..c }
    }

    /// One particle of a blast of `c`: radius equal to the decayed source
    /// magnitude, the parent's color and position, and a random velocity from
    /// `draw` under the `BLAST_VELOCITY_MAX` envelope.
    pub open spec fn blast_particle(c: Circle, draw: RandomDraw) -> Circle {
        Circle {
            color: c.color,
            init_radius: (c.init_radius / BLAST_DECAY) as i64,
            radius: (c.init_radius / BLAST_DECAY) as i64,
            coordinate: c.coordinate,
            boundary: c.boundary,
            velocity: Velocity {
                dx: drawn_component(draw.fraction_x, draw.flip_x, BLAST_VELOCITY_MAX) as i64,
                dy: drawn_component(draw.fraction_y, draw.flip_y, BLAST_VELOCITY_MAX) as i64,
            },
            splited: false,
            opacity: OPACITY_FULL,
        }
    }

    /// The circle one movement step leaves: the position advanced by one
    /// frame of velocity, and each axis velocity reflected where the moved
    /// disk overruns that axis' walls.
    pub open spec fn moved(c: Circle) -> Circle {
        let nx = (c.coordinate.x + c.velocity.dx) as i64;
        let ny = (c.coordinate.y + c.velocity.dy) as i64;
        let ndx = if nx + c.radius > c.boundary.width || nx - c.radius < 0 {
            (-c.velocity.dx) as i64
        } else {
            c.velocity.dx
        };
        let ndy = if ny + c.radius > c.boundary.height || ny - c.radius < 0 {
            (-c.velocity.dy) as i64
        } else {
            c.velocity.dy
        };
        Circle {
            coordinate: Coordinate { x: nx, y: ny },
            velocity: Velocity { dx: ndx, dy: ndy },
            ..c
        }
    }

    /// The opacity one fade step leaves: `FADE_STEP` less, stopping at zero.
    pub open spec fn faded_once(o: int) -> int {
        if o >= FADE_STEP {
            o - FADE_STEP
        } else {
            0
        }
    }

    /// The opacity `n` fade steps leave, starting from `o`.
    pub open spec fn faded_opacity(o: int, n: nat) -> int
        decreases n,
    {
        if n == 0 {
            o
        } else {
            Self::faded_once(Self::faded_opacity(o, (n - 1) as nat))
        }
    }

    pub fn new(
        color: String,
        radius: i64,
        coordinate: Coordinate,
        boundary: Boundary,
        velocity: Option<Velocity>,
    ) -> (c: Circle)
        requires
            radius >= 0,
            boundary.width > 0,
            boundary.height > 0,
        ensures
            c == (Circle {
                color,
                init_radius: radius,
                radius,
                coordinate,
                boundary,
                velocity: match velocity {
                    Some(v) => v,
                    None => Velocity { dx: 0, dy: 0 },
                },
                splited: false,
                opacity: OPACITY_FULL,
            }),
            c.wf(),
    {
        Circle {
            color,
            init_radius: radius,
            radius,
            coordinate,
            boundary,
            velocity: match velocity {
                Some(v) => v,
                None => Velocity { dx: 0, dy: 0 },
            },
            splited: false,
            opacity: OPACITY_FULL,
        }
    }

    /// Integrate the position by one frame of velocity, then reflect the
    /// velocity on each axis whose wall the disk has overrun. The position is
    /// not corrected back inside: a disk that still overlaps a wall after the
    /// next step reflects again.
    pub fn moving(&mut self)
        requires
            old(self).wf(),
            old(self).coordinate.x + old(self).velocity.dx - old(self).radius >= i64::MIN,
            old(self).coordinate.x + old(self).velocity.dx + old(self).radius <= i64::MAX,
            old(self).coordinate.y + old(self).velocity.dy - old(self).radius >= i64::MIN,
            old(self).coordinate.y + old(self).velocity.dy + old(self).radius <= i64::MAX,
            old(self).velocity.dx > i64::MIN,
            old(self).velocity.dy > i64::MIN,
        ensures
            final(self).coordinate.x == old(self).coordinate.x + old(self).velocity.dx,
            final(self).coordinate.y == old(self).coordinate.y + old(self).velocity.dy,
            final(self).velocity.dx == if final(self).coordinate.x + old(self).radius
                > old(self).boundary.width || final(self).coordinate.x - old(self).radius < 0 {
                -old(self).velocity.dx as int
            } else {
                old(self).velocity.dx as int
            },
            final(self).velocity.dy == if final(self).coordinate.y + old(self).radius
                > old(self).boundary.height || final(self).coordinate.y - old(self).radius < 0 {
                -old(self).velocity.dy as int
            } else {
                old(self).velocity.dy as int
            },
            final(self).color == old(self).color,
            final(self).radius == old(self).radius,
            final(self).init_radius == old(self).init_radius,
            final(self).boundary == old(self).boundary,
            final(self).splited == old(self).splited,
            final(self).opacity == old(self).opacity,
            *final(self) == Self::moved(*old(self)),
            final(self).wf(),
    {
        self.coordinate.x = self.coordinate.x + self.velocity.dx;
        self.coordinate.y = self.coordinate.y + self.velocity.dy;

        let x_hit = self.coordinate.x + self.radius > self.boundary.width
            || self.coordinate.x - self.radius < 0;
        let y_hit = self.coordinate.y + self.radius > self.boundary.height
            || self.coordinate.y - self.radius < 0;

        if x_hit {
            self.velocity.dx = -self.velocity.dx;
        }
        if y_hit {
            self.velocity.dy = -self.velocity.dy;
        }
    }

    /// Split a circle that has not split before into two children of half its
    /// radius, leaving the parent in place but spent. A spent circle yields
    /// nothing.
    pub fn split_circle(&mut self, draw_a: RandomDraw, draw_b: RandomDraw) -> (children: Option<
        Vec<Circle>,
    >)
        requires
            old(self).wf(),
        ensures
            *final(self) == Self::after_split(*old(self)),
            children is Some <==> Self::can_split(*old(self)),
            children matches Some(cs) ==> cs@ =~= seq![
                Self::split_child(*old(self), draw_a),
                Self::split_child(*old(self), draw_b),
            ],
            final(self).wf(),
    {
        if self.splited {
            return None;
        }

        self.splited = true;

        let new_radius = self.radius / 2;

        let circle_a = Circle::new(
            self.color.clone(),
            new_radius,
            self.coordinate,
            self.boundary,
            Some(Velocity::get_random_velocity(SPLIT_VELOCITY_MAX, draw_a)),
        );
        let circle_b = Circle::new(
            self.color.clone(),
            new_radius,
            self.coordinate,
            self.boundary,
            Some(Velocity::get_random_velocity(SPLIT_VELOCITY_MAX, draw_b)),
        );
        Some(vec![circle_a, circle_b])
    }

    /// Burst into `num_of_particles` identical particles at the current
    /// position, one random velocity each, while decaying the source
    /// magnitude; a fully blasted circle yields an empty burst.
    pub fn blast_particles(&mut self, num_of_particles: u16, draws: &Vec<RandomDraw>) -> (particles:
        Vec<Circle>)
        requires
            old(self).wf(),
            draws@.len() == num_of_particles as int,
        ensures
            Self::blast_drained(*old(self)) ==> *final(self) == *old(self) && particles@.len()
                == 0,
            !Self::blast_drained(*old(self)) ==> {
                &&& *final(self) == Self::after_blast(*old(self))
                &&& particles@.len() == num_of_particles as int
                &&& forall|i: int|
                    0 <= i < num_of_particles as int ==> particles@[i] == Self::blast_particle(
                        *old(self),
                        draws@[i],
                    )
            },
            final(self).wf(),
    {
        if self.init_radius <= BLAST_FLOOR {
            return Vec::new();
        }

        let new_radius = self.init_radius / BLAST_DECAY;
        self.init_radius = new_radius;

        let ghost pre = *old(self);
        let mut particles: Vec<Circle> = Vec::new();
        let mut i: usize = 0;
        while i < num_of_particles as usize
            invariant
                i <= num_of_particles as int,
                draws@.len() == num_of_particles as int,
                pre.wf(),
                !Self::blast_drained(pre),
                *self == Self::after_blast(pre),
                new_radius == pre.init_radius / BLAST_DECAY,
                particles@.len() == i as int,
                forall|j: int|
                    0 <= j < i as int ==> particles@[j] == Self::blast_particle(pre, draws@[j]),
            decreases num_of_particles as int - i as int,
        {
            let particle = Circle::new(
                self.color.clone(),
                new_radius,
                self.coordinate,
                self.boundary,
                Some(Velocity::get_random_velocity(BLAST_VELOCITY_MAX, draws[i])),
            );
            particles.push(particle);
            i = i + 1;
        }
        particles
    }

    /// Take one fade step off the opacity; it never goes below zero, so the
    /// opacity is non-increasing over any run of calls.
    pub fn fade_out(&mut self)
        ensures
            final(self).opacity == Self::faded_once(old(self).opacity as int),
            final(self).opacity <= old(self).opacity,
            *final(self) == (Circle { opacity: final(self).opacity, ..*old(self) }),
    {
        if self.opacity >= FADE_STEP {
            self.opacity = self.opacity - FADE_STEP;
        } else {
            self.opacity = 0;
        }
    }

    pub fn is_faded_out(&self) -> (faded: bool)
        ensures
            faded == (self.opacity == 0),
    {
        self.opacity == 0
    }

    pub fn get_init_radius(&self) -> (r: i64)
        ensures
            r == self.init_radius,
    {
        self.init_radius
    }

    pub fn set_velocity(&mut self, velocity: Velocity)
        ensures
            *final(self) == (Circle { velocity, ..*old(self) }),
    {
        self.velocity = velocity;
    }

    /// React to the pointer's position: resize the radius as
    /// `hover_resized_radius` says, then split once the radius has reached
    /// `max_radius`. Returns the split children, if the reaction split.
    pub fn mouse_move_effects(
        &mut self,
        mouse_coordinate: &Coordinate,
        max_radius: i64,
        grow_step: i64,
        draw_a: RandomDraw,
        draw_b: RandomDraw,
    ) -> (children: Option<Vec<Circle>>)
        requires
            old(self).wf(),
            0 < grow_step,
            0 < max_radius,
            max_radius + grow_step <= i64::MAX,
            i64::MIN <= mouse_coordinate.x - old(self).coordinate.x <= i64::MAX,
            i64::MIN <= mouse_coordinate.y - old(self).coordinate.y <= i64::MAX,
        ensures
            final(self).radius == Self::hover_resized_radius(
                *old(self),
                *mouse_coordinate,
                max_radius,
                grow_step,
            ),
            final(self).splited == (old(self).splited || final(self).radius >= max_radius),
            final(self).color == old(self).color,
            final(self).init_radius == old(self).init_radius,
            final(self).coordinate == old(self).coordinate,
            final(self).boundary == old(self).boundary,
            final(self).velocity == old(self).velocity,
            final(self).opacity == old(self).opacity,
            ({
                let resized = Circle {
                    radius: final(self).radius,
                    ..*old(self)
                };
                &&& children is Some <==> (final(self).radius >= max_radius && Self::can_split(
                    *old(self),
                ))
                &&& children matches Some(cs) ==> cs@ =~= seq![
                    Self::split_child(resized, draw_a),
                    Self::split_child(resized, draw_b),
                ]
            }),
            final(self).wf(),
    {
        let x_distance = mouse_coordinate.x - self.coordinate.x;
        let y_distance = mouse_coordinate.y - self.coordinate.y;

        let within = x_distance < HOVER_RANGE && x_distance > -HOVER_RANGE && y_distance
            < HOVER_RANGE && y_distance > -HOVER_RANGE;

        if within && self.radius < max_radius {
            self.radius = self.radius + grow_step;
        } else if !within && self.radius > self.init_radius {
            if self.radius - SHRINK_STEP >= self.init_radius {
                self.radius = self.radius - SHRINK_STEP;
            } else {
                self.radius = self.init_radius;
            }
        }

        if self.radius >= max_radius {
            self.split_circle(draw_a, draw_b)
        } else {
            None
        }
    }

    /// React to a pressed pointer: a circle within reach blasts into ten
    /// particles (or an empty burst, once fully blasted); one out of reach is
    /// untouched.
    pub fn mouse_down_effects(&mut self, mouse_coordinate: &Coordinate, draws: &Vec<
        RandomDraw,
    >) -> (particles: Option<Vec<Circle>>)
        requires
            old(self).wf(),
            draws@.len() == 10,
            i64::MIN <= mouse_coordinate.x - old(self).coordinate.x <= i64::MAX,
            i64::MIN <= mouse_coordinate.y - old(self).coordinate.y <= i64::MAX,
        ensures
            particles is Some <==> Self::within_hover(*old(self), *mouse_coordinate),
            !Self::within_hover(*old(self), *mouse_coordinate) ==> *final(self) == *old(self),
            Self::within_hover(*old(self), *mouse_coordinate) ==> {
                &&& Self::blast_drained(*old(self)) ==> *final(self) == *old(self)
                    && particles->0@.len() == 0
                &&& !Self::blast_drained(*old(self)) ==> {
                    &&& *final(self) == Self::after_blast(*old(self))
                    &&& particles->0@.len() == 10
                    &&& forall|i: int|
                        0 <= i < 10 ==> particles->0@[i] == Self::blast_particle(
                            *old(self),
                            draws@[i],
                        )
                }
            },
            final(self).wf(),
    {
        let x_distance = mouse_coordinate.x - self.coordinate.x;
        let y_distance = mouse_coordinate.y - self.coordinate.y;

        if x_distance < HOVER_RANGE && x_distance > -HOVER_RANGE && y_distance < HOVER_RANGE
            && y_distance > -HOVER_RANGE {
            return Some(self.blast_particles(10, draws));
        }

        None
    }
}

/// A split is spent after its first use: the parent of a split carries the
/// spent flag, and a spent circle can never split again.
pub proof fn lemma_split_idempotent(c: Circle)
    ensures
        Circle::after_split(c).splited,
        !Circle::can_split(Circle::after_split(c)),
        Circle::after_split(Circle::after_split(c)) == Circle::after_split(c),
{
}

/// Fading completes: from any opacity within scale, fifty or more fade steps
/// reach zero, where `is_faded_out` holds.
pub proof fn lemma_fade_out_completes(o: int, n: nat)
    requires
        0 <= o <= OPACITY_FULL,
        n >= 50,
    ensures
        Circle::faded_opacity(o, n) == 0,
{
    lemma_faded_opacity_bounds(o, n);
}

/// After `n` fade steps the opacity is still nonnegative and has lost
/// `FADE_STEP` per step, unless it has already hit zero.
proof fn lemma_faded_opacity_bounds(o: int, n: nat)
    requires
        0 <= o,
    ensures
        0 <= Circle::faded_opacity(o, n),
        Circle::faded_opacity(o, n) <= o - FADE_STEP * n || Circle::faded_opacity(o, n) == 0,
    decreases n,
{
    if n > 0 {
        lemma_faded_opacity_bounds(o, (n - 1) as nat);
    }
}

} // verus!
