//! The per-frame work of the circle demos, as pure transformations of the
//! owning lists: apply the pointer reactions to every circle and stage what
//! they spawn, advance every position, absorb the staged children while
//! culling fully blasted circles, and age the particles. The embedder's
//! frame callback strings these together between its drawing calls, so the
//! whole evolution of the population is verified here while the canvas work
//! stays outside.
use vstd::prelude::*;

use crate::action::RandomDraw;
use crate::canvas::Coordinate;
use crate::shapes::circle::{Circle, BLAST_FLOOR};

verus! {

/// The circle a hover reaction leaves behind: the resized radius, and the
/// spent flag once the radius has reached the cap.
pub open spec fn hover_adjusted(c: Circle, mouse: Coordinate, max_radius: i64, grow_step: i64) -> Circle {
    let r = Circle::hover_resized_radius(c, mouse, max_radius, grow_step);
    Circle { radius: r as i64, splited: c.splited || r >= max_radius, ..c }
}

/// What a hover reaction spawns: two half-radius children when the resized
/// radius reaches the cap on a circle that has not split before, else nothing.
pub open spec fn hover_children(
    c: Circle,
    mouse: Coordinate,
    max_radius: i64,
    grow_step: i64,
    draw_a: RandomDraw,
    draw_b: RandomDraw,
) -> Seq<Circle> {
    let a = hover_adjusted(c, mouse, max_radius, grow_step);
    if a.radius >= max_radius && Circle::can_split(c) {
        seq![Circle::split_child(a, draw_a), Circle::split_child(a, draw_b)]
    } else {
        Seq::empty()
    }
}

/// Everything the hover pass spawns over the circles `cs[i..]`, in order,
/// circle `i` consuming draws `2 i` and `2 i + 1`.
pub open spec fn staged_children(
    cs: Seq<Circle>,
    mouse: Coordinate,
    max_radius: i64,
    grow_step: i64,
    draws: Seq<RandomDraw>,
    i: nat,
) -> Seq<Circle>
    decreases cs.len() - i,
{
    if i >= cs.len() {
        Seq::empty()
    } else {
        hover_children(cs[i as int], mouse, max_radius, grow_step, draws[2 * (i as int)], draws[2 * (i as int) + 1])
            + staged_children(cs, mouse, max_radius, grow_step, draws, i + 1)
    }
}

/// The circle a pointer-down reaction leaves behind: blasted when the
/// pointer is within reach, untouched when not.
pub open spec fn down_adjusted(c: Circle, mouse: Coordinate) -> Circle {
    if Circle::within_hover(c, mouse) && !Circle::blast_drained(c) {
        Circle::after_blast(c)
    } else {
        c
    }
}

/// What a pointer-down reaction spawns from one circle: ten particles when
/// the pointer is within reach of a circle that is not fully blasted.
pub open spec fn down_particles(c: Circle, mouse: Coordinate, draws: Seq<RandomDraw>) -> Seq<
    Circle,
> {
    if Circle::within_hover(c, mouse) && !Circle::blast_drained(c) {
        Seq::new(10, |j: int| Circle::blast_particle(c, draws[j]))
    } else {
        Seq::empty()
    }
}

/// Everything the pointer-down pass spawns over the circles `cs[i..]`, in
/// order, circle `i` consuming draws `10 i` to `10 i + 9`.
pub open spec fn staged_particles(
    cs: Seq<Circle>,
    mouse: Coordinate,
    draws: Seq<RandomDraw>,
    i: nat,
) -> Seq<Circle>
    decreases cs.len() - i,
{
    if i >= cs.len() {
        Seq::empty()
    } else {
        down_particles(cs[i as int], mouse, draws.subrange(10 * (i as int), 10 * (i as int) + 10))
            + staged_particles(cs, mouse, draws, i + 1)
    }
}

/// The circles that survive the cull: those whose source magnitude is still
/// over the blast floor, in their original order.
pub open spec fn surviving(cs: Seq<Circle>) -> Seq<Circle>
    decreases cs.len(),
{
    if cs.len() == 0 {
        Seq::empty()
    } else {
        surviving(cs.drop_last()) + if cs.last().init_radius > BLAST_FLOOR {
            seq![cs.last()]
        } else {
            Seq::empty()
        }
    }
}

/// The particles that survive their cull: those not yet fully faded, in
/// their original order.
pub open spec fn still_visible(cs: Seq<Circle>) -> Seq<Circle>
    decreases cs.len(),
{
    if cs.len() == 0 {
        Seq::empty()
    } else {
        still_visible(cs.drop_last()) + if cs.last().opacity != 0 {
            seq![cs.last()]
        } else {
            Seq::empty()
        }
    }
}

/// The particle one frame leaves behind: moved one step, then one fade step.
pub open spec fn aged_particle(c: Circle) -> Circle {
    let m = Circle::moved(c);
    Circle { opacity: Circle::faded_once(c.opacity as int) as u32, ..m }
}

/// Whether the pointer reactions of `c` can be computed without the distance
/// arithmetic leaving the machine integers.
pub open spec fn pointer_distance_fits(c: Circle, mouse: Coordinate) -> bool {
    &&& i64::MIN <= mouse.x - c.coordinate.x <= i64::MAX
    &&& i64::MIN <= mouse.y - c.coordinate.y <= i64::MAX
}

/// Whether one movement step of `c` stays within the machine integers.
pub open spec fn move_fits(c: Circle) -> bool {
    &&& c.coordinate.x + c.velocity.dx - c.radius >= i64::MIN
    &&& c.coordinate.x + c.velocity.dx + c.radius <= i64::MAX
    &&& c.coordinate.y + c.velocity.dy - c.radius >= i64::MIN
    &&& c.coordinate.y + c.velocity.dy + c.radius <= i64::MAX
    &&& c.velocity.dx > i64::MIN
    &&& c.velocity.dy > i64::MIN
}

/// Apply the hover reaction to every circle, in order, and hand back the
/// staged split children, to be absorbed at the end of the frame.
pub fn apply_mouse_move_effects(
    circles: &mut Vec<Circle>,
    mouse: &Coordinate,
    max_radius: i64,
    grow_step: i64,
    draws: &Vec<RandomDraw>,
) -> (children: Vec<Circle>)
    requires
        forall|i: int| 0 <= i < old(circles)@.len() ==> (#[trigger] old(circles)@[i]).wf(),
        forall|i: int|
            0 <= i < old(circles)@.len() ==> pointer_distance_fits(
                #[trigger] old(circles)@[i],
                *mouse,
            ),
        0 < grow_step,
        0 < max_radius,
        max_radius + grow_step <= i64::MAX,
        draws@.len() == 2 * old(circles)@.len(),
    ensures
        final(circles)@.len() == old(circles)@.len(),
        forall|i: int|
            0 <= i < old(circles)@.len() ==> (#[trigger] final(circles)@[i]) == hover_adjusted(
                old(circles)@[i],
                *mouse,
                max_radius,
                grow_step,
            ),
        forall|i: int| 0 <= i < final(circles)@.len() ==> (#[trigger] final(circles)@[i]).wf(),
        children@ == staged_children(old(circles)@, *mouse, max_radius, grow_step, draws@, 0),
{
    let ghost cs0 = circles@;
    let mut children: Vec<Circle> = Vec::new();
    let n = circles.len();
    let draws_len = draws.len();
    let mut i: usize = 0;
    while i < n
        invariant
            0 <= i <= n,
            n == cs0.len(),
            circles@.len() == cs0.len(),
            draws@.len() == 2 * cs0.len(),
            draws@.len() == draws_len as int,
            forall|j: int| i as int <= j < cs0.len() ==> (#[trigger] circles@[j]) == cs0[j],
            forall|j: int| 0 <= j < cs0.len() ==> (#[trigger] cs0[j]).wf(),
            forall|j: int| 0 <= j < cs0.len() ==> pointer_distance_fits(#[trigger] cs0[j], *mouse),
            0 < grow_step,
            0 < max_radius,
            max_radius + grow_step <= i64::MAX,
            forall|j: int|
                0 <= j < i as int ==> (#[trigger] circles@[j]) == hover_adjusted(
                    cs0[j],
                    *mouse,
                    max_radius,
                    grow_step,
                ),
            forall|j: int| 0 <= j < i as int ==> (#[trigger] circles@[j]).wf(),
            staged_children(cs0, *mouse, max_radius, grow_step, draws@, 0) == children@
                + staged_children(cs0, *mouse, max_radius, grow_step, draws@, i as nat),
        decreases n - i,
    {
        let ghost children_pre = children@;
        let spawned = circles[i].mouse_move_effects(
            mouse,
            max_radius,
            grow_step,
            draws[2 * i],
            draws[2 * i + 1],
        );
        match spawned {
            Some(mut pair) => {
                children.append(&mut pair);
            },
            None => {},
        }
        proof {
            assert(circles@[i as int] == hover_adjusted(
                cs0[i as int],
                *mouse,
                max_radius,
                grow_step,
            ));
            assert(children@ =~= children_pre + hover_children(
                cs0[i as int],
                *mouse,
                max_radius,
                grow_step,
                draws@[2 * (i as int)],
                draws@[2 * (i as int) + 1],
            ));
            assert(staged_children(cs0, *mouse, max_radius, grow_step, draws@, 0) =~= children@
                + staged_children(cs0, *mouse, max_radius, grow_step, draws@, (i + 1) as nat));
        }
        i = i + 1;
    }
    proof {
        assert(children@ =~= children@ + staged_children(
            cs0,
            *mouse,
            max_radius,
            grow_step,
            draws@,
            n as nat,
        ));
    }
    children
}

/// Apply the pointer-down reaction to every circle, in order, and hand back
/// the staged blast particles.
pub fn apply_mouse_down_effects(
    circles: &mut Vec<Circle>,
    mouse: &Coordinate,
    draws: &Vec<RandomDraw>,
) -> (particles: Vec<Circle>)
    requires
        forall|i: int| 0 <= i < old(circles)@.len() ==> (#[trigger] old(circles)@[i]).wf(),
        forall|i: int|
            0 <= i < old(circles)@.len() ==> pointer_distance_fits(
                #[trigger] old(circles)@[i],
                *mouse,
            ),
        draws@.len() == 10 * old(circles)@.len(),
    ensures
        final(circles)@.len() == old(circles)@.len(),
        forall|i: int|
            0 <= i < old(circles)@.len() ==> (#[trigger] final(circles)@[i]) == down_adjusted(
                old(circles)@[i],
                *mouse,
            ),
        forall|i: int| 0 <= i < final(circles)@.len() ==> (#[trigger] final(circles)@[i]).wf(),
        particles@ == staged_particles(old(circles)@, *mouse, draws@, 0),
{
    let ghost cs0 = circles@;
    let mut particles: Vec<Circle> = Vec::new();
    let n = circles.len();
    let draws_len = draws.len();
    let mut i: usize = 0;
    while i < n
        invariant
            0 <= i <= n,
            n == cs0.len(),
            circles@.len() == cs0.len(),
            draws@.len() == 10 * cs0.len(),
            draws@.len() == draws_len as int,
            forall|j: int| i as int <= j < cs0.len() ==> (#[trigger] circles@[j]) == cs0[j],
            forall|j: int| 0 <= j < cs0.len() ==> (#[trigger] cs0[j]).wf(),
            forall|j: int| 0 <= j < cs0.len() ==> pointer_distance_fits(#[trigger] cs0[j], *mouse),
            forall|j: int|
                0 <= j < i as int ==> (#[trigger] circles@[j]) == down_adjusted(cs0[j], *mouse),
            forall|j: int| 0 <= j < i as int ==> (#[trigger] circles@[j]).wf(),
            staged_particles(cs0, *mouse, draws@, 0) == particles@ + staged_particles(
                cs0,
                *mouse,
                draws@,
                i as nat,
            ),
        decreases n - i,
    {
        let ghost particles_pre = particles@;
        let mut ten: Vec<RandomDraw> = Vec::new();
        let mut j: usize = 0;
        while j < 10
            invariant
                0 <= j <= 10,
                i < n,
                n == cs0.len(),
                draws@.len() == 10 * cs0.len(),
                draws@.len() == draws_len as int,
                ten@.len() == j as int,
                forall|l: int|
                    0 <= l < j as int ==> (#[trigger] ten@[l]) == draws@[10 * (i as int) + l],
            decreases 10 - j,
        {
            proof {
                assert(10 * (i as int) + j < 10 * cs0.len()) by (nonlinear_arith)
                    requires
                        i < cs0.len(),
                        0 <= j < 10,
                ;
            }
            ten.push(draws[10 * i + j]);
            j = j + 1;
        }
        proof {
            assert(ten@ =~= draws@.subrange(10 * (i as int), 10 * (i as int) + 10));
        }
        let spawned = circles[i].mouse_down_effects(mouse, &ten);
        match spawned {
            Some(mut burst) => {
                particles.append(&mut burst);
            },
            None => {},
        }
        proof {
            assert(circles@[i as int] == down_adjusted(cs0[i as int], *mouse));
            assert(particles@ =~= particles_pre + down_particles(
                cs0[i as int],
                *mouse,
                draws@.subrange(10 * (i as int), 10 * (i as int) + 10),
            ));
            assert(staged_particles(cs0, *mouse, draws@, 0) =~= particles@ + staged_particles(
                cs0,
                *mouse,
                draws@,
                (i + 1) as nat,
            ));
        }
        i = i + 1;
    }
    proof {
        assert(particles@ =~= particles@ + staged_particles(cs0, *mouse, draws@, n as nat));
    }
    particles
}

/// Advance every circle by one movement step, in order.
pub fn move_all(circles: &mut Vec<Circle>)
    requires
        forall|i: int| 0 <= i < old(circles)@.len() ==> (#[trigger] old(circles)@[i]).wf(),
        forall|i: int| 0 <= i < old(circles)@.len() ==> move_fits(#[trigger] old(circles)@[i]),
    ensures
        final(circles)@.len() == old(circles)@.len(),
        forall|i: int|
            0 <= i < old(circles)@.len() ==> (#[trigger] final(circles)@[i]) == Circle::moved(
                old(circles)@[i],
            ),
        forall|i: int| 0 <= i < final(circles)@.len() ==> (#[trigger] final(circles)@[i]).wf(),
{
    let ghost cs0 = circles@;
    let n = circles.len();
    let mut i: usize = 0;
    while i < n
        invariant
            0 <= i <= n,
            n == cs0.len(),
            circles@.len() == cs0.len(),
            forall|j: int| i as int <= j < cs0.len() ==> (#[trigger] circles@[j]) == cs0[j],
            forall|j: int| 0 <= j < cs0.len() ==> (#[trigger] cs0[j]).wf(),
            forall|j: int| 0 <= j < cs0.len() ==> move_fits(#[trigger] cs0[j]),
            forall|j: int| 0 <= j < i as int ==> (#[trigger] circles@[j]) == Circle::moved(cs0[j]),
            forall|j: int| 0 <= j < i as int ==> (#[trigger] circles@[j]).wf(),
        decreases n - i,
    {
        circles[i].moving();
        i = i + 1;
    }
}

/// Absorb the staged split children into the live list, then cull every
/// circle whose source magnitude has decayed to the blast floor, keeping the
/// order of the rest.
pub fn absorb_children(circles: &mut Vec<Circle>, children: Vec<Circle>)
    ensures
        final(circles)@ == surviving(old(circles)@ + children@),
{
    let mut children = children;
    let ghost merged = circles@ + children@;
    circles.append(&mut children);
    proof {
        assert(circles@ =~= merged);
    }

    let mut kept: Vec<Circle> = Vec::new();
    let merged_len = circles.len();
    let ghost total = merged.len() as int;
    let mut consumed: usize = 0;
    while circles.len() > 0
        invariant
            0 <= consumed as int <= total,
            total == merged.len(),
            total == merged_len as int,
            circles@ =~= merged.subrange(consumed as int, total),
            kept@ == surviving(merged.subrange(0, consumed as int)),
        decreases circles@.len(),
    {
        let c = circles.remove(0);
        proof {
            assert(c == merged[consumed as int]);
            assert(circles@ =~= merged.subrange(consumed as int + 1, total));
            let prefix = merged.subrange(0, consumed as int);
            let next = merged.subrange(0, consumed as int + 1);
            assert(next.drop_last() =~= prefix);
        }
        if c.get_init_radius() > BLAST_FLOOR {
            kept.push(c);
        }
        proof {
            assert((consumed as int) < total);
        }
        consumed = consumed + 1;
    }
    proof {
        assert(merged.subrange(0, total) =~= merged);
    }
    *circles = kept;
}

/// Age every particle by one frame: one movement step, then one fade step.
pub fn age_particles(particles: &mut Vec<Circle>)
    requires
        forall|i: int| 0 <= i < old(particles)@.len() ==> (#[trigger] old(particles)@[i]).wf(),
        forall|i: int| 0 <= i < old(particles)@.len() ==> move_fits(#[trigger] old(particles)@[i]),
    ensures
        final(particles)@.len() == old(particles)@.len(),
        forall|i: int|
            0 <= i < old(particles)@.len() ==> (#[trigger] final(particles)@[i]) == aged_particle(
                old(particles)@[i],
            ),
        forall|i: int| 0 <= i < final(particles)@.len() ==> (#[trigger] final(particles)@[i]).wf(),
{
    let ghost cs0 = particles@;
    let n = particles.len();
    let mut i: usize = 0;
    while i < n
        invariant
            0 <= i <= n,
            n == cs0.len(),
            particles@.len() == cs0.len(),
            forall|j: int| i as int <= j < cs0.len() ==> (#[trigger] particles@[j]) == cs0[j],
            forall|j: int| 0 <= j < cs0.len() ==> (#[trigger] cs0[j]).wf(),
            forall|j: int| 0 <= j < cs0.len() ==> move_fits(#[trigger] cs0[j]),
            forall|j: int|
                0 <= j < i as int ==> (#[trigger] particles@[j]) == aged_particle(cs0[j]),
            forall|j: int| 0 <= j < i as int ==> (#[trigger] particles@[j]).wf(),
        decreases n - i,
    {
        particles[i].moving();
        particles[i].fade_out();
        i = i + 1;
    }
}

/// Cull the particles that have fully faded, keeping the order of the rest.
pub fn cull_faded(particles: &mut Vec<Circle>)
    ensures
        final(particles)@ == still_visible(old(particles)@),
{
    let ghost all = particles@;
    let mut kept: Vec<Circle> = Vec::new();
    let all_len = particles.len();
    let ghost total = all.len() as int;
    let mut consumed: usize = 0;
    while particles.len() > 0
        invariant
            0 <= consumed as int <= total,
            total == all.len(),
            total == all_len as int,
            particles@ =~= all.subrange(consumed as int, total),
            kept@ == still_visible(all.subrange(0, consumed as int)),
        decreases particles@.len(),
    {
        let c = particles.remove(0);
        proof {
            assert(c == all[consumed as int]);
            assert(particles@ =~= all.subrange(consumed as int + 1, total));
            let prefix = all.subrange(0, consumed as int);
            let next = all.subrange(0, consumed as int + 1);
            assert(next.drop_last() =~= prefix);
        }
        if !c.is_faded_out() {
            kept.push(c);
        }
        proof {
            assert((consumed as int) < total);
        }
        consumed = consumed + 1;
    }
    proof {
        assert(all.subrange(0, total) =~= all);
    }
    *particles = kept;
}

} // verus!
