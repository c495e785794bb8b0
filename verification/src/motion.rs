//! Manual steering, motion along the heading, and the wrap at the walls.

use vstd::prelude::*;
use crate::boid::{steering_strength, strength_of, valid_step, Boid};
use crate::fixed::{mul_fixed, scaled, MAX_COORD, MAX_RATE, ONE};
use crate::rules::{all_wf, steer, steered};
use crate::vector::{
    lemma_normalized_is_unit, lemma_unit_extent, negated, normalized, perpendicular,
    within_extent, Vec2,
};

verus! {

/// The weight of manual steering: 1.0.
pub const MANUAL_ROTATION_STRENGTH: i64 = 1_000_000;

/// What the steering keys ask of the flock.
#[derive(Clone, Copy, Debug, PartialEq, Eq, Structural)]
pub enum SteerInput {
    /// Turn counter-clockwise.
    Left,
    /// Turn clockwise.
    Right,
    /// Do not turn.
    Idle,
}

/// Where manual steering turns a heading: a quarter turn to its left or to
/// its right, or nowhere.
pub open spec fn manual_target(direction: Vec2, input: SteerInput) -> Option<Vec2> {
    match input {
        SteerInput::Left => Some(perpendicular(direction)),
        SteerInput::Right => Some(negated(perpendicular(direction))),
        SteerInput::Idle => None,
    }
}

/// `boid` after manual steering has acted on it for `delta_time`.
pub open spec fn manual_applied(boid: Boid, input: SteerInput, delta_time: int) -> Boid {
    if valid_step(delta_time) {
        steered(
            boid,
            manual_target(boid.direction, input),
            strength_of(boid.rotation_speed as int, delta_time, MANUAL_ROTATION_STRENGTH as int),
        )
    } else {
        boid
    }
}

/// How far a boid with heading `unit` and speed `speed` moves along one axis
/// in `delta_time`.
pub open spec fn displacement(unit: int, speed: int, delta_time: int) -> int {
    scaled(scaled(unit, speed), delta_time)
}

/// `boid` after it has moved along its heading for `delta_time`.
pub open spec fn moved(boid: Boid, delta_time: int) -> Boid {
    if valid_step(delta_time) {
        let unit = normalized(boid.direction);
        Boid {
            position: Vec2 {
                x: (boid.position.x + displacement(
                    unit.x as int,
                    boid.speed as int,
                    delta_time,
                )) as i64,
                y: (boid.position.y + displacement(
                    unit.y as int,
                    boid.speed as int,
                    delta_time,
                )) as i64,
            },
            ..boid
        }
    } else {
        boid
    }
}

/// A coordinate after the wrap: one that has left `[0, limit]` re-enters at
/// the opposite edge.
pub open spec fn wrapped(x: int, limit: int) -> int {
    if x < 0 {
        limit
    } else if x > limit {
        0
    } else {
        x
    }
}

/// `boid` after the wrap at the walls of a plane of `width` by `height`.
pub open spec fn walled(boid: Boid, width: int, height: int) -> Boid {
    Boid {
        position: Vec2 {
            x: wrapped(boid.position.x as int, width) as i64,
            y: wrapped(boid.position.y as int, height) as i64,
        },
        ..boid
    }
}

/// A displacement is at most `MAX_COORD` in magnitude.
pub proof fn lemma_displacement_bound(unit: int, speed: int, delta_time: int)
    requires
        -ONE <= unit <= ONE,
        -MAX_RATE <= speed <= MAX_RATE,
        0 <= delta_time <= MAX_RATE,
    ensures
        -MAX_RATE <= scaled(unit, speed) <= MAX_RATE,
        -MAX_COORD <= displacement(unit, speed, delta_time) <= MAX_COORD,
{
    let first = unit * speed;
    assert(-1_000_000_000_000_000 <= first <= 1_000_000_000_000_000) by (nonlinear_arith)
        requires
            first == unit * speed,
            -1_000_000 <= unit <= 1_000_000,
            -1_000_000_000 <= speed <= 1_000_000_000,
    ;
    let pace = scaled(unit, speed);
    let second = pace * delta_time;
    assert(-1_000_000_000_000_000_000 <= second <= 1_000_000_000_000_000_000) by (nonlinear_arith)
        requires
            second == pace * delta_time,
            -1_000_000_000 <= pace <= 1_000_000_000,
            0 <= delta_time <= 1_000_000_000,
    ;
}

/// A well-formed boid that has moved is within twice `MAX_COORD` of the
/// origin, and but for its position it is as it was.
pub proof fn lemma_moved(boid: Boid, delta_time: int)
    requires
        boid.wf(),
    ensures
        within_extent(moved(boid, delta_time).position, 2 * MAX_COORD),
        moved(boid, delta_time) == (Boid { position: moved(boid, delta_time).position, ..boid }),
{
    if valid_step(delta_time) {
        lemma_unit_extent(boid.direction);
        lemma_normalized_is_unit(boid.direction);
        let unit = normalized(boid.direction);
        lemma_displacement_bound(unit.x as int, boid.speed as int, delta_time);
        lemma_displacement_bound(unit.y as int, boid.speed as int, delta_time);
    }
}

/// The wrap leaves a boid that is within the plane where it is, however
/// often it is applied.
pub proof fn lemma_wrap_in_bounds(boid: Boid, width: int, height: int)
    requires
        0 <= boid.position.x <= width,
        0 <= boid.position.y <= height,
    ensures
        walled(boid, width, height) == boid,
        walled(walled(boid, width, height), width, height) == boid,
{
}

/// The wrap brings a boid that has left the plane past its right edge, at a
/// height within the plane, to the left edge at the same height, and a
/// second wrap leaves it there.
pub proof fn lemma_wrap_round_trip(boid: Boid, width: int, height: int)
    requires
        0 <= width < boid.position.x,
        0 <= boid.position.y <= height,
    ensures
        walled(boid, width, height) == (Boid {
            position: Vec2 { x: 0, y: boid.position.y },
            ..boid
        }),
        walled(walled(boid, width, height), width, height) == walled(boid, width, height),
{
}

/// On a plane of width zero a boid on the right edge is on the left edge
/// too: the wrap leaves it at `(0, y)`, and so does a second wrap. On a
/// wider plane a boid on the right edge is within the plane and stays.
pub proof fn lemma_wrap_at_edge(boid: Boid, width: int, height: int)
    requires
        boid.position.x == width,
        width == 0,
        0 <= boid.position.y <= height,
    ensures
        walled(boid, width, height).position == (Vec2 { x: 0, y: boid.position.y }),
        walled(walled(boid, width, height), width, height) == walled(boid, width, height),
{
}

/// Manual steering: every boid turns a quarter turn to the side that `input`
/// names, by its rotation speed times `delta_time`.
pub fn rotate_boid_manual_system(boids: &mut Vec<Boid>, input: SteerInput, delta_time: i64)
    requires
        all_wf(old(boids)@),
    ensures
        final(boids)@.len() == old(boids)@.len(),
        forall|i: int|
            0 <= i < old(boids)@.len() ==> #[trigger] final(boids)@[i] == manual_applied(
                old(boids)@[i],
                input,
                delta_time as int,
            ),
        all_wf(final(boids)@),
{
    if delta_time <= 0 || delta_time > MAX_RATE {
        return ;
    }
    let ghost before = boids@;
    let mut i: usize = 0;
    while i < boids.len()
        invariant
            i <= boids@.len(),
            boids@.len() == before.len(),
            all_wf(before),
            all_wf(boids@),
            valid_step(delta_time as int),
            forall|j: int|
                0 <= j < i ==> #[trigger] boids@[j] == manual_applied(
                    before[j],
                    input,
                    delta_time as int,
                ),
            forall|j: int| i <= j < before.len() ==> #[trigger] boids@[j] == before[j],
        decreases boids@.len() - i,
    {
        let mut boid = boids[i];
        proof {
            lemma_unit_extent(boid.direction);
        }
        let target = match input {
            SteerInput::Left => Some(boid.direction.perp()),
            SteerInput::Right => Some(boid.direction.perp().neg()),
            SteerInput::Idle => None,
        };
        let strength = steering_strength(boid.rotation_speed, delta_time, MANUAL_ROTATION_STRENGTH);
        steer(&mut boid, target, strength);
        boids[i] = boid;
        i += 1;
    }
}

/// Motion: every boid moves along its heading by its speed times
/// `delta_time`.
pub fn move_boid_system(boids: &mut Vec<Boid>, delta_time: i64)
    requires
        all_wf(old(boids)@),
    ensures
        final(boids)@.len() == old(boids)@.len(),
        forall|i: int|
            0 <= i < old(boids)@.len() ==> #[trigger] final(boids)@[i] == moved(
                old(boids)@[i],
                delta_time as int,
            ),
{
    if delta_time <= 0 || delta_time > MAX_RATE {
        return ;
    }
    let ghost before = boids@;
    let mut i: usize = 0;
    while i < boids.len()
        invariant
            i <= boids@.len(),
            boids@.len() == before.len(),
            all_wf(before),
            valid_step(delta_time as int),
            forall|j: int|
                0 <= j < i ==> #[trigger] boids@[j] == moved(before[j], delta_time as int),
            forall|j: int| i <= j < before.len() ==> #[trigger] boids@[j] == before[j],
        decreases boids@.len() - i,
    {
        let mut boid = boids[i];
        proof {
            assert(before[i as int].wf());
            lemma_unit_extent(boid.direction);
            lemma_normalized_is_unit(boid.direction);
            let unit = normalized(boid.direction);
            lemma_displacement_bound(unit.x as int, boid.speed as int, delta_time as int);
            lemma_displacement_bound(unit.y as int, boid.speed as int, delta_time as int);
        }
        let unit = boid.direction.normalize();
        let dx = mul_fixed(mul_fixed(unit.x, boid.speed), delta_time);
        let dy = mul_fixed(mul_fixed(unit.y, boid.speed), delta_time);
        boid.position = Vec2 { x: boid.position.x + dx, y: boid.position.y + dy };
        boids[i] = boid;
        i += 1;
    }
}

/// The wrap at the walls: a boid that has left the plane on one axis
/// re-enters at the opposite edge of that axis.
pub fn avoid_walls_system(boids: &mut Vec<Boid>, width: i64, height: i64)
    ensures
        final(boids)@.len() == old(boids)@.len(),
        forall|i: int|
            0 <= i < old(boids)@.len() ==> #[trigger] final(boids)@[i] == walled(
                old(boids)@[i],
                width as int,
                height as int,
            ),
{
    let ghost before = boids@;
    let mut i: usize = 0;
    while i < boids.len()
        invariant
            i <= boids@.len(),
            boids@.len() == before.len(),
            forall|j: int|
                0 <= j < i ==> #[trigger] boids@[j] == walled(
                    before[j],
                    width as int,
                    height as int,
                ),
            forall|j: int| i <= j < before.len() ==> #[trigger] boids@[j] == before[j],
        decreases boids@.len() - i,
    {
        let mut boid = boids[i];
        let mut x = boid.position.x;
        let mut y = boid.position.y;
        if x < 0 {
            x = width;
        } else if x > width {
            x = 0;
        }
        if y < 0 {
            y = height;
        } else if y > height {
            y = 0;
        }
        boid.position = Vec2 { x, y };
        boids[i] = boid;
        i += 1;
    }
}

} // verus!
