//! A boid, and the one primitive through which its heading turns.

use vstd::prelude::*;
use crate::fixed::{mul_fixed, scaled, MAX_COORD, MAX_EXTENT, MAX_RATE, ONE};
use crate::vector::{
    is_unit, lemma_normalized_is_unit, lemma_unit_extent, lerped, normalized, within_extent, Vec2,
};

verus! {

/// The speed that a spawned boid gets: 20 units a second.
pub const DEFAULT_SPEED: i64 = 20_000_000;

/// The rotation speed that a spawned boid gets.
pub const DEFAULT_ROTATION_SPEED: i64 = 3_000_000;

/// The radius within which a spawned boid sees others.
pub const DEFAULT_VIEW_DISTANCE: i64 = 50_000_000;

/// The radius within which a spawned boid keeps apart from others.
pub const DEFAULT_SEPARATION_DISTANCE: i64 = 20_000_000;

/// One member of the flock.
#[derive(Clone, Copy, Debug, PartialEq, Eq, Structural)]
pub struct Boid {
    /// The handle of the boid: its place in the flock.
    pub id: u64,
    pub position: Vec2,
    pub speed: i64,
    pub rotation_speed: i64,
    /// The heading: a unit vector.
    pub direction: Vec2,
    pub view_distance: i64,
    pub separation_distance: i64,
}

impl Boid {
    /// The heading is a unit vector, and position, speed and rotation speed
    /// are within the magnitudes that the arithmetic is proved for.
    pub open spec fn wf(self) -> bool {
        &&& within_extent(self.position, MAX_COORD as int)
        &&& is_unit(self.direction)
        &&& -MAX_RATE <= self.speed <= MAX_RATE
        &&& -MAX_RATE <= self.rotation_speed <= MAX_RATE
    }

    /// Whether the boid is well-formed.
    pub fn is_valid(&self) -> (r: bool)
        ensures
            r == self.wf(),
    {
        -MAX_COORD <= self.position.x && self.position.x <= MAX_COORD && -MAX_COORD
            <= self.position.y && self.position.y <= MAX_COORD && self.direction.is_unit()
            && -MAX_RATE <= self.speed && self.speed <= MAX_RATE && -MAX_RATE
            <= self.rotation_speed && self.rotation_speed <= MAX_RATE
    }
}

/// A time step that is acted on: positive and at most `MAX_RATE`.
pub open spec fn valid_step(delta_time: int) -> bool {
    0 < delta_time <= MAX_RATE
}

/// How far a heading moves toward its target in one step: rotation speed
/// times elapsed time times the weight of the rule.
pub open spec fn strength_of(rotation_speed: int, delta_time: int, weight: int) -> int {
    scaled(scaled(rotation_speed, delta_time), weight)
}

/// The heading `heading` after it has turned toward `target` by `strength`:
/// the normalized interpolation between the heading and the normalized
/// target. Where the interpolation is the zero vector the heading stays.
pub open spec fn blended(heading: Vec2, target: Vec2, strength: int) -> Vec2 {
    let mix = lerped(heading, normalized(target), strength);
    if mix.x == 0 && mix.y == 0 {
        heading
    } else {
        normalized(mix)
    }
}

/// The strength of a rule is at most `MAX_COORD` in magnitude.
pub proof fn lemma_strength_bound(rotation_speed: int, delta_time: int, weight: int)
    requires
        -MAX_RATE <= rotation_speed <= MAX_RATE,
        0 <= delta_time <= MAX_RATE,
        0 <= weight <= ONE,
    ensures
        -MAX_COORD <= scaled(rotation_speed, delta_time) <= MAX_COORD,
        -MAX_COORD <= strength_of(rotation_speed, delta_time, weight) <= MAX_COORD,
{
    let first = rotation_speed * delta_time;
    assert(-1_000_000_000_000_000_000 <= first <= 1_000_000_000_000_000_000) by (nonlinear_arith)
        requires
            first == rotation_speed * delta_time,
            -1_000_000_000 <= rotation_speed <= 1_000_000_000,
            0 <= delta_time <= 1_000_000_000,
    ;
    let turn = scaled(rotation_speed, delta_time);
    let second = turn * weight;
    assert(-1_000_000_000_000_000_000 <= second <= 1_000_000_000_000_000_000) by (nonlinear_arith)
        requires
            second == turn * weight,
            -1_000_000_000_000 <= turn <= 1_000_000_000_000,
            0 <= weight <= 1_000_000,
    ;
}

/// The interpolation from a unit heading toward a normalized target stays
/// within `MAX_EXTENT`.
pub proof fn lemma_mix_extent(heading: Vec2, target: Vec2, strength: int)
    requires
        is_unit(heading),
        within_extent(target, MAX_EXTENT as int),
        target.x != 0 || target.y != 0,
        -MAX_COORD <= strength <= MAX_COORD,
    ensures
        within_extent(lerped(heading, normalized(target), strength), MAX_EXTENT as int),
        lerped(heading, normalized(target), strength).x == heading.x + scaled(
            normalized(target).x - heading.x,
            strength,
        ),
        lerped(heading, normalized(target), strength).y == heading.y + scaled(
            normalized(target).y - heading.y,
            strength,
        ),
{
    lemma_unit_extent(heading);
    lemma_normalized_is_unit(target);
    let unit = normalized(target);
    let dx = unit.x - heading.x;
    let dy = unit.y - heading.y;
    assert(-2_000_002_000_000_000_000 <= dx * strength <= 2_000_002_000_000_000_000)
        by (nonlinear_arith)
        requires
            -2_000_002 <= dx <= 2_000_002,
            -1_000_000_000_000 <= strength <= 1_000_000_000_000,
    ;
    assert(-2_000_002_000_000_000_000 <= dy * strength <= 2_000_002_000_000_000_000)
        by (nonlinear_arith)
        requires
            -2_000_002 <= dy <= 2_000_002,
            -1_000_000_000_000 <= strength <= 1_000_000_000_000,
    ;
}

/// A blended heading is a unit vector.
pub proof fn lemma_blended_is_unit(heading: Vec2, target: Vec2, strength: int)
    requires
        is_unit(heading),
        within_extent(target, MAX_EXTENT as int),
        target.x != 0 || target.y != 0,
        -MAX_COORD <= strength <= MAX_COORD,
    ensures
        is_unit(blended(heading, target, strength)),
{
    lemma_mix_extent(heading, target, strength);
    let mix = lerped(heading, normalized(target), strength);
    if mix.x != 0 || mix.y != 0 {
        lemma_normalized_is_unit(mix);
    }
}

/// Rotation speed times elapsed time times the weight of a rule.
pub fn steering_strength(rotation_speed: i64, delta_time: i64, weight: i64) -> (r: i64)
    requires
        -MAX_RATE <= rotation_speed <= MAX_RATE,
        0 <= delta_time <= MAX_RATE,
        0 <= weight <= ONE,
    ensures
        r == strength_of(rotation_speed as int, delta_time as int, weight as int),
        -MAX_COORD <= r <= MAX_COORD,
{
    proof {
        lemma_strength_bound(rotation_speed as int, delta_time as int, weight as int);
    }
    mul_fixed(mul_fixed(rotation_speed, delta_time), weight)
}

/// Turns the heading of `boid` toward `target_vector` by `strength`, and
/// leaves it a unit vector.
pub fn rotate_boid_direction(boid: &mut Boid, target_vector: Vec2, strength: i64)
    requires
        is_unit(old(boid).direction),
        within_extent(target_vector, MAX_EXTENT as int),
        target_vector.x != 0 || target_vector.y != 0,
        -MAX_COORD <= strength <= MAX_COORD,
    ensures
        *final(boid) == (Boid {
            direction: blended(old(boid).direction, target_vector, strength as int),
            ..*old(boid)
        }),
        is_unit(final(boid).direction),
{
    proof {
        lemma_unit_extent(boid.direction);
        lemma_mix_extent(boid.direction, target_vector, strength as int);
        lemma_blended_is_unit(boid.direction, target_vector, strength as int);
    }
    let mix = boid.direction.lerp(target_vector.normalize(), strength);
    if mix.x != 0 || mix.y != 0 {
        boid.direction = mix.normalize();
    }
}

} // verus!
