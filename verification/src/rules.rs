//! The three flocking rules: cohesion, alignment and separation.

use vstd::prelude::*;
use crate::boid::{
    blended, rotate_boid_direction, steering_strength, strength_of, valid_step, Boid,
};
use crate::fixed::{MAX_COORD, MAX_EXTENT, MAX_RATE};
use crate::index::{in_radius, within_radius, Entry, SpatialIndex};
use crate::neighbors::{
    all_in_range, average_point, each_one, lemma_found_among, lemma_found_in_range,
    lemma_mean_bound, lemma_total_agrees, lemma_total_bounds, lemma_total_filtered,
    lemma_total_permutation, mean_of, other_than, position_x, position_y, restricted, total,
};
use crate::vector::{is_unit, lemma_unit_extent, within_extent, Vec2};

verus! {

/// The weight of the cohesion rule: 0.2.
pub const COHESION_STRENGTH: i64 = 200_000;

/// The weight of the alignment rule: 0.2.
pub const ALIGNMENT_STRENGTH: i64 = 200_000;

/// The weight of the separation rule: 0.2.
pub const SEPARATION_STRENGTH: i64 = 200_000;

/// The weight that adds up the first coordinates of the vectors from
/// `origin` to the entries.
pub open spec fn offset_x(origin: Vec2) -> spec_fn(Entry) -> int {
    |e: Entry| e.position.x - origin.x
}

/// The weight that adds up the second coordinates of the vectors from
/// `origin` to the entries.
pub open spec fn offset_y(origin: Vec2) -> spec_fn(Entry) -> int {
    |e: Entry| e.position.y - origin.y
}

/// The weight that adds up the first coordinates of the headings that
/// `headings` records for the entries.
pub open spec fn heading_x(headings: Seq<Vec2>) -> spec_fn(Entry) -> int {
    |e: Entry| headings[e.id as int].x as int
}

/// The weight that adds up the second coordinates of the headings that
/// `headings` records for the entries.
pub open spec fn heading_y(headings: Seq<Vec2>) -> spec_fn(Entry) -> int {
    |e: Entry| headings[e.id as int].y as int
}

/// `headings` records a unit heading for every entry of `list`.
pub open spec fn headings_known(list: Seq<Entry>, headings: Seq<Vec2>) -> bool {
    &&& forall|i: int| 0 <= i < list.len() ==> (#[trigger] list[i]).id < headings.len()
    &&& forall|k: int| 0 <= k < headings.len() ==> is_unit(#[trigger] headings[k])
}

/// `boid` after it has turned toward `target` by `strength`. It keeps its
/// heading where there is no target or the target is the zero vector.
pub open spec fn steered(boid: Boid, target: Option<Vec2>, strength: int) -> Boid {
    match target {
        Some(t) => if t.x == 0 && t.y == 0 {
            boid
        } else {
            Boid { direction: blended(boid.direction, t, strength), ..boid }
        },
        None => boid,
    }
}

/// Where the cohesion rule steers `boid`: from its position to the mean
/// position of the entries within its view distance that are not its own.
pub open spec fn cohesion_target(boid: Boid, entries: Seq<Entry>) -> Option<Vec2> {
    let keep = in_radius(boid.position, boid.view_distance as int);
    match mean_of(
        total(entries, restricted(keep, other_than(boid.id, each_one()))),
        total(entries, restricted(keep, other_than(boid.id, position_x()))),
        total(entries, restricted(keep, other_than(boid.id, position_y()))),
    ) {
        Some(mean) => Some(
            Vec2 {
                x: (mean.x - boid.position.x) as i64,
                y: (mean.y - boid.position.y) as i64,
            },
        ),
        None => None,
    }
}

/// Where the alignment rule steers `boid`: along the mean of the headings
/// that `headings` records for the entries within its view distance that are
/// not its own.
pub open spec fn alignment_target(boid: Boid, entries: Seq<Entry>, headings: Seq<Vec2>) -> Option<
    Vec2,
> {
    let keep = in_radius(boid.position, boid.view_distance as int);
    mean_of(
        total(entries, restricted(keep, other_than(boid.id, each_one()))),
        total(entries, restricted(keep, other_than(boid.id, heading_x(headings)))),
        total(entries, restricted(keep, other_than(boid.id, heading_y(headings)))),
    )
}

/// Where the separation rule steers `boid`: against the mean of the vectors
/// from its position to the entries within its separation distance that are
/// not its own. There is no target where fewer than two entries lie within
/// that distance.
pub open spec fn separation_target(boid: Boid, entries: Seq<Entry>) -> Option<Vec2> {
    let keep = in_radius(boid.position, boid.separation_distance as int);
    if total(entries, restricted(keep, each_one())) < 2 {
        None
    } else {
        match mean_of(
            total(entries, restricted(keep, other_than(boid.id, each_one()))),
            total(entries, restricted(keep, other_than(boid.id, offset_x(boid.position)))),
            total(entries, restricted(keep, other_than(boid.id, offset_y(boid.position)))),
        ) {
            Some(mean) => Some(Vec2 { x: (-mean.x) as i64, y: (-mean.y) as i64 }),
            None => None,
        }
    }
}

/// `boid` after the cohesion rule has acted on it for `delta_time`.
pub open spec fn cohesion_applied(boid: Boid, entries: Seq<Entry>, delta_time: int) -> Boid {
    if valid_step(delta_time) {
        steered(
            boid,
            cohesion_target(boid, entries),
            strength_of(boid.rotation_speed as int, delta_time, COHESION_STRENGTH as int),
        )
    } else {
        boid
    }
}

/// `boid` after the alignment rule has acted on it for `delta_time`.
pub open spec fn alignment_applied(
    boid: Boid,
    entries: Seq<Entry>,
    headings: Seq<Vec2>,
    delta_time: int,
) -> Boid {
    if valid_step(delta_time) {
        steered(
            boid,
            alignment_target(boid, entries, headings),
            strength_of(boid.rotation_speed as int, delta_time, ALIGNMENT_STRENGTH as int),
        )
    } else {
        boid
    }
}

/// `boid` after the separation rule has acted on it for `delta_time`.
pub open spec fn separation_applied(boid: Boid, entries: Seq<Entry>, delta_time: int) -> Boid {
    if valid_step(delta_time) {
        steered(
            boid,
            separation_target(boid, entries),
            strength_of(boid.rotation_speed as int, delta_time, SEPARATION_STRENGTH as int),
        )
    } else {
        boid
    }
}

/// Every boid of the flock is well-formed.
pub open spec fn all_wf(boids: Seq<Boid>) -> bool {
    forall|i: int| 0 <= i < boids.len() ==> (#[trigger] boids[i]).wf()
}

/// Turns `boid` toward `target` by `strength`, unless there is no target or
/// the target is the zero vector.
pub fn steer(boid: &mut Boid, target: Option<Vec2>, strength: i64)
    requires
        is_unit(old(boid).direction),
        target matches Some(t) ==> within_extent(t, MAX_EXTENT as int),
        -MAX_COORD <= strength <= MAX_COORD,
    ensures
        *final(boid) == steered(*old(boid), target, strength as int),
        is_unit(final(boid).direction),
{
    match target {
        Some(t) => {
            if t.x != 0 || t.y != 0 {
                rotate_boid_direction(boid, t, strength);
            }
        },
        None => {},
    }
}

/// The three sums that `calculate_average_point` and the separation rule
/// take over a list: how many entries are not those of `ignore`, and the
/// sums of their coordinates, from which `origin` is taken off each.
fn sum_others(list: &Vec<Entry>, ignore: u64, origin: Vec2) -> (sums: (usize, i128, i128))
    requires
        all_in_range(list@),
        within_extent(origin, MAX_COORD as int),
    ensures
        sums.0 == total(list@, other_than(ignore, each_one())),
        sums.1 == total(list@, other_than(ignore, offset_x(origin))),
        sums.2 == total(list@, other_than(ignore, offset_y(origin))),
        -(sums.0 * (2 * MAX_COORD)) <= sums.1 <= sums.0 * (2 * MAX_COORD),
        -(sums.0 * (2 * MAX_COORD)) <= sums.2 <= sums.0 * (2 * MAX_COORD),
{
    let mut count: usize = 0;
    let mut sum_x: i128 = 0;
    let mut sum_y: i128 = 0;
    let mut i: usize = 0;
    while i < list.len()
        invariant
            i <= list.len(),
            all_in_range(list@),
            within_extent(origin, MAX_COORD as int),
            count <= i,
            count == total(list@.take(i as int), other_than(ignore, each_one())),
            sum_x == total(list@.take(i as int), other_than(ignore, offset_x(origin))),
            sum_y == total(list@.take(i as int), other_than(ignore, offset_y(origin))),
            -(count * 2_000_000_000_000) <= sum_x <= count * 2_000_000_000_000,
            -(count * 2_000_000_000_000) <= sum_y <= count * 2_000_000_000_000,
        decreases list.len() - i,
    {
        proof {
            let next = list@.take(i + 1);
            assert(next.drop_last() == list@.take(i as int));
            assert(next.last() == list@[i as int]);
            assert(within_extent(list@[i as int].position, MAX_COORD as int));
        }
        let e = list[i];
        if e.id != ignore {
            count += 1;
            sum_x += (e.position.x - origin.x) as i128;
            sum_y += (e.position.y - origin.y) as i128;
        }
        i += 1;
    }
    proof {
        assert(list@.take(i as int) == list@);
    }
    (count, sum_x, sum_y)
}

/// The mean position of the entries of `point_list` that do not belong to
/// the boid `ignore`, or `None` where every entry is its own.
pub fn calculate_average_point(point_list: &Vec<Entry>, ignore: u64) -> (average: Option<Vec2>)
    requires
        all_in_range(point_list@),
    ensures
        average == average_point(point_list@, ignore),
        average matches Some(p) ==> within_extent(p, 2 * MAX_COORD),
{
    let origin = Vec2 { x: 0, y: 0 };
    let (count, sum_x, sum_y) = sum_others(point_list, ignore, origin);
    proof {
        lemma_total_agrees(
            point_list@,
            other_than(ignore, offset_x(origin)),
            other_than(ignore, position_x()),
        );
        lemma_total_agrees(
            point_list@,
            other_than(ignore, offset_y(origin)),
            other_than(ignore, position_y()),
        );
    }
    mean_point(count, sum_x, sum_y)
}

/// The mean of `count` vectors whose coordinates add up to `sum_x` and
/// `sum_y`.
fn mean_point(count: usize, sum_x: i128, sum_y: i128) -> (mean: Option<Vec2>)
    requires
        -(count * (2 * MAX_COORD)) <= sum_x <= count * (2 * MAX_COORD),
        -(count * (2 * MAX_COORD)) <= sum_y <= count * (2 * MAX_COORD),
    ensures
        mean == mean_of(count as int, sum_x as int, sum_y as int),
        mean matches Some(p) ==> within_extent(p, 2 * MAX_COORD),
{
    if count == 0 {
        None
    } else {
        proof {
            lemma_mean_bound(sum_x as int, count as int, 2 * MAX_COORD);
            lemma_mean_bound(sum_y as int, count as int, 2 * MAX_COORD);
        }
        Some(Vec2 { x: (sum_x / (count as i128)) as i64, y: (sum_y / (count as i128)) as i64 })
    }
}

/// The sums that the alignment rule takes over a list: how many entries are
/// not those of `ignore`, and the sums of the coordinates of the headings
/// that `headings` records for them.
fn sum_headings(list: &Vec<Entry>, ignore: u64, headings: &Vec<Vec2>) -> (sums: (usize, i128, i128))
    requires
        headings_known(list@, headings@),
    ensures
        sums.0 == total(list@, other_than(ignore, each_one())),
        sums.1 == total(list@, other_than(ignore, heading_x(headings@))),
        sums.2 == total(list@, other_than(ignore, heading_y(headings@))),
        -(sums.0 * (2 * MAX_COORD)) <= sums.1 <= sums.0 * (2 * MAX_COORD),
        -(sums.0 * (2 * MAX_COORD)) <= sums.2 <= sums.0 * (2 * MAX_COORD),
{
    let known = headings.len();
    let mut count: usize = 0;
    let mut sum_x: i128 = 0;
    let mut sum_y: i128 = 0;
    let mut i: usize = 0;
    while i < list.len()
        invariant
            i <= list.len(),
            known == headings@.len(),
            headings_known(list@, headings@),
            count <= i,
            count == total(list@.take(i as int), other_than(ignore, each_one())),
            sum_x == total(list@.take(i as int), other_than(ignore, heading_x(headings@))),
            sum_y == total(list@.take(i as int), other_than(ignore, heading_y(headings@))),
            -(count * 1_000_002) <= sum_x <= count * 1_000_002,
            -(count * 1_000_002) <= sum_y <= count * 1_000_002,
        decreases list.len() - i,
    {
        proof {
            let next = list@.take(i + 1);
            assert(next.drop_last() == list@.take(i as int));
            assert(next.last() == list@[i as int]);
            assert(list@[i as int].id < headings@.len());
            lemma_unit_extent(headings@[list@[i as int].id as int]);
        }
        let e = list[i];
        if e.id != ignore {
            let heading = headings[e.id as usize];
            count += 1;
            sum_x += heading.x as i128;
            sum_y += heading.y as i128;
        }
        i += 1;
    }
    proof {
        assert(list@.take(i as int) == list@);
    }
    (count, sum_x, sum_y)
}

/// The cohesion rule on one boid.
fn cohere(boid: &mut Boid, index: &SpatialIndex, delta_time: i64)
    requires
        old(boid).wf(),
        all_in_range(index.entries()),
        valid_step(delta_time as int),
    ensures
        *final(boid) == cohesion_applied(*old(boid), index.entries(), delta_time as int),
        final(boid).wf(),
{
    let found = index.query_within(boid.position, boid.view_distance);
    proof {
        let keep = in_radius(boid.position, boid.view_distance as int);
        lemma_found_in_range(found@, index.entries(), keep);
        lemma_total_filtered(found@, index.entries(), keep, other_than(boid.id, each_one()));
        lemma_total_filtered(found@, index.entries(), keep, other_than(boid.id, position_x()));
        lemma_total_filtered(found@, index.entries(), keep, other_than(boid.id, position_y()));
    }
    let target = match calculate_average_point(&found, boid.id) {
        Some(mean) => Some(Vec2 { x: mean.x - boid.position.x, y: mean.y - boid.position.y }),
        None => None,
    };
    let strength = steering_strength(boid.rotation_speed, delta_time, COHESION_STRENGTH);
    steer(boid, target, strength);
}

/// The alignment rule on one boid.
fn align(boid: &mut Boid, index: &SpatialIndex, headings: &Vec<Vec2>, delta_time: i64)
    requires
        old(boid).wf(),
        headings_known(index.entries(), headings@),
        valid_step(delta_time as int),
    ensures
        *final(boid) == alignment_applied(
            *old(boid),
            index.entries(),
            headings@,
            delta_time as int,
        ),
        final(boid).wf(),
{
    let found = index.query_within(boid.position, boid.view_distance);
    proof {
        let keep = in_radius(boid.position, boid.view_distance as int);
        lemma_found_among(found@, index.entries(), keep);
        assert forall|i: int| 0 <= i < found@.len() implies (#[trigger] found@[i]).id
            < headings@.len() by {
            let at = choose|at: int|
                0 <= at < index.entries().len() && index.entries()[at] == found@[i];
            assert(index.entries()[at].id < headings@.len());
        }
        lemma_total_filtered(found@, index.entries(), keep, other_than(boid.id, each_one()));
        lemma_total_filtered(
            found@,
            index.entries(),
            keep,
            other_than(boid.id, heading_x(headings@)),
        );
        lemma_total_filtered(
            found@,
            index.entries(),
            keep,
            other_than(boid.id, heading_y(headings@)),
        );
    }
    let (count, sum_x, sum_y) = sum_headings(&found, boid.id, headings);
    let target = mean_point(count, sum_x, sum_y);
    let strength = steering_strength(boid.rotation_speed, delta_time, ALIGNMENT_STRENGTH);
    steer(boid, target, strength);
}

/// The separation rule on one boid.
fn separate(boid: &mut Boid, index: &SpatialIndex, delta_time: i64)
    requires
        old(boid).wf(),
        all_in_range(index.entries()),
        valid_step(delta_time as int),
    ensures
        *final(boid) == separation_applied(*old(boid), index.entries(), delta_time as int),
        final(boid).wf(),
{
    let found = index.query_within(boid.position, boid.separation_distance);
    proof {
        let keep = in_radius(boid.position, boid.separation_distance as int);
        lemma_found_in_range(found@, index.entries(), keep);
        lemma_total_filtered(found@, index.entries(), keep, each_one());
        lemma_total_bounds(found@, each_one(), 1, 1);
        lemma_total_filtered(found@, index.entries(), keep, other_than(boid.id, each_one()));
        lemma_total_filtered(
            found@,
            index.entries(),
            keep,
            other_than(boid.id, offset_x(boid.position)),
        );
        lemma_total_filtered(
            found@,
            index.entries(),
            keep,
            other_than(boid.id, offset_y(boid.position)),
        );
    }
    if found.len() <= 1 {
        return ;
    }
    let (count, sum_x, sum_y) = sum_others(&found, boid.id, boid.position);
    let target = match mean_point(count, sum_x, sum_y) {
        Some(mean) => Some(Vec2 { x: -mean.x, y: -mean.y }),
        None => None,
    };
    let strength = steering_strength(boid.rotation_speed, delta_time, SEPARATION_STRENGTH);
    steer(boid, target, strength);
}

/// The separation rule: every boid turns away from the mean position of the
/// entries of `index` that lie within its separation distance.
pub fn boid_separation_system(boids: &mut Vec<Boid>, index: &SpatialIndex, delta_time: i64)
    requires
        all_wf(old(boids)@),
        all_in_range(index.entries()),
    ensures
        final(boids)@.len() == old(boids)@.len(),
        forall|i: int|
            0 <= i < old(boids)@.len() ==> #[trigger] final(boids)@[i] == separation_applied(
                old(boids)@[i],
                index.entries(),
                delta_time as int,
            ),
        all_wf(final(boids)@),
{
    if delta_time <= 0 || delta_time > MAX_RATE {
        return ;
    }
    let ghost before = boids@;
    let mut i: usize = 0;
    while i < boids.len()
        invariant
            i <= boids@.len(),
            boids@.len() == before.len(),
            all_wf(before),
            all_wf(boids@),
            all_in_range(index.entries()),
            valid_step(delta_time as int),
            forall|j: int|
                0 <= j < i ==> #[trigger] boids@[j] == separation_applied(
                    before[j],
                    index.entries(),
                    delta_time as int,
                ),
            forall|j: int| i <= j < before.len() ==> #[trigger] boids@[j] == before[j],
        decreases boids@.len() - i,
    {
        let mut boid = boids[i];
        separate(&mut boid, index, delta_time);
        boids[i] = boid;
        i += 1;
    }
}

/// The alignment rule: every boid turns toward the mean of the headings that
/// `headings` records for the entries of `index` within its view distance.
/// `headings` holds the heading of each boid under its handle, as it was
/// before any rule of the step acted.
pub fn boid_alignment_system(
    boids: &mut Vec<Boid>,
    index: &SpatialIndex,
    headings: &Vec<Vec2>,
    delta_time: i64,
)
    requires
        all_wf(old(boids)@),
        headings_known(index.entries(), headings@),
    ensures
        final(boids)@.len() == old(boids)@.len(),
        forall|i: int|
            0 <= i < old(boids)@.len() ==> #[trigger] final(boids)@[i] == alignment_applied(
                old(boids)@[i],
                index.entries(),
                headings@,
                delta_time as int,
            ),
        all_wf(final(boids)@),
{
    if delta_time <= 0 || delta_time > MAX_RATE {
        return ;
    }
    let ghost before = boids@;
    let mut i: usize = 0;
    while i < boids.len()
        invariant
            i <= boids@.len(),
            boids@.len() == before.len(),
            all_wf(before),
            all_wf(boids@),
            headings_known(index.entries(), headings@),
            valid_step(delta_time as int),
            forall|j: int|
                0 <= j < i ==> #[trigger] boids@[j] == alignment_applied(
                    before[j],
                    index.entries(),
                    headings@,
                    delta_time as int,
                ),
            forall|j: int| i <= j < before.len() ==> #[trigger] boids@[j] == before[j],
        decreases boids@.len() - i,
    {
        let mut boid = boids[i];
        align(&mut boid, index, headings, delta_time);
        boids[i] = boid;
        i += 1;
    }
}

/// The cohesion rule: every boid turns toward the mean position of the
/// entries of `index` that lie within its view distance.
pub fn boid_cohesion_system(boids: &mut Vec<Boid>, index: &SpatialIndex, delta_time: i64)
    requires
        all_wf(old(boids)@),
        all_in_range(index.entries()),
    ensures
        final(boids)@.len() == old(boids)@.len(),
        forall|i: int|
            0 <= i < old(boids)@.len() ==> #[trigger] final(boids)@[i] == cohesion_applied(
                old(boids)@[i],
                index.entries(),
                delta_time as int,
            ),
        all_wf(final(boids)@),
{
    if delta_time <= 0 || delta_time > MAX_RATE {
        return ;
    }
    let ghost before = boids@;
    let mut i: usize = 0;
    while i < boids.len()
        invariant
            i <= boids@.len(),
            boids@.len() == before.len(),
            all_wf(before),
            all_wf(boids@),
            all_in_range(index.entries()),
            valid_step(delta_time as int),
            forall|j: int|
                0 <= j < i ==> #[trigger] boids@[j] == cohesion_applied(
                    before[j],
                    index.entries(),
                    delta_time as int,
                ),
            forall|j: int| i <= j < before.len() ==> #[trigger] boids@[j] == before[j],
        decreases boids@.len() - i,
    {
        let mut boid = boids[i];
        cohere(&mut boid, index, delta_time);
        boids[i] = boid;
        i += 1;
    }
}

/// The cohesion rule does not depend on the order in which the index holds
/// its entries.
pub proof fn lemma_cohesion_order(boid: Boid, first: Seq<Entry>, second: Seq<Entry>)
    requires
        first.to_multiset() == second.to_multiset(),
    ensures
        cohesion_target(boid, first) == cohesion_target(boid, second),
{
    let keep = in_radius(boid.position, boid.view_distance as int);
    lemma_total_permutation(first, second, restricted(keep, other_than(boid.id, each_one())));
    lemma_total_permutation(first, second, restricted(keep, other_than(boid.id, position_x())));
    lemma_total_permutation(first, second, restricted(keep, other_than(boid.id, position_y())));
}

/// The alignment rule does not depend on the order in which the index holds
/// its entries.
pub proof fn lemma_alignment_order(
    boid: Boid,
    first: Seq<Entry>,
    second: Seq<Entry>,
    headings: Seq<Vec2>,
)
    requires
        first.to_multiset() == second.to_multiset(),
    ensures
        alignment_target(boid, first, headings) == alignment_target(boid, second, headings),
{
    let keep = in_radius(boid.position, boid.view_distance as int);
    lemma_total_permutation(first, second, restricted(keep, other_than(boid.id, each_one())));
    lemma_total_permutation(
        first,
        second,
        restricted(keep, other_than(boid.id, heading_x(headings))),
    );
    lemma_total_permutation(
        first,
        second,
        restricted(keep, other_than(boid.id, heading_y(headings))),
    );
}

/// The separation rule does not depend on the order in which the index holds
/// its entries.
pub proof fn lemma_separation_order(boid: Boid, first: Seq<Entry>, second: Seq<Entry>)
    requires
        first.to_multiset() == second.to_multiset(),
    ensures
        separation_target(boid, first) == separation_target(boid, second),
{
    let keep = in_radius(boid.position, boid.separation_distance as int);
    lemma_total_permutation(first, second, restricted(keep, each_one()));
    lemma_total_permutation(first, second, restricted(keep, other_than(boid.id, each_one())));
    lemma_total_permutation(
        first,
        second,
        restricted(keep, other_than(boid.id, offset_x(boid.position))),
    );
    lemma_total_permutation(
        first,
        second,
        restricted(keep, other_than(boid.id, offset_y(boid.position))),
    );
}

/// How many entries lie closer to `point` than `radius`: the number of
/// results of a query of the index.
pub open spec fn results_within(entries: Seq<Entry>, point: Vec2, radius: int) -> int {
    total(entries, restricted(in_radius(point, radius), each_one()))
}

/// A boid that has no neighbor within its view distance keeps its heading
/// under the cohesion rule and under the alignment rule: where every entry
/// within that distance is the boid's own, neither rule changes the boid.
pub proof fn lemma_no_neighbor_no_turn(
    boid: Boid,
    entries: Seq<Entry>,
    headings: Seq<Vec2>,
    delta_time: int,
)
    requires
        forall|i: int|
            0 <= i < entries.len() && within_radius(
                #[trigger] entries[i],
                boid.position,
                boid.view_distance as int,
            ) ==> entries[i].id == boid.id,
    ensures
        cohesion_applied(boid, entries, delta_time) == boid,
        alignment_applied(boid, entries, headings, delta_time) == boid,
{
    let keep = in_radius(boid.position, boid.view_distance as int);
    let others = restricted(keep, other_than(boid.id, each_one()));
    assert forall|i: int| 0 <= i < entries.len() implies 0 <= #[trigger] others(entries[i])
        <= 0 by {
        assert(keep(entries[i]) == within_radius(
            entries[i],
            boid.position,
            boid.view_distance as int,
        ));
    }
    lemma_total_bounds(entries, others, 0, 0);
    assert(entries.len() * 0 == 0);
}

/// A boid with fewer than two results within its separation distance keeps
/// its heading under the separation rule.
pub proof fn lemma_alone_no_turn(boid: Boid, entries: Seq<Entry>, delta_time: int)
    requires
        results_within(entries, boid.position, boid.separation_distance as int) < 2,
    ensures
        separation_applied(boid, entries, delta_time) == boid,
{
}

} // verus!
