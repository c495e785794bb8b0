//! The flock as a whole: how a boid joins it, and one step of its update.

use vstd::prelude::*;
use vstd::multiset::group_multiset_axioms;
use vstd::seq_lib::group_to_multiset_ensures;
use crate::boid::{
    valid_step, Boid, DEFAULT_ROTATION_SPEED, DEFAULT_SEPARATION_DISTANCE, DEFAULT_SPEED,
    DEFAULT_VIEW_DISTANCE,
};
use crate::fixed::{MAX_COORD, MAX_EXTENT, MAX_RATE};
use crate::index::{entries_of, entry_of, Entry, SpatialIndex};
use crate::motion::{
    avoid_walls_system, lemma_moved, manual_applied, move_boid_system, moved,
    rotate_boid_manual_system, walled, SteerInput,
};
use crate::neighbors::all_in_range;
use crate::rules::{
    alignment_applied, all_wf, boid_alignment_system, boid_cohesion_system,
    boid_separation_system, cohesion_applied, headings_known, lemma_alignment_order,
    lemma_cohesion_order, lemma_separation_order, separation_applied,
};
use crate::vector::{is_unit, normalized, within_extent, Vec2};

verus! {

/// Every boid of the flock is well-formed, and its handle is its place in
/// the flock.
pub open spec fn flock_wf(boids: Seq<Boid>) -> bool {
    &&& all_wf(boids)
    &&& forall|i: int| 0 <= i < boids.len() ==> (#[trigger] boids[i]).id == i
}

/// The headings of a flock, each under the handle of its boid.
pub open spec fn headings_of(boids: Seq<Boid>) -> Seq<Vec2> {
    boids.map_values(|b: Boid| b.direction)
}

/// The boid that joins a flock under the handle `id` at `position`, headed
/// along `heading`.
pub open spec fn spawned(id: u64, position: Vec2, heading: Vec2) -> Boid {
    Boid {
        id,
        position,
        speed: DEFAULT_SPEED,
        rotation_speed: DEFAULT_ROTATION_SPEED,
        direction: normalized(heading),
        view_distance: DEFAULT_VIEW_DISTANCE,
        separation_distance: DEFAULT_SEPARATION_DISTANCE,
    }
}

/// The boid at place `i` of `boids` after one step of `delta_time`: it
/// turns by separation, alignment, cohesion and manual steering, in this
/// order, then moves and wraps at the walls. Each rule sees the positions,
/// and alignment the headings, that the flock had before the step. A step
/// that is not valid changes nothing.
pub open spec fn ticked(
    boids: Seq<Boid>,
    i: int,
    delta_time: int,
    input: SteerInput,
    width: int,
    height: int,
) -> Boid {
    if valid_step(delta_time) {
        let entries = entries_of(boids);
        let apart = separation_applied(boids[i], entries, delta_time);
        let aligned = alignment_applied(apart, entries, headings_of(boids), delta_time);
        let together = cohesion_applied(aligned, entries, delta_time);
        let steered = manual_applied(together, input, delta_time);
        walled(moved(steered, delta_time), width, height)
    } else {
        boids[i]
    }
}

/// Adds a boid at `position` to the flock, with the default speed, rotation
/// speed and radii, headed along `heading`, and returns its handle.
pub fn spawn_boid(boids: &mut Vec<Boid>, position: Vec2, heading: Vec2) -> (id: u64)
    requires
        flock_wf(old(boids)@),
        within_extent(position, MAX_COORD as int),
        within_extent(heading, MAX_EXTENT as int),
        heading.x != 0 || heading.y != 0,
    ensures
        id == old(boids)@.len(),
        final(boids)@ == old(boids)@.push(spawned(id, position, heading)),
        flock_wf(final(boids)@),
{
    let id = boids.len() as u64;
    boids.push(
        Boid {
            id,
            position,
            speed: DEFAULT_SPEED,
            rotation_speed: DEFAULT_ROTATION_SPEED,
            direction: heading.normalize(),
            view_distance: DEFAULT_VIEW_DISTANCE,
            separation_distance: DEFAULT_SEPARATION_DISTANCE,
        },
    );
    id
}

/// The headings of the flock as they are now, each under the handle of its
/// boid.
pub fn heading_snapshot(boids: &Vec<Boid>) -> (headings: Vec<Vec2>)
    ensures
        headings@ == headings_of(boids@),
{
    let mut headings: Vec<Vec2> = Vec::new();
    let mut i: usize = 0;
    while i < boids.len()
        invariant
            i <= boids.len(),
            headings@ == headings_of(boids@.take(i as int)),
        decreases boids.len() - i,
    {
        headings.push(boids[i].direction);
        proof {
            assert(boids@.take(i + 1) == boids@.take(i as int).push(boids@[i as int]));
            assert(headings@ =~= headings_of(boids@.take(i + 1)));
        }
        i += 1;
    }
    proof {
        assert(boids@.take(i as int) == boids@);
    }
    headings
}

/// Whether every boid of the flock is well-formed and carries its place in
/// the flock as its handle.
pub fn flock_is_valid(boids: &Vec<Boid>) -> (valid: bool)
    ensures
        valid == flock_wf(boids@),
{
    let mut i: usize = 0;
    while i < boids.len()
        invariant
            i <= boids.len(),
            flock_wf(boids@.take(i as int)),
        decreases boids.len() - i,
    {
        if !boids[i].is_valid() || boids[i].id != i as u64 {
            return false;
        }
        proof {
            let next = boids@.take(i + 1);
            assert forall|j: int| 0 <= j < next.len() implies (#[trigger] next[j]).wf() && next[j].id
                == j by {
                if j < i {
                    assert(boids@.take(i as int)[j] == next[j]);
                }
            }
        }
        i += 1;
    }
    proof {
        assert(boids@.take(i as int) == boids@);
    }
    true
}

/// An index that holds one entry for each boid of a well-formed flock is in
/// range, and the headings of the flock are known for each of its entries.
pub proof fn lemma_index_of_flock(held: Seq<Entry>, boids: Seq<Boid>)
    requires
        held.to_multiset() == entries_of(boids).to_multiset(),
        flock_wf(boids),
    ensures
        all_in_range(held),
        headings_known(held, headings_of(boids)),
{
    broadcast use group_multiset_axioms;
    broadcast use group_to_multiset_ensures;

    let entries = entries_of(boids);
    assert forall|i: int| 0 <= i < held.len() implies within_extent(
        (#[trigger] held[i]).position,
        MAX_COORD as int,
    ) && held[i].id < headings_of(boids).len() by {
        let e = held[i];
        assert(held.contains(e));
        assert(held.to_multiset().count(e) > 0);
        assert(entries.contains(e));
        let at = choose|at: int| 0 <= at < entries.len() && entries[at] == e;
        assert(entries[at] == entry_of(boids[at]));
        assert(boids[at].wf());
    }
    assert forall|k: int| 0 <= k < headings_of(boids).len() implies is_unit(
        #[trigger] headings_of(boids)[k],
    ) by {
        assert(boids[k].wf());
    }
}

/// One step of the flock: the index is refreshed from the positions, then
/// separation, alignment, cohesion and manual steering turn the headings,
/// the boids move, and those that left the plane wrap to the opposite edge.
/// Afterwards every boid is within the plane, and the index holds the
/// positions from which the step began. A `delta_time` that is not positive,
/// or greater than `MAX_RATE`, leaves flock and index as they are.
pub fn flock_update(
    boids: &mut Vec<Boid>,
    index: &mut SpatialIndex,
    delta_time: i64,
    input: SteerInput,
    width: i64,
    height: i64,
)
    requires
        flock_wf(old(boids)@),
        0 <= width <= MAX_COORD,
        0 <= height <= MAX_COORD,
    ensures
        final(boids)@.len() == old(boids)@.len(),
        forall|i: int|
            0 <= i < old(boids)@.len() ==> #[trigger] final(boids)@[i] == ticked(
                old(boids)@,
                i,
                delta_time as int,
                input,
                width as int,
                height as int,
            ),
        flock_wf(final(boids)@),
        valid_step(delta_time as int) ==> final(index).entries().to_multiset() == entries_of(
            old(boids)@,
        ).to_multiset(),
        valid_step(delta_time as int) ==> forall|i: int|
            0 <= i < old(boids)@.len() ==> 0 <= (#[trigger] final(boids)@[i]).position.x <= width
                && 0 <= final(boids)@[i].position.y <= height,
        !valid_step(delta_time as int) ==> *final(index) == *old(index),
{
    if delta_time <= 0 || delta_time > MAX_RATE {
        return ;
    }
    let ghost before = boids@;
    let ghost entries = entries_of(before);
    index.refresh(boids);
    let headings = heading_snapshot(boids);
    proof {
        lemma_index_of_flock(index.entries(), before);
    }
    boid_separation_system(boids, index, delta_time);
    let ghost apart = boids@;
    boid_alignment_system(boids, index, &headings, delta_time);
    let ghost aligned = boids@;
    boid_cohesion_system(boids, index, delta_time);
    let ghost together = boids@;
    rotate_boid_manual_system(boids, input, delta_time);
    let ghost steered = boids@;
    move_boid_system(boids, delta_time);
    let ghost shifted = boids@;
    avoid_walls_system(boids, width, height);
    proof {
        assert forall|i: int| 0 <= i < before.len() implies #[trigger] boids@[i] == ticked(
            before,
            i,
            delta_time as int,
            input,
            width as int,
            height as int,
        ) && boids@[i].wf() && boids@[i].id == i && 0 <= boids@[i].position.x <= width && 0
            <= boids@[i].position.y <= height by {
            lemma_separation_order(before[i], index.entries(), entries);
            lemma_alignment_order(apart[i], index.entries(), entries, headings@);
            lemma_cohesion_order(aligned[i], index.entries(), entries);
            assert(apart[i] == separation_applied(before[i], entries, delta_time as int));
            assert(aligned[i] == alignment_applied(
                apart[i],
                entries,
                headings_of(before),
                delta_time as int,
            ));
            assert(together[i] == cohesion_applied(aligned[i], entries, delta_time as int));
            assert(steered[i] == manual_applied(together[i], input, delta_time as int));
            assert(steered[i].wf());
            lemma_moved(steered[i], delta_time as int);
            assert(shifted[i] == moved(steered[i], delta_time as int));
            assert(before[i].id == i);
        }
    }
}

} // verus!
