//! The spatial index: a k-d tree over the positions of the flock.

use vstd::prelude::*;
use vstd::multiset::group_multiset_axioms;
use vstd::seq_lib::group_to_multiset_ensures;
use crate::boid::Boid;
use crate::vector::Vec2;

verus! {

/// What the index holds of one boid: where it was when the index was
/// refreshed, and its handle.
#[derive(Clone, Copy, Debug, PartialEq, Eq, Structural)]
pub struct Entry {
    pub position: Vec2,
    pub id: u64,
}

/// The squared distance between two points, as a plain integer.
pub open spec fn dist_sq(a: Vec2, b: Vec2) -> int {
    (a.x - b.x) * (a.x - b.x) + (a.y - b.y) * (a.y - b.y)
}

/// `entry` lies closer to `point` than `radius`. The boundary is outside.
pub open spec fn within_radius(entry: Entry, point: Vec2, radius: int) -> bool {
    radius > 0 && dist_sq(entry.position, point) < radius * radius
}

/// The test whether an entry lies closer to `point` than `radius`.
pub open spec fn in_radius(point: Vec2, radius: int) -> spec_fn(Entry) -> bool {
    |e: Entry| within_radius(e, point, radius)
}

/// The entry of a boid.
pub open spec fn entry_of(boid: Boid) -> Entry {
    Entry { position: boid.position, id: boid.id }
}

/// The entries of a flock, in the order of the flock.
pub open spec fn entries_of(boids: Seq<Boid>) -> Seq<Entry> {
    boids.map_values(|b: Boid| entry_of(b))
}

/// A k-d tree of the crate `kd_tree` over the positions of the flock, each
/// tagged with the handle of its boid. Verus does not look inside.
#[verifier::external_body]
pub struct SpatialIndex {
    tree: kd_tree::KdTree2<([i128; 2], u64)>,
}

/// The items of the tree, in the order in which the tree stores them.
pub uninterp spec fn indexed(index: SpatialIndex) -> Seq<Entry>;

/// Calls `kd_tree::KdTree::build`, which sorts the items it is given into a
/// k-d tree. Trusted: the tree holds the items handed in, each as often as it
/// was handed in, in an order of its own.
#[verifier::external_body]
fn tree_build(entries: Vec<Entry>) -> (index: SpatialIndex)
    ensures
        indexed(index).to_multiset() == entries@.to_multiset(),
{
    SpatialIndex {
        tree: kd_tree::KdTree2::build(
            entries.into_iter().map(|e| ([e.position.x as i128, e.position.y as i128], e.id)).collect(),
        ),
    }
}

/// Calls `kd_tree::KdSliceN::within_radius`, which collects the items of the
/// tree whose squared distance to the query point is less than the square of
/// the radius. Trusted: the result holds exactly those items, each as often
/// as the tree holds it, in no stated order. The tree computes in `i128`, in
/// which no distance between two `i64` points overflows.
#[verifier::external_body]
fn tree_within(index: &SpatialIndex, point: Vec2, radius: i64) -> (found: Vec<Entry>)
    requires
        0 <= radius,
    ensures
        found@.to_multiset() == indexed(*index).to_multiset().filter(
            |e: Entry| dist_sq(e.position, point) < radius * radius,
        ),
{
    index.tree.within_radius(&[point.x as i128, point.y as i128], radius as i128).into_iter().map(
        |item| Entry { position: Vec2 { x: item.0[0] as i64, y: item.0[1] as i64 }, id: item.1 },
    ).collect()
}

impl SpatialIndex {
    /// The entries that the index holds, in the order of the tree.
    pub open spec fn entries(&self) -> Seq<Entry> {
        indexed(*self)
    }

    /// An index that holds nothing.
    pub fn new() -> (index: SpatialIndex)
        ensures
            index.entries().len() == 0,
    {
        let index = tree_build(Vec::new());
        proof {
            broadcast use group_to_multiset_ensures;

            assert(Seq::<Entry>::empty().to_multiset().len() == 0);
            assert(index.entries().to_multiset().len() == index.entries().len());
        }
        index
    }

    /// Rebuilds the index from the positions of `boids`: afterwards it holds
    /// one entry for each boid.
    pub fn refresh(&mut self, boids: &Vec<Boid>)
        ensures
            final(self).entries().to_multiset() == entries_of(boids@).to_multiset(),
    {
        let mut entries: Vec<Entry> = Vec::new();
        let mut i: usize = 0;
        while i < boids.len()
            invariant
                i <= boids.len(),
                entries@ == entries_of(boids@.take(i as int)),
            decreases boids.len() - i,
        {
            entries.push(Entry { position: boids[i].position, id: boids[i].id });
            proof {
                assert(boids@.take(i + 1) == boids@.take(i as int).push(boids@[i as int]));
                assert(entries@ =~= entries_of(boids@.take(i + 1)));
            }
            i += 1;
        }
        proof {
            assert(boids@.take(i as int) == boids@);
        }
        *self = tree_build(entries);
    }

    /// Every entry of the index that lies closer to `point` than `radius`,
    /// in no stated order. A boid whose own position is asked about is among
    /// them: leaving it out is the caller's part.
    pub fn query_within(&self, point: Vec2, radius: i64) -> (found: Vec<Entry>)
        ensures
            found@.to_multiset() == self.entries().to_multiset().filter(
                in_radius(point, radius as int),
            ),
    {
        let ghost wanted = self.entries().to_multiset().filter(in_radius(point, radius as int));
        if radius <= 0 {
            let found: Vec<Entry> = Vec::new();
            proof {
                broadcast use group_multiset_axioms;
                broadcast use group_to_multiset_ensures;

                assert(found@.to_multiset().len() == 0);
                assert(found@.to_multiset() =~= wanted);
            }
            found
        } else {
            let found = tree_within(self, point, radius);
            proof {
                broadcast use group_multiset_axioms;

                assert(found@.to_multiset() =~= wanted);
            }
            found
        }
    }
}

} // verus!
