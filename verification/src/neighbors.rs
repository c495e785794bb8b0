//! Sums over the entries that a query of the index returns, and why the order
//! of the entries does not matter to them.

use vstd::prelude::*;
use vstd::multiset::group_multiset_axioms;
use vstd::seq_lib::group_to_multiset_ensures;
use crate::fixed::{div_toward_zero, MAX_COORD};
use crate::index::Entry;
use crate::vector::{within_extent, Vec2};

verus! {

/// The sum of `weight` over the entries of `list`.
pub open spec fn total(list: Seq<Entry>, weight: spec_fn(Entry) -> int) -> int
    decreases list.len(),
{
    if list.len() == 0 {
        0
    } else {
        total(list.drop_last(), weight) + weight(list.last())
    }
}

/// `weight` on the entries that pass `keep`, and zero on the others.
pub open spec fn restricted(keep: spec_fn(Entry) -> bool, weight: spec_fn(Entry) -> int) -> spec_fn(
    Entry,
) -> int {
    |e: Entry|
        if keep(e) {
            weight(e)
        } else {
            0
        }
}

/// `weight` on the entries of every boid but `ignore`, and zero on its own.
pub open spec fn other_than(ignore: u64, weight: spec_fn(Entry) -> int) -> spec_fn(Entry) -> int {
    |e: Entry|
        if e.id != ignore {
            weight(e)
        } else {
            0
        }
}

/// The weight that counts entries.
pub open spec fn each_one() -> spec_fn(Entry) -> int {
    |e: Entry| 1
}

/// The weight that adds up first coordinates.
pub open spec fn position_x() -> spec_fn(Entry) -> int {
    |e: Entry| e.position.x as int
}

/// The weight that adds up second coordinates.
pub open spec fn position_y() -> spec_fn(Entry) -> int {
    |e: Entry| e.position.y as int
}

/// Every entry of `list` lies within `MAX_COORD` of the origin on both axes.
pub open spec fn all_in_range(list: Seq<Entry>) -> bool {
    forall|i: int| 0 <= i < list.len() ==> within_extent(#[trigger] list[i].position, MAX_COORD as int)
}

/// The mean of `count` vectors whose coordinates add up to `sum_x` and
/// `sum_y`, each coordinate rounded toward zero; `None` where there is none.
pub open spec fn mean_of(count: int, sum_x: int, sum_y: int) -> Option<Vec2> {
    if count == 0 {
        None
    } else {
        Some(
            Vec2 {
                x: div_toward_zero(sum_x, count) as i64,
                y: div_toward_zero(sum_y, count) as i64,
            },
        )
    }
}

/// The mean position of the entries of `list` that do not belong to the
/// boid `ignore`; `None` where there is no such entry.
pub open spec fn average_point(list: Seq<Entry>, ignore: u64) -> Option<Vec2> {
    mean_of(
        total(list, other_than(ignore, each_one())),
        total(list, other_than(ignore, position_x())),
        total(list, other_than(ignore, position_y())),
    )
}

/// A mean of `count` numbers of magnitude at most `bound` has magnitude at
/// most `bound`.
pub proof fn lemma_mean_bound(sum: int, count: int, bound: int)
    requires
        0 < count,
        0 <= bound,
        -(count * bound) <= sum <= count * bound,
    ensures
        -bound <= div_toward_zero(sum, count) <= bound,
{
    if sum >= 0 {
        assert(0 <= sum / count <= bound) by (nonlinear_arith)
            requires
                0 <= sum <= count * bound,
                0 < count,
        ;
    } else {
        assert(0 <= (-sum) / count <= bound) by (nonlinear_arith)
            requires
                0 <= -sum <= count * bound,
                0 < count,
        ;
    }
}

/// A sum over weights between `low` and `high` lies between the length times
/// `low` and the length times `high`.
pub proof fn lemma_total_bounds(list: Seq<Entry>, weight: spec_fn(Entry) -> int, low: int, high: int)
    requires
        forall|i: int| 0 <= i < list.len() ==> low <= #[trigger] weight(list[i]) <= high,
    ensures
        list.len() * low <= total(list, weight) <= list.len() * high,
    decreases list.len(),
{
    if list.len() > 0 {
        let rest = list.drop_last();
        assert forall|i: int| 0 <= i < rest.len() implies low <= #[trigger] weight(rest[i])
            <= high by {
            assert(rest[i] == list[i]);
        }
        lemma_total_bounds(rest, weight, low, high);
        assert(list.last() == list[list.len() - 1]);
        assert(list.len() * low == rest.len() * low + low && list.len() * high == rest.len() * high
            + high) by (nonlinear_arith)
            requires
                list.len() == rest.len() + 1,
        ;
    }
}

/// Two weights that agree on every entry of `list` have the same sum.
pub proof fn lemma_total_agrees(
    list: Seq<Entry>,
    first: spec_fn(Entry) -> int,
    second: spec_fn(Entry) -> int,
)
    requires
        forall|i: int| 0 <= i < list.len() ==> #[trigger] first(list[i]) == second(list[i]),
    ensures
        total(list, first) == total(list, second),
    decreases list.len(),
{
    if list.len() > 0 {
        let rest = list.drop_last();
        assert forall|i: int| 0 <= i < rest.len() implies #[trigger] first(rest[i]) == second(
            rest[i],
        ) by {
            assert(rest[i] == list[i]);
        }
        lemma_total_agrees(rest, first, second);
        assert(list.last() == list[list.len() - 1]);
    }
}

/// Taking one entry out of a list takes its weight out of the sum.
pub proof fn lemma_total_remove(list: Seq<Entry>, at: int, weight: spec_fn(Entry) -> int)
    requires
        0 <= at < list.len(),
    ensures
        total(list, weight) == total(list.remove(at), weight) + weight(list[at]),
    decreases list.len(),
{
    if at == list.len() - 1 {
        assert(list.remove(at) == list.drop_last());
    } else {
        let rest = list.drop_last();
        lemma_total_remove(rest, at, weight);
        assert(list.remove(at).drop_last() == rest.remove(at));
        assert(list.remove(at).last() == list.last());
    }
}

/// Where `found` holds exactly the entries of `all` that pass `keep`, in any
/// order, a sum over `found` is the sum over `all` of the weight restricted
/// to `keep`.
pub proof fn lemma_total_filtered(
    found: Seq<Entry>,
    all: Seq<Entry>,
    keep: spec_fn(Entry) -> bool,
    weight: spec_fn(Entry) -> int,
)
    requires
        found.to_multiset() == all.to_multiset().filter(keep),
    ensures
        total(found, weight) == total(all, restricted(keep, weight)),
    decreases all.len(),
{
    broadcast use group_multiset_axioms;
    broadcast use group_to_multiset_ensures;

    if all.len() == 0 {
        assert(all.to_multiset().len() == 0);
        assert(all.to_multiset().filter(keep) =~= all.to_multiset());
        assert(found.len() == found.to_multiset().len());
    } else {
        let rest = all.drop_last();
        let last = all.last();
        assert(all == rest.push(last));
        assert(all.to_multiset() =~= rest.to_multiset().insert(last));
        if keep(last) {
            assert(found.to_multiset().count(last) > 0);
            assert(found.contains(last));
            let at = choose|at: int| 0 <= at < found.len() && found[at] == last;
            let fewer = found.remove(at);
            assert(fewer.to_multiset() =~= found.to_multiset().remove(last));
            assert(fewer.to_multiset() =~= rest.to_multiset().filter(keep));
            lemma_total_filtered(fewer, rest, keep, weight);
            lemma_total_remove(found, at, weight);
        } else {
            assert(found.to_multiset() =~= rest.to_multiset().filter(keep));
            lemma_total_filtered(found, rest, keep, weight);
        }
    }
}

/// A sum does not depend on the order of the entries.
pub proof fn lemma_total_permutation(
    first: Seq<Entry>,
    second: Seq<Entry>,
    weight: spec_fn(Entry) -> int,
)
    requires
        first.to_multiset() == second.to_multiset(),
    ensures
        total(first, weight) == total(second, weight),
{
    broadcast use group_multiset_axioms;

    let keep = |e: Entry| true;
    assert(second.to_multiset().filter(keep) =~= second.to_multiset());
    lemma_total_filtered(first, second, keep, weight);
    lemma_total_agrees(second, restricted(keep, weight), weight);
}

/// Where `found` holds exactly the entries of `all` that pass `keep`, each
/// of its entries is an entry of `all` and passes `keep`.
pub proof fn lemma_found_among(found: Seq<Entry>, all: Seq<Entry>, keep: spec_fn(Entry) -> bool)
    requires
        found.to_multiset() == all.to_multiset().filter(keep),
    ensures
        forall|i: int|
            0 <= i < found.len() ==> keep(#[trigger] found[i]) && exists|at: int|
                0 <= at < all.len() && all[at] == found[i],
{
    broadcast use group_multiset_axioms;
    broadcast use group_to_multiset_ensures;

    assert forall|i: int| 0 <= i < found.len() implies keep(#[trigger] found[i]) && exists|at: int|
        0 <= at < all.len() && all[at] == found[i] by {
        let e = found[i];
        assert(found.contains(e));
        assert(found.to_multiset().count(e) > 0);
        assert(all.to_multiset().count(e) > 0);
        assert(all.contains(e));
    }
}

/// The entries of a list that holds only entries of `all` are in range where
/// those of `all` are.
pub proof fn lemma_found_in_range(found: Seq<Entry>, all: Seq<Entry>, keep: spec_fn(Entry) -> bool)
    requires
        found.to_multiset() == all.to_multiset().filter(keep),
        all_in_range(all),
    ensures
        all_in_range(found),
        forall|i: int| 0 <= i < found.len() ==> keep(#[trigger] found[i]),
{
    broadcast use group_multiset_axioms;
    broadcast use group_to_multiset_ensures;

    assert forall|i: int| 0 <= i < found.len() implies keep(#[trigger] found[i])
        && within_extent(found[i].position, MAX_COORD as int) by {
        let e = found[i];
        assert(found.contains(e));
        assert(found.to_multiset().count(e) > 0);
        assert(all.to_multiset().count(e) > 0);
        assert(all.contains(e));
        let at = choose|at: int| 0 <= at < all.len() && all[at] == e;
        assert(within_extent(all[at].position, MAX_COORD as int));
    }
}

} // verus!
