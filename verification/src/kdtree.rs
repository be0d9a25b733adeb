//! The k-d tree behind the spatial index: entries laid out in a vector so
//! that the middle entry of every range splits the range along one axis,
//! the axes taking turns from level to level. A search within a radius
//! then skips every half that lies wholly beyond the radius along its axis.

use vstd::prelude::*;
use crate::spatial::{near, IndexEntry};
use crate::vector::{Axis, Vector};
use crate::vector::lemma_norm_squared;

verus! {

/// Where an entry lies along an axis.
pub open spec fn coordinate(entry: IndexEntry, axis: Axis) -> i32 {
    entry.position.along(axis)
}

/// Whether the entries are in ascending order along an axis.
pub open spec fn ascending(entries: Seq<IndexEntry>, axis: Axis) -> bool {
    forall|i: int, j: int|
        0 <= i <= j < entries.len() ==> coordinate(entries[i], axis) <= coordinate(entries[j], axis)
}

/// Whether the entries are laid out as a k-d tree whose root splits along
/// `axis`: no entry before the middle one lies beyond it along the axis,
/// none after it lies before it, and both halves are laid out likewise
/// along the next axis.
#[verifier::opaque]
pub open spec fn is_kd_tree(entries: Seq<IndexEntry>, axis: Axis) -> bool
    decreases entries.len(),
{
    if entries.len() <= 1 {
        true
    } else {
        let mid = entries.len() as int / 2;
        &&& forall|i: int|
            0 <= i < mid ==> coordinate(#[trigger] entries[i], axis) <= coordinate(entries[mid], axis)
        &&& forall|i: int|
            mid < i < entries.len() ==> coordinate(entries[mid], axis) <= coordinate(
                #[trigger] entries[i],
                axis,
            )
        &&& is_kd_tree(entries.subrange(0, mid), axis.next())
        &&& is_kd_tree(entries.subrange(mid + 1, entries.len() as int), axis.next())
    }
}

/// Pushing an entry onto what was merged from two runs is merging with the
/// entry pushed onto one of the runs.
proof fn lemma_pushed(merged: Seq<IndexEntry>, one: Seq<IndexEntry>, other: Seq<IndexEntry>, entry: IndexEntry)
    requires
        merged.to_multiset() == one.to_multiset().add(other.to_multiset()),
    ensures
        merged.push(entry).to_multiset() == one.push(entry).to_multiset().add(other.to_multiset()),
{
    broadcast use vstd::multiset::group_multiset_axioms;

    vstd::seq_lib::to_multiset_build(merged, entry);
    vstd::seq_lib::to_multiset_build(one, entry);
    assert(one.to_multiset().add(other.to_multiset()).insert(entry) =~= one.to_multiset().insert(
        entry,
    ).add(other.to_multiset()));
}

/// Merges two ascending runs into one.
fn merge(left: &Vec<IndexEntry>, right: &Vec<IndexEntry>, axis: Axis) -> (merged: Vec<IndexEntry>)
    requires
        ascending(left@, axis),
        ascending(right@, axis),
    ensures
        ascending(merged@, axis),
        merged@.to_multiset() == left@.to_multiset().add(right@.to_multiset()),
{
    broadcast use vstd::seq_lib::group_to_multiset_ensures;
    broadcast use vstd::multiset::group_multiset_axioms;

    let mut merged: Vec<IndexEntry> = Vec::new();
    let mut i: usize = 0;
    let mut j: usize = 0;
    proof {
        assert(left@.take(0) =~= Seq::<IndexEntry>::empty());
        assert(right@.take(0) =~= Seq::<IndexEntry>::empty());
        assert(merged@.to_multiset() =~= left@.take(0).to_multiset().add(
            right@.take(0).to_multiset(),
        ));
    }
    while i < left.len() || j < right.len()
        invariant
            i <= left.len(),
            j <= right.len(),
            ascending(left@, axis),
            ascending(right@, axis),
            ascending(merged@, axis),
            merged@.to_multiset() == left@.take(i as int).to_multiset().add(
                right@.take(j as int).to_multiset(),
            ),
            forall|k: int|
                0 <= k < merged@.len() && i < left.len() ==> coordinate(merged@[k], axis)
                    <= coordinate(left@[i as int], axis),
            forall|k: int|
                0 <= k < merged@.len() && j < right.len() ==> coordinate(merged@[k], axis)
                    <= coordinate(right@[j as int], axis),
        decreases left.len() - i + right.len() - j,
    {
        let from_left = if i >= left.len() {
            false
        } else if j >= right.len() {
            true
        } else {
            left[i].position.component(axis) <= right[j].position.component(axis)
        };
        let ghost before = merged@;
        if from_left {
            let entry = left[i];
            merged.push(entry);
            proof {
                assert(left@.take(i + 1) =~= left@.take(i as int).push(entry));
                lemma_pushed(before, left@.take(i as int), right@.take(j as int), entry);
            }
            i += 1;
        } else {
            let entry = right[j];
            merged.push(entry);
            proof {
                assert(right@.take(j + 1) =~= right@.take(j as int).push(entry));
                assert(left@.take(i as int).to_multiset().add(right@.take(j as int).to_multiset())
                    =~= right@.take(j as int).to_multiset().add(left@.take(i as int).to_multiset()));
                lemma_pushed(before, right@.take(j as int), left@.take(i as int), entry);
                assert(left@.take(i as int).to_multiset().add(right@.take(j + 1).to_multiset())
                    =~= right@.take(j + 1).to_multiset().add(left@.take(i as int).to_multiset()));
            }
            j += 1;
        }
    }
    proof {
        assert(left@.take(i as int) =~= left@);
        assert(right@.take(j as int) =~= right@);
    }
    merged
}

/// Sorts the entries into ascending order along an axis.
fn sort_along(entries: Vec<IndexEntry>, axis: Axis) -> (sorted: Vec<IndexEntry>)
    ensures
        ascending(sorted@, axis),
        sorted@.to_multiset() == entries@.to_multiset(),
    decreases entries@.len(),
{
    broadcast use vstd::seq_lib::group_to_multiset_ensures;

    if entries.len() <= 1 {
        return entries;
    }
    let mut left = entries;
    let mid = left.len() / 2;
    let right = left.split_off(mid);
    proof {
        assert(entries@ =~= left@ + right@);
        vstd::seq_lib::lemma_multiset_commutative(left@, right@);
    }
    let left = sort_along(left, axis);
    let right = sort_along(right, axis);
    merge(&left, &right, axis)
}

/// What a rearrangement holds, the arrangement it was made from holds too.
proof fn lemma_member(arranged: Seq<IndexEntry>, from: Seq<IndexEntry>, i: int) -> (k: int)
    requires
        arranged.to_multiset() == from.to_multiset(),
        0 <= i < arranged.len(),
    ensures
        0 <= k < from.len(),
        from[k] == arranged[i],
{
    broadcast use vstd::seq_lib::group_to_multiset_ensures;

    assert(arranged.contains(arranged[i]));
    assert(arranged.to_multiset().count(arranged[i]) > 0);
    assert(from.contains(arranged[i]));
    choose|k: int| 0 <= k < from.len() && from[k] == arranged[i]
}

/// Lays the entries out as a k-d tree whose root splits along `axis`. The
/// tree holds the same entries, each as often as it was given.
pub fn build(entries: Vec<IndexEntry>, axis: Axis) -> (tree: Vec<IndexEntry>)
    ensures
        is_kd_tree(tree@, axis),
        tree@.to_multiset() == entries@.to_multiset(),
    decreases entries@.len(),
{
    broadcast use vstd::seq_lib::group_to_multiset_ensures;
    broadcast use vstd::multiset::group_multiset_axioms;

    if entries.len() <= 1 {
        proof {
            reveal(is_kd_tree);
        }
        return entries;
    }
    let mut below = sort_along(entries, axis);
    let ghost sorted = below@;
    proof {
        vstd::seq_lib::to_multiset_len(sorted);
        vstd::seq_lib::to_multiset_len(entries@);
    }
    let mid = below.len() / 2;
    let mut above = below.split_off(mid + 1);
    let pivot = below.pop().unwrap();
    let ghost lower = below@;
    let ghost upper = above@;
    proof {
        assert(sorted =~= lower.push(pivot) + upper);
        vstd::seq_lib::lemma_multiset_commutative(lower.push(pivot), upper);
    }
    let mut tree = build(below, axis.following());
    let mut rest = build(above, axis.following());
    let ghost left = tree@;
    let ghost right = rest@;
    tree.push(pivot);
    tree.append(&mut rest);
    proof {
        reveal(is_kd_tree);
        assert(tree@ =~= left.push(pivot) + right);
        vstd::seq_lib::lemma_multiset_commutative(left.push(pivot), right);
        assert(left.len() == mid);
        assert(tree@[mid as int] == pivot);
        assert(tree@.subrange(0, mid as int) =~= left);
        assert(tree@.subrange(mid + 1, tree@.len() as int) =~= right);
        assert forall|i: int| 0 <= i < mid implies coordinate(#[trigger] tree@[i], axis)
            <= coordinate(tree@[mid as int], axis) by {
            let k = lemma_member(left, lower, i);
            assert(lower[k] == sorted[k]);
            assert(sorted[mid as int] == pivot);
        }
        assert forall|i: int| mid < i < tree@.len() implies coordinate(tree@[mid as int], axis)
            <= coordinate(#[trigger] tree@[i], axis) by {
            let k = lemma_member(right, upper, i - mid - 1);
            assert(upper[k] == sorted[k + mid + 1]);
            assert(sorted[mid as int] == pivot);
        }
    }
    tree
}

/// A half that lies wholly beyond the radius along an axis holds nothing
/// within the radius.
proof fn lemma_nothing_near(half: Seq<IndexEntry>, axis: Axis, point: Vector, radius: i32)
    requires
        radius >= 0,
        (forall|i: int| 0 <= i < half.len() ==> coordinate(#[trigger] half[i], axis) < point.along(axis) - radius)
            || (forall|i: int|
            0 <= i < half.len() ==> coordinate(#[trigger] half[i], axis) > point.along(axis) + radius),
    ensures
        half.filter(near(point, radius)).len() == 0,
{
    assert forall|i: int| 0 <= i < half.len() implies !near(point, radius)(#[trigger] half[i]) by {
        let offset = half[i].position@.minus(point@);
        let gap: int = coordinate(half[i], axis) - point.along(axis);
        let r = radius as int;
        lemma_norm_squared(offset);
        assert(gap * gap <= offset.norm_squared());
        assert(gap * gap > r * r) by (nonlinear_arith)
            requires
                gap < -r || gap > r,
                r >= 0,
        ;
    }
    half.lemma_all_neg_filter_empty(near(point, radius));
}

/// Nothing is found among no entries.
proof fn lemma_filter_none(point: Vector, radius: i32)
    ensures
        Seq::<IndexEntry>::empty().filter(near(point, radius)) == Seq::<IndexEntry>::empty(),
{
    reveal(Seq::filter);
}

/// Of one entry, it is found if and only if it is near.
proof fn lemma_filter_one(entry: IndexEntry, point: Vector, radius: i32)
    ensures
        near(point, radius)(entry) ==> seq![entry].filter(near(point, radius)) == seq![entry],
        !near(point, radius)(entry) ==> seq![entry].filter(near(point, radius)) == Seq::<
            IndexEntry,
        >::empty(),
{
    reveal(Seq::filter);
    let one = seq![entry];
    assert(one.drop_last() =~= Seq::<IndexEntry>::empty());
    assert(one.last() == entry);
    lemma_filter_none(point, radius);
    assert(Seq::<IndexEntry>::empty().push(entry) =~= one);
}

/// A range of a k-d tree is its lower half, its middle entry and its upper
/// half: no entry of the lower half lies beyond the middle entry along the
/// axis, none of the upper half lies before it, and both halves are k-d
/// trees along the next axis.
proof fn lemma_halves(entries: Seq<IndexEntry>, low: int, high: int, axis: Axis)
    requires
        0 <= low < high <= entries.len(),
        is_kd_tree(entries.subrange(low, high), axis),
    ensures
        ({
            let mid = low + (high - low) / 2;
            let lower = entries.subrange(low, mid);
            let upper = entries.subrange(mid + 1, high);
            &&& low <= mid < high
            &&& entries.subrange(low, high) == lower + seq![entries[mid]] + upper
            &&& is_kd_tree(lower, axis.next())
            &&& is_kd_tree(upper, axis.next())
            &&& forall|i: int|
                0 <= i < lower.len() ==> coordinate(#[trigger] lower[i], axis) <= coordinate(
                    entries[mid],
                    axis,
                )
            &&& forall|i: int|
                0 <= i < upper.len() ==> coordinate(entries[mid], axis) <= coordinate(
                    #[trigger] upper[i],
                    axis,
                )
        }),
{
    reveal(is_kd_tree);
    let range = entries.subrange(low, high);
    let half = (high - low) / 2;
    let mid = low + half;
    let lower = entries.subrange(low, mid);
    let upper = entries.subrange(mid + 1, high);
    assert(range =~= lower + seq![entries[mid]] + upper);
    assert(range.subrange(0, half) =~= lower);
    assert(range.subrange(half + 1, range.len() as int) =~= upper);
    assert(range[half] == entries[mid]);
    if range.len() > 1 {
        assert forall|i: int| 0 <= i < lower.len() implies coordinate(#[trigger] lower[i], axis)
            <= coordinate(entries[mid], axis) by {
            assert(lower[i] == range[i]);
        }
        assert forall|i: int| 0 <= i < upper.len() implies coordinate(entries[mid], axis)
            <= coordinate(#[trigger] upper[i], axis) by {
            assert(upper[i] == range[i + half + 1]);
        }
    }
}

/// Looks through the entries from `low` up to `high` for those within
/// `radius` of `point`, and appends them to `found` in the order in which
/// the entries lie.
pub fn search(
    entries: &Vec<IndexEntry>,
    low: usize,
    high: usize,
    axis: Axis,
    point: Vector,
    radius: i32,
    found: &mut Vec<IndexEntry>,
)
    requires
        low <= high <= entries@.len(),
        is_kd_tree(entries@.subrange(low as int, high as int), axis),
        radius >= 0,
    ensures
        final(found)@ == old(found)@ + entries@.subrange(low as int, high as int).filter(
            near(point, radius),
        ),
    decreases high - low,
{
    let ghost start = found@;
    let ghost pred = near(point, radius);
    if low >= high {
        proof {
            lemma_filter_none(point, radius);
            assert(entries@.subrange(low as int, high as int) =~= Seq::<IndexEntry>::empty());
            assert(start + Seq::<IndexEntry>::empty() =~= start);
        }
        return ;
    }
    let mid: usize = low + (high - low) / 2;
    let pivot = entries[mid];
    let ghost lower = entries@.subrange(low as int, mid as int);
    let ghost upper = entries@.subrange(mid + 1, high as int);
    proof {
        lemma_halves(entries@, low as int, high as int, axis);
    }
    let here: i64 = pivot.position.component(axis) as i64;
    let center: i64 = point.component(axis) as i64;
    let reach: i64 = radius as i64;
    if center - reach <= here {
        search(entries, low, mid, axis.following(), point, radius, found);
    } else {
        proof {
            lemma_nothing_near(lower, axis, point, radius);
            assert(lower.filter(pred) =~= Seq::<IndexEntry>::empty());
            assert(start + Seq::<IndexEntry>::empty() =~= start);
        }
    }
    assert(found@ == start + lower.filter(pred));
    let r: u128 = radius as u128;
    assert(r * r <= 0x8000_0000 * 0x8000_0000) by (nonlinear_arith)
        requires
            0 <= r <= 0x8000_0000,
    ;
    let ghost before_pivot = found@;
    if pivot.position.distance_squared(point) <= r * r {
        found.push(pivot);
        proof {
            lemma_filter_one(pivot, point, radius);
            assert(found@ =~= before_pivot + seq![pivot]);
        }
    } else {
        proof {
            lemma_filter_one(pivot, point, radius);
            assert(before_pivot + Seq::<IndexEntry>::empty() =~= before_pivot);
        }
    }
    assert(found@ == start + lower.filter(pred) + seq![pivot].filter(pred));
    let ghost before_upper = found@;
    if center + reach >= here {
        search(entries, mid + 1, high, axis.following(), point, radius, found);
    } else {
        proof {
            lemma_nothing_near(upper, axis, point, radius);
            assert(upper.filter(pred) =~= Seq::<IndexEntry>::empty());
            assert(before_upper + Seq::<IndexEntry>::empty() =~= before_upper);
        }
    }
    proof {
        assert(found@ == start + lower.filter(pred) + seq![pivot].filter(pred) + upper.filter(pred));
        Seq::filter_distributes_over_add(lower, seq![pivot], pred);
        Seq::filter_distributes_over_add(lower + seq![pivot], upper, pred);
        assert(start + lower.filter(pred) + seq![pivot].filter(pred) + upper.filter(pred) =~= start
            + (lower.filter(pred) + seq![pivot].filter(pred) + upper.filter(pred)));
    }
}

} // verus!
