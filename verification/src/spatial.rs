//! A snapshot of where the agents are, for finding those near a point.
//!
//! The snapshot is kept as a k-d tree. It is rebuilt from the agents on a
//! period of its own, not on every tick, so a query may answer from
//! positions that are up to one period old, and may name an agent that has
//! since been removed. An index that was never built holds nothing and
//! finds nothing.

use vstd::prelude::*;
use crate::boid::Boid;
use crate::kdtree::{build, is_kd_tree, search};
use crate::vector::{Axis, Vector};

verus! {

/// One agent as the index remembers it.
#[derive(Clone, Copy, Debug, PartialEq, Eq, Structural)]
pub struct IndexEntry {
    pub id: u64,
    pub position: Vector,
    /// Place that the agent had among the agents when the index was built:
    /// where to look for it first.
    pub slot: usize,
}

/// The entries that an index keeps of the agents: one for each.
pub open spec fn entries_of(boids: Seq<Boid>) -> Seq<IndexEntry> {
    Seq::new(
        boids.len(),
        |i: int| IndexEntry { id: boids[i].id, position: boids[i].position, slot: i as usize },
    )
}

/// Whether the entries are a snapshot of the agents: the entry of each
/// agent, once for each, in whatever order.
pub open spec fn is_snapshot(entries: Seq<IndexEntry>, boids: Seq<Boid>) -> bool {
    entries.to_multiset() == entries_of(boids).to_multiset()
}

/// Whether a squared distance is no more than a radius. Nothing is within a
/// negative radius.
pub open spec fn within_radius(distance_squared: int, radius: int) -> bool {
    radius >= 0 && distance_squared <= radius * radius
}

/// The test that picks the entries within `radius` of `point`.
pub open spec fn near(point: Vector, radius: i32) -> spec_fn(IndexEntry) -> bool {
    |e: IndexEntry| within_radius(e.position@.minus(point@).norm_squared(), radius as int)
}

/// The age of the index after `dt_millis` more, at most `u32::MAX`.
pub open spec fn aged(age_millis: u32, dt_millis: u32) -> u32 {
    if age_millis + dt_millis > u32::MAX {
        u32::MAX
    } else {
        (age_millis + dt_millis) as u32
    }
}

/// The snapshot, and the clock of its rebuilding.
#[derive(Debug)]
pub struct SpatialIndex {
    /// The entries, laid out as a k-d tree.
    entries: Vec<IndexEntry>,
    /// Time between two rebuilds, in milliseconds.
    period_millis: u32,
    /// Time since the last rebuild, in milliseconds.
    age_millis: u32,
}

impl View for SpatialIndex {
    type V = Seq<IndexEntry>;

    closed spec fn view(&self) -> Seq<IndexEntry> {
        self.entries@
    }
}

impl SpatialIndex {
    #[verifier::type_invariant]
    spec fn laid_out(self) -> bool {
        is_kd_tree(self.entries@, Axis::X)
    }

    /// Time between two rebuilds, in milliseconds.
    pub closed spec fn period(self) -> u32 {
        self.period_millis
    }

    /// Time since the last rebuild, in milliseconds.
    pub closed spec fn age(self) -> u32 {
        self.age_millis
    }

    /// Whether the next refresh after `dt_millis` more rebuilds the
    /// snapshot.
    pub open spec fn is_due(self, dt_millis: u32) -> bool {
        aged(self.age(), dt_millis) >= self.period()
    }

    /// An index that was never built. It is due for its first build at once.
    pub fn new(period_millis: u32) -> (index: SpatialIndex)
        ensures
            index@.len() == 0,
            index.period() == period_millis,
            index.age() == period_millis,
    {
        proof {
            reveal(is_kd_tree);
        }
        SpatialIndex { entries: Vec::new(), period_millis, age_millis: period_millis }
    }

    /// Time between two rebuilds, in milliseconds.
    pub fn period_millis(&self) -> (period: u32)
        ensures
            period == self.period(),
    {
        self.period_millis
    }

    /// Time since the last rebuild, in milliseconds.
    pub fn age_millis(&self) -> (age: u32)
        ensures
            age == self.age(),
    {
        self.age_millis
    }

    /// Number of entries.
    pub fn len(&self) -> (n: usize)
        ensures
            n == self@.len(),
    {
        self.entries.len()
    }

    /// The entries, in the order in which the index keeps them.
    pub fn entries(&self) -> (entries: &Vec<IndexEntry>)
        ensures
            entries@ == self@,
    {
        &self.entries
    }

    /// Replaces the snapshot by the agents as they are now.
    pub fn rebuild(&mut self, boids: &Vec<Boid>)
        ensures
            is_snapshot(final(self)@, boids@),
            final(self).period() == old(self).period(),
            final(self).age() == 0,
    {
        let mut entries: Vec<IndexEntry> = Vec::new();
        let mut i: usize = 0;
        while i < boids.len()
            invariant
                i <= boids.len(),
                entries@ == entries_of(boids@).take(i as int),
            decreases boids.len() - i,
        {
            let boid = boids[i];
            entries.push(IndexEntry { id: boid.id, position: boid.position, slot: i });
            proof {
                assert(entries@ =~= entries_of(boids@).take(i + 1));
            }
            i += 1;
        }
        proof {
            assert(entries_of(boids@).take(i as int) =~= entries_of(boids@));
        }
        self.entries = build(entries, Axis::X);
        self.age_millis = 0;
    }

    /// Lets `dt_millis` pass, and rebuilds the snapshot if a period or more
    /// has passed since the last rebuild. Returns whether it did.
    pub fn refresh(&mut self, boids: &Vec<Boid>, dt_millis: u32) -> (rebuilt: bool)
        ensures
            rebuilt == old(self).is_due(dt_millis),
            rebuilt ==> is_snapshot(final(self)@, boids@),
            rebuilt ==> final(self).age() == 0,
            !rebuilt ==> final(self)@ == old(self)@,
            !rebuilt ==> final(self).age() == aged(old(self).age(), dt_millis),
            final(self).period() == old(self).period(),
    {
        let age: u32 = if self.age_millis as u64 + dt_millis as u64 > u32::MAX as u64 {
            u32::MAX
        } else {
            self.age_millis + dt_millis
        };
        if age >= self.period_millis {
            self.rebuild(boids);
            true
        } else {
            proof {
                use_type_invariant(&*self);
            }
            self.age_millis = age;
            false
        }
    }

    /// Finds the entries within `radius` of `point`, all of them and no
    /// other, in the order in which the index keeps them. An agent at
    /// `point` itself is among them: the caller leaves itself out.
    pub fn query_radius(&self, point: Vector, radius: i32) -> (found: Vec<IndexEntry>)
        ensures
            found@ == self@.filter(near(point, radius)),
    {
        let mut found: Vec<IndexEntry> = Vec::new();
        if radius < 0 {
            proof {
                self@.lemma_all_neg_filter_empty(near(point, radius));
            }
            return found;
        }
        proof {
            use_type_invariant(self);
            assert(self.entries@.subrange(0, self.entries@.len() as int) =~= self.entries@);
        }
        search(&self.entries, 0, self.entries.len(), Axis::X, point, radius, &mut found);
        found
    }
}

/// A snapshot has an entry for every agent, and every entry is that of an
/// agent: whatever is near a point among the agents, a query finds; and
/// whatever it finds was there.
pub proof fn lemma_snapshot_is_complete(entries: Seq<IndexEntry>, boids: Seq<Boid>, i: int)
    requires
        is_snapshot(entries, boids),
        0 <= i < boids.len(),
    ensures
        entries.len() == boids.len(),
        entries.contains(entries_of(boids)[i]),
        forall|k: int| 0 <= k < entries.len() ==> entries_of(boids).contains(#[trigger] entries[k]),
{
    broadcast use vstd::seq_lib::group_to_multiset_ensures;

    let all = entries_of(boids);
    vstd::seq_lib::to_multiset_len(entries);
    vstd::seq_lib::to_multiset_len(all);
    assert(all.contains(all[i]));
    assert(all.to_multiset().count(all[i]) > 0);
    assert forall|k: int| 0 <= k < entries.len() implies all.contains(#[trigger] entries[k]) by {
        assert(entries.contains(entries[k]));
        assert(entries.to_multiset().count(entries[k]) > 0);
    }
}

} // verus!
