//! Delivery of forces. The rules do not write to an agent: each submits an
//! event that names the agent and carries a force. Once per tick the events
//! are drained: every agent's acceleration grows by the sum of the forces
//! addressed to it, and the buffer is emptied. The order of the events is
//! irrelevant.

use std::collections::HashMap;
use vstd::prelude::*;
use crate::boid::Boid;
use crate::vector::{MathVector, Vector};

verus! {

/// A force addressed to an agent.
#[derive(Clone, Copy, Debug, PartialEq, Eq, Structural)]
pub struct ApplyForceEvent {
    pub entity: u64,
    pub force: Vector,
}

/// Sum of the forces that the events address to `entity`.
pub open spec fn sum_for(events: Seq<ApplyForceEvent>, entity: u64) -> MathVector
    decreases events.len(),
{
    if events.len() == 0 {
        MathVector::zero()
    } else if events.last().entity == entity {
        sum_for(events.drop_last(), entity).plus(events.last().force@)
    } else {
        sum_for(events.drop_last(), entity)
    }
}

/// The agent after the events were delivered: its acceleration has grown by
/// the forces addressed to it.
pub open spec fn accelerated(boid: Boid, events: Seq<ApplyForceEvent>) -> Boid {
    Boid {
        acceleration: boid.acceleration@.plus(sum_for(events, boid.id)).saturated().as_vector(),
        ..boid
    }
}

/// A sum of forces, each component as a wide value.
#[derive(Clone, Copy)]
struct WideSum {
    x: i128,
    y: i128,
    z: i128,
}

impl WideSum {
    spec fn model(self) -> MathVector {
        MathVector { x: self.x as int, y: self.y as int, z: self.z as int }
    }

    /// Whether the sum can be that of `count` forces.
    spec fn within(self, count: int) -> bool {
        &&& -(count * 0x8000_0000) <= self.x <= count * 0x8000_0000
        &&& -(count * 0x8000_0000) <= self.y <= count * 0x8000_0000
        &&& -(count * 0x8000_0000) <= self.z <= count * 0x8000_0000
    }
}

/// The sum that the totals hold for an agent: zero if they hold none.
spec fn total_in(totals: Map<u64, WideSum>, entity: u64) -> MathVector {
    if totals.contains_key(entity) {
        totals[entity].model()
    } else {
        MathVector::zero()
    }
}

/// The events submitted since the buffer was last drained.
#[derive(Debug)]
pub struct ForceAccumulator {
    pub events: Vec<ApplyForceEvent>,
}

impl View for ForceAccumulator {
    type V = Seq<ApplyForceEvent>;

    open spec fn view(&self) -> Seq<ApplyForceEvent> {
        self.events@
    }
}

impl ForceAccumulator {
    /// An empty buffer.
    pub fn new() -> (a: ForceAccumulator)
        ensures
            a@.len() == 0,
    {
        ForceAccumulator { events: Vec::new() }
    }

    /// Adds one event to the buffer.
    pub fn submit(&mut self, entity: u64, force: Vector)
        ensures
            final(self)@ == old(self)@.push(ApplyForceEvent { entity, force }),
    {
        self.events.push(ApplyForceEvent { entity, force });
    }

    /// Sums the forces by the agent that they are addressed to.
    fn totals(&self) -> (totals: HashMap<u64, WideSum>)
        ensures
            forall|entity: u64| #[trigger] total_in(totals@, entity) == sum_for(self@, entity),
            forall|entity: u64|
                totals@.contains_key(entity) ==> (#[trigger] totals@[entity]).within(self@.len() as int),
    {
        broadcast use vstd::std_specs::hash::group_hash_axioms;

        let n: usize = self.events.len();
        let mut totals: HashMap<u64, WideSum> = HashMap::new();
        let mut i: usize = 0;
        proof {
            assert(self@.take(0) =~= Seq::<ApplyForceEvent>::empty());
        }
        while i < n
            invariant
                i <= n,
                n == self.events.len(),
                forall|entity: u64|
                    #[trigger] total_in(totals@, entity) == sum_for(self@.take(i as int), entity),
                forall|entity: u64|
                    totals@.contains_key(entity) ==> (#[trigger] totals@[entity]).within(i as int),
            decreases n - i,
        {
            let event = self.events[i];
            let ghost before = totals@;
            let so_far = match totals.get(&event.entity) {
                Some(sum) => *sum,
                None => WideSum { x: 0, y: 0, z: 0 },
            };
            assert(so_far.model() == total_in(before, event.entity));
            let grown = WideSum {
                x: so_far.x + event.force.x as i128,
                y: so_far.y + event.force.y as i128,
                z: so_far.z + event.force.z as i128,
            };
            totals.insert(event.entity, grown);
            proof {
                assert(self@.take(i + 1) =~= self@.take(i as int).push(event));
                assert forall|entity: u64| #[trigger]
                    total_in(totals@, entity) == sum_for(self@.take(i + 1), entity) by {
                    lemma_sum_for_push(self@.take(i as int), event, entity);
                    assert(total_in(before, entity) == sum_for(self@.take(i as int), entity));
                }
                assert forall|entity: u64| totals@.contains_key(entity) implies (
                #[trigger] totals@[entity]).within(i + 1) by {
                    if entity != event.entity {
                        assert(before.contains_key(entity));
                        assert(before[entity].within(i as int));
                    }
                }
            }
            i += 1;
        }
        proof {
            assert(self@.take(n as int) =~= self@);
        }
        totals
    }

    /// Delivers the events: the acceleration of each agent grows by the sum
    /// of the forces addressed to it, and the buffer is left empty. Events
    /// addressed to no agent of `boids` are dropped.
    pub fn drain_into_acceleration(&mut self, boids: &mut Vec<Boid>)
        ensures
            final(self)@.len() == 0,
            final(boids)@.len() == old(boids)@.len(),
            forall|i: int|
                0 <= i < old(boids)@.len() ==> #[trigger] final(boids)@[i] == accelerated(
                    old(boids)@[i],
                    old(self)@,
                ),
    {
        broadcast use vstd::std_specs::hash::group_hash_axioms;

        let totals = self.totals();
        let n: usize = boids.len();
        let mut i: usize = 0;
        while i < n
            invariant
                i <= n,
                n == boids@.len(),
                boids@.len() == old(boids)@.len(),
                self@ == old(self)@,
                forall|entity: u64| #[trigger] total_in(totals@, entity) == sum_for(self@, entity),
                forall|entity: u64|
                    totals@.contains_key(entity) ==> (#[trigger] totals@[entity]).within(
                        self@.len() as int,
                    ),
                forall|j: int|
                    0 <= j < i ==> #[trigger] boids@[j] == accelerated(old(boids)@[j], old(self)@),
                forall|j: int| i <= j < n ==> #[trigger] boids@[j] == old(boids)@[j],
            decreases n - i,
        {
            let mut boid = boids[i];
            let sum = match totals.get(&boid.id) {
                Some(sum) => *sum,
                None => WideSum { x: 0, y: 0, z: 0 },
            };
            assert(sum.model() == total_in(totals@, boid.id));
            assert(self.events.len() == self@.len());
            boid.acceleration = Vector::from_wide(
                boid.acceleration.x as i128 + sum.x,
                boid.acceleration.y as i128 + sum.y,
                boid.acceleration.z as i128 + sum.z,
            );
            proof {
                crate::vector::lemma_as_vector(
                    boid.acceleration,
                    old(boids)@[i as int].acceleration@.plus(sum_for(old(self)@, boid.id)),
                );
            }
            boids.set(i, boid);
            i += 1;
        }
        self.events = Vec::new();
    }
}

/// Taking one event out of the buffer lowers the sum for the agent it names
/// by its force, and leaves the sums for the other agents as they were.
proof fn lemma_sum_for_remove(events: Seq<ApplyForceEvent>, k: int, entity: u64)
    requires
        0 <= k < events.len(),
    ensures
        events[k].entity == entity ==> sum_for(events, entity) == sum_for(
            events.remove(k),
            entity,
        ).plus(events[k].force@),
        events[k].entity != entity ==> sum_for(events, entity) == sum_for(events.remove(k), entity),
    decreases events.len(),
{
    let last = events.len() - 1;
    if k == last {
        assert(events.remove(k) =~= events.drop_last());
    } else {
        lemma_sum_for_remove(events.drop_last(), k, entity);
        assert(events.remove(k).drop_last() =~= events.drop_last().remove(k));
        assert(events.remove(k).last() == events.last());
        assert(events.drop_last()[k] == events[k]);
    }
}

/// The order of the events is irrelevant: two buffers that hold the same
/// events, each as often as the other, deliver the same sum to every agent.
pub proof fn lemma_sum_for_permutation(
    first: Seq<ApplyForceEvent>,
    second: Seq<ApplyForceEvent>,
    entity: u64,
)
    requires
        first.to_multiset() == second.to_multiset(),
    ensures
        sum_for(first, entity) == sum_for(second, entity),
    decreases first.len(),
{
    broadcast use vstd::seq_lib::group_to_multiset_ensures;

    first.to_multiset_ensures();
    second.to_multiset_ensures();
    if first.len() == 0 {
        assert(second.len() == 0);
    } else {
        let event = first.last();
        assert(first.to_multiset().count(event) > 0) by {
            assert(first.contains(event));
        }
        assert(second.contains(event));
        let k = choose|k: int| 0 <= k < second.len() && second[k] == event;
        assert(first.drop_last() =~= first.remove(first.len() - 1));
        assert(first.drop_last().to_multiset() =~= first.to_multiset().remove(event));
        assert(second.remove(k).to_multiset() =~= second.to_multiset().remove(event));
        lemma_sum_for_permutation(first.drop_last(), second.remove(k), entity);
        lemma_sum_for_remove(second, k, entity);
    }
}

/// Submitting events for one agent one after the other accumulates their
/// forces: the sum grows by each force submitted for the agent and by
/// nothing else.
pub proof fn lemma_sum_for_push(events: Seq<ApplyForceEvent>, event: ApplyForceEvent, entity: u64)
    ensures
        event.entity == entity ==> sum_for(events.push(event), entity) == sum_for(
            events,
            entity,
        ).plus(event.force@),
        event.entity != entity ==> sum_for(events.push(event), entity) == sum_for(events, entity),
{
    assert(events.push(event).drop_last() =~= events);
    assert(events.push(event).last() == event);
}

/// Whether all the forces of the events lie in the plane `z == 0`.
pub open spec fn planar_events(events: Seq<ApplyForceEvent>) -> bool {
    forall|i: int| 0 <= i < events.len() ==> (#[trigger] events[i]).force.z == 0
}

/// Planar forces sum to a planar force.
proof fn lemma_planar_sum_for(events: Seq<ApplyForceEvent>, entity: u64)
    requires
        planar_events(events),
    ensures
        sum_for(events, entity).z == 0,
    decreases events.len(),
{
    if events.len() > 0 {
        let rest = events.drop_last();
        assert forall|i: int| 0 <= i < rest.len() implies (#[trigger] rest[i]).force.z == 0 by {
            assert(rest[i] == events[i]);
        }
        lemma_planar_sum_for(rest, entity);
        assert(events.last() == events[events.len() - 1]);
    }
}

/// Delivering planar forces to a planar agent leaves it planar.
pub proof fn lemma_planar_delivery(boid: Boid, events: Seq<ApplyForceEvent>)
    requires
        boid.is_planar(),
        planar_events(events),
    ensures
        accelerated(boid, events).is_planar(),
{
    lemma_planar_sum_for(events, boid.id);
}

} // verus!
