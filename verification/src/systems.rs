//! The phases of a tick, each over the agents of a store: computing the
//! flocking forces, avoiding obstacles and threats, delivering the forces,
//! moving, and enforcing the boundary. The phases that compute forces only
//! read the agents and submit events; avoiding obstacles and fleeing a
//! threat also turn the velocity at once, which is intended. Obstacles act
//! on every agent; a threat at the cursor acts on those that the index
//! finds in its reach.

use vstd::prelude::*;
use crate::accumulator::{accelerated, ApplyForceEvent, ForceAccumulator};
use crate::arith::{clamp_component, saturate};
use crate::boid::{planar_neighbors, Boid, Neighbor, Obstacle};
use crate::boundary::{confine, confined, is_confined, Bounds, Slopes, SteerSettings};
use crate::forces::{alignment, attraction_to_target, cohesion, separation, steer_clear};
use crate::forces::{alignment_force, attraction_force, cohesion_force, separation_force};
use crate::forces::{avoidance_force, cleared, lemma_planar_rules, AvoidanceSettings};
use crate::forces::{lemma_single_repulsion, repulsion, sum_of_repulsions};
use crate::integrator::{integrate, integrated};
use crate::neighbors::{classify_neighbors, in_band, Band};
use crate::settings::{BoidSettings, BoundaryMode, GroupsTargets};
use crate::spatial::{entries_of, is_snapshot, lemma_snapshot_is_complete, near, within_radius};
use crate::spatial::{IndexEntry, SpatialIndex};
use crate::store::{distinct_below, AgentStore};
use crate::vector::{MathVector, Vector};

verus! {

/// The place among the agents of the one with the given identity, if there
/// is one.
pub open spec fn place_of(boids: Seq<Boid>, id: u64) -> Option<int> {
    if exists|i: int| 0 <= i < boids.len() && boids[i].id == id {
        Some(choose|i: int| 0 <= i < boids.len() && boids[i].id == id)
    } else {
        None
    }
}

/// The agent with the given identity as others see it, if there is one.
pub open spec fn lookup(boids: Seq<Boid>, id: u64) -> Option<Neighbor> {
    match place_of(boids, id) {
        Some(i) => Some(boids[i].seen()),
        None => None,
    }
}

/// What an entry of the index stands for now: the agent it names as it is
/// at present, or nothing if that agent is gone.
pub open spec fn alive(boids: Seq<Boid>) -> spec_fn(IndexEntry) -> Option<Neighbor> {
    |e: IndexEntry| lookup(boids, e.id)
}

/// The agents that the found entries name, as they are at present. Entries
/// that name no agent of the store are passed over.
pub open spec fn live_neighbors(found: Seq<IndexEntry>, boids: Seq<Boid>) -> Seq<Neighbor> {
    found.filter_map(alive(boids))
}

/// The flocking force on an agent: cohesion, separation and alignment, each
/// from the neighbours in its band, and the attraction to the target if
/// there is one; summed, then clamped.
pub open spec fn total_force(
    me: Boid,
    candidates: Seq<Neighbor>,
    settings: BoidSettings,
    target: Option<Vector>,
) -> MathVector {
    let pull = cohesion_force(
        me.position,
        candidates.filter(in_band(me, settings, Band::Cohesion)),
        settings.cohesion_coeff,
    );
    let push = separation_force(
        me.position,
        candidates.filter(in_band(me, settings, Band::Separation)),
        settings.separation_coeff,
        settings.min_distance_between_boids,
        settings.collision_coeff,
    );
    let turn = alignment_force(
        me.velocity,
        candidates.filter(in_band(me, settings, Band::Alignment)),
        settings.alignment_coeff,
    );
    let draw = match target {
        Some(t) => attraction_force(me.position, t, settings.attraction_coeff),
        None => MathVector::zero(),
    };
    pull.plus(push).plus(turn).plus(draw).saturated()
}

/// The event that the flocking phase submits for an agent: the flocking
/// force on it from the live agents that the index finds within the
/// largest of the three radii.
pub open spec fn flock_event(
    me: Boid,
    boids: Seq<Boid>,
    entries: Seq<IndexEntry>,
    settings: BoidSettings,
    targets: GroupsTargets,
) -> ApplyForceEvent {
    ApplyForceEvent {
        entity: me.id,
        force: total_force(
            me,
            live_neighbors(entries.filter(near(me.position, settings.max_range() as i32)), boids),
            settings,
            targets.target(me.group),
        ).as_vector(),
    }
}

/// The events that the flocking phase submits: one for each agent, in the
/// order of the store.
pub open spec fn flock_events(
    boids: Seq<Boid>,
    entries: Seq<IndexEntry>,
    settings: BoidSettings,
    targets: GroupsTargets,
) -> Seq<ApplyForceEvent> {
    boids.map_values(|b: Boid| flock_event(b, boids, entries, settings, targets))
}

/// The event that avoiding obstacles submits for an agent.
pub open spec fn avoidance_event(me: Boid, obstacles: Seq<Obstacle>, settings: AvoidanceSettings) -> ApplyForceEvent {
    ApplyForceEvent {
        entity: me.id,
        force: avoidance_force(me.position, obstacles, settings).as_vector(),
    }
}

/// Computes the flocking force on an agent from the candidates for its
/// neighbourhood.
pub fn flocking_force(
    me: &Boid,
    candidates: &Vec<Neighbor>,
    settings: &BoidSettings,
    target: Option<Vector>,
) -> (force: Vector)
    ensures
        force@ == total_force(*me, candidates@, *settings, target),
{
    let sets = classify_neighbors(me, candidates, settings);
    let pull = cohesion(me.position, &sets.cohesion, settings.cohesion_coeff);
    let push = separation(
        me.position,
        &sets.separation,
        settings.separation_coeff,
        settings.min_distance_between_boids,
        settings.collision_coeff,
    );
    let turn = alignment(me.velocity, &sets.alignment, settings.alignment_coeff);
    let draw = match target {
        Some(t) => attraction_to_target(me.position, t, settings.attraction_coeff),
        None => Vector::zero(),
    };
    Vector::from_wide(
        pull.x as i128 + push.x as i128 + turn.x as i128 + draw.x as i128,
        pull.y as i128 + push.y as i128 + turn.y as i128 + draw.y as i128,
        pull.z as i128 + push.z as i128 + turn.z as i128 + draw.z as i128,
    )
}

/// Finds the place of the agent that an entry of the index names, if it is
/// still alive. The agent is looked for first where the index remembers it,
/// and among all the agents if it has moved from there.
pub fn locate(store: &AgentStore, entry: &IndexEntry) -> (place: Option<usize>)
    requires
        store.well_formed(),
    ensures
        match place {
            Some(slot) => place_of(store@, entry.id) == Some(slot as int) && slot < store@.len()
                && store@[slot as int].id == entry.id,
            None => place_of(store@, entry.id).is_none(),
        },
{
    let remembered = entry.slot < store.boids.len() && store.boids[entry.slot].id == entry.id;
    let place = if remembered {
        Some(entry.slot)
    } else {
        store.find(entry.id)
    };
    proof {
        if let Some(slot) = place {
            let chosen = choose|k: int| 0 <= k < store@.len() && store@[k].id == entry.id;
            assert(store@[slot as int].id == entry.id);
            assert(chosen == slot);
        }
    }
    place
}

/// Looks up, for each found entry, the agent that it names as it is at
/// present. An entry whose agent is gone is passed over in silence.
pub fn gather_neighbors(store: &AgentStore, found: &Vec<IndexEntry>) -> (neighbors: Vec<Neighbor>)
    requires
        store.well_formed(),
    ensures
        neighbors@ == live_neighbors(found@, store@),
{
    let mut neighbors: Vec<Neighbor> = Vec::new();
    let mut i: usize = 0;
    proof {
        assert(found@.take(0) =~= Seq::<IndexEntry>::empty());
    }
    while i < found.len()
        invariant
            i <= found.len(),
            store.well_formed(),
            neighbors@ == found@.take(i as int).filter_map(alive(store@)),
        decreases found.len() - i,
    {
        let entry = found[i];
        let ghost before = neighbors@;
        proof {
            assert(found@.take(i + 1).drop_last() =~= found@.take(i as int));
            assert(found@.take(i + 1).last() == entry);
        }
        match locate(store, &entry) {
            Some(slot) => {
                neighbors.push(store.boids[slot].as_neighbor());
                proof {
                    assert(neighbors@ =~= before + seq![store@[slot as int].seen()]);
                }
            },
            None => {},
        }
        i += 1;
    }
    proof {
        assert(found@.take(i as int) =~= found@);
    }
    neighbors
}

/// The flocking phase: for each agent, asks the index for the agents within
/// the largest of the three radii, takes those that are still alive as
/// they are now, and submits the flocking force on the agent as an event.
/// No agent is changed.
pub fn flocking(
    store: &AgentStore,
    index: &SpatialIndex,
    settings: &BoidSettings,
    targets: &GroupsTargets,
    events: &mut ForceAccumulator,
)
    requires
        store.well_formed(),
    ensures
        final(events)@ == old(events)@ + flock_events(store@, index@, *settings, *targets),
{
    let range = settings.query_range();
    let mut i: usize = 0;
    let ghost each = |b: Boid| flock_event(b, store@, index@, *settings, *targets);
    proof {
        assert(store@.take(0).map_values(each) =~= Seq::<ApplyForceEvent>::empty());
        assert(events@ + Seq::<ApplyForceEvent>::empty() =~= events@);
    }
    while i < store.boids.len()
        invariant
            i <= store@.len(),
            store.well_formed(),
            range == settings.max_range(),
            each == (|b: Boid| flock_event(b, store@, index@, *settings, *targets)),
            events@ == old(events)@ + store@.take(i as int).map_values(each),
        decreases store@.len() - i,
    {
        let me = store.boids[i];
        let found = index.query_radius(me.position, range);
        let candidates = gather_neighbors(store, &found);
        let force = flocking_force(&me, &candidates, settings, targets.target_of(me.group));
        proof {
            crate::vector::lemma_as_vector(force, MathVector::zero());
            assert(ApplyForceEvent { entity: me.id, force } == each(me));
            assert(store@.take(i + 1).map_values(each) =~= store@.take(i as int).map_values(
                each,
            ).push(each(me)));
            assert(old(events)@ + store@.take(i as int).map_values(each).push(each(me)) =~= (old(
                events,
            )@ + store@.take(i as int).map_values(each)).push(each(me)));
        }
        events.submit(me.id, force);
        i += 1;
    }
    proof {
        assert(store@.take(i as int) =~= store@);
    }
}

/// Avoiding obstacles: each agent's velocity is turned at once by the
/// obstacles within range, and the force that drives it away is submitted
/// as an event, for every agent, be the force zero.
pub fn avoid_obstacles(
    store: &mut AgentStore,
    obstacles: &Vec<Obstacle>,
    settings: &AvoidanceSettings,
    events: &mut ForceAccumulator,
)
    ensures
        final(store)@ == old(store)@.map_values(|b: Boid| cleared(b, obstacles@, *settings)),
        final(store).next_id == old(store).next_id,
        old(store).well_formed() ==> final(store).well_formed(),
        final(events)@ == old(events)@ + old(store)@.map_values(
            |b: Boid| avoidance_event(b, obstacles@, *settings),
        ),
{
    let n: usize = store.boids.len();
    let mut i: usize = 0;
    let ghost turn = |b: Boid| cleared(b, obstacles@, *settings);
    let ghost event = |b: Boid| avoidance_event(b, obstacles@, *settings);
    proof {
        assert(old(store)@.take(0).map_values(event) =~= Seq::<ApplyForceEvent>::empty());
        assert(events@ + Seq::<ApplyForceEvent>::empty() =~= events@);
    }
    while i < n
        invariant
            i <= n,
            n == store@.len(),
            store@.len() == old(store)@.len(),
            store.next_id == old(store).next_id,
            turn == (|b: Boid| cleared(b, obstacles@, *settings)),
            event == (|b: Boid| avoidance_event(b, obstacles@, *settings)),
            forall|j: int| 0 <= j < i ==> #[trigger] store@[j] == turn(old(store)@[j]),
            forall|j: int| i <= j < n ==> #[trigger] store@[j] == old(store)@[j],
            events@ == old(events)@ + old(store)@.take(i as int).map_values(event),
        decreases n - i,
    {
        let mut boid = store.boids[i];
        let ghost before = boid;
        let force = steer_clear(&mut boid, obstacles, settings);
        proof {
            crate::vector::lemma_as_vector(force, MathVector::zero());
            assert(ApplyForceEvent { entity: before.id, force } == event(before));
            assert(old(store)@.take(i + 1).map_values(event) =~= old(store)@.take(
                i as int,
            ).map_values(event).push(event(before)));
            assert(old(events)@ + old(store)@.take(i as int).map_values(event).push(event(before))
                =~= (old(events)@ + old(store)@.take(i as int).map_values(event)).push(
                event(before),
            ));
        }
        events.submit(boid.id, force);
        store.boids.set(i, boid);
        i += 1;
    }
    proof {
        assert(old(store)@.take(i as int) =~= old(store)@);
        assert(store@ =~= old(store)@.map_values(turn));
    }
}

/// How far from the cursor the index is asked for agents to scare: the
/// range of fear beyond the radius of the cursor.
pub open spec fn cursor_reach(cursor: Obstacle, fear: AvoidanceSettings) -> i32 {
    clamp_component(fear.range + cursor.radius) as i32
}

/// The agents after those that the found entries name were scared: taking
/// the entries in their order, the agent that an entry names, if it is
/// still alive, is turned by the cursor as by an obstacle. Every other agent
/// is as it was.
pub open spec fn scared(
    boids: Seq<Boid>,
    found: Seq<IndexEntry>,
    cursor: Obstacle,
    fear: AvoidanceSettings,
) -> Seq<Boid>
    decreases found.len(),
{
    if found.len() == 0 {
        boids
    } else {
        let before = scared(boids, found.drop_last(), cursor, fear);
        match place_of(before, found.last().id) {
            Some(k) => before.update(k, cleared(before[k], seq![cursor], fear)),
            None => before,
        }
    }
}

/// The events that scaring submits: taking the found entries in their
/// order, one for the agent that an entry names, if it is still alive, with
/// the force that drives it from the cursor. No other agent gets one.
pub open spec fn scare_events(
    boids: Seq<Boid>,
    found: Seq<IndexEntry>,
    cursor: Obstacle,
    fear: AvoidanceSettings,
) -> Seq<ApplyForceEvent>
    decreases found.len(),
{
    if found.len() == 0 {
        Seq::empty()
    } else {
        let before = scared(boids, found.drop_last(), cursor, fear);
        let sent = scare_events(boids, found.drop_last(), cursor, fear);
        match place_of(before, found.last().id) {
            Some(k) => sent.push(avoidance_event(before[k], seq![cursor], fear)),
            None => sent,
        }
    }
}

/// Fleeing a threat at the cursor. The index is asked for the agents within
/// the range of fear of the cursor's surface. Each of them that is still
/// alive is turned at once and gets an event with the force that drives it
/// away, by the rule of [`avoid_obstacles`] with the cursor as the one
/// obstacle. The agents that the index does not find are not changed and
/// get no event.
pub fn scare_with_cursor(
    store: &mut AgentStore,
    index: &SpatialIndex,
    cursor: &Obstacle,
    fear: &AvoidanceSettings,
    events: &mut ForceAccumulator,
)
    requires
        old(store).well_formed(),
    ensures
        final(store)@ == scared(
            old(store)@,
            index@.filter(near(cursor.position, cursor_reach(*cursor, *fear))),
            *cursor,
            *fear,
        ),
        final(events)@ == old(events)@ + scare_events(
            old(store)@,
            index@.filter(near(cursor.position, cursor_reach(*cursor, *fear))),
            *cursor,
            *fear,
        ),
        final(store).next_id == old(store).next_id,
        final(store).well_formed(),
{
    let reach = saturate(fear.range as i128 + cursor.radius as i128);
    let found = index.query_radius(cursor.position, reach);
    let mut threats: Vec<Obstacle> = Vec::new();
    threats.push(*cursor);
    let mut i: usize = 0;
    proof {
        assert(threats@ =~= seq![*cursor]);
        assert(found@.take(0) =~= Seq::<IndexEntry>::empty());
        assert(events@ + Seq::<ApplyForceEvent>::empty() =~= events@);
    }
    while i < found.len()
        invariant
            i <= found.len(),
            threats@ == seq![*cursor],
            store.well_formed(),
            store.next_id == old(store).next_id,
            store@ == scared(old(store)@, found@.take(i as int), *cursor, *fear),
            events@ == old(events)@ + scare_events(
                old(store)@,
                found@.take(i as int),
                *cursor,
                *fear,
            ),
        decreases found.len() - i,
    {
        let entry = found[i];
        let ghost before = store@;
        let ghost sent = scare_events(old(store)@, found@.take(i as int), *cursor, *fear);
        proof {
            assert(found@.take(i + 1).drop_last() =~= found@.take(i as int));
            assert(found@.take(i + 1).last() == entry);
        }
        match locate(store, &entry) {
            Some(slot) => {
                let mut boid = store.boids[slot];
                let force = steer_clear(&mut boid, &threats, fear);
                proof {
                    crate::vector::lemma_as_vector(force, MathVector::zero());
                    assert(ApplyForceEvent { entity: boid.id, force } == avoidance_event(
                        before[slot as int],
                        seq![*cursor],
                        *fear,
                    ));
                    assert(old(events)@ + sent.push(
                        avoidance_event(before[slot as int], seq![*cursor], *fear),
                    ) =~= (old(events)@ + sent).push(
                        avoidance_event(before[slot as int], seq![*cursor], *fear),
                    ));
                }
                events.submit(boid.id, force);
                store.boids.set(slot, boid);
                proof {
                    assert(store@ =~= before.update(
                        slot as int,
                        cleared(before[slot as int], seq![*cursor], *fear),
                    ));
                }
            },
            None => {},
        }
        i += 1;
    }
    proof {
        assert(found@.take(i as int) =~= found@);
    }
}

/// Scaring changes nothing of an agent but its velocity, and moves no agent
/// to another place among the agents.
pub proof fn lemma_scared_keeps(
    boids: Seq<Boid>,
    found: Seq<IndexEntry>,
    cursor: Obstacle,
    fear: AvoidanceSettings,
)
    ensures
        scared(boids, found, cursor, fear).len() == boids.len(),
        forall|i: int|
            0 <= i < boids.len() ==> (#[trigger] scared(boids, found, cursor, fear)[i]) == (Boid {
                velocity: scared(boids, found, cursor, fear)[i].velocity,
                ..boids[i]
            }),
    decreases found.len(),
{
    if found.len() > 0 {
        lemma_scared_keeps(boids, found.drop_last(), cursor, fear);
    }
}

/// An agent that no found entry names is spared: it is as it was, and no
/// event is addressed to it.
pub proof fn lemma_scare_spares(
    boids: Seq<Boid>,
    found: Seq<IndexEntry>,
    cursor: Obstacle,
    fear: AvoidanceSettings,
    i: int,
)
    requires
        0 <= i < boids.len(),
        forall|j: int| 0 <= j < found.len() ==> (#[trigger] found[j]).id != boids[i].id,
    ensures
        scared(boids, found, cursor, fear)[i] == boids[i],
        forall|k: int|
            0 <= k < scare_events(boids, found, cursor, fear).len() ==> (#[trigger] scare_events(
                boids,
                found,
                cursor,
                fear,
            )[k]).entity != boids[i].id,
    decreases found.len(),
{
    if found.len() > 0 {
        let rest = found.drop_last();
        assert forall|j: int| 0 <= j < rest.len() implies (#[trigger] rest[j]).id != boids[i].id by {
            assert(rest[j] == found[j]);
        }
        lemma_scare_spares(boids, rest, cursor, fear, i);
        lemma_scared_keeps(boids, rest, cursor, fear);
        let before = scared(boids, rest, cursor, fear);
        let sent = scare_events(boids, rest, cursor, fear);
        let all = scare_events(boids, found, cursor, fear);
        assert(found.last() == found[found.len() - 1]);
        assert(before[i].id == boids[i].id);
        assert forall|k: int| 0 <= k < all.len() implies (#[trigger] all[k]).entity != boids[i].id by {
            if k < sent.len() {
                assert(all[k] == sent[k]);
            } else {
                let at = place_of(before, found.last().id).unwrap();
                assert(before[at].id == found.last().id);
            }
        }
    }
}

/// An agent out of reach of the cursor is spared. Where the index holds a
/// snapshot of the agents as they are, an agent that is farther from the
/// cursor than the range of fear beyond the cursor's radius is as it was
/// after the scare, and no event is addressed to it.
pub proof fn lemma_scare_out_of_reach(
    boids: Seq<Boid>,
    next_id: u64,
    entries: Seq<IndexEntry>,
    cursor: Obstacle,
    fear: AvoidanceSettings,
    i: int,
)
    requires
        distinct_below(boids, next_id),
        is_snapshot(entries, boids),
        0 <= i < boids.len(),
        !within_radius(
            boids[i].position@.minus(cursor.position@).norm_squared(),
            cursor_reach(cursor, fear) as int,
        ),
    ensures
        scared(
            boids,
            entries.filter(near(cursor.position, cursor_reach(cursor, fear))),
            cursor,
            fear,
        )[i] == boids[i],
        forall|k: int|
            0 <= k < scare_events(
                boids,
                entries.filter(near(cursor.position, cursor_reach(cursor, fear))),
                cursor,
                fear,
            ).len() ==> (#[trigger] scare_events(
                boids,
                entries.filter(near(cursor.position, cursor_reach(cursor, fear))),
                cursor,
                fear,
            )[k]).entity != boids[i].id,
{
    let reach = cursor_reach(cursor, fear);
    let found = entries.filter(near(cursor.position, reach));
    assert forall|j: int| 0 <= j < found.len() implies (#[trigger] found[j]).id != boids[i].id by {
        entries.lemma_filter_pred(near(cursor.position, reach), j);
        assert(found.contains(found[j]));
        entries.lemma_filter_contains_rev(near(cursor.position, reach), found[j]);
        let at = choose|at: int| 0 <= at < entries.len() && entries[at] == found[j];
        lemma_snapshot_is_complete(entries, boids, i);
        assert(entries_of(boids).contains(entries[at]));
        let k = choose|k: int| 0 <= k < entries_of(boids).len() && entries_of(boids)[k] == found[j];
        if found[j].id == boids[i].id {
            assert(boids[k].id == boids[i].id);
            assert(k == i);
            assert(found[j].position == boids[i].position);
        }
    }
    lemma_scare_spares(boids, found, cursor, fear, i);
}

/// Where the index finds one agent and it is still alive, that agent alone
/// is turned, by the repulsion from the cursor, and the one event is for it,
/// with the force of the repulsion from the cursor.
pub proof fn lemma_scare_one(
    boids: Seq<Boid>,
    entry: IndexEntry,
    cursor: Obstacle,
    fear: AvoidanceSettings,
    k: int,
)
    requires
        place_of(boids, entry.id) == Some(k),
    ensures
        scared(boids, seq![entry], cursor, fear) == boids.update(
            k,
            cleared(boids[k], seq![cursor], fear),
        ),
        scare_events(boids, seq![entry], cursor, fear) == seq![
            avoidance_event(boids[k], seq![cursor], fear),
        ],
        avoidance_event(boids[k], seq![cursor], fear).force@ == repulsion(
            boids[k].position,
            cursor,
            fear.range,
            fear.force_coeff,
        ),
        cleared(boids[k], seq![cursor], fear).velocity@ == boids[k].velocity@.plus(
            repulsion(boids[k].position, cursor, fear.range, fear.turn_factor),
        ).saturated(),
{
    let one = seq![entry];
    assert(one.drop_last() =~= Seq::<IndexEntry>::empty());
    assert(one.last() == entry);
    assert(scared(boids, one.drop_last(), cursor, fear) == boids);
    assert(scare_events(boids, one.drop_last(), cursor, fear) == Seq::<ApplyForceEvent>::empty());
    assert(Seq::<ApplyForceEvent>::empty().push(avoidance_event(boids[k], seq![cursor], fear))
        =~= seq![avoidance_event(boids[k], seq![cursor], fear)]);
    lemma_single_repulsion(boids[k].position, cursor, fear.range, fear.force_coeff);
    lemma_single_repulsion(boids[k].position, cursor, fear.range, fear.turn_factor);
    crate::vector::lemma_as_vector(
        boids[k].velocity,
        sum_of_repulsions(boids[k].position, seq![cursor], fear.range, fear.force_coeff),
    );
    crate::vector::lemma_as_vector(
        boids[k].velocity,
        boids[k].velocity@.plus(
            repulsion(boids[k].position, cursor, fear.range, fear.turn_factor),
        ),
    );
}

/// Delivering the forces: each agent's acceleration grows by the sum of the
/// forces of the events addressed to it, and the buffer is emptied.
pub fn apply_forces_system(events: &mut ForceAccumulator, store: &mut AgentStore)
    ensures
        final(events)@.len() == 0,
        final(store)@ == old(store)@.map_values(|b: Boid| accelerated(b, old(events)@)),
        final(store).next_id == old(store).next_id,
        old(store).well_formed() ==> final(store).well_formed(),
{
    events.drain_into_acceleration(&mut store.boids);
    proof {
        assert(store@ =~= old(store)@.map_values(|b: Boid| accelerated(b, old(events)@)));
    }
}

/// Moving: each agent goes through one tick of `dt_millis`.
pub fn update_boid_position(store: &mut AgentStore, settings: &BoidSettings, dt_millis: u32)
    ensures
        final(store)@ == old(store)@.map_values(|b: Boid| integrated(b, *settings, dt_millis)),
        final(store).next_id == old(store).next_id,
        old(store).well_formed() ==> final(store).well_formed(),
{
    let n: usize = store.boids.len();
    let mut i: usize = 0;
    while i < n
        invariant
            i <= n,
            n == store@.len(),
            store@.len() == old(store)@.len(),
            store.next_id == old(store).next_id,
            forall|j: int|
                0 <= j < i ==> #[trigger] store@[j] == integrated(old(store)@[j], *settings, dt_millis),
            forall|j: int| i <= j < n ==> #[trigger] store@[j] == old(store)@[j],
        decreases n - i,
    {
        let mut boid = store.boids[i];
        integrate(&mut boid, settings, dt_millis);
        store.boids.set(i, boid);
        i += 1;
    }
    proof {
        assert(store@ =~= old(store)@.map_values(|b: Boid| integrated(b, *settings, dt_millis)));
    }
}

/// Whether the boundary was enforced on every agent: each is what
/// [`confined`] makes of what it was, for some turns of the bounce mode of
/// at most 45 degrees each.
pub open spec fn all_confined(
    before: Seq<Boid>,
    after: Seq<Boid>,
    bounds: Bounds,
    mode: BoundaryMode,
    steer: SteerSettings,
) -> bool {
    &&& after.len() == before.len()
    &&& forall|i: int|
        0 <= i < before.len() ==> #[trigger] is_confined(before[i], after[i], bounds, mode, steer)
}

/// Enforcing the boundary on each agent, in the one mode of the simulation.
pub fn confine_movement(store: &mut AgentStore, bounds: &Bounds, mode: BoundaryMode, steer: &SteerSettings)
    ensures
        all_confined(old(store)@, final(store)@, *bounds, mode, *steer),
        mode != BoundaryMode::Bounce ==> final(store)@ == old(store)@.map_values(
            |b: Boid| confined(b, *bounds, mode, *steer, Slopes { x: 0, y: 0, z: 0 }),
        ),
        final(store).next_id == old(store).next_id,
        old(store).well_formed() ==> final(store).well_formed(),
{
    let n: usize = store.boids.len();
    let mut i: usize = 0;
    while i < n
        invariant
            i <= n,
            n == store@.len(),
            store@.len() == old(store)@.len(),
            store.next_id == old(store).next_id,
            forall|j: int|
                0 <= j < i ==> #[trigger] is_confined(
                    old(store)@[j],
                    store@[j],
                    *bounds,
                    mode,
                    *steer,
                ),
            forall|j: int|
                0 <= j < i && mode != BoundaryMode::Bounce ==> #[trigger] store@[j] == confined(
                    old(store)@[j],
                    *bounds,
                    mode,
                    *steer,
                    Slopes { x: 0, y: 0, z: 0 },
                ),
            forall|j: int| 0 <= j < i ==> (#[trigger] store@[j]).id == old(store)@[j].id,
            forall|j: int| i <= j < n ==> #[trigger] store@[j] == old(store)@[j],
        decreases n - i,
    {
        let mut boid = store.boids[i];
        confine(&mut boid, bounds, mode, steer);
        store.boids.set(i, boid);
        i += 1;
    }
    proof {
        if mode != BoundaryMode::Bounce {
            assert(store@ =~= old(store)@.map_values(
                |b: Boid| confined(b, *bounds, mode, *steer, Slopes { x: 0, y: 0, z: 0 }),
            ));
        }
    }
}

/// Those of planar neighbours that a band picks are planar.
proof fn lemma_planar_band(me: Boid, candidates: Seq<Neighbor>, settings: BoidSettings, band: Band)
    requires
        planar_neighbors(candidates),
    ensures
        planar_neighbors(candidates.filter(in_band(me, settings, band))),
{
    let picked = candidates.filter(in_band(me, settings, band));
    assert forall|i: int| 0 <= i < picked.len() implies (#[trigger] picked[i]).position.z == 0
        && picked[i].velocity.z == 0 by {
        assert(picked.contains(picked[i]));
        candidates.lemma_filter_contains_rev(in_band(me, settings, band), picked[i]);
        let k = choose|k: int| 0 <= k < candidates.len() && candidates[k] == picked[i];
        assert(candidates[k].position.z == 0);
    }
}

/// In the plane the flocking force is planar: a planar agent among planar
/// candidates, drawn to a target in the plane or to none, feels no force
/// along z.
pub proof fn lemma_planar_flocking(
    me: Boid,
    candidates: Seq<Neighbor>,
    settings: BoidSettings,
    target: Option<Vector>,
)
    requires
        me.is_planar(),
        planar_neighbors(candidates),
        target.is_some() ==> target.unwrap().z == 0,
    ensures
        total_force(me, candidates, settings, target).z == 0,
{
    lemma_planar_band(me, candidates, settings, Band::Cohesion);
    lemma_planar_band(me, candidates, settings, Band::Separation);
    lemma_planar_band(me, candidates, settings, Band::Alignment);
    let at = match target {
        Some(t) => t,
        None => me.position,
    };
    lemma_planar_rules(
        me,
        candidates.filter(in_band(me, settings, Band::Cohesion)),
        at,
        settings.cohesion_coeff,
        settings.min_distance_between_boids,
        settings.collision_coeff,
    );
    lemma_planar_rules(
        me,
        candidates.filter(in_band(me, settings, Band::Separation)),
        at,
        settings.separation_coeff,
        settings.min_distance_between_boids,
        settings.collision_coeff,
    );
    lemma_planar_rules(
        me,
        candidates.filter(in_band(me, settings, Band::Alignment)),
        at,
        settings.alignment_coeff,
        settings.min_distance_between_boids,
        settings.collision_coeff,
    );
    lemma_planar_rules(
        me,
        candidates,
        at,
        settings.attraction_coeff,
        settings.min_distance_between_boids,
        settings.collision_coeff,
    );
}

} // verus!
