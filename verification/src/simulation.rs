//! A whole simulation and its tick. A tick runs the phases in a fixed order,
//! each to its end before the next begins: the index refreshes on its
//! period; the forces are computed from the agents as they are at the start
//! of the tick; the forces are delivered; the agents move; the boundary is
//! enforced; the population is brought to the number asked for.

use vstd::prelude::*;
use crate::accumulator::{accelerated, lemma_planar_delivery, planar_events};
use crate::accumulator::{ApplyForceEvent, ForceAccumulator};
use crate::boid::{planar_obstacles, Boid, Obstacle};
use crate::boundary::{confined, lemma_planar_boundary, steered, Bounds, Slopes, SteerSettings};
use crate::forces::{cleared, lemma_planar_avoidance, sum_of_repulsions, AvoidanceSettings};
use crate::integrator::{integrated, lemma_planar_motion, lemma_zero_time_step};
use crate::integrator::{too_fast, too_slow};
use crate::settings::{BoidSettings, BoundaryMode, GroupsTargets};
use crate::spatial::{aged, is_snapshot, IndexEntry, SpatialIndex};
use crate::store::{change_of, population_adjusted, AgentStore, PopulationChange};
use crate::systems::{all_confined, avoidance_event, flock_events};
use crate::systems::{apply_forces_system, avoid_obstacles, confine_movement, flocking};
use crate::systems::update_boid_position;
use crate::vector::{lemma_as_vector, MathVector};

verus! {

/// Everything that a simulation consists of.
#[derive(Debug)]
pub struct Simulation {
    pub store: AgentStore,
    pub index: SpatialIndex,
    /// Events that were submitted from outside since the last tick.
    pub events: ForceAccumulator,
    pub settings: BoidSettings,
    pub targets: GroupsTargets,
    pub obstacles: Vec<Obstacle>,
    pub avoidance: AvoidanceSettings,
    pub bounds: Bounds,
    pub steer: SteerSettings,
    /// Number of groups among which new agents are spread.
    pub groups: u8,
}

/// Whether `after` is the index `before` after `dt_millis` more: rebuilt as
/// a snapshot of the agents if its period has passed, else as it was but
/// older.
pub open spec fn refreshed(before: SpatialIndex, after: SpatialIndex, boids: Seq<Boid>, dt_millis: u32) -> bool {
    &&& after.period() == before.period()
    &&& before.is_due(dt_millis) ==> is_snapshot(after@, boids) && after.age() == 0
    &&& !before.is_due(dt_millis) ==> after@ == before@ && after.age() == aged(
        before.age(),
        dt_millis,
    )
}

/// The events that are delivered in a tick: those submitted from outside,
/// then one for each agent from flocking, then one for each agent from
/// avoiding obstacles.
pub open spec fn forces_of_tick(
    pending: Seq<ApplyForceEvent>,
    boids: Seq<Boid>,
    entries: Seq<IndexEntry>,
    settings: BoidSettings,
    targets: GroupsTargets,
    obstacles: Seq<Obstacle>,
    avoidance: AvoidanceSettings,
) -> Seq<ApplyForceEvent> {
    pending + flock_events(boids, entries, settings, targets) + boids.map_values(
        |b: Boid| avoidance_event(b, obstacles, avoidance),
    )
}

/// An agent after the forces of a tick were delivered and it has moved,
/// before the boundary is enforced: the obstacles turn it, the events
/// accelerate it, and it goes through the time step.
pub open spec fn moved(
    boid: Boid,
    forces: Seq<ApplyForceEvent>,
    obstacles: Seq<Obstacle>,
    avoidance: AvoidanceSettings,
    settings: BoidSettings,
    dt_millis: u32,
) -> Boid {
    integrated(accelerated(cleared(boid, obstacles, avoidance), forces), settings, dt_millis)
}

impl Simulation {
    /// The agents after the forces of a tick were delivered and they have
    /// moved, before the boundary is enforced.
    pub open spec fn all_moved(self, entries: Seq<IndexEntry>, dt_millis: u32) -> Seq<Boid> {
        let forces = forces_of_tick(
            self.events@,
            self.store@,
            entries,
            self.settings,
            self.targets,
            self.obstacles@,
            self.avoidance,
        );
        self.store@.map_values(
            |b: Boid| moved(b, forces, self.obstacles@, self.avoidance, self.settings, dt_millis),
        )
    }

    /// Runs one tick of `dt_millis`. Returns what was done to the
    /// population at its end.
    pub fn tick(&mut self, dt_millis: u32) -> (change: PopulationChange)
        requires
            old(self).store.well_formed(),
            old(self).settings.count > old(self).settings.previous_count ==> old(self).store.next_id
                + (old(self).settings.count - old(self).settings.previous_count) <= u64::MAX,
        ensures
            change == change_of(old(self).settings.previous_count, old(self).settings.count),
            refreshed(old(self).index, final(self).index, old(self).store@, dt_millis),
            final(self).events@.len() == 0,
            exists|inside: Seq<Boid>|
                {
                    &&& #[trigger] all_confined(
                        old(self).all_moved(final(self).index@, dt_millis),
                        inside,
                        old(self).bounds,
                        old(self).settings.boundary_mode,
                        old(self).steer,
                    )
                    &&& population_adjusted(
                        inside,
                        old(self).store.next_id,
                        final(self).store@,
                        final(self).store.next_id,
                        old(self).settings.previous_count,
                        old(self).settings.count,
                        old(self).bounds,
                        old(self).groups,
                        old(self).settings.min_speed,
                    )
                },
            old(self).settings.boundary_mode != BoundaryMode::Bounce ==> population_adjusted(
                old(self).all_moved(final(self).index@, dt_millis).map_values(
                    |b: Boid|
                        confined(
                            b,
                            old(self).bounds,
                            old(self).settings.boundary_mode,
                            old(self).steer,
                            Slopes { x: 0, y: 0, z: 0 },
                        ),
                ),
                old(self).store.next_id,
                final(self).store@,
                final(self).store.next_id,
                old(self).settings.previous_count,
                old(self).settings.count,
                old(self).bounds,
                old(self).groups,
                old(self).settings.min_speed,
            ),
            final(self).store.well_formed(),
            final(self).settings == (BoidSettings {
                previous_count: old(self).settings.count,
                ..old(self).settings
            }),
            final(self).targets == old(self).targets,
            final(self).obstacles == old(self).obstacles,
            final(self).avoidance == old(self).avoidance,
            final(self).bounds == old(self).bounds,
            final(self).steer == old(self).steer,
            final(self).groups == old(self).groups,
    {
        self.index.refresh(&self.store.boids, dt_millis);
        flocking(&self.store, &self.index, &self.settings, &self.targets, &mut self.events);
        avoid_obstacles(&mut self.store, &self.obstacles, &self.avoidance, &mut self.events);
        let ghost forces = self.events@;
        apply_forces_system(&mut self.events, &mut self.store);
        update_boid_position(&mut self.store, &self.settings, dt_millis);
        proof {
            assert(self.store@ =~= old(self).all_moved(self.index@, dt_millis));
        }
        let mode = self.settings.boundary_mode;
        confine_movement(&mut self.store, &self.bounds, mode, &self.steer);
        let ghost inside = self.store@;
        let change = self.store.adjust_population(&mut self.settings, &self.bounds, self.groups);
        proof {
            assert(all_confined(
                old(self).all_moved(self.index@, dt_millis),
                inside,
                old(self).bounds,
                old(self).settings.boundary_mode,
                old(self).steer,
            ));
        }
        change
    }
}

/// A tick of no time changes no agent's position or velocity, where nothing
/// else acts on them: an agent whose speed is between the floor and the
/// ceiling, that no obstacle is there to turn, and that the boundary has no
/// cause to touch (it is in the world and, in the soft mode, not within the
/// margin of an edge) has the same position and velocity after the time
/// step and after the boundary, whatever forces were delivered.
pub proof fn lemma_idle_tick(
    boid: Boid,
    forces: Seq<ApplyForceEvent>,
    avoidance: AvoidanceSettings,
    settings: BoidSettings,
    bounds: Bounds,
    steer: SteerSettings,
    slopes: Slopes,
)
    requires
        !too_slow(boid.velocity@, settings.min_speed as int),
        !too_fast(boid.velocity@, settings.max_speed as int),
        bounds.contains(boid.position),
        settings.boundary_mode == BoundaryMode::SoftSteer ==> steered(
            boid.position,
            boid.velocity,
            bounds,
            steer,
        ) == boid.velocity@,
    ensures
        confined(
            moved(boid, forces, Seq::empty(), avoidance, settings, 0),
            bounds,
            settings.boundary_mode,
            steer,
            slopes,
        ).position == boid.position,
        confined(
            moved(boid, forces, Seq::empty(), avoidance, settings, 0),
            bounds,
            settings.boundary_mode,
            steer,
            slopes,
        ).velocity == boid.velocity,
{
    let none = Seq::<Obstacle>::empty();
    assert(sum_of_repulsions(boid.position, none, avoidance.range, avoidance.turn_factor)
        == MathVector::zero());
    assert(boid.velocity@.plus(MathVector::zero()) == boid.velocity@);
    lemma_as_vector(boid.velocity, MathVector::zero());
    let turned = cleared(boid, none, avoidance);
    assert(turned == boid);
    let pushed = accelerated(turned, forces);
    lemma_zero_time_step(pushed, settings);
    let after = moved(boid, forces, none, avoidance, settings, 0);
    assert(after.position == boid.position);
    assert(after.velocity == boid.velocity);
    lemma_as_vector(boid.velocity, MathVector::zero());
}

/// A planar world stays planar: a planar agent to which planar forces are
/// delivered, among obstacles in the plane and inside a flat world, is
/// planar after the tick.
pub proof fn lemma_planar_world(
    boid: Boid,
    forces: Seq<ApplyForceEvent>,
    obstacles: Seq<Obstacle>,
    avoidance: AvoidanceSettings,
    settings: BoidSettings,
    dt_millis: u32,
    bounds: Bounds,
    steer: SteerSettings,
    slopes: Slopes,
)
    requires
        boid.is_planar(),
        planar_events(forces),
        planar_obstacles(obstacles),
        bounds.is_flat(),
    ensures
        confined(
            moved(boid, forces, obstacles, avoidance, settings, dt_millis),
            bounds,
            settings.boundary_mode,
            steer,
            slopes,
        ).is_planar(),
{
    lemma_planar_avoidance(boid, obstacles, avoidance);
    let turned = cleared(boid, obstacles, avoidance);
    lemma_planar_delivery(turned, forces);
    let pushed = accelerated(turned, forces);
    lemma_planar_motion(pushed, settings, dt_millis);
    lemma_planar_boundary(
        integrated(pushed, settings, dt_millis),
        bounds,
        settings.boundary_mode,
        steer,
        slopes,
    );
}

} // verus!
