//! The agents of a simulation, in the order in which they were spawned, and
//! their lifecycle: spawning at random places, finding by identity, and
//! bringing the population to the number that the configuration asks for.

use vstd::prelude::*;
use crate::boid::Boid;
use crate::boundary::Bounds;
use crate::chance::random_between;
use crate::settings::BoidSettings;
use crate::vector::{rescale, rescaled, MathVector, Vector};
use crate::vector::lemma_as_vector;

verus! {

/// Range of each component of the heading drawn for a new agent.
pub const HEADING_SPREAD: i32 = 1000;

/// The agents, oldest first.
#[derive(Debug)]
pub struct AgentStore {
    pub boids: Vec<Boid>,
    /// Identity that the next agent will get.
    pub next_id: u64,
}

impl View for AgentStore {
    type V = Seq<Boid>;

    open spec fn view(&self) -> Seq<Boid> {
        self.boids@
    }
}

/// No two of the agents share an identity, and each identity is below
/// `next_id`.
pub open spec fn distinct_below(boids: Seq<Boid>, next_id: u64) -> bool {
    &&& forall|i: int, j: int| 0 <= i < j < boids.len() ==> boids[i].id != boids[j].id
    &&& forall|i: int| 0 <= i < boids.len() ==> boids[i].id < next_id
}

/// What is drawn at random for a new agent.
#[derive(Clone, Copy, Debug, PartialEq, Eq, Structural)]
pub struct SpawnDraw {
    pub position: Vector,
    /// Direction of the first velocity.
    pub heading: Vector,
    pub group: u8,
}

/// Whether `c` lies between `a` and `b`, whichever of the two is smaller.
pub open spec fn between(c: i32, a: i32, b: i32) -> bool {
    (a <= c <= b) || (b <= c <= a)
}

impl SpawnDraw {
    /// What every draw meets: the position is in the world, the heading is
    /// not zero and has no component beyond [`HEADING_SPREAD`], the group is
    /// one of the `groups` (group zero when there is none), and in a planar
    /// world the heading is planar.
    pub open spec fn valid(self, bounds: Bounds, groups: u8) -> bool {
        &&& between(self.position.x, bounds.min.x, bounds.max.x)
        &&& between(self.position.y, bounds.min.y, bounds.max.y)
        &&& between(self.position.z, bounds.min.z, bounds.max.z)
        &&& -HEADING_SPREAD <= self.heading.x <= HEADING_SPREAD
        &&& -HEADING_SPREAD <= self.heading.y <= HEADING_SPREAD
        &&& -HEADING_SPREAD <= self.heading.z <= HEADING_SPREAD
        &&& !self.heading@.is_zero()
        &&& bounds.min.z == bounds.max.z ==> self.heading.z == 0
        &&& groups > 0 ==> self.group < groups
        &&& groups == 0 ==> self.group == 0
    }
}

/// The first velocity of an agent: along its heading, at the speed floor;
/// zero if there is no floor.
pub open spec fn launch(heading: Vector, min_speed: i32) -> MathVector {
    if min_speed > 0 && !heading@.is_zero() {
        rescaled(heading@, min_speed as int)
    } else {
        MathVector::zero()
    }
}

/// The agent that a draw gives.
pub open spec fn spawned(id: u64, draw: SpawnDraw, min_speed: i32) -> Boid {
    Boid {
        id,
        group: draw.group,
        position: draw.position,
        velocity: launch(draw.heading, min_speed).as_vector(),
        acceleration: Vector { x: 0, y: 0, z: 0 },
    }
}

/// Whether an agent is one that some draw gives.
pub open spec fn is_spawn(boid: Boid, id: u64, bounds: Bounds, groups: u8, min_speed: i32) -> bool {
    exists|draw: SpawnDraw| draw.valid(bounds, groups) && boid == #[trigger] spawned(id, draw, min_speed)
}

/// The population after it was brought from `previous_count` to `count`
/// agents asked for, as far as no draw decides it: unchanged when the two
/// are equal; without its oldest agents, as many as the count fell by (all
/// of them, if there are no more), when it fell. `None` when it rose.
pub open spec fn reconciled(boids: Seq<Boid>, previous_count: usize, count: usize) -> Option<Seq<Boid>> {
    if count == previous_count {
        Some(boids)
    } else if count < previous_count {
        if previous_count - count >= boids.len() {
            Some(Seq::empty())
        } else {
            Some(boids.skip(previous_count - count))
        }
    } else {
        None
    }
}

/// What has to happen to the population when the number asked for changes.
#[derive(Clone, Copy, Debug, PartialEq, Eq, Structural)]
pub enum PopulationChange {
    /// The number did not change.
    Keep,
    /// The number rose by this much: as many agents are spawned.
    Spawn(usize),
    /// The number fell by this much: as many of the oldest agents are
    /// removed.
    Despawn(usize),
}

/// The change that brings a population from `previous_count` agents asked
/// for to `count`.
pub open spec fn change_of(previous_count: usize, count: usize) -> PopulationChange {
    if count == previous_count {
        PopulationChange::Keep
    } else if count > previous_count {
        PopulationChange::Spawn((count - previous_count) as usize)
    } else {
        PopulationChange::Despawn((previous_count - count) as usize)
    }
}

/// Decides what has to happen to the population: the difference between the
/// number asked for now and the number asked for before, not the number of
/// agents alive, is what is spawned or removed.
pub fn population_change(previous_count: usize, count: usize) -> (change: PopulationChange)
    ensures
        change == change_of(previous_count, count),
{
    if count == previous_count {
        PopulationChange::Keep
    } else if count > previous_count {
        PopulationChange::Spawn(count - previous_count)
    } else {
        PopulationChange::Despawn(previous_count - count)
    }
}

/// Gives a new agent its first velocity: along its heading, at the speed
/// floor; zero if there is no floor.
pub fn launch_velocity(heading: Vector, min_speed: i32) -> (velocity: Vector)
    ensures
        velocity@ == launch(heading, min_speed),
{
    if min_speed > 0 && !heading.is_zero() {
        rescale(heading.x as i64, heading.y as i64, heading.z as i64, min_speed)
    } else {
        Vector::zero()
    }
}

/// Whether `after` is the population `before` brought from `previous_count`
/// to `count` agents asked for. When the count did not rise, `after` is
/// what [`reconciled`] says and no identity was given out. When it rose by
/// `n`, `after` is `before` followed by `n` agents that draws give, with
/// the next `n` identities in their order.
pub open spec fn population_adjusted(
    before: Seq<Boid>,
    before_next_id: u64,
    after: Seq<Boid>,
    after_next_id: u64,
    previous_count: usize,
    count: usize,
    bounds: Bounds,
    groups: u8,
    min_speed: i32,
) -> bool {
    if count <= previous_count {
        Some(after) == reconciled(before, previous_count, count) && after_next_id == before_next_id
    } else {
        &&& after.len() == before.len() + (count - previous_count)
        &&& after.take(before.len() as int) == before
        &&& after_next_id == before_next_id + (count - previous_count)
        &&& forall|i: int|
            before.len() <= i < after.len() ==> is_spawn(
                #[trigger] after[i],
                (before_next_id + (i - before.len())) as u64,
                bounds,
                groups,
                min_speed,
            )
    }
}

/// Draws one coordinate between two edges, whichever is the lower.
fn draw_coordinate(a: i32, b: i32) -> (c: i32)
    ensures
        between(c, a, b),
{
    if a <= b {
        random_between(a, b)
    } else {
        random_between(b, a)
    }
}

/// Draws what a new agent needs.
pub fn draw_spawn(bounds: &Bounds, groups: u8) -> (draw: SpawnDraw)
    ensures
        draw.valid(*bounds, groups),
{
    let position = Vector {
        x: draw_coordinate(bounds.min.x, bounds.max.x),
        y: draw_coordinate(bounds.min.y, bounds.max.y),
        z: draw_coordinate(bounds.min.z, bounds.max.z),
    };
    let mut hx = random_between(-HEADING_SPREAD, HEADING_SPREAD);
    let hy = random_between(-HEADING_SPREAD, HEADING_SPREAD);
    let hz = if bounds.min.z == bounds.max.z {
        0
    } else {
        random_between(-HEADING_SPREAD, HEADING_SPREAD)
    };
    if hx == 0 && hy == 0 && hz == 0 {
        hx = 1;
    }
    let group: u8 = if groups == 0 {
        0
    } else {
        random_between(0, groups as i32 - 1) as u8
    };
    SpawnDraw { position, heading: Vector { x: hx, y: hy, z: hz }, group }
}

impl AgentStore {
    /// The invariant of the store.
    pub open spec fn well_formed(&self) -> bool {
        distinct_below(self@, self.next_id)
    }

    /// A store without agents.
    pub fn new() -> (store: AgentStore)
        ensures
            store@.len() == 0,
            store.next_id == 0,
            store.well_formed(),
    {
        AgentStore { boids: Vec::new(), next_id: 0 }
    }

    /// Number of agents.
    pub fn len(&self) -> (n: usize)
        ensures
            n == self@.len(),
    {
        self.boids.len()
    }

    /// Finds the place of the agent with the given identity: the first such
    /// place, or `None` if no agent has it.
    pub fn find(&self, id: u64) -> (slot: Option<usize>)
        ensures
            match slot {
                Some(i) => i < self@.len() && self@[i as int].id == id && forall|j: int|
                    0 <= j < i ==> self@[j].id != id,
                None => forall|j: int| 0 <= j < self@.len() ==> self@[j].id != id,
            },
    {
        let mut i: usize = 0;
        while i < self.boids.len()
            invariant
                i <= self@.len(),
                forall|j: int| 0 <= j < i ==> self@[j].id != id,
            decreases self@.len() - i,
        {
            if self.boids[i].id == id {
                return Some(i);
            }
            i += 1;
        }
        None
    }

    /// Adds an agent at rest with the next identity, and returns that
    /// identity.
    pub fn spawn(&mut self, group: u8, position: Vector, velocity: Vector) -> (id: u64)
        requires
            old(self).well_formed(),
            old(self).next_id < u64::MAX,
        ensures
            id == old(self).next_id,
            final(self).next_id == old(self).next_id + 1,
            final(self)@ == old(self)@.push(
                Boid { id, group, position, velocity, acceleration: Vector { x: 0, y: 0, z: 0 } },
            ),
            final(self).well_formed(),
    {
        let id = self.next_id;
        self.boids.push(Boid::new(id, group, position, velocity));
        self.next_id = id + 1;
        id
    }

    /// Adds the agent that a draw gives, and returns its identity.
    pub fn spawn_from(&mut self, draw: SpawnDraw, min_speed: i32) -> (id: u64)
        requires
            old(self).well_formed(),
            old(self).next_id < u64::MAX,
        ensures
            id == old(self).next_id,
            final(self).next_id == old(self).next_id + 1,
            final(self)@ == old(self)@.push(spawned(id, draw, min_speed)),
            final(self).well_formed(),
    {
        let velocity = launch_velocity(draw.heading, min_speed);
        proof {
            lemma_as_vector(velocity, MathVector::zero());
        }
        self.spawn(draw.group, draw.position, velocity)
    }

    /// Adds an agent at a random place of the world, heading a random way at
    /// the speed floor, in a random one of the `groups`. Returns its
    /// identity.
    pub fn spawn_boid_entity(&mut self, bounds: &Bounds, groups: u8, min_speed: i32) -> (id: u64)
        requires
            old(self).well_formed(),
            old(self).next_id < u64::MAX,
        ensures
            id == old(self).next_id,
            final(self).next_id == old(self).next_id + 1,
            final(self)@.len() == old(self)@.len() + 1,
            final(self)@.drop_last() == old(self)@,
            is_spawn(final(self)@.last(), id, *bounds, groups, min_speed),
            final(self).well_formed(),
    {
        let draw = draw_spawn(bounds, groups);
        let id = self.spawn_from(draw, min_speed);
        proof {
            assert(self@.drop_last() =~= old(self)@);
            assert(self@.last() == spawned(id, draw, min_speed));
        }
        id
    }

    /// Removes the oldest agents, `count` of them or all if there are no
    /// more. The others stay as they are, in their order.
    pub fn despawn_first(&mut self, count: usize)
        requires
            old(self).well_formed(),
        ensures
            count >= old(self)@.len() ==> final(self)@.len() == 0,
            count < old(self)@.len() ==> final(self)@ == old(self)@.skip(count as int),
            final(self).next_id == old(self).next_id,
            final(self).well_formed(),
    {
        let gone: usize = if count >= self.boids.len() {
            self.boids.len()
        } else {
            count
        };
        let rest = self.boids.split_off(gone);
        self.boids = rest;
        proof {
            assert(self@ =~= old(self)@.skip(gone as int));
        }
    }

    /// Spawns `count` agents at random, as at the start of a simulation:
    /// the population is what it was, followed by `count` agents that draws
    /// give, with the next `count` identities in their order.
    pub fn spawn_boids(&mut self, count: usize, bounds: &Bounds, groups: u8, min_speed: i32)
        requires
            old(self).well_formed(),
            old(self).next_id + count <= u64::MAX,
        ensures
            final(self).well_formed(),
            population_adjusted(
                old(self)@,
                old(self).next_id,
                final(self)@,
                final(self).next_id,
                0,
                count,
                *bounds,
                groups,
                min_speed,
            ),
    {
        let mut added: usize = 0;
        proof {
            assert(self@.take(self@.len() as int) =~= self@);
        }
        while added < count
            invariant
                added <= count,
                self.well_formed(),
                old(self).next_id + count <= u64::MAX,
                self.next_id == old(self).next_id + added,
                self@.len() == old(self)@.len() + added,
                self@.take(old(self)@.len() as int) == old(self)@,
                forall|i: int|
                    old(self)@.len() <= i < self@.len() ==> is_spawn(
                        #[trigger] self@[i],
                        (old(self).next_id + (i - old(self)@.len())) as u64,
                        *bounds,
                        groups,
                        min_speed,
                    ),
            decreases count - added,
        {
            let ghost before = self@;
            self.spawn_boid_entity(bounds, groups, min_speed);
            proof {
                assert(self@.drop_last() == before);
                assert forall|i: int| 0 <= i < before.len() implies self@[i] == before[i] by {
                    assert(self@.drop_last()[i] == self@[i]);
                }
                assert(self@.take(old(self)@.len() as int) =~= old(self)@) by {
                    assert forall|i: int| 0 <= i < old(self)@.len() implies self@.take(
                        old(self)@.len() as int,
                    )[i] == old(self)@[i] by {
                        assert(before.take(old(self)@.len() as int)[i] == before[i]);
                    }
                }
                assert forall|i: int| old(self)@.len() <= i < self@.len() implies is_spawn(
                    #[trigger] self@[i],
                    (old(self).next_id + (i - old(self)@.len())) as u64,
                    *bounds,
                    groups,
                    min_speed,
                ) by {
                    if i < before.len() {
                        assert(self@[i] == before[i]);
                    } else {
                        assert(self@[i] == self@.last());
                    }
                }
            }
            added += 1;
        }
        proof {
            if count == 0 {
                assert(self@ =~= old(self)@);
            }
        }
    }

    /// Removes every agent, as when a scene ends. Identities are not given
    /// out again.
    pub fn clear(&mut self)
        ensures
            final(self)@.len() == 0,
            final(self).next_id == old(self).next_id,
            final(self).well_formed(),
    {
        self.boids = Vec::new();
    }

    /// Brings the population to the number that the settings ask for. The
    /// change is the difference between `count` and `previous_count`: that
    /// many agents are spawned at random, or that many of the oldest are
    /// removed while the others stay untouched. Afterwards `previous_count`
    /// is `count`. Returns the change that was made, for whoever keeps
    /// something for each agent.
    pub fn adjust_population(&mut self, settings: &mut BoidSettings, bounds: &Bounds, groups: u8) -> (change:
        PopulationChange)
        requires
            old(self).well_formed(),
            old(settings).count > old(settings).previous_count ==> old(self).next_id + (old(
                settings,
            ).count - old(settings).previous_count) <= u64::MAX,
        ensures
            change == change_of(old(settings).previous_count, old(settings).count),
            *final(settings) == (BoidSettings { previous_count: old(settings).count, ..*old(settings) }),
            final(self).well_formed(),
            population_adjusted(
                old(self)@,
                old(self).next_id,
                final(self)@,
                final(self).next_id,
                old(settings).previous_count,
                old(settings).count,
                *bounds,
                groups,
                old(settings).min_speed,
            ),
    {
        let count = settings.count;
        let change = population_change(settings.previous_count, count);
        match change {
            PopulationChange::Keep => {},
            PopulationChange::Spawn(missing) => {
                self.spawn_boids(missing, bounds, groups, settings.min_speed);
            },
            PopulationChange::Despawn(surplus) => {
                self.despawn_first(surplus);
                proof {
                    if surplus >= old(self)@.len() {
                        assert(self@ =~= Seq::<Boid>::empty());
                    }
                }
            },
        }
        settings.previous_count = count;
        change
    }
}

/// What holds of every agent that was spawned at random: it is in the
/// world, at rest, no faster than the speed floor, and in one of the groups.
pub proof fn lemma_spawn_is_sound(boid: Boid, id: u64, bounds: Bounds, groups: u8, min_speed: i32)
    requires
        is_spawn(boid, id, bounds, groups, min_speed),
        bounds.well_formed(),
    ensures
        boid.id == id,
        bounds.contains(boid.position),
        boid.acceleration@ == MathVector::zero(),
        min_speed >= 0 ==> boid.velocity@.norm_squared() <= min_speed * min_speed,
        groups > 0 ==> boid.group < groups,
        bounds.min.z == 0 && bounds.max.z == 0 ==> boid.position.z == 0 && boid.velocity.z == 0,
{
    let draw = choose|draw: SpawnDraw|
        draw.valid(bounds, groups) && boid == #[trigger] spawned(id, draw, min_speed);
    let v = launch(draw.heading, min_speed);
    if min_speed > 0 {
        crate::vector::lemma_rescaled_length(draw.heading@, min_speed as int);
        crate::vector::lemma_norm_squared(v);
        crate::integrator::lemma_rescaled_fits(v, min_speed as int);
        lemma_as_vector(boid.velocity, v);
        if draw.heading.z == 0 {
            crate::vector::lemma_planar_rescaled(draw.heading@, min_speed as int);
        }
    } else {
        assert(boid.velocity@ == MathVector::zero());
        assert(boid.velocity@.norm_squared() == 0);
    }
}

/// Lowering the population removes exactly the deficit and leaves the
/// others untouched: with at least `previous_count - count` agents in the
/// store, that many fewer remain, and the agent now at place `i` is the one
/// that was at place `i + (previous_count - count)`, unchanged.
pub proof fn lemma_deficit_is_removed(boids: Seq<Boid>, previous_count: usize, count: usize)
    requires
        count < previous_count,
        previous_count - count <= boids.len(),
    ensures
        reconciled(boids, previous_count, count).is_some(),
        reconciled(boids, previous_count, count).unwrap().len() == boids.len() - (previous_count
            - count),
        forall|i: int|
            0 <= i < boids.len() - (previous_count - count) ==> #[trigger] reconciled(
                boids,
                previous_count,
                count,
            ).unwrap()[i] == boids[i + (previous_count - count)],
{
}

} // verus!
