//! The records that the simulation works on: agents, the view that one agent
//! has of another, and obstacles.

use vstd::prelude::*;
use crate::vector::Vector;

verus! {

/// One agent of the flock.
#[derive(Clone, Copy, Debug, PartialEq, Eq, Structural)]
pub struct Boid {
    /// Identity of the agent; no two agents of a store share one.
    pub id: u64,
    /// Group of the agent, which selects its target.
    pub group: u8,
    pub position: Vector,
    pub velocity: Vector,
    /// Sum of the forces delivered in the current tick; zero between ticks.
    pub acceleration: Vector,
}

/// What an agent needs to know of another agent nearby.
#[derive(Clone, Copy, Debug, PartialEq, Eq, Structural)]
pub struct Neighbor {
    pub id: u64,
    pub position: Vector,
    pub velocity: Vector,
}

impl Boid {
    /// A resting agent: its acceleration is zero.
    pub fn new(id: u64, group: u8, position: Vector, velocity: Vector) -> (b: Boid)
        ensures
            b == (Boid { id, group, position, velocity, acceleration: Vector { x: 0, y: 0, z: 0 } }),
    {
        Boid { id, group, position, velocity, acceleration: Vector { x: 0, y: 0, z: 0 } }
    }

    /// The agent as others see it.
    pub open spec fn seen(self) -> Neighbor {
        Neighbor { id: self.id, position: self.position, velocity: self.velocity }
    }

    /// The agent as others see it.
    pub fn as_neighbor(&self) -> (n: Neighbor)
        ensures
            n == self.seen(),
    {
        Neighbor { id: self.id, position: self.position, velocity: self.velocity }
    }
}

/// A ball that agents steer away from: an obstacle, or a threat such as a
/// predator.
#[derive(Clone, Copy, Debug, PartialEq, Eq, Structural)]
pub struct Obstacle {
    pub position: Vector,
    pub radius: i32,
}

impl Boid {
    /// Whether the agent lies and moves in the plane `z == 0`.
    pub open spec fn is_planar(self) -> bool {
        self.position.z == 0 && self.velocity.z == 0 && self.acceleration.z == 0
    }
}

/// Whether all the neighbours lie and move in the plane `z == 0`.
pub open spec fn planar_neighbors(neighbors: Seq<Neighbor>) -> bool {
    forall|i: int|
        0 <= i < neighbors.len() ==> (#[trigger] neighbors[i]).position.z == 0
            && neighbors[i].velocity.z == 0
}

/// Whether all the obstacles have their centre in the plane `z == 0`.
pub open spec fn planar_obstacles(obstacles: Seq<Obstacle>) -> bool {
    forall|i: int| 0 <= i < obstacles.len() ==> (#[trigger] obstacles[i]).position.z == 0
}

} // verus!
