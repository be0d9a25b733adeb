//! The configuration that a host hands to the simulation: flocking
//! parameters, the field of view, the boundary mode, per-species presets and
//! the targets of the groups. The simulation only reads it.

use vstd::prelude::*;
use crate::vector::{Vector, UNIT};

verus! {

/// The value that stands for a cosine of one.
pub const COS_SCALE: i32 = 1_000_000;

/// Cosine of 45 degrees, in units of `1 / COS_SCALE`.
pub const COS_45_DEGREES: i32 = 707_107;

/// What happens to an agent that reaches the edge of the world.
#[derive(Clone, Copy, Debug, PartialEq, Eq, Structural)]
pub enum BoundaryMode {
    /// The agent reappears at the opposite edge.
    Wrap,
    /// The agent is put back on the edge and its velocity is reflected, then
    /// turned by a random angle of at most 45 degrees.
    Bounce,
    /// Near an edge the velocity is nudged back toward the inside.
    SoftSteer,
}

/// The cone, centred on the heading, inside which other agents are seen. It
/// is held as the cosine of half its opening angle, in units of
/// `1 / COS_SCALE`: `COS_SCALE` is a cone of zero degrees, `0` one of 180
/// degrees, `-COS_SCALE` the full 360 degrees.
#[derive(Clone, Copy, Debug, PartialEq, Eq, Structural)]
pub struct FieldOfView {
    pub cos_half_angle: i32,
}

impl FieldOfView {
    /// Whether the cone leaves no direction out.
    pub open spec fn is_full(self) -> bool {
        self.cos_half_angle <= -COS_SCALE
    }

    /// The field of view of 360 degrees.
    pub fn full() -> (fov: FieldOfView)
        ensures
            fov.cos_half_angle == -COS_SCALE,
            fov.is_full(),
    {
        FieldOfView { cos_half_angle: -COS_SCALE }
    }

    /// The field of view whose half angle has the given cosine; a cosine
    /// outside `[-COS_SCALE, COS_SCALE]` is taken as the nearer end.
    pub fn from_cos_half_angle(cos_half_angle: i32) -> (fov: FieldOfView)
        ensures
            -COS_SCALE <= fov.cos_half_angle <= COS_SCALE,
            -COS_SCALE <= cos_half_angle <= COS_SCALE ==> fov.cos_half_angle == cos_half_angle,
            cos_half_angle < -COS_SCALE ==> fov.cos_half_angle == -COS_SCALE,
            cos_half_angle > COS_SCALE ==> fov.cos_half_angle == COS_SCALE,
    {
        if cos_half_angle < -COS_SCALE {
            FieldOfView { cos_half_angle: -COS_SCALE }
        } else if cos_half_angle > COS_SCALE {
            FieldOfView { cos_half_angle: COS_SCALE }
        } else {
            FieldOfView { cos_half_angle }
        }
    }
}

/// The parameters of one flock. Lengths, speeds and the distance threshold
/// are in sub-units. Coefficients are in parts of `1 / UNIT`: `UNIT` is a
/// factor of one, `UNIT / 2` a factor of a half.
#[derive(Clone, Copy, Debug, PartialEq, Eq, Structural)]
pub struct BoidSettings {
    /// Population asked for.
    pub count: usize,
    /// Population that was asked for when the store was last reconciled.
    pub previous_count: usize,
    pub cohesion_range: i32,
    pub alignment_range: i32,
    pub separation_range: i32,
    /// Below this distance the separation push is weighted by the collision
    /// coefficient.
    pub min_distance_between_boids: i32,
    pub cohesion_coeff: i32,
    pub alignment_coeff: i32,
    pub separation_coeff: i32,
    pub collision_coeff: i32,
    pub attraction_coeff: i32,
    pub min_speed: i32,
    pub max_speed: i32,
    pub field_of_view: FieldOfView,
    pub boundary_mode: BoundaryMode,
}

impl BoidSettings {
    /// Radii are ordered and not negative, and the speed band is not empty.
    pub open spec fn well_formed(self) -> bool {
        &&& 0 <= self.separation_range <= self.alignment_range <= self.cohesion_range
        &&& 0 <= self.min_distance_between_boids
        &&& 0 < self.min_speed <= self.max_speed
        &&& -COS_SCALE <= self.field_of_view.cos_half_angle <= COS_SCALE
    }

    /// The largest of the three radii.
    pub open spec fn max_range(self) -> int {
        let a = if self.separation_range >= self.alignment_range {
            self.separation_range
        } else {
            self.alignment_range
        };
        if a >= self.cohesion_range {
            a as int
        } else {
            self.cohesion_range as int
        }
    }

    /// The largest of the three radii: the radius of the neighbour query.
    pub fn query_range(&self) -> (r: i32)
        ensures
            r == self.max_range(),
    {
        let a = if self.separation_range >= self.alignment_range {
            self.separation_range
        } else {
            self.alignment_range
        };
        if a >= self.cohesion_range {
            a
        } else {
            self.cohesion_range
        }
    }

    /// The parameters of a flock in space.
    pub open spec fn spatial_preset() -> BoidSettings {
        BoidSettings {
            count: 2000,
            previous_count: 2000,
            cohesion_range: (50 * UNIT) as i32,
            alignment_range: (30 * UNIT) as i32,
            separation_range: (20 * UNIT) as i32,
            min_distance_between_boids: (20 * UNIT) as i32,
            cohesion_coeff: (20 * UNIT) as i32,
            alignment_coeff: (5 * UNIT) as i32,
            separation_coeff: (20 * UNIT) as i32,
            collision_coeff: (24 * UNIT) as i32,
            attraction_coeff: UNIT,
            min_speed: (50 * UNIT) as i32,
            max_speed: (300 * UNIT) as i32,
            field_of_view: FieldOfView { cos_half_angle: COS_45_DEGREES },
            boundary_mode: BoundaryMode::SoftSteer,
        }
    }

    /// The parameters of a flock in the plane: those of a flock in space,
    /// but ten to three times as fast.
    pub fn planar() -> (s: BoidSettings)
        ensures
            s == (BoidSettings {
                min_speed: (500 * UNIT) as i32,
                max_speed: (1000 * UNIT) as i32,
                ..BoidSettings::spatial_preset()
            }),
            s.well_formed(),
    {
        let mut s = BoidSettings::default();
        s.min_speed = 500 * UNIT;
        s.max_speed = 1000 * UNIT;
        s
    }

    /// The parameters of a flock of birds.
    pub fn sky() -> (s: BoidSettings)
        ensures
            s == (BoidSettings {
                count: 1000,
                previous_count: 1000,
                min_distance_between_boids: (50 * UNIT) as i32,
                max_speed: (150 * UNIT) as i32,
                ..BoidSettings::spatial_preset()
            }),
            s.well_formed(),
    {
        let mut s = BoidSettings::default();
        s.count = 1000;
        s.previous_count = 1000;
        s.min_distance_between_boids = 50 * UNIT;
        s.max_speed = 150 * UNIT;
        s
    }

    /// The parameters of a school of fish, which sees three quarters of the
    /// way around.
    pub fn underwater() -> (s: BoidSettings)
        ensures
            s == (BoidSettings {
                count: 500,
                previous_count: 500,
                cohesion_range: (30 * UNIT) as i32,
                alignment_range: (20 * UNIT) as i32,
                separation_range: (15 * UNIT) as i32,
                min_distance_between_boids: (30 * UNIT) as i32,
                cohesion_coeff: (15 * UNIT) as i32,
                alignment_coeff: (4 * UNIT) as i32,
                separation_coeff: (20 * UNIT) as i32,
                collision_coeff: (20 * UNIT) as i32,
                attraction_coeff: UNIT,
                min_speed: (30 * UNIT) as i32,
                max_speed: (100 * UNIT) as i32,
                field_of_view: FieldOfView { cos_half_angle: (-COS_45_DEGREES) as i32 },
                boundary_mode: BoundaryMode::SoftSteer,
            }),
            s.well_formed(),
    {
        BoidSettings {
            count: 500,
            previous_count: 500,
            cohesion_range: 30 * UNIT,
            alignment_range: 20 * UNIT,
            separation_range: 15 * UNIT,
            min_distance_between_boids: 30 * UNIT,
            cohesion_coeff: 15 * UNIT,
            alignment_coeff: 4 * UNIT,
            separation_coeff: 20 * UNIT,
            collision_coeff: 20 * UNIT,
            attraction_coeff: UNIT,
            min_speed: 30 * UNIT,
            max_speed: 100 * UNIT,
            field_of_view: FieldOfView { cos_half_angle: -COS_45_DEGREES },
            boundary_mode: BoundaryMode::SoftSteer,
        }
    }
}

impl Default for BoidSettings {
    fn default() -> (s: BoidSettings)
        ensures
            s == BoidSettings::spatial_preset(),
            s.well_formed(),
    {
        BoidSettings {
            count: 2000,
            previous_count: 2000,
            cohesion_range: 50 * UNIT,
            alignment_range: 30 * UNIT,
            separation_range: 20 * UNIT,
            min_distance_between_boids: 20 * UNIT,
            cohesion_coeff: 20 * UNIT,
            alignment_coeff: 5 * UNIT,
            separation_coeff: 20 * UNIT,
            collision_coeff: 24 * UNIT,
            attraction_coeff: UNIT,
            min_speed: 50 * UNIT,
            max_speed: 300 * UNIT,
            field_of_view: FieldOfView { cos_half_angle: COS_45_DEGREES },
            boundary_mode: BoundaryMode::SoftSteer,
        }
    }
}

/// The kinds of fish. Agents flock only with their own kind.
#[derive(Clone, Copy, Debug, PartialEq, Eq, Structural)]
pub enum Species {
    SmallFish,
    MediumFish,
    LargeFish,
}

impl Species {
    /// The parameters of a school of this species: those of a flock in
    /// space, with the school's size and speed band.
    pub open spec fn settings(self) -> BoidSettings {
        match self {
            Species::SmallFish => BoidSettings {
                count: 200,
                min_speed: (30 * UNIT) as i32,
                max_speed: (300 * UNIT) as i32,
                ..BoidSettings::spatial_preset()
            },
            Species::MediumFish => BoidSettings {
                count: 100,
                min_speed: (20 * UNIT) as i32,
                max_speed: (100 * UNIT) as i32,
                ..BoidSettings::spatial_preset()
            },
            Species::LargeFish => BoidSettings {
                count: 50,
                min_speed: (20 * UNIT) as i32,
                max_speed: (50 * UNIT) as i32,
                ..BoidSettings::spatial_preset()
            },
        }
    }

    /// Number of schools of this species in a scene.
    pub open spec fn schools(self) -> int {
        match self {
            Species::SmallFish => 10,
            Species::MediumFish => 5,
            Species::LargeFish => 3,
        }
    }

    /// Looks up the parameters of a school of this species.
    pub fn get_settings(&self) -> (s: BoidSettings)
        ensures
            s == self.settings(),
            s.well_formed(),
    {
        let mut s = BoidSettings::default();
        match self {
            Species::SmallFish => {
                s.count = 200;
                s.min_speed = 30 * UNIT;
                s.max_speed = 300 * UNIT;
            },
            Species::MediumFish => {
                s.count = 100;
                s.min_speed = 20 * UNIT;
                s.max_speed = 100 * UNIT;
            },
            Species::LargeFish => {
                s.count = 50;
                s.min_speed = 20 * UNIT;
                s.max_speed = 50 * UNIT;
            },
        }
        s
    }

    /// Looks up the number of schools of this species in a scene.
    pub fn school_count(&self) -> (n: usize)
        ensures
            n == self.schools(),
    {
        match self {
            Species::SmallFish => 10,
            Species::MediumFish => 5,
            Species::LargeFish => 3,
        }
    }
}

impl Default for Species {
    fn default() -> (s: Species)
        ensures
            s == Species::SmallFish,
    {
        Species::SmallFish
    }
}

/// The point that each group is drawn to: one per group, indexed by the
/// group's number.
#[derive(Clone, Debug)]
pub struct GroupsTargets {
    pub targets: Vec<Vector>,
}

impl GroupsTargets {
    /// The target of a group, if the group has one.
    pub open spec fn target(self, group: u8) -> Option<Vector> {
        if (group as int) < self.targets@.len() {
            Some(self.targets@[group as int])
        } else {
            None
        }
    }

    /// No group has a target.
    pub fn none() -> (t: GroupsTargets)
        ensures
            t.targets@.len() == 0,
    {
        GroupsTargets { targets: Vec::new() }
    }

    /// Looks up the target of a group.
    pub fn target_of(&self, group: u8) -> (t: Option<Vector>)
        ensures
            t == self.target(group),
    {
        if (group as usize) < self.targets.len() {
            Some(self.targets[group as usize])
        } else {
            None
        }
    }
}

} // verus!
