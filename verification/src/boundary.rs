//! What happens at the edge of the world. One mode holds for the whole
//! simulation: wrapping to the opposite edge, bouncing off the edge with a
//! random turn, or steering back softly before the edge is reached.

use vstd::prelude::*;
use crate::arith::{clamp_component, floor_sqrt, saturate};
use crate::boid::Boid;
use crate::chance::random_between;
use crate::settings::BoundaryMode;
use crate::vector::{rescale, rescaled, Axis, MathVector, Vector};
use crate::vector::{lemma_as_vector, lemma_norm_squared, lemma_product_bound};
use crate::vector::lemma_square_of_product;

verus! {

/// The box that is the world. A planar world has `min.z == max.z == 0`.
#[derive(Clone, Copy, Debug, PartialEq, Eq, Structural)]
pub struct Bounds {
    pub min: Vector,
    pub max: Vector,
}

impl Bounds {
    /// No edge of the box has its ends the wrong way round.
    pub open spec fn well_formed(self) -> bool {
        self.min.x <= self.max.x && self.min.y <= self.max.y && self.min.z <= self.max.z
    }

    /// Whether a point is inside the box or on its surface.
    pub open spec fn contains(self, p: Vector) -> bool {
        &&& self.min.x <= p.x <= self.max.x
        &&& self.min.y <= p.y <= self.max.y
        &&& self.min.z <= p.z <= self.max.z
    }

    /// Decides whether a point is inside the box or on its surface.
    pub fn holds(&self, p: Vector) -> (inside: bool)
        ensures
            inside == self.contains(p),
    {
        self.min.x <= p.x && p.x <= self.max.x && self.min.y <= p.y && p.y <= self.max.y
            && self.min.z <= p.z && p.z <= self.max.z
    }
}

/// How hard and how early agents are steered back in the soft mode.
#[derive(Clone, Copy, Debug, PartialEq, Eq, Structural)]
pub struct SteerSettings {
    /// Distance from an edge below which the agent is steered.
    pub margin: i32,
    /// What is added to the velocity, per tick, along the axis of the edge.
    pub turn_factor: i32,
}

/// The slope that stands for a turn of 45 degrees: a turn is given by the
/// tangent of its angle, in units of `1 / SLOPE_LIMIT`.
pub const SLOPE_LIMIT: i32 = 1024;

/// One coordinate, wrapped as on a ring: what goes out beyond the upper
/// edge comes in at the lower edge, as far in as it went out, and the other
/// way round. What went out by more than the world is wide goes round the
/// ring more than once. In a world without width the coordinate is the edge.
pub open spec fn wrapped_coordinate(p: i32, low: i32, high: i32) -> i32 {
    if low < high {
        if p > high {
            (low + (p - high) % (high - low)) as i32
        } else if p < low {
            (high - (low - p) % (high - low)) as i32
        } else {
            p
        }
    } else if p > high {
        low
    } else if p < low {
        high
    } else {
        p
    }
}

/// A position, wrapped along each axis.
pub open spec fn wrapped(position: Vector, bounds: Bounds) -> Vector {
    Vector {
        x: wrapped_coordinate(position.x, bounds.min.x, bounds.max.x),
        y: wrapped_coordinate(position.y, bounds.min.y, bounds.max.y),
        z: wrapped_coordinate(position.z, bounds.min.z, bounds.max.z),
    }
}

/// One component of the velocity, steered: `turn` is taken off within
/// `margin` of the upper edge and beyond it, and added within `margin` of
/// the lower edge and beyond it.
pub open spec fn steered_component(p: i32, v: i32, low: i32, high: i32, steer: SteerSettings) -> int {
    let down = if p > high - steer.margin {
        steer.turn_factor as int
    } else {
        0
    };
    let up = if p < low + steer.margin {
        steer.turn_factor as int
    } else {
        0
    };
    clamp_component(v - down + up)
}

/// A velocity, steered along each axis.
pub open spec fn steered(position: Vector, velocity: Vector, bounds: Bounds, steer: SteerSettings) -> MathVector {
    MathVector {
        x: steered_component(position.x, velocity.x, bounds.min.x, bounds.max.x, steer),
        y: steered_component(position.y, velocity.y, bounds.min.y, bounds.max.y, steer),
        z: steered_component(position.z, velocity.z, bounds.min.z, bounds.max.z, steer),
    }
}

/// A velocity mirrored at a wall across the given axis.
pub open spec fn reflected(v: MathVector, axis: Axis) -> MathVector {
    match axis {
        Axis::X => MathVector { x: -v.x, ..v },
        Axis::Y => MathVector { y: -v.y, ..v },
        Axis::Z => MathVector { z: -v.z, ..v },
    }
}

/// A vector turned about the z axis by the angle whose tangent is `slope /
/// SLOPE_LIMIT`, and lengthened in the turn. In the plane this is a rotation
/// by that angle; in space the angle between the two is no greater.
pub open spec fn turned(v: MathVector, slope: int) -> MathVector {
    MathVector {
        x: v.x * SLOPE_LIMIT - v.y * slope,
        y: v.x * slope + v.y * SLOPE_LIMIT,
        z: v.z * SLOPE_LIMIT,
    }
}

/// The velocity after a bounce off a wall across `axis`: mirrored, turned by
/// `slope`, and brought back to the length it had, rounded down (and to the
/// largest component, should it be longer).
pub open spec fn bounced(velocity: Vector, axis: Axis, slope: i32) -> MathVector {
    let mirrored = reflected(velocity@, axis);
    if mirrored.is_zero() {
        MathVector::zero()
    } else {
        rescaled(
            turned(mirrored, slope as int),
            clamp_component(floor_sqrt(mirrored.norm_squared())),
        )
    }
}

/// Whether the angle between two vectors is at most 45 degrees:
/// `a . b >= |a| * |b| / sqrt(2)`, stated over squares.
pub open spec fn within_45_degrees(a: MathVector, b: MathVector) -> bool {
    a.dot(b) >= 0 && 2 * (a.dot(b) * a.dot(b)) >= a.norm_squared() * b.norm_squared()
}

/// The three slopes of a bounce, one for each axis.
#[derive(Clone, Copy, Debug, PartialEq, Eq, Structural)]
pub struct Slopes {
    pub x: i32,
    pub y: i32,
    pub z: i32,
}

impl Slopes {
    /// Every slope stands for a turn of at most 45 degrees.
    pub open spec fn well_formed(self) -> bool {
        &&& -SLOPE_LIMIT <= self.x <= SLOPE_LIMIT
        &&& -SLOPE_LIMIT <= self.y <= SLOPE_LIMIT
        &&& -SLOPE_LIMIT <= self.z <= SLOPE_LIMIT
    }
}

/// An agent bounced along one axis: beyond an edge it is put on the edge and
/// its velocity bounces; inside it is left alone.
pub open spec fn bounced_along(boid: Boid, axis: Axis, low: i32, high: i32, slope: i32) -> Boid {
    let p = match axis {
        Axis::X => boid.position.x,
        Axis::Y => boid.position.y,
        Axis::Z => boid.position.z,
    };
    if p > high || p < low {
        let edge = if p > high {
            high
        } else {
            low
        };
        let position = match axis {
            Axis::X => Vector { x: edge, ..boid.position },
            Axis::Y => Vector { y: edge, ..boid.position },
            Axis::Z => Vector { z: edge, ..boid.position },
        };
        Boid { position, velocity: bounced(boid.velocity, axis, slope).as_vector(), ..boid }
    } else {
        boid
    }
}

/// The agent after the boundary was enforced in the given mode. `slopes` are
/// the random turns of the bounce mode, one for each axis; the other modes
/// do not read them.
pub open spec fn confined(
    boid: Boid,
    bounds: Bounds,
    mode: BoundaryMode,
    steer: SteerSettings,
    slopes: Slopes,
) -> Boid {
    match mode {
        BoundaryMode::Wrap => Boid { position: wrapped(boid.position, bounds), ..boid },
        BoundaryMode::SoftSteer => Boid {
            velocity: steered(boid.position, boid.velocity, bounds, steer).as_vector(),
            ..boid
        },
        BoundaryMode::Bounce => bounced_along(
            bounced_along(
                bounced_along(boid, Axis::X, bounds.min.x, bounds.max.x, slopes.x),
                Axis::Y,
                bounds.min.y,
                bounds.max.y,
                slopes.y,
            ),
            Axis::Z,
            bounds.min.z,
            bounds.max.z,
            slopes.z,
        ),
    }
}

/// Whether `after` is what enforcing the boundary makes of `before`, for
/// some turns of the bounce mode of at most 45 degrees each.
pub open spec fn is_confined(
    before: Boid,
    after: Boid,
    bounds: Bounds,
    mode: BoundaryMode,
    steer: SteerSettings,
) -> bool {
    exists|slopes: Slopes|
        slopes.well_formed() && after == #[trigger] confined(before, bounds, mode, steer, slopes)
}

/// Wraps one coordinate.
fn wrap_coordinate(p: i32, low: i32, high: i32) -> (w: i32)
    ensures
        w == wrapped_coordinate(p, low, high),
{
    if low < high {
        let width: i64 = high as i64 - low as i64;
        if p > high {
            let over: i64 = (p as i64 - high as i64) % width;
            (low as i64 + over) as i32
        } else if p < low {
            let under: i64 = (low as i64 - p as i64) % width;
            (high as i64 - under) as i32
        } else {
            p
        }
    } else if p > high {
        low
    } else if p < low {
        high
    } else {
        p
    }
}

/// Steers one component of the velocity.
fn steer_component(p: i32, v: i32, low: i32, high: i32, steer: &SteerSettings) -> (s: i32)
    ensures
        s == steered_component(p, v, low, high, *steer),
{
    let mut wide: i128 = v as i128;
    if p as i128 > high as i128 - steer.margin as i128 {
        wide = wide - steer.turn_factor as i128;
    }
    if (p as i128) < low as i128 + steer.margin as i128 {
        wide = wide + steer.turn_factor as i128;
    }
    saturate(wide)
}

/// Turning a vector that is not zero does not make it zero.
proof fn lemma_turned_is_not_zero(v: MathVector, slope: int)
    requires
        !v.is_zero(),
    ensures
        !turned(v, slope).is_zero(),
{
    let t = SLOPE_LIMIT as int;
    let u = turned(v, slope);
    if u.is_zero() {
        assert(v.z == 0) by (nonlinear_arith)
            requires
                v.z * t == 0,
                t == 1024,
        ;
        assert(v.x * (v.x * t - v.y * slope) + v.y * (v.x * slope + v.y * t) == t * (v.x * v.x + v.y
            * v.y)) by (nonlinear_arith);
        assert(v.x * 0 + v.y * 0 == 0);
        lemma_norm_squared(v);
        assert(v.x * v.x + v.y * v.y == 0) by (nonlinear_arith)
            requires
                t * (v.x * v.x + v.y * v.y) == 0,
                t == 1024,
        ;
        crate::vector::lemma_square_nonnegative(v.x);
        crate::vector::lemma_square_nonnegative(v.y);
    }
}

/// The velocity after a bounce off a wall across `axis`, with the turn
/// given.
pub fn bounce(velocity: Vector, axis: Axis, slope: i32) -> (v: Vector)
    requires
        -SLOPE_LIMIT <= slope <= SLOPE_LIMIT,
    ensures
        v@ == bounced(velocity, axis, slope),
{
    let mut rx: i64 = velocity.x as i64;
    let mut ry: i64 = velocity.y as i64;
    let mut rz: i64 = velocity.z as i64;
    match axis {
        Axis::X => {
            rx = -rx;
        },
        Axis::Y => {
            ry = -ry;
        },
        Axis::Z => {
            rz = -rz;
        },
    }
    let ghost mirrored = MathVector { x: rx as int, y: ry as int, z: rz as int };
    assert(mirrored == reflected(velocity@, axis));
    if rx == 0 && ry == 0 && rz == 0 {
        return Vector::zero();
    }
    let squared: u128 = velocity.length_squared();
    assert(squared == mirrored.norm_squared()) by {
        assert((-velocity.x) * (-velocity.x) == velocity.x * velocity.x) by (nonlinear_arith);
        assert((-velocity.y) * (-velocity.y) == velocity.y * velocity.y) by (nonlinear_arith);
        assert((-velocity.z) * (-velocity.z) == velocity.z * velocity.z) by (nonlinear_arith);
    }
    let length: u64 = crate::arith::integer_sqrt(squared);
    let speed: i32 = saturate(length as i128);
    let t: i64 = SLOPE_LIMIT as i64;
    let s: i64 = slope as i64;
    proof {
        lemma_product_bound(rx as int, t as int, 0x8000_0000, 1024);
        lemma_product_bound(ry as int, t as int, 0x8000_0000, 1024);
        lemma_product_bound(rz as int, t as int, 0x8000_0000, 1024);
        lemma_product_bound(rx as int, s as int, 0x8000_0000, 1024);
        lemma_product_bound(ry as int, s as int, 0x8000_0000, 1024);
        lemma_turned_is_not_zero(mirrored, slope as int);
    }
    let ux: i64 = rx * t - ry * s;
    let uy: i64 = rx * s + ry * t;
    let uz: i64 = rz * t;
    assert(turned(mirrored, slope as int) == (MathVector { x: ux as int, y: uy as int, z: uz as int }));
    rescale(ux, uy, uz, speed)
}

/// Bounces an agent along one axis, with the turn given.
fn bounce_along(boid: &mut Boid, axis: Axis, low: i32, high: i32, slope: i32)
    requires
        -SLOPE_LIMIT <= slope <= SLOPE_LIMIT,
    ensures
        *final(boid) == bounced_along(*old(boid), axis, low, high, slope),
{
    let p = match axis {
        Axis::X => boid.position.x,
        Axis::Y => boid.position.y,
        Axis::Z => boid.position.z,
    };
    if p > high || p < low {
        let edge = if p > high {
            high
        } else {
            low
        };
        match axis {
            Axis::X => {
                boid.position.x = edge;
            },
            Axis::Y => {
                boid.position.y = edge;
            },
            Axis::Z => {
                boid.position.z = edge;
            },
        }
        let velocity = bounce(boid.velocity, axis, slope);
        proof {
            lemma_as_vector(velocity, MathVector::zero());
        }
        boid.velocity = velocity;
    }
}

/// Enforces the boundary on an agent, with the random turns of the bounce
/// mode given.
pub fn confine_with(
    boid: &mut Boid,
    bounds: &Bounds,
    mode: BoundaryMode,
    steer: &SteerSettings,
    slopes: Slopes,
)
    requires
        slopes.well_formed(),
    ensures
        *final(boid) == confined(*old(boid), *bounds, mode, *steer, slopes),
{
    match mode {
        BoundaryMode::Wrap => {
            boid.position = Vector {
                x: wrap_coordinate(boid.position.x, bounds.min.x, bounds.max.x),
                y: wrap_coordinate(boid.position.y, bounds.min.y, bounds.max.y),
                z: wrap_coordinate(boid.position.z, bounds.min.z, bounds.max.z),
            };
        },
        BoundaryMode::SoftSteer => {
            let velocity = Vector {
                x: steer_component(boid.position.x, boid.velocity.x, bounds.min.x, bounds.max.x, steer),
                y: steer_component(boid.position.y, boid.velocity.y, bounds.min.y, bounds.max.y, steer),
                z: steer_component(boid.position.z, boid.velocity.z, bounds.min.z, bounds.max.z, steer),
            };
            proof {
                lemma_as_vector(velocity, MathVector::zero());
            }
            boid.velocity = velocity;
        },
        BoundaryMode::Bounce => {
            bounce_along(boid, Axis::X, bounds.min.x, bounds.max.x, slopes.x);
            bounce_along(boid, Axis::Y, bounds.min.y, bounds.max.y, slopes.y);
            bounce_along(boid, Axis::Z, bounds.min.z, bounds.max.z, slopes.z);
        },
    }
}

/// Draws the random turns of a bounce: each at most 45 degrees either way.
pub fn draw_slopes() -> (slopes: Slopes)
    ensures
        slopes.well_formed(),
{
    Slopes {
        x: random_between(-SLOPE_LIMIT, SLOPE_LIMIT),
        y: random_between(-SLOPE_LIMIT, SLOPE_LIMIT),
        z: random_between(-SLOPE_LIMIT, SLOPE_LIMIT),
    }
}

/// Bounces a velocity off a wall across `axis`, with a random turn of at
/// most 45 degrees either way.
pub fn rebond(velocity: &mut Vector, axis: Axis)
    ensures
        exists|slope: i32|
            -SLOPE_LIMIT <= slope <= SLOPE_LIMIT && final(velocity)@ == #[trigger] bounced(
                *old(velocity),
                axis,
                slope,
            ),
{
    let slope = random_between(-SLOPE_LIMIT, SLOPE_LIMIT);
    let ghost before = *velocity;
    *velocity = bounce(*velocity, axis, slope);
    assert(velocity@ == bounced(before, axis, slope));
}

/// Enforces the boundary on an agent. The wrap and soft modes are decided by
/// the agent and the bounds alone; the bounce mode draws its turns.
pub fn confine(boid: &mut Boid, bounds: &Bounds, mode: BoundaryMode, steer: &SteerSettings)
    ensures
        is_confined(*old(boid), *final(boid), *bounds, mode, *steer),
        mode != BoundaryMode::Bounce ==> *final(boid) == confined(
            *old(boid),
            *bounds,
            mode,
            *steer,
            Slopes { x: 0, y: 0, z: 0 },
        ),
{
    let slopes = match mode {
        BoundaryMode::Bounce => draw_slopes(),
        _ => Slopes { x: 0, y: 0, z: 0 },
    };
    let ghost before = *boid;
    confine_with(boid, bounds, mode, steer, slopes);
    assert(*boid == confined(before, *bounds, mode, *steer, slopes));
}

/// The random turn of a bounce is at most 45 degrees: the turned vector is
/// within 45 degrees of the one that was turned.
pub proof fn lemma_turn_within_45_degrees(v: MathVector, slope: int)
    requires
        -SLOPE_LIMIT <= slope <= SLOPE_LIMIT,
    ensures
        within_45_degrees(v, turned(v, slope)),
{
    let t = SLOPE_LIMIT as int;
    let u = turned(v, slope);
    let flat = v.x * v.x + v.y * v.y;
    let up = v.z * v.z;
    let n = v.norm_squared();
    crate::vector::lemma_square_nonnegative(v.x);
    crate::vector::lemma_square_nonnegative(v.y);
    crate::vector::lemma_square_nonnegative(v.z);
    assert(v.x * (v.x * t - v.y * slope) + v.y * (v.x * slope + v.y * t) == t * flat)
        by (nonlinear_arith)
        requires
            flat == v.x * v.x + v.y * v.y,
    ;
    assert(v.z * (v.z * t) == t * up) by (nonlinear_arith)
        requires
            up == v.z * v.z,
    ;
    assert(v.dot(u) == t * n) by (nonlinear_arith)
        requires
            v.dot(u) == t * flat + t * up,
            n == flat + up,
    ;
    let (p, q, r, w) = (v.x * t, v.y * slope, v.x * slope, v.y * t);
    assert(p * q == r * w) by (nonlinear_arith)
        requires
            p == v.x * t,
            q == v.y * slope,
            r == v.x * slope,
            w == v.y * t,
    ;
    assert((p - q) * (p - q) + (r + w) * (r + w) == p * p + q * q + r * r + w * w)
        by (nonlinear_arith)
        requires
            p * q == r * w,
    ;
    lemma_square_of_product(v.x, t);
    lemma_square_of_product(v.y, slope);
    lemma_square_of_product(v.x, slope);
    lemma_square_of_product(v.y, t);
    assert((t * t) * (v.x * v.x) + (slope * slope) * (v.y * v.y) + (slope * slope) * (v.x * v.x) + (t
        * t) * (v.y * v.y) == (t * t + slope * slope) * flat) by (nonlinear_arith)
        requires
            flat == v.x * v.x + v.y * v.y,
    ;
    assert((v.z * t) * (v.z * t) == (t * t) * up) by (nonlinear_arith)
        requires
            up == v.z * v.z,
    ;
    let uu = u.norm_squared();
    assert(uu == (t * t + slope * slope) * flat + (t * t) * up);
    assert(slope * slope <= t * t) by (nonlinear_arith)
        requires
            -t <= slope <= t,
    ;
    assert(uu <= 2 * (t * t) * n) by (nonlinear_arith)
        requires
            uu == (t * t + slope * slope) * flat + (t * t) * up,
            slope * slope <= t * t,
            n == flat + up,
            flat >= 0,
            up >= 0,
    ;
    assert(t * n >= 0) by (nonlinear_arith)
        requires
            t == 1024,
            n >= 0,
    ;
    assert(2 * ((t * n) * (t * n)) >= n * uu) by (nonlinear_arith)
        requires
            uu <= 2 * (t * t) * n,
            n >= 0,
    ;
}

/// Wrapping brings every agent into the world, and leaves alone those that
/// are in it.
pub proof fn lemma_wrapped_is_inside(position: Vector, bounds: Bounds)
    requires
        bounds.well_formed(),
    ensures
        bounds.contains(wrapped(position, bounds)),
        bounds.contains(position) ==> wrapped(position, bounds) == position,
{
    lemma_wrapped_coordinate(position.x, bounds.min.x, bounds.max.x);
    lemma_wrapped_coordinate(position.y, bounds.min.y, bounds.max.y);
    lemma_wrapped_coordinate(position.z, bounds.min.z, bounds.max.z);
}

/// A wrapped coordinate lies between the edges. One that went out beyond an
/// edge by less than the world is wide comes in at the other edge by as
/// much.
pub proof fn lemma_wrapped_coordinate(p: i32, low: i32, high: i32)
    requires
        low <= high,
    ensures
        low <= wrapped_coordinate(p, low, high) <= high,
        high < p < high + (high - low) ==> wrapped_coordinate(p, low, high) == low + (p - high),
        low - (high - low) < p < low ==> wrapped_coordinate(p, low, high) == high - (low - p),
{
    if low < high {
        let width = high - low;
        if p > high {
            let over = p - high;
            assert(0 <= over % width < width && (over < width ==> over % width == over))
                by (nonlinear_arith)
                requires
                    over > 0,
                    width > 0,
            ;
        } else if p < low {
            let under = low - p;
            assert(0 <= under % width < width && (under < width ==> under % width == under))
                by (nonlinear_arith)
                requires
                    under > 0,
                    width > 0,
            ;
        }
    }
}

impl Bounds {
    /// Whether the world is the plane `z == 0`.
    pub open spec fn is_flat(self) -> bool {
        self.min.z == 0 && self.max.z == 0
    }
}

/// A bounce keeps a planar velocity planar.
proof fn lemma_planar_bounce(velocity: Vector, axis: Axis, slope: i32)
    requires
        velocity.z == 0,
        axis != Axis::Z,
    ensures
        bounced(velocity, axis, slope).z == 0,
{
    let mirrored = reflected(velocity@, axis);
    if !mirrored.is_zero() {
        lemma_turned_is_not_zero(mirrored, slope as int);
        assert(mirrored.z * SLOPE_LIMIT == 0) by (nonlinear_arith)
            requires
                mirrored.z == 0,
        ;
        crate::vector::lemma_planar_rescaled(
            turned(mirrored, slope as int),
            clamp_component(floor_sqrt(mirrored.norm_squared())),
        );
    }
}

/// In a flat world the boundary keeps a planar agent planar, in every mode.
pub proof fn lemma_planar_boundary(
    boid: Boid,
    bounds: Bounds,
    mode: BoundaryMode,
    steer: SteerSettings,
    slopes: Slopes,
)
    requires
        boid.is_planar(),
        bounds.is_flat(),
    ensures
        confined(boid, bounds, mode, steer, slopes).is_planar(),
{
    match mode {
        BoundaryMode::Bounce => {
            lemma_planar_bounce(boid.velocity, Axis::X, slopes.x);
            let first = bounced_along(boid, Axis::X, bounds.min.x, bounds.max.x, slopes.x);
            assert(first.is_planar());
            lemma_planar_bounce(first.velocity, Axis::Y, slopes.y);
            let second = bounced_along(first, Axis::Y, bounds.min.y, bounds.max.y, slopes.y);
            assert(second.is_planar());
        },
        _ => {},
    }
}

} // verus!
