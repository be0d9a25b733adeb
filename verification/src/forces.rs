//! The steering rules. Each is a function from what an agent knows to a
//! force: cohesion, alignment, separation, attraction to a target, and
//! repulsion from obstacles and threats. No force is limited here beyond the
//! component range; speed is limited when the agent is moved.

use vstd::prelude::*;
use crate::arith::{clamp_component, div_toward_zero, floor_sqrt, trunc_div};
use crate::arith::{lemma_trunc_div_bounds, lemma_trunc_div_monotone, lemma_trunc_div_multiple};
use crate::boid::{planar_neighbors, planar_obstacles, Boid, Neighbor, Obstacle};
use crate::vector::{MathVector, Vector, UNIT};
use crate::vector::{lemma_norm_squared, lemma_product_bound};

verus! {

/// What of a neighbour a rule averages: where it is, or how it moves.
#[derive(Clone, Copy, Debug, PartialEq, Eq, Structural)]
pub enum Quantity {
    Position,
    Velocity,
}

/// The position or the velocity of a neighbour.
pub open spec fn trait_of(n: Neighbor, which: Quantity) -> Vector {
    match which {
        Quantity::Position => n.position,
        Quantity::Velocity => n.velocity,
    }
}

/// Sum of the positions, or of the velocities, of the neighbours.
pub open spec fn sum_of(neighbors: Seq<Neighbor>, which: Quantity) -> MathVector
    decreases neighbors.len(),
{
    if neighbors.len() == 0 {
        MathVector::zero()
    } else {
        sum_of(neighbors.drop_last(), which).plus(trait_of(neighbors.last(), which)@)
    }
}

/// A vector times a coefficient. Coefficients are held in parts of
/// `1 / UNIT`, so that `UNIT` stands for a factor of one and `UNIT / 2` for
/// a half; the product is rounded toward zero.
pub open spec fn factored(m: MathVector, coeff: i32) -> MathVector {
    m.scaled(coeff as int).quotient(UNIT as int)
}

/// The pull from `own` toward the mean of the neighbours' positions or
/// velocities, times `coeff`; zero when there is no neighbour.
pub open spec fn pull_to_mean(own: Vector, neighbors: Seq<Neighbor>, which: Quantity, coeff: i32) -> MathVector {
    if neighbors.len() == 0 {
        MathVector::zero()
    } else {
        factored(
            sum_of(neighbors, which).quotient(neighbors.len() as int).minus(own@),
            coeff,
        ).saturated()
    }
}

/// Cohesion: the mean position of the neighbours, less the agent's own
/// position, times the coefficient (in parts of `1 / UNIT`). Zero when there
/// is no neighbour.
pub open spec fn cohesion_force(position: Vector, neighbors: Seq<Neighbor>, coeff: i32) -> MathVector {
    pull_to_mean(position, neighbors, Quantity::Position, coeff)
}

/// Alignment: the mean velocity of the neighbours, less the agent's own
/// velocity, times the coefficient (in parts of `1 / UNIT`). Zero when there
/// is no neighbour.
pub open spec fn alignment_force(velocity: Vector, neighbors: Seq<Neighbor>, coeff: i32) -> MathVector {
    pull_to_mean(velocity, neighbors, Quantity::Velocity, coeff)
}

/// The push that one neighbour gives: the offset from it to the agent. When
/// the distance, rounded down, is below `min_distance`, the offset is
/// weighted by `collision_coeff * (min_distance - distance) / min_distance`,
/// the coefficient being in parts of `1 / UNIT`.
pub open spec fn separation_push(
    position: Vector,
    other: Vector,
    min_distance: i32,
    collision_coeff: i32,
) -> MathVector {
    let delta = position@.minus(other@);
    let distance = floor_sqrt(delta.norm_squared());
    if distance < min_distance {
        delta.scaled(collision_coeff * (min_distance - distance)).quotient(
            min_distance * UNIT,
        ).saturated()
    } else {
        delta.saturated()
    }
}

/// Sum of the pushes of the neighbours.
pub open spec fn sum_of_pushes(
    position: Vector,
    neighbors: Seq<Neighbor>,
    min_distance: i32,
    collision_coeff: i32,
) -> MathVector
    decreases neighbors.len(),
{
    if neighbors.len() == 0 {
        MathVector::zero()
    } else {
        sum_of_pushes(position, neighbors.drop_last(), min_distance, collision_coeff).plus(
            separation_push(position, neighbors.last().position, min_distance, collision_coeff),
        )
    }
}

/// Separation: the sum of the pushes of the neighbours, times the
/// coefficient (in parts of `1 / UNIT`).
pub open spec fn separation_force(
    position: Vector,
    neighbors: Seq<Neighbor>,
    separation_coeff: i32,
    min_distance: i32,
    collision_coeff: i32,
) -> MathVector {
    factored(
        sum_of_pushes(position, neighbors, min_distance, collision_coeff),
        separation_coeff,
    ).saturated()
}

/// Attraction: the offset to the target, times the coefficient (in parts
/// of `1 / UNIT`).
pub open spec fn attraction_force(position: Vector, target: Vector, coeff: i32) -> MathVector {
    factored(target@.minus(position@), coeff).saturated()
}

/// How an agent reacts to obstacles and threats. Lengths are in sub-units.
#[derive(Clone, Copy, Debug, PartialEq, Eq, Structural)]
pub struct AvoidanceSettings {
    /// Distance from the surface below which an obstacle is avoided.
    pub range: i32,
    /// Strength of the force at the surface.
    pub force_coeff: i32,
    /// Strength of the immediate change of velocity at the surface.
    pub turn_factor: i32,
}

/// The repulsion from one obstacle, of the given strength at its surface:
/// along the offset from the obstacle's centre, made a unit vector by the
/// centre distance rounded down, times `strength * (range - distance) /
/// range`, where `distance` is measured from the surface. Zero when the
/// surface is `range` or more away, and zero at the centre itself, where no
/// direction leads away.
pub open spec fn repulsion(position: Vector, obstacle: Obstacle, range: i32, strength: i32) -> MathVector {
    let delta = position@.minus(obstacle.position@);
    let length = floor_sqrt(delta.norm_squared());
    let distance = length - obstacle.radius;
    if range > 0 && length > 0 && distance < range {
        delta.scaled(strength * (range - distance)).quotient(length * range).saturated()
    } else {
        MathVector::zero()
    }
}

/// Sum of the repulsions from the obstacles.
pub open spec fn sum_of_repulsions(
    position: Vector,
    obstacles: Seq<Obstacle>,
    range: i32,
    strength: i32,
) -> MathVector
    decreases obstacles.len(),
{
    if obstacles.len() == 0 {
        MathVector::zero()
    } else {
        sum_of_repulsions(position, obstacles.drop_last(), range, strength).plus(
            repulsion(position, obstacles.last(), range, strength),
        )
    }
}

/// The force with which the obstacles drive an agent away.
pub open spec fn avoidance_force(position: Vector, obstacles: Seq<Obstacle>, settings: AvoidanceSettings) -> MathVector {
    sum_of_repulsions(position, obstacles, settings.range, settings.force_coeff).saturated()
}

/// The velocity of an agent after the obstacles have turned it.
pub open spec fn turned_velocity(
    position: Vector,
    velocity: Vector,
    obstacles: Seq<Obstacle>,
    settings: AvoidanceSettings,
) -> MathVector {
    velocity@.plus(
        sum_of_repulsions(position, obstacles, settings.range, settings.turn_factor),
    ).saturated()
}

/// The agent after the obstacles have turned it: only its velocity changes.
pub open spec fn cleared(boid: Boid, obstacles: Seq<Obstacle>, settings: AvoidanceSettings) -> Boid {
    Boid {
        velocity: turned_velocity(boid.position, boid.velocity, obstacles, settings).as_vector(),
        ..boid
    }
}

/// The mean of values in the `i32` range is in the `i32` range.
proof fn lemma_mean_fits(sum: int, n: int)
    requires
        n > 0,
        -(n * 0x8000_0000) <= sum <= n * 0x8000_0000,
    ensures
        -0x8000_0000 <= trunc_div(sum, n) <= 0x8000_0000,
{
    lemma_trunc_div_monotone(sum, 0x8000_0000 * n, n);
    lemma_trunc_div_monotone(-0x8000_0000 * n, sum, n);
    lemma_trunc_div_multiple(0x8000_0000, n);
    lemma_trunc_div_multiple(-0x8000_0000, n);
    assert(n * 0x8000_0000 == 0x8000_0000 * n);
    assert(-(n * 0x8000_0000) == -0x8000_0000 * n);
}

/// Largest magnitude of a component handed to [`times_factor`].
const FACTOR_REACH: i128 = 0x8000_0000_0000_0000_0000_0000;

/// A wide vector times a coefficient, clamped.
fn times_factor(x: i128, y: i128, z: i128, coeff: i32) -> (v: Vector)
    requires
        -FACTOR_REACH <= x <= FACTOR_REACH,
        -FACTOR_REACH <= y <= FACTOR_REACH,
        -FACTOR_REACH <= z <= FACTOR_REACH,
    ensures
        v@ == factored(MathVector { x: x as int, y: y as int, z: z as int }, coeff).saturated(),
{
    proof {
        lemma_product_bound(x as int, coeff as int, 0x8000_0000_0000_0000_0000_0000, 0x8000_0000);
        lemma_product_bound(y as int, coeff as int, 0x8000_0000_0000_0000_0000_0000, 0x8000_0000);
        lemma_product_bound(z as int, coeff as int, 0x8000_0000_0000_0000_0000_0000, 0x8000_0000);
    }
    let k: i128 = coeff as i128;
    let unit: i128 = UNIT as i128;
    Vector::from_wide(
        div_toward_zero(x * k, unit),
        div_toward_zero(y * k, unit),
        div_toward_zero(z * k, unit),
    )
}

/// The pull from `own` toward the mean of the neighbours' positions or
/// velocities.
fn pull(own: Vector, neighbors: &Vec<Neighbor>, which: Quantity, coeff: i32) -> (force: Vector)
    ensures
        force@ == pull_to_mean(own, neighbors@, which, coeff),
{
    let n: usize = neighbors.len();
    if n == 0 {
        return Vector::zero();
    }
    let mut sx: i128 = 0;
    let mut sy: i128 = 0;
    let mut sz: i128 = 0;
    let mut i: usize = 0;
    proof {
        assert(neighbors@.take(0) =~= Seq::<Neighbor>::empty());
    }
    while i < n
        invariant
            i <= n,
            n == neighbors.len(),
            sum_of(neighbors@.take(i as int), which) == (MathVector {
                x: sx as int,
                y: sy as int,
                z: sz as int,
            }),
            -(i * 0x8000_0000) <= sx <= i * 0x8000_0000,
            -(i * 0x8000_0000) <= sy <= i * 0x8000_0000,
            -(i * 0x8000_0000) <= sz <= i * 0x8000_0000,
        decreases n - i,
    {
        let neighbor = neighbors[i];
        let value = match which {
            Quantity::Position => neighbor.position,
            Quantity::Velocity => neighbor.velocity,
        };
        proof {
            assert(neighbors@.take(i + 1).drop_last() =~= neighbors@.take(i as int));
            assert(neighbors@.take(i + 1).last() == neighbor);
        }
        sx = sx + value.x as i128;
        sy = sy + value.y as i128;
        sz = sz + value.z as i128;
        i += 1;
    }
    proof {
        assert(neighbors@.take(n as int) =~= neighbors@);
        lemma_mean_fits(sx as int, n as int);
        lemma_mean_fits(sy as int, n as int);
        lemma_mean_fits(sz as int, n as int);
    }
    let count: i128 = n as i128;
    let mx: i128 = div_toward_zero(sx, count) - own.x as i128;
    let my: i128 = div_toward_zero(sy, count) - own.y as i128;
    let mz: i128 = div_toward_zero(sz, count) - own.z as i128;
    times_factor(mx, my, mz, coeff)
}

/// Cohesion force on an agent at `position`. With no neighbour it is
/// exactly zero.
pub fn cohesion(position: Vector, cohesion_neighbors: &Vec<Neighbor>, cohesion_coeff: i32) -> (force: Vector)
    ensures
        force@ == cohesion_force(position, cohesion_neighbors@, cohesion_coeff),
        cohesion_neighbors@.len() == 0 ==> force@ == MathVector::zero(),
{
    pull(position, cohesion_neighbors, Quantity::Position, cohesion_coeff)
}

/// Alignment force on an agent moving with `velocity`. With no neighbour it
/// is exactly zero.
pub fn alignment(velocity: Vector, alignment_neighbors: &Vec<Neighbor>, alignment_coeff: i32) -> (force: Vector)
    ensures
        force@ == alignment_force(velocity, alignment_neighbors@, alignment_coeff),
        alignment_neighbors@.len() == 0 ==> force@ == MathVector::zero(),
{
    pull(velocity, alignment_neighbors, Quantity::Velocity, alignment_coeff)
}

/// The push that one neighbour gives.
fn push_from(position: Vector, other: Vector, min_distance: i32, collision_coeff: i32) -> (push: Vector)
    ensures
        push@ == separation_push(position, other, min_distance, collision_coeff),
{
    let dx: i128 = position.x as i128 - other.x as i128;
    let dy: i128 = position.y as i128 - other.y as i128;
    let dz: i128 = position.z as i128 - other.z as i128;
    let distance: u64 = position.distance(other);
    if (distance as i128) < min_distance as i128 {
        let gap: i128 = min_distance as i128 - distance as i128;
        proof {
            lemma_product_bound(collision_coeff as int, gap as int, 0x8000_0000, 0x8000_0000);
        }
        let weight: i128 = collision_coeff as i128 * gap;
        proof {
            lemma_product_bound(dx as int, weight as int, 0x1_0000_0000, 0x4000_0000_0000_0000);
            lemma_product_bound(dy as int, weight as int, 0x1_0000_0000, 0x4000_0000_0000_0000);
            lemma_product_bound(dz as int, weight as int, 0x1_0000_0000, 0x4000_0000_0000_0000);
        }
        let divisor: i128 = min_distance as i128 * UNIT as i128;
        Vector::from_wide(
            div_toward_zero(dx * weight, divisor),
            div_toward_zero(dy * weight, divisor),
            div_toward_zero(dz * weight, divisor),
        )
    } else {
        Vector::from_wide(dx, dy, dz)
    }
}

/// Separation force on an agent at `position`.
pub fn separation(
    position: Vector,
    repulsion_neighbors: &Vec<Neighbor>,
    separation_coeff: i32,
    min_distance_between_boids: i32,
    collision_coeff: i32,
) -> (force: Vector)
    ensures
        force@ == separation_force(
            position,
            repulsion_neighbors@,
            separation_coeff,
            min_distance_between_boids,
            collision_coeff,
        ),
{
    let n: usize = repulsion_neighbors.len();
    let mut sx: i128 = 0;
    let mut sy: i128 = 0;
    let mut sz: i128 = 0;
    let mut i: usize = 0;
    proof {
        assert(repulsion_neighbors@.take(0) =~= Seq::<Neighbor>::empty());
    }
    while i < n
        invariant
            i <= n,
            n == repulsion_neighbors.len(),
            sum_of_pushes(
                position,
                repulsion_neighbors@.take(i as int),
                min_distance_between_boids,
                collision_coeff,
            ) == (MathVector { x: sx as int, y: sy as int, z: sz as int }),
            -(i * 0x8000_0000) <= sx <= i * 0x8000_0000,
            -(i * 0x8000_0000) <= sy <= i * 0x8000_0000,
            -(i * 0x8000_0000) <= sz <= i * 0x8000_0000,
        decreases n - i,
    {
        let neighbor = repulsion_neighbors[i];
        let push = push_from(position, neighbor.position, min_distance_between_boids, collision_coeff);
        proof {
            assert(repulsion_neighbors@.take(i + 1).drop_last() =~= repulsion_neighbors@.take(
                i as int,
            ));
            assert(repulsion_neighbors@.take(i + 1).last() == neighbor);
        }
        sx = sx + push.x as i128;
        sy = sy + push.y as i128;
        sz = sz + push.z as i128;
        i += 1;
    }
    proof {
        assert(repulsion_neighbors@.take(n as int) =~= repulsion_neighbors@);
    }
    times_factor(sx, sy, sz, separation_coeff)
}

/// Attraction of an agent at `position` to `target`.
pub fn attraction_to_target(position: Vector, target: Vector, attraction_coeff: i32) -> (force: Vector)
    ensures
        force@ == attraction_force(position, target, attraction_coeff),
{
    let dx: i128 = target.x as i128 - position.x as i128;
    let dy: i128 = target.y as i128 - position.y as i128;
    let dz: i128 = target.z as i128 - position.z as i128;
    times_factor(dx, dy, dz, attraction_coeff)
}

/// The repulsion from one obstacle, of the given strength at its surface.
pub fn repulsion_from(position: Vector, obstacle: &Obstacle, range: i32, strength: i32) -> (push: Vector)
    ensures
        push@ == repulsion(position, *obstacle, range, strength),
{
    let dx: i128 = position.x as i128 - obstacle.position.x as i128;
    let dy: i128 = position.y as i128 - obstacle.position.y as i128;
    let dz: i128 = position.z as i128 - obstacle.position.z as i128;
    let squared: u128 = position.distance_squared(obstacle.position);
    let length: u64 = position.distance(obstacle.position);
    assert(length <= 0x2_0000_0000) by (nonlinear_arith)
        requires
            length * length <= squared,
            squared <= 0x3_0000_0000_0000_0000,
            length >= 0,
    ;
    let distance: i128 = length as i128 - obstacle.radius as i128;
    if range > 0 && length > 0 && distance < range as i128 {
        let gap: i128 = range as i128 - distance;
        proof {
            lemma_product_bound(strength as int, gap as int, 0x8000_0000, 0x1_0000_0000);
            lemma_product_bound(length as int, range as int, 0x2_0000_0000, 0x8000_0000);
            assert(length * range > 0) by (nonlinear_arith)
                requires
                    length > 0,
                    range > 0,
            ;
        }
        let weight: i128 = strength as i128 * gap;
        let divisor: i128 = length as i128 * range as i128;
        proof {
            lemma_product_bound(dx as int, weight as int, 0x1_0000_0000, 0x8000_0000_0000_0000);
            lemma_product_bound(dy as int, weight as int, 0x1_0000_0000, 0x8000_0000_0000_0000);
            lemma_product_bound(dz as int, weight as int, 0x1_0000_0000, 0x8000_0000_0000_0000);
        }
        Vector::from_wide(
            div_toward_zero(dx * weight, divisor),
            div_toward_zero(dy * weight, divisor),
            div_toward_zero(dz * weight, divisor),
        )
    } else {
        Vector::zero()
    }
}

/// Sum of the repulsions from the obstacles, each component as a wide value.
fn repulsions(position: Vector, obstacles: &Vec<Obstacle>, range: i32, strength: i32) -> (sum: (
    i128,
    i128,
    i128,
))
    ensures
        sum_of_repulsions(position, obstacles@, range, strength) == (MathVector {
            x: sum.0 as int,
            y: sum.1 as int,
            z: sum.2 as int,
        }),
        -0x8000_0000_0000_0000_0000_0000 <= sum.0 <= 0x8000_0000_0000_0000_0000_0000,
        -0x8000_0000_0000_0000_0000_0000 <= sum.1 <= 0x8000_0000_0000_0000_0000_0000,
        -0x8000_0000_0000_0000_0000_0000 <= sum.2 <= 0x8000_0000_0000_0000_0000_0000,
{
    let n: usize = obstacles.len();
    let mut sx: i128 = 0;
    let mut sy: i128 = 0;
    let mut sz: i128 = 0;
    let mut i: usize = 0;
    proof {
        assert(obstacles@.take(0) =~= Seq::<Obstacle>::empty());
    }
    while i < n
        invariant
            i <= n,
            n == obstacles.len(),
            sum_of_repulsions(position, obstacles@.take(i as int), range, strength) == (MathVector {
                x: sx as int,
                y: sy as int,
                z: sz as int,
            }),
            -(i * 0x8000_0000) <= sx <= i * 0x8000_0000,
            -(i * 0x8000_0000) <= sy <= i * 0x8000_0000,
            -(i * 0x8000_0000) <= sz <= i * 0x8000_0000,
        decreases n - i,
    {
        let push = repulsion_from(position, &obstacles[i], range, strength);
        proof {
            assert(obstacles@.take(i + 1).drop_last() =~= obstacles@.take(i as int));
            assert(obstacles@.take(i + 1).last() == obstacles@[i as int]);
        }
        sx = sx + push.x as i128;
        sy = sy + push.y as i128;
        sz = sz + push.z as i128;
        i += 1;
    }
    proof {
        assert(obstacles@.take(n as int) =~= obstacles@);
    }
    (sx, sy, sz)
}

/// Makes an agent avoid the obstacles: returns the force that drives it
/// away, and turns its velocity at once by the sum of the repulsions of
/// strength `turn_factor`. Nothing else of the agent changes.
pub fn steer_clear(boid: &mut Boid, obstacles: &Vec<Obstacle>, settings: &AvoidanceSettings) -> (force:
    Vector)
    ensures
        force@ == avoidance_force(old(boid).position, obstacles@, *settings),
        *final(boid) == cleared(*old(boid), obstacles@, *settings),
{
    let pushes = repulsions(boid.position, obstacles, settings.range, settings.force_coeff);
    let turns = repulsions(boid.position, obstacles, settings.range, settings.turn_factor);
    let velocity = Vector::from_wide(
        boid.velocity.x as i128 + turns.0,
        boid.velocity.y as i128 + turns.1,
        boid.velocity.z as i128 + turns.2,
    );
    proof {
        crate::vector::lemma_as_vector(velocity, MathVector::zero());
    }
    boid.velocity = velocity;
    Vector::from_wide(pushes.0, pushes.1, pushes.2)
}

/// The repulsions from a single obstacle sum to the repulsion from it, which
/// is within the component range.
pub proof fn lemma_single_repulsion(position: Vector, obstacle: Obstacle, range: i32, strength: i32)
    ensures
        sum_of_repulsions(position, seq![obstacle], range, strength) == repulsion(
            position,
            obstacle,
            range,
            strength,
        ),
        sum_of_repulsions(position, seq![obstacle], range, strength).saturated() == repulsion(
            position,
            obstacle,
            range,
            strength,
        ),
{
    let one = seq![obstacle];
    assert(one.drop_last() =~= Seq::<Obstacle>::empty());
    assert(one.last() == obstacle);
    assert(sum_of_repulsions(position, one.drop_last(), range, strength) == MathVector::zero());
}

/// The push of a single neighbour is the whole sum of pushes.
pub proof fn lemma_single_push(position: Vector, neighbor: Neighbor, min_distance: i32, collision_coeff: i32)
    ensures
        sum_of_pushes(position, seq![neighbor], min_distance, collision_coeff) == separation_push(
            position,
            neighbor.position,
            min_distance,
            collision_coeff,
        ),
{
    let one = seq![neighbor];
    assert(one.drop_last() =~= Seq::<Neighbor>::empty());
    assert(one.last() == neighbor);
    assert(sum_of_pushes(position, one.drop_last(), min_distance, collision_coeff)
        == MathVector::zero());
}

/// Along a line, the size `cc * (a * (m - a * l))` of the weighted offset
/// does not shrink as the neighbour comes nearer, from `b` steps of length
/// `l` to `a`, while it is no nearer than half of `m`.
proof fn lemma_weighted_offset_monotone(a: int, b: int, l: int, m: int, cc: int)
    requires
        0 < a <= b,
        l > 0,
        b * l < m,
        m <= 2 * (a * l),
        cc >= 0,
    ensures
        cc * (a * (m - a * l)) >= cc * (b * (m - b * l)) >= 0,
{
    let near_size = a * (m - a * l);
    let far_size = b * (m - b * l);
    assert(near_size - far_size == (b - a) * ((a * l + b * l) - m)) by (nonlinear_arith)
        requires
            near_size == a * (m - a * l),
            far_size == b * (m - b * l),
    ;
    assert(a * l <= b * l) by (nonlinear_arith)
        requires
            a <= b,
            l > 0,
    ;
    assert((b - a) * ((a * l + b * l) - m) >= 0) by (nonlinear_arith)
        requires
            b - a >= 0,
            (a * l + b * l) - m >= 0,
    ;
    assert(far_size >= 0) by (nonlinear_arith)
        requires
            far_size == b * (m - b * l),
            b > 0,
            m - b * l > 0,
    ;
    assert(cc * near_size >= cc * far_size >= 0) by (nonlinear_arith)
        requires
            near_size >= far_size >= 0,
            cc >= 0,
    ;
}

/// One component of [`lemma_separation_sharpens`]: `e` is that component of
/// the direction.
proof fn lemma_component_sharpens(e: int, a: int, b: int, l: int, m: int, cc: int, sc: int) -> (f: (
    int,
    int,
))
    requires
        0 < a <= b,
        l > 0,
        b * l < m,
        m <= 2 * (a * l),
        cc >= 0,
        sc >= 0,
    ensures
        f.0 == clamp_component(
            trunc_div(
                clamp_component(trunc_div((e * a) * (cc * (m - a * l)), m * UNIT)) * sc,
                UNIT as int,
            ),
        ),
        f.1 == clamp_component(
            trunc_div(
                clamp_component(trunc_div((e * b) * (cc * (m - b * l)), m * UNIT)) * sc,
                UNIT as int,
            ),
        ),
        f.0 * f.0 >= f.1 * f.1,
{
    let near_weight = cc * (a * (m - a * l));
    let far_weight = cc * (b * (m - b * l));
    lemma_weighted_offset_monotone(a, b, l, m, cc);
    let near_offset = (e * a) * (cc * (m - a * l));
    let far_offset = (e * b) * (cc * (m - b * l));
    assert(near_offset == e * near_weight) by (nonlinear_arith)
        requires
            near_offset == (e * a) * (cc * (m - a * l)),
            near_weight == cc * (a * (m - a * l)),
    ;
    assert(far_offset == e * far_weight) by (nonlinear_arith)
        requires
            far_offset == (e * b) * (cc * (m - b * l)),
            far_weight == cc * (b * (m - b * l)),
    ;
    let whole = m * UNIT;
    let unit = UNIT as int;
    let near_size = clamp_component(trunc_div(near_offset, whole));
    let far_size = clamp_component(trunc_div(far_offset, whole));
    let near_force = clamp_component(trunc_div(near_size * sc, unit));
    let far_force = clamp_component(trunc_div(far_size * sc, unit));
    lemma_trunc_div_bounds(near_offset, whole);
    lemma_trunc_div_bounds(far_offset, whole);
    lemma_trunc_div_bounds(near_size * sc, unit);
    lemma_trunc_div_bounds(far_size * sc, unit);
    if e >= 0 {
        assert(near_offset >= far_offset >= 0) by (nonlinear_arith)
            requires
                near_offset == e * near_weight,
                far_offset == e * far_weight,
                near_weight >= far_weight >= 0,
                e >= 0,
        ;
        lemma_trunc_div_monotone(far_offset, near_offset, whole);
        assert(near_size >= far_size >= 0);
        assert(near_size * sc >= far_size * sc >= 0) by (nonlinear_arith)
            requires
                near_size >= far_size >= 0,
                sc >= 0,
        ;
        lemma_trunc_div_monotone(far_size * sc, near_size * sc, unit);
        assert(near_force * near_force >= far_force * far_force) by (nonlinear_arith)
            requires
                near_force >= far_force >= 0,
        ;
    } else {
        assert(near_offset <= far_offset <= 0) by (nonlinear_arith)
            requires
                near_offset == e * near_weight,
                far_offset == e * far_weight,
                near_weight >= far_weight >= 0,
                e < 0,
        ;
        lemma_trunc_div_monotone(near_offset, far_offset, whole);
        assert(near_size <= far_size <= 0);
        assert(near_size * sc <= far_size * sc <= 0) by (nonlinear_arith)
            requires
                near_size <= far_size <= 0,
                sc >= 0,
        ;
        lemma_trunc_div_monotone(near_size * sc, far_size * sc, unit);
        assert(near_force * near_force >= far_force * far_force) by (nonlinear_arith)
            requires
                near_force <= far_force <= 0,
        ;
    }
    (near_force, far_force)
}

/// `a` steps along a direction of whole length `l` are `a * l` away.
proof fn lemma_whole_distance(direction: MathVector, l: int, a: int)
    requires
        direction.norm_squared() == l * l,
        l > 0,
        a >= 0,
    ensures
        floor_sqrt(direction.scaled(a).norm_squared()) == a * l,
{
    let (x, y, z) = (direction.x, direction.y, direction.z);
    crate::vector::lemma_square_of_product(x, a);
    crate::vector::lemma_square_of_product(y, a);
    crate::vector::lemma_square_of_product(z, a);
    assert((a * a) * (x * x) + (a * a) * (y * y) + (a * a) * (z * z) == (a * a) * (x * x + y * y + z
        * z)) by (nonlinear_arith);
    let d = a * l;
    assert(direction.scaled(a).norm_squared() == d * d) by (nonlinear_arith)
        requires
            direction.scaled(a).norm_squared() == (a * a) * (l * l),
            d == a * l,
    ;
    assert(d >= 0 && d * d < (d + 1) * (d + 1)) by (nonlinear_arith)
        requires
            d == a * l,
            a >= 0,
            l > 0,
    ;
    crate::arith::lemma_floor_sqrt_is(d * d, d);
}

/// Collision avoidance sharpens near contact. Take one neighbour on a line
/// through the agent whose direction has a whole length `l` (a coordinate
/// axis, or a direction such as `(3, 4, 0)`), so that its distance is
/// measured exactly. While the neighbour is nearer than `min_distance` and
/// no nearer than half of it, the separation force is at least as long with
/// the neighbour `a` steps away as with it `b >= a` steps away.
///
/// Nearer than half of `min_distance` the offset itself shrinks faster than
/// its weight grows, so the force wanes again; and where the distance is
/// not a whole number its rounding can reverse the order by a sub-unit.
pub proof fn lemma_separation_sharpens(
    position: Vector,
    near: Neighbor,
    far: Neighbor,
    direction: MathVector,
    l: int,
    a: int,
    b: int,
    separation_coeff: i32,
    min_distance: i32,
    collision_coeff: i32,
)
    requires
        direction.norm_squared() == l * l,
        l > 0,
        position@.minus(near.position@) == direction.scaled(a),
        position@.minus(far.position@) == direction.scaled(b),
        0 < a <= b,
        b * l < min_distance,
        min_distance <= 2 * (a * l),
        collision_coeff >= 0,
        separation_coeff >= 0,
    ensures
        separation_force(
            position,
            seq![near],
            separation_coeff,
            min_distance,
            collision_coeff,
        ).norm_squared() >= separation_force(
            position,
            seq![far],
            separation_coeff,
            min_distance,
            collision_coeff,
        ).norm_squared(),
{
    let m = min_distance as int;
    let cc = collision_coeff as int;
    let sc = separation_coeff as int;
    lemma_single_push(position, near, min_distance, collision_coeff);
    lemma_single_push(position, far, min_distance, collision_coeff);
    lemma_whole_distance(direction, l, a);
    lemma_whole_distance(direction, l, b);
    assert(a * l <= b * l) by (nonlinear_arith)
        requires
            a <= b,
            l > 0,
    ;
    let fx = lemma_component_sharpens(direction.x, a, b, l, m, cc, sc);
    let fy = lemma_component_sharpens(direction.y, a, b, l, m, cc, sc);
    let fz = lemma_component_sharpens(direction.z, a, b, l, m, cc, sc);
    let f1 = separation_force(position, seq![near], separation_coeff, min_distance, collision_coeff);
    let f2 = separation_force(position, seq![far], separation_coeff, min_distance, collision_coeff);
    assert(f1.x == fx.0 && f1.y == fy.0 && f1.z == fz.0);
    assert(f2.x == fx.1 && f2.y == fy.1 && f2.z == fz.1);
}

/// The sum of planar positions or velocities is planar.
proof fn lemma_planar_sum(neighbors: Seq<Neighbor>, which: Quantity)
    requires
        planar_neighbors(neighbors),
    ensures
        sum_of(neighbors, which).z == 0,
    decreases neighbors.len(),
{
    if neighbors.len() > 0 {
        let rest = neighbors.drop_last();
        assert forall|i: int| 0 <= i < rest.len() implies (#[trigger] rest[i]).position.z == 0
            && rest[i].velocity.z == 0 by {
            assert(rest[i] == neighbors[i]);
        }
        lemma_planar_sum(rest, which);
        assert(neighbors.last() == neighbors[neighbors.len() - 1]);
    }
}

/// The sum of the pushes of planar neighbours on a planar agent is planar.
proof fn lemma_planar_pushes(position: Vector, neighbors: Seq<Neighbor>, min_distance: i32, collision_coeff: i32)
    requires
        position.z == 0,
        planar_neighbors(neighbors),
    ensures
        sum_of_pushes(position, neighbors, min_distance, collision_coeff).z == 0,
    decreases neighbors.len(),
{
    if neighbors.len() > 0 {
        let rest = neighbors.drop_last();
        assert forall|i: int| 0 <= i < rest.len() implies (#[trigger] rest[i]).position.z == 0
            && rest[i].velocity.z == 0 by {
            assert(rest[i] == neighbors[i]);
        }
        lemma_planar_pushes(position, rest, min_distance, collision_coeff);
        let other = neighbors.last().position;
        assert(neighbors.last() == neighbors[neighbors.len() - 1]);
        let delta = position@.minus(other@);
        let distance = floor_sqrt(delta.norm_squared());
        if distance < min_distance {
            lemma_norm_squared(delta);
            crate::arith::lemma_floor_sqrt_exists(delta.norm_squared());
            assert(delta.z * (collision_coeff * (min_distance - distance)) == 0) by (nonlinear_arith)
                requires
                    delta.z == 0,
            ;
            lemma_trunc_div_bounds(0, min_distance as int);
        }
    }
}

/// The sum of the repulsions of planar obstacles on a planar agent is
/// planar.
proof fn lemma_planar_repulsions(position: Vector, obstacles: Seq<Obstacle>, range: i32, strength: i32)
    requires
        position.z == 0,
        planar_obstacles(obstacles),
    ensures
        sum_of_repulsions(position, obstacles, range, strength).z == 0,
    decreases obstacles.len(),
{
    if obstacles.len() > 0 {
        let rest = obstacles.drop_last();
        assert forall|i: int| 0 <= i < rest.len() implies (#[trigger] rest[i]).position.z == 0 by {
            assert(rest[i] == obstacles[i]);
        }
        lemma_planar_repulsions(position, rest, range, strength);
        let obstacle = obstacles.last();
        assert(obstacle == obstacles[obstacles.len() - 1]);
        let delta = position@.minus(obstacle.position@);
        let length = floor_sqrt(delta.norm_squared());
        let distance = length - obstacle.radius;
        if range > 0 && length > 0 && distance < range {
            assert(delta.z * (strength * (range - distance)) == 0) by (nonlinear_arith)
                requires
                    delta.z == 0,
            ;
            assert(length * range > 0) by (nonlinear_arith)
                requires
                    length > 0,
                    range > 0,
            ;
            lemma_trunc_div_bounds(0, length * range);
        }
    }
}

/// In the plane the rules give planar forces: cohesion, alignment and
/// separation from planar neighbours, and attraction to a target in the
/// plane, have no component along z.
pub proof fn lemma_planar_rules(
    me: Boid,
    neighbors: Seq<Neighbor>,
    target: Vector,
    coeff: i32,
    min_distance: i32,
    collision_coeff: i32,
)
    requires
        me.is_planar(),
        planar_neighbors(neighbors),
        target.z == 0,
    ensures
        cohesion_force(me.position, neighbors, coeff).z == 0,
        alignment_force(me.velocity, neighbors, coeff).z == 0,
        separation_force(me.position, neighbors, coeff, min_distance, collision_coeff).z == 0,
        attraction_force(me.position, target, coeff).z == 0,
{
    lemma_planar_sum(neighbors, Quantity::Position);
    lemma_planar_sum(neighbors, Quantity::Velocity);
    lemma_planar_pushes(me.position, neighbors, min_distance, collision_coeff);
    if neighbors.len() > 0 {
        lemma_trunc_div_bounds(0, neighbors.len() as int);
    }
    assert(0 * (coeff as int) == 0) by (nonlinear_arith);
}

/// In the plane obstacles act in the plane: the force has no component
/// along z, and an agent that moves in the plane still does after it was
/// turned.
pub proof fn lemma_planar_avoidance(boid: Boid, obstacles: Seq<Obstacle>, settings: AvoidanceSettings)
    requires
        boid.is_planar(),
        planar_obstacles(obstacles),
    ensures
        avoidance_force(boid.position, obstacles, settings).z == 0,
        cleared(boid, obstacles, settings).is_planar(),
{
    lemma_planar_repulsions(boid.position, obstacles, settings.range, settings.force_coeff);
    lemma_planar_repulsions(boid.position, obstacles, settings.range, settings.turn_factor);
}

} // verus!
