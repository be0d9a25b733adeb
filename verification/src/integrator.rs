//! Moving an agent through one tick: the acceleration changes the velocity,
//! the speed is brought back between its floor and its ceiling, the velocity
//! changes the position, and the acceleration is cleared.

use vstd::prelude::*;
use crate::arith::{div_toward_zero, lemma_trunc_div_bounds};
use crate::boid::Boid;
use crate::settings::BoidSettings;
use crate::vector::{rescale, rescaled, MathVector, Vector, PRECISION};
use crate::vector::{lemma_as_vector, lemma_norm_squared, lemma_product_bound};
use crate::vector::{lemma_rescaled_length, lemma_rescaled_shortfall};

verus! {

/// Time steps are given in thousandths of the unit in which speeds are.
pub const MILLIS_PER_SECOND: i32 = 1000;

/// What a rate adds up to over `dt_millis`, rounded toward zero.
pub open spec fn step(rate: MathVector, dt_millis: int) -> MathVector {
    rate.scaled(dt_millis).quotient(MILLIS_PER_SECOND as int)
}

/// The direction in which a too slow agent is sped up: that of its velocity;
/// if the agent stands still, that of the velocity it had before the tick;
/// if it stood still then too, the x axis.
pub open spec fn heading(velocity: MathVector, previous: MathVector) -> MathVector {
    if !velocity.is_zero() {
        velocity
    } else if !previous.is_zero() {
        previous
    } else {
        MathVector { x: 1, y: 0, z: 0 }
    }
}

/// Whether a velocity is slower than a positive floor.
pub open spec fn too_slow(velocity: MathVector, min_speed: int) -> bool {
    min_speed > 0 && velocity.norm_squared() < min_speed * min_speed
}

/// Whether a velocity is faster than a ceiling.
pub open spec fn too_fast(velocity: MathVector, max_speed: int) -> bool {
    max_speed >= 0 && velocity.norm_squared() > max_speed * max_speed
}

/// The velocity brought back between the floor and the ceiling: a too slow
/// one is rescaled to the floor, a too fast one to the ceiling.
pub open spec fn limited_speed(velocity: Vector, previous: Vector, min_speed: i32, max_speed: i32) -> MathVector {
    if too_slow(velocity@, min_speed as int) {
        rescaled(heading(velocity@, previous@), min_speed as int)
    } else if too_fast(velocity@, max_speed as int) {
        rescaled(velocity@, max_speed as int)
    } else {
        velocity@
    }
}

/// The agent one tick of `dt_millis` later.
pub open spec fn integrated(boid: Boid, settings: BoidSettings, dt_millis: u32) -> Boid {
    let pushed = boid.velocity@.plus(step(boid.acceleration@, dt_millis as int)).saturated().as_vector();
    let velocity = limited_speed(
        pushed,
        boid.velocity,
        settings.min_speed,
        settings.max_speed,
    ).as_vector();
    let position = boid.position@.plus(step(velocity@, dt_millis as int)).saturated().as_vector();
    Boid { position, velocity, acceleration: Vector { x: 0, y: 0, z: 0 }, ..boid }
}

/// What a rate adds up to over `dt_millis`, each component as a wide value.
fn advance(rate: Vector, dt_millis: u32) -> (d: (i128, i128, i128))
    ensures
        step(rate@, dt_millis as int) == (MathVector { x: d.0 as int, y: d.1 as int, z: d.2 as int }),
        -0x8000_0000_0000_0000 <= d.0 <= 0x8000_0000_0000_0000,
        -0x8000_0000_0000_0000 <= d.1 <= 0x8000_0000_0000_0000,
        -0x8000_0000_0000_0000 <= d.2 <= 0x8000_0000_0000_0000,
{
    let dt: i128 = dt_millis as i128;
    proof {
        lemma_product_bound(rate.x as int, dt as int, 0x8000_0000, 0x1_0000_0000);
        lemma_product_bound(rate.y as int, dt as int, 0x8000_0000, 0x1_0000_0000);
        lemma_product_bound(rate.z as int, dt as int, 0x8000_0000, 0x1_0000_0000);
        lemma_trunc_div_bounds(rate.x * dt, MILLIS_PER_SECOND as int);
        lemma_trunc_div_bounds(rate.y * dt, MILLIS_PER_SECOND as int);
        lemma_trunc_div_bounds(rate.z * dt, MILLIS_PER_SECOND as int);
    }
    let unit: i128 = MILLIS_PER_SECOND as i128;
    (
        div_toward_zero(rate.x as i128 * dt, unit),
        div_toward_zero(rate.y as i128 * dt, unit),
        div_toward_zero(rate.z as i128 * dt, unit),
    )
}

/// Brings a velocity back between the floor and the ceiling.
pub fn limit_speed(velocity: Vector, previous: Vector, min_speed: i32, max_speed: i32) -> (limited: Vector)
    ensures
        limited@ == limited_speed(velocity, previous, min_speed, max_speed),
{
    let squared: u128 = velocity.length_squared();
    if min_speed > 0 {
        let floor: u128 = min_speed as u128;
        assert(floor * floor <= 0x8000_0000 * 0x8000_0000) by (nonlinear_arith)
            requires
                0 <= floor <= 0x8000_0000,
        ;
        if squared < floor * floor {
            let direction = if !velocity.is_zero() {
                velocity
            } else if !previous.is_zero() {
                previous
            } else {
                Vector { x: 1, y: 0, z: 0 }
            };
            assert(direction@ == heading(velocity@, previous@));
            return rescale(direction.x as i64, direction.y as i64, direction.z as i64, min_speed);
        }
    }
    if max_speed >= 0 {
        let ceiling: u128 = max_speed as u128;
        assert(ceiling * ceiling <= 0x8000_0000 * 0x8000_0000) by (nonlinear_arith)
            requires
                0 <= ceiling <= 0x8000_0000,
        ;
        if squared > ceiling * ceiling {
            proof {
                lemma_norm_squared(velocity@);
                assert(ceiling * ceiling >= 0) by (nonlinear_arith);
            }
            return rescale(velocity.x as i64, velocity.y as i64, velocity.z as i64, max_speed);
        }
    }
    velocity
}

/// Moves an agent through one tick of `dt_millis`.
pub fn integrate(boid: &mut Boid, settings: &BoidSettings, dt_millis: u32)
    ensures
        *final(boid) == integrated(*old(boid), *settings, dt_millis),
{
    let gained = advance(boid.acceleration, dt_millis);
    let pushed = Vector::from_wide(
        boid.velocity.x as i128 + gained.0,
        boid.velocity.y as i128 + gained.1,
        boid.velocity.z as i128 + gained.2,
    );
    let velocity = limit_speed(pushed, boid.velocity, settings.min_speed, settings.max_speed);
    let moved = advance(velocity, dt_millis);
    let position = Vector::from_wide(
        boid.position.x as i128 + moved.0,
        boid.position.y as i128 + moved.1,
        boid.position.z as i128 + moved.2,
    );
    proof {
        lemma_as_vector(pushed, boid.velocity@.plus(step(boid.acceleration@, dt_millis as int)));
        lemma_as_vector(velocity, boid.position@.plus(step(velocity@, dt_millis as int)));
        lemma_as_vector(position, MathVector::zero());
    }
    boid.velocity = velocity;
    boid.position = position;
    boid.acceleration = Vector { x: 0, y: 0, z: 0 };
}

/// A tick of no time moves nothing: an agent whose speed is between the
/// floor and the ceiling keeps its position and its velocity.
pub proof fn lemma_zero_time_step(boid: Boid, settings: BoidSettings)
    requires
        !too_slow(boid.velocity@, settings.min_speed as int),
        !too_fast(boid.velocity@, settings.max_speed as int),
    ensures
        integrated(boid, settings, 0).position == boid.position,
        integrated(boid, settings, 0).velocity == boid.velocity,
{
    lemma_zero_step(boid.acceleration@);
    lemma_zero_step(boid.velocity@);
    lemma_as_vector(boid.velocity, MathVector::zero());
    lemma_as_vector(boid.position, MathVector::zero());
    assert(boid.velocity@.plus(MathVector::zero()) == boid.velocity@);
    assert(boid.position@.plus(MathVector::zero()) == boid.position@);
}

/// Over no time nothing adds up.
proof fn lemma_zero_step(rate: MathVector)
    ensures
        step(rate, 0) == MathVector::zero(),
{
    assert(rate.x * 0 == 0 && rate.y * 0 == 0 && rate.z * 0 == 0) by (nonlinear_arith);
    lemma_trunc_div_bounds(0, MILLIS_PER_SECOND as int);
}

/// After a tick no agent is faster than the ceiling, as long as the floor
/// is not above it.
pub proof fn lemma_speed_at_most_ceiling(boid: Boid, settings: BoidSettings, dt_millis: u32)
    requires
        0 <= settings.min_speed <= settings.max_speed,
    ensures
        integrated(boid, settings, dt_millis).velocity@.norm_squared() <= settings.max_speed
            * settings.max_speed,
{
    let pushed = boid.velocity@.plus(step(boid.acceleration@, dt_millis as int)).saturated().as_vector();
    let min = settings.min_speed as int;
    let max = settings.max_speed as int;
    let limited = limited_speed(pushed, boid.velocity, settings.min_speed, settings.max_speed);
    assert(min * min <= max * max) by (nonlinear_arith)
        requires
            0 <= min <= max,
    ;
    if too_slow(pushed@, min) {
        lemma_rescaled_length(heading(pushed@, boid.velocity@), min);
    } else if too_fast(pushed@, max) {
        lemma_norm_squared(pushed@);
        lemma_rescaled_length(pushed@, max);
    }
    lemma_rescaled_fits(limited, max);
    lemma_as_vector(pushed, limited);
}

/// After a tick no agent is slower than the floor by more than rounding
/// allows: its squared speed is at least `min_speed * min_speed` less
/// `2 * min_speed * (min_speed / PRECISION + 3)`, so its speed is within
/// `min_speed / PRECISION + 3` sub-units of the floor. This holds of every
/// acceleration, and of an agent that stands still.
pub proof fn lemma_speed_near_floor(boid: Boid, settings: BoidSettings, dt_millis: u32)
    requires
        0 < settings.min_speed <= settings.max_speed,
    ensures
        PRECISION * integrated(boid, settings, dt_millis).velocity@.norm_squared() >= PRECISION * (
        settings.min_speed * settings.min_speed) - 2 * (settings.min_speed * settings.min_speed) - 6
            * (PRECISION * settings.min_speed),
{
    let pushed = boid.velocity@.plus(step(boid.acceleration@, dt_millis as int)).saturated().as_vector();
    let min = settings.min_speed as int;
    let max = settings.max_speed as int;
    let k = PRECISION as int;
    let limited = limited_speed(pushed, boid.velocity, settings.min_speed, settings.max_speed);
    let t = limited.norm_squared();
    assert(min * min <= max * max) by (nonlinear_arith)
        requires
            0 <= min <= max,
    ;
    lemma_norm_squared(limited);
    if too_slow(pushed@, min) {
        lemma_rescaled_length(heading(pushed@, boid.velocity@), min);
        lemma_rescaled_shortfall(heading(pushed@, boid.velocity@), min);
    } else if too_fast(pushed@, max) {
        lemma_norm_squared(pushed@);
        lemma_rescaled_length(pushed@, max);
        lemma_rescaled_shortfall(pushed@, max);
        assert(k * (max * max) - 2 * (max * max) - 6 * (k * max) >= k * (min * min) - 2 * (min * min)
            - 6 * (k * min) || k * (min * min) - 2 * (min * min) - 6 * (k * min) <= 0)
            by (nonlinear_arith)
            requires
                0 < min <= max,
                k == 65536,
        ;
        assert(k * t >= 0) by (nonlinear_arith)
            requires
                t >= 0,
                k == 65536,
        ;
    } else {
        assert(k * t >= k * (min * min)) by (nonlinear_arith)
            requires
                t >= min * min,
                k == 65536,
        ;
        assert(2 * (min * min) + 6 * (k * min) >= 0) by (nonlinear_arith)
            requires
                min > 0,
                k == 65536,
        ;
    }
    lemma_rescaled_fits(limited, max);
    lemma_as_vector(pushed, limited);
}

/// A vector no longer than an `i32` has components that fit.
pub proof fn lemma_rescaled_fits(m: MathVector, length: int)
    requires
        0 <= length <= i32::MAX,
        m.norm_squared() <= length * length,
    ensures
        m.fits(),
{
    lemma_norm_squared(m);
    assert(-length <= m.x <= length) by (nonlinear_arith)
        requires
            m.x * m.x <= length * length,
            length >= 0,
    ;
    assert(-length <= m.y <= length) by (nonlinear_arith)
        requires
            m.y * m.y <= length * length,
            length >= 0,
    ;
    assert(-length <= m.z <= length) by (nonlinear_arith)
        requires
            m.z * m.z <= length * length,
            length >= 0,
    ;
}

/// A planar agent stays planar as it moves.
pub proof fn lemma_planar_motion(boid: Boid, settings: BoidSettings, dt_millis: u32)
    requires
        boid.is_planar(),
    ensures
        integrated(boid, settings, dt_millis).is_planar(),
{
    let dt = dt_millis as int;
    assert(boid.acceleration@.z * dt == 0) by (nonlinear_arith)
        requires
            boid.acceleration@.z == 0,
    ;
    lemma_trunc_div_bounds(0, MILLIS_PER_SECOND as int);
    let pushed = boid.velocity@.plus(step(boid.acceleration@, dt)).saturated().as_vector();
    assert(pushed.z == 0);
    let limited = limited_speed(pushed, boid.velocity, settings.min_speed, settings.max_speed);
    if too_slow(pushed@, settings.min_speed as int) {
        crate::vector::lemma_planar_rescaled(heading(pushed@, boid.velocity@), settings.min_speed as int);
    } else if too_fast(pushed@, settings.max_speed as int) {
        lemma_norm_squared(pushed@);
        crate::vector::lemma_planar_rescaled(pushed@, settings.max_speed as int);
    }
    assert(limited.z == 0);
    assert(limited.z * dt == 0) by (nonlinear_arith)
        requires
            limited.z == 0,
    ;
    let velocity = limited.as_vector();
    assert(velocity.z == 0);
    assert(velocity@.z * dt == 0) by (nonlinear_arith)
        requires
            velocity@.z == 0,
    ;
}

} // verus!
