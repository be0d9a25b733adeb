use flocking::boid::Boid;
use flocking::integrator::{integrate, limit_speed};
use flocking::settings::BoidSettings;
use flocking::vector::Vector;

fn settings(min_speed: i32, max_speed: i32) -> BoidSettings {
    let mut s = BoidSettings::default();
    s.min_speed = min_speed;
    s.max_speed = max_speed;
    s
}

fn speed_squared(v: Vector) -> i64 {
    let (x, y, z) = (v.x as i64, v.y as i64, v.z as i64);
    x * x + y * y + z * z
}

#[test]
fn acceleration_changes_velocity_and_velocity_changes_position() {
    let mut boid = Boid::new(1, 0, Vector::new(1000, 1000, 0), Vector::new(100, 0, 0));
    boid.acceleration = Vector::new(50, -20, 0);
    integrate(&mut boid, &settings(5, 1000), 500);
    assert_eq!(boid.velocity, Vector::new(125, -10, 0));
    // half a second at (125, -10): (62.5, -5), rounded toward zero
    assert_eq!(boid.position, Vector::new(1062, 995, 0));
    assert_eq!(boid.acceleration, Vector::new(0, 0, 0));
    assert_eq!(boid.id, 1);
    assert_eq!(boid.group, 0);
}

#[test]
fn too_fast_is_rescaled_to_the_ceiling() {
    assert_eq!(
        limit_speed(Vector::new(3000, 4000, 0), Vector::new(0, 0, 0), 5, 1000),
        Vector::new(600, 800, 0)
    );
}

#[test]
fn too_slow_is_rescaled_to_the_floor() {
    assert_eq!(limit_speed(Vector::new(3, 4, 0), Vector::new(0, 0, 0), 50, 1000), Vector::new(30, 40, 0));
}

#[test]
fn speed_between_the_limits_is_kept() {
    let v = Vector::new(300, -400, 10);
    assert_eq!(limit_speed(v, Vector::new(1, 1, 1), 50, 1000), v);
    // exactly at the floor and exactly at the ceiling
    assert_eq!(limit_speed(Vector::new(50, 0, 0), Vector::new(0, 0, 0), 50, 1000), Vector::new(50, 0, 0));
    assert_eq!(
        limit_speed(Vector::new(0, 1000, 0), Vector::new(0, 0, 0), 50, 1000),
        Vector::new(0, 1000, 0)
    );
}

#[test]
fn rescaling_never_exceeds_the_length_asked_for() {
    // (1, 1, 0) has length 1.41: each component is 100 / 1.41 = 70.7
    assert_eq!(limit_speed(Vector::new(1, 1, 0), Vector::new(0, 0, 0), 100, 1000), Vector::new(70, 70, 0));
    assert_eq!(
        limit_speed(Vector::new(1, 1, 1), Vector::new(0, 0, 0), 500, 1000),
        Vector::new(288, 288, 288)
    );
    assert_eq!(
        limit_speed(Vector::new(-7000, 3000, 2000), Vector::new(0, 0, 0), 5, 1000),
        Vector::new(-889, 381, 254)
    );
}

#[test]
fn standing_agent_keeps_its_previous_heading() {
    // the acceleration brings the agent to a halt: it goes on the way it went
    let mut boid = Boid::new(1, 0, Vector::new(0, 0, 0), Vector::new(0, 10, 0));
    boid.acceleration = Vector::new(0, -10, 0);
    integrate(&mut boid, &settings(50, 1000), 1000);
    assert_eq!(boid.velocity, Vector::new(0, 50, 0));
    assert_eq!(boid.position, Vector::new(0, 50, 0));
}

#[test]
fn agent_that_never_moved_heads_along_x() {
    let mut boid = Boid::new(1, 0, Vector::new(0, 0, 0), Vector::new(0, 0, 0));
    integrate(&mut boid, &settings(50, 1000), 1000);
    assert_eq!(boid.velocity, Vector::new(50, 0, 0));
    assert_eq!(boid.position, Vector::new(50, 0, 0));
}

#[test]
fn speed_is_within_limits_after_every_step() {
    let s = settings(12_800, 76_800);
    let accelerations = [
        Vector::new(0, 0, 0),
        Vector::new(1, 0, 0),
        Vector::new(-999_999, 5, 17),
        Vector::new(i32::MAX, i32::MIN, i32::MAX),
        Vector::new(123_456, -654_321, 1),
        Vector::new(-20_000, 0, 0),
    ];
    let velocities = [Vector::new(0, 0, 0), Vector::new(20_000, 0, 0), Vector::new(-3, 4, 1)];
    for a in accelerations.iter() {
        for v in velocities.iter() {
            for dt in [0u32, 1, 16, 1000, u32::MAX] {
                let mut boid = Boid::new(1, 0, Vector::new(0, 0, 0), *v);
                boid.acceleration = *a;
                integrate(&mut boid, &s, dt);
                let n = speed_squared(boid.velocity);
                assert!(n <= 76_800i64 * 76_800);
                // within min_speed / 65536 + 3 of the floor
                assert!(n >= (12_800i64 - 4) * (12_800 - 4));
            }
        }
    }
}

#[test]
fn step_of_no_time_keeps_position_and_velocity() {
    let mut boid = Boid::new(1, 0, Vector::new(123, -456, 789), Vector::new(300, -400, 0));
    boid.acceleration = Vector::new(i32::MAX, 77, -5);
    integrate(&mut boid, &settings(50, 1000), 0);
    assert_eq!(boid.position, Vector::new(123, -456, 789));
    assert_eq!(boid.velocity, Vector::new(300, -400, 0));
    assert_eq!(boid.acceleration, Vector::new(0, 0, 0));
}

#[test]
fn step_of_no_time_still_limits_the_speed() {
    let mut boid = Boid::new(1, 0, Vector::new(0, 0, 0), Vector::new(3, 4, 0));
    integrate(&mut boid, &settings(50, 1000), 0);
    assert_eq!(boid.velocity, Vector::new(30, 40, 0));
    assert_eq!(boid.position, Vector::new(0, 0, 0));
}

#[test]
fn position_is_clamped_at_the_end_of_the_range() {
    let mut boid = Boid::new(1, 0, Vector::new(i32::MAX - 10, 0, 0), Vector::new(1000, 0, 0));
    integrate(&mut boid, &settings(50, 1000), 1000);
    assert_eq!(boid.position, Vector::new(i32::MAX, 0, 0));
}
