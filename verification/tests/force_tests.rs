use flocking::boid::{Boid, Neighbor, Obstacle};
use flocking::forces::{alignment, attraction_to_target, cohesion, repulsion_from, separation, steer_clear};
use flocking::forces::AvoidanceSettings;
use flocking::vector::{Vector, UNIT};

fn at(id: u64, x: i32, y: i32, z: i32) -> Neighbor {
    Neighbor { id, position: Vector::new(x, y, z), velocity: Vector::new(0, 0, 0) }
}

fn moving(id: u64, x: i32, y: i32, z: i32) -> Neighbor {
    Neighbor { id, position: Vector::new(0, 0, 0), velocity: Vector::new(x, y, z) }
}

#[test]
fn cohesion_is_zero_without_neighbors() {
    let none: Vec<Neighbor> = Vec::new();
    assert_eq!(cohesion(Vector::new(17, -4, 9), &none, 20 * UNIT), Vector::new(0, 0, 0));
}

#[test]
fn alignment_is_zero_without_neighbors() {
    let none: Vec<Neighbor> = Vec::new();
    assert_eq!(alignment(Vector::new(300, 0, -2), &none, 5 * UNIT), Vector::new(0, 0, 0));
}

#[test]
fn cohesion_pulls_to_the_mean_position() {
    let neighbors = vec![at(1, 10, 0, 0), at(2, 20, 30, 0), at(3, 30, 0, -9)];
    // mean (20, 10, -3), less (5, 5, 5), times 20
    assert_eq!(cohesion(Vector::new(5, 5, 5), &neighbors, 20 * UNIT), Vector::new(300, 100, -160));
}

#[test]
fn cohesion_mean_rounds_toward_zero() {
    let neighbors = vec![at(1, 1, -1, 0), at(2, 2, -2, 0)];
    // sums (3, -3), mean (1, -1)
    assert_eq!(cohesion(Vector::new(0, 0, 0), &neighbors, 1 * UNIT), Vector::new(1, -1, 0));
}

#[test]
fn alignment_pulls_to_the_mean_velocity() {
    let neighbors = vec![moving(1, 100, 0, 0), moving(2, 0, 100, 0)];
    // mean (50, 50, 0), less (10, 0, 0), times 5
    assert_eq!(alignment(Vector::new(10, 0, 0), &neighbors, 5 * UNIT), Vector::new(200, 250, 0));
}

#[test]
fn forces_are_clamped_into_the_component_range() {
    let neighbors = vec![at(1, i32::MAX, i32::MIN, 0)];
    assert_eq!(
        cohesion(Vector::new(i32::MIN, i32::MAX, 0), &neighbors, 20 * UNIT),
        Vector::new(i32::MAX, i32::MIN, 0)
    );
}

#[test]
fn separation_outside_the_collision_distance_is_the_offset() {
    let neighbors = vec![at(1, 30, 0, 0), at(2, 0, -25, 0)];
    // offsets (-30, 0) and (0, 25), times 20
    assert_eq!(separation(Vector::new(0, 0, 0), &neighbors, 20 * UNIT, 20, 24 * UNIT), Vector::new(-600, 500, 0));
}

#[test]
fn separation_inside_the_collision_distance_is_weighted() {
    // offset -10, weight 24 * (20 - 10) / 20, times 20
    let near = vec![at(1, 10, 0, 0)];
    assert_eq!(separation(Vector::new(0, 0, 0), &near, 20 * UNIT, 20, 24 * UNIT), Vector::new(-2400, 0, 0));
    // offset -15, weight 24 * (20 - 15) / 20, times 20
    let farther = vec![at(1, 15, 0, 0)];
    assert_eq!(separation(Vector::new(0, 0, 0), &farther, 20 * UNIT, 20, 24 * UNIT), Vector::new(-1800, 0, 0));
    // at the collision distance itself the weight is one
    let edge = vec![at(1, 20, 0, 0)];
    assert_eq!(separation(Vector::new(0, 0, 0), &edge, 20 * UNIT, 20, 24 * UNIT), Vector::new(-400, 0, 0));
}

#[test]
fn separation_sharpens_down_to_half_the_collision_distance() {
    let mut last: i64 = 0;
    for d in (10..20).rev() {
        let one = vec![at(1, d, 0, 0)];
        let force = separation(Vector::new(0, 0, 0), &one, 20 * UNIT, 20, 24 * UNIT);
        let length = -(force.x as i64);
        assert!(length >= last);
        last = length;
    }
    // nearer than half of it the offset shrinks faster than the weight grows
    let close = vec![at(1, 5, 0, 0)];
    assert_eq!(separation(Vector::new(0, 0, 0), &close, 20 * UNIT, 20, 24 * UNIT), Vector::new(-1800, 0, 0));
}

#[test]
fn separation_from_an_agent_at_the_same_place_is_zero() {
    let same = vec![at(1, 7, 7, 7)];
    assert_eq!(separation(Vector::new(7, 7, 7), &same, 20 * UNIT, 20, 24 * UNIT), Vector::new(0, 0, 0));
}

#[test]
fn separation_uses_the_distance_rounded_down() {
    // offset (-3, -3, 0): distance 4.24 is taken as 4; each component is
    // -3 * 24 * (20 - 4) / 20 = -57.6, rounded toward zero
    let one = vec![at(1, 3, 3, 0)];
    assert_eq!(separation(Vector::new(0, 0, 0), &one, 1 * UNIT, 20, 24 * UNIT), Vector::new(-57, -57, 0));
}

#[test]
fn attraction_is_the_offset_to_the_target_times_the_coefficient() {
    assert_eq!(
        attraction_to_target(Vector::new(10, 20, 30), Vector::new(110, 0, 30), 3 * UNIT),
        Vector::new(300, -60, 0)
    );
}

#[test]
fn repulsion_fades_with_the_distance_from_the_surface() {
    let obstacle = Obstacle { position: Vector::new(0, 0, 0), radius: 10 };
    // centre distance 30, surface distance 20: 10 * (50 - 20) / 50 along +x
    assert_eq!(repulsion_from(Vector::new(30, 0, 0), &obstacle, 50, 10), Vector::new(6, 0, 0));
    // surface distance 50 is out of range
    assert_eq!(repulsion_from(Vector::new(60, 0, 0), &obstacle, 50, 10), Vector::new(0, 0, 0));
    assert_eq!(repulsion_from(Vector::new(59, 0, 0), &obstacle, 50, 100), Vector::new(2, 0, 0));
    // off the axes: direction (3, 4) / 5, surface distance 40
    assert_eq!(repulsion_from(Vector::new(30, 40, 0), &obstacle, 50, 100), Vector::new(12, 16, 0));
}

#[test]
fn repulsion_at_the_centre_is_zero() {
    let obstacle = Obstacle { position: Vector::new(5, 5, 5), radius: 10 };
    assert_eq!(repulsion_from(Vector::new(5, 5, 5), &obstacle, 50, 10), Vector::new(0, 0, 0));
}

#[test]
fn repulsion_inside_an_obstacle_is_stronger_than_at_its_surface() {
    let obstacle = Obstacle { position: Vector::new(0, 0, 0), radius: 10 };
    // centre distance 5, surface distance -5: 10 * (50 + 5) / 50
    assert_eq!(repulsion_from(Vector::new(5, 0, 0), &obstacle, 50, 10), Vector::new(11, 0, 0));
}

#[test]
fn obstacles_turn_the_velocity_and_give_a_force() {
    let obstacles = vec![
        Obstacle { position: Vector::new(0, 0, 0), radius: 10 },
        Obstacle { position: Vector::new(30, 30, 0), radius: 0 },
        Obstacle { position: Vector::new(1000, 0, 0), radius: 10 },
    ];
    let settings = AvoidanceSettings { range: 50, force_coeff: 100, turn_factor: 20 };
    let mut boid = Boid::new(1, 0, Vector::new(30, 0, 0), Vector::new(7, 7, 7));
    let force = steer_clear(&mut boid, &obstacles, &settings);
    // from the first: +x, 100 * 30 / 50 = 60; from the second: -y, 100 * 20 / 50 = 40
    assert_eq!(force, Vector::new(60, -40, 0));
    // turns: 20 * 30 / 50 = 12 and 20 * 20 / 50 = 8
    assert_eq!(boid.velocity, Vector::new(19, -1, 7));
    assert_eq!(boid.position, Vector::new(30, 0, 0));
    assert_eq!(boid.acceleration, Vector::new(0, 0, 0));
}

#[test]
fn separation_sharpens_along_a_line_of_whole_length() {
    // steps of (3, 4, 0), each of length 5; the collision distance is 40
    let mut last: i64 = 0;
    for steps in (4..8).rev() {
        let one = vec![at(1, 3 * steps, 4 * steps, 0)];
        let force = separation(Vector::new(0, 0, 0), &one, 20 * UNIT, 40, 24 * UNIT);
        let (x, y) = (force.x as i64, force.y as i64);
        assert!(x * x + y * y >= last);
        last = x * x + y * y;
    }
    // 4 steps away: offset (-12, -16), weight 24 * (40 - 20) / 40, times 20
    let one = vec![at(1, 12, 16, 0)];
    assert_eq!(separation(Vector::new(0, 0, 0), &one, 20 * UNIT, 40, 24 * UNIT), Vector::new(-2880, -3840, 0));
}

#[test]
fn coefficients_can_be_fractions() {
    // own velocity (1, 0, 0), neighbours (3, 0, 0) and (1, 2, 0), half as
    // coefficient: half of the mean (2, 1, 0) less (1, 0, 0)
    let neighbors = vec![moving(1, 3 * UNIT, 0, 0), moving(2, UNIT, 2 * UNIT, 0)];
    assert_eq!(
        alignment(Vector::new(UNIT, 0, 0), &neighbors, UNIT / 2),
        Vector::new(UNIT / 2, UNIT / 2, 0)
    );
    let apart = vec![at(1, 1000, -1000, 0)];
    assert_eq!(cohesion(Vector::new(0, 0, 0), &apart, UNIT / 4), Vector::new(250, -250, 0));
    assert_eq!(cohesion(Vector::new(0, 0, 0), &apart, 1), Vector::new(3, -3, 0));
    assert_eq!(cohesion(Vector::new(0, 0, 0), &apart, 0), Vector::new(0, 0, 0));
    assert_eq!(cohesion(Vector::new(0, 0, 0), &apart, -UNIT / 2), Vector::new(-500, 500, 0));
    assert_eq!(
        attraction_to_target(Vector::new(0, 0, 0), Vector::new(100, -100, 7), 3 * UNIT / 2),
        Vector::new(150, -150, 10)
    );
}

#[test]
fn separation_takes_fractions_of_both_its_coefficients() {
    // offset -10, weight 1.5 * (20 - 10) / 20, times 0.5
    let near = vec![at(1, 10, 0, 0)];
    assert_eq!(
        separation(Vector::new(0, 0, 0), &near, UNIT / 2, 20, 3 * UNIT / 2),
        Vector::new(-3, 0, 0)
    );
    // offset -1000 outside the collision distance, times 0.25
    let far = vec![at(1, 1000, 0, 0)];
    assert_eq!(separation(Vector::new(0, 0, 0), &far, UNIT / 4, 20, 24 * UNIT), Vector::new(-250, 0, 0));
}
