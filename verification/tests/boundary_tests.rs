use flocking::boid::Boid;
use flocking::boundary::{bounce, confine, confine_with, draw_slopes, rebond};
use flocking::boundary::{Bounds, Slopes, SteerSettings, SLOPE_LIMIT};
use flocking::settings::BoundaryMode;
use flocking::vector::{Axis, Vector};

fn world() -> Bounds {
    Bounds { min: Vector::new(0, 0, 0), max: Vector::new(1000, 1000, 0) }
}

fn steer() -> SteerSettings {
    SteerSettings { margin: 100, turn_factor: 20 }
}

fn still() -> Slopes {
    Slopes { x: 0, y: 0, z: 0 }
}

#[test]
fn wrap_comes_in_at_the_opposite_edge_as_far_as_it_went_out() {
    let mut boid = Boid::new(1, 0, Vector::new(1005, 500, 0), Vector::new(30, 40, 0));
    confine(&mut boid, &world(), BoundaryMode::Wrap, &steer());
    assert_eq!(boid.position, Vector::new(5, 500, 0));
    assert_eq!(boid.velocity, Vector::new(30, 40, 0));
    let mut boid = Boid::new(1, 0, Vector::new(-3, 1001, 0), Vector::new(30, 40, 0));
    confine(&mut boid, &world(), BoundaryMode::Wrap, &steer());
    assert_eq!(boid.position, Vector::new(997, 1, 0));
    assert_eq!(boid.velocity, Vector::new(30, 40, 0));
}

#[test]
fn wrap_goes_round_more_than_once() {
    let mut boid = Boid::new(1, 0, Vector::new(3250, -2100, 0), Vector::new(0, 0, 0));
    confine(&mut boid, &world(), BoundaryMode::Wrap, &steer());
    assert_eq!(boid.position, Vector::new(250, 900, 0));
    // a whole number of rounds beyond an edge comes in at the other edge
    let mut boid = Boid::new(1, 0, Vector::new(2000, -1000, 0), Vector::new(0, 0, 0));
    confine(&mut boid, &world(), BoundaryMode::Wrap, &steer());
    assert_eq!(boid.position, Vector::new(0, 1000, 0));
    let wide = Bounds {
        min: Vector::new(i32::MIN, -10, 0),
        max: Vector::new(i32::MAX - 1, 10, 0),
    };
    let mut boid = Boid::new(1, 0, Vector::new(i32::MAX, i32::MIN, 0), Vector::new(0, 0, 0));
    confine(&mut boid, &wide, BoundaryMode::Wrap, &steer());
    assert_eq!(boid.position, Vector::new(i32::MIN + 1, -8, 0));
}

#[test]
fn wrap_in_a_world_without_width_is_the_edge() {
    let mut boid = Boid::new(1, 0, Vector::new(500, 500, 77), Vector::new(0, 0, 9));
    confine(&mut boid, &world(), BoundaryMode::Wrap, &steer());
    assert_eq!(boid.position, Vector::new(500, 500, 0));
    assert_eq!(boid.velocity, Vector::new(0, 0, 9));
}

#[test]
fn wrap_leaves_agents_inside_alone() {
    for position in [Vector::new(0, 0, 0), Vector::new(1000, 1000, 0), Vector::new(5, 995, 0)] {
        let mut boid = Boid::new(1, 0, position, Vector::new(30, 40, 0));
        let before = boid;
        confine(&mut boid, &world(), BoundaryMode::Wrap, &steer());
        assert_eq!(boid, before);
    }
}

#[test]
fn soft_mode_steers_back_within_the_margin() {
    let mut boid = Boid::new(1, 0, Vector::new(950, 50, 0), Vector::new(30, 40, 0));
    confine(&mut boid, &world(), BoundaryMode::SoftSteer, &steer());
    assert_eq!(boid.velocity, Vector::new(10, 60, 0));
    assert_eq!(boid.position, Vector::new(950, 50, 0));
}

#[test]
fn soft_mode_lets_agents_overshoot() {
    let mut boid = Boid::new(1, 0, Vector::new(1200, -50, 0), Vector::new(30, -40, 0));
    confine(&mut boid, &world(), BoundaryMode::SoftSteer, &steer());
    assert_eq!(boid.position, Vector::new(1200, -50, 0));
    assert_eq!(boid.velocity, Vector::new(10, -20, 0));
}

#[test]
fn soft_mode_leaves_the_middle_alone() {
    let bounds = Bounds { min: Vector::new(0, 0, -1000), max: Vector::new(1000, 1000, 1000) };
    let mut boid = Boid::new(1, 0, Vector::new(500, 100, 0), Vector::new(30, 40, 5));
    confine(&mut boid, &bounds, BoundaryMode::SoftSteer, &steer());
    assert_eq!(boid.velocity, Vector::new(30, 40, 5));
    let mut boid = Boid::new(1, 0, Vector::new(500, 900, 0), Vector::new(30, 40, 5));
    confine(&mut boid, &bounds, BoundaryMode::SoftSteer, &steer());
    assert_eq!(boid.velocity, Vector::new(30, 40, 5));
}

#[test]
fn soft_mode_in_a_flat_world_cancels_along_z() {
    // the floor and the roof of a flat world are both nearer than the margin
    let mut boid = Boid::new(1, 0, Vector::new(500, 500, 0), Vector::new(30, 40, 0));
    confine(&mut boid, &world(), BoundaryMode::SoftSteer, &steer());
    assert_eq!(boid.velocity, Vector::new(30, 40, 0));
}

#[test]
fn bounce_without_turn_mirrors_the_velocity() {
    assert_eq!(bounce(Vector::new(30, 40, 0), Axis::X, 0), Vector::new(-30, 40, 0));
    assert_eq!(bounce(Vector::new(30, 40, 0), Axis::Y, 0), Vector::new(30, -40, 0));
    assert_eq!(bounce(Vector::new(0, 0, 70), Axis::Z, 0), Vector::new(0, 0, -70));
    assert_eq!(bounce(Vector::new(0, 0, 0), Axis::X, 300), Vector::new(0, 0, 0));
}

#[test]
fn bounce_turns_by_the_slope_and_keeps_the_speed() {
    assert_eq!(bounce(Vector::new(30, 40, 0), Axis::X, SLOPE_LIMIT), Vector::new(-49, 7, 0));
    assert_eq!(bounce(Vector::new(30, 40, 0), Axis::X, -SLOPE_LIMIT), Vector::new(7, 49, 0));
    assert_eq!(bounce(Vector::new(30, 40, 0), Axis::Y, 512), Vector::new(44, -22, 0));
    assert_eq!(bounce(Vector::new(10, 20, 70), Axis::Z, 300), Vector::new(4, 22, -69));
}

#[test]
fn bounce_mode_puts_the_agent_on_the_edge() {
    let mut boid = Boid::new(1, 0, Vector::new(1005, -2, 0), Vector::new(30, -40, 0));
    confine_with(&mut boid, &world(), BoundaryMode::Bounce, &steer(), still());
    assert_eq!(boid.position, Vector::new(1000, 0, 0));
    assert_eq!(boid.velocity, Vector::new(-30, 40, 0));
}

#[test]
fn bounce_mode_leaves_agents_inside_alone() {
    let mut boid = Boid::new(1, 0, Vector::new(1000, 0, 0), Vector::new(30, -40, 0));
    let before = boid;
    confine(&mut boid, &world(), BoundaryMode::Bounce, &steer());
    assert_eq!(boid, before);
}

#[test]
fn random_bounce_stays_within_45_degrees_and_varies() {
    let mirrored = (-3000i64, 4000i64);
    let mut seen: Vec<Vector> = Vec::new();
    for _ in 0..200 {
        let mut velocity = Vector::new(3000, 4000, 0);
        rebond(&mut velocity, Axis::X);
        let (x, y) = (velocity.x as i64, velocity.y as i64);
        let n = x * x + y * y;
        assert!(n <= 5000 * 5000);
        assert!(n >= 4997 * 4997);
        assert_eq!(velocity.z, 0);
        // cosine of the angle to the mirrored velocity is at least that of
        // 45 degrees, but for rounding
        let dot = x * mirrored.0 + y * mirrored.1;
        assert!(dot > 0);
        assert!(dot * 1000 >= 5000 * 5000 * 707);
        if !seen.contains(&velocity) {
            seen.push(velocity);
        }
    }
    assert!(seen.len() > 1);
}

#[test]
fn drawn_slopes_are_within_the_limit_and_vary() {
    let mut seen: Vec<i32> = Vec::new();
    for _ in 0..100 {
        let slopes = draw_slopes();
        for s in [slopes.x, slopes.y, slopes.z] {
            assert!(-SLOPE_LIMIT <= s && s <= SLOPE_LIMIT);
            if !seen.contains(&s) {
                seen.push(s);
            }
        }
    }
    assert!(seen.len() > 1);
}

#[test]
fn bounds_hold_their_surface() {
    let bounds = world();
    assert!(bounds.holds(Vector::new(0, 1000, 0)));
    assert!(!bounds.holds(Vector::new(0, 1001, 0)));
    assert!(!bounds.holds(Vector::new(5, 5, 1)));
}
