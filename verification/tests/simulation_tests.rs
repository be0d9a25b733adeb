use flocking::accumulator::ForceAccumulator;
use flocking::boid::Obstacle;
use flocking::boundary::{Bounds, SteerSettings};
use flocking::forces::AvoidanceSettings;
use flocking::settings::{BoidSettings, BoundaryMode, FieldOfView, GroupsTargets};
use flocking::simulation::Simulation;
use flocking::spatial::SpatialIndex;
use flocking::store::{AgentStore, PopulationChange};
use flocking::vector::{Vector, UNIT};

fn simulation(mode: BoundaryMode) -> Simulation {
    let mut store = AgentStore::new();
    store.spawn(0, Vector::new(0, 0, 0), Vector::new(10, 0, 0));
    store.spawn(0, Vector::new(25, 0, 0), Vector::new(0, 10, 0));
    Simulation {
        store,
        index: SpatialIndex::new(100),
        events: ForceAccumulator::new(),
        settings: BoidSettings {
            count: 2,
            previous_count: 2,
            cohesion_range: 50,
            alignment_range: 30,
            separation_range: 20,
            min_distance_between_boids: 20,
            cohesion_coeff: 20 * UNIT,
            alignment_coeff: 5 * UNIT,
            separation_coeff: 20 * UNIT,
            collision_coeff: 24 * UNIT,
            attraction_coeff: UNIT,
            min_speed: 5,
            max_speed: 1000,
            field_of_view: FieldOfView::full(),
            boundary_mode: mode,
        },
        targets: GroupsTargets::none(),
        obstacles: Vec::new(),
        avoidance: AvoidanceSettings { range: 50, force_coeff: 100, turn_factor: 20 },
        bounds: Bounds { min: Vector::new(-1000, -1000, 0), max: Vector::new(1000, 1000, 0) },
        steer: SteerSettings { margin: 100, turn_factor: 20 },
        groups: 2,
    }
}

#[test]
fn tick_runs_the_phases_in_order() {
    let mut sim = simulation(BoundaryMode::Wrap);
    sim.tick(1000);
    // accelerations (-50, 50) and (50, -50) for one second
    assert_eq!(sim.store.boids[0].velocity, Vector::new(-40, 50, 0));
    assert_eq!(sim.store.boids[0].position, Vector::new(-40, 50, 0));
    assert_eq!(sim.store.boids[1].velocity, Vector::new(50, -40, 0));
    assert_eq!(sim.store.boids[1].position, Vector::new(75, -40, 0));
    assert_eq!(sim.store.boids[0].acceleration, Vector::new(0, 0, 0));
    assert_eq!(sim.store.boids[1].acceleration, Vector::new(0, 0, 0));
    assert!(sim.events.events.is_empty());
    // the index was built at the start of the tick
    assert_eq!(sim.index.len(), 2);
    assert_eq!(sim.index.query_radius(Vector::new(25, 0, 0), 0).len(), 1);
}

#[test]
fn tick_of_no_time_moves_nothing() {
    for mode in [BoundaryMode::Wrap, BoundaryMode::Bounce, BoundaryMode::SoftSteer] {
        let mut sim = simulation(mode);
        sim.tick(0);
        assert_eq!(sim.store.boids[0].position, Vector::new(0, 0, 0));
        assert_eq!(sim.store.boids[0].velocity, Vector::new(10, 0, 0));
        assert_eq!(sim.store.boids[1].position, Vector::new(25, 0, 0));
        assert_eq!(sim.store.boids[1].velocity, Vector::new(0, 10, 0));
        sim.tick(0);
        assert_eq!(sim.store.boids[1].position, Vector::new(25, 0, 0));
        assert_eq!(sim.store.boids[1].velocity, Vector::new(0, 10, 0));
    }
}

#[test]
fn tick_delivers_events_from_outside() {
    let mut sim = simulation(BoundaryMode::Wrap);
    sim.events.submit(1, Vector::new(0, 0, 100));
    sim.tick(1000);
    assert_eq!(sim.store.boids[1].velocity, Vector::new(50, -40, 100));
}

#[test]
fn tick_avoids_obstacles() {
    let mut sim = simulation(BoundaryMode::Wrap);
    sim.obstacles.push(Obstacle { position: Vector::new(-30, 0, 0), radius: 10 });
    sim.tick(1000);
    // turned at once by 12, then accelerated by 60 - 50 along x
    assert_eq!(sim.store.boids[0].velocity, Vector::new(32, 50, 0));
    assert_eq!(sim.store.boids[0].position, Vector::new(32, 50, 0));
}

#[test]
fn tick_reconciles_the_population_last() {
    let mut sim = simulation(BoundaryMode::Wrap);
    sim.settings.count = 1;
    assert_eq!(sim.tick(1000), PopulationChange::Despawn(1));
    assert_eq!(sim.store.len(), 1);
    assert_eq!(sim.store.boids[0].id, 1);
    assert_eq!(sim.store.boids[0].position, Vector::new(75, -40, 0));
    assert_eq!(sim.settings.previous_count, 1);
    sim.settings.count = 6;
    assert_eq!(sim.tick(16), PopulationChange::Spawn(5));
    assert_eq!(sim.tick(16), PopulationChange::Keep);
    assert_eq!(sim.store.len(), 6);
    assert_eq!(sim.store.next_id, 7);
    for boid in sim.store.boids.iter().skip(1) {
        assert!(sim.bounds.holds(boid.position));
        assert_eq!(boid.position.z, 0);
        assert_eq!(boid.velocity.z, 0);
    }
}

#[test]
fn tick_wraps_agents_that_leave_the_world() {
    let mut sim = simulation(BoundaryMode::Wrap);
    sim.store.boids[0].position = Vector::new(995, 0, 0);
    sim.store.boids[0].velocity = Vector::new(500, 0, 0);
    sim.store.boids[1].position = Vector::new(0, 500, 0);
    sim.tick(20);
    // 995 and ten more is five beyond the edge at 1000
    assert_eq!(sim.store.boids[0].position, Vector::new(-995, 0, 0));
    assert_eq!(sim.store.boids[0].velocity, Vector::new(500, 0, 0));
}

#[test]
fn index_is_refreshed_on_its_own_period() {
    let mut sim = simulation(BoundaryMode::Wrap);
    sim.settings.cohesion_coeff = 0;
    sim.settings.alignment_coeff = 0;
    sim.settings.separation_coeff = 0;
    sim.store.boids[0].velocity = Vector::new(500, 0, 0);
    sim.tick(10);
    assert_eq!(sim.index.age_millis(), 0);
    let first = sim.index.entries().clone();
    sim.tick(60);
    assert_eq!(sim.index.entries(), &first);
    assert_eq!(sim.index.age_millis(), 60);
    sim.tick(60);
    assert_eq!(sim.index.age_millis(), 0);
    assert_ne!(sim.index.entries(), &first);
}

#[test]
fn planar_world_stays_planar() {
    let mut sim = simulation(BoundaryMode::SoftSteer);
    sim.settings.count = 40;
    for _ in 0..50 {
        sim.tick(16);
    }
    assert_eq!(sim.store.len(), 40);
    for boid in sim.store.boids.iter() {
        assert_eq!(boid.position.z, 0);
        assert_eq!(boid.velocity.z, 0);
        let (x, y) = (boid.velocity.x as i64, boid.velocity.y as i64);
        assert!(x * x + y * y <= 1020 * 1020);
    }
}
