use flocking::boid::Boid;
use flocking::kdtree::{build, search};
use flocking::spatial::{IndexEntry, SpatialIndex};
use flocking::vector::{Axis, Vector};

fn flock() -> Vec<Boid> {
    vec![
        Boid::new(10, 0, Vector::new(0, 0, 0), Vector::new(1, 0, 0)),
        Boid::new(20, 0, Vector::new(30, 40, 0), Vector::new(1, 0, 0)),
        Boid::new(30, 0, Vector::new(0, 0, 51), Vector::new(1, 0, 0)),
        Boid::new(40, 0, Vector::new(-50, 0, 0), Vector::new(1, 0, 0)),
    ]
}

fn ids(found: &Vec<IndexEntry>) -> Vec<u64> {
    let mut ids: Vec<u64> = found.iter().map(|e| e.id).collect();
    ids.sort();
    ids
}

/// A sequence of numbers that looks random and is the same on every run.
struct Sequence(u64);

impl Sequence {
    fn next(&mut self, spread: i32) -> i32 {
        self.0 = self.0.wrapping_mul(6364136223846793005).wrapping_add(1442695040888963407);
        ((self.0 >> 33) as i64 % (2 * spread as i64 + 1) - spread as i64) as i32
    }
}

fn scattered(count: usize, spread: i32, flat: bool, seed: u64) -> Vec<Boid> {
    let mut numbers = Sequence(seed);
    (0..count)
        .map(|i| {
            let x = numbers.next(spread);
            let y = numbers.next(spread);
            let z = if flat { 0 } else { numbers.next(spread) };
            Boid::new(i as u64, 0, Vector::new(x, y, z), Vector::new(1, 0, 0))
        })
        .collect()
}

fn distance_squared(a: Vector, b: Vector) -> i128 {
    let (x, y, z) = (a.x as i128 - b.x as i128, a.y as i128 - b.y as i128, a.z as i128 - b.z as i128);
    x * x + y * y + z * z
}

#[test]
fn index_that_was_never_built_finds_nothing() {
    let index = SpatialIndex::new(100);
    assert_eq!(index.len(), 0);
    assert!(index.query_radius(Vector::new(0, 0, 0), i32::MAX).is_empty());
}

#[test]
fn query_finds_all_within_the_radius_and_no_other() {
    let mut index = SpatialIndex::new(100);
    index.rebuild(&flock());
    assert_eq!(ids(&index.query_radius(Vector::new(0, 0, 0), 50)), vec![10, 20, 40]);
    assert_eq!(ids(&index.query_radius(Vector::new(0, 0, 0), 49)), vec![10]);
    assert_eq!(ids(&index.query_radius(Vector::new(0, 0, 0), 51)), vec![10, 20, 30, 40]);
    assert_eq!(ids(&index.query_radius(Vector::new(0, 0, 0), 0)), vec![10]);
    assert_eq!(ids(&index.query_radius(Vector::new(0, 0, 0), -1)), Vec::<u64>::new());
    assert_eq!(ids(&index.query_radius(Vector::new(30, 40, 1), 1)), vec![20]);
}

#[test]
fn query_is_exact_across_the_whole_range() {
    let mut index = SpatialIndex::new(100);
    let far = vec![Boid::new(1, 0, Vector::new(i32::MAX, i32::MAX, i32::MAX), Vector::new(0, 0, 0))];
    index.rebuild(&far);
    assert!(index.query_radius(Vector::new(i32::MIN, i32::MIN, i32::MIN), i32::MAX).is_empty());
    assert_eq!(ids(&index.query_radius(Vector::new(i32::MAX, i32::MAX, 0), i32::MAX)), vec![1]);
}

#[test]
fn query_agrees_with_looking_at_every_agent() {
    for (count, flat, seed) in [(1, false, 1), (2, true, 2), (3, false, 3), (200, true, 4), (777, false, 5)] {
        let boids = scattered(count, 1000, flat, seed);
        let mut index = SpatialIndex::new(100);
        index.rebuild(&boids);
        assert_eq!(index.len(), count);
        let mut numbers = Sequence(seed + 100);
        for _ in 0..60 {
            let point = Vector::new(numbers.next(1200), numbers.next(1200), numbers.next(300));
            let radius = numbers.next(400).abs();
            let found = index.query_radius(point, radius);
            let mut expected: Vec<u64> = boids
                .iter()
                .filter(|b| distance_squared(b.position, point) <= radius as i128 * radius as i128)
                .map(|b| b.id)
                .collect();
            expected.sort();
            assert_eq!(ids(&found), expected);
            for entry in found.iter() {
                assert_eq!(boids[entry.slot].id, entry.id);
                assert_eq!(boids[entry.slot].position, entry.position);
            }
        }
    }
}

#[test]
fn query_finds_agents_at_the_same_place_each_once() {
    let boids: Vec<Boid> = (0..50)
        .map(|i| Boid::new(i, 0, Vector::new(7, 7, 7), Vector::new(0, 0, 0)))
        .collect();
    let mut index = SpatialIndex::new(100);
    index.rebuild(&boids);
    assert_eq!(ids(&index.query_radius(Vector::new(7, 7, 7), 0)), (0..50).collect::<Vec<u64>>());
    assert!(index.query_radius(Vector::new(7, 7, 8), 0).is_empty());
}

#[test]
fn built_tree_splits_every_range_at_its_middle() {
    let boids = scattered(100, 500, false, 9);
    let mut index = SpatialIndex::new(100);
    index.rebuild(&boids);
    let entries = index.entries();
    let mid = entries.len() / 2;
    for e in entries[..mid].iter() {
        assert!(e.position.x <= entries[mid].position.x);
    }
    for e in entries[mid + 1..].iter() {
        assert!(e.position.x >= entries[mid].position.x);
    }
    let quarter = mid / 2;
    for e in entries[..quarter].iter() {
        assert!(e.position.y <= entries[quarter].position.y);
    }
    for e in entries[quarter + 1..mid].iter() {
        assert!(e.position.y >= entries[quarter].position.y);
    }
}

#[test]
fn tree_can_be_built_and_searched_along_any_axis() {
    let entries: Vec<IndexEntry> = scattered(64, 100, false, 11)
        .iter()
        .enumerate()
        .map(|(slot, b)| IndexEntry { id: b.id, position: b.position, slot })
        .collect();
    for axis in [Axis::X, Axis::Y, Axis::Z] {
        let tree = build(entries.clone(), axis);
        assert_eq!(ids(&tree), ids(&entries));
        let mut found = vec![IndexEntry { id: 999, position: Vector::new(0, 0, 0), slot: 0 }];
        search(&tree, 0, tree.len(), axis, Vector::new(10, -10, 0), 60, &mut found);
        assert_eq!(found[0].id, 999);
        let mut expected: Vec<u64> = entries
            .iter()
            .filter(|e| distance_squared(e.position, Vector::new(10, -10, 0)) <= 3600)
            .map(|e| e.id)
            .collect();
        expected.sort();
        found.remove(0);
        assert_eq!(ids(&found), expected);
        assert!(!expected.is_empty());
    }
}

#[test]
fn rebuild_remembers_positions_as_they_were() {
    let mut boids = flock();
    let mut index = SpatialIndex::new(100);
    index.rebuild(&boids);
    boids[1].position = Vector::new(5000, 5000, 0);
    assert_eq!(
        index.query_radius(Vector::new(30, 40, 0), 0),
        vec![IndexEntry { id: 20, position: Vector::new(30, 40, 0), slot: 1 }]
    );
    index.rebuild(&boids);
    assert!(index.query_radius(Vector::new(30, 40, 0), 0).is_empty());
}

#[test]
fn refresh_rebuilds_once_a_period() {
    let boids = flock();
    let mut index = SpatialIndex::new(100);
    // the first build is due at once
    assert!(index.refresh(&boids, 0));
    assert_eq!(index.len(), 4);
    assert_eq!(index.age_millis(), 0);
    let fewer = vec![boids[0]];
    assert!(!index.refresh(&fewer, 60));
    assert_eq!(index.len(), 4);
    assert_eq!(index.age_millis(), 60);
    assert!(!index.refresh(&fewer, 39));
    assert!(index.refresh(&fewer, 1));
    assert_eq!(index.len(), 1);
    assert_eq!(index.age_millis(), 0);
    assert_eq!(index.period_millis(), 100);
}

#[test]
fn age_stops_at_the_end_of_its_range() {
    let boids = flock();
    let mut index = SpatialIndex::new(u32::MAX);
    index.rebuild(&boids);
    assert!(!index.refresh(&boids, u32::MAX - 5));
    assert!(!index.refresh(&boids, 2));
    assert_eq!(index.age_millis(), u32::MAX - 3);
    assert!(index.refresh(&boids, 100));
    assert_eq!(index.age_millis(), 0);
}
