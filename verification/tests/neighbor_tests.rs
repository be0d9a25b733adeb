use flocking::boid::{Boid, Neighbor};
use flocking::neighbors::{band_by_distance, classify, classify_neighbors, is_in_field_of_view};
use flocking::neighbors::{same_species, Band, Fish};
use flocking::settings::{BoidSettings, BoundaryMode, FieldOfView, Species};
use flocking::settings::{COS_45_DEGREES, COS_SCALE};
use flocking::vector::{Vector, UNIT};

fn small_settings(fov: FieldOfView) -> BoidSettings {
    BoidSettings {
        count: 0,
        previous_count: 0,
        cohesion_range: 50,
        alignment_range: 30,
        separation_range: 20,
        min_distance_between_boids: 20,
        cohesion_coeff: 20 * UNIT,
        alignment_coeff: 5 * UNIT,
        separation_coeff: 20 * UNIT,
        collision_coeff: 24 * UNIT,
        attraction_coeff: UNIT,
        min_speed: 5,
        max_speed: 1000,
        field_of_view: fov,
        boundary_mode: BoundaryMode::Wrap,
    }
}

fn neighbor(id: u64, x: i32, y: i32) -> Neighbor {
    Neighbor { id, position: Vector::new(x, y, 0), velocity: Vector::new(0, 0, 0) }
}

#[test]
fn neighbor_straight_behind_is_unseen_with_quarter_view() {
    let fov = FieldOfView { cos_half_angle: COS_45_DEGREES };
    let heading = Vector::new(100, 0, 0);
    assert!(!is_in_field_of_view(heading, Vector::new(-50, 0, 0), fov));
    assert!(!is_in_field_of_view(heading, Vector::new(-1, 0, 0), fov));
}

#[test]
fn neighbor_straight_ahead_is_seen_with_any_view() {
    let heading = Vector::new(100, 0, 0);
    let ahead = Vector::new(50, 0, 0);
    assert!(is_in_field_of_view(heading, ahead, FieldOfView { cos_half_angle: COS_45_DEGREES }));
    assert!(is_in_field_of_view(heading, ahead, FieldOfView { cos_half_angle: COS_SCALE }));
    assert!(is_in_field_of_view(heading, ahead, FieldOfView { cos_half_angle: COS_SCALE - 1 }));
    assert!(is_in_field_of_view(heading, ahead, FieldOfView { cos_half_angle: 0 }));
    assert!(is_in_field_of_view(heading, ahead, FieldOfView::full()));
}

#[test]
fn full_view_sees_behind() {
    let heading = Vector::new(100, 0, 0);
    assert!(is_in_field_of_view(heading, Vector::new(-50, 0, 0), FieldOfView::full()));
}

#[test]
fn view_cone_edges() {
    let heading = Vector::new(100, 0, 0);
    let side = Vector::new(0, 50, 0);
    let quarter = FieldOfView { cos_half_angle: COS_45_DEGREES };
    let half = FieldOfView { cos_half_angle: 0 };
    let three_quarters = FieldOfView { cos_half_angle: -COS_45_DEGREES };
    assert!(!is_in_field_of_view(heading, side, quarter));
    assert!(is_in_field_of_view(heading, side, half));
    assert!(is_in_field_of_view(heading, side, three_quarters));
    // 30 degrees off the heading is inside a cone of 45 degrees either way
    assert!(is_in_field_of_view(heading, Vector::new(866, 500, 0), quarter));
    // 60 degrees is not
    assert!(!is_in_field_of_view(heading, Vector::new(500, 866, 0), quarter));
    // 120 degrees is inside three quarters of the circle, 150 degrees is not
    assert!(is_in_field_of_view(heading, Vector::new(-500, 866, 0), three_quarters));
    assert!(!is_in_field_of_view(heading, Vector::new(-866, 500, 0), three_quarters));
    assert!(!is_in_field_of_view(heading, Vector::new(-50, 0, 0), three_quarters));
}

#[test]
fn view_test_is_exact_for_the_largest_components() {
    let heading = Vector::new(i32::MAX, i32::MAX, i32::MAX);
    let quarter = FieldOfView { cos_half_angle: COS_45_DEGREES };
    assert!(is_in_field_of_view(heading, Vector::new(i32::MAX, i32::MAX, i32::MAX), quarter));
    assert!(!is_in_field_of_view(heading, Vector::new(i32::MIN, i32::MIN, i32::MIN), quarter));
    assert!(!is_in_field_of_view(heading, Vector::new(i32::MAX, i32::MIN, 0), quarter));
}

#[test]
fn standing_agent_sees_all_around() {
    let quarter = FieldOfView { cos_half_angle: COS_45_DEGREES };
    assert!(is_in_field_of_view(Vector::new(0, 0, 0), Vector::new(-50, 0, 0), quarter));
}

#[test]
fn nearest_band_wins() {
    let settings = small_settings(FieldOfView::full());
    assert_eq!(band_by_distance(0, &settings), Some(Band::Separation));
    assert_eq!(band_by_distance(19 * 19, &settings), Some(Band::Separation));
    assert_eq!(band_by_distance(20 * 20, &settings), Some(Band::Alignment));
    assert_eq!(band_by_distance(29 * 29, &settings), Some(Band::Alignment));
    assert_eq!(band_by_distance(30 * 30, &settings), Some(Band::Cohesion));
    assert_eq!(band_by_distance(50 * 50 - 1, &settings), Some(Band::Cohesion));
    assert_eq!(band_by_distance(50 * 50, &settings), None);
}

#[test]
fn radius_that_is_not_positive_holds_nothing() {
    let mut settings = small_settings(FieldOfView::full());
    settings.separation_range = 0;
    settings.alignment_range = -5;
    assert_eq!(band_by_distance(0, &settings), Some(Band::Cohesion));
}

#[test]
fn classify_joins_view_and_distance() {
    let settings = small_settings(FieldOfView { cos_half_angle: COS_45_DEGREES });
    let position = Vector::new(100, 100, 0);
    let velocity = Vector::new(10, 0, 0);
    assert_eq!(classify(position, velocity, Vector::new(110, 100, 0), &settings), Some(Band::Separation));
    assert_eq!(classify(position, velocity, Vector::new(125, 100, 0), &settings), Some(Band::Alignment));
    assert_eq!(classify(position, velocity, Vector::new(140, 100, 0), &settings), Some(Band::Cohesion));
    assert_eq!(classify(position, velocity, Vector::new(150, 100, 0), &settings), None);
    assert_eq!(classify(position, velocity, Vector::new(90, 100, 0), &settings), None);
    assert_eq!(classify(position, velocity, Vector::new(i32::MAX, i32::MIN, 0), &settings), None);
}

#[test]
fn no_neighbor_is_in_two_bands() {
    let settings = small_settings(FieldOfView::full());
    let me = Boid::new(7, 0, Vector::new(0, 0, 0), Vector::new(10, 0, 0));
    let candidates = vec![
        neighbor(1, 5, 0),
        neighbor(2, 0, 25),
        neighbor(3, -45, 0),
        neighbor(4, 60, 0),
        neighbor(7, 0, 0),
        neighbor(5, 0, -19),
        neighbor(6, 30, 0),
    ];
    let sets = classify_neighbors(&me, &candidates, &settings);
    let separation: Vec<u64> = sets.separation.iter().map(|n| n.id).collect();
    let alignment: Vec<u64> = sets.alignment.iter().map(|n| n.id).collect();
    let cohesion: Vec<u64> = sets.cohesion.iter().map(|n| n.id).collect();
    assert_eq!(separation, vec![1, 5]);
    assert_eq!(alignment, vec![2]);
    assert_eq!(cohesion, vec![3, 6]);
    for id in 1..8u64 {
        let places = separation.iter().filter(|i| **i == id).count()
            + alignment.iter().filter(|i| **i == id).count()
            + cohesion.iter().filter(|i| **i == id).count();
        assert!(places <= 1);
    }
}

#[test]
fn self_is_left_out_by_identity_not_by_distance() {
    let settings = small_settings(FieldOfView::full());
    let me = Boid::new(7, 0, Vector::new(0, 0, 0), Vector::new(10, 0, 0));
    let candidates = vec![neighbor(7, 0, 0), neighbor(8, 0, 0)];
    let sets = classify_neighbors(&me, &candidates, &settings);
    assert_eq!(sets.separation.len(), 1);
    assert_eq!(sets.separation[0].id, 8);
    assert!(sets.alignment.is_empty());
    assert!(sets.cohesion.is_empty());
}

#[test]
fn unseen_neighbors_are_in_no_band() {
    let settings = small_settings(FieldOfView { cos_half_angle: COS_45_DEGREES });
    let me = Boid::new(7, 0, Vector::new(0, 0, 0), Vector::new(10, 0, 0));
    let candidates = vec![neighbor(1, -5, 0), neighbor(2, 0, 25), neighbor(3, 40, 0)];
    let sets = classify_neighbors(&me, &candidates, &settings);
    assert!(sets.separation.is_empty());
    assert!(sets.alignment.is_empty());
    assert_eq!(sets.cohesion.len(), 1);
    assert_eq!(sets.cohesion[0].id, 3);
}

#[test]
fn fish_flock_with_their_own_species_only() {
    let candidates = vec![
        Fish { neighbor: neighbor(1, 5, 0), species: Species::SmallFish },
        Fish { neighbor: neighbor(2, 6, 0), species: Species::LargeFish },
        Fish { neighbor: neighbor(3, 7, 0), species: Species::SmallFish },
        Fish { neighbor: neighbor(4, 8, 0), species: Species::MediumFish },
    ];
    let small: Vec<u64> = same_species(Species::SmallFish, &candidates).iter().map(|n| n.id).collect();
    assert_eq!(small, vec![1, 3]);
    assert_eq!(same_species(Species::LargeFish, &candidates), vec![neighbor(2, 6, 0)]);
    assert!(same_species(Species::MediumFish, &Vec::new()).is_empty());
}
