use flocking::settings::{BoidSettings, BoundaryMode, FieldOfView, GroupsTargets, Species};
use flocking::settings::{COS_45_DEGREES, COS_SCALE};
use flocking::vector::{Vector, UNIT};

#[test]
fn default_is_the_flock_in_space() {
    let s = BoidSettings::default();
    assert_eq!(s.count, 2000);
    assert_eq!(s.previous_count, 2000);
    assert_eq!(s.cohesion_range, 50 * UNIT);
    assert_eq!(s.alignment_range, 30 * UNIT);
    assert_eq!(s.separation_range, 20 * UNIT);
    assert_eq!(s.min_distance_between_boids, 20 * UNIT);
    assert_eq!(s.cohesion_coeff, 20 * UNIT);
    assert_eq!(s.alignment_coeff, 5 * UNIT);
    assert_eq!(s.separation_coeff, 20 * UNIT);
    assert_eq!(s.collision_coeff, 24 * UNIT);
    assert_eq!(s.attraction_coeff, UNIT);
    assert_eq!(s.min_speed, 50 * UNIT);
    assert_eq!(s.max_speed, 300 * UNIT);
    assert_eq!(s.field_of_view, FieldOfView { cos_half_angle: COS_45_DEGREES });
    assert_eq!(s.boundary_mode, BoundaryMode::SoftSteer);
    assert_eq!(s.query_range(), 50 * UNIT);
}

#[test]
fn presets_differ_where_they_should() {
    let space = BoidSettings::default();
    let plane = BoidSettings::planar();
    assert_eq!(plane.min_speed, 500 * UNIT);
    assert_eq!(plane.max_speed, 1000 * UNIT);
    assert_eq!(BoidSettings { min_speed: space.min_speed, max_speed: space.max_speed, ..plane }, space);
    let sky = BoidSettings::sky();
    assert_eq!(sky.count, 1000);
    assert_eq!(sky.min_distance_between_boids, 50 * UNIT);
    assert_eq!(sky.max_speed, 150 * UNIT);
    let water = BoidSettings::underwater();
    assert_eq!(water.count, 500);
    assert_eq!(water.cohesion_range, 30 * UNIT);
    assert_eq!(water.alignment_range, 20 * UNIT);
    assert_eq!(water.separation_range, 15 * UNIT);
    assert_eq!(water.cohesion_coeff, 15 * UNIT);
    assert_eq!(water.alignment_coeff, 4 * UNIT);
    assert_eq!(water.collision_coeff, 20 * UNIT);
    assert_eq!(water.field_of_view, FieldOfView { cos_half_angle: -COS_45_DEGREES });
}

#[test]
fn species_have_their_school_sizes_and_speeds() {
    let small = Species::SmallFish.get_settings();
    assert_eq!((small.count, small.min_speed, small.max_speed), (200, 30 * UNIT, 300 * UNIT));
    let medium = Species::MediumFish.get_settings();
    assert_eq!((medium.count, medium.min_speed, medium.max_speed), (100, 20 * UNIT, 100 * UNIT));
    let large = Species::LargeFish.get_settings();
    assert_eq!((large.count, large.min_speed, large.max_speed), (50, 20 * UNIT, 50 * UNIT));
    assert_eq!(small.cohesion_range, 50 * UNIT);
    assert_eq!(Species::SmallFish.school_count(), 10);
    assert_eq!(Species::MediumFish.school_count(), 5);
    assert_eq!(Species::LargeFish.school_count(), 3);
    assert_eq!(Species::default(), Species::SmallFish);
}

#[test]
fn field_of_view_is_kept_between_no_view_and_full_view() {
    assert_eq!(FieldOfView::full().cos_half_angle, -COS_SCALE);
    assert_eq!(FieldOfView::from_cos_half_angle(5).cos_half_angle, 5);
    assert_eq!(FieldOfView::from_cos_half_angle(i32::MAX).cos_half_angle, COS_SCALE);
    assert_eq!(FieldOfView::from_cos_half_angle(i32::MIN).cos_half_angle, -COS_SCALE);
}

#[test]
fn query_range_is_the_largest_radius() {
    let mut s = BoidSettings::default();
    s.separation_range = 700;
    s.alignment_range = 30;
    s.cohesion_range = 50;
    assert_eq!(s.query_range(), 700);
    s.alignment_range = 900;
    assert_eq!(s.query_range(), 900);
}

#[test]
fn targets_are_looked_up_by_group() {
    let targets = GroupsTargets { targets: vec![Vector::new(1, 2, 3), Vector::new(4, 5, 6)] };
    assert_eq!(targets.target_of(0), Some(Vector::new(1, 2, 3)));
    assert_eq!(targets.target_of(1), Some(Vector::new(4, 5, 6)));
    assert_eq!(targets.target_of(2), None);
    assert_eq!(GroupsTargets::none().target_of(0), None);
}
