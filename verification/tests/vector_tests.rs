use flocking::arith::{integer_sqrt, integer_sqrt_ceil, saturate};
use flocking::vector::{rescale, Vector};

#[test]
fn integer_sqrt_rounds_down() {
    assert_eq!(integer_sqrt(0), 0);
    assert_eq!(integer_sqrt(1), 1);
    assert_eq!(integer_sqrt(24), 4);
    assert_eq!(integer_sqrt(25), 5);
    assert_eq!(integer_sqrt(26), 5);
    assert_eq!(integer_sqrt(u128::MAX), u64::MAX);
}

#[test]
fn integer_sqrt_ceil_rounds_up() {
    assert_eq!(integer_sqrt_ceil(0), 0);
    assert_eq!(integer_sqrt_ceil(25), 5);
    assert_eq!(integer_sqrt_ceil(26), 6);
}

#[test]
fn saturate_clamps_into_component_range() {
    assert_eq!(saturate(5), 5);
    assert_eq!(saturate(1 << 40), i32::MAX);
    assert_eq!(saturate(-(1 << 40)), i32::MIN);
}

#[test]
fn rescale_keeps_direction_and_length() {
    let v = rescale(3, 4, 0, 500);
    assert_eq!(v, Vector::new(300, 400, 0));
    let w = rescale(-1, 0, 0, 7);
    assert_eq!(w, Vector::new(-7, 0, 0));
}
