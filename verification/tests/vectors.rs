use verlet_physics::vec2::Vec2;

#[test]
fn new_and_fields() {
    let v = Vec2::new(1500, -2500);
    assert_eq!(v.x, 1500);
    assert_eq!(v.y, -2500);
}

#[test]
fn add_and_subtract() {
    let a = Vec2::new(1000, 2000);
    let b = Vec2::new(-300, 500);
    let s = a.add(&b);
    assert_eq!(s.x, 700);
    assert_eq!(s.y, 2500);
    let d = a.subtract(&b);
    assert_eq!(d.x, 1300);
    assert_eq!(d.y, 1500);
}

#[test]
fn multiply_is_fixed_point() {
    // 1.5 * (2.0, 3.0) = (3.0, 4.5)
    let v = Vec2::new(2000, 3000);
    let r = v.multiply(1500);
    assert_eq!(r.x, 3000);
    assert_eq!(r.y, 4500);
}

#[test]
fn multiply_truncates_toward_zero() {
    // -0.005 * 0.5 = -0.0025, truncated toward zero to -0.002
    let v = Vec2::new(-5, 5);
    let r = v.multiply(500);
    assert_eq!(r.x, -2);
    assert_eq!(r.y, 2);
}

#[test]
fn divide_by_positive() {
    // (1.0, 1.5) / 2.0 = (0.5, 0.75)
    let v = Vec2::new(1000, 1500);
    let r = v.divide(2000);
    assert_eq!(r.x, 500);
    assert_eq!(r.y, 750);
}

#[test]
fn divide_by_negative() {
    let v = Vec2::new(1000, -2000);
    let r = v.divide(-2000);
    assert_eq!(r.x, -500);
    assert_eq!(r.y, 1000);
}

#[test]
fn divide_by_zero_gives_zero_vector() {
    let v = Vec2::new(12345, -6789);
    let r = v.divide(0);
    assert_eq!(r.x, 0);
    assert_eq!(r.y, 0);
}

#[test]
fn magnitude_pythagorean() {
    // |(3.0, 4.0)| = 5.0
    let v = Vec2::new(3000, 4000);
    assert_eq!(v.magnitude(), 5000);
}

#[test]
fn magnitude_rounds_down() {
    // |(1.0, 1.0)| = 1.41421..., integer square root gives 1.414
    let v = Vec2::new(1000, 1000);
    assert_eq!(v.magnitude(), 1414);
}

#[test]
fn magnitude_zero_only_for_zero() {
    assert_eq!(Vec2::new(0, 0).magnitude(), 0);
    assert!(Vec2::new(0, 1).magnitude() > 0);
    assert!(Vec2::new(-1, 0).magnitude() > 0);
}

#[test]
fn normalize_unit_vector() {
    // (3.0, 4.0) normalized is (0.6, 0.8)
    let v = Vec2::new(3000, 4000);
    let n = v.normalize();
    assert_eq!(n.x, 600);
    assert_eq!(n.y, 800);
}

#[test]
fn normalize_zero_gives_zero_vector() {
    let n = Vec2::new(0, 0).normalize();
    assert_eq!(n.x, 0);
    assert_eq!(n.y, 0);
}
