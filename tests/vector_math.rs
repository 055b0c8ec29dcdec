use ray_tracer::vec3::Vec3;

#[test]
fn test_addition() {
    let v1 = Vec3::new(0, 1, 2);
    let v2 = Vec3::new(0, 1, 2);
    let v3 = v1.add(&v2);
    assert_eq!(v3, Vec3::new(0, 2, 4));
}

#[test]
fn test_sub() {
    let v1 = Vec3::new(1, 2, 3);
    let v2 = Vec3::new(0, 1, 2);
    let v3 = v1.sub(&v2);
    assert_eq!(v3, Vec3::new(1, 1, 1));
}

#[test]
fn test_scalar_mult() {
    let v1 = Vec3::new(2, 3, 4);
    let v2 = v1.scale(2);
    assert_eq!(v2, Vec3::new(4, 6, 8));
}

#[test]
fn test_vec_mult() {
    let v1 = Vec3::new(2, 3, 4);
    let v2 = Vec3::new(2, 3, 4);
    let v3 = v1.mul(&v2);
    assert_eq!(v3, Vec3::new(4, 9, 16));
}

// Components are fixed-point here (1024 is one), so 0.5 is 512.
#[test]
fn test_div() {
    let v1 = Vec3::new(1024, 2048, 3072);
    let v2 = v1.div(2);
    assert_eq!(v2, Vec3::new(512, 1024, 1536));
}

#[test]
#[should_panic]
fn test_div_by_0() {
    let v1 = Vec3::new(1, 2, 3);
    let _v2 = v1.div(0);
}

// A unit vector has length 1024; 1024 / sqrt(3) rounds down to 591.
#[test]
fn test_normalize() {
    let v1 = Vec3::new(1, 1, 1);
    let v2 = v1.normalize();
    let v3 = Vec3::new(591, 591, 591);
    assert_eq!(v3, v2);
}

#[test]
fn normalize_zero_is_zero() {
    assert_eq!(Vec3::zero().normalize(), Vec3::zero());
}

#[test]
fn normalize_axis_has_unit_length() {
    assert_eq!(Vec3::new(0, 0, 5).normalize(), Vec3::new(0, 0, 1024));
    assert_eq!(Vec3::new(0, -7, 0).normalize(), Vec3::new(0, -1024, 0));
    let n = Vec3::new(3, 4, 12).normalize();
    let l = n.length_squared();
    assert!(l <= 1024 * 1024 && l >= 1020 * 1020);
}

#[test]
fn division_truncates_toward_zero() {
    assert_eq!(Vec3::new(-3, 3, 7).div(2), Vec3::new(-1, 1, 3));
    assert_eq!(Vec3::new(7, -7, 0).div(-2), Vec3::new(-3, 3, 0));
}

#[test]
fn cross_with_itself_is_zero() {
    let v = Vec3::new(3, -5, 7);
    assert_eq!(v.cross(&v), Vec3::zero());
    assert_eq!(Vec3::new(1, 0, 0).cross(&Vec3::new(0, 1, 0)), Vec3::new(0, 0, 1));
}

#[test]
fn dot_is_bilinear() {
    let a = Vec3::new(1, 2, 3);
    let b = Vec3::new(-4, 5, 6);
    let c = Vec3::new(7, 0, -2);
    assert_eq!(a.dot(&b), 24);
    assert_eq!(a.add(&b).dot(&c), a.dot(&c) + b.dot(&c));
    assert_eq!(a.scale(3).dot(&b), 3 * a.dot(&b));
    assert_eq!(a.dot(&b), b.dot(&a));
}

#[test]
fn addition_commutes_and_associates() {
    let a = Vec3::new(1, 2, 3);
    let b = Vec3::new(-4, 5, 6);
    let c = Vec3::new(7, 0, -2);
    assert_eq!(a.add(&b), b.add(&a));
    assert_eq!(a.add(&b).add(&c), a.add(&b.add(&c)));
    assert_eq!(a.add(&b).sub(&b), a);
}

#[test]
fn length_is_floor_of_euclidean_length() {
    assert_eq!(Vec3::new(3, 4, 0).length(), 5);
    assert_eq!(Vec3::new(1, 1, 1).length(), 1);
    assert_eq!(Vec3::new(3, 4, 0).length_squared(), 25);
}
