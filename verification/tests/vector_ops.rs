use raytracer::fixed::SCALE;
use raytracer::vector::{cross, dot, near_zero, reflect, Vector3};

fn v(x: i128, y: i128, z: i128) -> Vector3 {
    Vector3::new(x, y, z)
}

#[test]
fn new_stores_components() {
    let a = v(SCALE, 2 * SCALE, 3 * SCALE);
    assert_eq!(a.x, SCALE);
    assert_eq!(a.y, 2 * SCALE);
    assert_eq!(a.z, 3 * SCALE);
}

#[test]
fn add_sub_componentwise() {
    let a = v(SCALE, 0, -SCALE);
    let b = v(SCALE, SCALE, SCALE);
    assert_eq!(a.add(b), v(2 * SCALE, SCALE, 0));
    assert_eq!(a.sub(b), v(0, -SCALE, -2 * SCALE));
}

#[test]
fn mul_is_fixed_point() {
    let a = v(2 * SCALE, SCALE / 2, -3 * SCALE);
    let b = v(SCALE / 2, SCALE / 2, SCALE);
    assert_eq!(a.mul(b), v(SCALE, SCALE / 4, -3 * SCALE));
}

#[test]
fn scale_and_div() {
    let a = v(SCALE, 2 * SCALE, -4 * SCALE);
    assert_eq!(a.scale(SCALE / 2), v(SCALE / 2, SCALE, -2 * SCALE));
    assert_eq!(a.div(2 * SCALE), v(SCALE / 2, SCALE, -2 * SCALE));
}

#[test]
fn div_by_zero_returns_vector_unchanged() {
    let a = v(SCALE, -2 * SCALE, 7);
    assert_eq!(a.div(0), a);
}

#[test]
fn length_squared_exact() {
    let a = v(2 * SCALE, 2 * SCALE, 2 * SCALE);
    assert_eq!(a.length_squared(), 12 * SCALE);
}

#[test]
fn length_of_222() {
    let a = v(2 * SCALE, 2 * SCALE, 2 * SCALE);
    assert_eq!(a.length(), 3_464_101_615);
}

#[test]
fn into_unit_of_zero_is_zero() {
    let a = v(0, 0, 0);
    assert_eq!(a.into_unit(), a);
}

#[test]
fn into_unit_of_ones() {
    let a = v(SCALE, SCALE, SCALE).into_unit();
    assert_eq!(a, v(577_350_269, 577_350_269, 577_350_269));
}

#[test]
fn unit_length_squared_within_epsilon() {
    // length^2 of a normalized vector stays within 1e-8 of one
    let cases = [
        v(SCALE, SCALE, SCALE),
        v(3 * SCALE, 4 * SCALE, 0),
        v(-5 * SCALE, 2 * SCALE, 9 * SCALE),
        v(1_234_567_890, -987_654_321, 5_555_555_555),
    ];
    for a in cases {
        let u = a.into_unit();
        let l2 = u.length_squared();
        assert!((l2 - SCALE).abs() <= 10, "length squared {l2}");
    }
}

#[test]
fn neg_flips_signs() {
    assert_eq!(v(SCALE, SCALE, -2 * SCALE).neg(), v(-SCALE, -SCALE, 2 * SCALE));
}

#[test]
fn dot_products() {
    assert_eq!(dot(v(SCALE, SCALE, SCALE), v(SCALE, SCALE, SCALE)), 3 * SCALE);
    assert_eq!(dot(v(0, 0, 0), v(SCALE, SCALE, SCALE)), 0);
    assert_eq!(dot(v(-SCALE, SCALE, 0), v(SCALE, SCALE, 42 * SCALE)), 0);
    assert_eq!(dot(v(3 * SCALE, 4 * SCALE, 0), v(SCALE, SCALE, SCALE)), 7 * SCALE);
}

#[test]
fn cross_products() {
    assert_eq!(
        cross(v(-SCALE, SCALE, 0), v(SCALE, SCALE, 42 * SCALE)),
        v(42 * SCALE, 42 * SCALE, -2 * SCALE)
    );
    assert_eq!(cross(v(SCALE, SCALE, SCALE), v(SCALE, SCALE, SCALE)), v(0, 0, 0));
}

#[test]
fn near_zero_threshold() {
    assert!(near_zero(v(5, -9, 9)));
    assert!(!near_zero(v(10, 0, 0)));
    assert!(!near_zero(v(0, 0, -SCALE)));
}

#[test]
fn reflect_formula_exact() {
    // the un-normalized reflect formula: (1,-1,0) about (0,1,0) is (1,1,0)
    let r = reflect(v(SCALE, -SCALE, 0), v(0, SCALE, 0));
    assert_eq!(r, v(SCALE, SCALE, 0));
}

#[test]
fn reflect_dot_flips_sign() {
    let a = v(SCALE, -SCALE, 0);
    let n = v(0, SCALE, 0);
    let r = reflect(a, n);
    assert_eq!(dot(r, n), -dot(a, n));
}

#[test]
fn reflect_twice_restores() {
    let a = v(SCALE, -SCALE, 0);
    let n = v(0, SCALE, 0);
    assert_eq!(reflect(reflect(a, n), n), a);
}
