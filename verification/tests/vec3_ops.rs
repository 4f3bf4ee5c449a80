//! Vector operations: exact values, the normalization and double-reflection
//! properties, and the random unit direction.

use raytracer::math::{approx_eq, EPS, SCALE};
use raytracer::vec3::Vec3;

fn fx(v: f64) -> i64 {
    (v * SCALE as f64).round() as i64
}

#[test]
fn orth() {
    let v = Vec3::new(fx(1.0), 0, 0);
    let o = v.orth();
    assert!(v.mag() == o.mag())
}

#[test]
fn vector_exact_values() {
    let a = Vec3::new(fx(1.0), fx(2.0), fx(3.0));
    let b = Vec3::new(fx(4.0), fx(5.0), fx(6.0));
    assert_eq!(a.dot(&b), fx(32.0));
    assert_eq!(
        Vec3::new(SCALE, 0, 0).cross(&Vec3::new(0, SCALE, 0)),
        Vec3::new(0, 0, SCALE)
    );
    assert_eq!(Vec3::new(fx(3.0), fx(4.0), 0).mag(), fx(5.0));
    assert_eq!(a.add(b), Vec3::new(fx(5.0), fx(7.0), fx(9.0)));
    assert_eq!(b.sub(a), Vec3::new(fx(3.0), fx(3.0), fx(3.0)));
    assert_eq!(a.neg(), Vec3::new(fx(-1.0), fx(-2.0), fx(-3.0)));
    assert_eq!(a.mul(b), Vec3::new(fx(4.0), fx(10.0), fx(18.0)));
    assert_eq!(b.div(Vec3::diag(fx(2.0))), Vec3::new(fx(2.0), fx(2.5), fx(3.0)));
    assert_eq!(a.mul_n(fx(2.0)), Vec3::new(fx(2.0), fx(4.0), fx(6.0)));
    assert_eq!(Vec3::new(fx(-1.0), fx(2.0), fx(-3.0)).abs(), Vec3::new(fx(1.0), fx(2.0), fx(3.0)));
    assert!(approx_eq(a.dist(&b), fx(27.0f64.sqrt())));
    assert_eq!(Vec3::zero(), Vec3::new(0, 0, 0));
    assert_eq!(a.with_x(7).x, 7);
    assert_eq!(a.with_y(7).y, 7);
    assert_eq!(a.with_z(7).z, 7);
    // a zero vector normalizes to itself, never to an undefined value
    assert_eq!(Vec3::zero().norm(), Vec3::zero());
    // the cosine guard: zero magnitude gives zero, not a fault
    assert_eq!(Vec3::zero().cos_angle(&b), 0);
    assert_eq!(Vec3::new(SCALE, 0, 0).cos_angle(&Vec3::new(SCALE, 0, 0)), SCALE);
    assert_eq!(Vec3::new(SCALE, 0, 0).cos_angle(&Vec3::new(-SCALE, 0, 0)), -SCALE);
}

#[test]
fn rotations_quarter_turn() {
    // a quarter turn has cosine zero and sine one; the principal-axis
    // rotations then permute components exactly
    let cos: i64 = 0;
    let sin: i64 = SCALE;
    assert_eq!(Vec3::new(0, SCALE, 0).rotate_x(cos, sin), Vec3::new(0, 0, SCALE));
    assert_eq!(Vec3::new(0, 0, SCALE).rotate_y(cos, sin), Vec3::new(SCALE, 0, 0));
    assert_eq!(Vec3::new(SCALE, 0, 0).rotate_z(cos, sin), Vec3::new(0, SCALE, 0));
    // the arbitrary-axis rotation composes as
    // v*cos + cross(v, axis)*sin + axis*(dot(axis, v)*(1 - cos))
    let v = Vec3::new(SCALE, 0, 0);
    let axis = Vec3::new(0, 0, SCALE);
    assert_eq!(v.rotate_around(cos, sin, &axis), Vec3::new(0, -SCALE, 0));
    // half-angle cosine and sine of a 60-degree turn, within tolerance
    let c60: i64 = fx(0.5);
    let s60: i64 = fx(0.75f64.sqrt());
    let r = Vec3::new(SCALE, 0, 0).rotate_z(c60, s60);
    assert!(r.approx_eq(&Vec3::new(fx(0.5), fx(0.75f64.sqrt()), 0)));
}

#[test]
fn norm_unit_magnitude() {
    // normalizing a non-zero vector yields magnitude one within 0.01
    let cases = [
        Vec3::new(fx(3.0), fx(4.0), 0),
        Vec3::new(fx(0.001), fx(-0.002), fx(0.0005)),
        Vec3::new(fx(-123.0), fx(456.0), fx(789.0)),
        Vec3::new(1024, 0, 0),
        Vec3::new(fx(10000.0), fx(-10000.0), fx(10000.0)),
    ];
    for v in cases {
        assert!(approx_eq(v.norm().mag(), SCALE));
    }
}

#[test]
fn reflect_involution() {
    // reflecting twice about the same unit normal is the identity within 0.01
    let n1 = Vec3::new(0, SCALE, 0);
    let n2 = Vec3::new(fx(1.0), fx(1.0), 0).norm();
    let n3 = Vec3::new(fx(-0.3), fx(0.5), fx(0.9)).norm();
    let cases = [
        Vec3::new(fx(0.3), fx(-0.7), fx(0.2)),
        Vec3::new(fx(5.0), fx(2.0), fx(-3.0)),
        Vec3::new(fx(-1.0), fx(-1.0), fx(-1.0)),
    ];
    for n in [n1, n2, n3] {
        for v in cases {
            let twice = v.reflect(&n).reflect(&n);
            assert!(twice.approx_eq(&v));
        }
    }
}

#[test]
fn random_unit_magnitude() {
    // the random direction is unit-length within tolerance, every draw
    for _ in 0..50 {
        let v = Vec3::random_unit();
        assert!((v.mag() - SCALE).abs() <= EPS);
    }
}
