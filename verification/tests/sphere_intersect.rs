//! Sphere intersection and reflection scenarios.

use raytracer::math::{approx_eq, SCALE};
use raytracer::ray::Ray;
use raytracer::shape::Sphere;
use raytracer::vec3::Vec3;

fn fx(v: f64) -> i64 {
    (v * SCALE as f64).round() as i64
}

#[test]
fn not_intersect_other_direction() {
    let s = Sphere { center: Vec3::new(fx(2.0), 0, fx(1.0)), radius: fx(1.0) };
    let r = Ray { start: Vec3::new(0, 0, fx(1.0)), dir: Vec3::new(fx(-1.0), 0, 0) };

    let ray = s.reflect(&r);

    assert!(ray.is_none())
}

#[test]
fn not_intersect_far() {
    let s = Sphere { center: Vec3::new(fx(2.0), 0, fx(1.0)), radius: fx(1.0) };
    let r = Ray {
        start: Vec3::new(0, 0, fx(1.0)),
        dir: Vec3::new(fx(1.0), fx(1.0), 0).norm(),
    };

    let ray = s.reflect(&r);

    assert!(ray.is_none())
}

#[test]
fn intersect_touch() {
    let s = Sphere { center: Vec3::new(fx(2.0), 0, fx(1.0)), radius: fx(1.0) };
    let r = Ray { start: Vec3::new(0, fx(1.0), fx(1.0)), dir: Vec3::new(fx(1.0), 0, 0) };

    let ray = s.reflect(&r);

    assert!(ray.unwrap().0.start.approx_eq(&Vec3::new(fx(2.0), fx(1.0), fx(1.0))))
}

#[test]
fn intersect_through() {
    let s = Sphere { center: Vec3::new(fx(2.0), 0, fx(1.0)), radius: fx(1.0) };
    let r = Ray { start: Vec3::new(0, 0, fx(1.0)), dir: Vec3::new(fx(1.0), 0, 0) };

    let ray = s.reflect(&r);

    assert!(ray.unwrap().0.start.approx_eq(&Vec3::new(fx(1.0), 0, fx(1.0))));
}

#[test]
fn reflect_touch() {
    let s = Sphere { center: Vec3::new(fx(2.0), 0, fx(1.0)), radius: fx(1.0) };
    let r = Ray { start: Vec3::new(0, fx(1.0), fx(1.0)), dir: Vec3::new(fx(1.0), 0, 0) };

    let ray = s.reflect(&r).unwrap();

    assert!(ray.0.dir.approx_eq(&Vec3::new(fx(1.0), 0, 0)))
}

#[test]
fn reflect_through() {
    let s = Sphere { center: Vec3::new(fx(2.0), 0, fx(1.0)), radius: fx(1.0) };
    let r = Ray { start: Vec3::new(0, 0, fx(1.0)), dir: Vec3::new(fx(1.0), 0, 0) };

    let ray = s.reflect(&r).unwrap();

    assert!(ray.0.dir.approx_eq(&Vec3::new(fx(-1.0), 0, 0)));
}

#[test]
fn reflect_diag() {
    let s = Sphere { center: Vec3::new(fx(2.0), 0, fx(1.0)), radius: fx(1.0) };
    let r = Ray {
        start: Vec3::new(0, fx((std::f64::consts::PI / 4.0).cos()), fx(1.0)),
        dir: Vec3::new(fx(1.0), 0, 0),
    };

    let ray = s.reflect(&r).unwrap();

    assert!(ray.0.dir.approx_eq(&Vec3::new(0, fx(1.0), 0)));
}

#[test]
fn sphere_head_on_distance() {
    // a ray aimed straight at the center from outside hits at a distance of
    // |origin - center| - radius, with the normal parallel to hit - center
    let s = Sphere { center: Vec3::new(fx(5.0), 0, 0), radius: fx(1.0) };
    let r = Ray { start: Vec3::new(0, 0, 0), dir: Vec3::new(fx(1.0), 0, 0) };

    let (hit, normal) = s.reflect(&r).unwrap();

    let d = r.start.dist(&hit.start);
    assert!(approx_eq(d, fx(4.0)));
    assert_eq!(d, fx(4.0));
    assert_eq!(hit.start, Vec3::new(fx(4.0), 0, 0));
    assert_eq!(normal, Vec3::new(fx(-1.0), 0, 0));
    assert_eq!(normal, hit.start.sub(s.center).norm());
}

#[test]
fn sphere_tangent_single_point() {
    // perpendicular distance equal to the radius: exactly one hit point,
    // the foot of the perpendicular, with a half-chord of zero
    let s = Sphere { center: Vec3::new(0, fx(1.0), 0), radius: fx(1.0) };
    let r = Ray { start: Vec3::new(0, 0, 0), dir: Vec3::new(fx(1.0), 0, 0) };

    let (hit, _) = s.reflect(&r).unwrap();

    assert_eq!(hit.start, Vec3::new(0, 0, 0));
}
