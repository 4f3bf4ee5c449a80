//! Exact values of the fixed-point scalar and color operations.

use raytracer::color::Color;
use raytracer::math::{approx_eq, fx_add, fx_div, fx_mul, fx_sqrt, sq_diff_root, EPS, SCALE};
use raytracer::ray::Ray;
use raytracer::vec3::Vec3;

fn fx(v: f64) -> i64 {
    (v * SCALE as f64).round() as i64
}

#[test]
fn scalar_products_and_quotients() {
    assert_eq!(fx_mul(fx(1.5), fx(2.0)), fx(3.0));
    assert_eq!(fx_mul(fx(-1.5), fx(2.0)), fx(-3.0));
    assert_eq!(fx_div(fx(1.0), fx(4.0)), fx(0.25));
    assert_eq!(fx_div(fx(-1.0), fx(4.0)), fx(-0.25));
    assert_eq!(fx_add(fx(0.5), fx(0.25)), fx(0.75));
}

#[test]
fn scalar_square_roots() {
    assert_eq!(fx_sqrt(fx(4.0)), fx(2.0));
    assert_eq!(fx_sqrt(fx(9.0)), fx(3.0));
    assert_eq!(fx_sqrt(0), 0);
    assert_eq!(fx_sqrt(-5), 0);
    // 3-4-5 triangle through the difference-of-squares helper
    assert_eq!(sq_diff_root(fx(5.0), fx(4.0)), fx(3.0));
    // a rounding-induced negative radicand is clipped, not undefined
    assert_eq!(sq_diff_root(fx(1.0), fx(2.0)), 0);
}

#[test]
fn scalar_approx_eq_tolerance() {
    assert!(approx_eq(fx(1.0), fx(1.0) + EPS));
    assert!(!approx_eq(fx(1.0), fx(1.0) + EPS + 1));
    assert!(approx_eq(fx(-2.0), fx(-2.0) - EPS));
}

#[test]
fn color_channel_arithmetic() {
    let c = Color::rgb(fx(3.0), fx(4.0), fx(5.0));
    assert_eq!(c.lightness(), fx(4.0));
    assert_eq!(c.min(), fx(3.0));
    assert_eq!(c.max(), fx(5.0));
    assert_eq!(c.chroma(), fx(2.0));
    let d = c.with_lightness(fx(0.5));
    assert_eq!(d, Color::rgb(fx(1.5), fx(2.0), fx(2.5)));
    let e = Color::rgb(-1000, 2 * SCALE, fx(0.5)).clamp();
    assert_eq!(e, Color::rgb(0, SCALE, fx(0.5)));
    let f = Color::rgb(fx(0.25), fx(0.5), fx(1.0)).mul_n(fx(2.0));
    assert_eq!(f, Color::rgb(fx(0.5), fx(1.0), fx(2.0)));
    let g = Color::rgb(fx(0.25), 0, fx(1.0)).add(Color::rgb(fx(0.25), fx(0.5), fx(1.0)));
    assert_eq!(g, Color::rgb(fx(0.5), fx(0.5), fx(2.0)));
    assert_eq!(Color::mono(fx(0.3)), Color::rgb(fx(0.3), fx(0.3), fx(0.3)));
    assert_eq!(Color::black(), Color::rgb(0, 0, 0));
    assert_eq!(Color::white(), Color::mono(SCALE));
}

#[test]
fn ray_parametrization() {
    let r = Ray { start: Vec3::new(fx(1.0), fx(1.0), fx(1.0)), dir: Vec3::new(0, SCALE, 0) };
    assert_eq!(r.with_param(fx(2.0)), Vec3::new(fx(1.0), fx(3.0), fx(1.0)));
    let o = r.offset(fx(0.5));
    assert_eq!(o.start, Vec3::new(fx(1.0), fx(1.5), fx(1.0)));
    assert_eq!(o.dir, r.dir);
}
