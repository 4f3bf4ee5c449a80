//! Whole-scene behavior: termination, emissive stops, the empty-scene sky,
//! aggregation, and the single-sphere scenario.

use raytracer::camera::{Camera, Resolution};
use raytracer::color::Color;
use raytracer::material::Material;
use raytracer::math::{fx_add, fx_mul, HALF, SCALE};
use raytracer::object::Object;
use raytracer::ray::Ray;
use raytracer::scene::{aggregate, RenderConfig, Scene};
use raytracer::shape::{Plane, Shape, Sphere};
use raytracer::vec3::Vec3;

fn fx(v: f64) -> i64 {
    (v * SCALE as f64).round() as i64
}

fn ambient() -> Color {
    Color::rgb(fx(0.1), fx(0.1), fx(0.4))
}

fn camera(w: u32, h: u32, vp_size: i64) -> Camera {
    Camera {
        resolution: Resolution { w, h },
        viewport: Plane {
            center: Vec3::new(0, 0, 0),
            size: Vec3::new(vp_size, vp_size, 0),
            dir: Vec3::new(SCALE, 0, 0),
        },
        focal_len: fx(1.5),
    }
}

fn emissive_sphere() -> Object {
    Object {
        shape: Shape::Sphere(Sphere { center: Vec3::new(fx(2.0), 0, 0), radius: fx(1.0) }),
        material: Material {
            roughness: 0,
            specularity: 0,
            color: Color::white(),
            luminosity: SCALE,
        },
    }
}

/// The sky color for a ray, computed from the library's own pieces.
fn sky_of(cam: &Camera, amb: Color, ray: &Ray) -> Color {
    let cos = ray.dir.cos_angle(&cam.viewport.dir);
    let angle = fx_add(fx_mul(cos, HALF), HALF);
    amb.with_lightness(SCALE - angle)
}

#[test]
fn trace_two_mirrors_terminates() {
    // two facing perfect mirrors: the ray bounces until the depth cutoff
    // and the result is the cutoff's black, after at most max_depth steps
    let mirror = Material {
        roughness: 0,
        specularity: SCALE,
        color: Color::white(),
        luminosity: 0,
    };
    let scene = Scene {
        camera: camera(2, 2, SCALE),
        objects: vec![
            Object {
                shape: Shape::Sphere(
                    Sphere { center: Vec3::new(fx(-3.0), 0, 0), radius: fx(1.0) },
                ),
                material: mirror,
            },
            Object {
                shape: Shape::Sphere(
                    Sphere { center: Vec3::new(fx(3.0), 0, 0), radius: fx(1.0) },
                ),
                material: mirror,
            },
        ],
    };
    let cfg = RenderConfig { max_depth: 6, samples_per_pixel: 1, ambient: ambient() };
    let ray = Ray { start: Vec3::new(0, 0, 0), dir: Vec3::new(SCALE, 0, 0) };

    let c = scene.ray_trace(&ray, 0, &cfg);

    assert_eq!(c, Some(Color::black()));
}

#[test]
fn emissive_fill_depth_invariant() {
    // a single emissive sphere filling the field of view: every pixel is
    // driven by its material and luminosity, and raising max_depth changes
    // nothing, because recursion stops at the first emissive hit
    let scene = Scene { camera: camera(3, 3, fx(0.5)), objects: vec![emissive_sphere()] };
    let shallow = RenderConfig { max_depth: 3, samples_per_pixel: 2, ambient: ambient() };
    let deep = RenderConfig { max_depth: 10, samples_per_pixel: 2, ambient: ambient() };

    let img1 = scene.render(&shallow);
    let img2 = scene.render(&deep);

    assert_eq!(img1.pixels.len(), 9);
    assert_eq!(img1.pixels, img2.pixels);
    for px in &img1.pixels {
        assert!(px.r > SCALE / 2 && px.g > SCALE / 2 && px.b > SCALE / 2);
    }
    // the center pixel sees the sphere head on: full emission
    assert_eq!(img1.pixels[4], Color::white());
}

#[test]
fn empty_scene_ambient() {
    // zero objects: every pixel is exactly the configured sky color of its
    // own camera ray
    let scene = Scene { camera: camera(2, 2, SCALE), objects: vec![] };
    let cfg = RenderConfig { max_depth: 4, samples_per_pixel: 3, ambient: ambient() };

    let img = scene.render(&cfg);

    assert_eq!(img.pixels.len(), 4);
    for j in 0..4usize {
        let x = (j % 2) as i64;
        let y = (j / 2) as i64;
        let cr = scene.camera.camera_ray(Vec3::new(x * SCALE, y * SCALE, 0));
        let expected = sky_of(&scene.camera, cfg.ambient, &cr);
        assert_eq!(img.pixels[j], expected);
        assert_eq!(img.pixels[j], Color::rgb(1398, 1398, 5593));
    }
}

#[test]
fn aggregate_mean() {
    // the running average stays within half a unit per sample of the
    // arithmetic mean of the samples
    let samples = vec![
        Color::rgb(fx(1.0), 0, fx(2.0)),
        Color::rgb(0, fx(1.0), fx(2.0)),
        Color::rgb(fx(0.5), 0, 0),
        Color::rgb(fx(0.25), fx(0.5), fx(1.0)),
    ];
    let sum_r: i64 = samples.iter().map(|c| c.r).sum();
    let sum_g: i64 = samples.iter().map(|c| c.g).sum();
    let sum_b: i64 = samples.iter().map(|c| c.b).sum();

    let avg = aggregate(&samples);

    assert!((avg.r * 4 - sum_r).abs() <= 6);
    assert!((avg.g * 4 - sum_g).abs() <= 6);
    assert!((avg.b * 4 - sum_b).abs() <= 6);
}

#[test]
fn aggregate_order_insensitive() {
    // folding the same samples in another order lands within tolerance of
    // the same mean
    let samples = vec![
        Color::rgb(fx(1.0), fx(0.125), fx(2.0)),
        Color::rgb(0, fx(1.0), fx(2.0)),
        Color::rgb(fx(0.5), fx(0.375), 0),
        Color::rgb(fx(0.25), fx(0.5), fx(1.0)),
        Color::rgb(fx(0.75), fx(0.625), fx(0.5)),
    ];
    let mut reversed = samples.clone();
    reversed.reverse();

    let a = aggregate(&samples);
    let b = aggregate(&reversed);

    // each is within (n-1)/2 = 2 units of the true mean, so within 4 units
    // of each other
    assert!((a.r - b.r).abs() <= 4);
    assert!((a.g - b.g).abs() <= 4);
    assert!((a.b - b.b).abs() <= 4);
}

#[test]
fn single_sphere_center_bright_off_axis_ambient() {
    // one emissive sphere ahead of the camera: the center pixel is
    // substantially brighter than black; a wide viewport's corner ray
    // points far off axis, misses, and lands exactly on the sky color
    let scene = Scene { camera: camera(3, 3, fx(40.0)), objects: vec![emissive_sphere()] };
    let cfg = RenderConfig { max_depth: 6, samples_per_pixel: 2, ambient: ambient() };

    let img = scene.render(&cfg);

    let center = img.pixels[4];
    assert!(center.r > SCALE / 2 && center.g > SCALE / 2 && center.b > SCALE / 2);
    let corner = img.pixels[0];
    let cr = scene.camera.camera_ray(Vec3::new(0, 0, 0));
    assert_eq!(corner, sky_of(&scene.camera, cfg.ambient, &cr));
    assert_eq!(corner, Color::rgb(48271, 48271, 193085));
}
