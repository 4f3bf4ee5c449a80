//! The scene and the light-transport core: closest-hit search, recursive
//! path tracing, multi-sample aggregation, and the parallel render.

use vstd::prelude::*;

use rayon::iter::{IntoParallelIterator, ParallelIterator};

use crate::camera::Camera;
use crate::color::Color;
use crate::image::Image;
use crate::material::Material;
use crate::math::{fmul, fx_add, fx_mul, sat, sat_i64, tdiv, tdiv_i128, FX_MAX, HALF, SCALE};
use crate::object::Object;
use crate::ray::Ray;
use crate::vec3::Vec3;

verus! {

/// Render-wide settings, threaded explicitly instead of global constants.
#[derive(Clone, Copy, Debug, PartialEq, Eq, Structural)]
pub struct RenderConfig {
    /// The energy cutoff: paths deeper than this return black.
    pub max_depth: usize,
    /// Camera rays traced and averaged per pixel.
    pub samples_per_pixel: usize,
    /// The sky color an escaping ray samples.
    pub ambient: Color,
}

impl RenderConfig {
    pub open spec fn wf(self) -> bool {
        0 < self.max_depth <= 4096 && 0 < self.samples_per_pixel <= 1000000 && self.ambient.wf()
    }
}

/// The stylized sky term an escaping ray returns: the ambient color scaled
/// down as the ray's direction aligns with the camera's viewport direction.
pub open spec fn spec_sky(cam_dir: Vec3, ambient: Color, ray: Ray) -> Color {
    let angle = sat(fmul(ray.dir.spec_cos_angle(cam_dir), HALF as int) + HALF);
    ambient.spec_with_lightness(sat(SCALE - angle))
}

/// The color an emissive surface returns: its material color scaled by its
/// luminosity and by the incidence of the arriving ray on the normal.
pub open spec fn spec_emit(m: Material, normal: Vec3, ray: Ray) -> Color {
    let angle = sat(fmul(ray.dir.spec_neg().spec_cos_angle(normal), HALF as int) + HALF);
    m.color.spec_with_lightness(fmul(m.luminosity as int, angle))
}

/// The scatter composition: the surface tints the arriving light with its
/// own color, blended against an unchanged mirror share by specularity.
pub open spec fn spec_compose(m: Material, incoming: Color) -> Color {
    m.color.spec_with_lightness(incoming.spec_lightness()).spec_mul_n(
        SCALE - m.specularity as int,
    ).spec_add(incoming.spec_mul_n(m.specularity as int))
}

/// One step of the running average after `k` samples are already folded in.
pub open spec fn avg_step(avg: Color, c: Color, k: int) -> Color {
    Color {
        r: sat(tdiv(avg.r * k + c.r, k + 1)) as i64,
        g: sat(tdiv(avg.g * k + c.g, k + 1)) as i64,
        b: sat(tdiv(avg.b * k + c.b, k + 1)) as i64,
    }
}

/// The running average of the first `n` samples, folded in order from black.
pub open spec fn run_avg_prefix(s: Seq<Color>, n: int) -> Color
    decreases n,
{
    if n <= 0 {
        Color::spec_black()
    } else {
        avg_step(run_avg_prefix(s, n - 1), s[n - 1], n - 1)
    }
}

/// The running average of a whole sample sequence.
pub open spec fn run_avg(s: Seq<Color>) -> Color {
    run_avg_prefix(s, s.len() as int)
}

/// The running average of a prefix reads nothing past the prefix.
pub proof fn lemma_run_avg_prefix_ext(s1: Seq<Color>, s2: Seq<Color>, n: int)
    requires
        n <= s1.len(),
        n <= s2.len(),
        forall|i: int| 0 <= i < n ==> s1[i] == s2[i],
    ensures
        run_avg_prefix(s1, n) == run_avg_prefix(s2, n),
    decreases n,
{
    if n > 0 {
        lemma_run_avg_prefix_ext(s1, s2, n - 1);
    }
}

/// Fold samples into their running average, the order-insensitive-within-
/// rounding combination the renderer uses per pixel.
pub fn aggregate(samples: &Vec<Color>) -> (c: Color)
    requires
        samples@.len() <= 1000000,
    ensures
        c == run_avg(samples@),
        c.wf(),
{
    let mut avg: Color = Color::black();
    let mut k: usize = 0;
    while k < samples.len()
        invariant
            k <= samples@.len() <= 1000000,
            avg == run_avg_prefix(samples@, k as int),
            avg.wf(),
        decreases samples@.len() - k,
    {
        let c: Color = samples[k];
        avg = avg_fold(avg, c, k);
        k = k + 1;
    }
    avg
}

/// One executable running-average step.
fn avg_fold(avg: Color, c: Color, k: usize) -> (r: Color)
    requires
        avg.wf(),
        k <= 1000000,
    ensures
        r == avg_step(avg, c, k as int),
        r.wf(),
{
    let kk: i128 = k as i128;
    proof {
        assert(-0x10000000000000000000000 <= (avg.r as int) * (k as int)
            <= 0x10000000000000000000000 && -0x10000000000000000000000 <= (avg.g as int) * (
        k as int) <= 0x10000000000000000000000 && -0x10000000000000000000000 <= (avg.b as int) * (
        k as int) <= 0x10000000000000000000000) by (nonlinear_arith)
            requires
                -0x10000000000 <= avg.r <= 0x10000000000,
                -0x10000000000 <= avg.g <= 0x10000000000,
                -0x10000000000 <= avg.b <= 0x10000000000,
                0 <= k <= 1000000,
        ;
    }
    Color {
        r: sat_i64(tdiv_i128(avg.r as i128 * kk + c.r as i128, kk + 1)),
        g: sat_i64(tdiv_i128(avg.g as i128 * kk + c.g as i128, kk + 1)),
        b: sat_i64(tdiv_i128(avg.b as i128 * kk + c.b as i128, kk + 1)),
    }
}

/// A scene: one camera and an ordered object sequence, immutable for the
/// whole render so parallel workers share it read-only.
#[derive(Debug)]
pub struct Scene {
    pub camera: Camera,
    pub objects: Vec<Object>,
}

impl Scene {
    pub open spec fn wf(self) -> bool {
        self.camera.wf() && forall|i: int|
            0 <= i < self.objects@.len() ==> (#[trigger] self.objects@[i]).wf()
    }

    /// The closest hit among the first `n` objects: the smallest hit-point
    /// distance from the ray origin wins, the earliest object wins exact
    /// ties.  The triple is the object index, the surface normal, and the
    /// mirrored ray from the hit point.
    pub open spec fn spec_closest_prefix(self, ray: Ray, n: int) -> Option<(int, Vec3, Ray)>
        decreases n,
    {
        if n <= 0 {
            Option::None
        } else {
            let prev = self.spec_closest_prefix(ray, n - 1);
            match self.objects@[n - 1].shape.spec_reflect(ray) {
                Option::None => prev,
                Option::Some(hit) => match prev {
                    Option::None => Option::Some((n - 1, hit.1, hit.0)),
                    Option::Some(p) => {
                        if ray.start.spec_dist(hit.0.start) < ray.start.spec_dist(p.2.start) {
                            Option::Some((n - 1, hit.1, hit.0))
                        } else {
                            prev
                        }
                    },
                },
            }
        }
    }

    /// The closest hit over the whole object sequence.
    pub open spec fn spec_closest(self, ray: Ray) -> Option<(int, Vec3, Ray)> {
        self.spec_closest_prefix(ray, self.objects@.len() as int)
    }

    /// Scan all objects for the hit nearest the ray's origin.
    #[verifier::rlimit(100)]
    pub fn reflect(&self, ray: &Ray) -> (res: Option<(usize, Vec3, Ray)>)
        requires
            self.wf(),
            ray.wf(),
        ensures
            ({
                let sp = self.spec_closest(*ray);
                match res {
                    Option::None => sp is None,
                    Option::Some(t) => sp == Option::Some((t.0 as int, t.1, t.2))
                        && t.0 < self.objects@.len() && t.1.wf() && t.2.wf(),
                }
            }),
    {
        let mut best: Option<(usize, Vec3, Ray)> = None;
        let mut best_d: i64 = 0;
        let mut i: usize = 0;
        while i < self.objects.len()
            invariant
                self.wf(),
                ray.wf(),
                i <= self.objects@.len(),
                ({
                    let sp = self.spec_closest_prefix(*ray, i as int);
                    match best {
                        Option::None => sp is None,
                        Option::Some(t) => sp == Option::Some((t.0 as int, t.1, t.2))
                            && t.0 < i && t.1.wf() && t.2.wf() && best_d as int
                            == ray.start.spec_dist(t.2.start),
                    }
                }),
            decreases self.objects@.len() - i,
        {
            let o: &Object = &self.objects[i];
            match o.shape.reflect(ray) {
                Option::Some((rr, nn)) => {
                    let d: i64 = ray.start.dist(&rr.start);
                    let replace: bool = match best {
                        Option::None => true,
                        Option::Some(_) => d < best_d,
                    };
                    if replace {
                        best = Some((i, nn, rr));
                        best_d = d;
                    }
                },
                Option::None => {},
            }
            i = i + 1;
        }
        best
    }

    /// What every tracer result satisfies at a given depth: black at the
    /// cutoff; the exact sky color when the ray escapes; the exact emission
    /// color at a light source; otherwise the composition of the material
    /// with some in-range result of the next depth, whose value turns on the
    /// random scatter direction.
    pub open spec fn trace_post(self, cfg: RenderConfig, ray: Ray, depth: int, c: Color) -> bool {
        if depth >= cfg.max_depth {
            c == Color::spec_black()
        } else {
            match self.spec_closest(ray) {
                Option::None => c == spec_sky(self.camera.viewport.dir, cfg.ambient, ray),
                Option::Some(hit) => {
                    let m = self.objects@[hit.0].material;
                    if m.luminosity > 0 {
                        c == spec_emit(m, hit.1, ray)
                    } else {
                        exists|inner: Color| inner.wf() && c == #[trigger] spec_compose(m, inner)
                    }
                },
            }
        }
    }

    /// Trace one ray: recursion is bounded by the depth cutoff, and every
    /// result satisfies `trace_post` at the starting depth.
    #[verifier::rlimit(60)]
    pub fn ray_trace(&self, ray: &Ray, depth: usize, cfg: &RenderConfig) -> (res: Option<Color>)
        requires
            self.wf(),
            ray.wf(),
            cfg.wf(),
        ensures
            res is Some,
            res matches Option::Some(c) ==> self.trace_post(*cfg, *ray, depth as int, c) && c.wf(),
        decreases cfg.max_depth - depth,
    {
        if depth >= cfg.max_depth {
            return Some(Color::black());
        }
        match self.reflect(ray) {
            Option::Some((idx, ref_n, ref_r)) => {
                let m: Material = self.objects[idx].material;
                if m.luminosity > 0 {
                    let cos: i64 = ray.dir.neg().cos_angle(&ref_n);
                    let angle: i64 = fx_add(fx_mul(cos, HALF), HALF);
                    Some(m.color.with_lightness(fx_mul(m.luminosity, angle)))
                } else {
                    let perturb: Vec3 = Vec3::random_unit().mul_n(m.roughness);
                    let next_dir: Vec3 = ref_r.dir.add(perturb).norm();
                    let next: Ray = Ray { start: ref_r.start, dir: next_dir };
                    match self.ray_trace(&next, depth + 1, cfg) {
                        Option::Some(inner) => {
                            let tinted: Color = m.color.with_lightness(inner.lightness()).mul_n(
                                SCALE - m.specularity,
                            );
                            let out: Color = tinted.add(inner.mul_n(m.specularity));
                            proof {
                                assert(inner.wf() && out == spec_compose(m, inner));
                            }
                            Some(out)
                        },
                        Option::None => {
                            proof {
                                assert(false);
                            }
                            Some(Color::black())
                        },
                    }
                }
            },
            Option::None => {
                let cos: i64 = ray.dir.cos_angle(&self.camera.viewport.dir);
                let angle: i64 = fx_add(fx_mul(cos, HALF), HALF);
                Some(cfg.ambient.with_lightness(sat_i64(SCALE as i128 - angle as i128)))
            },
        }
    }

    /// The camera ray through the center of the pixel at flat index `idx`.
    pub open spec fn spec_pixel_ray(self, idx: int) -> Ray {
        let w = self.camera.resolution.w as int;
        self.camera.spec_camera_ray(
            Vec3 { x: ((idx % w) * SCALE) as i64, y: ((idx / w) * SCALE) as i64, z: 0 },
        )
    }

    /// What every rendered pixel satisfies: it is the running average of one
    /// tracer result per sample, each for this pixel's own camera ray.
    pub open spec fn pixel_post(self, cfg: RenderConfig, idx: int, c: Color) -> bool {
        exists|samples: Seq<Color>|
            samples.len() == cfg.samples_per_pixel && (forall|k: int|
                0 <= k < samples.len() ==> self.trace_post(
                    cfg,
                    self.spec_pixel_ray(idx),
                    0,
                    #[trigger] samples[k],
                ) && samples[k].wf()) && c == #[trigger] run_avg(samples)
    }

    /// Render one pixel: trace `samples_per_pixel` center-of-pixel camera
    /// rays and fold the results into their running average.
    pub fn render_pixel(&self, cfg: &RenderConfig, idx: usize) -> (c: Color)
        requires
            self.wf(),
            cfg.wf(),
            idx < self.camera.resolution.w * self.camera.resolution.h,
        ensures
            self.pixel_post(*cfg, idx as int, c),
            c.wf(),
    {
        let w: usize = self.camera.resolution.w as usize;
        let x: usize = idx % w;
        let y: usize = idx / w;
        proof {
            vstd::arithmetic::div_mod::lemma_multiply_divide_lt(
                idx as int,
                w as int,
                self.camera.resolution.h as int,
            );
        }
        let px: Vec3 = Vec3::new((x as i64) * SCALE, (y as i64) * SCALE, 0);
        let cr: Ray = self.camera.camera_ray(px);
        let ghost pray = self.spec_pixel_ray(idx as int);
        proof {
            assert(cr == pray);
        }
        let mut avg: Color = Color::black();
        let mut done: usize = 0;
        let ghost mut sseq: Seq<Color> = Seq::empty();
        while done < cfg.samples_per_pixel
            invariant
                self.wf(),
                cfg.wf(),
                cr.wf(),
                cr == self.spec_pixel_ray(idx as int),
                done <= cfg.samples_per_pixel <= 1000000,
                sseq.len() == done,
                forall|k: int|
                    0 <= k < sseq.len() ==> self.trace_post(
                        *cfg,
                        self.spec_pixel_ray(idx as int),
                        0,
                        #[trigger] sseq[k],
                    ) && sseq[k].wf(),
                avg == run_avg_prefix(sseq, done as int),
                avg.wf(),
            decreases cfg.samples_per_pixel - done,
        {
            let s: Color = match self.ray_trace(&cr, 0, cfg) {
                Option::Some(c) => c,
                Option::None => {
                    proof {
                        assert(false);
                    }
                    Color::black()
                },
            };
            avg = avg_fold(avg, s, done);
            proof {
                lemma_run_avg_prefix_ext(sseq, sseq.push(s), done as int);
                sseq = sseq.push(s);
            }
            done = done + 1;
        }
        proof {
            assert(run_avg(sseq) == avg);
        }
        avg
    }

    /// Render the whole image: an independent, embarrassingly parallel map
    /// over the flat pixel index space, each slot written exactly once.  A
    /// pixel's computation is total and cannot fail, so no slot is ever
    /// left dark by an error.
    pub fn render(&self, cfg: &RenderConfig) -> (img: Image)
        requires
            self.wf(),
            cfg.wf(),
        ensures
            img.resolution == self.camera.resolution,
            img.wf(),
            forall|j: int|
                0 <= j < img.pixels@.len() ==> self.pixel_post(*cfg, j, #[trigger] img.pixels@[j]),
    {
        proof {
            assert((self.camera.resolution.w as int) * (self.camera.resolution.h as int)
                <= 0x4000000) by (nonlinear_arith)
                requires
                    0 < self.camera.resolution.w <= 8192,
                    0 < self.camera.resolution.h <= 8192,
            ;
        }
        let n: usize = (self.camera.resolution.w as usize) * (self.camera.resolution.h as usize);
        let pixels: Vec<Color> = par_render_pixels(self, cfg, n);
        Image { resolution: self.camera.resolution, pixels }
    }
}

/// At or past the depth cutoff the tracer's contract pins the result to
/// black: together with the tracer's own termination measure,
/// `max_depth - depth`, a path can take at most `max_depth` steps.
pub proof fn lemma_trace_depth_cutoff(s: Scene, cfg: RenderConfig, ray: Ray, depth: int, c: Color)
    requires
        depth >= cfg.max_depth,
        s.trace_post(cfg, ray, depth, c),
    ensures
        c == Color::spec_black(),
{
}

/// A hit on an emissive surface ends the path: the result is the emission
/// color alone, the same under every depth cutoff still ahead, so raising
/// `max_depth` cannot change it.
pub proof fn lemma_emissive_stop(
    s: Scene,
    cfg1: RenderConfig,
    cfg2: RenderConfig,
    ray: Ray,
    d1: int,
    d2: int,
    c1: Color,
    c2: Color,
)
    requires
        s.spec_closest(ray) is Some,
        s.objects@[s.spec_closest(ray).unwrap().0].material.luminosity > 0,
        d1 < cfg1.max_depth,
        d2 < cfg2.max_depth,
        s.trace_post(cfg1, ray, d1, c1),
        s.trace_post(cfg2, ray, d2, c2),
    ensures
        c1 == spec_emit(
            s.objects@[s.spec_closest(ray).unwrap().0].material,
            s.spec_closest(ray).unwrap().1,
            ray,
        ),
        c1 == c2,
{
}

/// An empty scene offers no hit to any ray.
pub proof fn lemma_empty_scene_no_hit(s: Scene, ray: Ray)
    requires
        s.objects@.len() == 0,
    ensures
        s.spec_closest(ray) is None,
{
}

/// In an empty scene every tracer sample above the cutoff is exactly the
/// configured sky color.
pub proof fn lemma_empty_scene_trace(s: Scene, cfg: RenderConfig, ray: Ray, depth: int, c: Color)
    requires
        s.objects@.len() == 0,
        depth < cfg.max_depth,
        s.trace_post(cfg, ray, depth, c),
    ensures
        c == spec_sky(s.camera.viewport.dir, cfg.ambient, ray),
{
    lemma_empty_scene_no_hit(s, ray);
}

/// The running average of identical samples is exactly that sample.
pub proof fn lemma_run_avg_const(s: Seq<Color>, v: Color, n: int)
    requires
        v.wf(),
        1 <= n <= s.len(),
        forall|i: int| 0 <= i < n ==> s[i] == v,
    ensures
        run_avg_prefix(s, n) == v,
    decreases n,
{
    let k = n - 1;
    crate::math::lemma_tdiv_exact(v.r as int, n);
    crate::math::lemma_tdiv_exact(v.g as int, n);
    crate::math::lemma_tdiv_exact(v.b as int, n);
    if n == 1 {
        assert(run_avg_prefix(s, 0) == Color::spec_black());
        assert(avg_step(Color::spec_black(), v, 0) == v);
    } else {
        lemma_run_avg_const(s, v, k);
        assert(v.r * k + v.r == v.r * n && v.g * k + v.g == v.g * n && v.b * k + v.b == v.b
            * n) by (nonlinear_arith)
            requires
                k == n - 1,
        ;
        assert(avg_step(v, v, k) == v);
    }
}

/// Every pixel of a render of an empty scene is exactly the sky color of
/// its own camera ray: the samples all equal it, and their running average
/// is then exact.
pub proof fn lemma_empty_scene_pixel(s: Scene, cfg: RenderConfig, idx: int, c: Color)
    requires
        s.objects@.len() == 0,
        cfg.wf(),
        s.pixel_post(cfg, idx, c),
    ensures
        c == spec_sky(s.camera.viewport.dir, cfg.ambient, s.spec_pixel_ray(idx)),
{
    let samples = choose|samples: Seq<Color>|
        samples.len() == cfg.samples_per_pixel && (forall|k: int|
            0 <= k < samples.len() ==> s.trace_post(
                cfg,
                s.spec_pixel_ray(idx),
                0,
                #[trigger] samples[k],
            ) && samples[k].wf()) && c == #[trigger] run_avg(samples);
    let skyc = spec_sky(s.camera.viewport.dir, cfg.ambient, s.spec_pixel_ray(idx));
    assert forall|k: int| 0 <= k < samples.len() implies samples[k] == skyc by {
        lemma_empty_scene_trace(s, cfg, s.spec_pixel_ray(idx), 0, samples[k]);
    }
    assert(skyc.wf());
    lemma_run_avg_const(samples, skyc, samples.len() as int);
}

/// The exact channel sums of a sample prefix.
pub open spec fn sum_r(s: Seq<Color>, n: int) -> int
    decreases n,
{
    if n <= 0 {
        0
    } else {
        sum_r(s, n - 1) + s[n - 1].r
    }
}

pub open spec fn sum_g(s: Seq<Color>, n: int) -> int
    decreases n,
{
    if n <= 0 {
        0
    } else {
        sum_g(s, n - 1) + s[n - 1].g
    }
}

pub open spec fn sum_b(s: Seq<Color>, n: int) -> int
    decreases n,
{
    if n <= 0 {
        0
    } else {
        sum_b(s, n - 1) + s[n - 1].b
    }
}

/// One channel of a running-average step: the step stays a truncated
/// division (no saturation), and the accumulated distance from the exact
/// sum grows by less than one divisor.
proof fn lemma_avg_step_channel(a: int, c: int, sum: int, k: int)
    requires
        k >= 0,
        -FX_MAX <= a <= FX_MAX,
        -FX_MAX <= c <= FX_MAX,
        2 * (vstd::math::abs(a * k - sum) as int) <= k * (k - 1),
    ensures
        sat(tdiv(a * k + c, k + 1)) == tdiv(a * k + c, k + 1),
        2 * (vstd::math::abs(tdiv(a * k + c, k + 1) * (k + 1) - (sum + c)) as int) <= (k + 1) * k,
{
    let x = a * k + c;
    assert(-(FX_MAX * (k + 1)) <= x <= FX_MAX * (k + 1)) by (nonlinear_arith)
        requires
            k >= 0,
            -FX_MAX <= a <= FX_MAX,
            -FX_MAX <= c <= FX_MAX,
            x == a * k + c,
    ;
    crate::math::lemma_tdiv_bound(x, k + 1, FX_MAX as int);
    crate::math::lemma_tdiv_rem(x, k + 1);
    let q = tdiv(x, k + 1);
    assert(q * (k + 1) - (sum + c) == (q * (k + 1) - x) + (a * k - sum));
    assert(2 * (vstd::math::abs(q * (k + 1) - (sum + c)) as int) <= 2 * (k + 1 - 1) + k * (k - 1))
        by (nonlinear_arith)
        requires
            vstd::math::abs(q * (k + 1) - x) as int <= k + 1 - 1,
            2 * (vstd::math::abs(a * k - sum) as int) <= k * (k - 1),
            q * (k + 1) - (sum + c) == (q * (k + 1) - x) + (a * k - sum),
            k >= 0,
    ;
    assert(2 * k + k * (k - 1) == (k + 1) * k) by (nonlinear_arith);
}

/// The running average is well formed and stays within half a unit per
/// sample of the exact channel sums: `2*|avg*n - sum| <= n*(n-1)`, so the
/// folded value is within `(n-1)/2` units of the arithmetic mean, whatever
/// order the samples were combined in.
pub proof fn lemma_run_avg_near_mean(s: Seq<Color>, n: int)
    requires
        0 <= n <= s.len(),
        forall|i: int| 0 <= i < n ==> (#[trigger] s[i]).wf(),
    ensures
        run_avg_prefix(s, n).wf(),
        2 * (vstd::math::abs(run_avg_prefix(s, n).r * n - sum_r(s, n)) as int) <= n * (n - 1),
        2 * (vstd::math::abs(run_avg_prefix(s, n).g * n - sum_g(s, n)) as int) <= n * (n - 1),
        2 * (vstd::math::abs(run_avg_prefix(s, n).b * n - sum_b(s, n)) as int) <= n * (n - 1),
    decreases n,
{
    if n > 0 {
        let k = n - 1;
        lemma_run_avg_near_mean(s, k);
        let a = run_avg_prefix(s, k);
        let c = s[k];
        lemma_avg_step_channel(a.r as int, c.r as int, sum_r(s, k), k);
        lemma_avg_step_channel(a.g as int, c.g as int, sum_g(s, k), k);
        lemma_avg_step_channel(a.b as int, c.b as int, sum_b(s, k), k);
    }
}

/// Relies on rayon's `into_par_iter`, `map` and `collect` over an index
/// range: collecting an indexed parallel map into a `Vec` yields one element
/// per index, in index order, each produced by one call of the verified
/// `render_pixel` on that index.  The scene is shared read-only; each worker
/// draws from its own thread-local randomness source.
#[verifier::external_body]
fn par_render_pixels(scene: &Scene, cfg: &RenderConfig, n: usize) -> (r: Vec<Color>)
    requires
        scene.wf(),
        cfg.wf(),
        n == scene.camera.resolution.w * scene.camera.resolution.h,
    ensures
        r@.len() == n,
        forall|j: int|
            0 <= j < n ==> scene.pixel_post(*cfg, j, #[trigger] r@[j]) && r@[j].wf(),
{
    (0..n).into_par_iter().map(|i| scene.render_pixel(cfg, i)).collect()
}

} // verus!
