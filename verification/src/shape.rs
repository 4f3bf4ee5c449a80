//! Scene primitives: the fully specified sphere and a planar placeholder.
//!
//! The primitive set is small and closed, so shapes are a tagged sum
//! dispatched by matching rather than a trait object.

use vstd::prelude::*;

use crate::math::{fmul, fx_sqrt_spec, sat, sat_i64, sq_diff_root, sq_diff_root_spec, sqrt_floor, tdiv, EPS, FX_MAX, SCALE};
use crate::vec3::{lemma_abs_mul_bound, lemma_square_bound, lemma_square_le, lemma_square_near, lemma_square_near_hi};
use crate::ray::Ray;
use crate::vec3::Vec3;

verus! {

#[derive(Clone, Copy, Debug, PartialEq, Eq, Structural)]
pub struct Sphere {
    pub center: Vec3,
    pub radius: i64,
}

/// A planar primitive kept in the data model for extension; its intersection
/// behavior is deliberately unspecified, and it reports no hit.
#[derive(Clone, Copy, Debug, PartialEq, Eq, Structural)]
pub struct Plane {
    pub center: Vec3,
    pub size: Vec3,
    pub dir: Vec3,
}

impl Sphere {
    pub open spec fn wf(self) -> bool {
        self.center.wf() && 0 < self.radius <= FX_MAX
    }

    /// Distance along the ray to the foot of the perpendicular from the
    /// center: `dot(center - start, dir)`.
    pub open spec fn spec_t_ca(self, ray: Ray) -> int {
        self.center.spec_sub(ray.start).spec_dot(ray.dir)
    }

    /// Perpendicular distance from the center to the ray's line, as the
    /// intersection test computes it.
    pub open spec fn spec_perp(self, ray: Ray) -> int {
        sq_diff_root_spec(self.center.spec_sub(ray.start).spec_mag(), self.spec_t_ca(ray))
    }

    /// The full intersection result: `None` when the center lies behind the
    /// origin or the perpendicular distance exceeds the radius; otherwise the
    /// nearer hit point with the outward normal and the mirrored ray.
    pub open spec fn spec_reflect(self, ray: Ray) -> Option<(Ray, Vec3)> {
        let t_ca = self.spec_t_ca(ray);
        if t_ca < 0 {
            None
        } else {
            let d = self.spec_perp(ray);
            if d > self.radius {
                None
            } else {
                let t_hc = sq_diff_root_spec(self.radius as int, d);
                let p1 = ray.spec_with_param(sat(t_ca - t_hc));
                let normal = p1.spec_sub(self.center).spec_norm();
                let dir = p1.spec_sub(ray.start).spec_reflect(normal).spec_norm();
                Some((Ray { start: p1, dir }, normal))
            }
        }
    }

    /// Intersect a ray with the sphere and mirror it off the surface.
    pub fn reflect(&self, ray: &Ray) -> (res: Option<(Ray, Vec3)>)
        requires
            self.wf(),
            ray.wf(),
        ensures
            res == self.spec_reflect(*ray),
            res matches Option::Some(t) ==> t.0.wf() && t.1.wf(),
    {
        let l: Vec3 = self.center.sub(ray.start);
        let t_ca: i64 = l.dot(&ray.dir);
        if t_ca < 0 {
            return None;
        }
        let d: i64 = sq_diff_root(l.mag(), t_ca);
        if d > self.radius {
            return None;
        }
        let t_hc: i64 = sq_diff_root(self.radius, d);
        let t: i64 = sat_i64(t_ca as i128 - t_hc as i128);
        let p1: Vec3 = ray.with_param(t);
        let normal: Vec3 = p1.sub(self.center).norm();
        let dir: Vec3 = p1.sub(ray.start).reflect(&normal).norm();
        Some((Ray { start: p1, dir }, normal))
    }

    pub fn center(&self) -> (c: Vec3)
        ensures
            c == self.center,
    {
        self.center
    }
}

/// A ray whose perpendicular distance from the center line exceeds the
/// radius misses the sphere, and so, by the stated simplification, does any
/// ray with the center behind its origin.
pub proof fn lemma_sphere_miss(s: Sphere, ray: Ray)
    requires
        s.spec_t_ca(ray) < 0 || s.spec_perp(ray) > s.radius,
    ensures
        s.spec_reflect(ray) is None,
{
}

/// A tangent ray, whose perpendicular distance equals the radius, yields
/// exactly one valid hit point: the foot of the perpendicular, with a
/// half-chord of zero.
pub proof fn lemma_sphere_tangent(s: Sphere, ray: Ray)
    requires
        s.spec_t_ca(ray) >= 0,
        s.spec_perp(ray) == s.radius,
    ensures
        s.spec_reflect(ray) is Some,
        s.spec_reflect(ray).unwrap().0.start == ray.spec_with_param(sat(s.spec_t_ca(ray))),
{
    let d = s.spec_perp(ray);
    assert(crate::math::fmul(s.radius as int, s.radius as int) - crate::math::fmul(
        d,
        d,
    ) == 0);
    assert(sq_diff_root_spec(s.radius as int, d) == 0);
}

/// Head-on law: a ray aimed straight at the center of a sphere of radius at
/// least one, from outside with a little clearance, hits it; the hit lies
/// within `EPS` of `|origin - center| - radius` from the origin, and the
/// returned normal is the normalized `hit - center`.  The component bound
/// keeps the rounding error of the aiming direction inside the tolerance.
pub proof fn lemma_sphere_head_on(s: Sphere, ray: Ray)
    requires
        s.wf(),
        SCALE <= s.radius,
        -8388608 <= s.center.x <= 8388608,
        -8388608 <= s.center.y <= 8388608,
        -8388608 <= s.center.z <= 8388608,
        -8388608 <= ray.start.x <= 8388608,
        -8388608 <= ray.start.y <= 8388608,
        -8388608 <= ray.start.z <= 8388608,
        ray.dir == s.center.spec_sub(ray.start).spec_norm(),
        s.center.spec_sub(ray.start).spec_mag() >= s.radius + 8192,
    ensures
        s.spec_reflect(ray) is Some,
        vstd::math::abs(
            ray.start.spec_dist(s.spec_reflect(ray).unwrap().0.start) - (s.center.spec_sub(
                ray.start,
            ).spec_mag() - s.radius),
        ) <= EPS,
        s.spec_reflect(ray).unwrap().1 == s.spec_reflect(ray).unwrap().0.start.spec_sub(
            s.center,
        ).spec_norm(),
{
    let rad = s.radius as int;
    let el = s.center.spec_sub(ray.start);
    let lx = el.x as int;
    let ly = el.y as int;
    let lz = el.z as int;
    assert(lx == s.center.x - ray.start.x && ly == s.center.y - ray.start.y && lz == s.center.z
        - ray.start.z);
    assert(-16777216 <= lx <= 16777216 && -16777216 <= ly <= 16777216 && -16777216 <= lz
        <= 16777216);

    // the squared length and its rounded root
    let ll = el.spec_mag_sq();
    lemma_square_bound(lx);
    lemma_square_bound(ly);
    lemma_square_bound(lz);
    assert(0 <= lx * lx <= 281474976710656 && 0 <= ly * ly <= 281474976710656 && 0 <= lz * lz
        <= 281474976710656) by (nonlinear_arith)
        requires
            -16777216 <= lx <= 16777216,
            -16777216 <= ly <= 16777216,
            -16777216 <= lz <= 16777216,
    ;
    assert(0 <= ll <= 844424930131968);
    crate::math::lemma_sqrt_floor_window(ll, 0, 33554432);
    let m = sqrt_floor(ll);
    assert(el.spec_mag() == m);
    assert(1056768 <= m <= 33554431);
    assert(rad + 8192 <= m);
    assert(m * m <= ll < (m + 1) * (m + 1)) by {
        crate::math::lemma_sqrt_floor_bounds(ll);
    }
    assert(-m <= lx <= m) by (nonlinear_arith)
        requires
            lx * lx + (ly * ly + lz * lz) < (m + 1) * (m + 1),
            ly * ly >= 0,
            lz * lz >= 0,
            m >= 0,
    ;
    assert(-m <= ly <= m) by (nonlinear_arith)
        requires
            ly * ly + (lx * lx + lz * lz) < (m + 1) * (m + 1),
            lx * lx >= 0,
            lz * lz >= 0,
            m >= 0,
    ;
    assert(-m <= lz <= m) by (nonlinear_arith)
        requires
            lz * lz + (lx * lx + ly * ly) < (m + 1) * (m + 1),
            lx * lx >= 0,
            ly * ly >= 0,
            m >= 0,
    ;

    // the aiming direction and its truncation remainders
    let ux = tdiv(lx * 1048576, m);
    lemma_abs_mul_bound(lx, 1048576, m, 1048576);
    assert(-(1048576 * m) <= lx * 1048576 <= 1048576 * m) by (nonlinear_arith)
        requires
            -(m * 1048576) <= lx * 1048576 <= m * 1048576,
    ;
    crate::math::lemma_tdiv_bound(lx * 1048576, m, 1048576);
    crate::math::lemma_tdiv_rem(lx * 1048576, m);
    let ex = lx * 1048576 - ux * m;
    assert(-m <= ex <= m);
    let uy = tdiv(ly * 1048576, m);
    lemma_abs_mul_bound(ly, 1048576, m, 1048576);
    assert(-(1048576 * m) <= ly * 1048576 <= 1048576 * m) by (nonlinear_arith)
        requires
            -(m * 1048576) <= ly * 1048576 <= m * 1048576,
    ;
    crate::math::lemma_tdiv_bound(ly * 1048576, m, 1048576);
    crate::math::lemma_tdiv_rem(ly * 1048576, m);
    let ey = ly * 1048576 - uy * m;
    assert(-m <= ey <= m);
    let uz = tdiv(lz * 1048576, m);
    lemma_abs_mul_bound(lz, 1048576, m, 1048576);
    assert(-(1048576 * m) <= lz * 1048576 <= 1048576 * m) by (nonlinear_arith)
        requires
            -(m * 1048576) <= lz * 1048576 <= m * 1048576,
    ;
    crate::math::lemma_tdiv_bound(lz * 1048576, m, 1048576);
    crate::math::lemma_tdiv_rem(lz * 1048576, m);
    let ez = lz * 1048576 - uz * m;
    assert(-m <= ez <= m);

    assert(ray.dir.x as int == ux && ray.dir.y as int == uy && ray.dir.z as int == uz);

    // the distance to the foot of the perpendicular is the length, within a
    // hundred units
    let dd = lx * ux + ly * uy + lz * uz;
    assert((lx * ux) * m == (lx * lx) * 1048576 - lx * ex) by (nonlinear_arith)
        requires
            ux * m == lx * 1048576 - ex,
    ;
    lemma_abs_mul_bound(lx, ex, m, m);
    lemma_abs_mul_bound(lx, ux, m, 1048576);
    assert((ly * uy) * m == (ly * ly) * 1048576 - ly * ey) by (nonlinear_arith)
        requires
            uy * m == ly * 1048576 - ey,
    ;
    lemma_abs_mul_bound(ly, ey, m, m);
    lemma_abs_mul_bound(ly, uy, m, 1048576);
    assert((lz * uz) * m == (lz * lz) * 1048576 - lz * ez) by (nonlinear_arith)
        requires
            uz * m == lz * 1048576 - ez,
    ;
    lemma_abs_mul_bound(lz, ez, m, m);
    lemma_abs_mul_bound(lz, uz, m, 1048576);

    assert(dd * m == (lx * ux) * m + (ly * uy) * m + (lz * uz) * m) by (nonlinear_arith)
        requires
            dd == lx * ux + ly * uy + lz * uz,
    ;
    let e1 = lx * ex + ly * ey + lz * ez;
    assert(dd * m == 1048576 * ll - e1);
    assert(-(3 * (m * m)) <= e1 <= 3 * (m * m));
    assert(-(3 * m * 1048576) <= dd <= 3 * m * 1048576) by (nonlinear_arith)
        requires
            dd == lx * ux + ly * uy + lz * uz,
            -(m * 1048576) <= lx * ux <= m * 1048576,
            -(m * 1048576) <= ly * uy <= m * 1048576,
            -(m * 1048576) <= lz * uz <= m * 1048576,
    ;
    crate::math::lemma_tdiv_bound(dd, 1048576, 3 * m);
    crate::math::lemma_tdiv_rem(dd, 1048576);
    let tca = tdiv(dd, 1048576);
    let rho1 = dd - tca * 1048576;
    assert(-1048575 <= rho1 <= 1048575);
    assert(s.spec_t_ca(ray) == tca);
    assert((tca * 1048576) * m == dd * m - rho1 * m) by (nonlinear_arith)
        requires
            tca * 1048576 == dd - rho1,
    ;
    assert(m - 97 <= tca <= m + 99) by (nonlinear_arith)
        requires
            (tca * 1048576) * m == 1048576 * ll - e1 - rho1 * m,
            m * m <= ll < (m + 1) * (m + 1),
            -(3 * (m * m)) <= e1 <= 3 * (m * m),
            -1048575 <= rho1 <= 1048575,
            1056768 <= m <= 33554431,
    ;

    // the perpendicular distance the test computes is below a tenth
    assert(0 <= tca * tca <= 2251799813685248 && 0 <= m * m <= 2251799813685248)
        by (nonlinear_arith)
        requires
            0 <= tca <= 33554530,
            0 <= m <= 33554431,
    ;
    crate::math::lemma_tdiv_bound(m * m, 1048576, 2147483648);
    crate::math::lemma_tdiv_rem(m * m, 1048576);
    let fmm = tdiv(m * m, 1048576);
    let rhom = m * m - fmm * 1048576;
    crate::math::lemma_tdiv_bound(tca * tca, 1048576, 2147483648);
    crate::math::lemma_tdiv_rem(tca * tca, 1048576);
    let ftt = tdiv(tca * tca, 1048576);
    let rhot = tca * tca - ftt * 1048576;
    assert(fmul(m, m) == fmm && fmul(tca, tca) == ftt);
    let dfd = fmm - ftt;
    assert(dfd * 1048576 == m * m - tca * tca - rhom + rhot);
    assert(-(198 * m + 9801) <= m * m - tca * tca <= 198 * m + 9801) by (nonlinear_arith)
        requires
            m - 97 <= tca <= m + 99,
            m >= 97,
    ;
    assert(-6339 <= dfd <= 6339);
    assert(s.spec_perp(ray) == fx_sqrt_spec(dfd));
    let dperp = fx_sqrt_spec(dfd);
    assert(0 <= dperp <= 81599) by {
        if dfd > 0 {
            crate::math::lemma_sqrt_floor_window(dfd * 1048576, 0, 81600);
        }
    }
    assert(dperp <= rad);

    // so the ray hits, and the half-chord is the radius within a few
    // thousandths
    assert(s.spec_reflect(ray) is Some);
    assert(0 <= rad * rad <= 2251799813685248) by (nonlinear_arith)
        requires
            0 <= rad <= 33554431,
    ;
    crate::math::lemma_tdiv_bound(rad * rad, 1048576, 2147483648);
    crate::math::lemma_tdiv_rem(rad * rad, 1048576);
    let frr = tdiv(rad * rad, 1048576);
    let rhor = rad * rad - frr * 1048576;
    assert(0 <= dperp * dperp <= 6350 * 1048576) by (nonlinear_arith)
        requires
            0 <= dperp <= 81599,
    ;
    crate::math::lemma_tdiv_bound(dperp * dperp, 1048576, 6350);
    crate::math::lemma_tdiv_rem(dperp * dperp, 1048576);
    let fdd = tdiv(dperp * dperp, 1048576);
    assert(0 <= fdd <= 6350);
    assert(fmul(rad, rad) == frr && fmul(dperp, dperp) == fdd);
    let df2 = frr - fdd;
    assert(df2 * 1048576 == rad * rad - rhor - fdd * 1048576);
    assert(rad * rad - 6659506175 <= df2 * 1048576 <= rad * rad);
    assert(df2 > 0) by (nonlinear_arith)
        requires
            df2 * 1048576 >= rad * rad - 6659506175,
            rad >= 1048576,
    ;
    assert((rad - 3400) * (rad - 3400) <= df2 * 1048576) by (nonlinear_arith)
        requires
            df2 * 1048576 >= rad * rad - 6659506175,
            rad >= 1048576,
    ;
    assert(df2 * 1048576 < (rad + 1) * (rad + 1)) by (nonlinear_arith)
        requires
            df2 * 1048576 <= rad * rad,
            rad >= 0,
    ;
    crate::math::lemma_sqrt_floor_window(df2 * 1048576, rad - 3400, rad + 1);
    let thc = fx_sqrt_spec(df2);
    assert(rad - 3400 <= thc <= rad);
    assert(sq_diff_root_spec(rad, dperp) == thc);

    // the hit parameter is the length minus the radius, within a few
    // thousandths
    let tv = tca - thc;
    assert(m - rad - 97 <= tv <= m - rad + 3499);
    assert(8095 <= tv <= 33557930);
    assert(sat(tca - thc) == tv);

    // the hit point, componentwise
    let gx = tdiv(ux * tv, 1048576);
    lemma_abs_mul_bound(ux, tv, 1048576, tv);
    assert(-(tv * 1048576) <= ux * tv <= tv * 1048576) by (nonlinear_arith)
        requires
            -(1048576 * tv) <= ux * tv <= 1048576 * tv,
    ;
    crate::math::lemma_tdiv_bound(ux * tv, 1048576, tv);
    crate::math::lemma_tdiv_rem(ux * tv, 1048576);
    let wx = ux * tv - gx * 1048576;
    assert(-1048575 <= wx <= 1048575);
    let gy = tdiv(uy * tv, 1048576);
    lemma_abs_mul_bound(uy, tv, 1048576, tv);
    assert(-(tv * 1048576) <= uy * tv <= tv * 1048576) by (nonlinear_arith)
        requires
            -(1048576 * tv) <= uy * tv <= 1048576 * tv,
    ;
    crate::math::lemma_tdiv_bound(uy * tv, 1048576, tv);
    crate::math::lemma_tdiv_rem(uy * tv, 1048576);
    let wy = uy * tv - gy * 1048576;
    assert(-1048575 <= wy <= 1048575);
    let gz = tdiv(uz * tv, 1048576);
    lemma_abs_mul_bound(uz, tv, 1048576, tv);
    assert(-(tv * 1048576) <= uz * tv <= tv * 1048576) by (nonlinear_arith)
        requires
            -(1048576 * tv) <= uz * tv <= 1048576 * tv,
    ;
    crate::math::lemma_tdiv_bound(uz * tv, 1048576, tv);
    crate::math::lemma_tdiv_rem(uz * tv, 1048576);
    let wz = uz * tv - gz * 1048576;
    assert(-1048575 <= wz <= 1048575);

    let p1 = ray.spec_with_param(tv);
    assert(fmul(ux, tv) == gx && fmul(uy, tv) == gy && fmul(uz, tv) == gz);
    assert(p1.x as int == ray.start.x + gx && p1.y as int == ray.start.y + gy && p1.z as int
        == ray.start.z + gz);
    assert(s.spec_reflect(ray).unwrap().0.start == p1);
    assert(s.spec_reflect(ray).unwrap().1 == p1.spec_sub(s.center).spec_norm());

    // the direction is unit length within rounding: its square sum sits
    // around SCALE^2
    let qq = ux * ux + uy * uy + uz * uz;
    crate::math::lemma_tdiv_mul_le(lx * 1048576, m);
    let ax = vstd::math::abs(lx * 1048576) as int;
    assert(ax == lx * 1048576 || ax == -(lx * 1048576));
    lemma_square_le(ux * m, ax, lx * 1048576);
    assert((ux * m) * (ux * m) == (m * m) * (ux * ux)) by (nonlinear_arith);
    assert((lx * 1048576) * (lx * 1048576) == 1099511627776 * (lx * lx))
        by (nonlinear_arith);
    crate::math::lemma_tdiv_mul_le(ly * 1048576, m);
    let ay = vstd::math::abs(ly * 1048576) as int;
    assert(ay == ly * 1048576 || ay == -(ly * 1048576));
    lemma_square_le(uy * m, ay, ly * 1048576);
    assert((uy * m) * (uy * m) == (m * m) * (uy * uy)) by (nonlinear_arith);
    assert((ly * 1048576) * (ly * 1048576) == 1099511627776 * (ly * ly))
        by (nonlinear_arith);
    crate::math::lemma_tdiv_mul_le(lz * 1048576, m);
    let az = vstd::math::abs(lz * 1048576) as int;
    assert(az == lz * 1048576 || az == -(lz * 1048576));
    lemma_square_le(uz * m, az, lz * 1048576);
    assert((uz * m) * (uz * m) == (m * m) * (uz * uz)) by (nonlinear_arith);
    assert((lz * 1048576) * (lz * 1048576) == 1099511627776 * (lz * lz))
        by (nonlinear_arith);

    vstd::arithmetic::mul::lemma_mul_is_distributive_add(m * m, ux * ux + uy * uy, uz * uz);
    vstd::arithmetic::mul::lemma_mul_is_distributive_add(m * m, ux * ux, uy * uy);
    assert(m * m * qq == (ux * m) * (ux * m) + (uy * m) * (uy * m) + (uz * m) * (uz * m));
    assert(m * m * qq <= 1099511627776 * ll);
    assert(1099511627776 * ll < 1099511627776 * ((m + 1) * (m + 1)));
    assert(qq <= 1099514773504) by (nonlinear_arith)
        requires
            m * m * qq < 1099511627776 * ((m + 1) * (m + 1)),
            m >= 1048576,
    ;
    lemma_square_near(ux * m, lx * 1048576, ex, m, 1048576 * m);
    assert(2 * (1048576 * m) * m == 2097152 * (m * m)) by (nonlinear_arith);
    lemma_square_near(uy * m, ly * 1048576, ey, m, 1048576 * m);
    assert(2 * (1048576 * m) * m == 2097152 * (m * m)) by (nonlinear_arith);
    lemma_square_near(uz * m, lz * 1048576, ez, m, 1048576 * m);
    assert(2 * (1048576 * m) * m == 2097152 * (m * m)) by (nonlinear_arith);

    assert(m * m * qq >= 1099511627776 * ll - 6291456 * (m * m));
    assert(qq >= 1099505336320) by (nonlinear_arith)
        requires
            m * m * qq >= 1099511627776 * ll - 6291456 * (m * m),
            ll >= m * m,
            m > 0,
    ;

    // the distance from the origin to the hit point brackets the parameter
    let delta = ray.start.spec_sub(p1);
    assert(delta.x as int == -gx && delta.y as int == -gy && delta.z as int == -gz);
    let ss = delta.spec_mag_sq();
    assert((-gx) * (-gx) == gx * gx && (-gy) * (-gy) == gy * gy && (-gz) * (-gz) == gz * gz)
        by (nonlinear_arith);
    assert(ss == gx * gx + gy * gy + gz * gz);
    lemma_square_near(gx * 1048576, ux * tv, wx, 1048575, 1048576 * tv);
    lemma_square_near_hi(gx * 1048576, ux * tv, wx, 1048575, 1048576 * tv);
    assert(2 * (1048576 * tv) * 1048575 == 2199021158400 * tv) by (nonlinear_arith);
    assert((gx * 1048576) * (gx * 1048576) == 1099511627776 * (gx * gx))
        by (nonlinear_arith);
    assert((ux * tv) * (ux * tv) == (tv * tv) * (ux * ux)) by (nonlinear_arith);
    lemma_square_near(gy * 1048576, uy * tv, wy, 1048575, 1048576 * tv);
    lemma_square_near_hi(gy * 1048576, uy * tv, wy, 1048575, 1048576 * tv);
    assert(2 * (1048576 * tv) * 1048575 == 2199021158400 * tv) by (nonlinear_arith);
    assert((gy * 1048576) * (gy * 1048576) == 1099511627776 * (gy * gy))
        by (nonlinear_arith);
    assert((uy * tv) * (uy * tv) == (tv * tv) * (uy * uy)) by (nonlinear_arith);
    lemma_square_near(gz * 1048576, uz * tv, wz, 1048575, 1048576 * tv);
    lemma_square_near_hi(gz * 1048576, uz * tv, wz, 1048575, 1048576 * tv);
    assert(2 * (1048576 * tv) * 1048575 == 2199021158400 * tv) by (nonlinear_arith);
    assert((gz * 1048576) * (gz * 1048576) == 1099511627776 * (gz * gz))
        by (nonlinear_arith);
    assert((uz * tv) * (uz * tv) == (tv * tv) * (uz * uz)) by (nonlinear_arith);

    vstd::arithmetic::mul::lemma_mul_is_distributive_add(tv * tv, ux * ux + uy * uy, uz * uz);
    vstd::arithmetic::mul::lemma_mul_is_distributive_add(tv * tv, ux * ux, uy * uy);
    assert((tv * tv) * qq == (ux * tv) * (ux * tv) + (uy * tv) * (uy * tv) + (uz * tv) * (uz
        * tv));
    assert(1099511627776 * ss >= (tv * tv) * qq - 6597063475200 * tv);
    assert(1099511627776 * ss <= (tv * tv) * qq + 6597063475200 * tv + 3298528591875);
    assert((tv * tv) * qq >= (tv * tv) * 1099505336320 && (tv * tv) * qq <= (tv * tv)
        * 1099514773504) by (nonlinear_arith)
        requires
            1099505336320 <= qq <= 1099514773504,
    ;
    assert((tv - 101) * (tv - 101) <= ss) by (nonlinear_arith)
        requires
            1099511627776 * ss >= (tv * tv) * 1099505336320 - 6597063475200 * tv,
            8095 <= tv <= 33557930,
    ;
    assert(ss < (tv + 102) * (tv + 102)) by (nonlinear_arith)
        requires
            1099511627776 * ss <= (tv * tv) * 1099514773504 + 6597063475200 * tv
                + 3298528591875,
            8095 <= tv <= 33557930,
    ;
    crate::math::lemma_sqrt_floor_window(ss, tv - 101, tv + 102);
    assert(ray.start.spec_dist(p1) == sqrt_floor(ss));
    assert(tv - 101 <= ray.start.spec_dist(p1) <= tv + 101);
}

/// The closed set of primitives a scene object can hold.
#[derive(Clone, Copy, Debug, PartialEq, Eq, Structural)]
pub enum Shape {
    Sphere(Sphere),
    Plane(Plane),
}

impl Shape {
    pub open spec fn wf(self) -> bool {
        match self {
            Shape::Sphere(s) => s.wf(),
            Shape::Plane(p) => p.center.wf() && p.size.wf() && p.dir.wf(),
        }
    }

    pub open spec fn spec_reflect(self, ray: Ray) -> Option<(Ray, Vec3)> {
        match self {
            Shape::Sphere(s) => s.spec_reflect(ray),
            Shape::Plane(_) => None,
        }
    }

    /// Intersect and mirror a ray off this primitive's surface.
    pub fn reflect(&self, ray: &Ray) -> (res: Option<(Ray, Vec3)>)
        requires
            self.wf(),
            ray.wf(),
        ensures
            res == self.spec_reflect(*ray),
            res matches Option::Some(t) ==> t.0.wf() && t.1.wf(),
    {
        match self {
            Shape::Sphere(s) => s.reflect(ray),
            Shape::Plane(_) => None,
        }
    }

    pub fn center(&self) -> (c: Vec3)
        ensures
            c == match *self {
                Shape::Sphere(s) => s.center,
                Shape::Plane(p) => p.center,
            },
    {
        match self {
            Shape::Sphere(s) => s.center,
            Shape::Plane(p) => p.center,
        }
    }
}

} // verus!
