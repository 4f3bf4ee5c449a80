//! The camera: maps a pixel coordinate to a world-space ray through a
//! virtual viewport.

use vstd::prelude::*;

use crate::math::{fadd, fdiv, fmul, fx_add, fx_div, fx_mul, sat, sat_i64, FX_MAX, HALF, SCALE};
use crate::ray::Ray;
use crate::shape::Plane;
use crate::vec3::Vec3;

verus! {

/// The pixel grid: positive width and height, bounded so a flat row-major
/// index always fits a machine word.
#[derive(Clone, Copy, Debug, PartialEq, Eq, Structural)]
pub struct Resolution {
    pub w: u32,
    pub h: u32,
}

impl Resolution {
    pub open spec fn wf(self) -> bool {
        0 < self.w <= 8192 && 0 < self.h <= 8192
    }
}

#[derive(Clone, Copy, Debug, PartialEq, Eq, Structural)]
pub struct Camera {
    pub resolution: Resolution,
    /// The viewport rectangle: its center, its width and height in `size.x`
    /// and `size.y`, and its unit normal `dir`.
    pub viewport: Plane,
    /// Distance from the focal point to the viewport center, behind the
    /// viewport along `-dir`.
    pub focal_len: i64,
}

impl Camera {
    pub open spec fn wf(self) -> bool {
        self.resolution.wf() && self.viewport.center.wf() && self.viewport.size.wf()
            && self.viewport.dir.wf() && 0 < self.focal_len <= FX_MAX
    }

    /// The ray for a pixel coordinate: scale the center-of-pixel offset into
    /// viewport units, place it along two basis vectors orthogonal to the
    /// viewport normal, and aim from the focal point through that point.
    pub open spec fn spec_camera_ray(self, px: Vec3) -> Ray {
        let wfx = (self.resolution.w as int) * (SCALE as int);
        let hfx = (self.resolution.h as int) * (SCALE as int);
        let tr_x = fdiv(fmul(fadd(px.x as int, HALF as int), self.viewport.size.x as int), wfx);
        let tr_y = fdiv(fmul(fadd(px.y as int, HALF as int), self.viewport.size.y as int), hfx);
        let z_axis = (Vec3 { x: 0, y: 0, z: SCALE }).spec_norm();
        let y_basis = z_axis.spec_cross(self.viewport.dir).spec_norm();
        let top = self.viewport.dir.spec_cross(y_basis).spec_mul_n(
            sat(fmul(self.viewport.size.y as int, HALF as int) - tr_y),
        );
        let left = y_basis.spec_mul_n(sat(fmul(self.viewport.size.x as int, HALF as int) - tr_x));
        let vp_p = top.spec_add(left);
        let fp = self.viewport.dir.spec_mul_n(sat(-self.focal_len));
        let dir = vp_p.spec_sub(fp).spec_norm();
        Ray { start: self.viewport.center.spec_add(fp), dir }
    }

    /// Create a ray coming from the focal point through the center of the
    /// given pixel of the viewport.
    pub fn camera_ray(&self, px: Vec3) -> (r: Ray)
        requires
            self.wf(),
        ensures
            r == self.spec_camera_ray(px),
            r.wf(),
    {
        let wfx: i64 = (self.resolution.w as i64) * SCALE;
        let hfx: i64 = (self.resolution.h as i64) * SCALE;
        let tr_x: i64 = fx_div(fx_mul(fx_add(px.x, HALF), self.viewport.size.x), wfx);
        let tr_y: i64 = fx_div(fx_mul(fx_add(px.y, HALF), self.viewport.size.y), hfx);
        let z_axis: Vec3 = Vec3::new(0, 0, SCALE).norm();
        let y_basis: Vec3 = z_axis.cross(&self.viewport.dir).norm();
        let top: Vec3 = self.viewport.dir.cross(&y_basis).mul_n(
            sat_i64(fx_mul(self.viewport.size.y, HALF) as i128 - tr_y as i128),
        );
        let left: Vec3 = y_basis.mul_n(
            sat_i64(fx_mul(self.viewport.size.x, HALF) as i128 - tr_x as i128),
        );
        let vp_p: Vec3 = top.add(left);
        let fp: Vec3 = self.viewport.dir.mul_n(sat_i64(-(self.focal_len as i128)));
        let dir: Vec3 = vp_p.sub(fp).norm();
        Ray { start: self.viewport.center.add(fp), dir }
    }
}

} // verus!
