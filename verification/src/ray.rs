//! A ray: an origin and a direction.
//!
//! Geometry code relies on `dir` being unit-length; callers producing rays
//! normalize directions first, as the scene and camera code here does.

use vstd::prelude::*;

use crate::vec3::Vec3;

verus! {

#[derive(Clone, Copy, Debug, PartialEq, Eq, Structural)]
pub struct Ray {
    pub start: Vec3,
    pub dir: Vec3,
}

impl Ray {
    pub open spec fn wf(self) -> bool {
        self.start.wf() && self.dir.wf()
    }

    /// The point `start + dir * t`.
    pub open spec fn spec_with_param(self, t: int) -> Vec3 {
        self.start.spec_add(self.dir.spec_mul_n(t))
    }

    /// The same ray advanced by `off` along its own direction; used to spawn
    /// secondary rays clear of the surface they started on.
    pub open spec fn spec_offset(self, off: int) -> Ray {
        Ray { start: self.spec_with_param(off), dir: self.dir }
    }

    pub fn with_param(&self, t: i64) -> (p: Vec3)
        ensures
            p == self.spec_with_param(t as int),
            p.wf(),
    {
        self.start.add(self.dir.mul_n(t))
    }

    pub fn offset(&self, off: i64) -> (r: Ray)
        ensures
            r == self.spec_offset(off as int),
            r.start.wf(),
    {
        Ray { start: self.with_param(off), dir: self.dir }
    }
}

} // verus!
