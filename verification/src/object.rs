//! A scene object: one primitive with one material, immutable after
//! construction.

use vstd::prelude::*;

use crate::material::Material;
use crate::shape::Shape;

verus! {

#[derive(Clone, Copy, Debug, PartialEq, Eq, Structural)]
pub struct Object {
    pub shape: Shape,
    pub material: Material,
}

impl Object {
    pub open spec fn wf(self) -> bool {
        self.shape.wf() && self.material.wf()
    }
}

} // verus!
