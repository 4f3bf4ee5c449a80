//! Per-surface scattering and emission parameters.

use vstd::prelude::*;

use crate::color::Color;
use crate::math::{fx_wf, SCALE};

verus! {

#[derive(Clone, Copy, Debug, PartialEq, Eq, Structural)]
pub struct Material {
    /// How far a reflected ray is perturbed away from the mirror direction.
    /// Zero is a perfect mirror; one scatters evenly in every direction.
    pub roughness: i64,
    /// How much arriving light passes through unchanged.  Zero tints all
    /// arriving light with the surface color; one reflects it as-is.
    pub specularity: i64,
    pub color: Color,
    /// Emission scale; a surface with positive luminosity is a light source
    /// and terminates tracing.
    pub luminosity: i64,
}

impl Material {
    pub open spec fn wf(self) -> bool {
        0 <= self.roughness <= SCALE && 0 <= self.specularity <= SCALE && 0 <= self.luminosity
            && fx_wf(self.luminosity) && self.color.wf()
    }
}

} // verus!
