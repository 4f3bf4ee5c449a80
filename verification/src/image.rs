//! The raster result: a resolution and a flat, row-major pixel sequence,
//! top row first.  Encoding to a file format happens outside the library.

use vstd::prelude::*;

use crate::camera::Resolution;
use crate::color::Color;

verus! {

#[derive(Clone, Debug, PartialEq)]
pub struct Image {
    pub resolution: Resolution,
    /// Row-major: the pixel at column `x`, row `y` sits at `y * w + x`.
    pub pixels: Vec<Color>,
}

impl Image {
    /// The pixel sequence covers the grid exactly.
    pub open spec fn wf(self) -> bool {
        self.pixels@.len() == self.resolution.w * self.resolution.h
    }
}

} // verus!
