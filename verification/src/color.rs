//! Linear RGB colors over the fixed-point scalar.
//!
//! Channels are nominally in `[0, 1]` but are not hard-clamped; `clamp` is
//! available for the boundary with an image encoder.

use vstd::prelude::*;

use crate::math::{fadd, fmul, fx_add, fx_mul, fx_wf, sat, sat_i64, tdiv, tdiv_i128, SCALE};

verus! {

#[derive(Clone, Copy, Debug, PartialEq, Eq, Structural)]
pub struct Color {
    pub r: i64,
    pub g: i64,
    pub b: i64,
}

impl Color {
    /// All three channels stay inside the scalar range.
    pub open spec fn wf(self) -> bool {
        fx_wf(self.r) && fx_wf(self.g) && fx_wf(self.b)
    }

    pub open spec fn spec_black() -> Color {
        Color { r: 0, g: 0, b: 0 }
    }

    pub open spec fn spec_white() -> Color {
        Color { r: SCALE, g: SCALE, b: SCALE }
    }

    /// Every channel scaled by `l`.
    pub open spec fn spec_with_lightness(self, l: int) -> Color {
        Color {
            r: fmul(self.r as int, l) as i64,
            g: fmul(self.g as int, l) as i64,
            b: fmul(self.b as int, l) as i64,
        }
    }

    /// Every channel clipped into `[0, 1]`.
    pub open spec fn spec_clamp(self) -> Color {
        Color {
            r: vstd::math::max(0, vstd::math::min(self.r as int, SCALE as int)) as i64,
            g: vstd::math::max(0, vstd::math::min(self.g as int, SCALE as int)) as i64,
            b: vstd::math::max(0, vstd::math::min(self.b as int, SCALE as int)) as i64,
        }
    }

    pub open spec fn spec_min(self) -> int {
        vstd::math::min(vstd::math::min(self.r as int, self.g as int), self.b as int)
    }

    pub open spec fn spec_max(self) -> int {
        vstd::math::max(vstd::math::max(self.r as int, self.g as int), self.b as int)
    }

    pub open spec fn spec_chroma(self) -> int {
        self.spec_max() - self.spec_min()
    }

    /// The channel mean, the brightness the tracer composes with.
    pub open spec fn spec_lightness(self) -> int {
        sat(tdiv(self.r + self.g + self.b, 3))
    }

    /// Every channel scaled by the plain number `n`.
    pub open spec fn spec_mul_n(self, n: int) -> Color {
        Color {
            r: fmul(self.r as int, n) as i64,
            g: fmul(self.g as int, n) as i64,
            b: fmul(self.b as int, n) as i64,
        }
    }

    /// Channelwise saturated sum.
    pub open spec fn spec_add(self, o: Color) -> Color {
        Color {
            r: fadd(self.r as int, o.r as int) as i64,
            g: fadd(self.g as int, o.g as int) as i64,
            b: fadd(self.b as int, o.b as int) as i64,
        }
    }

    pub fn rgb(r: i64, g: i64, b: i64) -> (c: Color)
        ensures
            c.r == r,
            c.g == g,
            c.b == b,
    {
        Color { r, g, b }
    }

    pub fn mono(k: i64) -> (c: Color)
        ensures
            c.r == k,
            c.g == k,
            c.b == k,
    {
        Color { r: k, g: k, b: k }
    }

    pub fn black() -> (c: Color)
        ensures
            c == Color::spec_black(),
    {
        Color { r: 0, g: 0, b: 0 }
    }

    pub fn white() -> (c: Color)
        ensures
            c == Color::spec_white(),
    {
        Color { r: SCALE, g: SCALE, b: SCALE }
    }

    pub fn with_lightness(&self, l: i64) -> (c: Color)
        ensures
            c == self.spec_with_lightness(l as int),
            c.wf(),
    {
        Color { r: fx_mul(self.r, l), g: fx_mul(self.g, l), b: fx_mul(self.b, l) }
    }

    pub fn clamp(&self) -> (c: Color)
        ensures
            c == self.spec_clamp(),
            c.wf(),
    {
        let r: i64 = if self.r < 0 {
            0
        } else if self.r > SCALE {
            SCALE
        } else {
            self.r
        };
        let g: i64 = if self.g < 0 {
            0
        } else if self.g > SCALE {
            SCALE
        } else {
            self.g
        };
        let b: i64 = if self.b < 0 {
            0
        } else if self.b > SCALE {
            SCALE
        } else {
            self.b
        };
        Color { r, g, b }
    }

    pub fn min(&self) -> (m: i64)
        ensures
            m as int == self.spec_min(),
    {
        let rg: i64 = if self.r <= self.g {
            self.r
        } else {
            self.g
        };
        if rg <= self.b {
            rg
        } else {
            self.b
        }
    }

    pub fn max(&self) -> (m: i64)
        ensures
            m as int == self.spec_max(),
    {
        let rg: i64 = if self.r >= self.g {
            self.r
        } else {
            self.g
        };
        if rg >= self.b {
            rg
        } else {
            self.b
        }
    }

    pub fn chroma(&self) -> (m: i64)
        requires
            self.wf(),
        ensures
            m as int == self.spec_chroma(),
    {
        self.max() - self.min()
    }

    pub fn lightness(&self) -> (m: i64)
        ensures
            m as int == self.spec_lightness(),
            fx_wf(m),
    {
        let s: i128 = self.r as i128 + self.g as i128 + self.b as i128;
        let q: i128 = tdiv_i128(s, 3);
        sat_i64(q)
    }

    pub fn mul_n(self, n: i64) -> (c: Color)
        ensures
            c == self.spec_mul_n(n as int),
            c.wf(),
    {
        Color { r: fx_mul(self.r, n), g: fx_mul(self.g, n), b: fx_mul(self.b, n) }
    }

    pub fn add(self, rhs: Color) -> (c: Color)
        ensures
            c == self.spec_add(rhs),
            c.wf(),
    {
        Color { r: fx_add(self.r, rhs.r), g: fx_add(self.g, rhs.g), b: fx_add(self.b, rhs.b) }
    }
}

} // verus!
