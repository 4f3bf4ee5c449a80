//! Three-component vectors over the fixed-point scalar.
//!
//! Every operation returns a new value; results saturate componentwise like
//! the scalar operations they are built from.  Each executable method has an
//! exact contract: its result equals the spec-level counterpart.

use vstd::prelude::*;

use crate::math::{
    fadd, fdiv, fmul, fx_add, fx_div, fx_mul, fx_wf, isqrt_u128, lemma_sqrt_floor_bounds,
    lemma_sqrt_floor_unique, sat, sat_i64, sqrt_floor, tdiv, tdiv_i128, EPS, FX_MAX, SCALE,
};

verus! {

/// Assumed of rand's `random`: a draw from the thread-local generator.
/// Nothing is promised of the value.
pub assume_specification<T>[ rand::random::<T> ]() -> (r: T)
    where
        rand::distr::StandardUniform: rand::distr::Distribution<T>,
;

#[derive(Clone, Copy, Debug, PartialEq, Eq, Structural)]
pub struct Vec3 {
    pub x: i64,
    pub y: i64,
    pub z: i64,
}

/// `a` carrying the sign of `b`, with the sign of zero taken as positive.
pub open spec fn csign(a: int, b: int) -> int {
    if b >= 0 {
        vstd::math::abs(a) as int
    } else {
        -(vstd::math::abs(a) as int)
    }
}

/// A square of a scalar in range stays within the wide working range.
pub proof fn lemma_square_bound(a: int)
    by (nonlinear_arith)
    requires
        -FX_MAX <= a <= FX_MAX,
    ensures
        0 <= a * a <= 0x100000000000000000000,
{
}

/// A product of two scalars in range stays within the wide working range.
pub proof fn lemma_prod_bound(a: int, b: int)
    by (nonlinear_arith)
    requires
        -FX_MAX <= a <= FX_MAX,
        -FX_MAX <= b <= FX_MAX,
    ensures
        -0x100000000000000000000 <= a * b <= 0x100000000000000000000,
{
}

impl Vec3 {
    /// All three components stay inside the scalar range.
    pub open spec fn wf(self) -> bool {
        fx_wf(self.x) && fx_wf(self.y) && fx_wf(self.z)
    }

    pub open spec fn spec_add(self, o: Vec3) -> Vec3 {
        Vec3 {
            x: fadd(self.x as int, o.x as int) as i64,
            y: fadd(self.y as int, o.y as int) as i64,
            z: fadd(self.z as int, o.z as int) as i64,
        }
    }

    pub open spec fn spec_sub(self, o: Vec3) -> Vec3 {
        Vec3 {
            x: sat(self.x - o.x) as i64,
            y: sat(self.y - o.y) as i64,
            z: sat(self.z - o.z) as i64,
        }
    }

    pub open spec fn spec_neg(self) -> Vec3 {
        Vec3 { x: sat(-self.x) as i64, y: sat(-self.y) as i64, z: sat(-self.z) as i64 }
    }

    /// Componentwise product.
    pub open spec fn spec_mulv(self, o: Vec3) -> Vec3 {
        Vec3 {
            x: fmul(self.x as int, o.x as int) as i64,
            y: fmul(self.y as int, o.y as int) as i64,
            z: fmul(self.z as int, o.z as int) as i64,
        }
    }

    /// Componentwise quotient.
    pub open spec fn spec_divv(self, o: Vec3) -> Vec3 {
        Vec3 {
            x: fdiv(self.x as int, o.x as int) as i64,
            y: fdiv(self.y as int, o.y as int) as i64,
            z: fdiv(self.z as int, o.z as int) as i64,
        }
    }

    pub open spec fn spec_mul_n(self, n: int) -> Vec3 {
        Vec3 {
            x: fmul(self.x as int, n) as i64,
            y: fmul(self.y as int, n) as i64,
            z: fmul(self.z as int, n) as i64,
        }
    }

    pub open spec fn spec_abs(self) -> Vec3 {
        Vec3 {
            x: sat(vstd::math::abs(self.x as int) as int) as i64,
            y: sat(vstd::math::abs(self.y as int) as int) as i64,
            z: sat(vstd::math::abs(self.z as int) as int) as i64,
        }
    }

    /// The scalar product, scale-corrected once over the exact wide sum.
    pub open spec fn spec_dot(self, o: Vec3) -> int {
        sat(tdiv(self.x * o.x + self.y * o.y + self.z * o.z, SCALE as int))
    }

    /// The exact sum of squared components, before any rounding.
    pub open spec fn spec_mag_sq(self) -> int {
        self.x * self.x + self.y * self.y + self.z * self.z
    }

    /// The magnitude: the rounded-down square root of the exact square sum.
    pub open spec fn spec_mag(self) -> int {
        sat(sqrt_floor(self.spec_mag_sq()))
    }

    pub open spec fn spec_cross(self, o: Vec3) -> Vec3 {
        Vec3 {
            x: sat(fmul(self.y as int, o.z as int) - fmul(self.z as int, o.y as int)) as i64,
            y: sat(fmul(self.z as int, o.x as int) - fmul(self.x as int, o.z as int)) as i64,
            z: sat(fmul(self.x as int, o.y as int) - fmul(self.y as int, o.x as int)) as i64,
        }
    }

    /// Normalization; a zero-magnitude vector passes through unchanged, never
    /// producing an undefined value.
    pub open spec fn spec_norm(self) -> Vec3 {
        let m = self.spec_mag();
        if m > 0 {
            Vec3 {
                x: fdiv(self.x as int, m) as i64,
                y: fdiv(self.y as int, m) as i64,
                z: fdiv(self.z as int, m) as i64,
            }
        } else {
            self
        }
    }

    pub open spec fn spec_dist(self, o: Vec3) -> int {
        self.spec_sub(o).spec_mag()
    }

    /// Reflection about a normal: `v - 2*dot(v, n)*n`, componentwise.
    pub open spec fn spec_reflect(self, n: Vec3) -> Vec3 {
        let d2 = sat(2 * self.spec_dot(n));
        Vec3 {
            x: sat(self.x - fmul(d2, n.x as int)) as i64,
            y: sat(self.y - fmul(d2, n.y as int)) as i64,
            z: sat(self.z - fmul(d2, n.z as int)) as i64,
        }
    }

    /// The cosine of the angle between two vectors; zero when either
    /// magnitude rounds to nothing, so no division can fault.
    pub open spec fn spec_cos_angle(self, o: Vec3) -> int {
        let den = fmul(self.spec_mag(), o.spec_mag());
        if den == 0 {
            0
        } else {
            fdiv(self.spec_dot(o), den)
        }
    }

    pub open spec fn spec_orth(self) -> Vec3 {
        Vec3 {
            x: sat(csign(self.x as int, self.z as int)) as i64,
            y: sat(csign(self.y as int, self.z as int)) as i64,
            z: sat(
                -csign(self.z as int, self.x as int) - csign(self.z as int, self.y as int),
            ) as i64,
        }
    }


    /// Rotation about the x axis, given the angle's cosine and sine as
    /// scalars; computing those from an angle stays with the caller.
    pub open spec fn spec_rotate_x(self, cos: int, sin: int) -> Vec3 {
        Vec3 {
            x: self.x,
            y: sat(fmul(cos, self.y as int) - fmul(sin, self.z as int)) as i64,
            z: sat(fmul(sin, self.y as int) + fmul(cos, self.z as int)) as i64,
        }
    }

    /// Rotation about the y axis, from the angle's cosine and sine.
    pub open spec fn spec_rotate_y(self, cos: int, sin: int) -> Vec3 {
        Vec3 {
            x: sat(fmul(cos, self.x as int) + fmul(sin, self.z as int)) as i64,
            y: self.y,
            z: sat(fmul(-sin, self.x as int) + fmul(cos, self.z as int)) as i64,
        }
    }

    /// Rotation about the z axis, from the angle's cosine and sine.
    pub open spec fn spec_rotate_z(self, cos: int, sin: int) -> Vec3 {
        Vec3 {
            x: sat(fmul(cos, self.x as int) - fmul(sin, self.y as int)) as i64,
            y: sat(fmul(sin, self.x as int) + fmul(cos, self.y as int)) as i64,
            z: self.z,
        }
    }

    pub fn rotate_x(&self, cos: i64, sin: i64) -> (r: Vec3)
        ensures
            r == self.spec_rotate_x(cos as int, sin as int),
    {
        let ya: i64 = fx_mul(cos, self.y);
        let yb: i64 = fx_mul(sin, self.z);
        let za: i64 = fx_mul(sin, self.y);
        let zb: i64 = fx_mul(cos, self.z);
        Vec3 {
            x: self.x,
            y: sat_i64(ya as i128 - yb as i128),
            z: sat_i64(za as i128 + zb as i128),
        }
    }

    pub fn rotate_y(&self, cos: i64, sin: i64) -> (r: Vec3)
        requires
            sin != i64::MIN,
        ensures
            r == self.spec_rotate_y(cos as int, sin as int),
    {
        let xa: i64 = fx_mul(cos, self.x);
        let xb: i64 = fx_mul(sin, self.z);
        let za: i64 = fx_mul(-sin, self.x);
        let zb: i64 = fx_mul(cos, self.z);
        Vec3 {
            x: sat_i64(xa as i128 + xb as i128),
            y: self.y,
            z: sat_i64(za as i128 + zb as i128),
        }
    }

    pub fn rotate_z(&self, cos: i64, sin: i64) -> (r: Vec3)
        ensures
            r == self.spec_rotate_z(cos as int, sin as int),
    {
        let xa: i64 = fx_mul(cos, self.x);
        let xb: i64 = fx_mul(sin, self.y);
        let ya: i64 = fx_mul(sin, self.x);
        let yb: i64 = fx_mul(cos, self.y);
        Vec3 {
            x: sat_i64(xa as i128 - xb as i128),
            y: sat_i64(ya as i128 + yb as i128),
            z: self.z,
        }
    }

    /// Rotation about an arbitrary axis, from the angle's cosine and sine:
    /// `v*cos + cross(v, axis)*sin + axis*(dot(axis, v)*(1 - cos))`.
    pub open spec fn spec_rotate_around(self, cos: int, sin: int, axis: Vec3) -> Vec3 {
        self.spec_mul_n(cos).spec_add(self.spec_cross(axis).spec_mul_n(sin)).spec_add(
            axis.spec_mul_n(fmul(axis.spec_dot(self), sat(SCALE - cos))),
        )
    }

    pub fn rotate_around(&self, cos: i64, sin: i64, axis: &Vec3) -> (r: Vec3)
        requires
            self.wf(),
            axis.wf(),
        ensures
            r == self.spec_rotate_around(cos as int, sin as int, *axis),
    {
        let tilt: i64 = fx_mul(axis.dot(self), sat_i64(SCALE as i128 - cos as i128));
        self.mul_n(cos).add(self.cross(axis).mul_n(sin)).add(axis.mul_n(tilt))
    }

    pub fn new(x: i64, y: i64, z: i64) -> (r: Vec3)
        ensures
            r.x == x,
            r.y == y,
            r.z == z,
    {
        Vec3 { x, y, z }
    }

    pub fn zero() -> (r: Vec3)
        ensures
            r == (Vec3 { x: 0i64, y: 0i64, z: 0i64 }),
    {
        Vec3 { x: 0, y: 0, z: 0 }
    }

    pub fn diag(v: i64) -> (r: Vec3)
        ensures
            r.x == v,
            r.y == v,
            r.z == v,
    {
        Vec3 { x: v, y: v, z: v }
    }

    pub fn with_x(&self, x: i64) -> (r: Vec3)
        ensures
            r == (Vec3 { x, ..*self }),
    {
        Vec3 { x, y: self.y, z: self.z }
    }

    pub fn with_y(&self, y: i64) -> (r: Vec3)
        ensures
            r == (Vec3 { y, ..*self }),
    {
        Vec3 { x: self.x, y, z: self.z }
    }

    pub fn with_z(&self, z: i64) -> (r: Vec3)
        ensures
            r == (Vec3 { z, ..*self }),
    {
        Vec3 { x: self.x, y: self.y, z }
    }

    pub fn add(self, rhs: Vec3) -> (r: Vec3)
        ensures
            r == self.spec_add(rhs),
            r.wf(),
    {
        Vec3 {
            x: fx_add(self.x, rhs.x),
            y: fx_add(self.y, rhs.y),
            z: fx_add(self.z, rhs.z),
        }
    }

    pub fn sub(self, rhs: Vec3) -> (r: Vec3)
        ensures
            r == self.spec_sub(rhs),
            r.wf(),
    {
        Vec3 {
            x: sat_i64(self.x as i128 - rhs.x as i128),
            y: sat_i64(self.y as i128 - rhs.y as i128),
            z: sat_i64(self.z as i128 - rhs.z as i128),
        }
    }

    pub fn neg(self) -> (r: Vec3)
        ensures
            r == self.spec_neg(),
            r.wf(),
    {
        Vec3 {
            x: sat_i64(-(self.x as i128)),
            y: sat_i64(-(self.y as i128)),
            z: sat_i64(-(self.z as i128)),
        }
    }

    pub fn mul(self, rhs: Vec3) -> (r: Vec3)
        ensures
            r == self.spec_mulv(rhs),
            r.wf(),
    {
        Vec3 {
            x: fx_mul(self.x, rhs.x),
            y: fx_mul(self.y, rhs.y),
            z: fx_mul(self.z, rhs.z),
        }
    }

    pub fn div(self, rhs: Vec3) -> (r: Vec3)
        requires
            rhs.x != 0,
            rhs.y != 0,
            rhs.z != 0,
        ensures
            r == self.spec_divv(rhs),
            r.wf(),
    {
        Vec3 {
            x: fx_div(self.x, rhs.x),
            y: fx_div(self.y, rhs.y),
            z: fx_div(self.z, rhs.z),
        }
    }

    pub fn mul_n(&self, n: i64) -> (r: Vec3)
        ensures
            r == self.spec_mul_n(n as int),
            r.wf(),
    {
        Vec3 {
            x: fx_mul(self.x, n),
            y: fx_mul(self.y, n),
            z: fx_mul(self.z, n),
        }
    }

    pub fn abs(&self) -> (r: Vec3)
        ensures
            r == self.spec_abs(),
            r.wf(),
    {
        let ax: i128 = if self.x < 0 {
            -(self.x as i128)
        } else {
            self.x as i128
        };
        let ay: i128 = if self.y < 0 {
            -(self.y as i128)
        } else {
            self.y as i128
        };
        let az: i128 = if self.z < 0 {
            -(self.z as i128)
        } else {
            self.z as i128
        };
        Vec3 { x: sat_i64(ax), y: sat_i64(ay), z: sat_i64(az) }
    }

    pub fn dot(&self, other: &Vec3) -> (r: i64)
        requires
            self.wf(),
            other.wf(),
        ensures
            r as int == self.spec_dot(*other),
            fx_wf(r),
    {
        proof {
            lemma_prod_bound(self.x as int, other.x as int);
            lemma_prod_bound(self.y as int, other.y as int);
            lemma_prod_bound(self.z as int, other.z as int);
        }
        let s: i128 = (self.x as i128) * (other.x as i128) + (self.y as i128) * (other.y as i128)
            + (self.z as i128) * (other.z as i128);
        let q: i128 = tdiv_i128(s, SCALE as i128);
        sat_i64(q)
    }

    pub fn mag(&self) -> (r: i64)
        requires
            self.wf(),
        ensures
            r as int == self.spec_mag(),
            0 <= r <= FX_MAX,
    {
        proof {
            lemma_square_bound(self.x as int);
            lemma_square_bound(self.y as int);
            lemma_square_bound(self.z as int);
            lemma_sqrt_floor_bounds(self.spec_mag_sq());
        }
        let s: i128 = (self.x as i128) * (self.x as i128) + (self.y as i128) * (self.y as i128)
            + (self.z as i128) * (self.z as i128);
        let q: u128 = isqrt_u128(s as u128);
        if q > FX_MAX as u128 {
            FX_MAX
        } else {
            q as i64
        }
    }

    pub fn cross(&self, other: &Vec3) -> (r: Vec3)
        ensures
            r == self.spec_cross(*other),
            r.wf(),
    {
        let xa: i64 = fx_mul(self.y, other.z);
        let xb: i64 = fx_mul(self.z, other.y);
        let ya: i64 = fx_mul(self.z, other.x);
        let yb: i64 = fx_mul(self.x, other.z);
        let za: i64 = fx_mul(self.x, other.y);
        let zb: i64 = fx_mul(self.y, other.x);
        Vec3 {
            x: sat_i64(xa as i128 - xb as i128),
            y: sat_i64(ya as i128 - yb as i128),
            z: sat_i64(za as i128 - zb as i128),
        }
    }

    pub fn cos_angle(&self, other: &Vec3) -> (r: i64)
        requires
            self.wf(),
            other.wf(),
        ensures
            r as int == self.spec_cos_angle(*other),
            fx_wf(r),
    {
        let ma: i64 = self.mag();
        let mb: i64 = other.mag();
        let den: i64 = fx_mul(ma, mb);
        if den == 0 {
            0
        } else {
            fx_div(self.dot(other), den)
        }
    }

    pub fn norm(&self) -> (r: Vec3)
        requires
            self.wf(),
        ensures
            r == self.spec_norm(),
    {
        let m: i64 = self.mag();
        if m > 0 {
            Vec3 {
                x: fx_div(self.x, m),
                y: fx_div(self.y, m),
                z: fx_div(self.z, m),
            }
        } else {
            *self
        }
    }

    pub fn dist(&self, other: &Vec3) -> (r: i64)
        ensures
            r as int == self.spec_dist(*other),
            0 <= r <= FX_MAX,
    {
        self.sub(*other).mag()
    }

    pub fn approx_eq(&self, other: &Vec3) -> (r: bool)
        ensures
            r == (vstd::math::abs(self.x - other.x) <= EPS && vstd::math::abs(self.y - other.y)
                <= EPS && vstd::math::abs(self.z - other.z) <= EPS),
    {
        crate::math::approx_eq(self.x, other.x) && crate::math::approx_eq(self.y, other.y)
            && crate::math::approx_eq(self.z, other.z)
    }

    pub fn reflect(&self, n: &Vec3) -> (r: Vec3)
        requires
            self.wf(),
            n.wf(),
        ensures
            r == self.spec_reflect(*n),
            r.wf(),
    {
        let d: i64 = self.dot(n);
        let d2: i64 = fx_add(d, d);
        self.sub(Vec3::diag(d2).mul(*n))
    }

    pub fn orth(&self) -> (r: Vec3)
        ensures
            r == self.spec_orth(),
            r.wf(),
    {
        let zm: i128 = if self.z < 0 {
            -(self.z as i128)
        } else {
            self.z as i128
        };
        let xm: i128 = if self.x < 0 {
            -(self.x as i128)
        } else {
            self.x as i128
        };
        let ym: i128 = if self.y < 0 {
            -(self.y as i128)
        } else {
            self.y as i128
        };
        let cx: i128 = if self.z >= 0 {
            xm
        } else {
            -xm
        };
        let cy: i128 = if self.z >= 0 {
            ym
        } else {
            -ym
        };
        let czx: i128 = if self.x >= 0 {
            zm
        } else {
            -zm
        };
        let czy: i128 = if self.y >= 0 {
            zm
        } else {
            -zm
        };
        Vec3 { x: sat_i64(cx), y: sat_i64(cy), z: sat_i64(-czx - czy) }
    }

    /// A random direction of unit magnitude within rounding, used only to
    /// perturb scattered rays; the draw is not uniform over the sphere.
    pub fn random_unit() -> (r: Vec3)
        ensures
            r.wf(),
            exists|w: Vec3|
                w.wf() && w.spec_mag() >= 128 && (#[trigger] w.spec_norm()) == r,
            vstd::math::abs(r.spec_mag() - SCALE) <= EPS,
    {
        let mut k: usize = 0;
        while k < 8
            invariant
                k <= 8,
            decreases 8 - k,
        {
            let v = Vec3::new(rand_component(), rand_component(), rand_component());
            let m: i64 = v.mag();
            if m >= 128 {
                let u = v.norm();
                proof {
                    assert(u.wf()) by {
                        assert(v.spec_mag() > 0);
                    }
                    assert(v.spec_norm() == u);
                    lemma_square_bound(v.x as int);
                    lemma_square_bound(v.y as int);
                    lemma_square_bound(v.z as int);
                    assert(v.spec_mag_sq() <= 3298534883328) by (nonlinear_arith)
                        requires
                            -1048576 <= v.x <= 1048576,
                            -1048576 <= v.y <= 1048576,
                            -1048576 <= v.z <= 1048576,
                            v.spec_mag_sq() == v.x * v.x + v.y * v.y + v.z * v.z,
                    ;
                    lemma_sqrt_floor_bounds(v.spec_mag_sq());
                    let mm = sqrt_floor(v.spec_mag_sq());
                    assert(mm < FX_MAX) by (nonlinear_arith)
                        requires
                            mm * mm <= 3298534883328,
                            mm >= 0,
                            FX_MAX == 1099511627776,
                    ;
                    assert(v.spec_mag() == mm);
                    lemma_norm_magnitude(v);
                }
                return u;
            }
            k = k + 1;
        }
        let w = Vec3::new(SCALE, 0, 0);
        let u = w.norm();
        proof {
            lemma_sqrt_floor_unique(w.spec_mag_sq(), SCALE as int);
            assert(w.spec_mag() == SCALE);
            assert(w.spec_norm() == u);
            crate::math::lemma_tdiv_exact(SCALE as int, SCALE as int);
            assert(u == w);
        }
        u
    }
}

/// A value within a symmetric bound has a square within the bound's square.
pub proof fn lemma_square_le(t: int, a: int, u: int)
    by (nonlinear_arith)
    requires
        -a <= t <= a,
        a == u || a == -u,
    ensures
        t * t <= u * u,
{
}

/// A value within one divisor-step of `u` has a square within `2*bnd*m`
/// of the square of `u`.
pub proof fn lemma_square_near(t: int, u: int, r: int, m: int, bnd: int)
    by (nonlinear_arith)
    requires
        t == u - r,
        -m <= r <= m,
        -bnd <= u <= bnd,
        m >= 0,
        bnd >= 0,
    ensures
        t * t >= u * u - 2 * bnd * m,
{
}

/// A value within one divisor-step of `u` has a square at most `2*bnd*m`
/// plus a step above the square of `u`.
pub proof fn lemma_square_near_hi(t: int, u: int, r: int, m: int, bnd: int)
    by (nonlinear_arith)
    requires
        t == u - r,
        -m <= r <= m,
        -bnd <= u <= bnd,
        m >= 0,
        bnd >= 0,
    ensures
        t * t <= u * u + 2 * bnd * m + m * m,
{
}

/// Normalization law: for any vector whose magnitude is at least `128`
/// units (about one eight-thousandth) and clear of saturation, the
/// magnitude of the normalized vector is one within the tolerance `EPS`.
/// Below that floor the quotients are too coarse: the vector with one
/// mantissa unit in two components normalizes to magnitude well above one.
pub proof fn lemma_norm_magnitude(v: Vec3)
    requires
        v.wf(),
        v.spec_mag() >= 128,
        v.spec_mag() < FX_MAX,
    ensures
        vstd::math::abs(v.spec_norm().spec_mag() - SCALE) <= EPS,
{
    let x = v.x as int;
    let y = v.y as int;
    let z = v.z as int;
    let sq = v.spec_mag_sq();
    lemma_square_bound(x);
    lemma_square_bound(y);
    lemma_square_bound(z);
    lemma_sqrt_floor_bounds(sq);
    let m = sqrt_floor(sq);
    assert(v.spec_mag() == m);
    assert(m >= 128);
    assert(m * m <= sq && sq < (m + 1) * (m + 1));

    // each component is bounded by the magnitude
    assert(-m <= x <= m) by (nonlinear_arith)
        requires
            x * x + (y * y + z * z) < (m + 1) * (m + 1),
            y * y >= 0,
            z * z >= 0,
            m >= 0,
    ;
    assert(-m <= y <= m) by (nonlinear_arith)
        requires
            y * y + (x * x + z * z) < (m + 1) * (m + 1),
            x * x >= 0,
            z * z >= 0,
            m >= 0,
    ;
    assert(-m <= z <= m) by (nonlinear_arith)
        requires
            z * z + (x * x + y * y) < (m + 1) * (m + 1),
            x * x >= 0,
            y * y >= 0,
            m >= 0,
    ;

    // the normalized components stay within one whole unit, so no clipping
    let qx = tdiv(x * SCALE, m);
    let qy = tdiv(y * SCALE, m);
    let qz = tdiv(z * SCALE, m);
    assert(-(SCALE * m) <= x * SCALE <= SCALE * m && -(SCALE * m) <= y * SCALE <= SCALE * m && -(
    SCALE * m) <= z * SCALE <= SCALE * m) by (nonlinear_arith)
        requires
            -m <= x <= m,
            -m <= y <= m,
            -m <= z <= m,
            m >= 0,
            SCALE == 1048576,
    ;
    crate::math::lemma_tdiv_bound(x * SCALE, m, SCALE as int);
    crate::math::lemma_tdiv_bound(y * SCALE, m, SCALE as int);
    crate::math::lemma_tdiv_bound(z * SCALE, m, SCALE as int);
    let w = v.spec_norm();
    assert(w == Vec3 { x: qx as i64, y: qy as i64, z: qz as i64 });
    let qq = qx * qx + qy * qy + qz * qz;
    assert(w.spec_mag_sq() == qq);

    // upper: m^2 * qq <= SCALE^2 * sq
    crate::math::lemma_tdiv_mul_le(x * SCALE, m);
    crate::math::lemma_tdiv_mul_le(y * SCALE, m);
    crate::math::lemma_tdiv_mul_le(z * SCALE, m);
    let ax = vstd::math::abs(x * SCALE) as int;
    let ay = vstd::math::abs(y * SCALE) as int;
    let az = vstd::math::abs(z * SCALE) as int;
    assert(-ax <= qx * m <= ax && -ay <= qy * m <= ay && -az <= qz * m <= az);
    assert(ax == x * SCALE || ax == -(x * SCALE));
    assert(ay == y * SCALE || ay == -(y * SCALE));
    assert(az == z * SCALE || az == -(z * SCALE));
    lemma_square_le(qx * m, ax, x * SCALE);
    lemma_square_le(qy * m, ay, y * SCALE);
    lemma_square_le(qz * m, az, z * SCALE);
    assert((qx * m) * (qx * m) == (m * m) * (qx * qx)) by (nonlinear_arith);
    assert((qy * m) * (qy * m) == (m * m) * (qy * qy)) by (nonlinear_arith);
    assert((qz * m) * (qz * m) == (m * m) * (qz * qz)) by (nonlinear_arith);
    vstd::arithmetic::mul::lemma_mul_is_distributive_add(m * m, qx * qx + qy * qy, qz * qz);
    vstd::arithmetic::mul::lemma_mul_is_distributive_add(m * m, qx * qx, qy * qy);
    assert(m * m * qq == (qx * m) * (qx * m) + (qy * m) * (qy * m) + (qz * m) * (qz * m));
    assert((x * SCALE) * (x * SCALE) == (SCALE * SCALE) * (x * x)) by (nonlinear_arith);
    assert((y * SCALE) * (y * SCALE) == (SCALE * SCALE) * (y * y)) by (nonlinear_arith);
    assert((z * SCALE) * (z * SCALE) == (SCALE * SCALE) * (z * z)) by (nonlinear_arith);
    vstd::arithmetic::mul::lemma_mul_is_distributive_add(SCALE * SCALE, x * x + y * y, z * z);
    vstd::arithmetic::mul::lemma_mul_is_distributive_add(SCALE * SCALE, x * x, y * y);
    assert(SCALE * SCALE * sq == (x * SCALE) * (x * SCALE) + (y * SCALE) * (y * SCALE) + (z * SCALE)
        * (z * SCALE));
    assert(m * m * qq <= SCALE * SCALE * sq);

    // a ceiling whose square clears SCALE^2 * (m+1)^2
    let bq = tdiv(SCALE as int, m);
    assert(bq == SCALE as int / m);
    vstd::arithmetic::div_mod::lemma_fundamental_div_mod(SCALE as int, m);
    vstd::arithmetic::div_mod::lemma_mod_division_less_than_divisor(SCALE as int, m);
    let bb = SCALE + bq + 1;
    assert(m * bb >= SCALE * (m + 1)) by (nonlinear_arith)
        requires
            SCALE == m * bq + (SCALE as int % m),
            0 <= SCALE as int % m < m,
            bb == SCALE + bq + 1,
    ;
    assert(qq < bb * bb) by (nonlinear_arith)
        requires
            m * m * qq <= SCALE * SCALE * sq,
            sq < (m + 1) * (m + 1),
            m * bb >= SCALE * (m + 1),
            m > 0,
            SCALE > 0,
            bb > 0,
    ;

    // lower: each quotient is within one divisor of the exact ratio
    crate::math::lemma_tdiv_rem(x * SCALE, m);
    crate::math::lemma_tdiv_rem(y * SCALE, m);
    crate::math::lemma_tdiv_rem(z * SCALE, m);
    let rx = x * SCALE - qx * m;
    let ry = y * SCALE - qy * m;
    let rz = z * SCALE - qz * m;
    assert(-m <= rx <= m && -m <= ry <= m && -m <= rz <= m);
    lemma_square_near(qx * m, x * SCALE, rx, m, SCALE * m);
    lemma_square_near(qy * m, y * SCALE, ry, m, SCALE * m);
    lemma_square_near(qz * m, z * SCALE, rz, m, SCALE * m);
    assert(2 * (SCALE * m) * m == 2097152 * (m * m)) by (nonlinear_arith)
        requires
            SCALE == 1048576,
    ;
    assert((qx * m) * (qx * m) >= (x * SCALE) * (x * SCALE) - 2097152 * (m * m));
    assert((qy * m) * (qy * m) >= (y * SCALE) * (y * SCALE) - 2097152 * (m * m));
    assert((qz * m) * (qz * m) >= (z * SCALE) * (z * SCALE) - 2097152 * (m * m));
    assert(m * m * qq >= SCALE * SCALE * sq - 6291456 * (m * m));
    assert(qq >= SCALE * SCALE - 6 * SCALE) by (nonlinear_arith)
        requires
            m * m * qq >= SCALE * SCALE * sq - 6291456 * (m * m),
            sq >= m * m,
            m > 0,
            SCALE == 1048576,
    ;

    // read the bounds off the square root
    crate::math::lemma_sqrt_floor_bounds(qq);
    let r = sqrt_floor(qq);
    assert(r < bb) by (nonlinear_arith)
        requires
            r * r <= qq,
            qq < bb * bb,
            r >= 0,
            bb >= 0,
    ;
    assert(r >= SCALE - 4) by (nonlinear_arith)
        requires
            (r + 1) * (r + 1) > qq,
            qq >= SCALE * SCALE - 6 * SCALE,
            SCALE == 1048576,
            r >= 0,
    ;
    vstd::arithmetic::div_mod::lemma_div_is_ordered_by_denominator(SCALE as int, 128, m);
    assert(bq <= 8192);
    assert(w.spec_mag() == r);
}

/// A signed product stays within the product of the operands' bounds.
pub proof fn lemma_abs_mul_bound(a: int, b: int, ba: int, bb2: int)
    by (nonlinear_arith)
    requires
        -ba <= a <= ba,
        -bb2 <= b <= bb2,
        ba >= 0,
        bb2 >= 0,
    ensures
        -(ba * bb2) <= a * b <= ba * bb2,
{
}

/// One scaled-up reflection component: substituting the quotient equation
/// turns the subtraction into an exact polynomial identity.
proof fn lemma_rs_expand(v1: int, n1: int, d: int, q1: int, s1: int, r1: int)
    by (nonlinear_arith)
    requires
        q1 * 1048576 == 2 * d * n1 - s1,
        r1 == v1 - q1,
    ensures
        (r1 * n1) * 1048576 == (v1 * n1) * 1048576 - 2 * d * (n1 * n1) + s1 * n1,
{
}

/// Double-reflection law: reflecting about the same unit normal twice is
/// the identity within `EPS`, for vectors up to 256 whole units per
/// component; the rounding error grows with the vector, so far larger
/// inputs can drift past the tolerance.
pub proof fn lemma_reflect_involution(v: Vec3, n: Vec3)
    requires
        v.wf(),
        n.wf(),
        -268435456 <= v.x <= 268435456,
        -268435456 <= v.y <= 268435456,
        -268435456 <= v.z <= 268435456,
        n.spec_mag() == SCALE,
    ensures
        vstd::math::abs(v.spec_reflect(n).spec_reflect(n).x - v.x) <= EPS,
        vstd::math::abs(v.spec_reflect(n).spec_reflect(n).y - v.y) <= EPS,
        vstd::math::abs(v.spec_reflect(n).spec_reflect(n).z - v.z) <= EPS,
{
    let vx = v.x as int;
    let vy = v.y as int;
    let vz = v.z as int;
    let nx = n.x as int;
    let ny = n.y as int;
    let nz = n.z as int;

    // the normal's square sum sits between SCALE^2 and (SCALE+1)^2
    let nn = n.spec_mag_sq();
    lemma_square_bound(nx);
    lemma_square_bound(ny);
    lemma_square_bound(nz);
    lemma_sqrt_floor_bounds(nn);
    assert(nn >= 0);
    assert(sat(sqrt_floor(nn)) == SCALE);
    assert(sqrt_floor(nn) >= 0);
    assert(sqrt_floor(nn) == SCALE);
    assert(1099511627776 <= nn < 1099513724929);
    assert(-1048576 <= nx <= 1048576) by (nonlinear_arith)
        requires
            nx * nx + (ny * ny + nz * nz) < 1099513724929,
            ny * ny >= 0,
            nz * nz >= 0,
    ;
    assert(-1048576 <= ny <= 1048576) by (nonlinear_arith)
        requires
            ny * ny + (nx * nx + nz * nz) < 1099513724929,
            nx * nx >= 0,
            nz * nz >= 0,
    ;
    assert(-1048576 <= nz <= 1048576) by (nonlinear_arith)
        requires
            nz * nz + (nx * nx + ny * ny) < 1099513724929,
            nx * nx >= 0,
            ny * ny >= 0,
    ;

    // the first scalar product and its truncation remainder
    let dd = vx * nx + vy * ny + vz * nz;
    lemma_abs_mul_bound(vx, nx, 268435456, 1048576);
    lemma_abs_mul_bound(vy, ny, 268435456, 1048576);
    lemma_abs_mul_bound(vz, nz, 268435456, 1048576);
    crate::math::lemma_tdiv_bound(dd, 1048576, 805306368);
    crate::math::lemma_tdiv_rem(dd, 1048576);
    let d = tdiv(dd, 1048576);
    let rho1 = dd - d * 1048576;
    assert(-1048575 <= rho1 <= 1048575);
    assert(v.spec_dot(n) == d);

    // the first reflection, componentwise
    let qx = tdiv(2 * d * nx, 1048576);
    lemma_abs_mul_bound(2 * d, nx, 1610612736, 1048576);
    crate::math::lemma_tdiv_bound(2 * d * nx, 1048576, 1610612736);
    crate::math::lemma_tdiv_rem(2 * d * nx, 1048576);
    let sx = 2 * d * nx - qx * 1048576;
    assert(-1048575 <= sx <= 1048575);
    let rx = vx - qx;
    assert(fmul(2 * d, nx) == qx);
    let qy = tdiv(2 * d * ny, 1048576);
    lemma_abs_mul_bound(2 * d, ny, 1610612736, 1048576);
    crate::math::lemma_tdiv_bound(2 * d * ny, 1048576, 1610612736);
    crate::math::lemma_tdiv_rem(2 * d * ny, 1048576);
    let sy = 2 * d * ny - qy * 1048576;
    assert(-1048575 <= sy <= 1048575);
    let ry = vy - qy;
    assert(fmul(2 * d, ny) == qy);
    let qz = tdiv(2 * d * nz, 1048576);
    lemma_abs_mul_bound(2 * d, nz, 1610612736, 1048576);
    crate::math::lemma_tdiv_bound(2 * d * nz, 1048576, 1610612736);
    crate::math::lemma_tdiv_rem(2 * d * nz, 1048576);
    let sz = 2 * d * nz - qz * 1048576;
    assert(-1048575 <= sz <= 1048575);
    let rz = vz - qz;
    assert(fmul(2 * d, nz) == qz);

    let r = v.spec_reflect(n);
    assert(sat(2 * v.spec_dot(n)) == 2 * d);
    assert(r.x as int == rx && r.y as int == ry && r.z as int == rz);
    assert(r.wf());

    // the second scalar product and its remainder
    let dd2 = rx * nx + ry * ny + rz * nz;
    lemma_abs_mul_bound(rx, nx, 1879048192, 1048576);
    lemma_abs_mul_bound(ry, ny, 1879048192, 1048576);
    lemma_abs_mul_bound(rz, nz, 1879048192, 1048576);
    crate::math::lemma_tdiv_bound(dd2, 1048576, 5637144576);
    crate::math::lemma_tdiv_rem(dd2, 1048576);
    let dp = tdiv(dd2, 1048576);
    let rho2 = dd2 - dp * 1048576;
    assert(-1048575 <= rho2 <= 1048575);
    assert(r.spec_dot(n) == dp);

    // the second reflection, componentwise
    let q2x = tdiv(2 * dp * nx, 1048576);
    lemma_abs_mul_bound(2 * dp, nx, 11274289152, 1048576);
    crate::math::lemma_tdiv_bound(2 * dp * nx, 1048576, 11274289152);
    crate::math::lemma_tdiv_rem(2 * dp * nx, 1048576);
    let s2x = 2 * dp * nx - q2x * 1048576;
    assert(-1048575 <= s2x <= 1048575);
    let r2x = rx - q2x;
    assert(fmul(2 * dp, nx) == q2x);
    let q2y = tdiv(2 * dp * ny, 1048576);
    lemma_abs_mul_bound(2 * dp, ny, 11274289152, 1048576);
    crate::math::lemma_tdiv_bound(2 * dp * ny, 1048576, 11274289152);
    crate::math::lemma_tdiv_rem(2 * dp * ny, 1048576);
    let s2y = 2 * dp * ny - q2y * 1048576;
    assert(-1048575 <= s2y <= 1048575);
    let r2y = ry - q2y;
    assert(fmul(2 * dp, ny) == q2y);
    let q2z = tdiv(2 * dp * nz, 1048576);
    lemma_abs_mul_bound(2 * dp, nz, 11274289152, 1048576);
    crate::math::lemma_tdiv_bound(2 * dp * nz, 1048576, 11274289152);
    crate::math::lemma_tdiv_rem(2 * dp * nz, 1048576);
    let s2z = 2 * dp * nz - q2z * 1048576;
    assert(-1048575 <= s2z <= 1048575);
    let r2z = rz - q2z;
    assert(fmul(2 * dp, nz) == q2z);

    let r2 = r.spec_reflect(n);
    assert(sat(2 * r.spec_dot(n)) == 2 * dp);
    assert(r2.x as int == r2x && r2.y as int == r2y && r2.z as int == r2z);

    // the scaled-up second product collapses to the first one mirrored
    lemma_rs_expand(vx, nx, d, qx, sx, rx);
    lemma_rs_expand(vy, ny, d, qy, sy, ry);
    lemma_rs_expand(vz, nz, d, qz, sz, rz);
    let tt = sx * nx + sy * ny + sz * nz;
    assert(2 * d * (nx * nx) + 2 * d * (ny * ny) + 2 * d * (nz * nz) == 2 * (d * nn))
        by (nonlinear_arith)
        requires
            nn == nx * nx + ny * ny + nz * nz,
    ;
    assert(dd2 * 1048576 == dd * 1048576 - 2 * (d * nn) + tt);
    let eta = nn - 1099511627776;
    assert(0 <= eta <= 2097152);
    assert(2 * (d * nn) == 2 * (d * 1099511627776) + 2 * (d * eta)) by (nonlinear_arith)
        requires
            nn == 1099511627776 + eta,
    ;
    assert(dd * 1048576 == d * 1099511627776 + rho1 * 1048576);
    assert(dp * 1099511627776 == dd2 * 1048576 - rho2 * 1048576);
    let w = rho1 * 1048576 - 2 * (d * eta) + tt - rho2 * 1048576;
    assert((d + dp) * 1099511627776 == w);
    lemma_abs_mul_bound(d, eta, 805306368, 2097152);
    lemma_abs_mul_bound(sx, nx, 1048575, 1048576);
    lemma_abs_mul_bound(sy, ny, 1048575, 1048576);
    lemma_abs_mul_bound(sz, nz, 1048575, 1048576);
    assert(-3383197273423872 <= w <= 3383197273423872);

    // component x: the two quotients cancel up to bounded error
    assert(2 * d * nx + 2 * dp * nx == 2 * ((d + dp) * nx)) by (nonlinear_arith);
    assert((qx + q2x) * 1048576 == 2 * ((d + dp) * nx) - sx - s2x);
    assert(2 * (((d + dp) * nx) * 1099511627776) == 2 * (nx * w)) by (nonlinear_arith)
        requires
            w == (d + dp) * 1099511627776,
    ;
    lemma_abs_mul_bound(nx, w, 1048576, 3383197273423872);
    assert((qx + q2x) * 1152921504606846976 == 2 * (nx * w) - (sx + s2x)
        * 1099511627776) by (nonlinear_arith)
        requires
            (qx + q2x) * 1048576 == 2 * ((d + dp) * nx) - sx - s2x,
            2 * (((d + dp) * nx) * 1099511627776) == 2 * (nx * w),
    ;
    assert(-7097384769165610450944 <= (qx + q2x) * 1152921504606846976
        <= 7097384769165610450944);
    assert(-6156 <= qx + q2x <= 6156);
    assert(r2x - vx == -(qx + q2x));
    // component y: the two quotients cancel up to bounded error
    assert(2 * d * ny + 2 * dp * ny == 2 * ((d + dp) * ny)) by (nonlinear_arith);
    assert((qy + q2y) * 1048576 == 2 * ((d + dp) * ny) - sy - s2y);
    assert(2 * (((d + dp) * ny) * 1099511627776) == 2 * (ny * w)) by (nonlinear_arith)
        requires
            w == (d + dp) * 1099511627776,
    ;
    lemma_abs_mul_bound(ny, w, 1048576, 3383197273423872);
    assert((qy + q2y) * 1152921504606846976 == 2 * (ny * w) - (sy + s2y)
        * 1099511627776) by (nonlinear_arith)
        requires
            (qy + q2y) * 1048576 == 2 * ((d + dp) * ny) - sy - s2y,
            2 * (((d + dp) * ny) * 1099511627776) == 2 * (ny * w),
    ;
    assert(-7097384769165610450944 <= (qy + q2y) * 1152921504606846976
        <= 7097384769165610450944);
    assert(-6156 <= qy + q2y <= 6156);
    assert(r2y - vy == -(qy + q2y));
    // component z: the two quotients cancel up to bounded error
    assert(2 * d * nz + 2 * dp * nz == 2 * ((d + dp) * nz)) by (nonlinear_arith);
    assert((qz + q2z) * 1048576 == 2 * ((d + dp) * nz) - sz - s2z);
    assert(2 * (((d + dp) * nz) * 1099511627776) == 2 * (nz * w)) by (nonlinear_arith)
        requires
            w == (d + dp) * 1099511627776,
    ;
    lemma_abs_mul_bound(nz, w, 1048576, 3383197273423872);
    assert((qz + q2z) * 1152921504606846976 == 2 * (nz * w) - (sz + s2z)
        * 1099511627776) by (nonlinear_arith)
        requires
            (qz + q2z) * 1048576 == 2 * ((d + dp) * nz) - sz - s2z,
            2 * (((d + dp) * nz) * 1099511627776) == 2 * (nz * w),
    ;
    assert(-7097384769165610450944 <= (qz + q2z) * 1152921504606846976
        <= 7097384769165610450944);
    assert(-6156 <= qz + q2z <= 6156);
    assert(r2z - vz == -(qz + q2z));
}

/// One random scalar in `[-1, 1]`.
fn rand_component() -> (c: i64)
    ensures
        -SCALE <= c <= SCALE,
{
    let a: u32 = rand::random();
    let m: u32 = a % 2097153;
    (m as i64) - SCALE
}

} // verus!
