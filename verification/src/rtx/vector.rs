//! Three-component fixed-point vectors.
//!
//! Components are `i64` scalars scaled by [`crate::fx::SCALE`]. Raw dot
//! products (no rescaling) carry scale `SCALE * SCALE`; the fixed-point dot
//! product and the vector length rescale back. Every operation has an exact
//! contract over the integer model in `fx`.

use vstd::prelude::*;
use crate::fx::{
    SCALE, div_trunc, div_fx, mul_fx, sqrt_floor, is_sqrt_floor,
    div_i128, isqrt_i128, lemma_div_trunc_bounds, lemma_div_trunc_mag,
};
use crate::rng::{SampleRng, next_u64_spec, next_state_spec};
use crate::rtx::interval::Interval;

verus! {

/// Components at or below this magnitude never overflow in any operation of
/// this module; positions, centers and radii are kept within it.
pub const COORD_LIMIT: i64 = 0x10_0000_0000; // 1 << 36

/// Bound for direction vectors (unit-ish vectors, their small combinations,
/// and every direction the scattering model can produce).
pub const DIR_LIMIT: i64 = 0x40_0000; // 1 << 22

/// Components at or below this magnitude count as "near zero" (the guard the
/// scattering model uses against degenerate directions).
pub const NEAR_EPS: i64 = 1;

#[derive(Clone, Copy, Debug, PartialEq, Eq, Structural)]
pub struct Vector {
    pub x: i64,
    pub y: i64,
    pub z: i64,
}

/// Build a vector from mathematical integers (exact when each fits `i64`).
pub open spec fn vec3(x: int, y: int, z: int) -> Vector {
    Vector { x: x as i64, y: y as i64, z: z as i64 }
}

/// All components within `[-b, b]`.
pub open spec fn fits(v: Vector, b: int) -> bool {
    &&& -b <= v.x <= b
    &&& -b <= v.y <= b
    &&& -b <= v.z <= b
}

/// Raw dot product: scale `SCALE * SCALE` when both arguments are scaled.
pub open spec fn dot_spec(a: Vector, b: Vector) -> int {
    a.x * b.x + a.y * b.y + a.z * b.z
}

pub open spec fn add_spec(a: Vector, b: Vector) -> Vector {
    vec3(a.x + b.x, a.y + b.y, a.z + b.z)
}

pub open spec fn sub_spec(a: Vector, b: Vector) -> Vector {
    vec3(a.x - b.x, a.y - b.y, a.z - b.z)
}

pub open spec fn neg_spec(a: Vector) -> Vector {
    vec3(-a.x, -a.y, -a.z)
}

/// Scaling by a fixed-point scalar.
pub open spec fn scale_spec(a: Vector, s: int) -> Vector {
    vec3(mul_fx(a.x as int, s), mul_fx(a.y as int, s), mul_fx(a.z as int, s))
}

/// Componentwise fixed-point product (used for colors).
pub open spec fn mul_vec_spec(a: Vector, b: Vector) -> Vector {
    vec3(mul_fx(a.x as int, b.x as int), mul_fx(a.y as int, b.y as int), mul_fx(a.z as int, b.z as int))
}

/// Division by a positive fixed-point scalar.
pub open spec fn div_vec_spec(a: Vector, s: int) -> Vector {
    vec3(div_fx(a.x as int, s), div_fx(a.y as int, s), div_fx(a.z as int, s))
}

/// Componentwise division by a positive plain integer (a count, not a
/// fixed-point value), as used to split a viewport into pixels or to average
/// samples.
pub open spec fn div_int_spec(a: Vector, n: int) -> Vector {
    vec3(div_trunc(a.x as int, n), div_trunc(a.y as int, n), div_trunc(a.z as int, n))
}

/// Fixed-point dot product (scale `SCALE`).
pub open spec fn dot_fx_spec(a: Vector, b: Vector) -> int {
    div_trunc(dot_spec(a, b), SCALE as int)
}

/// Fixed-point length: the integer square root of the raw self dot product
/// is again scaled by `SCALE`.
pub open spec fn length_spec(v: Vector) -> int {
    sqrt_floor(dot_spec(v, v))
}

/// Fixed-point squared length (scale `SCALE`).
pub open spec fn length_squared_spec(v: Vector) -> int {
    div_trunc(dot_spec(v, v), SCALE as int)
}

pub open spec fn near_zero_spec(v: Vector) -> bool {
    &&& -NEAR_EPS <= v.x <= NEAR_EPS
    &&& -NEAR_EPS <= v.y <= NEAR_EPS
    &&& -NEAR_EPS <= v.z <= NEAR_EPS
}

/// Normalization; the zero vector stays the zero vector.
pub open spec fn normalize_spec(v: Vector) -> Vector {
    let len = length_spec(v);
    if len == 0 {
        vec3(0, 0, 0)
    } else {
        vec3(
            div_trunc(v.x * (SCALE as int), len),
            div_trunc(v.y * (SCALE as int), len),
            div_trunc(v.z * (SCALE as int), len),
        )
    }
}

pub open spec fn cross_spec(a: Vector, b: Vector) -> Vector {
    vec3(
        div_trunc(a.y * b.z - a.z * b.y, SCALE as int),
        div_trunc(a.z * b.x - a.x * b.z, SCALE as int),
        div_trunc(a.x * b.y - a.y * b.x, SCALE as int),
    )
}

/// Mirror of a direction about a normal: `d - 2 (d . n) n`.
pub open spec fn reflect_spec(d: Vector, n: Vector) -> Vector {
    let dn = dot_spec(d, n);
    vec3(
        d.x - div_trunc(2 * dn * n.x, (SCALE as int) * (SCALE as int)),
        d.y - div_trunc(2 * dn * n.y, (SCALE as int) * (SCALE as int)),
        d.z - div_trunc(2 * dn * n.z, (SCALE as int) * (SCALE as int)),
    )
}

/// Refraction of a unit direction `d` at a surface with unit normal `n` and
/// refraction ratio `ratio` (fixed point), by the vector form
/// `r_perp = ratio (d + cos n)`, `r_par = -sqrt(|1 - |r_perp|^2|) n`.
pub open spec fn refract_spec(d: Vector, n: Vector, ratio: int) -> Vector {
    let cos0 = div_trunc(-dot_spec(d, n), SCALE as int);
    let cos = if cos0 > SCALE as int { SCALE as int } else { cos0 };
    let perp = vec3(
        div_trunc(ratio * (d.x + div_trunc(cos * n.x, SCALE as int)), SCALE as int),
        div_trunc(ratio * (d.y + div_trunc(cos * n.y, SCALE as int)), SCALE as int),
        div_trunc(ratio * (d.z + div_trunc(cos * n.z, SCALE as int)), SCALE as int),
    );
    let lsq = div_trunc(dot_spec(perp, perp), SCALE as int);
    let inner = if SCALE as int - lsq >= 0 { SCALE as int - lsq } else { lsq - SCALE as int };
    let spar = sqrt_floor(inner * (SCALE as int));
    vec3(
        perp.x - div_trunc(spar * n.x, SCALE as int),
        perp.y - div_trunc(spar * n.y, SCALE as int),
        perp.z - div_trunc(spar * n.z, SCALE as int),
    )
}

/// Magnitude bound on a product from magnitude bounds on the factors.
pub proof fn lemma_mul_bounds(a: int, b: int, ba: int, bb: int)
    requires
        -ba <= a <= ba,
        -bb <= b <= bb,
        0 <= ba,
        0 <= bb,
    ensures
        -(ba * bb) <= a * b <= ba * bb,
{
    assert(-(ba * bb) <= a * b <= ba * bb) by (nonlinear_arith)
        requires
            -ba <= a <= ba,
            -bb <= b <= bb,
            0 <= ba,
            0 <= bb,
    ;
}

impl Vector {
    pub fn new(x: i64, y: i64, z: i64) -> (r: Vector)
        ensures
            r == (Vector { x, y, z }),
    {
        Vector { x, y, z }
    }

    pub fn zero() -> (r: Vector)
        ensures
            r == vec3(0, 0, 0),
    {
        Vector { x: 0, y: 0, z: 0 }
    }

    pub fn add(self, other: Vector) -> (r: Vector)
        requires
            fits(self, 0x1000_0000_0000_0000),
            fits(other, 0x1000_0000_0000_0000),
        ensures
            r == add_spec(self, other),
    {
        Vector { x: self.x + other.x, y: self.y + other.y, z: self.z + other.z }
    }

    pub fn sub(self, other: Vector) -> (r: Vector)
        requires
            fits(self, 0x1000_0000_0000_0000),
            fits(other, 0x1000_0000_0000_0000),
        ensures
            r == sub_spec(self, other),
    {
        Vector { x: self.x - other.x, y: self.y - other.y, z: self.z - other.z }
    }

    pub fn neg(self) -> (r: Vector)
        requires
            fits(self, 0x1000_0000_0000_0000),
        ensures
            r == neg_spec(self),
    {
        Vector { x: -self.x, y: -self.y, z: -self.z }
    }

    /// Raw dot product at scale `SCALE * SCALE`.
    pub fn dot_raw(self, other: Vector) -> (r: i128)
        requires
            fits(self, 0x4000_0000_0000_0000),
            fits(other, 0x4000_0000_0000_0000),
        ensures
            r == dot_spec(self, other),
    {
        proof {
            lemma_mul_bounds(self.x as int, other.x as int, 0x4000_0000_0000_0000, 0x4000_0000_0000_0000);
            lemma_mul_bounds(self.y as int, other.y as int, 0x4000_0000_0000_0000, 0x4000_0000_0000_0000);
            lemma_mul_bounds(self.z as int, other.z as int, 0x4000_0000_0000_0000, 0x4000_0000_0000_0000);
        }
        (self.x as i128) * (other.x as i128) + (self.y as i128) * (other.y as i128)
            + (self.z as i128) * (other.z as i128)
    }

    /// Fixed-point dot product, the form the optical formulas use.
    pub fn dot(self, other: Vector) -> (r: i64)
        requires
            fits(self, 0x40_0000_0000),
            fits(other, 0x40_0000_0000),
        ensures
            r == dot_fx_spec(self, other),
    {
        let d = self.dot_raw(other);
        proof {
            lemma_mul_bounds(self.x as int, other.x as int, 0x40_0000_0000, 0x40_0000_0000);
            lemma_mul_bounds(self.y as int, other.y as int, 0x40_0000_0000, 0x40_0000_0000);
            lemma_mul_bounds(self.z as int, other.z as int, 0x40_0000_0000, 0x40_0000_0000);
            lemma_div_trunc_mag(d as int, SCALE as int, 0x7fff_ffff_ffff_ffff);
        }
        div_i128(d, SCALE as i128) as i64
    }

    /// Fixed-point length.
    pub fn length(self) -> (r: i64)
        requires
            fits(self, 0x1000_0000_0000_0000),
        ensures
            r == length_spec(self),
            0 <= r,
            is_sqrt_floor(dot_spec(self, self), r as int),
    {
        proof {
            lemma_dot_self_nonneg(self);
        }
        let d = self.dot_raw(self);
        let s = isqrt_i128(d);
        proof {
            lemma_mul_bounds(self.x as int, self.x as int, 0x1000_0000_0000_0000, 0x1000_0000_0000_0000);
            lemma_mul_bounds(self.y as int, self.y as int, 0x1000_0000_0000_0000, 0x1000_0000_0000_0000);
            lemma_mul_bounds(self.z as int, self.z as int, 0x1000_0000_0000_0000, 0x1000_0000_0000_0000);
            assert(s as int * s as int <= d as int);
            assert(s <= 0x7fff_ffff_ffff_ffffi128) by (nonlinear_arith)
                requires
                    s as int * s as int <= d as int,
                    d <= 0x3000_0000_0000_0000_0000_0000_0000_0000i128,
                    s >= 0,
            ;
        }
        s as i64
    }

    /// Fixed-point squared length.
    pub fn length_squared(self) -> (r: i64)
        requires
            fits(self, 0x40_0000_0000),
        ensures
            r == length_squared_spec(self),
    {
        let d = self.dot_raw(self);
        proof {
            lemma_mul_bounds(self.x as int, self.x as int, 0x40_0000_0000, 0x40_0000_0000);
            lemma_mul_bounds(self.y as int, self.y as int, 0x40_0000_0000, 0x40_0000_0000);
            lemma_mul_bounds(self.z as int, self.z as int, 0x40_0000_0000, 0x40_0000_0000);
            lemma_div_trunc_mag(d as int, SCALE as int, 0x7fff_ffff_ffff_ffff);
        }
        div_i128(d, SCALE as i128) as i64
    }

    pub fn near_zero(self) -> (r: bool)
        ensures
            r == near_zero_spec(self),
    {
        -NEAR_EPS <= self.x && self.x <= NEAR_EPS && -NEAR_EPS <= self.y && self.y <= NEAR_EPS
            && -NEAR_EPS <= self.z && self.z <= NEAR_EPS
    }

    /// Scale by a fixed-point scalar.
    pub fn scale(self, s: i64) -> (r: Vector)
        requires
            fits(self, 0x40_0000_0000),
            -0x40_0000_0000 <= s <= 0x40_0000_0000,
        ensures
            r == scale_spec(self, s as int),
    {
        proof {
            lemma_scale_fit(self, s as int, 0x40_0000_0000, 0x40_0000_0000);
        }
        Vector {
            x: mul_fx_exec(self.x, s),
            y: mul_fx_exec(self.y, s),
            z: mul_fx_exec(self.z, s),
        }
    }

    /// Componentwise fixed-point product.
    pub fn mul(self, other: Vector) -> (r: Vector)
        requires
            fits(self, 0x40_0000_0000),
            fits(other, 0x40_0000_0000),
        ensures
            r == mul_vec_spec(self, other),
    {
        proof {
            lemma_mul_bounds(self.x as int, other.x as int, 0x40_0000_0000, 0x40_0000_0000);
            lemma_mul_bounds(self.y as int, other.y as int, 0x40_0000_0000, 0x40_0000_0000);
            lemma_mul_bounds(self.z as int, other.z as int, 0x40_0000_0000, 0x40_0000_0000);
        }
        Vector {
            x: mul_fx_exec(self.x, other.x),
            y: mul_fx_exec(self.y, other.y),
            z: mul_fx_exec(self.z, other.z),
        }
    }

    /// Divide by a positive fixed-point scalar.
    pub fn div(self, s: i64) -> (r: Vector)
        requires
            fits(self, 0x40_0000_0000),
            0 < s,
        ensures
            r == div_vec_spec(self, s as int),
    {
        Vector {
            x: div_fx_exec(self.x, s),
            y: div_fx_exec(self.y, s),
            z: div_fx_exec(self.z, s),
        }
    }

    /// Divide componentwise by a positive plain integer.
    pub fn div_int(self, n: i64) -> (r: Vector)
        requires
            0 < n,
        ensures
            r == div_int_spec(self, n as int),
    {
        proof {
            lemma_div_trunc_bounds(self.x as int, n as int);
            lemma_div_trunc_bounds(self.y as int, n as int);
            lemma_div_trunc_bounds(self.z as int, n as int);
        }
        Vector {
            x: div_i128(self.x as i128, n as i128) as i64,
            y: div_i128(self.y as i128, n as i128) as i64,
            z: div_i128(self.z as i128, n as i128) as i64,
        }
    }

    /// Normalize to a unit-ish vector; the zero vector is left as zero.
    pub fn normalize(self) -> (r: Vector)
        requires
            fits(self, 0x1000_0000_0000_0000),
        ensures
            r == normalize_spec(self),
            fits(r, SCALE as int),
    {
        let len = self.length();
        if len == 0 {
            Vector { x: 0, y: 0, z: 0 }
        } else {
            proof {
                lemma_component_le_length(self);
                lemma_div_trunc_mag(self.x * (SCALE as int), len as int, SCALE as int);
                lemma_div_trunc_mag(self.y * (SCALE as int), len as int, SCALE as int);
                lemma_div_trunc_mag(self.z * (SCALE as int), len as int, SCALE as int);
            }
            Vector {
                x: div_i128((self.x as i128) * (SCALE as i128), len as i128) as i64,
                y: div_i128((self.y as i128) * (SCALE as i128), len as i128) as i64,
                z: div_i128((self.z as i128) * (SCALE as i128), len as i128) as i64,
            }
        }
    }

    pub fn cross(self, other: Vector) -> (r: Vector)
        requires
            fits(self, 0x40_0000_0000),
            fits(other, 0x40_0000_0000),
        ensures
            r == cross_spec(self, other),
    {
        proof {
            lemma_mul_bounds(self.y as int, other.z as int, 0x40_0000_0000, 0x40_0000_0000);
            lemma_mul_bounds(self.z as int, other.y as int, 0x40_0000_0000, 0x40_0000_0000);
            lemma_mul_bounds(self.z as int, other.x as int, 0x40_0000_0000, 0x40_0000_0000);
            lemma_mul_bounds(self.x as int, other.z as int, 0x40_0000_0000, 0x40_0000_0000);
            lemma_mul_bounds(self.x as int, other.y as int, 0x40_0000_0000, 0x40_0000_0000);
            lemma_mul_bounds(self.y as int, other.x as int, 0x40_0000_0000, 0x40_0000_0000);
            lemma_div_trunc_mag(
                self.y * other.z - self.z * other.y, SCALE as int, 0x7fff_ffff_ffff_ffff);
            lemma_div_trunc_mag(
                self.z * other.x - self.x * other.z, SCALE as int, 0x7fff_ffff_ffff_ffff);
            lemma_div_trunc_mag(
                self.x * other.y - self.y * other.x, SCALE as int, 0x7fff_ffff_ffff_ffff);
        }
        Vector {
            x: div_i128(
                (self.y as i128) * (other.z as i128) - (self.z as i128) * (other.y as i128),
                SCALE as i128,
            ) as i64,
            y: div_i128(
                (self.z as i128) * (other.x as i128) - (self.x as i128) * (other.z as i128),
                SCALE as i128,
            ) as i64,
            z: div_i128(
                (self.x as i128) * (other.y as i128) - (self.y as i128) * (other.x as i128),
                SCALE as i128,
            ) as i64,
        }
    }

    /// Mirror `self` about `normal`.
    pub fn reflect(self, normal: Vector) -> (r: Vector)
        requires
            fits(self, DIR_LIMIT as int),
            fits(normal, DIR_LIMIT as int),
        ensures
            r == reflect_spec(self, normal),
    {
        let dn = self.dot_raw(normal);
        proof {
            let dl = DIR_LIMIT as int;
            lemma_mul_bounds(self.x as int, normal.x as int, dl, dl);
            lemma_mul_bounds(self.y as int, normal.y as int, dl, dl);
            lemma_mul_bounds(self.z as int, normal.z as int, dl, dl);
            lemma_mul_bounds(2 * dn as int, normal.x as int, 6 * dl * dl, dl);
            lemma_mul_bounds(2 * dn as int, normal.y as int, 6 * dl * dl, dl);
            lemma_mul_bounds(2 * dn as int, normal.z as int, 6 * dl * dl, dl);
            lemma_reflect_quot_bounds(self, normal);
        }
        let sq: i128 = (SCALE as i128) * (SCALE as i128);
        let qx = div_i128(2 * dn * (normal.x as i128), sq);
        let qy = div_i128(2 * dn * (normal.y as i128), sq);
        let qz = div_i128(2 * dn * (normal.z as i128), sq);
        Vector {
            x: self.x - (qx as i64),
            y: self.y - (qy as i64),
            z: self.z - (qz as i64),
        }
    }

    /// Refract `self` (a unit direction) at a unit normal with fixed-point
    /// refraction ratio `ratio`.
    pub fn refract(self, normal: Vector, ratio: i64) -> (r: Vector)
        requires
            fits(self, SCALE as int),
            fits(normal, SCALE as int),
            0 < ratio <= 4 * SCALE as int,
        ensures
            r == refract_spec(self, normal, ratio as int),
            fits(r, DIR_LIMIT as int),
    {
        let sfx: i128 = SCALE as i128;
        let dn: i128 = self.dot_raw(normal);
        proof {
            lemma_mul_bounds(self.x as int, normal.x as int, 65536, 65536);
            lemma_mul_bounds(self.y as int, normal.y as int, 65536, 65536);
            lemma_mul_bounds(self.z as int, normal.z as int, 65536, 65536);
            lemma_div_trunc_mag(-dn as int, 65536, 196608);
        }
        let cos0: i64 = div_i128(-dn, sfx) as i64;
        let cos: i64 = if cos0 > SCALE { SCALE } else { cos0 };
        proof {
            lemma_mul_bounds(cos as int, normal.x as int, 196608, 65536);
            lemma_mul_bounds(cos as int, normal.y as int, 196608, 65536);
            lemma_mul_bounds(cos as int, normal.z as int, 196608, 65536);
            lemma_div_trunc_mag(cos * normal.x, 65536, 196608);
            lemma_div_trunc_mag(cos * normal.y, 65536, 196608);
            lemma_div_trunc_mag(cos * normal.z, 65536, 196608);
        }
        let cnx: i64 = div_i128((cos as i128) * (normal.x as i128), sfx) as i64;
        let cny: i64 = div_i128((cos as i128) * (normal.y as i128), sfx) as i64;
        let cnz: i64 = div_i128((cos as i128) * (normal.z as i128), sfx) as i64;
        proof {
            lemma_mul_bounds(ratio as int, self.x + cnx, 262144, 262144);
            lemma_mul_bounds(ratio as int, self.y + cny, 262144, 262144);
            lemma_mul_bounds(ratio as int, self.z + cnz, 262144, 262144);
            lemma_div_trunc_mag(ratio * (self.x + cnx), 65536, 1048576);
            lemma_div_trunc_mag(ratio * (self.y + cny), 65536, 1048576);
            lemma_div_trunc_mag(ratio * (self.z + cnz), 65536, 1048576);
        }
        let px: i64 = div_i128((ratio as i128) * ((self.x + cnx) as i128), sfx) as i64;
        let py: i64 = div_i128((ratio as i128) * ((self.y + cny) as i128), sfx) as i64;
        let pz: i64 = div_i128((ratio as i128) * ((self.z + cnz) as i128), sfx) as i64;
        let perp = Vector { x: px, y: py, z: pz };
        let pd: i128 = perp.dot_raw(perp);
        proof {
            lemma_dot_self_nonneg(perp);
            lemma_mul_bounds(px as int, px as int, 1048576, 1048576);
            lemma_mul_bounds(py as int, py as int, 1048576, 1048576);
            lemma_mul_bounds(pz as int, pz as int, 1048576, 1048576);
            lemma_div_trunc_mag(pd as int, 65536, 50331648);
        }
        let lsq: i64 = div_i128(pd, sfx) as i64;
        let diff: i64 = SCALE - lsq;
        let inner: i64 = if diff >= 0 { diff } else { -diff };
        let spar_big: i128 = isqrt_i128((inner as i128) * sfx);
        proof {
            assert(spar_big < 1835008) by (nonlinear_arith)
                requires
                    is_sqrt_floor(inner * 65536, spar_big as int),
                    0 <= inner <= 50397184,
            ;
        }
        let spar: i64 = spar_big as i64;
        proof {
            lemma_mul_bounds(spar as int, normal.x as int, 1835008, 65536);
            lemma_mul_bounds(spar as int, normal.y as int, 1835008, 65536);
            lemma_mul_bounds(spar as int, normal.z as int, 1835008, 65536);
            lemma_div_trunc_mag(spar * normal.x, 65536, 1835008);
            lemma_div_trunc_mag(spar * normal.y, 65536, 1835008);
            lemma_div_trunc_mag(spar * normal.z, 65536, 1835008);
        }
        let rx: i64 = px - (div_i128((spar as i128) * (normal.x as i128), sfx) as i64);
        let ry: i64 = py - (div_i128((spar as i128) * (normal.y as i128), sfx) as i64);
        let rz: i64 = pz - (div_i128((spar as i128) * (normal.z as i128), sfx) as i64);
        Vector { x: rx, y: ry, z: rz }
    }

    /// Vector with components drawn uniformly from `[0, SCALE)`.
    pub fn random(rng: &mut SampleRng) -> (r: Vector)
        ensures
            ({
                let (v, s) = random_range_spec(old(rng).state, 0, SCALE as int);
                r == v && final(rng).state == s
            }),
            fits(r, SCALE as int),
    {
        Vector::random_range(Interval::new(0, SCALE), rng)
    }

    /// Vector with components drawn uniformly from `[range.min, range.max)`.
    pub fn random_range(range: Interval, rng: &mut SampleRng) -> (r: Vector)
        requires
            -0x40_0000_0000 <= range.min < range.max <= 0x40_0000_0000,
        ensures
            ({
                let (v, s) = random_range_spec(old(rng).state, range.min as int, range.max as int);
                r == v && final(rng).state == s
            }),
            fits(r, 0x40_0000_0000),
    {
        let x = draw_scalar(rng, range.min, range.max);
        let y = draw_scalar(rng, range.min, range.max);
        let z = draw_scalar(rng, range.min, range.max);
        Vector { x, y, z }
    }

    /// A unit-ish vector drawn by rejection sampling from the cube, with a
    /// bounded number of attempts and a fixed fallback direction.
    pub fn random_unit_vector(rng: &mut SampleRng) -> (r: Vector)
        ensures
            ({
                let (v, s) = random_unit_from(old(rng).state, UNIT_TRIES as nat);
                r == v && final(rng).state == s
            }),
            fits(r, SCALE as int),
    {
        random_unit_rec(rng, UNIT_TRIES)
    }

    /// A unit-ish vector in the hemisphere around `normal`.
    pub fn random_in_hemisphere(normal: Vector, rng: &mut SampleRng) -> (r: Vector)
        requires
            fits(normal, 0x40_0000_0000),
        ensures
            ({
                let (v, s) = random_hemisphere_spec(old(rng).state, normal);
                r == v && final(rng).state == s
            }),
            fits(r, SCALE as int),
    {
        let u = Vector::random_unit_vector(rng);
        if u.dot(normal) > 0 {
            u
        } else {
            u.neg()
        }
    }

    /// A vector in the unit disk of the x-y plane, drawn by bounded
    /// rejection sampling with the disk center as fallback.
    pub fn random_in_unit_disk(rng: &mut SampleRng) -> (r: Vector)
        ensures
            ({
                let (v, s) = random_disk_from(old(rng).state, UNIT_TRIES as nat);
                r == v && final(rng).state == s
            }),
            fits(r, SCALE as int),
    {
        random_disk_rec(rng, UNIT_TRIES)
    }
}

/// The dot product of a vector with itself is nonnegative.
pub proof fn lemma_dot_self_nonneg(v: Vector)
    ensures
        dot_spec(v, v) >= 0,
{
    assert(dot_spec(v, v) >= 0) by (nonlinear_arith);
}

/// Each component is bounded by the vector's length.
proof fn lemma_component_le_length(v: Vector)
    requires
        is_sqrt_floor(dot_spec(v, v), length_spec(v)),
    ensures
        -length_spec(v) <= v.x <= length_spec(v),
        -length_spec(v) <= v.y <= length_spec(v),
        -length_spec(v) <= v.z <= length_spec(v),
{
    let len = length_spec(v);
    assert(-len <= v.x <= len && -len <= v.y <= len && -len <= v.z <= len) by (nonlinear_arith)
        requires
            0 <= len,
            v.x * v.x + v.y * v.y + v.z * v.z < (len + 1) * (len + 1),
    ;
}

/// Bounds on the quotients formed inside `reflect`.
pub proof fn lemma_reflect_quot_bounds(d: Vector, n: Vector)
    requires
        fits(d, DIR_LIMIT as int),
        fits(n, DIR_LIMIT as int),
    ensures
        -0x4000_0000_0000 <= div_trunc(2 * dot_spec(d, n) * n.x, (SCALE as int) * (SCALE as int)) <= 0x4000_0000_0000,
        -0x4000_0000_0000 <= div_trunc(2 * dot_spec(d, n) * n.y, (SCALE as int) * (SCALE as int)) <= 0x4000_0000_0000,
        -0x4000_0000_0000 <= div_trunc(2 * dot_spec(d, n) * n.z, (SCALE as int) * (SCALE as int)) <= 0x4000_0000_0000,
{
    let dl = DIR_LIMIT as int;
    let sq = (SCALE as int) * (SCALE as int);
    lemma_mul_bounds(d.x as int, n.x as int, dl, dl);
    lemma_mul_bounds(d.y as int, n.y as int, dl, dl);
    lemma_mul_bounds(d.z as int, n.z as int, dl, dl);
    lemma_mul_bounds(2 * dot_spec(d, n), n.x as int, 6 * dl * dl, dl);
    lemma_mul_bounds(2 * dot_spec(d, n), n.y as int, 6 * dl * dl, dl);
    lemma_mul_bounds(2 * dot_spec(d, n), n.z as int, 6 * dl * dl, dl);
    assert(6 * dl * dl * dl <= 0x4000_0000_0000 * sq) by (nonlinear_arith)
        requires
            dl == 0x40_0000,
            sq == 65536 * 65536,
    ;
    lemma_div_trunc_mag(2 * dot_spec(d, n) * n.x, sq, 0x4000_0000_0000);
    lemma_div_trunc_mag(2 * dot_spec(d, n) * n.y, sq, 0x4000_0000_0000);
    lemma_div_trunc_mag(2 * dot_spec(d, n) * n.z, sq, 0x4000_0000_0000);
}

/// The cross product of bounded vectors is bounded.
pub proof fn lemma_cross_bound(a: Vector, b: Vector, ba: int, bb: int)
    requires
        fits(a, ba),
        fits(b, bb),
        0 <= ba,
        0 <= bb,
        2 * (ba * bb) <= 0x7fff_ffff_ffff_ffff * 65536,
    ensures
        fits(cross_spec(a, b), div_trunc(2 * (ba * bb), 65536) + 1),
{
    lemma_mul_bounds(a.y as int, b.z as int, ba, bb);
    lemma_mul_bounds(a.z as int, b.y as int, ba, bb);
    lemma_mul_bounds(a.z as int, b.x as int, ba, bb);
    lemma_mul_bounds(a.x as int, b.z as int, ba, bb);
    lemma_mul_bounds(a.x as int, b.y as int, ba, bb);
    lemma_mul_bounds(a.y as int, b.x as int, ba, bb);
    lemma_mul_bounds(ba, bb, ba, bb);
    lemma_div_trunc_bounds(2 * (ba * bb), 65536);
    let bound = div_trunc(2 * (ba * bb), 65536) + 1;
    assert(2 * (ba * bb) <= bound * 65536) by (nonlinear_arith)
        requires
            65536 * div_trunc(2 * (ba * bb), 65536) > 2 * (ba * bb) - 65536,
            bound == div_trunc(2 * (ba * bb), 65536) + 1,
            0 <= ba * bb,
    ;
    lemma_div_trunc_mag(a.y * b.z - a.z * b.y, 65536, bound);
    lemma_div_trunc_mag(a.z * b.x - a.x * b.z, 65536, bound);
    lemma_div_trunc_mag(a.x * b.y - a.y * b.x, 65536, bound);
}

/// Bounds justifying the componentwise fixed-point products in `scale`.
proof fn lemma_scale_fit(v: Vector, s: int, bv: int, bs: int)
    requires
        fits(v, bv),
        -bs <= s <= bs,
        0 <= bv,
        0 <= bs,
    ensures
        -(bv * bs) <= v.x * s <= bv * bs,
        -(bv * bs) <= v.y * s <= bv * bs,
        -(bv * bs) <= v.z * s <= bv * bs,
{
    lemma_mul_bounds(v.x as int, s, bv, bs);
    lemma_mul_bounds(v.y as int, s, bv, bs);
    lemma_mul_bounds(v.z as int, s, bv, bs);
}

/// Fixed-point scalar product with truncation.
pub fn mul_fx_exec(a: i64, b: i64) -> (r: i64)
    requires
        -(0x7fff_ffff_ffff_ffff * 65536) <= a * b <= 0x7fff_ffff_ffff_ffff * 65536,
    ensures
        r == mul_fx(a as int, b as int),
{
    proof {
        lemma_div_trunc_mag(a * b, SCALE as int, 0x7fff_ffff_ffff_ffff);
    }
    div_i128((a as i128) * (b as i128), SCALE as i128) as i64
}

/// Fixed-point scalar quotient with truncation (positive divisor).
pub fn div_fx_exec(a: i64, b: i64) -> (r: i64)
    requires
        0 < b,
        -0x40_0000_0000 <= a <= 0x40_0000_0000,
    ensures
        r == div_fx(a as int, b as int),
{
    proof {
        lemma_mul_bounds(a as int, SCALE as int, 0x40_0000_0000, SCALE as int);
        lemma_div_trunc_mag_weak(a * (SCALE as int), b as int);
    }
    div_i128((a as i128) * (SCALE as i128), b as i128) as i64
}

/// A quotient with positive divisor is no larger in magnitude than the
/// dividend.
pub proof fn lemma_div_trunc_mag_weak(n: int, d: int)
    requires
        d > 0,
    ensures
        n >= 0 ==> 0 <= div_trunc(n, d) <= n,
        n <= 0 ==> n <= div_trunc(n, d) <= 0,
{
    lemma_div_trunc_bounds(n, d);
}

/// Number of rejection-sampling attempts before falling back.
pub const UNIT_TRIES: u64 = 64;

/// One scalar draw uniform in `[lo, hi)` from generator state `state`.
pub open spec fn draw_in_spec(state: u64, lo: int, hi: int) -> int
    recommends
        lo < hi,
{
    lo + (next_u64_spec(state) as int) % (hi - lo)
}

/// Three scalar draws in `[lo, hi)`, as a vector, with the follow-on state.
pub open spec fn random_range_spec(state: u64, lo: int, hi: int) -> (Vector, u64) {
    let s1 = next_state_spec(state);
    let s2 = next_state_spec(s1);
    let s3 = next_state_spec(s2);
    (vec3(draw_in_spec(state, lo, hi), draw_in_spec(s1, lo, hi), draw_in_spec(s2, lo, hi)), s3)
}

/// Rejection sampling of a unit-ish vector: draw from the cube, accept when
/// the raw squared length lies in `(0, SCALE^2]`, normalize; after `tries`
/// failures fall back to the z axis direction.
pub open spec fn random_unit_from(state: u64, tries: nat) -> (Vector, u64)
    decreases tries,
{
    if tries == 0 {
        (vec3(0, 0, SCALE as int), state)
    } else {
        let (p, s2) = random_range_spec(state, -(SCALE as int), SCALE as int);
        let d = dot_spec(p, p);
        if 0 < d && d <= (SCALE as int) * (SCALE as int) {
            (normalize_spec(p), s2)
        } else {
            random_unit_from(s2, (tries - 1) as nat)
        }
    }
}

/// A unit draw flipped into the hemisphere of `normal`.
pub open spec fn random_hemisphere_spec(state: u64, normal: Vector) -> (Vector, u64) {
    let (u, s) = random_unit_from(state, UNIT_TRIES as nat);
    if dot_fx_spec(u, normal) > 0 {
        (u, s)
    } else {
        (neg_spec(u), s)
    }
}

/// Rejection sampling in the unit disk of the x-y plane, with the center as
/// fallback after `tries` failures.
pub open spec fn random_disk_from(state: u64, tries: nat) -> (Vector, u64)
    decreases tries,
{
    if tries == 0 {
        (vec3(0, 0, 0), state)
    } else {
        let s1 = next_state_spec(state);
        let s2 = next_state_spec(s1);
        let p = vec3(
            draw_in_spec(state, -(SCALE as int), SCALE as int),
            draw_in_spec(s1, -(SCALE as int), SCALE as int),
            0,
        );
        if dot_spec(p, p) < (SCALE as int) * (SCALE as int) {
            (p, s2)
        } else {
            random_disk_from(s2, (tries - 1) as nat)
        }
    }
}

/// One scalar draw uniform in `[lo, hi)`.
pub fn draw_scalar(rng: &mut SampleRng, lo: i64, hi: i64) -> (r: i64)
    requires
        -0x40_0000_0000 <= lo < hi <= 0x40_0000_0000,
    ensures
        r == draw_in_spec(old(rng).state, lo as int, hi as int),
        final(rng).state == next_state_spec(old(rng).state),
        lo <= r < hi,
{
    let m: u64 = (hi - lo) as u64;
    let v: u64 = rng.next_below(m);
    lo + (v as i64)
}

fn random_unit_rec(rng: &mut SampleRng, tries: u64) -> (r: Vector)
    ensures
        ({
            let (v, s) = random_unit_from(old(rng).state, tries as nat);
            r == v && final(rng).state == s
        }),
        fits(r, SCALE as int),
    decreases tries,
{
    if tries == 0 {
        Vector { x: 0, y: 0, z: SCALE }
    } else {
        let p = Vector::random_range(Interval::new(-SCALE, SCALE), rng);
        let d: i128 = p.dot_raw(p);
        if 0 < d && d <= 0x1_0000_0000i128 {
            p.normalize()
        } else {
            random_unit_rec(rng, tries - 1)
        }
    }
}

fn random_disk_rec(rng: &mut SampleRng, tries: u64) -> (r: Vector)
    ensures
        ({
            let (v, s) = random_disk_from(old(rng).state, tries as nat);
            r == v && final(rng).state == s
        }),
        fits(r, SCALE as int),
    decreases tries,
{
    if tries == 0 {
        Vector { x: 0, y: 0, z: 0 }
    } else {
        let x = draw_scalar(rng, -SCALE, SCALE);
        let y = draw_scalar(rng, -SCALE, SCALE);
        let p = Vector { x, y, z: 0 };
        let d: i128 = p.dot_raw(p);
        if d < 0x1_0000_0000i128 {
            p
        } else {
            random_disk_rec(rng, tries - 1)
        }
    }
}

/// Law of reflection. Against a normal that is exactly unit in the model
/// (`n . n == SCALE * SCALE`), the component of the reflected direction along
/// the normal is the reverse of the incident one: truncation perturbs the raw
/// dot product by less than `3 * SCALE`, which is below one part in twenty
/// thousand of a unit direction's scale.
pub proof fn lemma_reflect_law(d: Vector, n: Vector)
    requires
        fits(d, DIR_LIMIT as int),
        fits(n, SCALE as int),
        dot_spec(n, n) == 0x1_0000_0000,
    ensures
        -196608 <= dot_spec(reflect_spec(d, n), n) + dot_spec(d, n) <= 196608,
{
    let dn = dot_spec(d, n);
    let q1 = div_trunc(2 * dn * n.x, 0x1_0000_0000);
    let q2 = div_trunc(2 * dn * n.y, 0x1_0000_0000);
    let q3 = div_trunc(2 * dn * n.z, 0x1_0000_0000);
    lemma_div_trunc_bounds(2 * dn * n.x, 0x1_0000_0000);
    lemma_div_trunc_bounds(2 * dn * n.y, 0x1_0000_0000);
    lemma_div_trunc_bounds(2 * dn * n.z, 0x1_0000_0000);
    let e1 = 2 * dn * n.x - 0x1_0000_0000 * q1;
    let e2 = 2 * dn * n.y - 0x1_0000_0000 * q2;
    let e3 = 2 * dn * n.z - 0x1_0000_0000 * q3;
    assert(-0x1_0000_0000 < e1 < 0x1_0000_0000);
    assert(-0x1_0000_0000 < e2 < 0x1_0000_0000);
    assert(-0x1_0000_0000 < e3 < 0x1_0000_0000);
    lemma_reflect_quot_bounds(d, n);
    let r = reflect_spec(d, n);
    assert(r.x == d.x - q1 && r.y == d.y - q2 && r.z == d.z - q3);
    let x = dot_spec(r, n) + dn;
    assert(0x1_0000_0000 * (r.x * n.x) == 0x1_0000_0000 * (d.x * n.x) - 2 * dn * (n.x * n.x)
        + e1 * n.x) by (nonlinear_arith)
        requires
            r.x == d.x - q1,
            e1 == 2 * dn * n.x - 0x1_0000_0000 * q1,
    ;
    assert(0x1_0000_0000 * (r.y * n.y) == 0x1_0000_0000 * (d.y * n.y) - 2 * dn * (n.y * n.y)
        + e2 * n.y) by (nonlinear_arith)
        requires
            r.y == d.y - q2,
            e2 == 2 * dn * n.y - 0x1_0000_0000 * q2,
    ;
    assert(0x1_0000_0000 * (r.z * n.z) == 0x1_0000_0000 * (d.z * n.z) - 2 * dn * (n.z * n.z)
        + e3 * n.z) by (nonlinear_arith)
        requires
            r.z == d.z - q3,
            e3 == 2 * dn * n.z - 0x1_0000_0000 * q3,
    ;
    assert(2 * dn * (n.x * n.x) + 2 * dn * (n.y * n.y) + 2 * dn * (n.z * n.z)
        == 2 * dn * 0x1_0000_0000) by (nonlinear_arith)
        requires
            n.x * n.x + n.y * n.y + n.z * n.z == 0x1_0000_0000,
    ;
    assert(0x1_0000_0000 * x == e1 * n.x + e2 * n.y + e3 * n.z);
    lemma_mul_bounds(e1, n.x as int, 0x1_0000_0000, 65536);
    lemma_mul_bounds(e2, n.y as int, 0x1_0000_0000, 65536);
    lemma_mul_bounds(e3, n.z as int, 0x1_0000_0000, 65536);
    assert(-196608 <= x <= 196608);
}

/// A medium with refraction index one does not bend light. Stated for an
/// axis unit normal and a direction heading into the surface whose squared
/// length is within `16 * SCALE` of exactly one: the components in the
/// surface plane come back exactly, and the component along the normal moves
/// by less than `2200` raw units (about three hundredths of unit scale), the
/// slack of the truncated intermediate steps.
pub proof fn lemma_unit_ratio_refraction(d: Vector, n: Vector)
    requires
        n == vec3(0, 0, 65536),
        fits(d, 65536),
        d.z <= 0,
        0x1_0000_0000 - 16 * 65536 <= dot_spec(d, d),
        dot_spec(d, d) <= 0x1_0000_0000 + 16 * 65536,
    ensures
        refract_spec(d, n, 65536).x == d.x,
        refract_spec(d, n, 65536).y == d.y,
        -2200 <= refract_spec(d, n, 65536).z - d.z <= 2200,
{
    let c = -d.z as int;
    assert(n.x == 0 && n.y == 0 && n.z == 65536);
    assert(d.x * n.x == 0 && d.y * n.y == 0 && d.z * n.z == d.z * 65536) by (nonlinear_arith)
        requires
            n.x == 0,
            n.y == 0,
            n.z == 65536,
    ;
    assert(dot_spec(d, n) == d.z * 65536);
    crate::fx::lemma_div_scale_exact(c);
    assert(-(d.z * 65536) == c * 65536) by (nonlinear_arith)
        requires
            c == -d.z,
    ;
    // The clamped incidence cosine is exactly -d.z.
    assert(div_trunc(-dot_spec(d, n), 65536) == c);
    assert(c * n.x == 0 && c * n.y == 0 && c * n.z == c * 65536) by (nonlinear_arith)
        requires
            n.x == 0,
            n.y == 0,
            n.z == 65536,
    ;
    let cnx = div_trunc(c * n.x, 65536);
    let cny = div_trunc(c * n.y, 65536);
    let cnz = div_trunc(c * n.z, 65536);
    crate::fx::lemma_div_scale_exact(0);
    assert(cnx == 0 && cny == 0 && cnz == c);
    // The offset cos * n rescales exactly, so the perpendicular part is
    // (d.x, d.y, 0) exactly.
    crate::fx::lemma_div_scale_exact(d.x as int);
    crate::fx::lemma_div_scale_exact(d.y as int);
    crate::fx::lemma_div_scale_exact(d.z + c);
    assert(65536 * (d.x + cnx) == d.x * 65536);
    assert(65536 * (d.y + cny) == d.y * 65536);
    assert(65536 * (d.z + cnz) == (d.z + c) * 65536);
    let px = div_trunc(65536 * (d.x + cnx), 65536);
    let py = div_trunc(65536 * (d.y + cny), 65536);
    let pz = div_trunc(65536 * (d.z + cnz), 65536);
    assert(px == d.x && py == d.y && pz == 0);
    let perp = vec3(px, py, pz);
    assert(perp.x == d.x && perp.y == d.y && perp.z == 0);
    let pd = dot_spec(perp, perp);
    assert(pd == d.x * d.x + d.y * d.y) by (nonlinear_arith)
        requires
            pd == perp.x * perp.x + perp.y * perp.y + perp.z * perp.z,
            perp.x == d.x,
            perp.y == d.y,
            perp.z == 0,
    ;
    assert(0 <= d.x * d.x && 0 <= d.y * d.y && c * c == d.z * d.z) by (nonlinear_arith)
        requires
            c == -d.z,
    ;
    assert(pd == dot_spec(d, d) - c * c);
    let lsq = div_trunc(pd, 65536);
    crate::fx::lemma_div_trunc_bounds(pd, 65536);
    // The square root argument stays within 17 * SCALE of cos^2, or the
    // whole remainder is tiny; either way the parallel part lands within a
    // small slack of cos.
    assert(is_sqrt_floor(1114112, 1055)) by (nonlinear_arith);
    crate::fx::lemma_sqrt_floor_unique(1114112, 1055);
    let spar: int;
    if 65536 - lsq >= 0 {
        let inner = 65536 - lsq;
        assert(c * c - 1114112 <= inner * 65536 <= c * c + 1114112) by (nonlinear_arith)
            requires
                inner == 65536 - lsq,
                65536 * lsq <= pd,
                pd < 65536 * lsq + 65536,
                pd == dot_spec(d, d) - c * c,
                0x1_0000_0000 - 16 * 65536 <= dot_spec(d, d),
                dot_spec(d, d) <= 0x1_0000_0000 + 16 * 65536,
        ;
        assert(0 <= inner * 65536) by (nonlinear_arith)
            requires
                inner >= 0,
        ;
        spar = sqrt_floor(inner * 65536);
        crate::fx::lemma_sqrt_perturb(inner * 65536, c, 1114112);
        assert(c - 1056 <= spar <= c + 1056);
    } else {
        let inner = lsq - 65536;
        assert(1 <= inner);
        assert(inner <= 16 && 0 <= c * c <= 16 * 65536) by (nonlinear_arith)
            requires
                inner == lsq - 65536,
                1 <= inner,
                65536 * lsq <= pd,
                pd == dot_spec(d, d) - c * c,
                0 <= c * c,
                dot_spec(d, d) <= 0x1_0000_0000 + 16 * 65536,
        ;
        assert(0 <= c <= 1024) by (nonlinear_arith)
            requires
                0 <= c,
                c * c <= 16 * 65536,
        ;
        assert(0 <= inner * 65536 <= 1048576) by (nonlinear_arith)
            requires
                1 <= inner <= 16,
        ;
        spar = sqrt_floor(inner * 65536);
        crate::fx::lemma_sqrt_floor_exists(inner * 65536);
        assert(0 <= spar <= 1024) by (nonlinear_arith)
            requires
                is_sqrt_floor(inner * 65536, spar),
                0 <= inner * 65536 <= 1048576,
        ;
        assert(c - 2200 <= spar <= c + 2200);
    }
    crate::fx::lemma_div_scale_exact(spar);
    assert(spar * n.x == 0 && spar * n.y == 0 && spar * n.z == spar * 65536)
        by (nonlinear_arith)
        requires
            n.x == 0,
            n.y == 0,
            n.z == 65536,
    ;
    assert(div_trunc(spar * n.z, 65536) == spar);
    assert(div_trunc(spar * n.x, 65536) == 0);
    assert(div_trunc(spar * n.y, 65536) == 0);
    let r = refract_spec(d, n, 65536);
    assert(r.x == d.x && r.y == d.y && r.z == -spar);
    assert(r.z - d.z == c - spar);
}

} // verus!
