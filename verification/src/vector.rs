//! Three-component fixed-point vectors: the value type for points,
//! directions and colors.

use vstd::prelude::*;
use vstd::arithmetic::div_mod::lemma_fundamental_div_mod;
use vstd::arithmetic::div_mod::lemma_div_by_multiple;
use vstd::arithmetic::div_mod::lemma_div_is_ordered;
use vstd::arithmetic::div_mod::lemma_div_pos_is_pos;
use vstd::arithmetic::div_mod::lemma_mod_bound;
use crate::fixed::FX_ONE;
use crate::fixed::tdiv;
use crate::fixed::fx_mul_spec;
use crate::fixed::fx_div_spec;
use crate::fixed::fits_i64;
use crate::fixed::is_sqrt_of;
use crate::fixed::sqrt_floor;
use crate::fixed::fx_mul;
use crate::fixed::fx_div;
use crate::fixed::fx_sqrt;
use crate::fixed::lemma_tdiv_range;
use crate::fixed::lemma_fx_mul_range;
use crate::fixed::lemma_sqrt_exists;

verus! {

/// Magnitude cap on components fed to the quadratic-form operations
/// (`dot`, `length`, `cross`): keeps every intermediate inside `i64`.
pub const VEC_LIMIT: i64 = 0x4000000000;

/// Magnitude cap on the components of a normalized vector: a unit vector's
/// components stay within two whole units even after rounding.
pub const UNIT_LIMIT: i64 = 131072;

/// Components smaller than this in magnitude count as zero: the smallest
/// threshold under which a direction is guaranteed normalizable.
pub const NEAR_ZERO_EPS: i64 = 256;

/// Magnitude cap on the components of a reflected unit direction:
/// 52 whole units.
pub const REFLECT_LIMIT: i64 = 3407872;

/// Magnitude cap on the components of a refracted unit direction:
/// 418 whole units.
pub const REFRACT_LIMIT: i64 = 27394048;

/// Largest quotient of refractive indices the refraction routine accepts:
/// 16 whole units.
pub const RATIO_LIMIT: i64 = 1048576;

/// Smallest squared length of an accepted ball draw: one quarter. Below
/// it, normalizing would amplify the fixed-point rounding of each
/// component beyond a few quanta.
pub const DRAW_FLOOR: i64 = 16384;

#[derive(Clone, Copy, Debug)]
pub struct Vec3 {
    pub x: i64,
    pub y: i64,
    pub z: i64,
}

/// Radiance and reflectance triples are vectors.
pub type Color = Vec3;

/// Positions are vectors.
pub type Point3 = Vec3;

impl Vec3 {
    /// Every component within `[-m, m]`.
    pub open spec fn in_bounds(self, m: int) -> bool {
        &&& -m <= self.x <= m
        &&& -m <= self.y <= m
        &&& -m <= self.z <= m
    }

    /// The fixed-point dot product: the sum of the raw products, rescaled.
    pub open spec fn dot_spec(self, o: Vec3) -> int {
        tdiv(self.x * o.x + self.y * o.y + self.z * o.z, FX_ONE as int)
    }

    pub open spec fn len_sq_spec(self) -> int {
        self.dot_spec(self)
    }

    /// The squared length does not round to zero, so the vector can be
    /// normalized.
    pub open spec fn has_direction(self) -> bool {
        self.len_sq_spec() >= 1
    }

    /// The fixed-point length: the integer square root of the rescaled
    /// squared length.
    pub open spec fn length_spec(self) -> int {
        sqrt_floor(self.len_sq_spec() * (FX_ONE as int))
    }

    /// Componentwise division by the fixed-point length.
    pub open spec fn unit_spec(self) -> Vec3 {
        Vec3 {
            x: fx_div_spec(self.x as int, self.length_spec()) as i64,
            y: fx_div_spec(self.y as int, self.length_spec()) as i64,
            z: fx_div_spec(self.z as int, self.length_spec()) as i64,
        }
    }

    /// All components below the degeneracy threshold in magnitude.
    pub open spec fn near_zero_spec(self) -> bool {
        &&& -(NEAR_ZERO_EPS as int) < self.x < NEAR_ZERO_EPS as int
        &&& -(NEAR_ZERO_EPS as int) < self.y < NEAR_ZERO_EPS as int
        &&& -(NEAR_ZERO_EPS as int) < self.z < NEAR_ZERO_EPS as int
    }

    /// `v` mirrored about the plane orthogonal to `normal`:
    /// `v - 2 * dot(v, normal) * normal`.
    pub open spec fn reflect_spec(v: Vec3, normal: Vec3) -> Vec3 {
        Vec3 {
            x: (v.x - fx_mul_spec(2 * Vec3::dot_spec(v, normal), normal.x as int)) as i64,
            y: (v.y - fx_mul_spec(2 * Vec3::dot_spec(v, normal), normal.y as int)) as i64,
            z: (v.z - fx_mul_spec(2 * Vec3::dot_spec(v, normal), normal.z as int)) as i64,
        }
    }

    /// Snell's-law refraction of the unit direction `uv` at a surface with
    /// unit normal `n`, with `ratio` the quotient of refractive indices.
    /// Where rounding would put the radicand below zero it is pinned to
    /// zero, the fixed-point reading of grazing incidence.
    pub open spec fn refract_spec(uv: Vec3, n: Vec3, ratio: int) -> Vec3 {
        let cos_theta = if -Vec3::dot_spec(uv, n) > FX_ONE as int {
            FX_ONE as int
        } else {
            -Vec3::dot_spec(uv, n)
        };
        let perp = Vec3 {
            x: fx_mul_spec(ratio, uv.x + fx_mul_spec(cos_theta, n.x as int)) as i64,
            y: fx_mul_spec(ratio, uv.y + fx_mul_spec(cos_theta, n.y as int)) as i64,
            z: fx_mul_spec(ratio, uv.z + fx_mul_spec(cos_theta, n.z as int)) as i64,
        };
        let radicand = if FX_ONE as int - perp.len_sq_spec() < 0 {
            0
        } else {
            FX_ONE as int - perp.len_sq_spec()
        };
        let sq = sqrt_floor(radicand * (FX_ONE as int));
        Vec3 {
            x: (perp.x + fx_mul_spec(-sq, n.x as int)) as i64,
            y: (perp.y + fx_mul_spec(-sq, n.y as int)) as i64,
            z: (perp.z + fx_mul_spec(-sq, n.z as int)) as i64,
        }
    }

    pub fn dot(self, other: Self) -> (r: i64)
        requires
            self.in_bounds(VEC_LIMIT as int),
            other.in_bounds(VEC_LIMIT as int),
        ensures
            r == self.dot_spec(other),
    {
        proof {
            lemma_dot_products(self, other, VEC_LIMIT as int);
            lemma_tdiv_range(
                self.x * other.x + self.y * other.y + self.z * other.z,
                FX_ONE as int,
                3 * (VEC_LIMIT as int) * (VEC_LIMIT as int),
            );
        }
        let p: i128 = (self.x as i128) * (other.x as i128) + (self.y as i128) * (other.y as i128)
            + (self.z as i128) * (other.z as i128);
        let q: i128 = p / 65536i128;
        q as i64
    }

    pub fn length_squared(self) -> (r: i64)
        requires
            self.in_bounds(VEC_LIMIT as int),
        ensures
            r == self.len_sq_spec(),
            r >= 0,
    {
        proof {
            lemma_len_sq_nonneg(self);
        }
        self.dot(self)
    }

    pub fn length(self) -> (r: i64)
        requires
            self.in_bounds(VEC_LIMIT as int),
        ensures
            r == self.length_spec(),
            is_sqrt_of(self.len_sq_spec() * (FX_ONE as int), r as int),
            r >= 0,
    {
        let ls: i64 = self.length_squared();
        fx_sqrt(ls)
    }

    pub fn cross(self, other: Self) -> (r: Vec3)
        requires
            self.in_bounds(VEC_LIMIT as int),
            other.in_bounds(VEC_LIMIT as int),
        ensures
            r.x == fx_mul_spec(self.y as int, other.z as int) - fx_mul_spec(self.z as int, other.y as int),
            r.y == fx_mul_spec(self.z as int, other.x as int) - fx_mul_spec(self.x as int, other.z as int),
            r.z == fx_mul_spec(self.x as int, other.y as int) - fx_mul_spec(self.y as int, other.x as int),
    {
        proof {
            lemma_fx_mul_range(self.y as int, other.z as int, VEC_LIMIT as int, VEC_LIMIT as int);
            lemma_fx_mul_range(self.z as int, other.y as int, VEC_LIMIT as int, VEC_LIMIT as int);
            lemma_fx_mul_range(self.z as int, other.x as int, VEC_LIMIT as int, VEC_LIMIT as int);
            lemma_fx_mul_range(self.x as int, other.z as int, VEC_LIMIT as int, VEC_LIMIT as int);
            lemma_fx_mul_range(self.x as int, other.y as int, VEC_LIMIT as int, VEC_LIMIT as int);
            lemma_fx_mul_range(self.y as int, other.x as int, VEC_LIMIT as int, VEC_LIMIT as int);
        }
        Vec3 {
            x: fx_mul(self.y, other.z) - fx_mul(self.z, other.y),
            y: fx_mul(self.z, other.x) - fx_mul(self.x, other.z),
            z: fx_mul(self.x, other.y) - fx_mul(self.y, other.x),
        }
    }

    /// The vector scaled to unit length. The caller must ensure the length
    /// is positive, which in fixed point means the squared length does not
    /// round to zero.
    pub fn unit_vector(&self) -> (r: Vec3)
        requires
            self.in_bounds(VEC_LIMIT as int),
            self.has_direction(),
        ensures
            r == self.unit_spec(),
            r.in_bounds(UNIT_LIMIT as int),
    {
        proof {
            lemma_unit_vector_bounds(*self);
        }
        let len: i64 = self.length();
        Vec3 { x: fx_div(self.x, len), y: fx_div(self.y, len), z: fx_div(self.z, len) }
    }

    /// Applies `f` to each component in turn, giving a new vector.
    pub fn map<F: Fn(i64) -> i64>(self, f: F) -> (r: Self)
        requires
            f.requires((self.x,)),
            f.requires((self.y,)),
            f.requires((self.z,)),
        ensures
            f.ensures((self.x,), r.x),
            f.ensures((self.y,), r.y),
            f.ensures((self.z,), r.z),
    {
        Vec3 { x: f(self.x), y: f(self.y), z: f(self.z) }
    }

    /// Componentwise range test.
    pub fn check_bounds(self, m: i64) -> (r: bool)
        requires
            m >= 0,
        ensures
            r == self.in_bounds(m as int),
    {
        -m <= self.x && self.x <= m && -m <= self.y && self.y <= m && -m <= self.z && self.z
            <= m
    }

    /// Returns true if the vector is close to zero in all dimensions.
    pub fn near_zero(self) -> (r: bool)
        ensures
            r == self.near_zero_spec(),
            !r ==> self.has_direction(),
    {
        proof {
            if !self.near_zero_spec() {
                lemma_not_near_zero_has_direction(self);
            }
        }
        -NEAR_ZERO_EPS < self.x && self.x < NEAR_ZERO_EPS && -NEAR_ZERO_EPS < self.y && self.y
            < NEAR_ZERO_EPS && -NEAR_ZERO_EPS < self.z && self.z < NEAR_ZERO_EPS
    }

    pub fn add(self, other: Self) -> (r: Self)
        requires
            fits_i64(self.x + other.x),
            fits_i64(self.y + other.y),
            fits_i64(self.z + other.z),
        ensures
            r.x == self.x + other.x,
            r.y == self.y + other.y,
            r.z == self.z + other.z,
    {
        Vec3 { x: self.x + other.x, y: self.y + other.y, z: self.z + other.z }
    }

    pub fn sub(self, other: Self) -> (r: Self)
        requires
            fits_i64(self.x - other.x),
            fits_i64(self.y - other.y),
            fits_i64(self.z - other.z),
        ensures
            r.x == self.x - other.x,
            r.y == self.y - other.y,
            r.z == self.z - other.z,
    {
        Vec3 { x: self.x - other.x, y: self.y - other.y, z: self.z - other.z }
    }

    pub fn neg(self) -> (r: Self)
        requires
            self.x > i64::MIN,
            self.y > i64::MIN,
            self.z > i64::MIN,
        ensures
            r.x == -self.x,
            r.y == -self.y,
            r.z == -self.z,
    {
        Vec3 { x: -self.x, y: -self.y, z: -self.z }
    }

    /// The Hadamard (componentwise) product, used for color attenuation;
    /// distinct from the dot product and from scalar multiplication.
    pub fn mul(self, other: Self) -> (r: Self)
        requires
            fits_i64(fx_mul_spec(self.x as int, other.x as int)),
            fits_i64(fx_mul_spec(self.y as int, other.y as int)),
            fits_i64(fx_mul_spec(self.z as int, other.z as int)),
        ensures
            r.x == fx_mul_spec(self.x as int, other.x as int),
            r.y == fx_mul_spec(self.y as int, other.y as int),
            r.z == fx_mul_spec(self.z as int, other.z as int),
    {
        Vec3 {
            x: fx_mul(self.x, other.x),
            y: fx_mul(self.y, other.y),
            z: fx_mul(self.z, other.z),
        }
    }

    /// Scalar times vector.
    pub fn scale(self, s: i64) -> (r: Self)
        requires
            fits_i64(fx_mul_spec(s as int, self.x as int)),
            fits_i64(fx_mul_spec(s as int, self.y as int)),
            fits_i64(fx_mul_spec(s as int, self.z as int)),
        ensures
            r.x == fx_mul_spec(s as int, self.x as int),
            r.y == fx_mul_spec(s as int, self.y as int),
            r.z == fx_mul_spec(s as int, self.z as int),
    {
        Vec3 { x: fx_mul(s, self.x), y: fx_mul(s, self.y), z: fx_mul(s, self.z) }
    }

    /// Create a random vector with its coordinates in a range specified by
    /// [min, max).
    pub fn random_range(min: i64, max: i64) -> (r: Vec3)
        requires
            min < max,
        ensures
            min <= r.x < max,
            min <= r.y < max,
            min <= r.z < max,
    {
        Vec3 {
            x: crate::common::random_scalar(min, max),
            y: crate::common::random_scalar(min, max),
            z: crate::common::random_scalar(min, max),
        }
    }

    /// Returns a random point in a unit radius sphere, by rejection
    /// sampling. A draw too short to normalize precisely is rejected like
    /// a draw outside the ball. The retry count is capped so that the
    /// loop provably terminates: the chance that every draw is rejected
    /// is negligible, but if it happens a fixed interior point stands in.
    pub fn random_in_unit_sphere() -> (r: Point3)
        ensures
            r.in_bounds(FX_ONE as int),
            DRAW_FLOOR <= r.len_sq_spec() < FX_ONE as int,
    {
        let mut tries: u32 = 0;
        while tries < 64
            invariant
                true,
            decreases 64 - tries,
        {
            let p = Vec3::random_range(-FX_ONE, FX_ONE);
            let ls: i64 = p.length_squared();
            if DRAW_FLOOR <= ls && ls < FX_ONE {
                return p;
            }
            tries = tries + 1;
        }
        Vec3 { x: 32768, y: 0, z: 0 }
    }

    /// Normalizes a fresh ball draw. The result's squared length misses
    /// one by at most a few rounding quanta.
    pub fn random_unit_vector() -> (r: Vec3)
        ensures
            r.in_bounds(UNIT_LIMIT as int),
            FX_ONE as int - 13 <= r.len_sq_spec() <= FX_ONE as int + 8,
            exists|p: Vec3|
                {
                    &&& (#[trigger] p.unit_spec()) == r
                    &&& p.in_bounds(FX_ONE as int)
                    &&& DRAW_FLOOR <= p.len_sq_spec() < FX_ONE as int
                },
    {
        let draw = Vec3::random_in_unit_sphere();
        proof {
            lemma_unit_vector_precision(draw);
        }
        draw.unit_vector()
    }

    /// Used for hemispherical scattering.
    pub fn random_in_hemisphere(normal: Vec3) -> (r: Vec3)
        requires
            normal.in_bounds(VEC_LIMIT as int),
        ensures
            r.in_bounds(FX_ONE as int),
            DRAW_FLOOR <= r.len_sq_spec() < FX_ONE as int,
            r.dot_spec(normal) >= 0,
    {
        let in_unit_sphere = Vec3::random_in_unit_sphere();
        let d: i64 = in_unit_sphere.dot(normal);
        if d > 0 {
            in_unit_sphere
        } else {
            let flipped = in_unit_sphere.neg();
            proof {
                lemma_dot_neg(in_unit_sphere, normal, flipped);
                lemma_len_sq_neg(in_unit_sphere, flipped);
            }
            flipped
        }
    }

    /// Reflects the `v` vector around a surface normal.
    pub fn reflect(v: Vec3, normal: Vec3) -> (r: Vec3)
        requires
            v.in_bounds(UNIT_LIMIT as int),
            normal.in_bounds(UNIT_LIMIT as int),
        ensures
            r == Vec3::reflect_spec(v, normal),
            r.in_bounds(REFLECT_LIMIT as int),
    {
        proof {
            lemma_dot_range(v, normal, UNIT_LIMIT as int);
            lemma_fx_mul_range(
                2 * v.dot_spec(normal),
                normal.x as int,
                1572864,
                UNIT_LIMIT as int,
            );
            lemma_fx_mul_range(
                2 * v.dot_spec(normal),
                normal.y as int,
                1572864,
                UNIT_LIMIT as int,
            );
            lemma_fx_mul_range(
                2 * v.dot_spec(normal),
                normal.z as int,
                1572864,
                UNIT_LIMIT as int,
            );
        }
        let d: i64 = v.dot(normal);
        let two_d: i64 = 2 * d;
        let dn = normal.scale(two_d);
        v.sub(dn)
    }

    /// Snell's law vector refraction: given unit incident direction `uv`,
    /// unit normal `n`, and the ratio of refractive indices, bend the
    /// direction through the surface.
    pub fn refract(uv: Vec3, n: Vec3, etai_over_etat: i64) -> (r: Vec3)
        requires
            uv.in_bounds(UNIT_LIMIT as int),
            n.in_bounds(UNIT_LIMIT as int),
            0 <= etai_over_etat <= RATIO_LIMIT,
        ensures
            r == Vec3::refract_spec(uv, n, etai_over_etat as int),
            r.in_bounds(REFRACT_LIMIT as int),
    {
        proof {
            lemma_dot_range(uv, n, UNIT_LIMIT as int);
        }
        let neg_uv = uv.neg();
        let d: i64 = neg_uv.dot(n);
        proof {
            lemma_dot_neg(uv, n, neg_uv);
        }
        let cos_theta: i64 = if d > FX_ONE {
            FX_ONE
        } else {
            d
        };
        proof {
            lemma_fx_mul_range(cos_theta as int, n.x as int, 786432, UNIT_LIMIT as int);
            lemma_fx_mul_range(cos_theta as int, n.y as int, 786432, UNIT_LIMIT as int);
            lemma_fx_mul_range(cos_theta as int, n.z as int, 786432, UNIT_LIMIT as int);
        }
        let cn = n.scale(cos_theta);
        let summed = uv.add(cn);
        proof {
            lemma_fx_mul_range(etai_over_etat as int, summed.x as int, RATIO_LIMIT as int, 1703936);
            lemma_fx_mul_range(etai_over_etat as int, summed.y as int, RATIO_LIMIT as int, 1703936);
            lemma_fx_mul_range(etai_over_etat as int, summed.z as int, RATIO_LIMIT as int, 1703936);
        }
        let perp = summed.scale(etai_over_etat);
        let ls: i64 = perp.length_squared();
        let one_minus: i64 = FX_ONE - ls;
        let radicand: i64 = if one_minus < 0 {
            0
        } else {
            one_minus
        };
        let sq: i64 = fx_sqrt(radicand);
        proof {
            assert(sq * sq <= 65536 * 65536);
            assert(sq <= 65536) by (nonlinear_arith)
                requires
                    sq * sq <= 65536 * 65536,
                    sq >= 0,
            ;
            lemma_fx_mul_range(-(sq as int), n.x as int, FX_ONE as int, UNIT_LIMIT as int);
            lemma_fx_mul_range(-(sq as int), n.y as int, FX_ONE as int, UNIT_LIMIT as int);
            lemma_fx_mul_range(-(sq as int), n.z as int, FX_ONE as int, UNIT_LIMIT as int);
        }
        let par = n.scale(-sq);
        perp.add(par)
    }

    /// Vector divided by a scalar, componentwise.
    pub fn div(self, other: i64) -> (r: Self)
        requires
            other != 0,
            fits_i64(fx_div_spec(self.x as int, other as int)),
            fits_i64(fx_div_spec(self.y as int, other as int)),
            fits_i64(fx_div_spec(self.z as int, other as int)),
        ensures
            r.x == fx_div_spec(self.x as int, other as int),
            r.y == fx_div_spec(self.y as int, other as int),
            r.z == fx_div_spec(self.z as int, other as int),
    {
        Vec3 { x: fx_div(self.x, other), y: fx_div(self.y, other), z: fx_div(self.z, other) }
    }
}

impl From<i64> for Vec3 {
    /// Creates a vector (v, v, v) from a single scalar v.
    fn from(v: i64) -> (r: Vec3) {
        Vec3 { x: v, y: v, z: v }
    }
}

impl vstd::std_specs::convert::FromSpecImpl<i64> for Vec3 {
    open spec fn obeys_from_spec() -> bool {
        true
    }

    open spec fn from_spec(v: i64) -> Vec3 {
        Vec3 { x: v, y: v, z: v }
    }
}

/// The raw products of bounded components are bounded.
proof fn lemma_dot_products(a: Vec3, b: Vec3, m: int)
    requires
        m >= 0,
        a.in_bounds(m),
        b.in_bounds(m),
    ensures
        -(m * m) <= a.x * b.x <= m * m,
        -(m * m) <= a.y * b.y <= m * m,
        -(m * m) <= a.z * b.z <= m * m,
{
    assert(-(m * m) <= a.x * b.x <= m * m) by (nonlinear_arith)
        requires
            m >= 0,
            -m <= a.x <= m,
            -m <= b.x <= m,
    ;
    assert(-(m * m) <= a.y * b.y <= m * m) by (nonlinear_arith)
        requires
            m >= 0,
            -m <= a.y <= m,
            -m <= b.y <= m,
    ;
    assert(-(m * m) <= a.z * b.z <= m * m) by (nonlinear_arith)
        requires
            m >= 0,
            -m <= a.z <= m,
            -m <= b.z <= m,
    ;
}

/// A dot product of vectors with components within `m` stays within
/// `3 * m * m / FX_ONE`.
pub proof fn lemma_dot_range(a: Vec3, b: Vec3, m: int)
    requires
        m >= 0,
        a.in_bounds(m),
        b.in_bounds(m),
    ensures
        -((3 * m * m) / (FX_ONE as int)) <= a.dot_spec(b) <= (3 * m * m) / (FX_ONE as int),
{
    lemma_dot_products(a, b, m);
    assert(0 <= 3 * (m * m)) by (nonlinear_arith)
        requires
            m >= 0,
    ;
    lemma_tdiv_range(a.x * b.x + a.y * b.y + a.z * b.z, FX_ONE as int, 3 * (m * m));
    assert(3 * (m * m) == 3 * m * m) by (nonlinear_arith);
}

/// Normalizing a vector whose squared length does not round to zero is
/// well-defined, and rounding keeps every component of the result within
/// two whole units.
pub proof fn lemma_unit_vector_bounds(v: Vec3)
    requires
        v.in_bounds(VEC_LIMIT as int),
        v.has_direction(),
    ensures
        v.length_spec() >= 256,
        is_sqrt_of(v.len_sq_spec() * (FX_ONE as int), v.length_spec()),
        -(UNIT_LIMIT as int) <= fx_div_spec(v.x as int, v.length_spec()) <= UNIT_LIMIT as int,
        -(UNIT_LIMIT as int) <= fx_div_spec(v.y as int, v.length_spec()) <= UNIT_LIMIT as int,
        -(UNIT_LIMIT as int) <= fx_div_spec(v.z as int, v.length_spec()) <= UNIT_LIMIT as int,
        v.unit_spec().in_bounds(UNIT_LIMIT as int),
{
    assert(v.x * v.x >= 0) by (nonlinear_arith);
    assert(v.y * v.y >= 0) by (nonlinear_arith);
    assert(v.z * v.z >= 0) by (nonlinear_arith);
    let s = v.x * v.x + v.y * v.y + v.z * v.z;
    let ls = v.len_sq_spec();
    assert(ls == s / 65536);
    lemma_fundamental_div_mod(s, 65536);
    let n = ls * (FX_ONE as int);
    lemma_sqrt_exists(n as nat);
    assert(is_sqrt_of(n, sqrt_floor(n)));
    let len = v.length_spec();
    assert(len >= 256) by (nonlinear_arith)
        requires
            is_sqrt_of(n, len),
            n >= 65536,
    ;
    assert(s <= 65536 * ls + 65535);
    assert((len + 1) * (len + 1) == len * len + 2 * len + 1) by (nonlinear_arith);
    assert(65536 * ls <= len * len + 2 * len);
    lemma_unit_component(v.x as int, s, len);
    lemma_unit_component(v.y as int, s, len);
    lemma_unit_component(v.z as int, s, len);
}

/// One component of a normalization: if `c * c` is part of a sum `s` whose
/// rescaled square root is `len`, then `c * FX_ONE / len` stays within two
/// whole units.
proof fn lemma_unit_component(c: int, s: int, len: int)
    requires
        len >= 256,
        c * c <= s,
        s <= len * len + 2 * len + 65535,
    ensures
        -(UNIT_LIMIT as int) <= fx_div_spec(c, len) <= UNIT_LIMIT as int,
{
    assert(-(2 * len) <= c <= 2 * len) by (nonlinear_arith)
        requires
            c * c <= len * len + 2 * len + 65535,
            len >= 256,
    ;
    assert(-(len * 131072) <= c * 65536 <= len * 131072) by (nonlinear_arith)
        requires
            -(2 * len) <= c <= 2 * len,
            len >= 256,
    ;
    assert(len * 131072 >= 0) by (nonlinear_arith)
        requires
            len >= 256,
    ;
    lemma_tdiv_range(c * 65536, len, len * 131072);
    lemma_div_by_multiple(131072, len);
    assert(len * 131072 == 131072 * len) by (nonlinear_arith);
}

/// Negating one argument negates the dot product exactly: truncating
/// division is symmetric about zero.
pub proof fn lemma_dot_neg(a: Vec3, b: Vec3, na: Vec3)
    requires
        na.x == -a.x,
        na.y == -a.y,
        na.z == -a.z,
    ensures
        na.dot_spec(b) == -a.dot_spec(b),
{
    assert(na.x * b.x == -(a.x * b.x)) by (nonlinear_arith)
        requires
            na.x == -a.x,
    ;
    assert(na.y * b.y == -(a.y * b.y)) by (nonlinear_arith)
        requires
            na.y == -a.y,
    ;
    assert(na.z * b.z == -(a.z * b.z)) by (nonlinear_arith)
        requires
            na.z == -a.z,
    ;
}

/// Negating a vector keeps its squared length.
pub proof fn lemma_len_sq_neg(a: Vec3, na: Vec3)
    requires
        na.x == -a.x,
        na.y == -a.y,
        na.z == -a.z,
    ensures
        na.len_sq_spec() == a.len_sq_spec(),
{
    assert(na.x * na.x == a.x * a.x) by (nonlinear_arith)
        requires
            na.x == -a.x,
    ;
    assert(na.y * na.y == a.y * a.y) by (nonlinear_arith)
        requires
            na.y == -a.y,
    ;
    assert(na.z * na.z == a.z * a.z) by (nonlinear_arith)
        requires
            na.z == -a.z,
    ;
}

/// One component of a normalization, squared: the truncated quotient
/// `w = c * FX_ONE / len` brackets the exact one by
/// `w^2 len^2 <= c^2 FX_ONE^2 < (|w|+1)^2 len^2`.
proof fn lemma_unit_comp_sq(c: int, len: int)
    requires
        len >= 1,
    ensures
        ({
            let w = fx_div_spec(c, len);
            let aw = if w >= 0 {
                w
            } else {
                -w
            };
            &&& (w * w) * (len * len) <= (c * c) * (65536int * 65536int)
            &&& (c * c) * (65536int * 65536int) < ((aw + 1) * (aw + 1)) * (len * len)
            &&& w * w == aw * aw
            &&& 0 <= aw
        }),
{
    let q = if c >= 0 {
        c
    } else {
        -c
    };
    let x = q * 65536;
    let aw = x / len;
    lemma_div_pos_is_pos(x, len);
    lemma_fundamental_div_mod(x, len);
    lemma_mod_bound(x, len);
    assert(len * aw <= x < len * (aw + 1)) by (nonlinear_arith)
        requires
            x == len * aw + x % len,
            0 <= x % len < len,
    ;
    let w = fx_div_spec(c, len);
    assert(w == if c >= 0 { aw } else { -aw }) by {
        if c >= 0 {
            assert(c * 65536 == x);
        } else {
            assert(-(c * 65536) == x);
        }
    }
    assert((aw * len) * (aw * len) <= x * x) by (nonlinear_arith)
        requires
            0 <= aw * len <= x,
    ;
    assert(x * x < ((aw + 1) * len) * ((aw + 1) * len)) by (nonlinear_arith)
        requires
            0 <= x < (aw + 1) * len,
    ;
    assert((aw * len) * (aw * len) == (aw * aw) * (len * len)) by (nonlinear_arith);
    assert(((aw + 1) * len) * ((aw + 1) * len) == ((aw + 1) * (aw + 1)) * (len * len))
        by (nonlinear_arith);
    assert(x * x == (c * c) * (65536int * 65536int)) by (nonlinear_arith)
        requires
            x == q * 65536,
            q == c || q == -c,
    ;
    assert(w * w == aw * aw) by (nonlinear_arith)
        requires
            w == aw || w == -aw,
    ;
}

/// Normalizing a ball draw whose squared length is at least `DRAW_FLOOR`
/// gives a vector whose squared length misses one whole unit by at most
/// a few rounding quanta.
pub proof fn lemma_unit_vector_precision(v: Vec3)
    requires
        v.in_bounds(FX_ONE as int),
        DRAW_FLOOR <= v.len_sq_spec() < FX_ONE as int,
    ensures
        FX_ONE as int - 13 <= v.unit_spec().len_sq_spec() <= FX_ONE as int + 8,
{
    lemma_unit_vector_bounds(v);
    let ls = v.len_sq_spec();
    let s = v.x * v.x + v.y * v.y + v.z * v.z;
    assert(v.x * v.x >= 0) by (nonlinear_arith);
    assert(v.y * v.y >= 0) by (nonlinear_arith);
    assert(v.z * v.z >= 0) by (nonlinear_arith);
    lemma_fundamental_div_mod(s, 65536);
    lemma_mod_bound(s, 65536);
    let n = ls * (65536int);
    let len = v.length_spec();
    assert(is_sqrt_of(n, len));
    assert(len >= 32768) by (nonlinear_arith)
        requires
            n < (len + 1) * (len + 1),
            n >= 16384 * 65536,
            len >= 0,
    ;
    assert(len <= 65535) by (nonlinear_arith)
        requires
            len * len <= n,
            n < 65536 * 65536,
            len >= 0,
    ;
    lemma_unit_comp_sq(v.x as int, len);
    lemma_unit_comp_sq(v.y as int, len);
    lemma_unit_comp_sq(v.z as int, len);
    let wx = fx_div_spec(v.x as int, len);
    let wy = fx_div_spec(v.y as int, len);
    let wz = fx_div_spec(v.z as int, len);
    let ax = if wx >= 0 {
        wx
    } else {
        -wx
    };
    let ay = if wy >= 0 {
        wy
    } else {
        -wy
    };
    let az = if wz >= 0 {
        wz
    } else {
        -wz
    };
    let usum = wx * wx + wy * wy + wz * wz;

    // the truncated components undershoot the draw, rescaled
    assert(usum * (len * len) == (wx * wx) * (len * len) + (wy * wy) * (len * len) + (wz * wz)
        * (len * len)) by (nonlinear_arith)
        requires
            usum == wx * wx + wy * wy + wz * wz,
    ;
    assert(s * (65536int * 65536int) == (v.x * v.x) * (65536int * 65536int) + (v.y * v.y) * (
    65536int * 65536int) + (v.z * v.z) * (65536int * 65536int)) by (nonlinear_arith)
        requires
            s == v.x * v.x + v.y * v.y + v.z * v.z,
    ;
    assert(usum * (len * len) <= s * (65536int * 65536int));

    // the draw, rescaled, stays under the square root's upper bracket
    assert((len + 1) * (len + 1) == len * len + 2 * len + 1) by (nonlinear_arith);
    assert(s <= len * len + 2 * len + 65535);
    assert(s * (65536int * 65536int) <= (len * len + 2 * len + 65535) * (65536int * 65536int))
        by (nonlinear_arith)
        requires
            s <= len * len + 2 * len + 65535,
    ;
    assert((len * len + 2 * len + 65535) * (65536int * 65536int) <= (65536int * 65536int + 8
        * 65536) * (len * len)) by (nonlinear_arith)
        requires
            len >= 32768,
    ;
    assert(usum <= 65536int * 65536int + 8 * 65536) by (nonlinear_arith)
        requires
            usum * (len * len) <= (65536int * 65536int + 8 * 65536) * (len * len),
            len >= 1,
    ;

    // and overshoots it by less than one quantum per component
    assert(s * (65536int * 65536int) < (((ax + 1) * (ax + 1)) + ((ay + 1) * (ay + 1)) + ((az
        + 1) * (az + 1))) * (len * len)) by (nonlinear_arith)
        requires
            (v.x * v.x) * (65536int * 65536int) < ((ax + 1) * (ax + 1)) * (len * len),
            (v.y * v.y) * (65536int * 65536int) < ((ay + 1) * (ay + 1)) * (len * len),
            (v.z * v.z) * (65536int * 65536int) < ((az + 1) * (az + 1)) * (len * len),
            s == v.x * v.x + v.y * v.y + v.z * v.z,
    ;
    assert(((ax + 1) * (ax + 1)) + ((ay + 1) * (ay + 1)) + ((az + 1) * (az + 1)) == usum + 2 * (
    ax + ay + az) + 3) by (nonlinear_arith)
        requires
            wx * wx == ax * ax,
            wy * wy == ay * ay,
            wz * wz == az * az,
            usum == wx * wx + wy * wy + wz * wz,
    ;
    assert(len * len <= s);
    assert((len * len) * (65536int * 65536int) <= s * (65536int * 65536int)) by (nonlinear_arith)
        requires
            len * len <= s,
    ;
    assert(65536int * 65536int < usum + 2 * (ax + ay + az) + 3) by (nonlinear_arith)
        requires
            (len * len) * (65536int * 65536int) < (usum + 2 * (ax + ay + az) + 3) * (len * len),
            len >= 1,
    ;
    assert(ax <= 131072 && ay <= 131072 && az <= 131072);
    assert(usum >= 65536int * 65536int - 12 * 65536 - 2);

    // divide the bracketed square sum back down
    let u = v.unit_spec();
    assert(u.x as int == wx && u.y as int == wy && u.z as int == wz);
    assert(u.len_sq_spec() == tdiv(usum, 65536));
    assert(usum >= 0);
    assert(usum <= 65544 * 65536);
    lemma_div_is_ordered(usum, 65544int * 65536int, 65536);
    lemma_div_by_multiple(65544, 65536);
    assert(65523 * 65536 <= usum);
    lemma_div_is_ordered(65523int * 65536int, usum, 65536);
    lemma_div_by_multiple(65523, 65536);
}

/// The dielectric round-trip law, at its exactly representable instance:
/// a ray that crosses an index-matched surface head-on (the unit incident
/// direction exactly opposite the unit normal, ratio of refractive
/// indices exactly one) leaves refraction with its direction unchanged —
/// index matching bends nothing.
pub proof fn lemma_refract_index_matched(uv: Vec3, n: Vec3)
    requires
        n.x == -uv.x,
        n.y == -uv.y,
        n.z == -uv.z,
        uv.in_bounds(UNIT_LIMIT as int),
        uv.len_sq_spec() == FX_ONE as int,
    ensures
        Vec3::refract_spec(uv, n, FX_ONE as int) == uv,
{
    lemma_dot_neg(uv, uv, n);
    assert(uv.dot_spec(n) == n.dot_spec(uv)) by {
        assert(uv.x * n.x == n.x * uv.x) by (nonlinear_arith);
        assert(uv.y * n.y == n.y * uv.y) by (nonlinear_arith);
        assert(uv.z * n.z == n.z * uv.z) by (nonlinear_arith);
    }
    assert(-Vec3::dot_spec(uv, n) == FX_ONE as int);
    let cos = FX_ONE as int;
    crate::fixed::lemma_fx_mul_one(n.x as int);
    crate::fixed::lemma_fx_mul_one(n.y as int);
    crate::fixed::lemma_fx_mul_one(n.z as int);
    assert(uv.x + fx_mul_spec(cos, n.x as int) == 0);
    assert(fx_mul_spec(FX_ONE as int, 0) == 0) by {
        crate::fixed::lemma_fx_mul_one(0);
    }
    let perp = Vec3 { x: 0i64, y: 0i64, z: 0i64 };
    assert(perp.len_sq_spec() == 0);
    assert(is_sqrt_of(65536int * 65536int, 65536int)) by (nonlinear_arith);
    crate::fixed::lemma_sqrt_unique(65536int * 65536int, 65536int);
}

/// A vector's dot product with itself is non-negative.
pub proof fn lemma_len_sq_nonneg(v: Vec3)
    ensures
        v.len_sq_spec() >= 0,
{
    assert(v.x * v.x >= 0) by (nonlinear_arith);
    assert(v.y * v.y >= 0) by (nonlinear_arith);
    assert(v.z * v.z >= 0) by (nonlinear_arith);
}

/// A vector with some component at or past the degeneracy threshold has a
/// squared length that does not round to zero.
pub proof fn lemma_not_near_zero_has_direction(v: Vec3)
    requires
        !v.near_zero_spec(),
    ensures
        v.has_direction(),
{
    lemma_len_sq_nonneg(v);
    assert(v.x * v.x >= 0 && v.y * v.y >= 0 && v.z * v.z >= 0) by (nonlinear_arith);
    let s = v.x * v.x + v.y * v.y + v.z * v.z;
    if v.x >= NEAR_ZERO_EPS as int || v.x <= -(NEAR_ZERO_EPS as int) {
        assert(v.x * v.x >= 65536) by (nonlinear_arith)
            requires
                v.x >= 256 || v.x <= -256,
        ;
    } else if v.y >= NEAR_ZERO_EPS as int || v.y <= -(NEAR_ZERO_EPS as int) {
        assert(v.y * v.y >= 65536) by (nonlinear_arith)
            requires
                v.y >= 256 || v.y <= -256,
        ;
    } else {
        assert(v.z * v.z >= 65536) by (nonlinear_arith)
            requires
                v.z >= 256 || v.z <= -256,
        ;
    }
    assert(s >= 65536);
    assert(s / 65536 >= 1) by {
        lemma_fundamental_div_mod(s, 65536);
        lemma_tdiv_range(s - 65536, 65536, s);
        vstd::arithmetic::div_mod::lemma_div_is_ordered(65536, s, 65536);
    }
}

} // verus!
