//! Material scattering models: diffuse, metal and dielectric.

use vstd::prelude::*;
use vstd::arithmetic::div_mod::lemma_div_by_multiple;
use crate::fixed::FX_ONE;
use crate::fixed::fx_mul_spec;
use crate::fixed::fx_div_spec;
use crate::fixed::sqrt_floor;
use crate::fixed::clamp_spec;
use crate::fixed::fx_mul;
use crate::fixed::fx_div;
use crate::fixed::fx_sqrt;
use crate::fixed::clamp;
use crate::fixed::lemma_fx_mul_range;
use crate::fixed::lemma_tdiv_range;
use crate::hittable::HitRecord;
use crate::ray::Ray;
use crate::ray::DIR_LIMIT;
use crate::vector::Vec3;
use crate::vector::Color;
use crate::vector::UNIT_LIMIT;
use crate::vector::RATIO_LIMIT;
use crate::vector::DRAW_FLOOR;
use crate::vector::lemma_dot_neg;
use crate::vector::lemma_dot_range;

verus! {

/// A reflectance triple: every channel is a fraction of one.
pub open spec fn albedo_wf(c: Color) -> bool {
    &&& 0 <= c.x <= FX_ONE as int
    &&& 0 <= c.y <= FX_ONE as int
    &&& 0 <= c.z <= FX_ONE as int
}

#[derive(Clone, Copy, Debug)]
pub struct Lambertian {
    pub albedo: Color,
}

#[derive(Clone, Copy, Debug)]
pub struct Metal {
    pub albedo: Color,
    pub fuzz: i64,
}

#[derive(Clone, Copy, Debug)]
pub struct Dielectric {
    pub refraction_index: i64,
}

/// The closed set of scattering behaviors a surface can have.
#[derive(Clone, Copy, Debug)]
pub enum Material {
    Lambertian(Lambertian),
    Metal(Metal),
    Dielectric(Dielectric),
}

impl Lambertian {
    pub open spec fn wf(self) -> bool {
        albedo_wf(self.albedo)
    }
}

impl Metal {
    pub open spec fn wf(self) -> bool {
        albedo_wf(self.albedo)
    }
}

impl Dielectric {
    /// The index stays within the range the refraction routine accepts:
    /// between one half and sixteen.
    pub open spec fn wf(self) -> bool {
        32768 <= self.refraction_index <= RATIO_LIMIT
    }

    /// The quotient of refractive indices for a crossing: inverted when
    /// the ray arrives from outside.
    pub open spec fn ratio_spec(self, front_face: bool) -> int {
        if front_face {
            fx_div_spec(FX_ONE as int, self.refraction_index as int)
        } else {
            self.refraction_index as int
        }
    }
}

impl Material {
    pub open spec fn wf(self) -> bool {
        match self {
            Material::Lambertian(m) => m.wf(),
            Material::Metal(m) => m.wf(),
            Material::Dielectric(m) => m.wf(),
        }
    }
}

/// The cosine the dielectric model works with: `min(dot(-unit_dir, n), 1)`.
pub open spec fn cos_theta_spec(unit_dir: Vec3, n: Vec3) -> int {
    if -Vec3::dot_spec(unit_dir, n) > FX_ONE as int {
        FX_ONE as int
    } else {
        -Vec3::dot_spec(unit_dir, n)
    }
}

/// The matching sine, `sqrt(1 - cos^2)`, with the radicand pinned at zero
/// where rounding would push it below.
pub open spec fn sin_theta_spec(unit_dir: Vec3, n: Vec3) -> int {
    let cos = cos_theta_spec(unit_dir, n);
    let s2 = if FX_ONE as int - fx_mul_spec(cos, cos) < 0 {
        0
    } else {
        FX_ONE as int - fx_mul_spec(cos, cos)
    };
    sqrt_floor(s2 * (FX_ONE as int))
}

/// Snell's law admits no transmitted ray: `ratio * sin_theta > 1`.
pub open spec fn cannot_refract_spec(ratio: int, unit_dir: Vec3, n: Vec3) -> bool {
    fx_mul_spec(ratio, sin_theta_spec(unit_dir, n)) > FX_ONE as int
}

/// Schlick's approximation: `r0 + (1 - r0) * (1 - cosine)^5` with
/// `r0 = ((1 - ratio) / (1 + ratio))^2`.
pub open spec fn reflectance_spec(cosine: int, ref_idx: int) -> int {
    let r0a = fx_div_spec(FX_ONE as int - ref_idx, FX_ONE as int + ref_idx);
    let r0 = fx_mul_spec(r0a, r0a);
    let omc = FX_ONE as int - cosine;
    let p2 = fx_mul_spec(omc, omc);
    let p4 = fx_mul_spec(p2, p2);
    let p5 = fx_mul_spec(p4, omc);
    r0 + fx_mul_spec(FX_ONE as int - r0, p5)
}

/// What diffuse scattering promises of every outcome: success, the
/// surface's albedo as attenuation, and a bounce from the hit point whose
/// direction is the normal plus a fresh unit draw — or the normal alone
/// where that sum degenerates.
pub open spec fn lambertian_scatter_post(
    m: Lambertian,
    hit: HitRecord,
    att: Color,
    sc: Ray,
    b: bool,
) -> bool {
    &&& b
    &&& att == m.albedo
    &&& sc.origin == hit.p
    &&& sc.dir.in_bounds(DIR_LIMIT as int)
    &&& sc.dir.has_direction()
    &&& exists|u: Vec3|
        {
            let summed = Vec3 {
                x: (hit.normal.x + u.x) as i64,
                y: (hit.normal.y + u.y) as i64,
                z: (hit.normal.z + u.z) as i64,
            };
            &&& FX_ONE as int - 13 <= (#[trigger] u.len_sq_spec()) <= FX_ONE as int + 8
            &&& u.in_bounds(UNIT_LIMIT as int)
            &&& sc.dir == if summed.near_zero_spec() {
                hit.normal
            } else {
                summed
            }
        }
}

/// What metal scattering promises of every outcome: the albedo as
/// attenuation, a bounce from the hit point whose direction is the mirror
/// reflection perturbed by the clamped fuzz times a fresh ball draw, and
/// success exactly when that direction leaves the surface.
pub open spec fn metal_scatter_post(
    m: Metal,
    r_in: Ray,
    hit: HitRecord,
    att: Color,
    sc: Ray,
    b: bool,
) -> bool {
    let refl = Vec3::reflect_spec(r_in.dir.unit_spec(), hit.normal);
    let fc = clamp_spec(m.fuzz as int, 0, FX_ONE as int);
    &&& att == m.albedo
    &&& sc.origin == hit.p
    &&& sc.dir.in_bounds(DIR_LIMIT as int)
    &&& b == (sc.dir.dot_spec(hit.normal) > 0)
    &&& -fc <= sc.dir.x - refl.x <= fc
    &&& -fc <= sc.dir.y - refl.y <= fc
    &&& -fc <= sc.dir.z - refl.z <= fc
    &&& exists|p: Vec3|
        {
            &&& DRAW_FLOOR as int <= (#[trigger] p.len_sq_spec()) < FX_ONE as int
            &&& p.in_bounds(FX_ONE as int)
            &&& sc.dir == (Vec3 {
                x: (refl.x + fx_mul_spec(fc, p.x as int)) as i64,
                y: (refl.y + fx_mul_spec(fc, p.y as int)) as i64,
                z: (refl.z + fx_mul_spec(fc, p.z as int)) as i64,
            })
        }
}

/// What dielectric scattering promises of every outcome: success with no
/// absorption, and a bounce from the hit point that is either the mirror
/// reflection or Snell refraction of the unit incident direction — forced
/// to reflect under total internal reflection, forced to refract where the
/// Schlick reflectance vanishes, forced to reflect where it reaches one.
pub open spec fn dielectric_scatter_post(
    d: Dielectric,
    r_in: Ray,
    hit: HitRecord,
    att: Color,
    sc: Ray,
    b: bool,
) -> bool {
    let ud = r_in.dir.unit_spec();
    let ratio = d.ratio_spec(hit.front_face);
    let cos = cos_theta_spec(ud, hit.normal);
    &&& b
    &&& att == (Color { x: FX_ONE, y: FX_ONE, z: FX_ONE })
    &&& sc.origin == hit.p
    &&& sc.dir.in_bounds(DIR_LIMIT as int)
    &&& (sc.dir == Vec3::reflect_spec(ud, hit.normal) || sc.dir == Vec3::refract_spec(
        ud,
        hit.normal,
        ratio,
    ))
    &&& (cannot_refract_spec(ratio, ud, hit.normal) ==> sc.dir == Vec3::reflect_spec(
        ud,
        hit.normal,
    ))
    &&& (!cannot_refract_spec(ratio, ud, hit.normal) && reflectance_spec(cos, ratio) <= 0
        ==> sc.dir == Vec3::refract_spec(ud, hit.normal, ratio))
    &&& (!cannot_refract_spec(ratio, ud, hit.normal) && reflectance_spec(cos, ratio) >= FX_ONE
        ==> sc.dir == Vec3::reflect_spec(ud, hit.normal))
}

impl Lambertian {
    pub fn scatter(
        &self,
        r_in: &Ray,
        hit_record: &HitRecord,
        attenuation: &mut Color,
        scattered: &mut Ray,
    ) -> (b: bool)
        requires
            hit_record.wf(),
        ensures
            lambertian_scatter_post(
                *self,
                *hit_record,
                *final(attenuation),
                *final(scattered),
                b,
            ),
    {
        let ruv = Vec3::random_unit_vector();
        let mut scatter_direction = hit_record.normal.add(ruv);

        // Catch degenerate scatter direction
        if scatter_direction.near_zero() {
            scatter_direction = hit_record.normal;
        }
        *scattered = Ray { origin: hit_record.p, dir: scatter_direction };
        *attenuation = self.albedo;
        proof {
            let summed = Vec3 {
                x: (hit_record.normal.x + ruv.x) as i64,
                y: (hit_record.normal.y + ruv.y) as i64,
                z: (hit_record.normal.z + ruv.z) as i64,
            };
            assert(FX_ONE as int - 13 <= ruv.len_sq_spec() <= FX_ONE as int + 8);
            assert(scattered.dir == if summed.near_zero_spec() {
                hit_record.normal
            } else {
                summed
            });
        }
        true
    }
}

impl Metal {
    pub fn scatter(
        &self,
        r_in: &Ray,
        hit_record: &HitRecord,
        attenuation: &mut Color,
        scattered: &mut Ray,
    ) -> (b: bool)
        requires
            hit_record.wf(),
            r_in.wf(),
            r_in.dir.has_direction(),
        ensures
            metal_scatter_post(
                *self,
                *r_in,
                *hit_record,
                *final(attenuation),
                *final(scattered),
                b,
            ),
    {
        let reflected = Vec3::reflect(r_in.dir.unit_vector(), hit_record.normal);
        // keep fuzz parameter in bounds of [0, 1]
        let fuzz_clamped: i64 = clamp(self.fuzz, 0, FX_ONE);
        let draw = Vec3::random_in_unit_sphere();
        proof {
            lemma_fx_mul_range(fuzz_clamped as int, draw.x as int, fuzz_clamped as int, FX_ONE as int);
            lemma_fx_mul_range(fuzz_clamped as int, draw.y as int, fuzz_clamped as int, FX_ONE as int);
            lemma_fx_mul_range(fuzz_clamped as int, draw.z as int, fuzz_clamped as int, FX_ONE as int);
            lemma_div_by_multiple(fuzz_clamped as int, FX_ONE as int);
        }
        let perturbation = draw.scale(fuzz_clamped);
        let dir = reflected.add(perturbation);
        *scattered = Ray { origin: hit_record.p, dir };
        *attenuation = self.albedo;
        proof {
            assert(DRAW_FLOOR as int <= draw.len_sq_spec() < FX_ONE as int);
            assert(scattered.dir == (Vec3 {
                x: (reflected.x + fx_mul_spec(fuzz_clamped as int, draw.x as int)) as i64,
                y: (reflected.y + fx_mul_spec(fuzz_clamped as int, draw.y as int)) as i64,
                z: (reflected.z + fx_mul_spec(fuzz_clamped as int, draw.z as int)) as i64,
            }));
        }
        dir.dot(hit_record.normal) > 0
    }
}

impl Dielectric {
    pub fn scatter(
        &self,
        r_in: &Ray,
        hit_record: &HitRecord,
        attenuation: &mut Color,
        scattered: &mut Ray,
    ) -> (b: bool)
        requires
            self.wf(),
            hit_record.wf(),
            r_in.wf(),
            r_in.dir.has_direction(),
        ensures
            dielectric_scatter_post(
                *self,
                *r_in,
                *hit_record,
                *final(attenuation),
                *final(scattered),
                b,
            ),
    {
        *attenuation = Color { x: FX_ONE, y: FX_ONE, z: FX_ONE };

        let refraction_ratio: i64 = if hit_record.front_face {
            proof {
                lemma_tdiv_range(65536int * 65536int, self.refraction_index as int, 65536int * 65536int);
            }
            fx_div(FX_ONE, self.refraction_index)
        } else {
            self.refraction_index
        };
        proof {
            assert(0 <= fx_div_spec(65536, self.refraction_index as int) <= RATIO_LIMIT) by {
                lemma_tdiv_range(65536int * 65536int, self.refraction_index as int, 65536int * 65536int);
                vstd::arithmetic::div_mod::lemma_div_is_ordered_by_denominator(
                    65536int * 65536int,
                    32768,
                    self.refraction_index as int,
                );
            }
        }
        let unit_direction = r_in.dir.unit_vector();

        let neg_ud = unit_direction.neg();
        let d: i64 = neg_ud.dot(hit_record.normal);
        proof {
            lemma_dot_neg(unit_direction, hit_record.normal, neg_ud);
            lemma_dot_range(unit_direction, hit_record.normal, UNIT_LIMIT as int);
        }
        let cos_theta: i64 = if d > FX_ONE {
            FX_ONE
        } else {
            d
        };
        proof {
            lemma_fx_mul_range(cos_theta as int, cos_theta as int, 786432, 786432);
            assert(0 <= (cos_theta as int) * (cos_theta as int) <= 786432int * 786432int)
                by (nonlinear_arith)
                requires
                    -786432 <= cos_theta <= 786432,
            ;
            lemma_tdiv_range(
                (cos_theta as int) * (cos_theta as int),
                65536,
                786432int * 786432int,
            );
        }
        let cos2: i64 = fx_mul(cos_theta, cos_theta);
        let s2raw: i64 = FX_ONE - cos2;
        let sin2: i64 = if s2raw < 0 {
            0
        } else {
            s2raw
        };
        let sin_theta: i64 = fx_sqrt(sin2);
        proof {
            assert(sin_theta * sin_theta <= 65536 * 65536);
            assert(sin_theta <= 65536) by (nonlinear_arith)
                requires
                    sin_theta * sin_theta <= 65536 * 65536,
                    sin_theta >= 0,
            ;
            lemma_fx_mul_range(
                refraction_ratio as int,
                sin_theta as int,
                RATIO_LIMIT as int,
                FX_ONE as int,
            );
        }
        let cannot_refract: bool = fx_mul(refraction_ratio, sin_theta) > FX_ONE;
        let refl: i64 = self.reflectance(cos_theta, refraction_ratio);

        let dir: Vec3 = if cannot_refract || refl > crate::common::random_scalar(0, FX_ONE) {
            // cannot refract
            Vec3::reflect(unit_direction, hit_record.normal)
        } else {
            Vec3::refract(unit_direction, hit_record.normal, refraction_ratio)
        };

        *scattered = Ray { origin: hit_record.p, dir };
        true
    }
}

impl Dielectric {
    /// Schlick's approximation for reflectance.
    fn reflectance(&self, cosine: i64, ref_idx: i64) -> (r: i64)
        requires
            -786432 <= cosine <= FX_ONE,
            0 <= ref_idx <= RATIO_LIMIT,
        ensures
            r == reflectance_spec(cosine as int, ref_idx as int),
            r >= 0,
    {
        proof {
            lemma_reflectance_fits(cosine as int, ref_idx as int);
        }
        let r0a: i64 = fx_div(FX_ONE - ref_idx, FX_ONE + ref_idx);
        let r0: i64 = fx_mul(r0a, r0a);
        let omc: i64 = FX_ONE - cosine;
        let p2: i64 = fx_mul(omc, omc);
        let p4: i64 = fx_mul(p2, p2);
        let p5: i64 = fx_mul(p4, omc);
        r0 + fx_mul(FX_ONE - r0, p5)
    }
}

/// Every intermediate of the Schlick polynomial stays within machine
/// range, and the result is non-negative.
proof fn lemma_reflectance_fits(cosine: int, ref_idx: int)
    requires
        -786432 <= cosine <= FX_ONE as int,
        0 <= ref_idx <= RATIO_LIMIT as int,
    ensures
        ({
            let r0a = fx_div_spec(FX_ONE as int - ref_idx, FX_ONE as int + ref_idx);
            let r0 = fx_mul_spec(r0a, r0a);
            let omc = FX_ONE as int - cosine;
            let p2 = fx_mul_spec(omc, omc);
            let p4 = fx_mul_spec(p2, p2);
            let p5 = fx_mul_spec(p4, omc);
            &&& -65536 <= r0a <= 65536
            &&& 0 <= r0 <= 65536
            &&& 0 <= p2 <= 11075584
            &&& 0 <= p4 <= 1871773696
            &&& 0 <= p5 <= 24333230080
            &&& 0 <= fx_mul_spec(FX_ONE as int - r0, p5) <= 24333230080
            &&& reflectance_spec(cosine, ref_idx) >= 0
        }),
{
    let num = FX_ONE as int - ref_idx;
    let den = FX_ONE as int + ref_idx;
    assert(-(den * 65536) <= num * 65536 <= den * 65536) by (nonlinear_arith)
        requires
            -den <= num <= den,
            den >= 65536,
    ;
    assert(den * 65536 >= 0) by (nonlinear_arith)
        requires
            den >= 0,
    ;
    lemma_tdiv_range(num * 65536, den, den * 65536);
    lemma_div_by_multiple(65536, den);
    assert(den * 65536 == 65536 * den) by (nonlinear_arith);
    let r0a = fx_div_spec(num, den);
    assert(0 <= r0a * r0a <= 65536int * 65536int) by (nonlinear_arith)
        requires
            -65536 <= r0a <= 65536,
    ;
    lemma_tdiv_range(r0a * r0a, 65536, 65536int * 65536int);
    let r0 = fx_mul_spec(r0a, r0a);
    let omc = FX_ONE as int - cosine;
    assert(0 <= omc <= 851968);
    lemma_fx_mul_range(omc, omc, 851968, 851968);
    let p2 = fx_mul_spec(omc, omc);
    lemma_fx_mul_range(p2, p2, 11075584, 11075584);
    let p4 = fx_mul_spec(p2, p2);
    lemma_fx_mul_range(p4, omc, 1871773696, 851968);
    let p5 = fx_mul_spec(p4, omc);
    lemma_fx_mul_range(FX_ONE as int - r0, p5, 65536, 24333230080);
}

impl Material {
    /// Asks the surface's scattering model for the attenuated follow-on
    /// ray; a `false` answer means the sample is absorbed.
    pub fn scatter(
        &self,
        r_in: &Ray,
        hit_record: &HitRecord,
        attenuation: &mut Color,
        scattered: &mut Ray,
    ) -> (b: bool)
        requires
            self.wf(),
            hit_record.wf(),
            r_in.wf(),
            r_in.dir.has_direction(),
        ensures
            final(scattered).origin == hit_record.p,
            final(scattered).dir.in_bounds(DIR_LIMIT as int),
            b ==> albedo_wf(*final(attenuation)),
            match *self {
                Material::Lambertian(m) => lambertian_scatter_post(
                    m,
                    *hit_record,
                    *final(attenuation),
                    *final(scattered),
                    b,
                ),
                Material::Metal(m) => metal_scatter_post(
                    m,
                    *r_in,
                    *hit_record,
                    *final(attenuation),
                    *final(scattered),
                    b,
                ),
                Material::Dielectric(m) => dielectric_scatter_post(
                    m,
                    *r_in,
                    *hit_record,
                    *final(attenuation),
                    *final(scattered),
                    b,
                ),
            },
    {
        match self {
            Material::Lambertian(m) => m.scatter(r_in, hit_record, attenuation, scattered),
            Material::Metal(m) => m.scatter(r_in, hit_record, attenuation, scattered),
            Material::Dielectric(m) => m.scatter(r_in, hit_record, attenuation, scattered),
        }
    }
}

} // verus!
