//! The sphere primitive, with the analytic ray-sphere intersection test.

use vstd::prelude::*;
use vstd::arithmetic::div_mod::lemma_div_by_multiple;
use vstd::arithmetic::div_mod::lemma_fundamental_div_mod;
use crate::fixed::fx_mul_spec;
use crate::fixed::fx_div_spec;
use crate::fixed::sqrt_floor;
use crate::fixed::is_sqrt_of;
use crate::fixed::fx_mul;
use crate::fixed::isqrt;
use crate::fixed::lemma_fx_mul_range;
use crate::fixed::lemma_sqrt_unique;
use crate::hittable::HitRecord;
use crate::hittable::Hittable;
use crate::material::Material;
use crate::ray::Ray;
use crate::ray::ORIGIN_LIMIT;
use crate::ray::DIR_LIMIT;
use crate::ray::T_LIMIT;
use crate::vector::Vec3;
use crate::vector::Point3;
use crate::vector::UNIT_LIMIT;
use crate::vector::lemma_dot_range;
use crate::vector::lemma_len_sq_nonneg;

verus! {

/// Magnitude cap on sphere centers and radii: 4096 whole units.
pub const COORD_LIMIT: i64 = 0x10000000;

#[derive(Clone, Copy, Debug)]
pub struct Sphere {
    pub center: Point3,
    pub radius: i64,
    pub material: Material,
}

impl Sphere {
    /// Geometry within the tracer's working ranges, a positive radius no
    /// smaller than one fixed-point quantum, and a well-formed material.
    pub open spec fn wf(self) -> bool {
        &&& self.center.in_bounds(COORD_LIMIT as int)
        &&& 1 <= self.radius <= COORD_LIMIT
        &&& self.material.wf()
    }
}

/// The record a sphere reports for a root of its quadratic: the hit point,
/// the outward normal `(p - center) / radius` oriented against the ray,
/// and the face flag. Rounded geometry that escapes the working ranges is
/// reported as a miss.
pub open spec fn sphere_record_spec(s: Sphere, r: Ray, root: int) -> Option<HitRecord> {
    let p = r.at_spec(root);
    if !p.in_bounds(ORIGIN_LIMIT as int) {
        None
    } else {
        let outward = Vec3 {
            x: fx_div_spec(p.x - s.center.x, s.radius as int) as i64,
            y: fx_div_spec(p.y - s.center.y, s.radius as int) as i64,
            z: fx_div_spec(p.z - s.center.z, s.radius as int) as i64,
        };
        if !outward.in_bounds(UNIT_LIMIT as int) {
            None
        } else {
            let front = Vec3::dot_spec(r.dir, outward) < 0;
            let normal = if front {
                outward
            } else {
                Vec3 { x: (-outward.x) as i64, y: (-outward.y) as i64, z: (-outward.z) as i64 }
            };
            if normal.has_direction() {
                Some(
                    HitRecord {
                        p,
                        normal,
                        t: root as i64,
                        front_face: front,
                        material: s.material,
                    },
                )
            } else {
                None
            }
        }
    }
}

/// The exact account of the intersection test: solve
/// `a t^2 + 2 half_b t + c = 0`, prefer the smaller root within
/// `[t_min, t_max]`, fall back to the larger, and report the record at the
/// chosen root. A degenerate direction (`a` rounding to zero) or a
/// negative discriminant is a miss.
pub open spec fn sphere_hit_spec(s: Sphere, r: Ray, t_min: int, t_max: int) -> Option<HitRecord> {
    let oc = Vec3 {
        x: (r.origin.x - s.center.x) as i64,
        y: (r.origin.y - s.center.y) as i64,
        z: (r.origin.z - s.center.z) as i64,
    };
    let a = r.dir.len_sq_spec();
    let half_b = oc.dot_spec(r.dir);
    let c = oc.len_sq_spec() - fx_mul_spec(s.radius as int, s.radius as int);
    let disc = half_b * half_b - a * c;
    if a < 1 || disc < 0 {
        None
    } else {
        let sqrtd = sqrt_floor(disc);
        let t1 = fx_div_spec(-half_b - sqrtd, a);
        let t2 = fx_div_spec(-half_b + sqrtd, a);
        if t_min <= t1 && t1 <= t_max {
            sphere_record_spec(s, r, t1)
        } else if t_min <= t2 && t2 <= t_max {
            sphere_record_spec(s, r, t2)
        } else {
            None
        }
    }
}

/// No false hits: where the quadratic has a negative discriminant — the
/// ray's squared closest approach to the center exceeds the squared
/// radius — the sphere reports no hit, whatever the interval.
pub proof fn lemma_sphere_no_false_hit(s: Sphere, r: Ray, t_min: int, t_max: int)
    requires
        ({
            let oc = Vec3 {
                x: (r.origin.x - s.center.x) as i64,
                y: (r.origin.y - s.center.y) as i64,
                z: (r.origin.z - s.center.z) as i64,
            };
            let a = r.dir.len_sq_spec();
            let half_b = oc.dot_spec(r.dir);
            let c = oc.len_sq_spec() - fx_mul_spec(s.radius as int, s.radius as int);
            half_b * half_b < a * c
        }),
    ensures
        sphere_hit_spec(s, r, t_min, t_max) is None,
{
}

/// Intersection correctness at the exactly representable instances: a
/// ray starting a distance `d` along the axis of a sphere of radius `r`
/// at the origin and aimed at its center hits at exactly `t = d - r`,
/// with the normal facing straight back along the incident direction.
/// Distances on the 1/256 grid square without rounding, so the fixed-point
/// quadratic is exact there.
pub proof fn lemma_head_on_axis_hit(mat: Material, d: i64, r: i64, t_min: int, t_max: int)
    requires
        d % 256 == 0,
        r % 256 == 0,
        1 <= r < d,
        d <= ORIGIN_LIMIT,
        r <= COORD_LIMIT,
        0 <= t_min <= d - r <= t_max <= T_LIMIT as int,
    ensures
        ({
            let s = Sphere {
                center: Vec3 { x: 0i64, y: 0i64, z: 0i64 },
                radius: r,
                material: mat,
            };
            let ray = Ray {
                origin: Vec3 { x: 0i64, y: 0i64, z: d },
                dir: Vec3 { x: 0i64, y: 0i64, z: -65536i64 },
            };
            sphere_hit_spec(s, ray, t_min, t_max) == Some(
                HitRecord {
                    p: Vec3 { x: 0i64, y: 0i64, z: r },
                    normal: Vec3 { x: 0i64, y: 0i64, z: 65536i64 },
                    t: (d - r) as i64,
                    front_face: true,
                    material: mat,
                },
            )
        }),
{
    let da = d as int / 256;
    let ra = r as int / 256;
    lemma_fundamental_div_mod(d as int, 256);
    lemma_fundamental_div_mod(r as int, 256);
    assert((d as int) * (d as int) == (da * da) * 65536) by (nonlinear_arith)
        requires
            d == 256 * da,
    ;
    assert((r as int) * (r as int) == (ra * ra) * 65536) by (nonlinear_arith)
        requires
            r == 256 * ra,
    ;
    assert(da * da >= 0) by (nonlinear_arith);
    assert(ra * ra >= 0) by (nonlinear_arith);
    lemma_div_by_multiple(da * da, 65536);
    lemma_div_by_multiple(ra * ra, 65536);
    lemma_div_by_multiple(d as int, 65536);
    lemma_div_by_multiple(d as int - r as int, 65536);
    // the discriminant collapses to the squared radius
    assert((-(d as int)) * (-(d as int)) == (d as int) * (d as int)) by (nonlinear_arith);
    assert((65536int) * ((da * da) - (ra * ra)) == (da * da) * 65536 - (ra * ra) * 65536)
        by (nonlinear_arith);
    assert(is_sqrt_of((r as int) * (r as int), r as int)) by (nonlinear_arith)
        requires
            r >= 1,
    ;
    lemma_sqrt_unique((r as int) * (r as int), r as int);
    // the hit point falls back onto the surface
    lemma_div_by_multiple(65536, r as int);
    assert((r as int) * 65536 == 65536 * (r as int)) by (nonlinear_arith);
    assert((d - r) * (-65536) == -((d - r) * 65536)) by (nonlinear_arith);
    assert((d as int - r as int) * 65536 == (d - r) as int * 65536) by (nonlinear_arith);
}

/// Front-face orientation at the exactly representable instance of the
/// interior case: a ray cast from the center of a sphere strikes its
/// shell from inside, so `front_face` is false and the stored normal is
/// the outward geometric normal flipped to point against the ray.
pub proof fn lemma_interior_hit_flips_normal(mat: Material, r: i64, t_min: int, t_max: int)
    requires
        r % 256 == 0,
        1 <= r <= COORD_LIMIT,
        0 <= t_min <= r <= t_max <= T_LIMIT as int,
    ensures
        ({
            let s = Sphere {
                center: Vec3 { x: 0i64, y: 0i64, z: 0i64 },
                radius: r,
                material: mat,
            };
            let ray = Ray {
                origin: Vec3 { x: 0i64, y: 0i64, z: 0i64 },
                dir: Vec3 { x: 0i64, y: 0i64, z: -65536i64 },
            };
            sphere_hit_spec(s, ray, t_min, t_max) == Some(
                HitRecord {
                    p: Vec3 { x: 0i64, y: 0i64, z: (-r) as i64 },
                    normal: Vec3 { x: 0i64, y: 0i64, z: 65536i64 },
                    t: r,
                    front_face: false,
                    material: mat,
                },
            )
        }),
{
    let ra = r as int / 256;
    lemma_fundamental_div_mod(r as int, 256);
    assert((r as int) * (r as int) == (ra * ra) * 65536) by (nonlinear_arith)
        requires
            r == 256 * ra,
    ;
    assert(ra * ra >= 0) by (nonlinear_arith);
    lemma_div_by_multiple(ra * ra, 65536);
    lemma_div_by_multiple(r as int, 65536);
    // the discriminant is the squared radius
    assert((65536int) * (0 - (ra * ra)) == -((ra * ra) * 65536)) by (nonlinear_arith);
    assert(is_sqrt_of((r as int) * (r as int), r as int)) by (nonlinear_arith)
        requires
            r >= 1,
    ;
    lemma_sqrt_unique((r as int) * (r as int), r as int);
    // the small root lies behind the origin, the large root on the shell
    assert((r as int) * (-65536) == -((r as int) * 65536)) by (nonlinear_arith);
    // the outward normal points along the ray, so the face is flipped
    lemma_div_by_multiple(65536, r as int);
    assert((r as int) * 65536 == 65536 * (r as int)) by (nonlinear_arith);
    assert((-(r as int)) * 65536 == -((r as int) * 65536)) by (nonlinear_arith);

    let s = Sphere { center: Vec3 { x: 0i64, y: 0i64, z: 0i64 }, radius: r, material: mat };
    let ray = Ray {
        origin: Vec3 { x: 0i64, y: 0i64, z: 0i64 },
        dir: Vec3 { x: 0i64, y: 0i64, z: -65536i64 },
    };
    assert(ray.dir.len_sq_spec() == 65536) by {
        assert(ray.dir.x * ray.dir.x + ray.dir.y * ray.dir.y + ray.dir.z * ray.dir.z
            == 4294967296int) by (nonlinear_arith)
            requires
                ray.dir.x == 0,
                ray.dir.y == 0,
                ray.dir.z == -65536,
        ;
    }
    assert(s.center == ray.origin);
    assert(fx_div_spec(-(r as int) - 0, s.radius as int) == -65536);
    assert(fx_div_spec(0, s.radius as int) == 0) by {
        lemma_div_by_multiple(0, r as int);
    }
    let p = ray.at_spec(r as int);
    assert(fx_mul_spec(r as int, -65536) == -(r as int));
    assert(fx_mul_spec(r as int, 0) == 0) by {
        assert((r as int) * 0 == 0) by (nonlinear_arith);
        lemma_div_by_multiple(0, 65536);
    }
    assert(p == (Vec3 { x: 0i64, y: 0i64, z: (-(r as int)) as i64 }));
    assert(p.in_bounds(ORIGIN_LIMIT as int));
    let outward = Vec3 { x: 0i64, y: 0i64, z: -65536i64 };
    assert((Vec3 {
        x: fx_div_spec(p.x - s.center.x, s.radius as int) as i64,
        y: fx_div_spec(p.y - s.center.y, s.radius as int) as i64,
        z: fx_div_spec(p.z - s.center.z, s.radius as int) as i64,
    }) == outward);
    assert(Vec3::dot_spec(ray.dir, outward) == 65536) by {
        assert(ray.dir.x * outward.x + ray.dir.y * outward.y + ray.dir.z * outward.z
            == 4294967296int) by (nonlinear_arith)
            requires
                ray.dir.x == 0,
                ray.dir.y == 0,
                ray.dir.z == -65536,
                outward.x == 0,
                outward.y == 0,
                outward.z == -65536,
        ;
    }
    let normal = Vec3 { x: 0i64, y: 0i64, z: 65536i64 };
    assert(normal.len_sq_spec() == 65536) by {
        assert(normal.x * normal.x + normal.y * normal.y + normal.z * normal.z
            == 4294967296int) by (nonlinear_arith)
            requires
                normal.x == 0,
                normal.y == 0,
                normal.z == 65536,
        ;
    }
    assert(sphere_record_spec(s, ray, r as int) == Some(
        HitRecord { p, normal, t: r, front_face: false, material: mat },
    ));
    assert(sphere_hit_spec(s, ray, t_min, t_max) == sphere_record_spec(s, ray, r as int));
}

/// What a reported hit guarantees: the parameter lies in the queried
/// interval, and for a well-formed sphere the record is well-formed.
pub proof fn lemma_sphere_hit_bounds(s: Sphere, r: Ray, t_min: int, t_max: int)
    requires
        0 <= t_min,
        t_max <= T_LIMIT as int,
    ensures
        match sphere_hit_spec(s, r, t_min, t_max) {
            Some(h) => t_min <= h.t <= t_max && (s.wf() ==> h.wf()),
            None => true,
        },
{
}

/// Shrinking the upper end of the query interval keeps exactly the hits
/// whose parameter still lies inside it: the root a sphere reports does
/// not depend on the upper cutoff, only whether it is reported does.
pub proof fn lemma_sphere_hit_restrict(s: Sphere, r: Ray, t_min: int, m: int, t_max: int)
    requires
        0 <= t_min,
        m <= t_max,
        t_max <= T_LIMIT as int,
    ensures
        match sphere_hit_spec(s, r, t_min, m) {
            Some(h) => sphere_hit_spec(s, r, t_min, t_max) == Some(h) && h.t <= m,
            None => match sphere_hit_spec(s, r, t_min, t_max) {
                Some(h2) => h2.t > m,
                None => true,
            },
        },
{
    let oc = Vec3 {
        x: (r.origin.x - s.center.x) as i64,
        y: (r.origin.y - s.center.y) as i64,
        z: (r.origin.z - s.center.z) as i64,
    };
    let a = r.dir.len_sq_spec();
    let half_b = oc.dot_spec(r.dir);
    let c = oc.len_sq_spec() - fx_mul_spec(s.radius as int, s.radius as int);
    let disc = half_b * half_b - a * c;
    if a >= 1 && disc >= 0 {
        let sqrtd = sqrt_floor(disc);
        crate::fixed::lemma_sqrt_exists(disc as nat);
        assert(is_sqrt_of(disc, sqrtd));
        assert((-half_b - sqrtd) * 65536 <= (-half_b + sqrtd) * 65536) by (nonlinear_arith)
            requires
                sqrtd >= 0,
        ;
        crate::fixed::lemma_tdiv_monotone(
            (-half_b - sqrtd) * 65536,
            (-half_b + sqrtd) * 65536,
            a,
        );
        let t1 = fx_div_spec(-half_b - sqrtd, a);
        let t2 = fx_div_spec(-half_b + sqrtd, a);
        assert(t1 <= t2);
        if t_min <= t1 && t1 <= m {
            assert(sphere_hit_spec(s, r, t_min, m) == sphere_record_spec(s, r, t1));
            assert(sphere_hit_spec(s, r, t_min, t_max) == sphere_record_spec(s, r, t1));
        } else if t_min <= t2 && t2 <= m {
            assert(t1 < t_min);
            assert(sphere_hit_spec(s, r, t_min, m) == sphere_record_spec(s, r, t2));
            assert(sphere_hit_spec(s, r, t_min, t_max) == sphere_record_spec(s, r, t2));
        }
    }
}

impl Hittable for Sphere {
    open spec fn hit_req(&self, r: Ray, t_min: i64, t_max: i64) -> bool {
        &&& self.wf()
        &&& r.wf()
        &&& 0 <= t_min <= t_max <= T_LIMIT
    }

    open spec fn hit_spec(&self, r: Ray, t_min: i64, t_max: i64) -> Option<HitRecord> {
        sphere_hit_spec(*self, r, t_min as int, t_max as int)
    }

    fn hit(&self, ray: &Ray, t_min: i64, t_max: i64) -> (res: Option<HitRecord>) {
        let oc = ray.origin.sub(self.center);
        proof {
            lemma_dot_range(ray.dir, ray.dir, DIR_LIMIT as int);
            lemma_dot_range(oc, ray.dir, 0x80000000int);
            lemma_dot_range(oc, oc, 0x80000000int);
            lemma_len_sq_nonneg(ray.dir);
            lemma_len_sq_nonneg(oc);
            lemma_fx_mul_range(self.radius as int, self.radius as int, COORD_LIMIT as int, COORD_LIMIT as int);
        }
        let a: i64 = ray.dir.length_squared();
        let half_b: i64 = oc.dot(ray.dir);
        let rsq: i64 = fx_mul(self.radius, self.radius);
        let c: i64 = oc.length_squared() - rsq;

        proof {
            assert((half_b as int) * (half_b as int)
                <= 211106232532992int * 211106232532992int) by (nonlinear_arith)
                requires
                    -211106232532992 <= half_b <= 211106232532992,
            ;
            assert(-(206158430208int * 212205744160768int) <= (a as int) * (c as int)
                <= 206158430208int * 212205744160768int) by (nonlinear_arith)
                requires
                    0 <= a <= 206158430208,
                    -212205744160768 <= c <= 212205744160768,
            ;
            assert((half_b as int) * (half_b as int) >= 0) by (nonlinear_arith);
        }
        let discriminant: i128 = (half_b as i128) * (half_b as i128) - (a as i128) * (c as i128);

        if a < 1 || discriminant < 0 {
            return None;
        }
        let sqrtd_w: u64 = isqrt(discriminant as u128);
        proof {
            assert((discriminant as u128) as int == discriminant as int);
            assert(discriminant as int <= 211106232532992int * 211106232532992int
                + 206158430208int * 212205744160768int);
            assert(sqrtd_w < 0x2000000000000) by (nonlinear_arith)
                requires
                    (sqrtd_w as int) * (sqrtd_w as int) <= 211106232532992int
                        * 211106232532992int + 206158430208int * 212205744160768int,
                    sqrtd_w >= 0,
            ;
        }
        let sqrtd: i64 = sqrtd_w as i64;

        // Find the nearest root that lies in the acceptable range.
        let num1: i128 = -(half_b as i128) - (sqrtd as i128);
        let t1w: i128 = num1 * 65536 / (a as i128);
        let root: i64;
        if (t_min as i128) <= t1w && t1w <= (t_max as i128) {
            root = t1w as i64;
        } else {
            let num2: i128 = -(half_b as i128) + (sqrtd as i128);
            let t2w: i128 = num2 * 65536 / (a as i128);
            if (t_min as i128) <= t2w && t2w <= (t_max as i128) {
                root = t2w as i64;
            } else {
                return None;
            }
        }

        let p: Point3 = ray.at(root);
        if !p.check_bounds(ORIGIN_LIMIT) {
            return None;
        }
        let pc = p.sub(self.center);
        proof {
            crate::fixed::lemma_tdiv_range(
                (pc.x as int) * 65536,
                self.radius as int,
                0x500000000000int,
            );
            crate::fixed::lemma_tdiv_range(
                (pc.y as int) * 65536,
                self.radius as int,
                0x500000000000int,
            );
            crate::fixed::lemma_tdiv_range(
                (pc.z as int) * 65536,
                self.radius as int,
                0x500000000000int,
            );
        }
        let outward_normal: Vec3 = pc.div(self.radius);
        if !outward_normal.check_bounds(UNIT_LIMIT) {
            return None;
        }

        let mut rec = HitRecord {
            p,
            normal: outward_normal,
            t: root,
            front_face: false,
            material: self.material,
        };
        rec.set_face_normal(ray, outward_normal);
        if rec.normal.length_squared() < 1 {
            return None;
        }
        Some(rec)
    }
}

} // verus!
