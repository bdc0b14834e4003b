//! Vector algebra, rays and sphere intersection.

use ray_tracer::fixed::{clamp, fx_div, fx_mul, fx_sqrt, isqrt, FX_ONE};
use ray_tracer::hittable::Hittable;
use ray_tracer::material::{Lambertian, Material};
use ray_tracer::ray::Ray;
use ray_tracer::sphere::Sphere;
use ray_tracer::vector::Vec3;

fn gray_lambertian() -> Material {
    Material::Lambertian(Lambertian { albedo: Vec3 { x: 32768, y: 32768, z: 32768 } })
}

#[test]
fn fixed_point_ops_exact_values() {
    assert_eq!(fx_mul(FX_ONE, FX_ONE), FX_ONE);
    assert_eq!(fx_mul(2 * FX_ONE, 3 * FX_ONE), 6 * FX_ONE);
    // products round toward zero
    assert_eq!(fx_mul(1, 1), 0);
    assert_eq!(fx_mul(-1, 3), 0);
    assert_eq!(fx_div(FX_ONE, 2 * FX_ONE), 32768);
    assert_eq!(fx_div(-FX_ONE, 2 * FX_ONE), -32768);
    assert_eq!(isqrt(0), 0);
    assert_eq!(isqrt(3), 1);
    assert_eq!(isqrt(4), 2);
    assert_eq!(fx_sqrt(FX_ONE), FX_ONE);
    assert_eq!(fx_sqrt(4 * FX_ONE), 2 * FX_ONE);
    assert_eq!(clamp(7, 0, 5), 5);
    assert_eq!(clamp(-7, 0, 5), 0);
}

#[test]
fn dot_and_length() {
    let a = Vec3 { x: FX_ONE, y: 2 * FX_ONE, z: 3 * FX_ONE };
    let b = Vec3 { x: 2 * FX_ONE, y: FX_ONE, z: FX_ONE };
    assert_eq!(a.dot(b), 7 * FX_ONE);
    let v = Vec3 { x: 3 * FX_ONE, y: 4 * FX_ONE, z: 0 };
    assert_eq!(v.length_squared(), 25 * FX_ONE);
    assert_eq!(v.length(), 5 * FX_ONE);
}

#[test]
fn unit_vector_of_three_four_zero() {
    let v = Vec3 { x: 3 * FX_ONE, y: 4 * FX_ONE, z: 0 };
    let u = v.unit_vector();
    assert_eq!(u.x, 39321);
    assert_eq!(u.y, 52428);
    assert_eq!(u.z, 0);
}

#[test]
fn cross_of_axes() {
    let x = Vec3 { x: FX_ONE, y: 0, z: 0 };
    let y = Vec3 { x: 0, y: FX_ONE, z: 0 };
    let c = x.cross(y);
    assert_eq!(c.x, 0);
    assert_eq!(c.y, 0);
    assert_eq!(c.z, FX_ONE);
}

#[test]
fn near_zero_threshold() {
    assert!(Vec3 { x: 255, y: -255, z: 0 }.near_zero());
    assert!(!Vec3 { x: 256, y: 0, z: 0 }.near_zero());
}

#[test]
fn reflect_off_axis_normal() {
    let v = Vec3 { x: FX_ONE, y: -FX_ONE, z: 0 };
    let n = Vec3 { x: 0, y: FX_ONE, z: 0 };
    let r = Vec3::reflect(v, n);
    assert_eq!(r.x, FX_ONE);
    assert_eq!(r.y, FX_ONE);
    assert_eq!(r.z, 0);
}

#[test]
fn refract_head_on_index_matched_is_straight() {
    let uv = Vec3 { x: 0, y: 0, z: -FX_ONE };
    let n = Vec3 { x: 0, y: 0, z: FX_ONE };
    let out = Vec3::refract(uv, n, FX_ONE);
    assert_eq!(out.x, 0);
    assert_eq!(out.y, 0);
    assert_eq!(out.z, -FX_ONE);
}

#[test]
fn ray_at_advances_along_direction() {
    let r = Ray {
        origin: Vec3 { x: FX_ONE, y: 0, z: 0 },
        dir: Vec3 { x: 0, y: FX_ONE, z: 0 },
    };
    let p = r.at(2 * FX_ONE);
    assert_eq!(p.x, FX_ONE);
    assert_eq!(p.y, 2 * FX_ONE);
    assert_eq!(p.z, 0);
}

#[test]
fn sphere_hit_head_on_at_distance_minus_radius() {
    // A ray starting 3 units along the axis, aimed at a unit sphere at
    // the origin, hits at t = 3 - 1 = 2 with the normal facing back.
    let s = Sphere {
        center: Vec3 { x: 0, y: 0, z: 0 },
        radius: FX_ONE,
        material: gray_lambertian(),
    };
    let r = Ray {
        origin: Vec3 { x: 0, y: 0, z: 3 * FX_ONE },
        dir: Vec3 { x: 0, y: 0, z: -FX_ONE },
    };
    let hit = s.hit(&r, 66, 1 << 40).expect("head-on ray must hit");
    assert_eq!(hit.t, 2 * FX_ONE);
    assert!(hit.front_face);
    assert_eq!(hit.normal.x, 0);
    assert_eq!(hit.normal.y, 0);
    assert_eq!(hit.normal.z, FX_ONE);
    assert_eq!(hit.p.z, FX_ONE);
}

#[test]
fn sphere_no_hit_when_closest_approach_exceeds_radius() {
    // The ray passes 3 units to the side of a unit sphere: no hit.
    let s = Sphere {
        center: Vec3 { x: 0, y: 0, z: 0 },
        radius: FX_ONE,
        material: gray_lambertian(),
    };
    let r = Ray {
        origin: Vec3 { x: 3 * FX_ONE, y: 0, z: 3 * FX_ONE },
        dir: Vec3 { x: 0, y: 0, z: -FX_ONE },
    };
    assert!(s.hit(&r, 66, 1 << 40).is_none());
}

#[test]
fn sphere_hit_from_inside_flips_normal() {
    // A ray starting at the center of a glass-like sphere strikes the
    // far wall from inside: front_face is false and the stored normal
    // points against the outward geometric normal.
    let s = Sphere {
        center: Vec3 { x: 0, y: 0, z: 0 },
        radius: 2 * FX_ONE,
        material: gray_lambertian(),
    };
    let r = Ray {
        origin: Vec3 { x: 0, y: 0, z: 0 },
        dir: Vec3 { x: 0, y: 0, z: -FX_ONE },
    };
    let hit = s.hit(&r, 66, 1 << 40).expect("interior ray must hit the shell");
    assert_eq!(hit.t, 2 * FX_ONE);
    assert!(!hit.front_face);
    // outward normal at (0, 0, -2) is (0, 0, -1); stored flipped
    assert_eq!(hit.normal.z, FX_ONE);
}

#[test]
fn sphere_hit_respects_t_max() {
    let s = Sphere {
        center: Vec3 { x: 0, y: 0, z: 0 },
        radius: FX_ONE,
        material: gray_lambertian(),
    };
    let r = Ray {
        origin: Vec3 { x: 0, y: 0, z: 3 * FX_ONE },
        dir: Vec3 { x: 0, y: 0, z: -FX_ONE },
    };
    // both roots (t = 2 and t = 4) lie beyond the cutoff
    assert!(s.hit(&r, 66, FX_ONE).is_none());
}

#[test]
fn map_applies_per_component() {
    let v = Vec3 { x: 2, y: -4, z: 6 };
    let halved = v.map(|c: i64| c / 2);
    assert_eq!(halved.x, 1);
    assert_eq!(halved.y, -2);
    assert_eq!(halved.z, 3);
}

#[test]
fn ray_at_walks_backwards_for_negative_t() {
    let r = Ray {
        origin: Vec3 { x: 0, y: 0, z: 0 },
        dir: Vec3 { x: FX_ONE, y: 0, z: 0 },
    };
    let p = r.at(-FX_ONE);
    assert_eq!(p.x, -FX_ONE);
}

#[test]
fn random_vectors_stay_in_their_ranges() {
    for _ in 0..32 {
        let v = Vec3::random_range(-FX_ONE, FX_ONE);
        assert!(-FX_ONE <= v.x && v.x < FX_ONE);
        assert!(-FX_ONE <= v.y && v.y < FX_ONE);
        assert!(-FX_ONE <= v.z && v.z < FX_ONE);

        let p = Vec3::random_in_unit_sphere();
        let ls = p.length_squared();
        assert!(16384 <= ls && ls < FX_ONE);

        let n = Vec3 { x: 0, y: FX_ONE, z: 0 };
        let h = Vec3::random_in_hemisphere(n);
        assert!(h.dot(n) >= 0);
    }
}

#[test]
fn random_unit_vector_has_near_unit_length() {
    for _ in 0..32 {
        let u = Vec3::random_unit_vector();
        let ls = u.length_squared();
        assert!(FX_ONE - 13 <= ls && ls <= FX_ONE + 8);
    }
}
