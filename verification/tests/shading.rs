//! Material scattering, the recursive shader and color conversion.

use ray_tracer::color::color_to_rgb;
use ray_tracer::fixed::FX_ONE;
use ray_tracer::hittable::{HitRecord, HittableList};
use ray_tracer::material::{Dielectric, Lambertian, Material, Metal};
use ray_tracer::ray::Ray;
use ray_tracer::sphere::Sphere;
use ray_tracer::tracer::ray_color;
use ray_tracer::vector::Vec3;

fn zero_vec() -> Vec3 {
    Vec3 { x: 0, y: 0, z: 0 }
}

fn surface_record(p: Vec3, normal: Vec3, front_face: bool, material: Material) -> HitRecord {
    HitRecord { p, normal, t: FX_ONE, front_face, material }
}

#[test]
fn lambertian_scatter_keeps_albedo_and_origin() {
    let albedo = Vec3 { x: 26214, y: 13107, z: 6554 };
    let m = Lambertian { albedo };
    let rec = surface_record(
        Vec3 { x: FX_ONE, y: 0, z: 0 },
        Vec3 { x: FX_ONE, y: 0, z: 0 },
        true,
        Material::Lambertian(m),
    );
    let r_in = Ray { origin: zero_vec(), dir: Vec3 { x: FX_ONE, y: 0, z: 0 } };
    let mut attenuation = zero_vec();
    let mut scattered = Ray { origin: zero_vec(), dir: zero_vec() };
    let ok = m.scatter(&r_in, &rec, &mut attenuation, &mut scattered);
    assert!(ok);
    assert_eq!(attenuation.x, albedo.x);
    assert_eq!(attenuation.y, albedo.y);
    assert_eq!(attenuation.z, albedo.z);
    assert_eq!(scattered.origin.x, rec.p.x);
    // the scattered direction is never degenerate
    assert!(scattered.dir.length_squared() >= 1);
}

#[test]
fn metal_scatter_with_zero_fuzz_is_exact_mirror() {
    let m = Metal { albedo: Vec3 { x: 45875, y: 39322, z: 32768 }, fuzz: 0 };
    let rec = surface_record(
        zero_vec(),
        Vec3 { x: 0, y: 0, z: FX_ONE },
        true,
        Material::Metal(m),
    );
    let r_in = Ray {
        origin: Vec3 { x: 0, y: 0, z: 3 * FX_ONE },
        dir: Vec3 { x: 0, y: 0, z: -FX_ONE },
    };
    let mut attenuation = zero_vec();
    let mut scattered = Ray { origin: zero_vec(), dir: zero_vec() };
    let ok = m.scatter(&r_in, &rec, &mut attenuation, &mut scattered);
    assert!(ok);
    assert_eq!(scattered.dir.x, 0);
    assert_eq!(scattered.dir.y, 0);
    assert_eq!(scattered.dir.z, FX_ONE);
    assert_eq!(attenuation.x, 45875);
}

#[test]
fn metal_scatter_absorbs_grazing_reflection() {
    // An incoming ray parallel to the surface reflects into the surface
    // plane; the sample is reported absorbed.
    let m = Metal { albedo: Vec3 { x: 32768, y: 32768, z: 32768 }, fuzz: 0 };
    let rec = surface_record(
        zero_vec(),
        Vec3 { x: 0, y: 0, z: FX_ONE },
        true,
        Material::Metal(m),
    );
    let r_in = Ray {
        origin: Vec3 { x: -FX_ONE, y: 0, z: 0 },
        dir: Vec3 { x: FX_ONE, y: 0, z: 0 },
    };
    let mut attenuation = zero_vec();
    let mut scattered = Ray { origin: zero_vec(), dir: zero_vec() };
    let ok = m.scatter(&r_in, &rec, &mut attenuation, &mut scattered);
    assert!(!ok);
}

#[test]
fn dielectric_index_matched_passes_straight_through() {
    // refraction_index 1.0: entering head-on, the ray continues on the
    // unbent straight path.
    let m = Dielectric { refraction_index: FX_ONE };
    let rec = surface_record(
        Vec3 { x: 0, y: 0, z: FX_ONE },
        Vec3 { x: 0, y: 0, z: FX_ONE },
        true,
        Material::Dielectric(m),
    );
    let r_in = Ray {
        origin: Vec3 { x: 0, y: 0, z: 3 * FX_ONE },
        dir: Vec3 { x: 0, y: 0, z: -FX_ONE },
    };
    let mut attenuation = zero_vec();
    let mut scattered = Ray { origin: zero_vec(), dir: zero_vec() };
    let ok = m.scatter(&r_in, &rec, &mut attenuation, &mut scattered);
    assert!(ok);
    // no absorption
    assert_eq!(attenuation.x, FX_ONE);
    assert_eq!(attenuation.y, FX_ONE);
    assert_eq!(attenuation.z, FX_ONE);
    // direction unchanged
    assert_eq!(scattered.dir.x, 0);
    assert_eq!(scattered.dir.y, 0);
    assert_eq!(scattered.dir.z, -FX_ONE);

    // and again on the way out of the far wall, from inside
    let rec_exit = surface_record(
        Vec3 { x: 0, y: 0, z: -FX_ONE },
        Vec3 { x: 0, y: 0, z: FX_ONE },
        false,
        Material::Dielectric(m),
    );
    let r_mid = Ray { origin: Vec3 { x: 0, y: 0, z: FX_ONE }, dir: scattered.dir };
    let ok2 = m.scatter(&r_mid, &rec_exit, &mut attenuation, &mut scattered);
    assert!(ok2);
    assert_eq!(scattered.dir.x, 0);
    assert_eq!(scattered.dir.y, 0);
    assert_eq!(scattered.dir.z, -FX_ONE);
}

#[test]
fn dielectric_total_internal_reflection_mirrors() {
    // Inside glass at 45 degrees, Snell's law admits no transmitted
    // ray: the scatter is forced onto the exact mirror reflection.
    let m = Dielectric { refraction_index: 98304 };
    let normal = Vec3 { x: 0, y: 0, z: -FX_ONE };
    let rec = surface_record(zero_vec(), normal, false, Material::Dielectric(m));
    let r_in = Ray {
        origin: Vec3 { x: -FX_ONE, y: 0, z: -FX_ONE },
        dir: Vec3 { x: FX_ONE, y: 0, z: FX_ONE },
    };
    let mut attenuation = zero_vec();
    let mut scattered = Ray { origin: zero_vec(), dir: zero_vec() };
    let ok = m.scatter(&r_in, &rec, &mut attenuation, &mut scattered);
    assert!(ok);
    let expected = Vec3::reflect(r_in.dir.unit_vector(), normal);
    assert_eq!(scattered.dir.x, expected.x);
    assert_eq!(scattered.dir.y, expected.y);
    assert_eq!(scattered.dir.z, expected.z);
}

#[test]
fn empty_record_is_blank() {
    let rec = HitRecord::empty();
    assert_eq!(rec.t, 0);
    assert!(!rec.front_face);
    assert_eq!(rec.p.x, 0);
    assert_eq!(rec.normal.x, 0);
    match rec.material {
        Material::Lambertian(l) => assert_eq!(l.albedo.x, 0),
        _ => panic!("blank record must carry a blank diffuse material"),
    }
}

#[test]
fn set_face_normal_orients_against_the_ray() {
    let mut rec = HitRecord::empty();
    let outward = Vec3 { x: 0, y: 0, z: FX_ONE };

    let from_outside = Ray {
        origin: Vec3 { x: 0, y: 0, z: 3 * FX_ONE },
        dir: Vec3 { x: 0, y: 0, z: -FX_ONE },
    };
    rec.set_face_normal(&from_outside, outward);
    assert!(rec.front_face);
    assert_eq!(rec.normal.z, FX_ONE);

    let from_inside = Ray {
        origin: Vec3 { x: 0, y: 0, z: 0 },
        dir: Vec3 { x: 0, y: 0, z: FX_ONE },
    };
    rec.set_face_normal(&from_inside, outward);
    assert!(!rec.front_face);
    assert_eq!(rec.normal.z, -FX_ONE);
}

#[test]
fn ray_color_depth_zero_is_black() {
    let world = ray_tracer::random_scene();
    let r = Ray {
        origin: Vec3 { x: 0, y: 0, z: 3 * FX_ONE },
        dir: Vec3 { x: 0, y: 0, z: -FX_ONE },
    };
    let c = ray_color(&r, &world, 0);
    assert_eq!(c.x, 0);
    assert_eq!(c.y, 0);
    assert_eq!(c.z, 0);
}

#[test]
fn ray_color_miss_is_sky_gradient() {
    let world = HittableList { objects: Vec::new() };
    let up = Ray { origin: zero_vec(), dir: Vec3 { x: 0, y: FX_ONE, z: 0 } };
    let c = ray_color(&up, &world, 8);
    assert_eq!(c.x, 32768);
    assert_eq!(c.y, 45875);
    assert_eq!(c.z, FX_ONE);

    let down = Ray { origin: zero_vec(), dir: Vec3 { x: 0, y: -FX_ONE, z: 0 } };
    let w = ray_color(&down, &world, 8);
    assert_eq!(w.x, FX_ONE);
    assert_eq!(w.y, FX_ONE);
    assert_eq!(w.z, FX_ONE);
}

#[test]
fn lambertian_sphere_reflects_less_than_the_sky() {
    // Energy conservation, observed: a diffuse sphere lit only by the
    // sky returns strictly less radiance than the unoccluded sky in the
    // same view direction, in every sample.
    let albedo = Vec3 { x: 32768, y: 32768, z: 32768 };
    let world = HittableList {
        objects: vec![
            Sphere {
                center: zero_vec(),
                radius: FX_ONE,
                material: Material::Lambertian(Lambertian { albedo }),
            },
        ],
    };
    let r = Ray {
        origin: Vec3 { x: 0, y: 0, z: 3 * FX_ONE },
        dir: Vec3 { x: 0, y: 0, z: -FX_ONE },
    };
    let empty = HittableList { objects: Vec::new() };
    let sky = ray_color(&r, &empty, 8);

    let samples: usize = 64;
    let mut sum: i64 = 0;
    for _ in 0..samples {
        let c = ray_color(&r, &world, 8);
        assert!(0 <= c.z && c.z <= FX_ONE);
        sum += c.z;
    }
    let average = sum / samples as i64;
    assert!(average < sky.z);
}

#[test]
fn color_to_rgb_clamps_to_byte_range() {
    // past full radiance saturates at exactly 255, negatives read 0
    let hot = Vec3 { x: 10 * FX_ONE, y: -3 * FX_ONE, z: FX_ONE };
    let (r, g, b) = color_to_rgb(hot, 1);
    assert_eq!(r, 255);
    assert_eq!(g, 0);
    assert_eq!(b, 255);

    // averaging over samples: 4 samples of full radiance is full
    let sum = Vec3 { x: 4 * FX_ONE, y: 4 * FX_ONE, z: 0 };
    let (r2, g2, b2) = color_to_rgb(sum, 4);
    assert_eq!(r2, 255);
    assert_eq!(g2, 255);
    assert_eq!(b2, 0);
}

#[test]
fn color_to_rgb_applies_square_root_gamma() {
    // a quarter of full radiance reads as half brightness: 128
    let c = Vec3 { x: 16384, y: 0, z: 0 };
    let (r, g, b) = color_to_rgb(c, 1);
    assert_eq!(r, 128);
    assert_eq!(g, 0);
    assert_eq!(b, 0);

    // a channel that rounds to nothing after averaging reads 0
    let tiny = Vec3 { x: 1, y: 0, z: 0 };
    let (r2, _, _) = color_to_rgb(tiny, 2);
    assert_eq!(r2, 0);
}
