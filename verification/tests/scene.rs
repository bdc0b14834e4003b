//! The scene aggregate and the end-to-end pixel pipeline.

use ray_tracer::color::color_to_rgb;
use ray_tracer::common::{random_scalar, random_scene};
use ray_tracer::fixed::FX_ONE;
use ray_tracer::hittable::{Hittable, HittableList};
use ray_tracer::material::{Lambertian, Material};
use ray_tracer::ray::Ray;
use ray_tracer::sphere::Sphere;
use ray_tracer::tracer::pixel_color;
use ray_tracer::vector::Vec3;

fn gray() -> Material {
    Material::Lambertian(Lambertian { albedo: Vec3 { x: 32768, y: 32768, z: 32768 } })
}

#[test]
fn scene_returns_the_nearer_of_two_overlapping_spheres() {
    // Two spheres along one ray: the aggregate must report the record
    // with the smaller t, in either insertion order.
    let far = Sphere { center: Vec3 { x: 0, y: 0, z: 0 }, radius: FX_ONE, material: gray() };
    let near = Sphere {
        center: Vec3 { x: 0, y: 0, z: 3 * FX_ONE },
        radius: FX_ONE,
        material: gray(),
    };
    let r = Ray {
        origin: Vec3 { x: 0, y: 0, z: 5 * FX_ONE },
        dir: Vec3 { x: 0, y: 0, z: -FX_ONE },
    };

    let world_a = HittableList { objects: vec![far, near] };
    let hit_a = world_a.hit(&r, 66, 1 << 40).expect("must hit");
    assert_eq!(hit_a.t, FX_ONE);

    let world_b = HittableList { objects: vec![near, far] };
    let hit_b = world_b.hit(&r, 66, 1 << 40).expect("must hit");
    assert_eq!(hit_b.t, FX_ONE);
}

#[test]
fn empty_scene_reports_no_hit() {
    let world = HittableList { objects: Vec::new() };
    let r = Ray {
        origin: Vec3 { x: 0, y: 0, z: 0 },
        dir: Vec3 { x: 0, y: 0, z: -FX_ONE },
    };
    assert!(world.hit(&r, 66, 1 << 40).is_none());
}

#[test]
fn random_scene_has_ground_and_feature_spheres() {
    let world = random_scene();
    assert!(world.objects.len() >= 4);
    assert!(world.objects.len() <= 488);
    // the ground sphere comes first
    assert_eq!(world.objects[0].radius, 1000 * FX_ONE);
    assert_eq!(world.objects[0].center.y, -1000 * FX_ONE);
    // the three large feature spheres come last
    let n = world.objects.len();
    assert_eq!(world.objects[n - 3].radius, FX_ONE);
    assert_eq!(world.objects[n - 2].radius, FX_ONE);
    assert_eq!(world.objects[n - 1].radius, FX_ONE);
    // everything in between is a small sphere of the scatter grid
    for i in 1..n - 3 {
        let s = &world.objects[i];
        assert_eq!(s.radius, 13107);
        assert_eq!(s.center.y, 13107);
        assert!(-11 * FX_ONE <= s.center.x && s.center.x <= 10 * FX_ONE + 58982);
        assert!(-11 * FX_ONE <= s.center.z && s.center.z <= 10 * FX_ONE + 58982);
    }
}

#[test]
fn random_scalar_stays_in_range() {
    for _ in 0..64 {
        let v = random_scalar(-5, 7);
        assert!(-5 <= v && v < 7);
    }
}

#[test]
fn random_scalar_draws_vary() {
    // sixty-four agreeing draws from a million-value range would mean
    // the generator is not drawing at all
    let first = random_scalar(0, 1000000);
    let mut distinct = false;
    for _ in 0..63 {
        if random_scalar(0, 1000000) != first {
            distinct = true;
        }
    }
    assert!(distinct);
}

#[test]
fn two_by_two_render_of_empty_scene_is_the_sky() {
    // End to end: a 2x2 image, one sample per pixel, depth 1, no
    // objects. Every pixel must be exactly the gamma-corrected sky for
    // its ray direction; with fixed directions the outcome is exact.
    let world = HittableList { objects: Vec::new() };
    let directions = [
        Vec3 { x: 0, y: FX_ONE, z: 0 },   // top row: straight up
        Vec3 { x: 0, y: FX_ONE, z: 0 },
        Vec3 { x: 0, y: 0, z: -FX_ONE },  // bottom row: horizon
        Vec3 { x: 0, y: 0, z: -FX_ONE },
    ];
    let mut pixels: Vec<(u8, u8, u8)> = Vec::new();
    for dir in directions.iter() {
        let rays = vec![Ray { origin: Vec3 { x: 0, y: 0, z: 0 }, dir: *dir }];
        let sum = pixel_color(&world, &rays, 1);
        pixels.push(color_to_rgb(sum, 1));
    }
    // straight up: sky blue (0.5, 0.7, 1.0) after square-root gamma
    assert_eq!(pixels[0], (181, 214, 255));
    assert_eq!(pixels[1], (181, 214, 255));
    // horizon: the even white/blue blend (0.75, 0.85, 1.0) after gamma
    assert_eq!(pixels[2], (221, 236, 255));
    assert_eq!(pixels[3], (221, 236, 255));
}

#[test]
fn pixel_color_accumulates_each_sample() {
    let world = HittableList { objects: Vec::new() };
    let up = Ray { origin: Vec3 { x: 0, y: 0, z: 0 }, dir: Vec3 { x: 0, y: FX_ONE, z: 0 } };
    let rays = vec![up, up, up];
    let sum = pixel_color(&world, &rays, 4);
    assert_eq!(sum.x, 3 * 32768);
    assert_eq!(sum.y, 3 * 45875);
    assert_eq!(sum.z, 3 * FX_ONE);
}
