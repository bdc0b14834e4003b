//! Utility functions: the randomness source and the scene builder.

use vstd::prelude::*;
use rand::Rng;
use crate::fixed::FX_ONE;
use crate::fixed::fx_mul;
use crate::fixed::clamp;
use crate::fixed::lemma_fx_mul_range;
use crate::hittable::HittableList;
use crate::material::Material;
use crate::material::albedo_wf;
use crate::material::Lambertian;
use crate::material::Metal;
use crate::material::Dielectric;
use crate::sphere::Sphere;
use crate::vector::Vec3;
use crate::vector::Color;
use crate::vector::Point3;
use crate::vector::UNIT_LIMIT;

verus! {

/// Relies on rand's `Rng::gen_range` over an `i64` range: a thread-local
/// generator draws a value in `[min, max)`. It panics only on an empty
/// range, which the precondition rules out; nothing more than the range is
/// promised of a random draw.
#[verifier::external_body]
pub fn random_scalar(min: i64, max: i64) -> (r: i64)
    requires
        min < max,
    ensures
        min <= r < max,
{
    rand::thread_rng().gen_range(min..max)
}

/// One cell of the scatter grid: the coordinate lies in the unit cell of
/// integer index `k`, jittered inward by up to nine tenths.
pub open spec fn grid_cell(k: int, coord: int) -> bool {
    &&& -11 <= k <= 10
    &&& k * 65536 <= coord <= k * 65536 + 58982
}

/// A small sphere of the scatter field: radius one fifth, resting at
/// height one fifth in some grid cell, clear of the spot where the metal
/// feature sphere stands, and carrying one of the three material kinds
/// the weighted draw offers.
pub open spec fn grid_sphere_spec(s: Sphere) -> bool {
    &&& s.radius == 13107
    &&& s.center.y == 13107
    &&& exists|k: int| #[trigger] grid_cell(k, s.center.x as int)
    &&& exists|k: int| #[trigger] grid_cell(k, s.center.z as int)
    &&& (Vec3 { x: (s.center.x - 262144) as i64, y: 0i64, z: s.center.z }).length_spec() > 58982
    &&& match s.material {
        Material::Lambertian(m) => albedo_wf(m.albedo),
        Material::Metal(m) => {
            &&& 32768 <= m.albedo.x < 65536
            &&& 32768 <= m.albedo.y < 65536
            &&& 32768 <= m.albedo.z < 65536
            &&& 0 <= m.fuzz < 32768
        },
        Material::Dielectric(m) => m.refraction_index == 98304,
    }
}

/// The huge matte ground sphere.
pub open spec fn ground_sphere_spec() -> Sphere {
    Sphere {
        center: Vec3 { x: 0i64, y: -65536000i64, z: 0i64 },
        radius: 65536000,
        material: Material::Lambertian(
            Lambertian { albedo: Vec3 { x: 32768i64, y: 32768i64, z: 32768i64 } },
        ),
    }
}

/// The large glass feature sphere at the center.
pub open spec fn glass_sphere_spec() -> Sphere {
    Sphere {
        center: Vec3 { x: 0i64, y: 65536i64, z: 0i64 },
        radius: 65536,
        material: Material::Dielectric(Dielectric { refraction_index: 98304 }),
    }
}

/// The large matte feature sphere on the left.
pub open spec fn matte_sphere_spec() -> Sphere {
    Sphere {
        center: Vec3 { x: -262144i64, y: 65536i64, z: 0i64 },
        radius: 65536,
        material: Material::Lambertian(
            Lambertian { albedo: Vec3 { x: 26214i64, y: 13107i64, z: 6554i64 } },
        ),
    }
}

/// The large polished metal feature sphere on the right.
pub open spec fn metal_sphere_spec() -> Sphere {
    Sphere {
        center: Vec3 { x: 262144i64, y: 65536i64, z: 0i64 },
        radius: 65536,
        material: Material::Metal(
            Metal { albedo: Vec3 { x: 45875i64, y: 39322i64, z: 32768i64 }, fuzz: 0 },
        ),
    }
}

/// Builds the showcase scene: the ground sphere first, then a grid of
/// small randomly placed and randomly tinted spheres (diffuse, metal or
/// glass by a weighted draw), then the three feature spheres. Whatever
/// the draws, the scene comes out well-formed with exactly that
/// composition.
pub fn random_scene() -> (world: HittableList)
    ensures
        world.wf(),
        4 <= world.objects@.len() <= 488,
        world.objects@[0] == ground_sphere_spec(),
        world.objects@[world.objects@.len() - 3] == glass_sphere_spec(),
        world.objects@[world.objects@.len() - 2] == matte_sphere_spec(),
        world.objects@[world.objects@.len() - 1] == metal_sphere_spec(),
        forall|i: int|
            1 <= i < world.objects@.len() - 3 ==> grid_sphere_spec(#[trigger] world.objects@[i]),
{
    let mut world_objects: Vec<Sphere> = Vec::new();

    let material_ground = Material::Lambertian(
        Lambertian { albedo: Color { x: 32768, y: 32768, z: 32768 } },
    );
    world_objects.push(
        Sphere {
            center: Point3 { x: 0, y: -65536000, z: 0 },
            radius: 65536000,
            material: material_ground,
        },
    );

    let mut a: i64 = -11;
    while a < 11
        invariant
            -11 <= a <= 11,
            1 <= world_objects@.len() <= 1 + 22 * (a + 11),
            world_objects@[0] == ground_sphere_spec(),
            forall|i: int|
                1 <= i < world_objects@.len() ==> grid_sphere_spec(#[trigger] world_objects@[i]),
            forall|i: int|
                0 <= i < world_objects@.len() ==> (#[trigger] world_objects@[i]).wf(),
        decreases 11 - a,
    {
        let mut b: i64 = -11;
        while b < 11
            invariant
                -11 <= a <= 10,
                -11 <= b <= 11,
                1 <= world_objects@.len() <= 1 + 22 * (a + 11) + (b + 11),
                world_objects@[0] == ground_sphere_spec(),
                forall|i: int|
                    1 <= i < world_objects@.len() ==> grid_sphere_spec(
                        #[trigger] world_objects@[i],
                    ),
                forall|i: int|
                    0 <= i < world_objects@.len() ==> (#[trigger] world_objects@[i]).wf(),
            decreases 11 - b,
        {
            let choose_mat: i64 = random_scalar(0, FX_ONE);
            let ux: i64 = random_scalar(0, FX_ONE);
            let uz: i64 = random_scalar(0, FX_ONE);
            proof {
                crate::fixed::lemma_tdiv_range(58982 * (ux as int), 65536, 58982int * 65535int);
                crate::fixed::lemma_tdiv_range(58982 * (uz as int), 65536, 58982int * 65535int);
            }
            let off_x: i64 = fx_mul(58982, ux);
            let off_z: i64 = fx_mul(58982, uz);
            let center = Point3 { x: a * FX_ONE + off_x, y: 13107, z: off_z + b * FX_ONE };

            let gate = center.sub(Point3 { x: 262144, y: 13107, z: 0 });
            if gate.length() > 58982 {
                proof {
                    assert(gate == (Vec3 {
                        x: (center.x - 262144) as i64,
                        y: 0i64,
                        z: center.z,
                    }));
                    assert(grid_cell(a as int, center.x as int));
                    assert(grid_cell(b as int, center.z as int));
                }
                if choose_mat < 52429 {
                    // diffuse
                    let u1 = Vec3::random_unit_vector();
                    let u2 = Vec3::random_unit_vector();
                    proof {
                        lemma_fx_mul_range(u1.x as int, u2.x as int, UNIT_LIMIT as int, UNIT_LIMIT as int);
                        lemma_fx_mul_range(u1.y as int, u2.y as int, UNIT_LIMIT as int, UNIT_LIMIT as int);
                        lemma_fx_mul_range(u1.z as int, u2.z as int, UNIT_LIMIT as int, UNIT_LIMIT as int);
                    }
                    let tint = u1.mul(u2);
                    let albedo = Color {
                        x: clamp(tint.x, 0, FX_ONE),
                        y: clamp(tint.y, 0, FX_ONE),
                        z: clamp(tint.z, 0, FX_ONE),
                    };
                    let sphere_material = Material::Lambertian(Lambertian { albedo });
                    proof {
                        assert(grid_sphere_spec(
                            Sphere { center, radius: 13107, material: sphere_material },
                        ));
                    }
                    world_objects.push(
                        Sphere { center, radius: 13107, material: sphere_material },
                    );
                } else if choose_mat < 62259 {
                    // metal
                    let albedo = Color::random_range(32768, FX_ONE);
                    let fuzz: i64 = random_scalar(0, 32768);
                    let sphere_material = Material::Metal(Metal { albedo, fuzz });
                    proof {
                        assert(grid_sphere_spec(
                            Sphere { center, radius: 13107, material: sphere_material },
                        ));
                    }
                    world_objects.push(
                        Sphere { center, radius: 13107, material: sphere_material },
                    );
                } else {
                    // glass
                    let sphere_material = Material::Dielectric(
                        Dielectric { refraction_index: 98304 },
                    );
                    proof {
                        assert(grid_sphere_spec(
                            Sphere { center, radius: 13107, material: sphere_material },
                        ));
                    }
                    world_objects.push(
                        Sphere { center, radius: 13107, material: sphere_material },
                    );
                }
            }
            b = b + 1;
        }
        a = a + 1;
    }

    let material1 = Material::Dielectric(Dielectric { refraction_index: 98304 });
    world_objects.push(
        Sphere { center: Point3 { x: 0, y: FX_ONE, z: 0 }, radius: FX_ONE, material: material1 },
    );

    let material2 = Material::Lambertian(
        Lambertian { albedo: Color { x: 26214, y: 13107, z: 6554 } },
    );
    world_objects.push(
        Sphere {
            center: Point3 { x: -262144, y: FX_ONE, z: 0 },
            radius: FX_ONE,
            material: material2,
        },
    );

    let material3 = Material::Metal(
        Metal { albedo: Color { x: 45875, y: 39322, z: 32768 }, fuzz: 0 },
    );
    world_objects.push(
        Sphere {
            center: Point3 { x: 262144, y: FX_ONE, z: 0 },
            radius: FX_ONE,
            material: material3,
        },
    );

    HittableList { objects: world_objects }
}

} // verus!
