//! The recursive light-transport evaluator and the per-pixel sampler.

use vstd::prelude::*;
use crate::fixed::FX_ONE;
use crate::fixed::fx_mul_spec;
use crate::fixed::clamp_spec;
use crate::fixed::fx_mul;
use crate::fixed::clamp;
use crate::fixed::lemma_fx_mul_range;
use crate::fixed::lemma_tdiv_monotone;
use crate::hittable::Hittable;
use crate::hittable::HittableList;
use crate::hittable::list_hit_spec;
use crate::hittable::lemma_list_hit_bounds;
use crate::ray::Ray;
use crate::ray::T_LIMIT;
use crate::vector::Vec3;
use crate::vector::Color;
use vstd::arithmetic::div_mod::lemma_div_by_multiple;

verus! {

/// The lower cutoff for scene queries, about a thousandth of a unit: it
/// keeps a scattered ray from re-hitting its own surface through rounding
/// ("shadow acne").
pub const T_MIN_HIT: i64 = 66;

/// The sky gradient a ray that escapes the scene brings home: linear
/// interpolation from white up to sky blue by the height of the unit
/// direction. The interpolant is pinned to [0, 1], since rounding can
/// push a unit vector's component a quantum past one.
pub open spec fn sky_color_spec(dir: Vec3) -> Color {
    let u = dir.unit_spec();
    let t = clamp_spec(fx_mul_spec(32768, u.y + FX_ONE as int), 0, FX_ONE as int);
    Vec3 {
        x: (fx_mul_spec(FX_ONE as int - t, FX_ONE as int) + fx_mul_spec(t, 32768)) as i64,
        y: (fx_mul_spec(FX_ONE as int - t, FX_ONE as int) + fx_mul_spec(t, 45875)) as i64,
        z: (fx_mul_spec(FX_ONE as int - t, FX_ONE as int) + fx_mul_spec(t, FX_ONE as int)) as i64,
    }
}

/// One channel of the sky interpolation stays inside [0, 1].
proof fn lemma_lerp_channel(t: int, c: int)
    requires
        0 <= t <= 65536,
        0 <= c <= 65536,
    ensures
        fx_mul_spec(65536 - t, 65536) == 65536 - t,
        0 <= fx_mul_spec(t, c) <= t,
        0 <= fx_mul_spec(65536 - t, 65536) + fx_mul_spec(t, c) <= 65536,
{
    lemma_fx_mul_range(65536 - t, 65536, 65536, 65536);
    lemma_fx_mul_range(t, c, 65536, 65536);
    lemma_div_by_multiple(65536 - t, 65536);
    assert(t * c <= t * 65536) by (nonlinear_arith)
        requires
            0 <= t,
            c <= 65536,
    ;
    assert(t * c >= 0) by (nonlinear_arith)
        requires
            0 <= t,
            0 <= c,
    ;
    lemma_tdiv_monotone(t * c, t * 65536, 65536);
    lemma_div_by_multiple(t, 65536);
}

/// Follows a ray through the scene: on a hit, the surface scatters and
/// the bounced radiance is attenuated; on a miss, the sky shines; when
/// the bounce budget is spent, black. The result is always a radiance
/// triple within [0, 1] per channel.
pub fn ray_color(r: &Ray, world: &HittableList, depth: i32) -> (c: Color)
    requires
        world.wf(),
        r.wf(),
    ensures
        0 <= c.x <= FX_ONE,
        0 <= c.y <= FX_ONE,
        0 <= c.z <= FX_ONE,
        depth <= 0 ==> c == (Vec3 { x: 0i64, y: 0i64, z: 0i64 }),
        depth > 0 && r.dir.has_direction() && list_hit_spec(
            world.objects@,
            *r,
            T_MIN_HIT as int,
            T_LIMIT as int,
        ) is None ==> c == sky_color_spec(r.dir),
        ({
            // reflection attenuates: a ray that lands on a diffuse or
            // metal surface brings home at most that surface's albedo
            // (a metal sample may also be absorbed outright as black)
            let hit = list_hit_spec(world.objects@, *r, T_MIN_HIT as int, T_LIMIT as int);
            depth > 0 && r.dir.has_direction() && hit is Some ==> match hit->Some_0.material {
                crate::material::Material::Lambertian(l) => c.x <= l.albedo.x && c.y
                    <= l.albedo.y && c.z <= l.albedo.z,
                crate::material::Material::Metal(m) => c.x <= m.albedo.x && c.y <= m.albedo.y
                    && c.z <= m.albedo.z,
                crate::material::Material::Dielectric(_) => true,
            }
        }),
    decreases depth,
{
    // Gather no more light if the ray bounce limit has been exceeded.
    if depth <= 0 {
        return Vec3::from(0);
    }
    let ls: i64 = r.dir.length_squared();
    if ls < 1 {
        // A direction whose squared length rounds to zero samples nothing.
        return Vec3::from(0);
    }

    match world.hit(r, T_MIN_HIT, T_LIMIT) {
        Some(record) => {
            proof {
                lemma_list_hit_bounds(world.objects@, *r, T_MIN_HIT as int, T_LIMIT as int);
            }
            let mut scattered = Ray { dir: Vec3::from(0), origin: Vec3::from(0) };
            let mut attenuation = Color::from(0);

            if record.material.scatter(r, &record, &mut attenuation, &mut scattered) {
                let bounced = ray_color(&scattered, world, depth - 1);
                proof {
                    lemma_fx_mul_range(attenuation.x as int, bounced.x as int, 65536, 65536);
                    lemma_fx_mul_range(attenuation.y as int, bounced.y as int, 65536, 65536);
                    lemma_fx_mul_range(attenuation.z as int, bounced.z as int, 65536, 65536);
                    crate::fixed::lemma_fx_mul_le_left(attenuation.x as int, bounced.x as int);
                    crate::fixed::lemma_fx_mul_le_left(attenuation.y as int, bounced.y as int);
                    crate::fixed::lemma_fx_mul_le_left(attenuation.z as int, bounced.z as int);
                }
                return attenuation.mul(bounced);
            }

            return Vec3::from(0);  // black
        },
        None => {
            let unit_direction = r.dir.unit_vector();
            proof {
                lemma_fx_mul_range(32768, unit_direction.y as int + 65536, 32768, 262144);
            }
            let t: i64 = fx_mul(32768, unit_direction.y + FX_ONE);
            let tc: i64 = clamp(t, 0, FX_ONE);
            proof {
                lemma_lerp_channel(tc as int, 32768);
                lemma_lerp_channel(tc as int, 45875);
                lemma_lerp_channel(tc as int, 65536);
                lemma_fx_mul_range(65536 - tc as int, 65536, 65536, 65536);
                lemma_fx_mul_range(tc as int, 32768, 65536, 65536);
                lemma_fx_mul_range(tc as int, 45875, 65536, 65536);
                lemma_fx_mul_range(tc as int, 65536, 65536, 65536);
            }
            let white = Color { x: FX_ONE, y: FX_ONE, z: FX_ONE };
            let blue = Color { x: 32768, y: 45875, z: FX_ONE };
            let wpart = white.scale(FX_ONE - tc);
            let bpart = blue.scale(tc);
            wpart.add(bpart)
        },
    }
}

/// Whether a ray escapes the scene cleanly: its direction is usable and
/// nothing stands in its way.
pub open spec fn escapes(world: HittableList, r: Ray) -> bool {
    &&& r.dir.has_direction()
    &&& list_hit_spec(world.objects@, r, T_MIN_HIT as int, T_LIMIT as int) is None
}

/// The summed sky radiance of a sequence of rays.
pub open spec fn sky_sum_spec(rays: Seq<Ray>) -> Color
    decreases rays.len(),
{
    if rays.len() == 0 {
        Vec3 { x: 0i64, y: 0i64, z: 0i64 }
    } else {
        let prefix = sky_sum_spec(rays.drop_last());
        let s = sky_color_spec(rays.last().dir);
        Vec3 {
            x: (prefix.x + s.x) as i64,
            y: (prefix.y + s.y) as i64,
            z: (prefix.z + s.z) as i64,
        }
    }
}

/// The sky is a radiance triple within [0, 1] per channel.
pub proof fn lemma_sky_color_bounds(dir: Vec3)
    ensures
        0 <= sky_color_spec(dir).x <= FX_ONE as int,
        0 <= sky_color_spec(dir).y <= FX_ONE as int,
        0 <= sky_color_spec(dir).z <= FX_ONE as int,
{
    let u = dir.unit_spec();
    let t = clamp_spec(fx_mul_spec(32768, u.y + FX_ONE as int), 0, FX_ONE as int);
    lemma_lerp_channel(t, 32768);
    lemma_lerp_channel(t, 45875);
    lemma_lerp_channel(t, 65536);
}

/// A summed sky stays within the per-ray radiance budget.
pub proof fn lemma_sky_sum_bounds(rays: Seq<Ray>)
    requires
        rays.len() <= 0x100000000,
    ensures
        0 <= sky_sum_spec(rays).x <= rays.len() * (FX_ONE as int),
        0 <= sky_sum_spec(rays).y <= rays.len() * (FX_ONE as int),
        0 <= sky_sum_spec(rays).z <= rays.len() * (FX_ONE as int),
    decreases rays.len(),
{
    if rays.len() > 0 {
        lemma_sky_sum_bounds(rays.drop_last());
        lemma_sky_color_bounds(rays.last().dir);
    }
}

/// Adds up one traced sample per supplied ray: the jittered camera rays
/// of one pixel go in, the un-averaged radiance sum comes out. Where
/// every ray escapes the scene the sum is exactly the summed sky — the
/// deterministic base case of the whole pipeline.
pub fn pixel_color(world: &HittableList, rays: &Vec<Ray>, max_depth: i32) -> (c: Color)
    requires
        world.wf(),
        forall|i: int| 0 <= i < rays@.len() ==> (#[trigger] rays@[i]).wf(),
        rays@.len() <= 0x100000000,
    ensures
        0 <= c.x <= rays@.len() * (FX_ONE as int),
        0 <= c.y <= rays@.len() * (FX_ONE as int),
        0 <= c.z <= rays@.len() * (FX_ONE as int),
        max_depth > 0 && (forall|i: int|
            0 <= i < rays@.len() ==> escapes(*world, #[trigger] rays@[i])) ==> c == sky_sum_spec(
            rays@,
        ),
{
    let mut color = Color::from(0);
    let n: usize = rays.len();
    let mut i: usize = 0;
    while i < n
        invariant
            n == rays@.len(),
            i <= n,
            n <= 0x100000000,
            world.wf(),
            forall|k: int| 0 <= k < rays@.len() ==> (#[trigger] rays@[k]).wf(),
            0 <= color.x <= i * 65536,
            0 <= color.y <= i * 65536,
            0 <= color.z <= i * 65536,
            max_depth > 0 && (forall|k: int|
                0 <= k < rays@.len() ==> escapes(*world, #[trigger] rays@[k])) ==> color
                == sky_sum_spec(rays@.take(i as int)),
        decreases n - i,
    {
        let ghost prefix = rays@.take(i as int);
        let ray = rays[i];
        let sample = ray_color(&ray, world, max_depth);
        color = color.add(sample);
        i = i + 1;
        proof {
            assert(rays@.take(i as int).drop_last() =~= prefix);
            assert(rays@.take(i as int).last() == rays@[i - 1]);
            lemma_sky_sum_bounds(prefix);
            lemma_sky_color_bounds(rays@[i - 1].dir);
        }
    }
    proof {
        assert(rays@.take(n as int) =~= rays@);
    }
    color
}

} // verus!
