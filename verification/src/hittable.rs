//! The result of a ray-object intersection test, and the capability that
//! intersectable objects expose.

use vstd::prelude::*;
use crate::material::Material;
use crate::material::Lambertian;
use crate::ray::Ray;
use crate::ray::ORIGIN_LIMIT;
use crate::ray::T_LIMIT;
use crate::sphere::Sphere;
use crate::sphere::sphere_hit_spec;
use crate::sphere::lemma_sphere_hit_bounds;
use crate::sphere::lemma_sphere_hit_restrict;
use crate::vector::Vec3;
use crate::vector::Point3;
use crate::vector::UNIT_LIMIT;
use crate::vector::VEC_LIMIT;

verus! {

#[derive(Clone, Copy, Debug)]
pub struct HitRecord {
    pub p: Point3,
    pub normal: Vec3,
    pub t: i64,
    pub front_face: bool,
    pub material: Material,
}

impl HitRecord {
    /// A record the shader can act on: the hit point and unit normal are
    /// within working ranges, the normal is normalizable, the parameter is
    /// a forward distance, and the material is well-formed.
    pub open spec fn wf(self) -> bool {
        &&& self.p.in_bounds(ORIGIN_LIMIT as int)
        &&& self.normal.in_bounds(UNIT_LIMIT as int)
        &&& self.normal.has_direction()
        &&& 0 <= self.t <= T_LIMIT
        &&& self.material.wf()
    }

    /// Orients the stored normal against the incoming ray: the outward
    /// normal is kept when the ray arrives from outside, flipped when it
    /// arrives from inside.
    pub fn set_face_normal(&mut self, ray: &Ray, outward_normal: Point3)
        requires
            ray.dir.in_bounds(VEC_LIMIT as int),
            outward_normal.in_bounds(VEC_LIMIT as int),
        ensures
            final(self).front_face == (ray.dir.dot_spec(outward_normal) < 0),
            final(self).normal == if final(self).front_face {
                outward_normal
            } else {
                (Vec3 {
                    x: (-outward_normal.x) as i64,
                    y: (-outward_normal.y) as i64,
                    z: (-outward_normal.z) as i64,
                })
            },
            final(self).p == old(self).p,
            final(self).t == old(self).t,
            final(self).material == old(self).material,
    {
        self.front_face = ray.dir.dot(outward_normal) < 0;

        if self.front_face {
            self.normal = outward_normal;
        } else {
            self.normal = outward_normal.neg();
        }
    }

    /// Initializes an empty HitRecord to be used (and populated) by other
    /// functions.
    pub fn empty() -> (r: HitRecord)
        ensures
            r.p == (Vec3 { x: 0i64, y: 0i64, z: 0i64 }),
            r.normal == (Vec3 { x: 0i64, y: 0i64, z: 0i64 }),
            r.t == 0,
            r.front_face == false,
            r.material == Material::Lambertian(
                Lambertian { albedo: Vec3 { x: 0i64, y: 0i64, z: 0i64 } },
            ),
    {
        HitRecord {
            p: Vec3::from(0i64),
            normal: Vec3::from(0i64),
            t: 0,
            front_face: false,
            material: Material::Lambertian(Lambertian { albedo: Vec3::from(0i64) }),
        }
    }
}

/// The capability of being intersected by a ray: each implementor gives
/// the exact mathematical account of its `hit` answer.
pub trait Hittable {
    /// What the implementor asks of a query.
    spec fn hit_req(&self, r: Ray, t_min: i64, t_max: i64) -> bool;

    /// The exact answer of a query.
    spec fn hit_spec(&self, r: Ray, t_min: i64, t_max: i64) -> Option<HitRecord>;

    fn hit(&self, r: &Ray, t_min: i64, t_max: i64) -> (res: Option<HitRecord>)
        requires
            self.hit_req(*r, t_min, t_max),
        ensures
            res == self.hit_spec(*r, t_min, t_max),
    ;
}

pub struct HittableList {
    pub objects: Vec<Sphere>,
}

/// The one-pass nearest-hit reduction over a scene, processed in order:
/// each member is only asked about the interval up to the best parameter
/// seen so far, and a hit it reports becomes the new best.
pub open spec fn list_hit_spec(objs: Seq<Sphere>, r: Ray, t_min: int, t_max: int) -> Option<
    HitRecord,
>
    decreases objs.len(),
{
    if objs.len() == 0 {
        None
    } else {
        let prefix = list_hit_spec(objs.drop_last(), r, t_min, t_max);
        let bound = match prefix {
            Some(h) => h.t as int,
            None => t_max,
        };
        match sphere_hit_spec(objs.last(), r, t_min, bound) {
            Some(h) => Some(h),
            None => prefix,
        }
    }
}

impl HittableList {
    /// Every member of the scene is well-formed.
    pub open spec fn wf(self) -> bool {
        forall|i: int| 0 <= i < self.objects@.len() ==> (#[trigger] self.objects@[i]).wf()
    }
}

/// What the reduction guarantees of its answer: the parameter lies in the
/// queried interval, and over a well-formed scene the record is
/// well-formed.
pub proof fn lemma_list_hit_bounds(objs: Seq<Sphere>, r: Ray, t_min: int, t_max: int)
    requires
        0 <= t_min,
        t_max <= T_LIMIT as int,
    ensures
        match list_hit_spec(objs, r, t_min, t_max) {
            Some(h) => {
                &&& t_min <= h.t <= t_max
                &&& (forall|i: int|
                    0 <= i < objs.len() ==> (#[trigger] objs[i]).wf()) ==> h.wf()
            },
            None => true,
        },
    decreases objs.len(),
{
    if objs.len() > 0 {
        let prefix = objs.drop_last();
        lemma_list_hit_bounds(prefix, r, t_min, t_max);
        let pre = list_hit_spec(prefix, r, t_min, t_max);
        let bound = match pre {
            Some(h) => h.t as int,
            None => t_max as int,
        };
        lemma_sphere_hit_bounds(objs.last(), r, t_min, bound);
        assert(forall|i: int| 0 <= i < prefix.len() ==> prefix[i] == objs[i]);
        assert(objs.last() == objs[objs.len() - 1]);
    }
}

/// The closest-hit law of the scene aggregate: a reported hit is some
/// member's own report over the full interval, and no member reports a
/// strictly nearer hit; a miss means every member misses.
pub proof fn lemma_list_hit_closest(objs: Seq<Sphere>, r: Ray, t_min: int, t_max: int)
    requires
        0 <= t_min,
        t_max <= T_LIMIT as int,
    ensures
        match list_hit_spec(objs, r, t_min, t_max) {
            Some(h) => {
                &&& exists|i: int|
                    0 <= i < objs.len() && #[trigger] sphere_hit_spec(objs[i], r, t_min, t_max)
                        == Some(h)
                &&& forall|i: int|
                    0 <= i < objs.len() ==> match #[trigger] sphere_hit_spec(
                        objs[i],
                        r,
                        t_min,
                        t_max,
                    ) {
                        Some(hi) => h.t <= hi.t,
                        None => true,
                    }
            },
            None => forall|i: int|
                0 <= i < objs.len() ==> #[trigger] sphere_hit_spec(objs[i], r, t_min, t_max)
                    is None,
        },
    decreases objs.len(),
{
    if objs.len() > 0 {
        let prefix = objs.drop_last();
        lemma_list_hit_closest(prefix, r, t_min, t_max);
        lemma_list_hit_bounds(prefix, r, t_min, t_max);
        let pre = list_hit_spec(prefix, r, t_min, t_max);
        let bound = match pre {
            Some(h) => h.t as int,
            None => t_max as int,
        };
        lemma_sphere_hit_restrict(objs.last(), r, t_min, bound, t_max);
        assert(forall|i: int| 0 <= i < prefix.len() ==> prefix[i] == objs[i]);
        assert(objs.last() == objs[objs.len() - 1]);
    }
}

impl Hittable for HittableList {
    open spec fn hit_req(&self, r: Ray, t_min: i64, t_max: i64) -> bool {
        &&& self.wf()
        &&& r.wf()
        &&& 0 <= t_min <= t_max <= T_LIMIT
    }

    open spec fn hit_spec(&self, r: Ray, t_min: i64, t_max: i64) -> Option<HitRecord> {
        list_hit_spec(self.objects@, r, t_min as int, t_max as int)
    }

    fn hit(&self, r: &Ray, t_min: i64, t_max: i64) -> (res: Option<HitRecord>) {
        let mut temp: Option<HitRecord> = None;
        let mut closest_so_far: i64 = t_max;

        let n: usize = self.objects.len();
        let mut idx: usize = 0;
        while idx < n
            invariant
                n == self.objects@.len(),
                idx <= n,
                self.wf(),
                r.wf(),
                0 <= t_min <= t_max <= T_LIMIT,
                temp == list_hit_spec(
                    self.objects@.take(idx as int),
                    *r,
                    t_min as int,
                    t_max as int,
                ),
                closest_so_far as int == match temp {
                    Some(h) => h.t as int,
                    None => t_max as int,
                },
                t_min <= closest_so_far <= t_max,
            decreases n - idx,
        {
            let ghost prefix = self.objects@.take(idx as int);
            let obj: Sphere = self.objects[idx];
            match obj.hit(r, t_min, closest_so_far) {
                Some(record) => {
                    proof {
                        lemma_sphere_hit_bounds(obj, *r, t_min as int, closest_so_far as int);
                    }
                    closest_so_far = record.t;
                    temp = Some(record);
                },
                None => {},
            }
            idx = idx + 1;
            proof {
                assert(self.objects@.take(idx as int).drop_last() =~= prefix);
                assert(self.objects@.take(idx as int).last() == self.objects@[idx - 1]);
            }
        }
        proof {
            assert(self.objects@.take(n as int) =~= self.objects@);
        }
        temp
    }
}

} // verus!
