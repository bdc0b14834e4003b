//! Rays: an origin plus a direction, with the parametric point evaluator.

use vstd::prelude::*;
use crate::fixed::fx_mul_spec;
use crate::fixed::fx_mul;
use crate::fixed::lemma_fx_mul_range;
use crate::vector::Vec3;
use crate::vector::Point3;

verus! {

/// Magnitude cap on ray-origin components the tracer works with:
/// 16384 whole units.
pub const ORIGIN_LIMIT: i64 = 0x40000000;

/// Magnitude cap on ray-direction components: 1024 whole units.
pub const DIR_LIMIT: i64 = 0x4000000;

/// Upper bound on the ray parameter, standing in for infinity:
/// 2^24 whole units.
pub const T_LIMIT: i64 = 0x10000000000;

#[derive(Clone, Copy, Debug)]
pub struct Ray {
    pub origin: Point3,
    pub dir: Vec3,
}

impl Ray {
    /// Origin and direction within the tracer's working ranges.
    pub open spec fn wf(self) -> bool {
        &&& self.origin.in_bounds(ORIGIN_LIMIT as int)
        &&& self.dir.in_bounds(DIR_LIMIT as int)
    }

    /// The point a parameter `t` along the ray: `origin + t * dir`.
    pub open spec fn at_spec(self, t: int) -> Point3 {
        Vec3 {
            x: (self.origin.x + fx_mul_spec(t, self.dir.x as int)) as i64,
            y: (self.origin.y + fx_mul_spec(t, self.dir.y as int)) as i64,
            z: (self.origin.z + fx_mul_spec(t, self.dir.z as int)) as i64,
        }
    }

    pub fn at(self, t: i64) -> (r: Point3)
        requires
            self.wf(),
            -T_LIMIT <= t <= T_LIMIT,
        ensures
            r == self.at_spec(t as int),
            r.in_bounds(0x8000000000000int),
    {
        proof {
            lemma_fx_mul_range(t as int, self.dir.x as int, T_LIMIT as int, DIR_LIMIT as int);
            lemma_fx_mul_range(t as int, self.dir.y as int, T_LIMIT as int, DIR_LIMIT as int);
            lemma_fx_mul_range(t as int, self.dir.z as int, T_LIMIT as int, DIR_LIMIT as int);
        }
        self.origin.add(self.dir.scale(t))
    }
}

} // verus!
